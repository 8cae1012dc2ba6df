//! The delimiter-grouping pass, as a specification state machine, and the
//! delimiter-balance law: a well-formed script has as many opens as matching
//! closes of each kind, and grouping it never leaves an open frame behind.
//!
//! Grouping and execution share one linear pass: while a frame is open, every
//! token other than the exact matching closer is buffered verbatim into it
//! (so only the innermost level of a nested group is folded at a time), and a
//! closer met with no open frame is an unmatched-delimiter error.

use vstd::prelude::*;
use crate::value::Op;
use crate::value::ValModel;

verus! {

/// The kind of a delimiter frame.
#[derive(PartialEq, Eq, Structural)]
pub ghost enum GroupKind {
    Tuple,
    Block,
    Array,
}

/// The frame kind a token opens, if any.
pub open spec fn open_kind(t: ValModel) -> Option<GroupKind> {
    match t {
        ValModel::Operation(Op::TupleStart) => Some(GroupKind::Tuple),
        ValModel::Operation(Op::BlockStart) => Some(GroupKind::Block),
        ValModel::Operation(Op::ArrayStart) => Some(GroupKind::Array),
        _ => None,
    }
}

/// The frame kind a token closes, if any.
pub open spec fn close_kind(t: ValModel) -> Option<GroupKind> {
    match t {
        ValModel::Operation(Op::TupleEnd) => Some(GroupKind::Tuple),
        ValModel::Operation(Op::BlockEnd) => Some(GroupKind::Block),
        ValModel::Operation(Op::ArrayEnd) => Some(GroupKind::Array),
        _ => None,
    }
}

/// One token of the grouping pass over the delimiter stack: with a frame
/// open, the exact matching closer pops it and any other token is buffered;
/// with none open, an opener pushes a fresh frame, a closer is an error, and
/// any other token passes through to execution.
pub open spec fn group_step(
    frames: Seq<(GroupKind, Seq<ValModel>)>,
    t: ValModel,
) -> Option<Seq<(GroupKind, Seq<ValModel>)>> {
    if frames.len() > 0 {
        let top = frames.last();
        if close_kind(t) == Some(top.0) {
            Some(frames.drop_last())
        } else {
            Some(frames.drop_last().push((top.0, top.1.push(t))))
        }
    } else {
        match open_kind(t) {
            Some(k) => Some(frames.push((k, Seq::empty()))),
            None => if close_kind(t) is Some {
                None
            } else {
                Some(frames)
            },
        }
    }
}

/// The grouping pass over a whole token sequence.
pub open spec fn group_run(
    frames: Seq<(GroupKind, Seq<ValModel>)>,
    input: Seq<ValModel>,
) -> Option<Seq<(GroupKind, Seq<ValModel>)>>
    decreases input.len(),
{
    if input.len() == 0 {
        Some(frames)
    } else {
        match group_step(frames, input[0]) {
            None => None,
            Some(f2) => group_run(f2, input.skip(1)),
        }
    }
}

/// How many tokens of a sequence open frames of the given kind.
pub open spec fn count_opens(s: Seq<ValModel>, k: GroupKind) -> int
    decreases s.len(),
{
    if s.len() == 0 {
        0
    } else {
        (if open_kind(s[0]) == Some(k) {
            1int
        } else {
            0int
        }) + count_opens(s.skip(1), k)
    }
}

/// How many tokens of a sequence close frames of the given kind.
pub open spec fn count_closes(s: Seq<ValModel>, k: GroupKind) -> int
    decreases s.len(),
{
    if s.len() == 0 {
        0
    } else {
        (if close_kind(s[0]) == Some(k) {
            1int
        } else {
            0int
        }) + count_closes(s.skip(1), k)
    }
}

/// No token of the segment closes the given kind.
pub open spec fn free_of_closer(s: Seq<ValModel>, k: GroupKind) -> bool {
    forall|i: int| 0 <= i < s.len() ==> close_kind(s[i]) != Some(k)
}

/// A well-formed script: every opener has a matching closer, the segment
/// between holds no closer of the same kind (groups of one kind do not nest
/// within themselves: buffering is flat) and is itself well formed, and no
/// closer appears without its opener.
pub open spec fn well_formed(s: Seq<ValModel>) -> bool
    decreases s.len(),
{
    if s.len() == 0 {
        true
    } else {
        match open_kind(s[0]) {
            Some(k) => exists|j: int|
                1 <= j < s.len() && close_kind(#[trigger] s[j]) == Some(k) && free_of_closer(
                    s.subrange(1, j),
                    k,
                ) && well_formed(s.subrange(1, j)) && well_formed(s.skip(j + 1)),
            None => close_kind(s[0]) is None && well_formed(s.skip(1)),
        }
    }
}

/// Grouping distributes over concatenation of the input.
pub proof fn lemma_group_run_append(
    frames: Seq<(GroupKind, Seq<ValModel>)>,
    a: Seq<ValModel>,
    b: Seq<ValModel>,
)
    ensures
        group_run(frames, a + b) == match group_run(frames, a) {
            None => None::<Seq<(GroupKind, Seq<ValModel>)>>,
            Some(f2) => group_run(f2, b),
        },
    decreases a.len(),
{
    if a.len() == 0 {
        assert(a + b =~= b);
    } else {
        assert((a + b)[0] == a[0]);
        match group_step(frames, a[0]) {
            None => {},
            Some(f2) => {
                assert((a + b).skip(1) =~= a.skip(1) + b);
                lemma_group_run_append(f2, a.skip(1), b);
            },
        }
    }
}

/// While a frame of kind `k` is the only one open, a segment without a closer
/// of kind `k` is buffered whole into it.
proof fn lemma_group_buffer(k: GroupKind, buf: Seq<ValModel>, seg: Seq<ValModel>)
    requires
        free_of_closer(seg, k),
    ensures
        group_run(seq![(k, buf)], seg) == Some(seq![(k, buf + seg)]),
    decreases seg.len(),
{
    if seg.len() == 0 {
        assert(buf + seg =~= buf);
    } else {
        let t = seg[0];
        assert(close_kind(t) != Some(k));
        assert(seq![(k, buf)].drop_last().push((k, buf.push(t))) =~= seq![(k, buf.push(t))]);
        lemma_group_buffer(k, buf.push(t), seg.skip(1));
        assert(buf.push(t) + seg.skip(1) =~= buf + seg);
    }
}

/// Counting distributes over concatenation.
proof fn lemma_count_append(a: Seq<ValModel>, b: Seq<ValModel>, k: GroupKind)
    ensures
        count_opens(a + b, k) == count_opens(a, k) + count_opens(b, k),
        count_closes(a + b, k) == count_closes(a, k) + count_closes(b, k),
    decreases a.len(),
{
    if a.len() == 0 {
        assert(a + b =~= b);
    } else {
        assert((a + b)[0] == a[0]);
        assert((a + b).skip(1) =~= a.skip(1) + b);
        lemma_count_append(a.skip(1), b, k);
    }
}

/// The delimiter-balance law: a well-formed script has exactly as many opens
/// as closes of each kind, and the grouping pass, started with no open frame,
/// ends with no open frame.
pub proof fn lemma_delimiter_balance(s: Seq<ValModel>, k: GroupKind)
    requires
        well_formed(s),
    ensures
        count_opens(s, k) == count_closes(s, k),
        group_run(Seq::empty(), s) == Some(Seq::<(GroupKind, Seq<ValModel>)>::empty()),
    decreases s.len(),
{
    let empty_frames = Seq::<(GroupKind, Seq<ValModel>)>::empty();
    if s.len() == 0 {
    } else {
        match open_kind(s[0]) {
            Some(k0) => {
                let j = choose|j: int|
                    1 <= j < s.len() && close_kind(#[trigger] s[j]) == Some(k0) && free_of_closer(
                        s.subrange(1, j),
                        k0,
                    ) && well_formed(s.subrange(1, j)) && well_formed(s.skip(j + 1));
                let seg = s.subrange(1, j);
                let rest = s.skip(j + 1);
                // machine: open, buffer the segment, close, then the rest
                assert(group_step(empty_frames, s[0]) == Some(seq![(k0, Seq::<ValModel>::empty())]));
                lemma_group_buffer(k0, Seq::empty(), seg);
                assert(Seq::<ValModel>::empty() + seg =~= seg);
                assert(group_step(seq![(k0, seg)], s[j]) == Some(empty_frames)) by {
                    assert(seq![(k0, seg)].drop_last() =~= empty_frames);
                }
                lemma_delimiter_balance(rest, k);
                assert(s =~= seq![s[0]] + seg + seq![s[j]] + rest);
                let tail = seg + seq![s[j]] + rest;
                assert(s.skip(1) =~= tail);
                lemma_group_run_append(seq![(k0, Seq::<ValModel>::empty())], seg, seq![s[j]] + rest);
                assert(group_run(empty_frames, s) == group_run(
                    seq![(k0, Seq::<ValModel>::empty())],
                    tail,
                )) by {
                    assert(s.skip(1) == tail);
                }
                assert(group_run(seq![(k0, seg)], seq![s[j]] + rest) == group_run(
                    empty_frames,
                    rest,
                )) by {
                    lemma_group_run_append(seq![(k0, seg)], seq![s[j]], rest);
                    assert(seq![s[j]].skip(1) =~= Seq::<ValModel>::empty());
                    assert(group_run(empty_frames, Seq::<ValModel>::empty()) == Some(empty_frames));
                    assert(group_run(seq![(k0, seg)], seq![s[j]]) == Some(empty_frames));
                }
                // counts
                lemma_delimiter_balance(seg, k);
                lemma_count_append(seq![s[0]], seg + seq![s[j]] + rest, k);
                lemma_count_append(seg, seq![s[j]] + rest, k);
                lemma_count_append(seq![s[j]], rest, k);
                assert(seq![s[0]] + (seg + seq![s[j]] + rest) =~= s);
                assert(seg + (seq![s[j]] + rest) =~= seg + seq![s[j]] + rest);
                assert(count_opens(seq![s[0]], k) == (if open_kind(s[0]) == Some(k) {
                    1int
                } else {
                    0int
                })) by {
                    assert(seq![s[0]].skip(1) =~= Seq::<ValModel>::empty());
                    assert(count_opens(Seq::<ValModel>::empty(), k) == 0);
                    assert(count_closes(Seq::<ValModel>::empty(), k) == 0);
                }
                assert(count_closes(seq![s[0]], k) == 0) by {
                    assert(seq![s[0]].skip(1) =~= Seq::<ValModel>::empty());
                    assert(count_closes(Seq::<ValModel>::empty(), k) == 0);
                }
                assert(count_opens(seq![s[j]], k) == 0) by {
                    assert(seq![s[j]].skip(1) =~= Seq::<ValModel>::empty());
                    assert(count_opens(Seq::<ValModel>::empty(), k) == 0);
                }
                assert(count_closes(seq![s[j]], k) == (if close_kind(s[j]) == Some(k) {
                    1int
                } else {
                    0int
                })) by {
                    assert(seq![s[j]].skip(1) =~= Seq::<ValModel>::empty());
                    assert(count_opens(Seq::<ValModel>::empty(), k) == 0);
                    assert(count_closes(Seq::<ValModel>::empty(), k) == 0);
                }
            },
            None => {
                lemma_delimiter_balance(s.skip(1), k);
                assert(group_step(empty_frames, s[0]) == Some(empty_frames));
                assert(s =~= seq![s[0]] + s.skip(1));
                lemma_count_append(seq![s[0]], s.skip(1), k);
                assert(count_opens(seq![s[0]], k) == 0 && count_closes(seq![s[0]], k) == 0) by {
                    assert(seq![s[0]].skip(1) =~= Seq::<ValModel>::empty());
                    assert(count_opens(Seq::<ValModel>::empty(), k) == 0);
                    assert(count_closes(Seq::<ValModel>::empty(), k) == 0);
                }
            },
        }
    }
}

} // verus!

