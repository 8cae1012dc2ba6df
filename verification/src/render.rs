//! The canonical source renderer of literal tokens, and the lexing
//! round-trip law: rendering valid literal tokens and lexing the result
//! gives back exactly the original tokens.

use vstd::prelude::*;
use vstd::string::StringExecFns;
use vstd::string::StrSliceExecFns;
use vstd::arithmetic::div_mod::lemma_fundamental_div_mod;
use crate::value::Keyword;
use crate::value::Op;
use crate::value::ValModel;
use crate::value::Value;
use crate::value::models_of;
use crate::value::chars_to_string;
use crate::lexer::LexState;
use crate::lexer::all_digits;
use crate::lexer::digit_val;
use crate::lexer::digits_val;
use crate::lexer::emit_ident;
use crate::lexer::is_alnum_char;
use crate::lexer::is_alpha_char;
use crate::lexer::is_digit_char;
use crate::lexer::keyword_of;
use crate::lexer::lex_all;
use crate::lexer::lex_idle;
use crate::lexer::lex_step;
use crate::lexer::spec_tokenize;

verus! {

// ---------------------------------------------------------------------------
// Decimal rendering of non-negative integers
// ---------------------------------------------------------------------------

/// The digit character of a value in 0..9.
pub open spec fn digit_char(d: int) -> char {
    if d == 0 {
        '0'
    } else if d == 1 {
        '1'
    } else if d == 2 {
        '2'
    } else if d == 3 {
        '3'
    } else if d == 4 {
        '4'
    } else if d == 5 {
        '5'
    } else if d == 6 {
        '6'
    } else if d == 7 {
        '7'
    } else if d == 8 {
        '8'
    } else {
        '9'
    }
}

/// The decimal spelling of a non-negative integer.
pub open spec fn dec_chars(n: int) -> Seq<char>
    decreases n,
{
    if n < 10 {
        seq![digit_char(n)]
    } else {
        dec_chars(n / 10).push(digit_char(n % 10))
    }
}

/// Decimal rendering is a right inverse of digit-run evaluation.
pub proof fn lemma_dec_chars(n: int)
    requires
        n >= 0,
    ensures
        all_digits(dec_chars(n)),
        digits_val(dec_chars(n)) == n,
        dec_chars(n).len() > 0,
    decreases n,
{
    if n < 10 {
        assert(seq![digit_char(n)].drop_last() =~= Seq::<char>::empty());
        assert(digits_val(Seq::<char>::empty()) == 0);
        assert(digit_val(digit_char(n)) == n);
    } else {
        lemma_dec_chars(n / 10);
        lemma_fundamental_div_mod(n, 10);
        let d = n % 10;
        assert(0 <= d < 10);
        assert(dec_chars(n) == dec_chars(n / 10).push(digit_char(d)));
        assert(dec_chars(n).drop_last() =~= dec_chars(n / 10));
        assert(digit_val(digit_char(d)) == d);
        assert(digits_val(dec_chars(n)) == digits_val(dec_chars(n / 10)) * 10 + d);
    }
}

// ---------------------------------------------------------------------------
// The canonical renderer, in specification
// ---------------------------------------------------------------------------

/// The source spelling of a literal token.
pub open spec fn render_token(t: ValModel) -> Seq<char> {
    match t {
        ValModel::Int(i) => dec_chars(i as int),
        ValModel::String(s) => seq!['"'] + s + seq!['"'],
        ValModel::Ident(s) => s,
        _ => Seq::empty(),
    }
}

/// A literal token the lexer can produce: a non-negative integer, a string
/// without an embedded quote, or a non-keyword identifier.
pub open spec fn lexable_literal(t: ValModel) -> bool {
    match t {
        ValModel::Int(i) => i >= 0,
        ValModel::String(s) => forall|j: int| 0 <= j < s.len() ==> s[j] != '"',
        ValModel::Ident(s) => s.len() > 0 && is_alpha_char(s[0]) && (forall|j: int|
            0 <= j < s.len() ==> is_alnum_char(s[j])) && keyword_of(s) is None,
        _ => false,
    }
}

/// The source spelling of a token sequence: each token followed by a space.
pub open spec fn render_tokens(ts: Seq<ValModel>) -> Seq<char>
    decreases ts.len(),
{
    if ts.len() == 0 {
        Seq::empty()
    } else {
        render_token(ts[0]) + seq![' '] + render_tokens(ts.skip(1))
    }
}

// ---------------------------------------------------------------------------
// Lexing lemmas
// ---------------------------------------------------------------------------

/// Lexing distributes over concatenation of the input.
pub proof fn lemma_lex_all_append(st: LexState, a: Seq<char>, b: Seq<char>)
    ensures
        lex_all(st, a + b) == match lex_all(st, a) {
            None => None::<(LexState, Seq<ValModel>)>,
            Some((s2, t1)) => match lex_all(s2, b) {
                None => None::<(LexState, Seq<ValModel>)>,
                Some((s3, t2)) => Some((s3, t1 + t2)),
            },
        },
    decreases a.len(),
{
    if a.len() == 0 {
        assert(a + b =~= b);
        if lex_all(st, b) is Some {
            let (s3, t2) = lex_all(st, b)->Some_0;
            assert(Seq::<ValModel>::empty() + t2 =~= t2);
        }
    } else {
        let c = a[0];
        assert((a + b)[0] == c);
        assert((a + b).len() > 0);
        match lex_step(st, c) {
            None => {},
            Some((s2, t1)) => {
                assert((a + b).skip(1) =~= a.skip(1) + b);
                lemma_lex_all_append(s2, a.skip(1), b);
                match lex_all(s2, a.skip(1)) {
                    None => {},
                    Some((s3, t2)) => {
                        match lex_all(s3, b) {
                            None => {},
                            Some((s4, t3)) => {
                                assert(t1 + (t2 + t3) =~= (t1 + t2) + t3);
                            },
                        }
                    },
                }
            },
        }
    }
}

/// A run of digits only extends the accumulated integer.
proof fn lemma_lex_digits(ds: Seq<char>, more: Seq<char>)
    requires
        all_digits(more),
    ensures
        lex_all(LexState::InInt(ds), more) == Some(
            (LexState::InInt(ds + more), Seq::<ValModel>::empty()),
        ),
    decreases more.len(),
{
    if more.len() == 0 {
        assert(ds + more =~= ds);
    } else {
        let c = more[0];
        assert(is_digit_char(c));
        assert(all_digits(more.skip(1)));
        lemma_lex_digits(ds.push(c), more.skip(1));
        assert(ds.push(c) + more.skip(1) =~= ds + more);
        assert(Seq::<ValModel>::empty() + Seq::<ValModel>::empty() =~= Seq::<ValModel>::empty());
    }
}

/// A run of alphanumerics only extends the accumulated identifier.
proof fn lemma_lex_alnum(s: Seq<char>, more: Seq<char>)
    requires
        forall|j: int| 0 <= j < more.len() ==> is_alnum_char(more[j]),
    ensures
        lex_all(LexState::InIdent(s), more) == Some(
            (LexState::InIdent(s + more), Seq::<ValModel>::empty()),
        ),
    decreases more.len(),
{
    if more.len() == 0 {
        assert(s + more =~= s);
    } else {
        let c = more[0];
        assert(is_alnum_char(c));
        lemma_lex_alnum(s.push(c), more.skip(1));
        assert(s.push(c) + more.skip(1) =~= s + more);
        assert(Seq::<ValModel>::empty() + Seq::<ValModel>::empty() =~= Seq::<ValModel>::empty());
    }
}

/// Characters other than the quote only extend the accumulated string.
proof fn lemma_lex_str(s: Seq<char>, more: Seq<char>)
    requires
        forall|j: int| 0 <= j < more.len() ==> more[j] != '"',
    ensures
        lex_all(LexState::InStr(s), more) == Some(
            (LexState::InStr(s + more), Seq::<ValModel>::empty()),
        ),
    decreases more.len(),
{
    if more.len() == 0 {
        assert(s + more =~= s);
    } else {
        let c = more[0];
        lemma_lex_str(s.push(c), more.skip(1));
        assert(s.push(c) + more.skip(1) =~= s + more);
        assert(Seq::<ValModel>::empty() + Seq::<ValModel>::empty() =~= Seq::<ValModel>::empty());
    }
}

/// One rendered literal token followed by a space lexes to exactly that token
/// and returns the machine to the idle state.
#[verifier::rlimit(60)]
proof fn lemma_lex_one_token(t: ValModel)
    requires
        lexable_literal(t),
    ensures
        lex_all(LexState::Idle, render_token(t) + seq![' ']) == Some((LexState::Idle, seq![t])),
{
    reveal_with_fuel(lex_all, 4);
    match t {
        ValModel::Int(i) => {
            let cs = dec_chars(i as int);
            lemma_dec_chars(i as int);
            let c0 = cs[0];
            assert(is_digit_char(c0));
            assert(cs =~= seq![c0] + cs.skip(1));
            assert(all_digits(cs.skip(1)));
            lemma_lex_digits(seq![c0], cs.skip(1));
            assert(seq![c0] + cs.skip(1) =~= cs);
            // lex_all(Idle, cs) == Some((InInt(cs), []))
            let whole = render_token(t) + seq![' '];
            lemma_lex_all_append(LexState::Idle, cs, seq![' ']);
            assert(lex_all(LexState::Idle, cs) == Some(
                (LexState::InInt(cs), Seq::<ValModel>::empty()),
            )) by {
                assert(lex_step(LexState::Idle, c0) == Some(
                    (LexState::InInt(seq![c0]), Seq::<ValModel>::empty()),
                ));
                assert(Seq::<ValModel>::empty() + Seq::<ValModel>::empty()
                    =~= Seq::<ValModel>::empty());
            }
            assert(lex_all(LexState::InInt(cs), seq![' ']) == Some(
                (LexState::Idle, seq![ValModel::Int(digits_val(cs) as i32)]),
            )) by {
                assert(!is_digit_char(' '));
                assert(digits_val(cs) == i as int);
                assert(seq![' '].skip(1) =~= Seq::<char>::empty());
                assert(seq![ValModel::Int(digits_val(cs) as i32)] + Seq::<ValModel>::empty()
                    =~= seq![ValModel::Int(digits_val(cs) as i32)]);
            }
            assert(digits_val(cs) as i32 == i);
            assert(Seq::<ValModel>::empty() + seq![t] =~= seq![t]);
        },
        ValModel::String(s) => {
            let whole = render_token(t) + seq![' '];
            let opened = seq!['"'] + s;
            assert(render_token(t) =~= seq!['"'] + (s + seq!['"']));
            lemma_lex_all_append(LexState::Idle, seq!['"'], s + seq!['"'] + seq![' ']);
            assert(whole =~= seq!['"'] + (s + seq!['"'] + seq![' ']));
            assert(lex_all(LexState::Idle, seq!['"']) == Some(
                (LexState::InStr(Seq::<char>::empty()), Seq::<ValModel>::empty()),
            )) by {
                assert(lex_idle('"') == Some(LexState::InStr(Seq::<char>::empty())));
                assert(seq!['"'].skip(1) =~= Seq::<char>::empty());
                assert(Seq::<ValModel>::empty() + Seq::<ValModel>::empty()
                    =~= Seq::<ValModel>::empty());
            }
            lemma_lex_str(Seq::<char>::empty(), s);
            assert(Seq::<char>::empty() + s =~= s);
            lemma_lex_all_append(LexState::InStr(Seq::<char>::empty()), s, seq!['"', ' ']);
            assert(s + seq!['"'] + seq![' '] =~= s + seq!['"', ' ']);
            assert(lex_all(LexState::InStr(s), seq!['"', ' ']) == Some(
                (LexState::Idle, seq![ValModel::String(s)]),
            )) by {
                assert(seq!['"', ' '][0] == '"');
                assert(seq!['"', ' '].skip(1) =~= seq![' ']);
                assert(lex_step(LexState::InStr(s), '"') == Some(
                    (LexState::Idle, seq![ValModel::String(s)]),
                ));
                assert(lex_step(LexState::Idle, ' ') == Some(
                    (LexState::Idle, Seq::<ValModel>::empty()),
                ));
                assert(seq![' '].skip(1) =~= Seq::<char>::empty());
                assert(Seq::<ValModel>::empty() + Seq::<ValModel>::empty()
                    =~= Seq::<ValModel>::empty());
                assert(seq![ValModel::String(s)] + Seq::<ValModel>::empty()
                    =~= seq![ValModel::String(s)]);
            }
            assert(Seq::<ValModel>::empty() + (Seq::<ValModel>::empty() + seq![t]) =~= seq![t]);
        },
        ValModel::Ident(s) => {
            let whole = render_token(t) + seq![' '];
            let c0 = s[0];
            assert(is_alpha_char(c0));
            assert(!is_digit_char(c0));
            lemma_lex_all_append(LexState::Idle, s, seq![' ']);
            assert(lex_all(LexState::Idle, s) == Some(
                (LexState::InIdent(s), Seq::<ValModel>::empty()),
            )) by {
                assert(lex_step(LexState::Idle, c0) == Some(
                    (LexState::InIdent(seq![c0]), Seq::<ValModel>::empty()),
                ));
                assert(forall|j: int| 0 <= j < s.skip(1).len() ==> is_alnum_char(s.skip(1)[j]));
                lemma_lex_alnum(seq![c0], s.skip(1));
                assert(seq![c0] + s.skip(1) =~= s);
                assert(Seq::<ValModel>::empty() + Seq::<ValModel>::empty()
                    =~= Seq::<ValModel>::empty());
            }
            assert(lex_all(LexState::InIdent(s), seq![' ']) == Some(
                (LexState::Idle, seq![emit_ident(s)]),
            )) by {
                assert(!is_alnum_char(' '));
                assert(seq![' '].skip(1) =~= Seq::<char>::empty());
                assert(seq![emit_ident(s)] + Seq::<ValModel>::empty() =~= seq![emit_ident(s)]);
            }
            assert(emit_ident(s) == t);
            assert(Seq::<ValModel>::empty() + seq![t] =~= seq![t]);
        },
        _ => {},
    }
}

/// Rendering a sequence of literal tokens lexes back to exactly that
/// sequence, ending idle.
proof fn lemma_lex_rendered(ts: Seq<ValModel>)
    requires
        forall|i: int| 0 <= i < ts.len() ==> lexable_literal(#[trigger] ts[i]),
    ensures
        lex_all(LexState::Idle, render_tokens(ts)) == Some((LexState::Idle, ts)),
    decreases ts.len(),
{
    if ts.len() == 0 {
        assert(ts =~= Seq::<ValModel>::empty());
    } else {
        let head = render_token(ts[0]) + seq![' '];
        let tail = render_tokens(ts.skip(1));
        assert(render_tokens(ts) =~= head + tail);
        lemma_lex_one_token(ts[0]);
        assert(forall|i: int| 0 <= i < ts.skip(1).len() ==> lexable_literal(#[trigger] ts.skip(1)[i]));
        lemma_lex_rendered(ts.skip(1));
        lemma_lex_all_append(LexState::Idle, head, tail);
        assert(seq![ts[0]] + ts.skip(1) =~= ts);
    }
}

/// The lexing round trip: any sequence of valid literal tokens, printed back
/// via the canonical source renderer and lexed again, gives exactly the
/// original token kinds and values.
pub proof fn lemma_lexing_round_trip(ts: Seq<ValModel>)
    requires
        forall|i: int| 0 <= i < ts.len() ==> lexable_literal(#[trigger] ts[i]),
    ensures
        spec_tokenize(render_tokens(ts)) == Some(ts),
{
    lemma_lex_rendered(ts);
    assert(ts + Seq::<ValModel>::empty() =~= ts);
}

// ---------------------------------------------------------------------------
// The executable renderer
// ---------------------------------------------------------------------------

/// The digit character of a value in 0..9.
fn digit_char_exec(d: u32) -> (r: char)
    requires
        d < 10,
    ensures
        r == digit_char(d as int),
{
    match d {
        0 => '0',
        1 => '1',
        2 => '2',
        3 => '3',
        4 => '4',
        5 => '5',
        6 => '6',
        7 => '7',
        8 => '8',
        _ => '9',
    }
}

/// Append the decimal spelling of `n` to `out`.
fn push_dec_chars(n: u32, out: &mut Vec<char>)
    ensures
        final(out)@ == old(out)@ + dec_chars(n as int),
    decreases n,
{
    if n < 10 {
        out.push(digit_char_exec(n));
        proof {
            assert(final(out)@ =~= old(out)@ + dec_chars(n as int));
        }
    } else {
        push_dec_chars(n / 10, out);
        out.push(digit_char_exec(n % 10));
        proof {
            assert(final(out)@ =~= old(out)@ + dec_chars(n as int));
        }
    }
}

/// Render a literal token in its canonical source spelling.
pub fn render_token_source(v: &Value) -> (r: String)
    requires
        lexable_literal(v.model()),
    ensures
        r@ == render_token(v.model()),
{
    match v {
        Value::Int(i) => {
            let mut cs: Vec<char> = Vec::new();
            push_dec_chars(*i as u32, &mut cs);
            proof {
                assert(Seq::<char>::empty() + dec_chars(*i as int) =~= dec_chars(*i as int));
            }
            chars_to_string(&cs)
        },
        Value::String(s) => {
            let mut r = String::from_str("\"");
            r.append(s.as_str());
            r.append("\"");
            proof {
                reveal_strlit("\"");
                assert(r@ =~= render_token(v.model()));
            }
            r
        },
        Value::Ident(s) => s.clone(),
        _ => {
            proof {
                assert(false);
            }
            vstd::pervasive::unreached()
        },
    }
}

/// Rendering a token sequence appends one more rendered token and a space.
proof fn lemma_render_tokens_snoc(ts: Seq<ValModel>, t: ValModel)
    ensures
        render_tokens(ts.push(t)) == render_tokens(ts) + render_token(t) + seq![' '],
    decreases ts.len(),
{
    reveal_with_fuel(render_tokens, 3);
    if ts.len() == 0 {
        assert(ts.push(t)[0] == t);
        assert(ts.push(t).skip(1) =~= Seq::<ValModel>::empty());
        assert(render_tokens(ts.push(t)) =~= render_tokens(ts) + render_token(t) + seq![' ']);
    } else {
        assert(ts.push(t).skip(1) =~= ts.skip(1).push(t));
        lemma_render_tokens_snoc(ts.skip(1), t);
        assert(ts.push(t)[0] == ts[0]);
        assert(render_tokens(ts.push(t)) =~= render_tokens(ts) + render_token(t) + seq![' ']);
    }
}

/// Render a sequence of literal tokens, each followed by a space: the
/// canonical renderer whose output lexes back to the same tokens.
pub fn render_tokens_source(ts: &Vec<Value>) -> (r: String)
    requires
        forall|i: int| 0 <= i < ts@.len() ==> lexable_literal(#[trigger] ts@[i].model()),
    ensures
        r@ == render_tokens(models_of(ts@)),
{
    let mut r = String::new();
    let mut i: usize = 0;
    proof {
        assert(models_of(ts@).take(0) =~= Seq::<ValModel>::empty());
    }
    while i < ts.len()
        invariant
            i <= ts@.len(),
            forall|j: int| 0 <= j < ts@.len() ==> lexable_literal(#[trigger] ts@[j].model()),
            r@ == render_tokens(models_of(ts@).take(i as int)),
        decreases ts@.len() - i,
    {
        let piece = render_token_source(&ts[i]);
        r.append(piece.as_str());
        r.append(" ");
        proof {
            reveal_strlit(" ");
            let ms = models_of(ts@);
            assert(ms.take(i as int).push(ms[i as int]) =~= ms.take(i as int + 1));
            lemma_render_tokens_snoc(ms.take(i as int), ms[i as int]);
            assert(r@ =~= render_tokens(ms.take(i as int + 1)));
        }
        i += 1;
    }
    proof {
        assert(models_of(ts@).take(ts@.len() as int) =~= models_of(ts@));
    }
    r
}

// ---------------------------------------------------------------------------
// The display renderer of runtime values
// ---------------------------------------------------------------------------

/// The canonical textual rendering of a value when printed: integers as
/// signed decimal, characters and strings as themselves, identifiers and
/// native references in a tagged form, tuples space-joined in parentheses,
/// blocks and arrays as newline-framed listings, functions as `(fn)`, the
/// no-value sentinel as `none`; a function shows its parameter list.
pub open spec fn render_spec(v: Value) -> Seq<char>
    decreases v, 0int,
{
    match v {
        Value::Int(i) => if i >= 0 {
            dec_chars(i as int)
        } else {
            seq!['-'] + dec_chars(-(i as int))
        },
        Value::Char(c) => seq![c],
        Value::String(s) => s@,
        Value::Ident(s) => "(ident: "@ + s@ + seq![')'],
        Value::ExtFn(s) => "(ext_fn: "@ + s@ + seq![')'],
        Value::Keyword(k) => keyword_name(k),
        Value::Operation(op) => "(op: "@ + op_name(op) + seq![')'],
        Value::Fn(f) => "(fn: ("@ + join_names(f.args, 0) + "))"@,
        Value::Tuple(t) => seq!['('] + render_join(t, 0) + seq![')'],
        Value::Block(t) => "{\n\t"@ + render_join(t, 0) + (if t@.len() > 0 {
            seq!['\n']
        } else {
            Seq::empty()
        }) + seq!['}'],
        Value::Array(t) => "[\n\t"@ + render_join(t, 0) + (if t@.len() > 0 {
            seq!['\n']
        } else {
            Seq::empty()
        }) + seq![']'],
        Value::NoValue => "none"@,
    }
}

/// The parameter names from index `i` on, joined by single spaces.
pub open spec fn join_names(args: Vec<String>, i: int) -> Seq<char>
    decreases args@.len() - i,
{
    if i < 0 || i >= args@.len() {
        Seq::empty()
    } else if i == args@.len() - 1 {
        args@[i]@
    } else {
        args@[i]@ + seq![' '] + join_names(args, i + 1)
    }
}

/// The renderings of the elements from index `i` on, joined by single spaces.
pub open spec fn render_join(t: Vec<Value>, i: int) -> Seq<char>
    decreases t, t@.len() - i,
{
    if i < 0 || i >= t@.len() {
        Seq::empty()
    } else if i == t@.len() - 1 {
        render_spec(t@[i])
    } else {
        render_spec(t@[i]) + seq![' '] + render_join(t, i + 1)
    }
}

/// The printed name of a keyword instruction.
pub open spec fn keyword_name(k: Keyword) -> Seq<char> {
    match k {
        Keyword::Let => "Let"@,
        Keyword::Global => "Global"@,
        Keyword::Print => "Print"@,
        Keyword::PrintLn => "PrintLn"@,
        Keyword::Fn => "Fn"@,
        Keyword::For => "For"@,
        Keyword::If => "If"@,
    }
}

/// The printed name of an operator instruction.
pub open spec fn op_name(op: Op) -> Seq<char> {
    match op {
        Op::Add => "Add"@,
        Op::Sub => "Sub"@,
        Op::Mul => "Mul"@,
        Op::Div => "Div"@,
        Op::Mod => "Mod"@,
        Op::Assign => "Assign"@,
        Op::AddAssign => "AddAssign"@,
        Op::SubAssign => "SubAssign"@,
        Op::MulAssign => "MulAssign"@,
        Op::DivAssign => "DivAssign"@,
        Op::Invert => "Invert"@,
        Op::TupleStart => "TupleStart"@,
        Op::TupleEnd => "TupleEnd"@,
        Op::BlockStart => "BlockStart"@,
        Op::BlockEnd => "BlockEnd"@,
        Op::ArrayStart => "ArrayStart"@,
        Op::ArrayEnd => "ArrayEnd"@,
        Op::CallFn => "CallFn"@,
        Op::IndexArray => "IndexArray"@,
    }
}

/// Append the characters of a string slice to a character vector.
fn push_str_chars(out: &mut Vec<char>, s: &str)
    ensures
        final(out)@ == old(out)@ + s@,
{
    let n = s.unicode_len();
    let mut i: usize = 0;
    while i < n
        invariant
            i <= n,
            n == s@.len(),
            out@ == old(out)@ + s@.take(i as int),
        decreases n - i,
    {
        let c = s.get_char(i);
        out.push(c);
        proof {
            assert(out@ =~= old(out)@ + s@.take(i as int + 1));
        }
        i += 1;
    }
    proof {
        assert(old(out)@ + s@.take(n as int) =~= old(out)@ + s@);
    }
}

/// Append the printed name of a keyword.
fn push_keyword_name(out: &mut Vec<char>, k: Keyword)
    ensures
        final(out)@ == old(out)@ + keyword_name(k),
{
    match k {
        Keyword::Let => push_str_chars(out, "Let"),
        Keyword::Global => push_str_chars(out, "Global"),
        Keyword::Print => push_str_chars(out, "Print"),
        Keyword::PrintLn => push_str_chars(out, "PrintLn"),
        Keyword::Fn => push_str_chars(out, "Fn"),
        Keyword::For => push_str_chars(out, "For"),
        Keyword::If => push_str_chars(out, "If"),
    }
}

/// Append the printed name of an operator.
fn push_op_name(out: &mut Vec<char>, op: Op)
    ensures
        final(out)@ == old(out)@ + op_name(op),
{
    match op {
        Op::Add => push_str_chars(out, "Add"),
        Op::Sub => push_str_chars(out, "Sub"),
        Op::Mul => push_str_chars(out, "Mul"),
        Op::Div => push_str_chars(out, "Div"),
        Op::Mod => push_str_chars(out, "Mod"),
        Op::Assign => push_str_chars(out, "Assign"),
        Op::AddAssign => push_str_chars(out, "AddAssign"),
        Op::SubAssign => push_str_chars(out, "SubAssign"),
        Op::MulAssign => push_str_chars(out, "MulAssign"),
        Op::DivAssign => push_str_chars(out, "DivAssign"),
        Op::Invert => push_str_chars(out, "Invert"),
        Op::TupleStart => push_str_chars(out, "TupleStart"),
        Op::TupleEnd => push_str_chars(out, "TupleEnd"),
        Op::BlockStart => push_str_chars(out, "BlockStart"),
        Op::BlockEnd => push_str_chars(out, "BlockEnd"),
        Op::ArrayStart => push_str_chars(out, "ArrayStart"),
        Op::ArrayEnd => push_str_chars(out, "ArrayEnd"),
        Op::CallFn => push_str_chars(out, "CallFn"),
        Op::IndexArray => push_str_chars(out, "IndexArray"),
    }
}

/// Append the rendering of one value.
fn render_into(v: &Value, out: &mut Vec<char>)
    ensures
        final(out)@ == old(out)@ + render_spec(*v),
    decreases *v, 0int,
{
    match v {
        Value::Int(i) => {
            if *i >= 0 {
                push_dec_chars(*i as u32, out);
            } else {
                out.push('-');
                let mag = (-(*i as i64)) as u32;
                push_dec_chars(mag, out);
                proof {
                    assert(final(out)@ =~= old(out)@ + render_spec(*v));
                }
            }
        },
        Value::Char(c) => {
            out.push(*c);
            proof {
                assert(final(out)@ =~= old(out)@ + render_spec(*v));
            }
        },
        Value::String(s) => {
            push_str_chars(out, s.as_str());
        },
        Value::Ident(s) => {
            push_str_chars(out, "(ident: ");
            push_str_chars(out, s.as_str());
            out.push(')');
            proof {
                assert(final(out)@ =~= old(out)@ + render_spec(*v));
            }
        },
        Value::ExtFn(s) => {
            push_str_chars(out, "(ext_fn: ");
            push_str_chars(out, s.as_str());
            out.push(')');
            proof {
                assert(final(out)@ =~= old(out)@ + render_spec(*v));
            }
        },
        Value::Keyword(k) => {
            push_keyword_name(out, *k);
        },
        Value::Operation(op) => {
            push_str_chars(out, "(op: ");
            push_op_name(out, *op);
            out.push(')');
            proof {
                assert(final(out)@ =~= old(out)@ + render_spec(*v));
            }
        },
        Value::Fn(f) => {
            push_str_chars(out, "(fn: (");
            push_join_names(&f.args, 0, out);
            push_str_chars(out, "))");
            proof {
                assert(final(out)@ =~= old(out)@ + render_spec(*v));
            }
        },
        Value::Tuple(t) => {
            out.push('(');
            render_join_into(t, 0, out);
            out.push(')');
            proof {
                assert(final(out)@ =~= old(out)@ + render_spec(*v));
            }
        },
        Value::Block(t) => {
            push_str_chars(out, "{\n\t");
            render_join_into(t, 0, out);
            if t.len() > 0 {
                out.push('\n');
            }
            out.push('}');
            proof {
                assert(final(out)@ =~= old(out)@ + render_spec(*v));
            }
        },
        Value::Array(t) => {
            push_str_chars(out, "[\n\t");
            render_join_into(t, 0, out);
            if t.len() > 0 {
                out.push('\n');
            }
            out.push(']');
            proof {
                assert(final(out)@ =~= old(out)@ + render_spec(*v));
            }
        },
        Value::NoValue => {
            push_str_chars(out, "none");
        },
    }
}

/// Append the parameter names from `i` on, space-joined.
fn push_join_names(args: &Vec<String>, i: usize, out: &mut Vec<char>)
    ensures
        final(out)@ == old(out)@ + join_names(*args, i as int),
    decreases args@.len() - i,
{
    if i >= args.len() {
        proof {
            assert(final(out)@ =~= old(out)@ + join_names(*args, i as int));
        }
    } else if i == args.len() - 1 {
        push_str_chars(out, args[i].as_str());
    } else {
        push_str_chars(out, args[i].as_str());
        out.push(' ');
        push_join_names(args, i + 1, out);
        proof {
            assert(final(out)@ =~= old(out)@ + join_names(*args, i as int));
        }
    }
}

/// Append the renderings of the elements from `i` on, space-joined.
fn render_join_into(t: &Vec<Value>, i: usize, out: &mut Vec<char>)
    ensures
        final(out)@ == old(out)@ + render_join(*t, i as int),
    decreases *t, t@.len() - i,
{
    if i >= t.len() {
    } else if i == t.len() - 1 {
        render_into(&t[i], out);
    } else {
        render_into(&t[i], out);
        out.push(' ');
        render_join_into(t, i + 1, out);
        proof {
            assert(final(out)@ =~= old(out)@ + render_join(*t, i as int));
        }
    }
}

impl Value {
    /// The canonical textual rendering of this value, as printed.
    pub fn render(&self) -> (r: String)
        ensures
            r@ == render_spec(*self),
    {
        let mut out: Vec<char> = Vec::new();
        render_into(self, &mut out);
        proof {
            assert(Seq::<char>::empty() + render_spec(*self) =~= render_spec(*self));
        }
        chars_to_string(&out)
    }
}

} // verus!
