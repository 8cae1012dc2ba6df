//! The lexer: source text to a flat token sequence.
//!
//! A small per-character state machine with four active states (idle,
//! accumulating-integer, accumulating-identifier, accumulating-string) plus a
//! pending-operator state that recognises compound assignment.  The spec-level
//! machine (`lex_step` / `lex_all` / `spec_tokenize`) is the reference; the
//! executable `tokenize` is proved to agree with it exactly.

use vstd::prelude::*;
use crate::error::EvalError;
use crate::value::Keyword;
use crate::value::Op;
use crate::value::ValModel;
use crate::value::Value;
use crate::value::models_of;
use crate::value::chars_to_string;

verus! {

// ---------------------------------------------------------------------------
// Character classes and digit arithmetic
// ---------------------------------------------------------------------------

pub open spec fn is_digit_char(c: char) -> bool {
    '0' <= c && c <= '9'
}

pub open spec fn is_alpha_char(c: char) -> bool {
    ('a' <= c && c <= 'z') || ('A' <= c && c <= 'Z')
}

pub open spec fn is_alnum_char(c: char) -> bool {
    is_alpha_char(c) || is_digit_char(c)
}

pub open spec fn is_space_char(c: char) -> bool {
    c == ' ' || c == '\n'
}

pub open spec fn digit_val(c: char) -> int {
    c as int - '0' as int
}

pub open spec fn all_digits(ds: Seq<char>) -> bool {
    forall|i: int| 0 <= i < ds.len() ==> is_digit_char(ds[i])
}

/// The base-10 value of a run of digit characters.
pub open spec fn digits_val(ds: Seq<char>) -> int
    decreases ds.len(),
{
    if ds.len() == 0 {
        0
    } else {
        digits_val(ds.drop_last()) * 10 + digit_val(ds.last())
    }
}

/// The operator instruction a single glyph stands for, if any.
pub open spec fn op_of_char(c: char) -> Option<Op> {
    if c == '+' {
        Some(Op::Add)
    } else if c == '-' {
        Some(Op::Sub)
    } else if c == '*' {
        Some(Op::Mul)
    } else if c == '/' {
        Some(Op::Div)
    } else if c == '%' {
        Some(Op::Mod)
    } else if c == '=' {
        Some(Op::Assign)
    } else if c == '!' {
        Some(Op::Invert)
    } else if c == '(' {
        Some(Op::TupleStart)
    } else if c == ')' {
        Some(Op::TupleEnd)
    } else if c == '{' {
        Some(Op::BlockStart)
    } else if c == '}' {
        Some(Op::BlockEnd)
    } else if c == '[' {
        Some(Op::ArrayStart)
    } else if c == ']' {
        Some(Op::ArrayEnd)
    } else if c == '@' {
        Some(Op::CallFn)
    } else if c == '#' {
        Some(Op::IndexArray)
    } else {
        None
    }
}

/// The keyword an identifier spelling matches, if any (case-sensitive).
pub open spec fn keyword_of(s: Seq<char>) -> Option<Keyword> {
    if s == "let"@ {
        Some(Keyword::Let)
    } else if s == "global"@ {
        Some(Keyword::Global)
    } else if s == "print"@ {
        Some(Keyword::Print)
    } else if s == "println"@ {
        Some(Keyword::PrintLn)
    } else if s == "fn"@ {
        Some(Keyword::Fn)
    } else if s == "for"@ {
        Some(Keyword::For)
    } else if s == "if"@ {
        Some(Keyword::If)
    } else {
        None
    }
}

/// The token an accumulated identifier emits: a keyword where it matches,
/// otherwise an identifier.
pub open spec fn emit_ident(s: Seq<char>) -> ValModel {
    match keyword_of(s) {
        Some(k) => ValModel::Keyword(k),
        None => ValModel::Ident(s),
    }
}

/// The compound-assignment form of an operator, if it has one.
pub open spec fn compound_of(op: Op) -> Option<Op> {
    match op {
        Op::Add => Some(Op::AddAssign),
        Op::Sub => Some(Op::SubAssign),
        Op::Mul => Some(Op::MulAssign),
        Op::Div => Some(Op::DivAssign),
        _ => None,
    }
}

// ---------------------------------------------------------------------------
// The specification state machine
// ---------------------------------------------------------------------------

/// The lexer's state: idle, or accumulating one in-progress token.
pub ghost enum LexState {
    Idle,
    InInt(Seq<char>),
    InIdent(Seq<char>),
    InStr(Seq<char>),
    InOp(Op),
}

/// One character from the idle state: the new state; never a token.
pub open spec fn lex_idle(c: char) -> Option<LexState> {
    if is_digit_char(c) {
        Some(LexState::InInt(seq![c]))
    } else if is_alpha_char(c) {
        Some(LexState::InIdent(seq![c]))
    } else if c == '"' {
        Some(LexState::InStr(Seq::empty()))
    } else if is_space_char(c) {
        Some(LexState::Idle)
    } else {
        match op_of_char(c) {
            Some(op) => Some(LexState::InOp(op)),
            None => None,
        }
    }
}

/// One character of lexing: the next state and the tokens emitted, or a
/// lexing error.  The character that terminates a number or identifier, and
/// any character after a pending operator other than a `=` that folds it
/// into a compound assignment, is reprocessed from the idle state.
pub open spec fn lex_step(st: LexState, c: char) -> Option<(LexState, Seq<ValModel>)> {
    match st {
        LexState::Idle => match lex_idle(c) {
            Some(st2) => Some((st2, Seq::empty())),
            None => None,
        },
        LexState::InInt(ds) => {
            if is_digit_char(c) {
                Some((LexState::InInt(ds.push(c)), Seq::empty()))
            } else if digits_val(ds) <= i32::MAX {
                match lex_idle(c) {
                    Some(st2) => Some((st2, seq![ValModel::Int(digits_val(ds) as i32)])),
                    None => None,
                }
            } else {
                None
            }
        },
        LexState::InIdent(s) => {
            if is_alnum_char(c) {
                Some((LexState::InIdent(s.push(c)), Seq::empty()))
            } else {
                match lex_idle(c) {
                    Some(st2) => Some((st2, seq![emit_ident(s)])),
                    None => None,
                }
            }
        },
        LexState::InStr(s) => {
            if c == '"' {
                Some((LexState::Idle, seq![ValModel::String(s)]))
            } else {
                Some((LexState::InStr(s.push(c)), Seq::empty()))
            }
        },
        LexState::InOp(op) => {
            if c == '=' && compound_of(op) is Some {
                Some((LexState::InOp(compound_of(op)->Some_0), Seq::empty()))
            } else {
                match lex_idle(c) {
                    Some(st2) => Some((st2, seq![ValModel::Operation(op)])),
                    None => None,
                }
            }
        },
    }
}

/// Lexing a whole character sequence from a state.
pub open spec fn lex_all(st: LexState, cs: Seq<char>) -> Option<(LexState, Seq<ValModel>)>
    decreases cs.len(),
{
    if cs.len() == 0 {
        Some((st, Seq::empty()))
    } else {
        match lex_step(st, cs[0]) {
            None => None,
            Some((st2, t1)) => match lex_all(st2, cs.skip(1)) {
                None => None,
                Some((st3, t2)) => Some((st3, t1 + t2)),
            },
        }
    }
}

/// What an in-progress accumulation means at end of input: a number,
/// identifier, operator or string still open when the input ends never saw
/// its terminating character and is a lexing error.
pub open spec fn finish_tokens(st: LexState) -> Option<Seq<ValModel>> {
    match st {
        LexState::Idle => Some(Seq::empty()),
        _ => None,
    }
}

/// The token models of a source text, or None on a lexing error.
pub open spec fn spec_tokenize(cs: Seq<char>) -> Option<Seq<ValModel>> {
    match lex_all(LexState::Idle, cs) {
        None => None,
        Some((st, toks)) => match finish_tokens(st) {
            None => None,
            Some(extra) => Some(toks + extra),
        },
    }
}

/// Once an accumulated integer is out of range, lexing can only fail:
/// further digits only grow it, and any terminator rejects it.
proof fn lemma_int_overflow(ds: Seq<char>, cs: Seq<char>)
    requires
        all_digits(ds),
        digits_val(ds) > i32::MAX,
    ensures
        match lex_all(LexState::InInt(ds), cs) {
            None => true,
            Some((st2, t)) => st2 matches LexState::InInt(ds2) && digits_val(ds2) > i32::MAX,
        },
    decreases cs.len(),
{
    if cs.len() > 0 {
        let c = cs[0];
        if is_digit_char(c) {
            let ds2 = ds.push(c);
            assert(ds2.drop_last() =~= ds);
            assert(digits_val(ds2) == digits_val(ds) * 10 + digit_val(c));
            assert(digits_val(ds) * 10 >= digits_val(ds));
            assert(all_digits(ds2));
            lemma_int_overflow(ds2, cs.skip(1));
        }
    }
}

// ---------------------------------------------------------------------------
// The executable lexer
// ---------------------------------------------------------------------------

/// The executable lexing mode; buffers are held beside it.
enum Mode {
    Idle,
    InInt,
    InIdent,
    InStr,
    InOp(Op),
}

/// Whether a character vector spells exactly the given string.
fn vec_chars_eq_str(v: &Vec<char>, s: &str) -> (r: bool)
    ensures
        r == (v@ == s@),
{
    let n = s.unicode_len();
    if v.len() != n {
        return false;
    }
    let mut i: usize = 0;
    while i < n
        invariant
            i <= n,
            n == s@.len(),
            v@.len() == n,
            forall|j: int| 0 <= j < i ==> v@[j] == s@[j],
        decreases n - i,
    {
        if v[i] != s.get_char(i) {
            return false;
        }
        i += 1;
    }
    proof {
        assert(v@ =~= s@);
    }
    true
}

/// The operator instruction a glyph stands for.
fn op_for_char(c: char) -> (r: Option<Op>)
    ensures
        r == op_of_char(c),
{
    match c {
        '+' => Some(Op::Add),
        '-' => Some(Op::Sub),
        '*' => Some(Op::Mul),
        '/' => Some(Op::Div),
        '%' => Some(Op::Mod),
        '=' => Some(Op::Assign),
        '!' => Some(Op::Invert),
        '(' => Some(Op::TupleStart),
        ')' => Some(Op::TupleEnd),
        '{' => Some(Op::BlockStart),
        '}' => Some(Op::BlockEnd),
        '[' => Some(Op::ArrayStart),
        ']' => Some(Op::ArrayEnd),
        '@' => Some(Op::CallFn),
        '#' => Some(Op::IndexArray),
        _ => None,
    }
}

/// The compound-assignment form of an operator, if it has one.
fn compound_for(op: Op) -> (r: Option<Op>)
    ensures
        r == compound_of(op),
{
    match op {
        Op::Add => Some(Op::AddAssign),
        Op::Sub => Some(Op::SubAssign),
        Op::Mul => Some(Op::MulAssign),
        Op::Div => Some(Op::DivAssign),
        _ => None,
    }
}

/// The keyword or identifier token an accumulated spelling emits.
fn ident_token(buf: &Vec<char>) -> (r: Value)
    ensures
        r.model() == emit_ident(buf@),
{
    if vec_chars_eq_str(buf, "let") {
        Value::Keyword(Keyword::Let)
    } else if vec_chars_eq_str(buf, "global") {
        Value::Keyword(Keyword::Global)
    } else if vec_chars_eq_str(buf, "print") {
        Value::Keyword(Keyword::Print)
    } else if vec_chars_eq_str(buf, "println") {
        Value::Keyword(Keyword::PrintLn)
    } else if vec_chars_eq_str(buf, "fn") {
        Value::Keyword(Keyword::Fn)
    } else if vec_chars_eq_str(buf, "for") {
        Value::Keyword(Keyword::For)
    } else if vec_chars_eq_str(buf, "if") {
        Value::Keyword(Keyword::If)
    } else {
        Value::Ident(chars_to_string(buf))
    }
}

/// Classify a character seen from the idle state.
fn lex_idle_exec(c: char) -> (r: Result<Mode, EvalError>)
    ensures
        match r {
            Ok(m) => match m {
                Mode::Idle => lex_idle(c) == Some(LexState::Idle),
                Mode::InInt => is_digit_char(c) && lex_idle(c) == Some(LexState::InInt(seq![c])),
                Mode::InIdent => lex_idle(c) == Some(LexState::InIdent(seq![c])),
                Mode::InStr => lex_idle(c) == Some(LexState::InStr(Seq::<char>::empty())),
                Mode::InOp(op) => lex_idle(c) == Some(LexState::InOp(op)),
            },
            Err(e) => e == EvalError::LexError && lex_idle(c) is None,
        },
{
    if '0' <= c && c <= '9' {
        Ok(Mode::InInt)
    } else if ('a' <= c && c <= 'z') || ('A' <= c && c <= 'Z') {
        Ok(Mode::InIdent)
    } else if c == '"' {
        Ok(Mode::InStr)
    } else if c == ' ' || c == '\n' {
        Ok(Mode::Idle)
    } else {
        match op_for_char(c) {
            Some(op) => Ok(Mode::InOp(op)),
            None => Err(EvalError::LexError),
        }
    }
}

/// The spec state the executable locals stand for.
spec fn st_of(mode: Mode, ds: Seq<char>, buf: Seq<char>) -> LexState {
    match mode {
        Mode::Idle => LexState::Idle,
        Mode::InInt => LexState::InInt(ds),
        Mode::InIdent => LexState::InIdent(buf),
        Mode::InStr => LexState::InStr(buf),
        Mode::InOp(op) => LexState::InOp(op),
    }
}

/// `lex_all` with already-emitted tokens prepended.
spec fn lex_cont(st: LexState, cs: Seq<char>, done: Seq<ValModel>) -> Option<
    (LexState, Seq<ValModel>),
> {
    match lex_all(st, cs) {
        None => None,
        Some((s2, t)) => Some((s2, done + t)),
    }
}

/// Convert the source text into an ordered sequence of tokens.
///
/// Digits accumulate a base-10 integer (an error if it exceeds the 32-bit
/// signed range); an alphabetic start accumulates an identifier, matched
/// against the keyword set when it ends; a double quote accumulates a string
/// until the closing quote; space and newline separate tokens; the operator
/// glyphs map one to one to operator instructions, with `+= -= *= /=` folded
/// into compound assignments (after any other operator a `=` is an ordinary
/// assignment token).  Any token still open at end of input never saw its
/// terminating character and is a `LexError`, as is an unrecognised
/// character.
pub fn tokenize(src: &str) -> (r: Result<Vec<Value>, EvalError>)
    ensures
        match r {
            Ok(vals) => spec_tokenize(src@) == Some(models_of(vals@)),
            Err(e) => e == EvalError::LexError && spec_tokenize(src@) is None,
        },
{
    let n = src.unicode_len();
    let mut out: Vec<Value> = Vec::new();
    let mut mode = Mode::Idle;
    let mut acc: u32 = 0;
    let ghost mut ds: Seq<char> = Seq::empty();
    let mut buf: Vec<char> = Vec::new();
    let mut i: usize = 0;
    proof {
        assert(src@.skip(0) =~= src@);
        assert(models_of(out@) =~= Seq::<ValModel>::empty());
        if lex_all(LexState::Idle, src@) is Some {
            assert(Seq::<ValModel>::empty() + lex_all(LexState::Idle, src@)->Some_0.1 =~= lex_all(
                LexState::Idle,
                src@,
            )->Some_0.1);
        }
    }
    while i < n
        invariant
            i <= n,
            n == src@.len(),
            mode matches Mode::InInt ==> all_digits(ds) && digits_val(ds) == acc
                && acc <= 0x7fff_ffffu32,
            lex_all(LexState::Idle, src@) == lex_cont(
                st_of(mode, ds, buf@),
                src@.skip(i as int),
                models_of(out@),
            ),
        decreases n - i,
    {
        let c = src.get_char(i);
        let ghost st = st_of(mode, ds, buf@);
        let ghost rest = src@.skip(i as int);
        proof {
            assert(rest.len() > 0);
            assert(rest[0] == c);
            assert(rest.skip(1) =~= src@.skip(i as int + 1));
        }
        match mode {
            Mode::Idle => {
                match lex_idle_exec(c) {
                    Ok(m2) => {
                        match m2 {
                            Mode::InInt => {
                                acc = (c as u32) - ('0' as u32);
                                proof {
                                    ds = seq![c];
                                    assert(seq![c].drop_last() =~= Seq::<char>::empty());
                                        assert(digits_val(Seq::<char>::empty()) == 0);
                                    assert(digits_val(Seq::<char>::empty()) == 0);
                                    assert(digits_val(seq![c]) == digit_val(c));
                                }
                            },
                            Mode::InIdent => {
                                buf = Vec::new();
                                buf.push(c);
                                proof {
                                    assert(buf@ =~= seq![c]);
                                }
                            },
                            Mode::InStr => {
                                buf = Vec::new();
                                proof {
                                    assert(buf@ =~= Seq::<char>::empty());
                                }
                            },
                            _ => {},
                        }
                        mode = m2;
                    },
                    Err(e) => {
                        proof {
                            assert(lex_step(st, c) is None);
                            assert(lex_all(st, rest) is None);
                        }
                        return Err(e);
                    },
                }
            },
            Mode::InInt => {
                if '0' <= c && c <= '9' {
                    let d = (c as u32) - ('0' as u32);
                    let wide: u64 = (acc as u64) * 10 + (d as u64);
                    proof {
                        assert(digits_val(ds.push(c)) == digits_val(ds) * 10 + digit_val(c)) by {
                            assert(ds.push(c).drop_last() =~= ds);
                        }
                        assert(all_digits(ds.push(c)));
                    }
                    if wide > 0x7fff_ffffu64 {
                        proof {
                            lemma_int_overflow(ds.push(c), src@.skip(i as int + 1));
                            assert(lex_step(st, c) == Some(
                                (LexState::InInt(ds.push(c)), Seq::<ValModel>::empty()),
                            ));
                        }
                        return Err(EvalError::LexError);
                    }
                    acc = wide as u32;
                    proof {
                        ds = ds.push(c);
                        assert(Seq::<ValModel>::empty() + lex_all(
                            LexState::InInt(ds),
                            src@.skip(i as int + 1),
                        )->Some_0.1 =~= lex_all(LexState::InInt(ds), src@.skip(i as int + 1))->Some_0.1);
                    }
                } else {
                    let v = Value::Int(acc as i32);
                    proof {
                        assert(v.model() == ValModel::Int(digits_val(ds) as i32));
                    }
                    match lex_idle_exec(c) {
                        Ok(m2) => {
                            out.push(v);
                            proof {
                                assert(models_of(out@) =~= models_of(out@.drop_last()).push(
                                    v.model(),
                                ));
                            }
                            match m2 {
                                Mode::InInt => {
                                    acc = (c as u32) - ('0' as u32);
                                    proof {
                                        ds = seq![c];
                                        assert(seq![c].drop_last() =~= Seq::<char>::empty());
                                        assert(digits_val(Seq::<char>::empty()) == 0);
                                        assert(digits_val(seq![c]) == digit_val(c));
                                    }
                                },
                                Mode::InIdent => {
                                    buf = Vec::new();
                                    buf.push(c);
                                    proof {
                                        assert(buf@ =~= seq![c]);
                                    }
                                },
                                Mode::InStr => {
                                    buf = Vec::new();
                                    proof {
                                        assert(buf@ =~= Seq::<char>::empty());
                                    }
                                },
                                _ => {},
                            }
                            mode = m2;
                        },
                        Err(e) => {
                            proof {
                                assert(lex_step(st, c) is None);
                            }
                            return Err(e);
                        },
                    }
                }
            },
            Mode::InIdent => {
                if ('a' <= c && c <= 'z') || ('A' <= c && c <= 'Z') || ('0' <= c && c <= '9') {
                    buf.push(c);
                } else {
                    let v = ident_token(&buf);
                    match lex_idle_exec(c) {
                        Ok(m2) => {
                            out.push(v);
                            buf = Vec::new();
                            match m2 {
                                Mode::InInt => {
                                    acc = (c as u32) - ('0' as u32);
                                    proof {
                                        ds = seq![c];
                                        assert(seq![c].drop_last() =~= Seq::<char>::empty());
                                        assert(digits_val(Seq::<char>::empty()) == 0);
                                        assert(digits_val(seq![c]) == digit_val(c));
                                    }
                                },
                                Mode::InIdent => {
                                    buf.push(c);
                                    proof {
                                        assert(buf@ =~= seq![c]);
                                    }
                                },
                                Mode::InStr => {
                                    proof {
                                        assert(buf@ =~= Seq::<char>::empty());
                                    }
                                },
                                _ => {},
                            }
                            mode = m2;
                        },
                        Err(e) => {
                            proof {
                                assert(lex_step(st, c) is None);
                            }
                            return Err(e);
                        },
                    }
                }
            },
            Mode::InStr => {
                if c == '"' {
                    let s = chars_to_string(&buf);
                    let v = Value::String(s);
                    out.push(v);
                    buf = Vec::new();
                    mode = Mode::Idle;
                } else {
                    buf.push(c);
                }
            },
            Mode::InOp(op) => {
                let comp = if c == '=' {
                    compound_for(op)
                } else {
                    None
                };
                match comp {
                    Some(cop) => {
                        mode = Mode::InOp(cop);
                    },
                    None => {
                    let v = Value::Operation(op);
                    match lex_idle_exec(c) {
                        Ok(m2) => {
                            out.push(v);
                            match m2 {
                                Mode::InInt => {
                                    acc = (c as u32) - ('0' as u32);
                                    proof {
                                        ds = seq![c];
                                        assert(seq![c].drop_last() =~= Seq::<char>::empty());
                                        assert(digits_val(Seq::<char>::empty()) == 0);
                                        assert(digits_val(seq![c]) == digit_val(c));
                                    }
                                },
                                Mode::InIdent => {
                                    buf = Vec::new();
                                    buf.push(c);
                                    proof {
                                        assert(buf@ =~= seq![c]);
                                    }
                                },
                                Mode::InStr => {
                                    buf = Vec::new();
                                    proof {
                                        assert(buf@ =~= Seq::<char>::empty());
                                    }
                                },
                                _ => {},
                            }
                            mode = m2;
                        },
                            Err(e) => {
                                proof {
                                    assert(lex_step(st, c) is None);
                                }
                                return Err(e);
                            },
                        }
                    },
                }
            },
        }
        i += 1;
    }
    proof {
        assert(src@.skip(i as int) =~= Seq::<char>::empty());
        assert(lex_all(st_of(mode, ds, buf@), src@.skip(i as int)) == Some(
            (st_of(mode, ds, buf@), Seq::<ValModel>::empty()),
        ));
        assert(models_of(out@) + Seq::<ValModel>::empty() =~= models_of(out@));
    }
    match mode {
        Mode::Idle => Ok(out),
        _ => Err(EvalError::LexError),
    }
}

} // verus!
