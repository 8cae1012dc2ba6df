//! Tests of the lexer and of the canonical source renderer, including the
//! lexing round trip.

use knusper::error::EvalError;
use knusper::lexer::tokenize;
use knusper::render::render_tokens_source;
use knusper::value::Keyword;
use knusper::value::Op;
use knusper::value::Value;

#[test]
fn lexes_integers_identifiers_strings() {
    let toks = tokenize("12 abc \"hi there\" ").expect("lex");
    assert_eq!(toks.len(), 3);
    assert!(matches!(toks[0], Value::Int(12)));
    match &toks[1] {
        Value::Ident(s) => assert_eq!(s, "abc"),
        other => panic!("expected identifier, got {:?}", other),
    }
    match &toks[2] {
        Value::String(s) => assert_eq!(s, "hi there"),
        other => panic!("expected string, got {:?}", other),
    }
}

#[test]
fn lexes_keywords() {
    let toks = tokenize("let global print println fn for if ").expect("lex");
    let expected = [
        Keyword::Let,
        Keyword::Global,
        Keyword::Print,
        Keyword::PrintLn,
        Keyword::Fn,
        Keyword::For,
        Keyword::If,
    ];
    assert_eq!(toks.len(), expected.len());
    for (tok, want) in toks.iter().zip(expected.iter()) {
        match tok {
            Value::Keyword(k) => assert_eq!(k, want),
            other => panic!("expected keyword, got {:?}", other),
        }
    }
}

#[test]
fn keyword_prefix_is_an_identifier() {
    let toks = tokenize("form ").expect("lex");
    match &toks[0] {
        Value::Ident(s) => assert_eq!(s, "form"),
        other => panic!("expected identifier, got {:?}", other),
    }
}

#[test]
fn lexes_operator_glyphs() {
    let toks = tokenize("+ - * / % = ! ( ) { } [ ] @ # ").expect("lex");
    let expected = [
        Op::Add,
        Op::Sub,
        Op::Mul,
        Op::Div,
        Op::Mod,
        Op::Assign,
        Op::Invert,
        Op::TupleStart,
        Op::TupleEnd,
        Op::BlockStart,
        Op::BlockEnd,
        Op::ArrayStart,
        Op::ArrayEnd,
        Op::CallFn,
        Op::IndexArray,
    ];
    assert_eq!(toks.len(), expected.len());
    for (tok, want) in toks.iter().zip(expected.iter()) {
        match tok {
            Value::Operation(op) => assert_eq!(op, want),
            other => panic!("expected operator, got {:?}", other),
        }
    }
}

#[test]
fn lexes_compound_assignments() {
    let toks = tokenize("+= -= *= /= ").expect("lex");
    let expected = [Op::AddAssign, Op::SubAssign, Op::MulAssign, Op::DivAssign];
    assert_eq!(toks.len(), expected.len());
    for (tok, want) in toks.iter().zip(expected.iter()) {
        match tok {
            Value::Operation(op) => assert_eq!(op, want),
            other => panic!("expected operator, got {:?}", other),
        }
    }
}

#[test]
fn operator_followed_by_other_glyph_reprocesses() {
    let toks = tokenize("+- ").expect("lex");
    assert_eq!(toks.len(), 2);
    assert!(matches!(toks[0], Value::Operation(Op::Add)));
    assert!(matches!(toks[1], Value::Operation(Op::Sub)));
}

#[test]
fn pending_tokens_at_end_of_input_are_errors() {
    assert!(matches!(tokenize("123"), Err(EvalError::LexError)));
    assert!(matches!(tokenize("abc"), Err(EvalError::LexError)));
    assert!(matches!(tokenize("+"), Err(EvalError::LexError)));
}

#[test]
fn unterminated_string_is_an_error() {
    assert!(matches!(tokenize("\"abc"), Err(EvalError::LexError)));
}

#[test]
fn unrecognized_character_is_an_error() {
    assert!(matches!(tokenize("~"), Err(EvalError::LexError)));
    assert!(matches!(tokenize("2 3 ^ "), Err(EvalError::LexError)));
}

#[test]
fn equals_folds_only_after_arithmetic_operators() {
    let toks = tokenize("%= ").expect("lex");
    assert_eq!(toks.len(), 2);
    assert!(matches!(toks[0], Value::Operation(Op::Mod)));
    assert!(matches!(toks[1], Value::Operation(Op::Assign)));
    let toks = tokenize("== ").expect("lex");
    assert_eq!(toks.len(), 2);
    assert!(matches!(toks[0], Value::Operation(Op::Assign)));
    assert!(matches!(toks[1], Value::Operation(Op::Assign)));
    let toks = tokenize("+== ").expect("lex");
    assert_eq!(toks.len(), 2);
    assert!(matches!(toks[0], Value::Operation(Op::AddAssign)));
    assert!(matches!(toks[1], Value::Operation(Op::Assign)));
}

#[test]
fn integer_literal_bounds() {
    let toks = tokenize("2147483647 ").expect("lex");
    assert!(matches!(toks[0], Value::Int(2147483647)));
    assert!(tokenize("2147483648 ").is_err());
    assert!(tokenize("99999999999999999999 ").is_err());
}

#[test]
fn lexing_round_trip() {
    let tokens = vec![
        Value::Int(42),
        Value::String("hi there".to_string()),
        Value::Ident("abc9".to_string()),
        Value::Int(0),
        Value::Int(2147483647),
    ];
    let rendered = render_tokens_source(&tokens);
    let relexed = tokenize(rendered.as_str()).expect("rendered tokens must lex");
    assert_eq!(relexed.len(), tokens.len());
    for (got, want) in relexed.iter().zip(tokens.iter()) {
        match (got, want) {
            (Value::Int(a), Value::Int(b)) => assert_eq!(a, b),
            (Value::String(a), Value::String(b)) => assert_eq!(a, b),
            (Value::Ident(a), Value::Ident(b)) => assert_eq!(a, b),
            other => panic!("token kinds differ: {:?}", other),
        }
    }
}

#[test]
fn renderer_spells_tokens_canonically() {
    let tokens = vec![Value::Int(307), Value::String("x y".to_string()), Value::Ident("k".to_string())];
    let rendered = render_tokens_source(&tokens);
    assert_eq!(rendered, "307 \"x y\" k ");
}
