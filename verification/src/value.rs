//! The single tagged-union type used both for lexical tokens and runtime
//! values, together with its mathematical model.

use vstd::prelude::*;

verus! {

/// Keyword instructions recognised by the lexer.
#[derive(Debug, Clone, Copy, PartialEq, Eq, Structural)]
pub enum Keyword {
    Let,
    Global,
    Print,
    PrintLn,
    Fn,
    For,
    If,
}

/// Operator instructions recognised by the lexer.
#[derive(Debug, Clone, Copy, PartialEq, Eq, Structural)]
pub enum Op {
    Add,
    Sub,
    Mul,
    Div,
    Mod,
    Assign,
    AddAssign,
    SubAssign,
    MulAssign,
    DivAssign,
    Invert,
    TupleStart,
    TupleEnd,
    BlockStart,
    BlockEnd,
    ArrayStart,
    ArrayEnd,
    CallFn,
    IndexArray,
}

/// A user-defined function: ordered parameter names and an ordered body.
#[derive(Debug)]
pub struct Fn {
    pub args: Vec<String>,
    pub body: Vec<Value>,
}

/// A token or runtime value of the interpreter.
#[derive(Debug)]
pub enum Value {
    Int(i32),
    Char(char),
    String(String),
    Ident(String),
    ExtFn(String),
    Operation(Op),
    Keyword(Keyword),
    Fn(Fn),
    Tuple(Vec<Value>),
    Block(Vec<Value>),
    Array(Vec<Value>),
    NoValue,
}

/// The mathematical model of a `Value`: strings become character sequences
/// and vectors become sequences, so that contracts can speak of values
/// independently of heap representation.
#[verifier::ext_equal]
pub ghost enum ValModel {
    Int(i32),
    Char(char),
    String(Seq<char>),
    Ident(Seq<char>),
    ExtFn(Seq<char>),
    Operation(Op),
    Keyword(Keyword),
    Fn { args: Seq<Seq<char>>, body: Seq<ValModel> },
    Tuple(Seq<ValModel>),
    Block(Seq<ValModel>),
    Array(Seq<ValModel>),
    NoValue,
}

impl Value {
    /// The model of this value.
    pub open spec fn model(self) -> ValModel
        decreases self,
    {
        match self {
            Value::Int(i) => ValModel::Int(i),
            Value::Char(c) => ValModel::Char(c),
            Value::String(s) => ValModel::String(s@),
            Value::Ident(s) => ValModel::Ident(s@),
            Value::ExtFn(s) => ValModel::ExtFn(s@),
            Value::Operation(op) => ValModel::Operation(op),
            Value::Keyword(k) => ValModel::Keyword(k),
            Value::Fn(f) => ValModel::Fn {
                args: Seq::new(f.args@.len(), |i: int| f.args@[i]@),
                body: Seq::new(
                    f.body@.len(),
                    |i: int|
                        if 0 <= i < f.body@.len() {
                            f.body@[i].model()
                        } else {
                            ValModel::NoValue
                        },
                ),
            },
            Value::Tuple(t) => ValModel::Tuple(
                Seq::new(
                    t@.len(),
                    |i: int| if 0 <= i < t@.len() { t@[i].model() } else { ValModel::NoValue },
                ),
            ),
            Value::Block(t) => ValModel::Block(
                Seq::new(
                    t@.len(),
                    |i: int| if 0 <= i < t@.len() { t@[i].model() } else { ValModel::NoValue },
                ),
            ),
            Value::Array(t) => ValModel::Array(
                Seq::new(
                    t@.len(),
                    |i: int| if 0 <= i < t@.len() { t@[i].model() } else { ValModel::NoValue },
                ),
            ),
            Value::NoValue => ValModel::NoValue,
        }
    }
}

/// The models of a sequence of values, elementwise.
pub open spec fn models_of(s: Seq<Value>) -> Seq<ValModel> {
    s.map_values(|v: Value| v.model())
}

/// Relies on `Iterator::collect` for `String`: collecting characters yields
/// the string of exactly those characters, in order.
#[verifier::external_body]
pub fn chars_to_string(v: &Vec<char>) -> (r: String)
    ensures
        r@ == v@,
{
    v.iter().collect()
}

/// Deep copy of a value; the copy has the same model as the original.
pub fn copy_value(v: &Value) -> (r: Value)
    ensures
        r.model() == v.model(),
    decreases *v,
{
    match v {
        Value::Int(i) => Value::Int(*i),
        Value::Char(c) => Value::Char(*c),
        Value::String(s) => Value::String(s.clone()),
        Value::Ident(s) => Value::Ident(s.clone()),
        Value::ExtFn(s) => Value::ExtFn(s.clone()),
        Value::Operation(op) => Value::Operation(*op),
        Value::Keyword(k) => Value::Keyword(*k),
        Value::Fn(f) => {
            let mut args: Vec<String> = Vec::new();
            let mut i: usize = 0;
            while i < f.args.len()
                invariant
                    i <= f.args@.len(),
                    args@.len() == i,
                    forall|j: int| 0 <= j < i ==> args@[j]@ == f.args@[j]@,
                decreases f.args@.len() - i,
            {
                args.push(f.args[i].clone());
                i += 1;
            }
            let body = copy_values(&f.body);
            let r = Value::Fn(Fn { args, body });
            proof {
                match (r.model(), v.model()) {
                    (
                        ValModel::Fn { args: a2, body: b2 },
                        ValModel::Fn { args: a1, body: b1 },
                    ) => {
                        assert(a2 =~= a1);
                        assert(b2 =~= b1);
                    },
                    _ => {},
                }
            }
            r
        },
        Value::Tuple(t) => {
            let r = Value::Tuple(copy_values(t));
            proof { lemma_composite_model_eq(&r, v); }
            r
        },
        Value::Block(t) => {
            let r = Value::Block(copy_values(t));
            proof { lemma_composite_model_eq(&r, v); }
            r
        },
        Value::Array(t) => {
            let r = Value::Array(copy_values(t));
            proof { lemma_composite_model_eq(&r, v); }
            r
        },
        Value::NoValue => Value::NoValue,
    }
}

/// Two composite values whose element models agree elementwise have equal models.
proof fn lemma_composite_model_eq(a: &Value, b: &Value)
    requires
        match (*a, *b) {
            (Value::Tuple(ta), Value::Tuple(tb)) => ta@.len() == tb@.len() && forall|i: int|
                0 <= i < ta@.len() ==> ta@[i].model() == tb@[i].model(),
            (Value::Block(ta), Value::Block(tb)) => ta@.len() == tb@.len() && forall|i: int|
                0 <= i < ta@.len() ==> ta@[i].model() == tb@[i].model(),
            (Value::Array(ta), Value::Array(tb)) => ta@.len() == tb@.len() && forall|i: int|
                0 <= i < ta@.len() ==> ta@[i].model() == tb@[i].model(),
            _ => false,
        },
    ensures
        a.model() == b.model(),
{
    match (*a, *b) {
        (Value::Tuple(ta), Value::Tuple(tb)) => {
            match (a.model(), b.model()) {
                (ValModel::Tuple(sa), ValModel::Tuple(sb)) => {
                    assert(sa =~= sb);
                },
                _ => {},
            }
        },
        (Value::Block(ta), Value::Block(tb)) => {
            match (a.model(), b.model()) {
                (ValModel::Block(sa), ValModel::Block(sb)) => {
                    assert(sa =~= sb);
                },
                _ => {},
            }
        },
        (Value::Array(ta), Value::Array(tb)) => {
            match (a.model(), b.model()) {
                (ValModel::Array(sa), ValModel::Array(sb)) => {
                    assert(sa =~= sb);
                },
                _ => {},
            }
        },
        _ => {},
    }
}

/// Deep copy of a vector of values, preserving the elementwise models.
pub fn copy_values(vs: &Vec<Value>) -> (r: Vec<Value>)
    ensures
        r@.len() == vs@.len(),
        forall|i: int| 0 <= i < vs@.len() ==> r@[i].model() == vs@[i].model(),
    decreases *vs,
{
    let mut r: Vec<Value> = Vec::new();
    let mut i: usize = 0;
    while i < vs.len()
        invariant
            i <= vs@.len(),
            r@.len() == i,
            forall|j: int| 0 <= j < i ==> r@[j].model() == vs@[j].model(),
        decreases vs@.len() - i,
    {
        let c = copy_value(&vs[i]);
        r.push(c);
        i += 1;
    }
    r
}

} // verus!
