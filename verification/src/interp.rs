//! The evaluator: a stack machine over an execution context, with the
//! delimiter-grouping pass folded into its single left-to-right pass.

use vstd::prelude::*;
use vstd::string::StringExecFns;
use crate::error::EvalError;
use crate::group::GroupKind;
use crate::group::group_run;
use crate::group::group_step;
use crate::group::close_kind;
use crate::render::render_spec;
use crate::scope::VarTable;
use crate::value::Keyword;
use crate::value::Op;
use crate::value::ValModel;
use crate::value::Value;
use crate::value::copy_value;
use crate::value::models_of;

verus! {

/// An open delimiter frame: the tokens buffered since its opening marker.
#[derive(Debug)]
pub enum Delim {
    Tuple(Vec<Value>),
    Block(Vec<Value>),
    Array(Vec<Value>),
}

impl Delim {
    /// The kind and buffered token models of this frame.
    pub open spec fn model(self) -> (GroupKind, Seq<ValModel>) {
        match self {
            Delim::Tuple(t) => (GroupKind::Tuple, models_of(t@)),
            Delim::Block(t) => (GroupKind::Block, models_of(t@)),
            Delim::Array(t) => (GroupKind::Array, models_of(t@)),
        }
    }
}

/// The models of a stack of delimiter frames.
pub open spec fn delims_model(ds: Seq<Delim>) -> Seq<(GroupKind, Seq<ValModel>)> {
    ds.map_values(|d: Delim| d.model())
}

/// The execution context of one run: operand stack, local and global
/// variable tables, the transient delimiter stack, the registered native
/// function names, and the text printed so far.
#[derive(Debug)]
pub struct InterpreterState {
    pub stack: Vec<Value>,
    pub vars: VarTable,
    pub globals: VarTable,
    pub delims: Vec<Delim>,
    pub natives: Vec<String>,
    pub output: String,
}

impl InterpreterState {
    /// Both variable tables have unique names.
    pub open spec fn wf(self) -> bool {
        self.vars.wf() && self.globals.wf()
    }

    /// The models of the operand stack, bottom first.
    pub open spec fn stack_model(self) -> Seq<ValModel> {
        models_of(self.stack@)
    }

    /// The models of the delimiter stack.
    pub open spec fn delims_model(self) -> Seq<(GroupKind, Seq<ValModel>)> {
        delims_model(self.delims@)
    }

    /// The mathematical model of this context.
    pub open spec fn model(self) -> StateM {
        StateM {
            stack: self.stack_model(),
            vars: self.vars.as_map(),
            globals: self.globals.as_map(),
            delims: self.delims_model(),
            output: self.output@,
            natives: self.natives@.map_values(|s: String| s@),
        }
    }

    /// Whether a name is registered as a native function.
    pub open spec fn has_native(self, name: Seq<char>) -> bool {
        st_has_native(self.model(), name)
    }

    /// The value a name resolves to: locals first, then globals.
    pub open spec fn lookup(self, name: Seq<char>) -> Option<ValModel> {
        st_lookup(self.model(), name)
    }

    /// What a popped token resolves to when an integer is required.
    pub open spec fn spec_resolve_int(self, v: ValModel) -> Result<i32, EvalError> {
        st_resolve_int(self.model(), v)
    }

    /// What a popped token resolves to when any value is required.
    pub open spec fn spec_resolve(self, v: ValModel) -> Result<ValModel, EvalError> {
        st_resolve(self.model(), v)
    }

    /// A fresh context: empty stack, empty tables, the given native names.
    pub fn new(natives: Vec<String>) -> (r: InterpreterState)
        ensures
            r.wf(),
            r.stack@.len() == 0,
            r.vars.as_map() == Map::<Seq<char>, ValModel>::empty(),
            r.globals.as_map() == Map::<Seq<char>, ValModel>::empty(),
            r.delims@.len() == 0,
            r.natives == natives,
            r.output@ == Seq::<char>::empty(),
    {
        InterpreterState {
            stack: Vec::new(),
            vars: VarTable::new(),
            globals: VarTable::new(),
            delims: Vec::new(),
            natives,
            output: String::new(),
        }
    }

    /// Push a value onto the operand stack.
    pub fn push_value(&mut self, val: Value)
        ensures
            final(self).stack@ == old(self).stack@.push(val),
            final(self).vars == old(self).vars,
            final(self).globals == old(self).globals,
            final(self).delims == old(self).delims,
            final(self).natives == old(self).natives,
            final(self).output == old(self).output,
            final(self).stack_model() == old(self).stack_model().push(val.model()),
    {
        self.stack.push(val);
        proof {
            assert(final(self).stack_model() =~= old(self).stack_model().push(val.model()));
        }
    }

    /// Pop the top of the operand stack, if any.
    pub fn pop_value(&mut self) -> (r: Option<Value>)
        ensures
            final(self).vars == old(self).vars,
            final(self).globals == old(self).globals,
            final(self).delims == old(self).delims,
            final(self).natives == old(self).natives,
            final(self).output == old(self).output,
            match r {
                Some(v) => old(self).stack@.len() > 0 && v == old(self).stack@.last()
                    && final(self).stack@ == old(self).stack@.drop_last(),
                None => old(self).stack@.len() == 0 && final(self).stack@ == old(self).stack@,
            },
    {
        self.stack.pop()
    }

    /// Whether a name is registered in the native table.
    pub fn native_contains(&self, name: &String) -> (r: bool)
        ensures
            r == self.has_native(name@),
    {
        let mut i: usize = 0;
        while i < self.natives.len()
            invariant
                i <= self.natives@.len(),
                forall|j: int| 0 <= j < i ==> self.natives@[j]@ != name@,
            decreases self.natives@.len() - i,
        {
            if self.natives[i] == *name {
                proof {
                    assert(self.model().natives[i as int] == self.natives@[i as int]@);
                }
                return true;
            }
            i += 1;
        }
        proof {
            assert forall|j: int| 0 <= j < self.model().natives.len() implies self.model().natives[j]
                != name@ by {
                assert(self.model().natives[j] == self.natives@[j]@);
            }
        }
        false
    }

    /// The value bound to a name: locals first, then globals.
    pub fn get_var(&self, name: &String) -> (r: Option<&Value>)
        requires
            self.wf(),
        ensures
            match r {
                Some(v) => self.lookup(name@) == Some(v.model()),
                None => self.lookup(name@) is None,
            },
    {
        let local = self.vars.get(name);
        match local {
            Some(v) => Some(v),
            None => self.globals.get(name),
        }
    }

    /// Declare a local variable, bound to the no-value sentinel.
    pub fn add_var(&mut self, name: &String)
        requires
            old(self).wf(),
        ensures
            final(self).wf(),
            final(self).vars.as_map() == old(self).vars.as_map().insert(
                name@,
                ValModel::NoValue,
            ),
            final(self).globals == old(self).globals,
            final(self).stack@ == old(self).stack@,
            final(self).delims == old(self).delims,
            final(self).natives == old(self).natives,
            final(self).output == old(self).output,
    {
        self.vars.insert(name, Value::NoValue);
    }

    /// Declare a global variable, bound to the no-value sentinel.
    pub fn add_global(&mut self, name: &String)
        requires
            old(self).wf(),
        ensures
            final(self).wf(),
            final(self).globals.as_map() == old(self).globals.as_map().insert(
                name@,
                ValModel::NoValue,
            ),
            final(self).vars == old(self).vars,
            final(self).stack@ == old(self).stack@,
            final(self).delims == old(self).delims,
            final(self).natives == old(self).natives,
            final(self).output == old(self).output,
    {
        self.globals.insert(name, Value::NoValue);
    }

    /// Overwrite the binding of a declared name, locals taking precedence;
    /// assigning to an undeclared name is an error.
    pub fn set_var(&mut self, name: &String, val: Value) -> (r: Result<(), EvalError>)
        requires
            old(self).wf(),
        ensures
            final(self).wf(),
            final(self).stack@ == old(self).stack@,
            final(self).delims == old(self).delims,
            final(self).natives == old(self).natives,
            final(self).output == old(self).output,
            match r {
                Ok(()) => old(self).lookup(name@) is Some && (
                if old(self).vars.as_map().contains_key(name@) {
                    final(self).vars.as_map() == old(self).vars.as_map().insert(
                        name@,
                        val.model(),
                    ) && final(self).globals == old(self).globals
                } else {
                    final(self).globals.as_map() == old(self).globals.as_map().insert(
                        name@,
                        val.model(),
                    ) && final(self).vars == old(self).vars
                }),
                Err(e) => e == EvalError::UndefinedVariable && old(self).lookup(name@) is None
                    && final(self).vars == old(self).vars && final(self).globals == old(self).globals,
            },
    {
        if self.vars.contains(name) {
            self.vars.set_existing(name, val);
            Ok(())
        } else {
            let found = self.globals.set_existing(name, val);
            if found {
                Ok(())
            } else {
                Err(EvalError::UndefinedVariable)
            }
        }
    }

    /// Pop an operand and resolve it to an integer: an integer stands for
    /// itself; an identifier must be bound to an integer.
    pub fn get_int(&mut self) -> (r: Result<i32, EvalError>)
        requires
            old(self).wf(),
        ensures
            final(self).wf(),
            final(self).vars == old(self).vars,
            final(self).globals == old(self).globals,
            final(self).delims == old(self).delims,
            final(self).natives == old(self).natives,
            final(self).output == old(self).output,
            match r {
                Ok(i) => old(self).stack@.len() > 0 && final(self).stack@ == old(self).stack@.drop_last() && old(self).spec_resolve_int(
                    old(self).stack@.last().model(),
                ) == Ok::<i32, EvalError>(i),
                Err(e) => if old(self).stack@.len() == 0 {
                    e == EvalError::StackUnderflow && final(self).stack@ == old(self).stack@
                } else {
                    final(self).stack@ == old(self).stack@.drop_last() && old(self).spec_resolve_int(old(self).stack@.last().model()) == Err::<i32, EvalError>(e)
                },
            },
    {
        let popped = self.pop_value();
        match popped {
            None => Err(EvalError::StackUnderflow),
            Some(v) => match v {
                Value::Int(i) => Ok(i),
                Value::Ident(n) => {
                    match self.get_var(&n) {
                        Some(bound) => match bound {
                            Value::Int(i) => Ok(*i),
                            _ => Err(EvalError::TypeMismatch),
                        },
                        None => Err(EvalError::UndefinedVariable),
                    }
                },
                _ => Err(EvalError::TypeMismatch),
            },
        }
    }

    /// Pop an operand and resolve it to a value: identifiers resolve through
    /// locals, globals, then the native table; other tokens stand for
    /// themselves.
    pub fn get_value(&mut self) -> (r: Result<Value, EvalError>)
        requires
            old(self).wf(),
        ensures
            final(self).wf(),
            final(self).vars == old(self).vars,
            final(self).globals == old(self).globals,
            final(self).delims == old(self).delims,
            final(self).natives == old(self).natives,
            final(self).output == old(self).output,
            match r {
                Ok(v) => old(self).stack@.len() > 0 && final(self).stack@ == old(self).stack@.drop_last() && old(self).spec_resolve(old(self).stack@.last().model())
                    == Ok::<ValModel, EvalError>(v.model()),
                Err(e) => if old(self).stack@.len() == 0 {
                    e == EvalError::StackUnderflow && final(self).stack@ == old(self).stack@
                } else {
                    final(self).stack@ == old(self).stack@.drop_last() && old(self).spec_resolve(
                        old(self).stack@.last().model(),
                    ) == Err::<ValModel, EvalError>(e)
                },
            },
    {
        let popped = self.pop_value();
        match popped {
            None => Err(EvalError::StackUnderflow),
            Some(v) => match v {
                Value::Ident(n) => {
                    proof {
                        assert(self.vars.as_map() == old(self).vars.as_map());
                        assert(self.globals.as_map() == old(self).globals.as_map());
                        assert(self.model().natives == old(self).model().natives);
                        lemma_has_native_same(self.model(), old(self).model(), n@);
                        assert(st_lookup(self.model(), n@) == st_lookup(old(self).model(), n@));
                    }
                    let bound = self.get_var(&n);
                    match bound {
                        Some(b) => Ok(copy_value(b)),
                        None => {
                            if self.native_contains(&n) {
                                Ok(Value::ExtFn(n))
                            } else {
                                Err(EvalError::UndefinedVariable)
                            }
                        },
                    }
                },
                other => Ok(other),
            },
        }
    }
}

/// The result of an arithmetic instruction: Rust's checked 32-bit semantics,
/// with division and remainder truncating toward zero; division or remainder
/// by zero and any result outside the 32-bit signed range is an arithmetic
/// error.
pub open spec fn spec_arith(op: Op, a: i32, b: i32) -> Result<i32, EvalError> {
    match op {
        Op::Add => match a.checked_add(b) {
            Some(v) => Ok(v),
            None => Err(EvalError::ArithmeticError),
        },
        Op::Sub => match a.checked_sub(b) {
            Some(v) => Ok(v),
            None => Err(EvalError::ArithmeticError),
        },
        Op::Mul => match a.checked_mul(b) {
            Some(v) => Ok(v),
            None => Err(EvalError::ArithmeticError),
        },
        Op::Div => match a.checked_div(b) {
            Some(v) => Ok(v),
            None => Err(EvalError::ArithmeticError),
        },
        Op::Mod => match a.checked_rem(b) {
            Some(v) => Ok(v),
            None => Err(EvalError::ArithmeticError),
        },
        _ => Err(EvalError::TypeMismatch),
    }
}

/// Apply an arithmetic operator to two integers, `a op b`.
pub fn apply_arith(op: Op, a: i32, b: i32) -> (r: Result<i32, EvalError>)
    ensures
        r == spec_arith(op, a, b),
{
    let checked = match op {
        Op::Add => a.checked_add(b),
        Op::Sub => a.checked_sub(b),
        Op::Mul => a.checked_mul(b),
        Op::Div => a.checked_div(b),
        Op::Mod => a.checked_rem(b),
        _ => {
            return Err(EvalError::TypeMismatch);
        },
    };
    match checked {
        Some(v) => Ok(v),
        None => Err(EvalError::ArithmeticError),
    }
}

// ---------------------------------------------------------------------------
// The specification-level evaluation semantics
// ---------------------------------------------------------------------------

/// The mathematical model of an execution context.
#[verifier::ext_equal]
pub ghost struct StateM {
    pub stack: Seq<ValModel>,
    pub vars: Map<Seq<char>, ValModel>,
    pub globals: Map<Seq<char>, ValModel>,
    pub delims: Seq<(GroupKind, Seq<ValModel>)>,
    pub output: Seq<char>,
    pub natives: Seq<Seq<char>>,
}

/// Whether a name is registered as a native function.
pub open spec fn st_has_native(st: StateM, name: Seq<char>) -> bool {
    exists|i: int| 0 <= i < st.natives.len() && st.natives[i] == name
}

/// The value a name resolves to: locals first, then globals.
pub open spec fn st_lookup(st: StateM, name: Seq<char>) -> Option<ValModel> {
    if st.vars.contains_key(name) {
        Some(st.vars[name])
    } else if st.globals.contains_key(name) {
        Some(st.globals[name])
    } else {
        None
    }
}

/// What a popped token resolves to when an integer is required.
pub open spec fn st_resolve_int(st: StateM, v: ValModel) -> Result<i32, EvalError> {
    match v {
        ValModel::Int(i) => Ok(i),
        ValModel::Ident(n) => match st_lookup(st, n) {
            Some(ValModel::Int(i)) => Ok(i),
            Some(_) => Err(EvalError::TypeMismatch),
            None => Err(EvalError::UndefinedVariable),
        },
        _ => Err(EvalError::TypeMismatch),
    }
}

/// What a popped token resolves to when any value is required: identifiers
/// resolve through locals, then globals, then the native table; anything
/// else stands for itself.
pub open spec fn st_resolve(st: StateM, v: ValModel) -> Result<ValModel, EvalError> {
    match v {
        ValModel::Ident(n) => match st_lookup(st, n) {
            Some(m) => Ok(m),
            None => if st_has_native(st, n) {
                Ok(ValModel::ExtFn(n))
            } else {
                Err(EvalError::UndefinedVariable)
            },
        },
        m => Ok(m),
    }
}

/// Contexts with the same native names agree on what is native.
proof fn lemma_has_native_same(a: StateM, b: StateM, n: Seq<char>)
    requires
        a.natives == b.natives,
    ensures
        st_has_native(a, n) == st_has_native(b, n),
{
    if st_has_native(a, n) {
        let i = choose|i: int| 0 <= i < a.natives.len() && a.natives[i] == n;
        assert(b.natives[i] == n);
    }
    if st_has_native(b, n) {
        let i = choose|i: int| 0 <= i < b.natives.len() && b.natives[i] == n;
        assert(a.natives[i] == n);
    }
}

/// A three-token arithmetic script: two integer literals and an arithmetic
/// operator.
pub open spec fn is_arith_script(ts: Seq<ValModel>, a: i32, b: i32, op: Op) -> bool {
    ts == seq![ValModel::Int(a), ValModel::Int(b), ValModel::Operation(op)] && (op == Op::Add
        || op == Op::Sub || op == Op::Mul || op == Op::Div || op == Op::Mod)
}

/// A three-token native-call script: an integer literal, an identifier and
/// the call instruction.
pub open spec fn is_native_script(ts: Seq<ValModel>, n: i32, nm: Seq<char>) -> bool {
    ts == seq![ValModel::Int(n), ValModel::Ident(nm), ValModel::Operation(Op::CallFn)]
}

/// A token that stands for itself: pushed onto the operand stack unchanged.
pub open spec fn is_pushable(t: ValModel) -> bool {
    match t {
        ValModel::Int(_) => true,
        ValModel::Char(_) => true,
        ValModel::String(_) => true,
        ValModel::Ident(_) => true,
        ValModel::ExtFn(_) => true,
        ValModel::Fn { args: _, body: _ } => true,
        _ => false,
    }
}

/// Every token of the sequence stands for itself.
pub open spec fn all_pushable(ts: Seq<ValModel>) -> bool {
    forall|i: int| 0 <= i < ts.len() ==> is_pushable(#[trigger] ts[i])
}

/// A sequence is a prefix of itself.
proof fn lemma_prefix_refl(a: Seq<char>)
    ensures
        a.is_prefix_of(a),
{
    assert(a =~= a.subrange(0, a.len() as int));
}

/// A prefix of a sequence is a prefix of any extension of it.
proof fn lemma_prefix_extend(a: Seq<char>, b: Seq<char>, c: Seq<char>)
    requires
        a.is_prefix_of(b),
    ensures
        a.is_prefix_of(b + c),
{
    assert(a =~= (b + c).subrange(0, a.len() as int));
}

/// A fresh vector with the same strings.
fn clone_natives(v: &Vec<String>) -> (r: Vec<String>)
    ensures
        r@ == v@,
{
    let mut r: Vec<String> = Vec::new();
    let mut i: usize = 0;
    while i < v.len()
        invariant
            i <= v@.len(),
            r@.len() == i,
            forall|j: int| 0 <= j < i ==> r@[j] == v@[j],
        decreases v@.len() - i,
    {
        r.push(v[i].clone());
        i += 1;
    }
    proof {
        assert(r@ =~= v@);
    }
    r
}

impl InterpreterState {
    /// A fresh child context for nested execution: empty stack and delimiter
    /// stack, the given local table, copies of the globals and native names.
    fn child_context(&self, vars: VarTable) -> (r: InterpreterState)
        requires
            self.wf(),
            vars.wf(),
        ensures
            r.wf(),
            r.stack@.len() == 0,
            r.delims@.len() == 0,
            r.vars == vars,
            r.globals.as_map() == self.globals.as_map(),
            r.natives@ == self.natives@,
            r.output@ == Seq::<char>::empty(),
    {
        InterpreterState {
            stack: Vec::new(),
            vars,
            globals: self.globals.duplicate(),
            delims: Vec::new(),
            natives: clone_natives(&self.natives),
            output: String::new(),
        }
    }

    /// Evaluate a tuple literal: run its buffered tokens in a fresh child
    /// context (locals copied in, globals copied back out) and wrap the
    /// child's final operand stack as the tuple's elements.  Any other value
    /// is returned unchanged.
    pub fn eval_tuple<F: Fn(String, Value) -> Value>(
        &mut self,
        tuple: Value,
        host: &F,
        fuel: u32,
    ) -> (r: Result<Value, EvalError>)
        requires
            old(self).wf(),
            forall|n: String, v: Value| #[trigger] call_requires(*host, (n, v)),
        ensures
            final(self).wf(),
            final(self).natives@ == old(self).natives@,
            old(self).output@.is_prefix_of(final(self).output@),
            final(self).stack@ == old(self).stack@,
            final(self).delims@ == old(self).delims@,
            final(self).vars == old(self).vars,
            forall|k: Seq<char>| old(self).globals.as_map().contains_key(k) ==> final(self).globals.as_map().contains_key(k),
            !(tuple matches Value::Tuple(_)) ==> r == Ok::<Value, EvalError>(tuple) && final(self).globals == old(self).globals && final(self).output == old(self).output,
            r matches Ok(v) ==> ((tuple matches Value::Tuple(_)) ==> v matches Value::Tuple(_)),
            match tuple {
                Value::Tuple(t) => (fuel > 0 && all_pushable(models_of(t@))) ==> (match r {
                    Ok(v) => v matches Value::Tuple(s) && models_of(s@) == models_of(t@),
                    Err(_) => false,
                }) && final(self).globals.as_map() == old(self).globals.as_map() && final(self).output@ == old(self).output@,
                _ => true,
            },
        decreases fuel, 0int,
    {
        match tuple {
            Value::Tuple(t) => {
                if fuel == 0 {
                    proof {
                        lemma_prefix_refl(self.output@);
                    }
                    return Err(EvalError::RecursionLimit);
                }
                let locals = self.vars.duplicate();
                let mut child = self.child_context(locals);
                let res = child.run(&t, host, fuel - 1);
                proof {
                    lemma_prefix_extend(
                        old(self).output@,
                        self.output@,
                        child.output@,
                    );
                    lemma_prefix_refl(old(self).output@);
                }
                self.output.append(child.output.as_str());
                self.globals = child.globals;
                proof {
                    if all_pushable(models_of(t@)) {
                        assert(Seq::<ValModel>::empty() + models_of(t@) =~= models_of(t@));
                        assert(final(self).output@ =~= old(self).output@);
                    }
                }
                match res {
                    Ok(()) => Ok(Value::Tuple(child.stack)),
                    Err(e) => Err(e),
                }
            },
            other => {
                proof {
                    lemma_prefix_refl(self.output@);
                }
                Ok(other)
            },
        }
    }

    /// Evaluate an array literal: run its buffered tokens in a fresh child
    /// context (locals copied in, globals copied back out) and wrap the
    /// child's final operand stack as the array's elements.  Any other value
    /// is returned unchanged.
    pub fn eval_array<F: Fn(String, Value) -> Value>(
        &mut self,
        array: Value,
        host: &F,
        fuel: u32,
    ) -> (r: Result<Value, EvalError>)
        requires
            old(self).wf(),
            forall|n: String, v: Value| #[trigger] call_requires(*host, (n, v)),
        ensures
            final(self).wf(),
            final(self).natives@ == old(self).natives@,
            old(self).output@.is_prefix_of(final(self).output@),
            final(self).stack@ == old(self).stack@,
            final(self).delims@ == old(self).delims@,
            final(self).vars == old(self).vars,
            forall|k: Seq<char>| old(self).globals.as_map().contains_key(k) ==> final(self).globals.as_map().contains_key(k),
            !(array matches Value::Array(_)) ==> r == Ok::<Value, EvalError>(array) && final(self).globals == old(self).globals && final(self).output == old(self).output,
            r matches Ok(v) ==> ((array matches Value::Array(_)) ==> v matches Value::Array(_)),
            match array {
                Value::Array(t) => (fuel > 0 && all_pushable(models_of(t@))) ==> (match r {
                    Ok(v) => v matches Value::Array(s) && models_of(s@) == models_of(t@),
                    Err(_) => false,
                }) && final(self).globals.as_map() == old(self).globals.as_map() && final(self).output@ == old(self).output@,
                _ => true,
            },
        decreases fuel, 0int,
    {
        match array {
            Value::Array(t) => {
                if fuel == 0 {
                    proof {
                        lemma_prefix_refl(self.output@);
                    }
                    return Err(EvalError::RecursionLimit);
                }
                let locals = self.vars.duplicate();
                let mut child = self.child_context(locals);
                let res = child.run(&t, host, fuel - 1);
                proof {
                    lemma_prefix_extend(
                        old(self).output@,
                        self.output@,
                        child.output@,
                    );
                    lemma_prefix_refl(old(self).output@);
                }
                self.output.append(child.output.as_str());
                self.globals = child.globals;
                proof {
                    if all_pushable(models_of(t@)) {
                        assert(Seq::<ValModel>::empty() + models_of(t@) =~= models_of(t@));
                        assert(final(self).output@ =~= old(self).output@);
                    }
                }
                match res {
                    Ok(()) => Ok(Value::Array(child.stack)),
                    Err(e) => Err(e),
                }
            },
            other => {
                proof {
                    lemma_prefix_refl(self.output@);
                }
                Ok(other)
            },
        }
    }


    /// One arithmetic instruction: pop and resolve the right operand, then
    /// the left, apply `op` with checked 32-bit semantics, push the result.
    /// When the whole run is the three-token arithmetic script the staged
    /// hypothesis describes, the outcome is exactly `spec_arith`.
    fn exec_arith(
        &mut self,
        op: Op,
        Ghost(all): Ghost<Seq<ValModel>>,
        Ghost(idx): Ghost<int>,
        Ghost(base): Ghost<InterpreterState>,
    ) -> (r: Result<(), EvalError>)
        requires
            old(self).wf(),
            op == Op::Add || op == Op::Sub || op == Op::Mul || op == Op::Div || op == Op::Mod,
            0 <= idx < all.len(),
            all[idx] == ValModel::Operation(op),
            forall|a: i32, b: i32, op2: Op|
                (base.delims@.len() == 0 && #[trigger] is_arith_script(all, a, b, op2)) ==> ((idx
                    == 0 ==> old(self).stack_model() == base.stack_model()) && (idx == 1 ==> old(self).stack_model() == base.stack_model().push(ValModel::Int(a))) && (idx == 2 ==> old(self).stack_model() == base.stack_model().push(ValModel::Int(a)).push(
                    ValModel::Int(b),
                ))),
        ensures
            final(self).wf(),
            final(self).vars == old(self).vars,
            final(self).globals == old(self).globals,
            final(self).delims == old(self).delims,
            final(self).natives == old(self).natives,
            final(self).output == old(self).output,
            forall|a: i32, b: i32, op2: Op|
                (base.delims@.len() == 0 && #[trigger] is_arith_script(all, a, b, op2)) ==> (match
                    spec_arith(op2, a, b) {
                    Ok(v) => r is Ok && final(self).stack_model() == base.stack_model().push(
                        ValModel::Int(v),
                    ),
                    Err(e) => r == Err::<(), EvalError>(e) && final(self).stack_model()
                        == base.stack_model(),
                }),
    {
        let ghost arith_hyp = base.delims@.len() == 0 && exists|a2: i32, b2: i32, op2: Op|
            is_arith_script(all, a2, b2, op2);
        proof {
            if arith_hyp {
                let (a2, b2, op2) = choose|a2: i32, b2: i32, op2: Op|
                    is_arith_script(all, a2, b2, op2);
                assert(all[0] == ValModel::Int(a2));
                assert(all[1] == ValModel::Int(b2));
                assert(all[2] == ValModel::Operation(op2));
                assert(idx == 2);
                assert(self.stack_model() == base.stack_model().push(ValModel::Int(a2)).push(
                    ValModel::Int(b2),
                ));
            }
        }
        let ghost st0 = *self;
        let b = match self.get_int() {
            Ok(i) => i,
            Err(e) => {
                proof {
                    if arith_hyp {
                        let (a2, b2, op2) = choose|a2: i32, b2: i32, op2: Op|
                            is_arith_script(all, a2, b2, op2);
                        assert(st0.stack_model().last() == ValModel::Int(b2));
                        assert(false);
                    }
                }
                return Err(e);
            },
        };
        let ghost st1 = *self;
        proof {
            if arith_hyp {
                assert(st1.stack_model() =~= st0.stack_model().drop_last());
            }
        }
        let a = match self.get_int() {
            Ok(i) => i,
            Err(e) => {
                proof {
                    if arith_hyp {
                        let (a2, b2, op2) = choose|a2: i32, b2: i32, op2: Op|
                            is_arith_script(all, a2, b2, op2);
                        assert(st1.stack_model() =~= base.stack_model().push(ValModel::Int(a2)));
                        assert(st1.stack_model().last() == ValModel::Int(a2));
                        assert(false);
                    }
                }
                return Err(e);
            },
        };
        proof {
            if arith_hyp {
                let (a2, b2, op2) = choose|a2: i32, b2: i32, op2: Op|
                    is_arith_script(all, a2, b2, op2);
                assert(self.stack_model() =~= st1.stack_model().drop_last());
                assert(st0.stack_model().last() == ValModel::Int(b2));
                assert(b == b2);
                assert(st1.stack_model() =~= base.stack_model().push(ValModel::Int(a2)));
                assert(st1.stack_model().last() == ValModel::Int(a2));
                assert(a == a2);
                assert(self.stack_model() =~= base.stack_model());
                assert(op == op2);
            }
        }
        let res = match apply_arith(op, a, b) {
            Ok(i) => i,
            Err(e) => {
                return Err(e);
            },
        };
        self.push_value(Value::Int(res));
        proof {
            if arith_hyp {
                let (a2, b2, op2) = choose|a2: i32, b2: i32, op2: Op|
                    is_arith_script(all, a2, b2, op2);
                assert(spec_arith(op2, a2, b2) == Ok::<i32, EvalError>(res));
                assert(self.stack_model() =~= base.stack_model().push(ValModel::Int(res)));
            }
        }
        Ok(())
    }

    /// Execute an ordered sequence of tokens against this context, left to
    /// right, once.
    ///
    /// `host` answers native-function calls: it is invoked with a registered
    /// name and the single popped argument (or the no-value sentinel on an
    /// empty stack), and its result is pushed unchanged.  `fuel` bounds the
    /// depth of nested contexts (function calls, loop and conditional bodies,
    /// eager tuple and array evaluation); when it runs out the run fails with
    /// `RecursionLimit` instead of exhausting the host stack.
    ///
    /// The delimiter stack evolves exactly as the grouping state machine
    /// `group_run` prescribes; a token sequence of literals alone is pushed
    /// onto the operand stack unchanged and leaves everything else as it was.
    /// Two script forms are pinned exactly: a three-token arithmetic script
    /// yields precisely `spec_arith` of its operands, and a three-token
    /// native-call script pushes a host result for the popped integer
    /// argument, bound by the host's `call_ensures`.
    #[verifier::rlimit(100)]
    pub fn run<F: Fn(String, Value) -> Value>(
        &mut self,
        vals: &Vec<Value>,
        host: &F,
        fuel: u32,
    ) -> (r: Result<(), EvalError>)
        requires
            old(self).wf(),
            forall|n: String, v: Value| #[trigger] call_requires(*host, (n, v)),
        ensures
            final(self).wf(),
            final(self).natives@ == old(self).natives@,
            old(self).output@.is_prefix_of(final(self).output@),
            forall|k: Seq<char>| old(self).vars.as_map().contains_key(k) ==> final(self).vars.as_map().contains_key(k),
            forall|k: Seq<char>| old(self).globals.as_map().contains_key(k) ==> final(self).globals.as_map().contains_key(k),
            r is Ok ==> group_run(old(self).delims_model(), models_of(vals@)) == Some(
                final(self).delims_model(),
            ),
            group_run(old(self).delims_model(), models_of(vals@)) is None ==> r is Err,
            (old(self).delims@.len() == 0 && all_pushable(models_of(vals@))) ==> (r is Ok && final(self).stack_model() == old(self).stack_model() + models_of(vals@) && final(self).vars
                == old(self).vars && final(self).globals == old(self).globals && final(self).delims@.len() == 0 && final(self).output == old(self).output),
            forall|a: i32, b: i32, op: Op|
                (old(self).delims@.len() == 0 && #[trigger] is_arith_script(
                    models_of(vals@),
                    a,
                    b,
                    op,
                )) ==> (match spec_arith(op, a, b) {
                    Ok(v) => r is Ok && final(self).stack_model() == old(self).stack_model().push(
                        ValModel::Int(v),
                    ),
                    Err(e) => r == Err::<(), EvalError>(e) && final(self).stack_model() == old(self).stack_model(),
                }) && final(self).vars == old(self).vars && final(self).globals == old(self).globals && final(self).output == old(self).output && final(self).delims@.len()
                    == 0,
            forall|n: i32, nm: Seq<char>|
                (old(self).delims@.len() == 0 && #[trigger] is_native_script(
                    models_of(vals@),
                    n,
                    nm,
                ) && old(self).lookup(nm) is None && old(self).has_native(nm)) ==> (r is Ok && (
                exists|nv: String, av: Value, rv: Value|
                    nv@ == nm && av.model() == ValModel::Int(n) && #[trigger] call_ensures(
                        *host,
                        (nv, av),
                        rv,
                    ) && final(self).stack_model() == old(self).stack_model().push(rv.model()))
                    && final(self).vars == old(self).vars && final(self).globals == old(
                    self,
                ).globals && final(self).output == old(self).output && final(self).delims@.len()
                    == 0),
        decreases fuel, 1int,
    {
        let ghost all = models_of(vals@);
        let ghost script_hyp = old(self).delims@.len() == 0 && exists|a: i32, b: i32, op: Op|
            is_arith_script(all, a, b, op);
        let ghost trip: (i32, i32, Op) = if script_hyp {
            choose|a: i32, b: i32, op: Op| is_arith_script(all, a, b, op)
        } else {
            (0i32, 0i32, Op::Add)
        };
        let ghost native_hyp = old(self).delims@.len() == 0 && exists|n: i32, nm: Seq<char>|
            is_native_script(all, n, nm) && old(self).lookup(nm) is None && old(self).has_native(
                nm,
            );
        let ghost npair: (i32, Seq<char>) = if native_hyp {
            choose|n: i32, nm: Seq<char>|
                is_native_script(all, n, nm) && old(self).lookup(nm) is None && old(
                    self,
                ).has_native(nm)
        } else {
            (0i32, Seq::empty())
        };
        let mut idx: usize = 0;
        proof {
            if script_hyp {
                assert(is_arith_script(all, trip.0, trip.1, trip.2));
            }
            if native_hyp {
                assert(is_native_script(all, npair.0, npair.1) && old(self).lookup(npair.1) is None
                    && old(self).has_native(npair.1));
            }
        }
        proof {
            lemma_prefix_refl(self.output@);
            assert(all.skip(0) =~= all);
            assert(all.take(0) =~= Seq::<ValModel>::empty());
            assert(self.stack_model() =~= self.stack_model() + all.take(0));
        }
        while idx < vals.len()
            invariant
                idx <= vals@.len(),
                all == models_of(vals@),
                self.wf(),
                self.natives@ == old(self).natives@,
                old(self).output@.is_prefix_of(self.output@),
                forall|k: Seq<char>| old(self).vars.as_map().contains_key(k)
                    ==> self.vars.as_map().contains_key(k),
                forall|k: Seq<char>| old(self).globals.as_map().contains_key(k)
                    ==> self.globals.as_map().contains_key(k),
                forall|n: String, v: Value| #[trigger] call_requires(*host, (n, v)),
                group_run(old(self).delims_model(), all) == group_run(
                    self.delims_model(),
                    all.skip(idx as int),
                ),
                (old(self).delims@.len() == 0 && all_pushable(all)) ==> (self.stack_model() == old(self).stack_model() + all.take(idx as int) && self.vars == old(self).vars
                    && self.globals == old(self).globals && self.delims@.len() == 0 && self.output
                    == old(self).output),
                script_hyp == (old(self).delims@.len() == 0 && exists|a: i32, b: i32, op: Op|
                    is_arith_script(all, a, b, op)),
                script_hyp ==> is_arith_script(all, trip.0, trip.1, trip.2) && self.vars == old(self).vars && self.globals == old(self).globals && self.output == old(self).output
                    && self.delims@.len() == 0 && (idx == 0 ==> self.stack_model() == old(self).stack_model()) && (idx == 1 ==> self.stack_model() == old(self).stack_model().push(ValModel::Int(trip.0))) && (idx == 2 ==> self.stack_model()
                    == old(self).stack_model().push(ValModel::Int(trip.0)).push(
                    ValModel::Int(trip.1),
                )) && (idx == 3 ==> spec_arith(trip.2, trip.0, trip.1) is Ok && self.stack_model()
                    == old(self).stack_model().push(
                    ValModel::Int(spec_arith(trip.2, trip.0, trip.1)->Ok_0),
                )),
                native_hyp == (old(self).delims@.len() == 0 && exists|n: i32, nm: Seq<char>|
                    is_native_script(all, n, nm) && old(self).lookup(nm) is None && old(
                        self,
                    ).has_native(nm)),
                native_hyp ==> is_native_script(all, npair.0, npair.1) && old(self).lookup(npair.1) is None
                    && old(self).has_native(npair.1) && self.vars == old(self).vars
                    && self.globals == old(self).globals && self.output == old(self).output
                    && self.delims@.len() == 0 && (idx == 0 ==> self.stack_model() == old(
                    self,
                ).stack_model()) && (idx == 1 ==> self.stack_model() == old(
                    self,
                ).stack_model().push(ValModel::Int(npair.0))) && (idx == 2 ==> self.stack_model()
                    == old(self).stack_model().push(ValModel::Int(npair.0)).push(
                    ValModel::Ident(npair.1),
                )) && (idx == 3 ==> exists|nv: String, av: Value, rv: Value|
                    nv@ == npair.1 && av.model() == ValModel::Int(npair.0) && #[trigger] call_ensures(
                        *host,
                        (nv, av),
                        rv,
                    ) && self.stack_model() == old(self).stack_model().push(rv.model())),
            decreases vals@.len() - idx,
        {
            let val = &vals[idx];
            let ghost tm = val.model();
            let ghost pre_frames = self.delims_model();
            let ghost rest = all.skip(idx as int);
            proof {
                assert(rest[0] == tm);
                assert(rest.skip(1) =~= all.skip(idx as int + 1));
            }
            if self.delims.len() > 0 {
                let li = self.delims.len() - 1;
                let closes = match &self.delims[li] {
                    Delim::Tuple(_) => matches!(val, Value::Operation(Op::TupleEnd)),
                    Delim::Block(_) => matches!(val, Value::Operation(Op::BlockEnd)),
                    Delim::Array(_) => matches!(val, Value::Operation(Op::ArrayEnd)),
                };
                proof {
                    assert(pre_frames.last() == self.delims@.last().model());
                }
                if closes {
                    proof {
                        assert(group_step(pre_frames, tm) == Some(pre_frames.drop_last()));
                    }
                    let popped = self.delims.pop();
                    proof {
                        assert(self.delims_model() =~= pre_frames.drop_last());
                    }
                    match popped {
                        Some(d) => {
                            match d {
                                Delim::Tuple(buf) => {
                                    self.push_value(Value::Tuple(buf));
                                },
                                Delim::Block(buf) => {
                                    self.push_value(Value::Block(buf));
                                },
                                Delim::Array(buf) => {
                                    match self.eval_array(Value::Array(buf), host, fuel) {
                                        Ok(av) => {
                                            self.push_value(av);
                                        },
                                        Err(e) => {
                                            return Err(e);
                                        },
                                    }
                                },
                            }
                        },
                        None => {
                            proof {
                                assert(false);
                            }
                        },
                    }
                } else {
                    let c = copy_value(val);
                    let popped = self.delims.pop();
                    match popped {
                        Some(d) => {
                            let ghost top = d.model();
                            proof {
                                assert(group_step(pre_frames, tm) == Some(
                                    pre_frames.drop_last().push((top.0, top.1.push(tm))),
                                ));
                            }
                            match d {
                                Delim::Tuple(mut buf) => {
                                    buf.push(c);
                                    proof {
                                        assert(models_of(buf@) =~= top.1.push(tm));
                                    }
                                    self.delims.push(Delim::Tuple(buf));
                                },
                                Delim::Block(mut buf) => {
                                    buf.push(c);
                                    proof {
                                        assert(models_of(buf@) =~= top.1.push(tm));
                                    }
                                    self.delims.push(Delim::Block(buf));
                                },
                                Delim::Array(mut buf) => {
                                    buf.push(c);
                                    proof {
                                        assert(models_of(buf@) =~= top.1.push(tm));
                                    }
                                    self.delims.push(Delim::Array(buf));
                                },
                            }
                            proof {
                                assert(self.delims_model() =~= pre_frames.drop_last().push(
                                    (top.0, top.1.push(tm)),
                                ));
                            }
                        },
                        None => {
                            proof {
                                assert(false);
                            }
                        },
                    }
                }
            } else {
                match val {
                    Value::Operation(op) => {
                        match *op {
                            Op::Assign => {
                                let v = match self.get_value() {
                                    Ok(v) => v,
                                    Err(e) => {
                                        return Err(e);
                                    },
                                };
                                match self.pop_value() {
                                    Some(Value::Ident(k)) => {
                                        match self.set_var(&k, v) {
                                            Ok(()) => {},
                                            Err(e) => {
                                                return Err(e);
                                            },
                                        }
                                    },
                                    Some(_) => {
                                        return Err(EvalError::TypeMismatch);
                                    },
                                    None => {
                                        return Err(EvalError::StackUnderflow);
                                    },
                                }
                            },
                            Op::AddAssign | Op::SubAssign | Op::MulAssign | Op::DivAssign => {
                                let base = match *op {
                                    Op::AddAssign => Op::Add,
                                    Op::SubAssign => Op::Sub,
                                    Op::MulAssign => Op::Mul,
                                    _ => Op::Div,
                                };
                                let b = match self.get_int() {
                                    Ok(i) => i,
                                    Err(e) => {
                                        return Err(e);
                                    },
                                };
                                match self.pop_value() {
                                    Some(Value::Ident(k)) => {
                                        let a = match self.get_var(&k) {
                                            Some(bound) => match bound {
                                                Value::Int(i) => *i,
                                                _ => {
                                                    return Err(EvalError::TypeMismatch);
                                                },
                                            },
                                            None => {
                                                return Err(EvalError::UndefinedVariable);
                                            },
                                        };
                                        let res = match apply_arith(base, a, b) {
                                            Ok(i) => i,
                                            Err(e) => {
                                                return Err(e);
                                            },
                                        };
                                        match self.set_var(&k, Value::Int(res)) {
                                            Ok(()) => {},
                                            Err(e) => {
                                                return Err(e);
                                            },
                                        }
                                    },
                                    Some(_) => {
                                        return Err(EvalError::TypeMismatch);
                                    },
                                    None => {
                                        return Err(EvalError::StackUnderflow);
                                    },
                                }
                            },
                            Op::Add | Op::Sub | Op::Mul | Op::Div | Op::Mod => {
                                match self.exec_arith(
                                    *op,
                                    Ghost(all),
                                    Ghost(idx as int),
                                    Ghost(*old(self)),
                                ) {
                                    Ok(()) => {},
                                    Err(e) => {
                                        return Err(e);
                                    },
                                }
                            },
                            Op::Invert => {
                                let a = match self.get_int() {
                                    Ok(i) => i,
                                    Err(e) => {
                                        return Err(e);
                                    },
                                };
                                self.push_value(Value::Int(if a != 0 { 0 } else { 1 }));
                            },
                            Op::TupleStart => {
                                self.delims.push(Delim::Tuple(Vec::new()));
                                proof {
                                    assert(self.delims_model() =~~= pre_frames.push(
                                        (GroupKind::Tuple, Seq::<ValModel>::empty()),
                                    ));
                                }
                            },
                            Op::BlockStart => {
                                self.delims.push(Delim::Block(Vec::new()));
                                proof {
                                    assert(self.delims_model() =~~= pre_frames.push(
                                        (GroupKind::Block, Seq::<ValModel>::empty()),
                                    ));
                                }
                            },
                            Op::ArrayStart => {
                                self.delims.push(Delim::Array(Vec::new()));
                                proof {
                                    assert(self.delims_model() =~~= pre_frames.push(
                                        (GroupKind::Array, Seq::<ValModel>::empty()),
                                    ));
                                }
                            },
                            Op::TupleEnd | Op::BlockEnd | Op::ArrayEnd => {
                                proof {
                                    assert(group_step(pre_frames, tm) is None);
                                }
                                return Err(EvalError::UnmatchedDelimiter);
                            },
                            Op::CallFn => {
                                let ghost stc = *self;
                                proof {
                                    if native_hyp {
                                        assert(all[idx as int] == tm);
                                        assert(all[0] == ValModel::Int(npair.0));
                                        assert(all[1] == ValModel::Ident(npair.1));
                                        assert(all[2] == ValModel::Operation(Op::CallFn));
                                        assert(idx == 2);
                                        assert(stc.stack_model() == old(self).stack_model().push(
                                            ValModel::Int(npair.0),
                                        ).push(ValModel::Ident(npair.1)));
                                        assert(stc.stack_model().last() == ValModel::Ident(
                                            npair.1,
                                        ));
                                        lemma_has_native_same(
                                            stc.model(),
                                            old(self).model(),
                                            npair.1,
                                        );
                                        assert(st_lookup(stc.model(), npair.1) == st_lookup(
                                            old(self).model(),
                                            npair.1,
                                        ));
                                        assert(stc.spec_resolve(ValModel::Ident(npair.1)) == Ok::<
                                            ValModel,
                                            EvalError,
                                        >(ValModel::ExtFn(npair.1)));
                                    }
                                }
                                let callee = match self.get_value() {
                                    Ok(v) => v,
                                    Err(e) => {
                                        proof {
                                            if native_hyp {
                                                assert(false);
                                            }
                                        }
                                        return Err(e);
                                    },
                                };
                                proof {
                                    if native_hyp {
                                        assert(stc.stack@.len() == stc.stack_model().len());
                                        assert(stc.stack@.last().model() == stc.stack_model().last());
                                        assert(callee.model() == ValModel::ExtFn(npair.1));
                                        assert(self.stack_model() =~= stc.stack_model().drop_last());
                                        assert(self.stack_model() =~= old(self).stack_model().push(
                                            ValModel::Int(npair.0),
                                        ));
                                    }
                                }
                                match callee {
                                    Value::Fn(f) => {
                                        proof {
                                            if native_hyp {
                                                assert(false);
                                            }
                                        }
                                        if fuel == 0 {
                                            return Err(EvalError::RecursionLimit);
                                        }
                                        proof {
                                            assert(!is_pushable(all[idx as int]));
                                            assert forall|a: i32, b: i32, op: Op|
                                                !is_arith_script(all, a, b, op) by {
                                                if is_arith_script(all, a, b, op) {
                                                    assert(all[idx as int] == tm);
                                                    assert(false);
                                                }
                                            }
                                        }
                                        let mut child = self.child_context(VarTable::new());
                                        let ghost mid = *self;
                                        let mut j = f.args.len();
                                        while j > 0
                                            invariant
                                                j <= f.args@.len(),
                                                self.wf(),
                                                child.wf(),
                                                self.vars == mid.vars,
                                                self.globals == mid.globals,
                                                self.delims == mid.delims,
                                                self.natives == mid.natives,
                                                self.output == mid.output,
                                                child.natives@ == mid.natives@,
                                                child.delims@.len() == 0,
                                                child.output@ == Seq::<char>::empty(),
                                                mid.natives@ == old(self).natives@,
                                                old(self).output@.is_prefix_of(mid.output@),
                                                forall|k: Seq<char>| old(self).vars.as_map().contains_key(k)
                                                    ==> mid.vars.as_map().contains_key(k),
                                                forall|k: Seq<char>| old(self).globals.as_map().contains_key(k)
                                                    ==> mid.globals.as_map().contains_key(k),
                                                child.globals.as_map() == mid.globals.as_map(),
                                                !all_pushable(all),
                                                forall|a: i32, b: i32, op: Op|
                                                    !is_arith_script(all, a, b, op),
                                                !native_hyp,
                                                native_hyp == (old(self).delims@.len() == 0 && exists|n: i32, nm: Seq<char>|
                                                                                    is_native_script(all, n, nm) && old(self).lookup(nm) is None && old(
                                                                                        self,
                                                                                    ).has_native(nm)),
                                                all == models_of(vals@),
                                            decreases j,
                                        {
                                            j -= 1;
                                            let name = f.args[j].clone();
                                            let v = match self.get_value() {
                                                Ok(v) => v,
                                                Err(e) => {
                                                    return Err(e);
                                                },
                                            };
                                            child.vars.insert(&name, v);
                                        }
                                        let res = child.run(&f.body, host, fuel - 1);
                                        proof {
                                            lemma_prefix_extend(
                                                old(self).output@,
                                                self.output@,
                                                child.output@,
                                            );
                                        }
                                        self.output.append(child.output.as_str());
                                        self.globals = child.globals;
                                        match res {
                                            Ok(()) => {},
                                            Err(e) => {
                                                return Err(e);
                                            },
                                        }
                                    },
                                    Value::ExtFn(name) => {
                                        proof {
                                            if native_hyp {
                                                assert(name@ == npair.1);
                                            }
                                        }
                                        if self.native_contains(&name) {
                                            let ghost st_arg = *self;
                                            proof {
                                                if native_hyp {
                                                    assert(st_arg.stack_model().last()
                                                        == ValModel::Int(npair.0));
                                                }
                                            }
                                            let arg = match self.get_value() {
                                                Ok(v) => v,
                                                Err(EvalError::StackUnderflow) => {
                                                    proof {
                                                        if native_hyp {
                                                            assert(false);
                                                        }
                                                    }
                                                    Value::NoValue
                                                },
                                                Err(e) => {
                                                    proof {
                                                        if native_hyp {
                                                            assert(false);
                                                        }
                                                    }
                                                    return Err(e);
                                                },
                                            };
                                            let ghost gname = name;
                                            let ghost garg = arg;
                                            let res = (*host)(name, arg);
                                            self.push_value(res);
                                            proof {
                                                if native_hyp {
                                                    assert(st_arg.stack@.last().model()
                                                        == st_arg.stack_model().last());
                                                    assert(garg.model() == ValModel::Int(npair.0));
                                                    assert(gname@ == npair.1);
                                                    assert(st_arg.stack_model().drop_last() =~= old(
                                                        self,
                                                    ).stack_model());
                                                    assert(call_ensures(
                                                        *host,
                                                        (gname, garg),
                                                        res,
                                                    ));
                                                    assert(self.stack_model() =~= old(
                                                        self,
                                                    ).stack_model().push(res.model()));
                                                }
                                            }
                                        } else {
                                            proof {
                                                if native_hyp {
                                                    lemma_has_native_same(
                                                        self.model(),
                                                        old(self).model(),
                                                        npair.1,
                                                    );
                                                    assert(false);
                                                }
                                            }
                                            return Err(EvalError::UnknownNativeFunction);
                                        }
                                    },
                                    _ => {
                                        proof {
                                            if native_hyp {
                                                assert(false);
                                            }
                                        }
                                        return Err(EvalError::TypeMismatch);
                                    },
                                }
                            },
                            Op::IndexArray => {
                                let index = match self.get_int() {
                                    Ok(i) => i,
                                    Err(e) => {
                                        return Err(e);
                                    },
                                };
                                let container = match self.get_value() {
                                    Ok(v) => v,
                                    Err(e) => {
                                        return Err(e);
                                    },
                                };
                                match container {
                                    Value::Array(a) => {
                                        if index < 0 || index as usize >= a.len() {
                                            return Err(EvalError::IndexOutOfBounds);
                                        }
                                        let e = copy_value(&a[index as usize]);
                                        self.push_value(e);
                                    },
                                    Value::String(s) => {
                                        let sl = s.as_str();
                                        let n = sl.unicode_len();
                                        if index < 0 || index as usize >= n {
                                            return Err(EvalError::IndexOutOfBounds);
                                        }
                                        let c = sl.get_char(index as usize);
                                        self.push_value(Value::Char(c));
                                    },
                                    _ => {
                                        return Err(EvalError::TypeMismatch);
                                    },
                                }
                            },
                        }
                    },
                    Value::Keyword(kw) => {
                        match *kw {
                            Keyword::Let => {
                                match self.pop_value() {
                                    Some(Value::Ident(i)) => {
                                        self.add_var(&i);
                                        self.push_value(Value::Ident(i));
                                    },
                                    Some(_) => {
                                        return Err(EvalError::TypeMismatch);
                                    },
                                    None => {
                                        return Err(EvalError::StackUnderflow);
                                    },
                                }
                            },
                            Keyword::Global => {
                                match self.pop_value() {
                                    Some(Value::Ident(i)) => {
                                        self.add_global(&i);
                                        self.push_value(Value::Ident(i));
                                    },
                                    Some(_) => {
                                        return Err(EvalError::TypeMismatch);
                                    },
                                    None => {
                                        return Err(EvalError::StackUnderflow);
                                    },
                                }
                            },
                            Keyword::Fn => {
                                let block_ = match self.get_value() {
                                    Ok(v) => v,
                                    Err(e) => {
                                        return Err(e);
                                    },
                                };
                                let tuple_ = match self.get_value() {
                                    Ok(v) => v,
                                    Err(e) => {
                                        return Err(e);
                                    },
                                };
                                let body = match block_ {
                                    Value::Block(b) => b,
                                    _ => {
                                        return Err(EvalError::TypeMismatch);
                                    },
                                };
                                let params = match tuple_ {
                                    Value::Tuple(t) => t,
                                    _ => {
                                        return Err(EvalError::TypeMismatch);
                                    },
                                };
                                let mut args: Vec<String> = Vec::new();
                                let mut k: usize = 0;
                                while k < params.len()
                                    decreases params@.len() - k,
                                {
                                    match &params[k] {
                                        Value::Ident(i) => {
                                            args.push(i.clone());
                                        },
                                        _ => {},
                                    }
                                    k += 1;
                                }
                                self.push_value(Value::Fn(crate::value::Fn { args, body }));
                            },
                            Keyword::Print | Keyword::PrintLn => {
                                let v = match self.get_value() {
                                    Ok(v) => v,
                                    Err(e) => {
                                        return Err(e);
                                    },
                                };
                                let ev = match self.eval_tuple(v, host, fuel) {
                                    Ok(v2) => v2,
                                    Err(e) => {
                                        return Err(e);
                                    },
                                };
                                let text = ev.render();
                                proof {
                                    lemma_prefix_extend(
                                        old(self).output@,
                                        self.output@,
                                        text@,
                                    );
                                }
                                self.output.append(text.as_str());
                                if matches!(*kw, Keyword::PrintLn) {
                                    proof {
                                        lemma_prefix_extend(
                                            old(self).output@,
                                            self.output@,
                                            "\n"@,
                                        );
                                    }
                                    self.output.append("\n");
                                }
                            },
                            Keyword::For => {
                                let block = match self.get_value() {
                                    Ok(v) => v,
                                    Err(e) => {
                                        return Err(e);
                                    },
                                };
                                let val_name = match self.pop_value() {
                                    Some(v) => v,
                                    None => {
                                        return Err(EvalError::StackUnderflow);
                                    },
                                };
                                let source = match self.get_value() {
                                    Ok(v) => v,
                                    Err(e) => {
                                        return Err(e);
                                    },
                                };
                                let arr = match self.eval_array(source, host, fuel) {
                                    Ok(v) => v,
                                    Err(e) => {
                                        return Err(e);
                                    },
                                };
                                let elements = match arr {
                                    Value::Array(a) => a,
                                    _ => {
                                        return Err(EvalError::TypeMismatch);
                                    },
                                };
                                let loop_var = match val_name {
                                    Value::Ident(i) => i,
                                    _ => {
                                        return Err(EvalError::TypeMismatch);
                                    },
                                };
                                let body = match block {
                                    Value::Block(b) => b,
                                    _ => {
                                        return Err(EvalError::TypeMismatch);
                                    },
                                };
                                if fuel == 0 {
                                    return Err(EvalError::RecursionLimit);
                                }
                                proof {
                                    assert(!is_pushable(all[idx as int]));
                                    assert forall|a: i32, b: i32, op: Op|
                                        !is_arith_script(all, a, b, op) by {
                                        if is_arith_script(all, a, b, op) {
                                            assert(all[idx as int] == tm);
                                            assert(false);
                                        }
                                    }
                                    if native_hyp {
                                        assert(all[idx as int] == tm);
                                        assert(false);
                                    }
                                }
                                let locals = self.vars.duplicate();
                                let mut child = self.child_context(locals);
                                child.add_var(&loop_var);
                                let ghost mid = *self;
                                let mut k: usize = 0;
                                while k < elements.len()
                                    invariant
                                        k <= elements@.len(),
                                        fuel > 0,
                                        self.wf(),
                                        child.wf(),
                                        *self == mid,
                                        child.natives@ == mid.natives@,
                                        mid.natives@ == old(self).natives@,
                                        old(self).output@.is_prefix_of(mid.output@),
                                        forall|k: Seq<char>| old(self).vars.as_map().contains_key(
                                            k,
                                        ) ==> mid.vars.as_map().contains_key(k),
                                        forall|k: Seq<char>| old(self).globals.as_map().contains_key(k)
                                            ==> mid.globals.as_map().contains_key(k),
                                        forall|k: Seq<char>| old(self).globals.as_map().contains_key(k)
                                            ==> child.globals.as_map().contains_key(k),
                                        forall|k: Seq<char>| old(self).vars.as_map().contains_key(
                                            k,
                                        ) ==> child.vars.as_map().contains_key(k),
                                        !all_pushable(all),
                                        forall|a: i32, b: i32, op: Op| !is_arith_script(all, a, b, op),
                                        !native_hyp,
                                        native_hyp == (old(self).delims@.len() == 0 && exists|n: i32, nm: Seq<char>|
                                                                    is_native_script(all, n, nm) && old(self).lookup(nm) is None && old(
                                                                        self,
                                                                    ).has_native(nm)),
                                        all == models_of(vals@),
                                        forall|n: String, v: Value| #[trigger] call_requires(
                                            *host,
                                            (n, v),
                                        ),
                                    decreases elements@.len() - k,
                                {
                                    let element = copy_value(&elements[k]);
                                    child.vars.insert(&loop_var, element);
                                    let res = child.run(&body, host, fuel - 1);
                                    match res {
                                        Ok(()) => {},
                                        Err(e) => {
                                            proof {
                                                lemma_prefix_extend(
                                                    old(self).output@,
                                                    self.output@,
                                                    child.output@,
                                                );
                                            }
                                            self.output.append(child.output.as_str());
                                            return Err(e);
                                        },
                                    }
                                    k += 1;
                                }
                                self.vars.absorb_from(&child.vars);
                                proof {
                                    lemma_prefix_extend(
                                        old(self).output@,
                                        self.output@,
                                        child.output@,
                                    );
                                }
                                self.output.append(child.output.as_str());
                                self.globals = child.globals;
                            },
                            Keyword::If => {
                                let block = match self.get_value() {
                                    Ok(v) => v,
                                    Err(e) => {
                                        return Err(e);
                                    },
                                };
                                let cond = match self.get_int() {
                                    Ok(i) => i,
                                    Err(e) => {
                                        return Err(e);
                                    },
                                };
                                if cond != 0 {
                                    let body = match block {
                                        Value::Block(b) => b,
                                        _ => {
                                            return Err(EvalError::TypeMismatch);
                                        },
                                    };
                                    if fuel == 0 {
                                        return Err(EvalError::RecursionLimit);
                                    }
                                    let locals = self.vars.duplicate();
                                    let mut child = self.child_context(locals);
                                    let res = child.run(&body, host, fuel - 1);
                                    self.vars.absorb_from(&child.vars);
                                    proof {
                                        lemma_prefix_extend(
                                            old(self).output@,
                                            self.output@,
                                            child.output@,
                                        );
                                    }
                                    self.output.append(child.output.as_str());
                                    self.globals = child.globals;
                                    match res {
                                        Ok(()) => {},
                                        Err(e) => {
                                            return Err(e);
                                        },
                                    }
                                }
                            },
                        }
                    },
                    Value::Int(_) | Value::Char(_) | Value::String(_) | Value::Ident(_)
                        | Value::Fn(_) | Value::ExtFn(_) => {
                        let c = copy_value(val);
                        self.push_value(c);
                        proof {
                            if old(self).delims@.len() == 0 && (exists|a2: i32, b2: i32, op2: Op|
                                is_arith_script(all, a2, b2, op2)) {
                                let (a2, b2, op2) = choose|a2: i32, b2: i32, op2: Op|
                                    is_arith_script(all, a2, b2, op2);
                                assert(all[idx as int] == tm);
                                assert(all[0] == ValModel::Int(a2));
                                assert(all[1] == ValModel::Int(b2));
                                assert(all[2] == ValModel::Operation(op2));
                                assert(idx != 2);
                                if idx == 0 {
                                    assert(self.stack_model() =~= old(self).stack_model().push(
                                        ValModel::Int(a2),
                                    ));
                                }
                                if idx == 1 {
                                    assert(self.stack_model() =~= old(self).stack_model().push(
                                        ValModel::Int(a2),
                                    ).push(ValModel::Int(b2)));
                                }
                            }
                            if native_hyp {
                                assert(all[idx as int] == tm);
                                assert(all[0] == ValModel::Int(npair.0));
                                assert(all[1] == ValModel::Ident(npair.1));
                                assert(all[2] == ValModel::Operation(Op::CallFn));
                                assert(idx != 2);
                                if idx == 0 {
                                    assert(self.stack_model() =~= old(self).stack_model().push(
                                        ValModel::Int(npair.0),
                                    ));
                                }
                                if idx == 1 {
                                    assert(self.stack_model() =~= old(self).stack_model().push(
                                        ValModel::Int(npair.0),
                                    ).push(ValModel::Ident(npair.1)));
                                }
                            }
                        }
                    },
                    Value::Tuple(_) | Value::Block(_) | Value::Array(_) | Value::NoValue => {},
                }
            }
            proof {
                if old(self).delims@.len() == 0 && all_pushable(all) {
                    assert(is_pushable(all[idx as int]));
                    assert(self.stack_model() =~= old(self).stack_model() + all.take(
                        idx as int + 1,
                    ));
                }
            }
            idx += 1;
        }
        proof {
            assert(all.skip(vals@.len() as int) =~= Seq::<ValModel>::empty());
            assert(group_run(self.delims_model(), Seq::<ValModel>::empty()) == Some(
                self.delims_model(),
            ));
            if old(self).delims@.len() == 0 && all_pushable(all) {
                assert(all.take(vals@.len() as int) =~= all);
            }
        }
        Ok(())
    }
}

} // verus!


