//! The error taxonomy of the runtime.  Every failure of the lexer or the
//! evaluator is reported as one of these kinds; no verified function panics.

use vstd::prelude::*;

verus! {

/// A failure of the lexer or of the evaluator.
#[derive(Debug, Clone, Copy, PartialEq, Eq, Structural)]
pub enum EvalError {
    /// An unrecognised character, an integer literal out of range, or a
    /// token (number, identifier, operator or string) still open at end of
    /// input, its terminating character never seen.
    LexError,
    /// An instruction required more operands than the stack held.
    StackUnderflow,
    /// An operand was not of the kind the instruction requires.
    TypeMismatch,
    /// An identifier was not found in the local, global or native tables
    /// where a value was required.
    UndefinedVariable,
    /// A closing marker was met with no open delimiter frame.
    UnmatchedDelimiter,
    /// Division or modulo by zero, or an arithmetic result outside the
    /// 32-bit signed range.
    ArithmeticError,
    /// An index outside `[0, length)` of the indexed container.
    IndexOutOfBounds,
    /// A call target named a native function absent from the table.
    UnknownNativeFunction,
    /// Nested execution exceeded the caller-supplied depth budget.
    RecursionLimit,
}

} // verus!
