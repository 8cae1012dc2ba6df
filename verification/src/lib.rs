//! A minimal stack-based scripting-language runtime: a character-stream lexer
//! feeding a single-pass, stack-based tree-walking evaluator.  Structural
//! grouping (tuples, blocks, arrays) is resolved by a delimiter-matching pass
//! folded into the evaluator's single left-to-right pass.

pub mod error;
pub mod group;
pub mod interp;
pub mod lexer;
pub mod render;
pub mod scope;
pub mod value;

pub use error::EvalError;
pub use interp::Delim;
pub use interp::InterpreterState;
pub use lexer::tokenize;
pub use scope::VarTable;
pub use value::Keyword;
pub use value::Op;
pub use value::Value;
