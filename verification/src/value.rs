//! Runtime values and evaluation faults.

use vstd::prelude::*;

verus! {

/// A fully evaluated value. Nothing else exists at run time, and a value is
/// never reducible.
#[derive(Clone, Copy, Debug, PartialEq, Eq, Structural)]
pub enum Value {
    Number(i64),
    Boolean(bool),
}

/// Why an evaluation or a reduction step was abandoned.
#[derive(Clone, Copy, Debug, PartialEq, Eq, Structural)]
pub enum EvalError {
    /// A variable was looked up that the environment does not bind.
    UnboundVariable,
    /// An arithmetic or comparison operator met an operand that is not a number.
    TypeMismatch,
    /// The condition of a conditional or a loop is not a boolean.
    InvalidCondition,
    /// A reduction step was asked of a term that has none left to take.
    NotReducible,
}

} // verus!
