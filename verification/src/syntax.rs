//! The abstract syntax of the language as mathematical trees.
//!
//! These are the models that the contracts of the executable types speak of:
//! names are sequences of characters, and the three binary operators share
//! one node shape that carries the operator.

use crate::value::{EvalError, Value};
use vstd::prelude::*;

verus! {

/// The binary operators of the language.
#[derive(Clone, Copy, Debug, PartialEq, Eq, Structural)]
pub enum Operator {
    Add,
    Multiply,
    LessThan,
}

/// An expression: a literal, a variable, or an operator applied to two
/// expressions.
pub enum Expression {
    Number(i64),
    Boolean(bool),
    Variable(Seq<char>),
    Binary(Operator, Box<Expression>, Box<Expression>),
}

/// A statement: the part of the language that changes the environment.
pub enum Statement {
    DoNothing,
    Assign(Seq<char>, Expression),
    If { condition: Expression, consequence: Box<Statement>, alternative: Box<Statement> },
    Sequence { first: Box<Statement>, second: Box<Statement> },
    While { condition: Expression, body: Box<Statement> },
}

impl Operator {
    /// The result of the operator on two values. Both operands must be
    /// numbers. Addition and multiplication wrap around on overflow, in two's
    /// complement; the comparison is the signed one.
    pub open spec fn apply(self, left: Value, right: Value) -> Result<Value, EvalError> {
        match (left, right) {
            (Value::Number(a), Value::Number(b)) => Ok(
                match self {
                    Operator::Add => Value::Number(a.wrapping_add(b)),
                    Operator::Multiply => Value::Number(a.wrapping_mul(b)),
                    Operator::LessThan => Value::Boolean(a < b),
                },
            ),
            _ => Err(EvalError::TypeMismatch),
        }
    }

    /// Applies the operator to two values.
    pub fn perform(self, left: Value, right: Value) -> (result: Result<Value, EvalError>)
        ensures
            result == self.apply(left, right),
    {
        match (left, right) {
            (Value::Number(a), Value::Number(b)) => Ok(
                match self {
                    Operator::Add => Value::Number(a.wrapping_add(b)),
                    Operator::Multiply => Value::Number(a.wrapping_mul(b)),
                    Operator::LessThan => Value::Boolean(a < b),
                },
            ),
            _ => Err(EvalError::TypeMismatch),
        }
    }
}

impl Expression {
    /// The literal expression that stands for `value`.
    pub open spec fn literal(value: Value) -> Expression {
        match value {
            Value::Number(n) => Expression::Number(n),
            Value::Boolean(b) => Expression::Boolean(b),
        }
    }

    /// The value that a literal stands for; `None` for every other expression.
    pub open spec fn as_value(self) -> Option<Value> {
        match self {
            Expression::Number(n) => Some(Value::Number(n)),
            Expression::Boolean(b) => Some(Value::Boolean(b)),
            _ => None,
        }
    }
}

} // verus!
