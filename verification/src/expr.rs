//! Expressions as the interpreter holds them, with both ways of evaluating
//! them.

use crate::environment::Environment;
use crate::syntax::{Expression, Operator};
use crate::value::{EvalError, Value};
use vstd::prelude::*;

verus! {

/// An expression of the language.
#[derive(Debug, PartialEq, Eq)]
pub enum Expr {
    Number(i64),
    Boolean(bool),
    Variable(String),
    Add(Box<Expr>, Box<Expr>),
    Multiply(Box<Expr>, Box<Expr>),
    LessThan(Box<Expr>, Box<Expr>),
}

impl View for Expr {
    type V = Expression;

    open spec fn view(&self) -> Expression {
        self.model()
    }
}

impl Expr {
    /// The mathematical tree that the expression stands for.
    pub open spec fn model(&self) -> Expression
        decreases self,
    {
        match self {
            Expr::Number(n) => Expression::Number(*n),
            Expr::Boolean(b) => Expression::Boolean(*b),
            Expr::Variable(name) => Expression::Variable(name@),
            Expr::Add(left, right) => Expression::Binary(
                Operator::Add,
                Box::new(left.model()),
                Box::new(right.model()),
            ),
            Expr::Multiply(left, right) => Expression::Binary(
                Operator::Multiply,
                Box::new(left.model()),
                Box::new(right.model()),
            ),
            Expr::LessThan(left, right) => Expression::Binary(
                Operator::LessThan,
                Box::new(left.model()),
                Box::new(right.model()),
            ),
        }
    }
}

impl Clone for Expr {
    fn clone(&self) -> (copy: Self)
        ensures
            copy == *self,
        decreases self,
    {
        match self {
            Expr::Number(n) => Expr::Number(*n),
            Expr::Boolean(b) => Expr::Boolean(*b),
            Expr::Variable(name) => Expr::Variable(name.clone()),
            Expr::Add(left, right) => Expr::Add(
                Box::new((**left).clone()),
                Box::new((**right).clone()),
            ),
            Expr::Multiply(left, right) => Expr::Multiply(
                Box::new((**left).clone()),
                Box::new((**right).clone()),
            ),
            Expr::LessThan(left, right) => Expr::LessThan(
                Box::new((**left).clone()),
                Box::new((**right).clone()),
            ),
        }
    }
}

impl Expr {
    /// The literal expression that stands for `value`.
    pub fn literal(value: Value) -> (expr: Expr)
        ensures
            expr@ == Expression::literal(value),
    {
        match value {
            Value::Number(n) => Expr::Number(n),
            Value::Boolean(b) => Expr::Boolean(b),
        }
    }

    /// The value that a literal stands for; `None` for every other expression.
    pub fn as_value(&self) -> (value: Option<Value>)
        ensures
            value == self@.as_value(),
    {
        match self {
            Expr::Number(n) => Some(Value::Number(*n)),
            Expr::Boolean(b) => Some(Value::Boolean(*b)),
            _ => None,
        }
    }

    /// Evaluates the expression in `env`, in one go.
    ///
    /// The result is a value, never a term that is reduced in part. A
    /// variable that `env` does not bind gives `UnboundVariable`; an operand
    /// that is not a number gives `TypeMismatch`. Addition and multiplication
    /// wrap around on overflow.
    pub fn evalute(&self, env: &Environment) -> (result: Result<Value, EvalError>)
        ensures
            result == self@.eval(env@),
        decreases self,
    {
        match self {
            Expr::Number(n) => Ok(Value::Number(*n)),
            Expr::Boolean(b) => Ok(Value::Boolean(*b)),
            Expr::Variable(name) => match env.get(name) {
                Some(value) => Ok(value),
                None => Err(EvalError::UnboundVariable),
            },
            Expr::Add(left, right) => match (left.evalute(env), right.evalute(env)) {
                (Ok(a), Ok(b)) => Operator::Add.perform(a, b),
                (Err(fault), _) => Err(fault),
                (_, Err(fault)) => Err(fault),
            },
            Expr::Multiply(left, right) => match (left.evalute(env), right.evalute(env)) {
                (Ok(a), Ok(b)) => Operator::Multiply.perform(a, b),
                (Err(fault), _) => Err(fault),
                (_, Err(fault)) => Err(fault),
            },
            Expr::LessThan(left, right) => match (left.evalute(env), right.evalute(env)) {
                (Ok(a), Ok(b)) => Operator::LessThan.perform(a, b),
                (Err(fault), _) => Err(fault),
                (_, Err(fault)) => Err(fault),
            },
        }
    }

    /// Whether a reduction step applies to the expression.
    pub fn is_reducible(&self) -> (reducible: bool)
        ensures
            reducible == self@.is_reducible(),
    {
        match self {
            Expr::Number(_) => false,
            Expr::Add(_, _) => true,
            Expr::Multiply(_, _) => true,
            Expr::Boolean(_) => false,
            Expr::LessThan(_, _) => true,
            Expr::Variable(_) => true,
        }
    }

    /// What the result of a reduction step stands for.
    pub open spec fn step_result(result: Result<Expr, EvalError>) -> Result<Expression, EvalError> {
        match result {
            Ok(next) => Ok(next@),
            Err(fault) => Err(fault),
        }
    }

    /// With two literals as operands, the literal of the operator's result.
    fn collapse(op: Operator, left: &Expr, right: &Expr) -> (result: Result<Expr, EvalError>)
        requires
            !left@.is_reducible(),
            !right@.is_reducible(),
        ensures
            Self::step_result(result) == Expression::collapse(op, left@, right@),
    {
        match (left.as_value(), right.as_value()) {
            (Some(a), Some(b)) => match op.perform(a, b) {
                Ok(value) => Ok(Expr::literal(value)),
                Err(fault) => Err(fault),
            },
            _ => Err(EvalError::TypeMismatch),
        }
    }

    /// Takes one reduction step in `env`.
    ///
    /// Exactly one redex is contracted: the leftmost, innermost one. A
    /// literal has none, and asking for a step of it gives `NotReducible`.
    pub fn reduce(&self, env: &Environment) -> (result: Result<Expr, EvalError>)
        ensures
            Self::step_result(result) == self@.step(env@),
        decreases self,
    {
        match self {
            Expr::Add(left, right) => {
                if left.is_reducible() {
                    match left.reduce(env) {
                        Ok(reduced) => Ok(Expr::Add(Box::new(reduced), Box::new((**right).clone()))),
                        Err(fault) => Err(fault),
                    }
                } else if right.is_reducible() {
                    match right.reduce(env) {
                        Ok(reduced) => Ok(Expr::Add(Box::new((**left).clone()), Box::new(reduced))),
                        Err(fault) => Err(fault),
                    }
                } else {
                    Self::collapse(Operator::Add, left, right)
                }
            },
            Expr::Multiply(left, right) => {
                if left.is_reducible() {
                    match left.reduce(env) {
                        Ok(reduced) => Ok(
                            Expr::Multiply(Box::new(reduced), Box::new((**right).clone())),
                        ),
                        Err(fault) => Err(fault),
                    }
                } else if right.is_reducible() {
                    match right.reduce(env) {
                        Ok(reduced) => Ok(
                            Expr::Multiply(Box::new((**left).clone()), Box::new(reduced)),
                        ),
                        Err(fault) => Err(fault),
                    }
                } else {
                    Self::collapse(Operator::Multiply, left, right)
                }
            },
            Expr::LessThan(left, right) => {
                if left.is_reducible() {
                    match left.reduce(env) {
                        Ok(reduced) => Ok(
                            Expr::LessThan(Box::new(reduced), Box::new((**right).clone())),
                        ),
                        Err(fault) => Err(fault),
                    }
                } else if right.is_reducible() {
                    match right.reduce(env) {
                        Ok(reduced) => Ok(
                            Expr::LessThan(Box::new((**left).clone()), Box::new(reduced)),
                        ),
                        Err(fault) => Err(fault),
                    }
                } else {
                    Self::collapse(Operator::LessThan, left, right)
                }
            },
            Expr::Variable(name) => match env.get(name) {
                Some(value) => Ok(Expr::literal(value)),
                None => Err(EvalError::UnboundVariable),
            },
            _ => Err(EvalError::NotReducible),
        }
    }
}

} // verus!
