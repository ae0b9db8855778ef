//! Statements as the interpreter holds them, with both ways of running them.

use crate::environment::{Bindings, Environment};
use crate::expr::Expr;
use crate::syntax::{Expression, Statement};
use crate::value::{EvalError, Value};
use vstd::prelude::*;

verus! {

/// A statement of the language.
#[derive(Debug, PartialEq, Eq)]
pub enum Stmt {
    DoNothing,
    Assign(String, Expr),
    If { condition: Expr, consequence: Box<Stmt>, alternative: Box<Stmt> },
    Sequence { first: Box<Stmt>, second: Box<Stmt> },
    While { condition: Expr, body: Box<Stmt> },
}

impl View for Stmt {
    type V = Statement;

    open spec fn view(&self) -> Statement {
        self.model()
    }
}

impl Stmt {
    /// The mathematical tree that the statement stands for.
    pub open spec fn model(&self) -> Statement
        decreases self,
    {
        match self {
            Stmt::DoNothing => Statement::DoNothing,
            Stmt::Assign(name, expr) => Statement::Assign(name@, expr@),
            Stmt::If { condition, consequence, alternative } => Statement::If {
                condition: condition@,
                consequence: Box::new(consequence.model()),
                alternative: Box::new(alternative.model()),
            },
            Stmt::Sequence { first, second } => Statement::Sequence {
                first: Box::new(first.model()),
                second: Box::new(second.model()),
            },
            Stmt::While { condition, body } => Statement::While {
                condition: condition@,
                body: Box::new(body.model()),
            },
        }
    }
}

impl Clone for Stmt {
    fn clone(&self) -> (copy: Self)
        ensures
            copy == *self,
        decreases self,
    {
        match self {
            Stmt::DoNothing => Stmt::DoNothing,
            Stmt::Assign(name, expr) => Stmt::Assign(name.clone(), expr.clone()),
            Stmt::If { condition, consequence, alternative } => Stmt::If {
                condition: condition.clone(),
                consequence: Box::new((**consequence).clone()),
                alternative: Box::new((**alternative).clone()),
            },
            Stmt::Sequence { first, second } => Stmt::Sequence {
                first: Box::new((**first).clone()),
                second: Box::new((**second).clone()),
            },
            Stmt::While { condition, body } => Stmt::While {
                condition: condition.clone(),
                body: Box::new((**body).clone()),
            },
        }
    }
}

impl Stmt {
    /// What the result of a reduction step stands for.
    pub open spec fn step_result(result: Result<(Stmt, Environment), EvalError>) -> Result<
        (Statement, Bindings),
        EvalError,
    > {
        match result {
            Ok((next, changed)) => Ok((next@, changed@)),
            Err(fault) => Err(fault),
        }
    }

    /// What the result of a run stands for.
    pub open spec fn outcome_of(result: Result<Environment, EvalError>) -> Result<
        Bindings,
        EvalError,
    > {
        match result {
            Ok(last) => Ok(last@),
            Err(fault) => Err(fault),
        }
    }

    /// What the result of a run on limited fuel stands for.
    pub open spec fn bounded_outcome_of(result: Result<Option<Environment>, EvalError>) -> Option<
        Result<Bindings, EvalError>,
    > {
        match result {
            Ok(Some(last)) => Some(Ok(last@)),
            Ok(None) => None,
            Err(fault) => Some(Err(fault)),
        }
    }

    /// Whether a reduction step applies to the statement.
    pub fn is_reducible(&self) -> (reducible: bool)
        ensures
            reducible == self@.is_reducible(),
    {
        match self {
            Stmt::DoNothing => false,
            Stmt::Assign(..) => true,
            Stmt::If { .. } => true,
            Stmt::Sequence { .. } => true,
            Stmt::While { .. } => true,
        }
    }

    /// Takes one reduction step from `env`, and gives the statement and the
    /// environment that it leads to. [`Statement::step`] says which step that
    /// is for each form of statement.
    ///
    /// `env` itself is left as it was: the environment returned is a new one.
    /// `DoNothing` has no step to take, and asking for one gives
    /// `NotReducible`. A condition that has been reduced to a number gives
    /// `InvalidCondition`.
    pub fn reduce(&self, env: &Environment) -> (result: Result<(Stmt, Environment), EvalError>)
        ensures
            Self::step_result(result) == self@.step(env@),
        decreases self,
    {
        match self {
            Stmt::Assign(name, expr) => {
                match expr.as_value() {
                    None => match expr.reduce(env) {
                        Ok(reduced) => Ok((Stmt::Assign(name.clone(), reduced), env.clone())),
                        Err(fault) => Err(fault),
                    },
                    Some(value) => {
                        let mut new_env = env.clone();
                        new_env.insert(name.clone(), value);
                        Ok((Stmt::DoNothing, new_env))
                    },
                }
            },
            Stmt::If { condition, consequence, alternative } => {
                if condition.is_reducible() {
                    match condition.reduce(env) {
                        Ok(reduced) => Ok(
                            (
                                Stmt::If {
                                    condition: reduced,
                                    consequence: Box::new((**consequence).clone()),
                                    alternative: Box::new((**alternative).clone()),
                                },
                                env.clone(),
                            ),
                        ),
                        Err(fault) => Err(fault),
                    }
                } else {
                    match condition {
                        Expr::Boolean(true) => Ok(((**consequence).clone(), env.clone())),
                        Expr::Boolean(false) => Ok(((**alternative).clone(), env.clone())),
                        _ => Err(EvalError::InvalidCondition),
                    }
                }
            },
            Stmt::Sequence { first, second } => match &**first {
                Stmt::DoNothing => Ok(((**second).clone(), env.clone())),
                _ => match first.reduce(env) {
                    Ok((reduced_first, reduced_env)) => Ok(
                        (
                            Stmt::Sequence {
                                first: Box::new(reduced_first),
                                second: Box::new((**second).clone()),
                            },
                            reduced_env,
                        ),
                    ),
                    Err(fault) => Err(fault),
                },
            },
            Stmt::While { condition, body } => {
                let unfolded = Stmt::If {
                    condition: condition.clone(),
                    consequence: Box::new(
                        Stmt::Sequence {
                            first: Box::new((**body).clone()),
                            second: Box::new(self.clone()),
                        },
                    ),
                    alternative: Box::new(Stmt::DoNothing),
                };
                let result = Ok((unfolded, env.clone()));
                assert(Self::step_result(result) == self@.step(env@)) by {
                    reveal_with_fuel(Stmt::model, 3);
                }
                result
            },
            _ => Err(EvalError::NotReducible),
        }
    }

    /// Runs the statement in `env` to its end, in one go, and gives the
    /// environment that it leaves behind.
    ///
    /// A loop is run for as long as its condition holds, with no bound on the
    /// number of iterations: on a statement that does not halt, this function
    /// does not return. A caller that must stay in control drives a
    /// [`crate::machine::Machine`] step by step instead, and counts the steps.
    pub fn evalute(&self, env: Environment) -> (result: Result<Environment, EvalError>)
        requires
            self@.halts(env@),
        ensures
            Self::outcome_of(result) == self@.outcome(env@),
        decreases self@.fuel_needed(env@), self,
    {
        let ghost start = env@;
        match self {
            Stmt::DoNothing => {
                proof {
                    self@.lemma_outcome(start, 0);
                }
                Ok(env)
            },
            Stmt::Assign(name, expr) => {
                proof {
                    self@.lemma_outcome(start, 0);
                }
                match expr.evalute(&env) {
                    Ok(value) => {
                        let mut env = env;
                        env.insert(name.clone(), value);
                        Ok(env)
                    },
                    Err(fault) => Err(fault),
                }
            },
            Stmt::If { condition, consequence, alternative } => match condition.evalute(&env) {
                Ok(Value::Boolean(true)) => {
                    proof {
                        self@.lemma_if_runs_branch(start);
                    }
                    consequence.evalute(env)
                },
                Ok(Value::Boolean(false)) => {
                    proof {
                        self@.lemma_if_runs_branch(start);
                    }
                    alternative.evalute(env)
                },
                Ok(Value::Number(_)) => {
                    proof {
                        self@.lemma_outcome(start, 0);
                    }
                    Err(EvalError::InvalidCondition)
                },
                Err(fault) => {
                    proof {
                        self@.lemma_outcome(start, 0);
                    }
                    Err(fault)
                },
            },
            Stmt::Sequence { first, second } => {
                proof {
                    self@.lemma_sequence_runs_first(start);
                }
                match first.evalute(env) {
                    Ok(between) => {
                        proof {
                            self@.lemma_sequence_runs_second(start, between@);
                        }
                        second.evalute(between)
                    },
                    Err(fault) => Err(fault),
                }
            },
            Stmt::While { condition, body } => match condition.evalute(&env) {
                Ok(Value::Boolean(true)) => {
                    proof {
                        self@.lemma_while_runs_body(start);
                    }
                    match body.evalute(env) {
                        Ok(between) => {
                            proof {
                                self@.lemma_while_runs_again(start, between@);
                            }
                            self.evalute(between)
                        },
                        Err(fault) => Err(fault),
                    }
                },
                Ok(Value::Boolean(false)) => {
                    proof {
                        self@.lemma_outcome(start, 0);
                    }
                    Ok(env)
                },
                Ok(Value::Number(_)) => {
                    proof {
                        self@.lemma_outcome(start, 0);
                    }
                    Err(EvalError::InvalidCondition)
                },
                Err(fault) => {
                    proof {
                        self@.lemma_outcome(start, 0);
                    }
                    Err(fault)
                },
            },
        }
    }

    /// Runs the statement in `env` as [`Stmt::evalute`] does, but on `fuel`
    /// units of fuel: an iteration of a loop takes one unit, and its body, as
    /// well as the iterations after it, run on what is left. `Ok(None)` says
    /// that a loop was to go on with no fuel left.
    ///
    /// This is the evaluation for a caller that does not know whether the
    /// statement halts.
    pub fn evalute_within(&self, env: Environment, fuel: usize) -> (result: Result<
        Option<Environment>,
        EvalError,
    >)
        ensures
            Self::bounded_outcome_of(result) == self@.evaluate(env@, fuel as nat),
        decreases fuel, self,
    {
        match self {
            Stmt::DoNothing => Ok(Some(env)),
            Stmt::Assign(name, expr) => match expr.evalute(&env) {
                Ok(value) => {
                    let mut env = env;
                    env.insert(name.clone(), value);
                    Ok(Some(env))
                },
                Err(fault) => Err(fault),
            },
            Stmt::If { condition, consequence, alternative } => match condition.evalute(&env) {
                Ok(Value::Boolean(true)) => consequence.evalute_within(env, fuel),
                Ok(Value::Boolean(false)) => alternative.evalute_within(env, fuel),
                Ok(Value::Number(_)) => Err(EvalError::InvalidCondition),
                Err(fault) => Err(fault),
            },
            Stmt::Sequence { first, second } => match first.evalute_within(env, fuel) {
                Ok(Some(between)) => second.evalute_within(between, fuel),
                stopped => stopped,
            },
            Stmt::While { condition, body } => match condition.evalute(&env) {
                Ok(Value::Boolean(true)) => {
                    if fuel == 0 {
                        Ok(None)
                    } else {
                        match body.evalute_within(env, fuel - 1) {
                            Ok(Some(between)) => self.evalute_within(between, fuel - 1),
                            stopped => stopped,
                        }
                    }
                },
                Ok(Value::Boolean(false)) => Ok(Some(env)),
                Ok(Value::Number(_)) => Err(EvalError::InvalidCondition),
                Err(fault) => Err(fault),
            },
        }
    }
}

} // verus!
