//! Reduction and evaluation are deterministic: what they give depends on
//! nothing but what the term and the environment stand for.

use crate::environment::{Bindings, Environment};
use crate::expr::Expr;
use crate::stmt::Stmt;
use crate::syntax::Statement;
use crate::value::{EvalError, Value};
use vstd::prelude::*;

verus! {

/// **Determinism of reduction.** A step is a function of what the statement
/// and the environment stand for: two results that [`Stmt::reduce`] may give
/// for statements and environments that stand for the same stand for the
/// same.
pub proof fn lemma_reduce_is_deterministic(
    stmt: Stmt,
    env: Environment,
    same_stmt: Stmt,
    same_env: Environment,
    result: Result<(Stmt, Environment), EvalError>,
    same_result: Result<(Stmt, Environment), EvalError>,
)
    requires
        stmt@ == same_stmt@,
        env@ == same_env@,
        Stmt::step_result(result) == stmt@.step(env@),
        Stmt::step_result(same_result) == same_stmt@.step(same_env@),
    ensures
        Stmt::step_result(result) == Stmt::step_result(same_result),
{
}

/// **Determinism of reduction**, for expressions: two results that
/// [`Expr::reduce`] may give for expressions and environments that stand for
/// the same stand for the same.
pub proof fn lemma_expr_reduce_is_deterministic(
    expr: Expr,
    env: Environment,
    same_expr: Expr,
    same_env: Environment,
    result: Result<Expr, EvalError>,
    same_result: Result<Expr, EvalError>,
)
    requires
        expr@ == same_expr@,
        env@ == same_env@,
        Expr::step_result(result) == expr@.step(env@),
        Expr::step_result(same_result) == same_expr@.step(same_env@),
    ensures
        Expr::step_result(result) == Expr::step_result(same_result),
{
}

/// **Determinism of evaluation.** Two results that [`Stmt::evalute`] may give
/// for statements and environments that stand for the same stand for the
/// same.
pub proof fn lemma_evalute_is_deterministic(
    stmt: Stmt,
    env: Environment,
    same_stmt: Stmt,
    same_env: Environment,
    result: Result<Environment, EvalError>,
    same_result: Result<Environment, EvalError>,
)
    requires
        stmt@ == same_stmt@,
        env@ == same_env@,
        Stmt::outcome_of(result) == stmt@.outcome(env@),
        Stmt::outcome_of(same_result) == same_stmt@.outcome(same_env@),
    ensures
        Stmt::outcome_of(result) == Stmt::outcome_of(same_result),
{
}

/// **Determinism of evaluation**, for expressions: two results that
/// [`Expr::evalute`] may give for expressions and environments that stand for
/// the same are the same.
pub proof fn lemma_expr_evalute_is_deterministic(
    expr: Expr,
    env: Environment,
    same_expr: Expr,
    same_env: Environment,
    result: Result<Value, EvalError>,
    same_result: Result<Value, EvalError>,
)
    requires
        expr@ == same_expr@,
        env@ == same_env@,
        result == expr@.eval(env@),
        same_result == same_expr@.eval(same_env@),
    ensures
        result == same_result,
{
}

/// A run ends in one way only: with whatever fuel it is seen to end, it ends
/// with the outcome, and the machine stops after one number of steps only.
pub proof fn lemma_one_outcome(
    program: Statement,
    env: Bindings,
    fuel: nat,
    other_fuel: nat,
    steps: nat,
    other_steps: nat,
)
    ensures
        program.evaluate(env, fuel) is Some ==> program.evaluate(env, fuel) == Some(
            program.outcome(env),
        ),
        program.evaluate(env, fuel) is Some && program.evaluate(env, other_fuel) is Some
            ==> program.evaluate(env, fuel) == program.evaluate(env, other_fuel),
        program.stops_after(env, steps) && program.stops_after(env, other_steps) ==> steps
            == other_steps,
{
    if program.evaluate(env, fuel) is Some {
        program.lemma_outcome(env, fuel);
    }
    if program.evaluate(env, other_fuel) is Some {
        program.lemma_outcome(env, other_fuel);
    }
    if program.stops_after(env, steps) && program.stops_after(env, other_steps) {
        program.lemma_stops_after_once(env, steps, other_steps);
    }
}

} // verus!
