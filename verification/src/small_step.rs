//! Small-step semantics: one rewrite of a term at a time.

use crate::big_step::lookup;
use crate::environment::Bindings;
use crate::syntax::{Expression, Operator, Statement};
use crate::value::EvalError;
use vstd::prelude::*;

verus! {

impl Expression {
    /// Whether a reduction step applies: it does to everything but a literal.
    pub open spec fn is_reducible(self) -> bool {
        self.as_value() is None
    }

    /// The expression after one reduction step in `env`.
    ///
    /// A variable is replaced by the literal of the value it is bound to. Of
    /// an operator node the leftmost reducible operand takes the step, the
    /// other one staying as it is; with two literals as operands the node
    /// collapses to the literal of the operator's result.
    pub open spec fn step(self, env: Bindings) -> Result<Expression, EvalError>
        decreases self,
    {
        match self {
            Expression::Number(_) => Err(EvalError::NotReducible),
            Expression::Boolean(_) => Err(EvalError::NotReducible),
            Expression::Variable(name) => match lookup(env, name) {
                Ok(value) => Ok(Expression::literal(value)),
                Err(fault) => Err(fault),
            },
            Expression::Binary(op, left, right) => if left.is_reducible() {
                match left.step(env) {
                    Ok(reduced) => Ok(Expression::Binary(op, Box::new(reduced), right)),
                    Err(fault) => Err(fault),
                }
            } else if right.is_reducible() {
                match right.step(env) {
                    Ok(reduced) => Ok(Expression::Binary(op, left, Box::new(reduced))),
                    Err(fault) => Err(fault),
                }
            } else {
                Expression::collapse(op, *left, *right)
            },
        }
    }

    /// What an operator node with two literals as operands reduces to: the
    /// literal of the operator's result.
    pub open spec fn collapse(op: Operator, left: Expression, right: Expression) -> Result<
        Expression,
        EvalError,
    >
        recommends
            !left.is_reducible(),
            !right.is_reducible(),
    {
        match op.apply(left.as_value().unwrap(), right.as_value().unwrap()) {
            Ok(value) => Ok(Expression::literal(value)),
            Err(fault) => Err(fault),
        }
    }

    /// The expression after `n` reduction steps in `env`, or the fault that
    /// one of them ended with.
    pub open spec fn step_n(self, env: Bindings, n: nat) -> Result<Expression, EvalError>
        decreases n,
    {
        if n == 0 {
            Ok(self)
        } else {
            match self.step(env) {
                Ok(next) => next.step_n(env, (n - 1) as nat),
                Err(fault) => Err(fault),
            }
        }
    }
}

impl Statement {
    /// Whether a reduction step applies: it does to everything but
    /// `DoNothing`.
    pub open spec fn is_reducible(self) -> bool {
        !(self is DoNothing)
    }

    /// The statement and the environment after one reduction step.
    ///
    /// An assignment and a conditional first reduce their expression, one
    /// step at a time and with the environment untouched. An assignment of a
    /// literal binds the name and becomes `DoNothing` in the same step. A
    /// conditional on a literal becomes the branch chosen, as it stands. A
    /// sequence reduces its first part until that is `DoNothing`, and then
    /// becomes its second part. A loop only unfolds: it becomes a conditional
    /// on its condition, whose consequence is the body followed by the loop
    /// itself and whose alternative is `DoNothing`.
    pub open spec fn step(self, env: Bindings) -> Result<(Statement, Bindings), EvalError>
        decreases self,
    {
        match self {
            Statement::DoNothing => Err(EvalError::NotReducible),
            Statement::Assign(name, expr) => if expr.is_reducible() {
                match expr.step(env) {
                    Ok(reduced) => Ok((Statement::Assign(name, reduced), env)),
                    Err(fault) => Err(fault),
                }
            } else {
                Ok((Statement::DoNothing, env.insert(name, expr.as_value().unwrap())))
            },
            Statement::If { condition, consequence, alternative } => if condition.is_reducible() {
                match condition.step(env) {
                    Ok(reduced) => Ok(
                        (Statement::If { condition: reduced, consequence, alternative }, env),
                    ),
                    Err(fault) => Err(fault),
                }
            } else {
                match condition {
                    Expression::Boolean(true) => Ok((*consequence, env)),
                    Expression::Boolean(false) => Ok((*alternative, env)),
                    _ => Err(EvalError::InvalidCondition),
                }
            },
            Statement::Sequence { first, second } => if *first is DoNothing {
                Ok((*second, env))
            } else {
                match first.step(env) {
                    Ok((reduced, changed)) => Ok(
                        (Statement::Sequence { first: Box::new(reduced), second }, changed),
                    ),
                    Err(fault) => Err(fault),
                }
            },
            Statement::While { condition, body } => Ok(
                (
                    Statement::If {
                        condition,
                        consequence: Box::new(
                            Statement::Sequence { first: body, second: Box::new(self) },
                        ),
                        alternative: Box::new(Statement::DoNothing),
                    },
                    env,
                ),
            ),
        }
    }

    /// The statement and the environment after `n` reduction steps from
    /// `env`, or the fault that one of them ended with.
    pub open spec fn step_n(self, env: Bindings, n: nat) -> Result<(Statement, Bindings), EvalError>
        decreases n,
    {
        if n == 0 {
            Ok((self, env))
        } else {
            match self.step(env) {
                Ok((next, changed)) => next.step_n(changed, (n - 1) as nat),
                Err(fault) => Err(fault),
            }
        }
    }
}

impl Statement {
    /// Whether the run from `env` takes exactly `n` steps: after them no
    /// further step can be taken, because the statement is `DoNothing` or
    /// because the next step ends with a fault.
    pub open spec fn stops_after(self, env: Bindings, n: nat) -> bool {
        match self.step_n(env, n) {
            Ok((last, bindings)) => last.step(bindings) is Err,
            Err(_) => false,
        }
    }

    /// Whether the run from `env` takes finitely many steps.
    #[verifier::opaque]
    pub open spec fn stops(self, env: Bindings) -> bool {
        exists|n: nat| self.stops_after(env, n)
    }

    /// The number of steps that the run from `env` takes, where it stops.
    #[verifier::opaque]
    pub open spec fn steps_taken(self, env: Bindings) -> nat {
        choose|n: nat| self.stops_after(env, n)
    }

    /// The statement and the environment that the run from `env` stops at,
    /// where it stops.
    pub open spec fn last_state(self, env: Bindings) -> (Statement, Bindings) {
        self.step_n(env, self.steps_taken(env)).unwrap()
    }

    /// What the run from `env` ends with, where it stops: the environment
    /// that it reaches `DoNothing` with, or the fault of the step that could
    /// not be taken.
    pub open spec fn machine_outcome(self, env: Bindings) -> Result<Bindings, EvalError> {
        let (last, bindings) = self.last_state(env);
        if last is DoNothing {
            Ok(bindings)
        } else {
            Err(last.step(bindings)->Err_0)
        }
    }

    /// Taking `m` steps and then `n` steps is taking `m + n` steps.
    pub proof fn lemma_step_n_add(self, env: Bindings, m: nat, n: nat)
        ensures
            self.step_n(env, m + n) == match self.step_n(env, m) {
                Ok((next, changed)) => next.step_n(changed, n),
                Err(fault) => Err(fault),
            },
        decreases m,
    {
        if m > 0 {
            if let Ok((next, changed)) = self.step(env) {
                next.lemma_step_n_add(changed, (m - 1) as nat, n);
            }
        }
    }

    /// A run stops after one number of steps only.
    pub proof fn lemma_stops_after_once(self, env: Bindings, m: nat, n: nat)
        requires
            self.stops_after(env, m),
            self.stops_after(env, n),
        ensures
            m == n,
    {
        if m < n {
            self.lemma_step_n_add(env, m, (n - m) as nat);
        } else if n < m {
            self.lemma_step_n_add(env, n, (m - n) as nat);
        }
    }

    /// A run that is seen to stop after `n` steps stops, and takes `n` steps.
    pub proof fn lemma_stops(self, env: Bindings, n: nat)
        requires
            self.stops_after(env, n),
        ensures
            self.stops(env),
            self.steps_taken(env) == n,
            self.last_state(env) == self.step_n(env, n).unwrap(),
    {
        reveal(Statement::stops);
        reveal(Statement::steps_taken);
        self.lemma_stops_after_once(env, n, self.steps_taken(env));
    }

    /// A run that stops does so after the number of steps that it takes.
    pub proof fn lemma_stops_after_steps_taken(self, env: Bindings)
        requires
            self.stops(env),
        ensures
            self.stops_after(env, self.steps_taken(env)),
    {
        reveal(Statement::stops);
        reveal(Statement::steps_taken);
    }

    /// A run that can take no step has stopped where it is.
    pub proof fn lemma_stops_at_once(self, env: Bindings)
        requires
            self.step(env) is Err,
        ensures
            self.stops(env),
            self.steps_taken(env) == 0,
            self.last_state(env) == (self, env),
    {
        self.lemma_stops(env, 0);
    }

    /// After one step, a run that stops has one step less to take, and stops
    /// at the same state.
    pub proof fn lemma_stops_one_step_on(self, env: Bindings)
        requires
            self.stops(env),
            self.step(env) is Ok,
        ensures
            ({
                let (next, changed) = self.step(env).unwrap();
                &&& next.stops(changed)
                &&& next.steps_taken(changed) + 1 == self.steps_taken(env)
                &&& next.last_state(changed) == self.last_state(env)
            }),
    {
        let (next, changed) = self.step(env).unwrap();
        self.lemma_stops_after_steps_taken(env);
        let n = self.steps_taken(env);
        assert(n > 0);
        next.lemma_stops(changed, (n - 1) as nat);
    }

    /// A run that has come to a fault within `n` steps stopped before them,
    /// at the state whose step ended with that fault.
    pub proof fn lemma_fault_stops(self, env: Bindings, n: nat) -> (m: nat)
        requires
            self.step_n(env, n) is Err,
        ensures
            m < n,
            self.stops_after(env, m),
            self.step_n(env, m)->Ok_0.0.step(self.step_n(env, m)->Ok_0.1) == Err::<
                (Statement, Bindings),
                EvalError,
            >(self.step_n(env, n)->Err_0),
        decreases n,
    {
        match self.step(env) {
            Ok((next, changed)) => {
                let m = next.lemma_fault_stops(changed, (n - 1) as nat);
                m + 1
            },
            Err(_) => 0,
        }
    }

    /// Where the run from the state after one step stops, the run from this
    /// state stops too.
    pub proof fn lemma_stops_one_step_back(self, env: Bindings)
        requires
            self.step(env) is Ok,
            self.step(env)->Ok_0.0.stops(self.step(env)->Ok_0.1),
        ensures
            self.stops(env),
    {
        let (next, changed) = self.step(env)->Ok_0;
        next.lemma_stops_after_steps_taken(changed);
        self.lemma_stops(env, next.steps_taken(changed) + 1);
    }
}

impl Expression {
    /// A reducible expression never answers a step with `NotReducible`.
    pub proof fn lemma_reducible_is_not_refused(self, env: Bindings)
        requires
            self.is_reducible(),
        ensures
            self.step(env) != Err::<Expression, EvalError>(EvalError::NotReducible),
        decreases self,
    {
        match self {
            Expression::Binary(_, left, right) => {
                if left.is_reducible() {
                    left.lemma_reducible_is_not_refused(env);
                } else if right.is_reducible() {
                    right.lemma_reducible_is_not_refused(env);
                }
            },
            _ => {},
        }
    }
}

impl Statement {
    /// A reducible statement never answers a step with `NotReducible`.
    pub proof fn lemma_reducible_is_not_refused(self, env: Bindings)
        requires
            self.is_reducible(),
        ensures
            self.step(env) != Err::<(Statement, Bindings), EvalError>(EvalError::NotReducible),
        decreases self,
    {
        match self {
            Statement::Assign(_, expr) => {
                if expr.is_reducible() {
                    expr.lemma_reducible_is_not_refused(env);
                }
            },
            Statement::If { condition, .. } => {
                if condition.is_reducible() {
                    condition.lemma_reducible_is_not_refused(env);
                }
            },
            Statement::Sequence { first, .. } => {
                if first.is_reducible() {
                    first.lemma_reducible_is_not_refused(env);
                }
            },
            _ => {},
        }
    }
}

/// **Terminal terms.** `DoNothing` and the literals are the terms with no
/// step to take, and asking for a step of one of them is answered with
/// `NotReducible`, never with the term itself. No other term gives that
/// fault.
pub proof fn lemma_terminal_terms(stmt: Statement, expr: Expression, env: Bindings)
    ensures
        !Statement::DoNothing.is_reducible(),
        Statement::DoNothing.step(env) == Err::<(Statement, Bindings), EvalError>(
            EvalError::NotReducible,
        ),
        stmt.step(env) == Err::<(Statement, Bindings), EvalError>(EvalError::NotReducible)
            <==> !stmt.is_reducible(),
        expr.step(env) == Err::<Expression, EvalError>(EvalError::NotReducible)
            <==> !expr.is_reducible(),
{
    if stmt.is_reducible() {
        stmt.lemma_reducible_is_not_refused(env);
    }
    if expr.is_reducible() {
        expr.lemma_reducible_is_not_refused(env);
    }
}

/// **Loop unfolding.** The first step of a loop only rewrites it into a
/// conditional on its condition, with the body followed by the loop itself as
/// the consequence. So the run of the loop stops where the run of that
/// conditional stops, at the same state, and takes one step more.
pub proof fn lemma_loop_unfolds(condition: Expression, body: Statement, env: Bindings)
    ensures
        ({
            let repeat = Statement::While { condition, body: Box::new(body) };
            let unfolded = Statement::If {
                condition,
                consequence: Box::new(
                    Statement::Sequence { first: Box::new(body), second: Box::new(repeat) },
                ),
                alternative: Box::new(Statement::DoNothing),
            };
            &&& repeat.step(env) == Ok::<(Statement, Bindings), EvalError>((unfolded, env))
            &&& repeat.stops(env) <==> unfolded.stops(env)
            &&& repeat.stops(env) ==> {
                &&& repeat.steps_taken(env) == 1 + unfolded.steps_taken(env)
                &&& repeat.last_state(env) == unfolded.last_state(env)
            }
        }),
{
    let repeat = Statement::While { condition, body: Box::new(body) };
    let unfolded = Statement::If {
        condition,
        consequence: Box::new(
            Statement::Sequence { first: Box::new(body), second: Box::new(repeat) },
        ),
        alternative: Box::new(Statement::DoNothing),
    };
    if repeat.stops(env) {
        repeat.lemma_stops_one_step_on(env);
    }
    if unfolded.stops(env) {
        repeat.lemma_stops_one_step_back(env);
    }
}

} // verus!
