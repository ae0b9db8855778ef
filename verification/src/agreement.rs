//! Big-step evaluation and small-step reduction give the same results.

use crate::environment::Bindings;
use crate::syntax::{Expression, Operator, Statement};
use crate::value::{EvalError, Value};
use vstd::prelude::*;

verus! {

impl Expression {
    /// The number of reduction steps that lead from the expression to a
    /// literal, where none of them ends with a fault: one for each variable
    /// and one for each operator.
    pub open spec fn redexes(self) -> nat
        decreases self,
    {
        match self {
            Expression::Number(_) => 0,
            Expression::Boolean(_) => 0,
            Expression::Variable(_) => 1,
            Expression::Binary(_, left, right) => left.redexes() + right.redexes() + 1,
        }
    }

    /// A literal stands for its value, under both semantics.
    pub proof fn lemma_literal(value: Value, env: Bindings)
        ensures
            Expression::literal(value).as_value() == Some(value),
            !Expression::literal(value).is_reducible(),
            Expression::literal(value).eval(env) == Ok::<Value, EvalError>(value),
            Expression::literal(value).redexes() == 0,
    {
    }

    /// An expression with no step to take is the literal of its value.
    pub proof fn lemma_irreducible(self, env: Bindings)
        requires
            !self.is_reducible(),
        ensures
            self == Expression::literal(self.as_value().unwrap()),
            self.eval(env) == Ok::<Value, EvalError>(self.as_value().unwrap()),
            self.redexes() == 0,
    {
    }

    /// A reduction step keeps the value of the expression, and a step that
    /// ends with a fault shows the fault that evaluation ends with.
    pub proof fn lemma_step_keeps_value(self, env: Bindings)
        requires
            self.is_reducible(),
        ensures
            match self.step(env) {
                Ok(next) => next.eval(env) == self.eval(env),
                Err(fault) => self.eval(env) == Err::<Value, EvalError>(fault) && fault
                    != EvalError::NotReducible,
            },
        decreases self,
    {
        match self {
            Expression::Binary(op, left, right) => {
                if left.is_reducible() {
                    left.lemma_step_keeps_value(env);
                } else if right.is_reducible() {
                    left.lemma_irreducible(env);
                    right.lemma_step_keeps_value(env);
                } else {
                    left.lemma_irreducible(env);
                    right.lemma_irreducible(env);
                }
            },
            _ => {},
        }
    }

    /// A reduction step contracts exactly one redex.
    pub proof fn lemma_step_contracts_one_redex(self, env: Bindings)
        requires
            self.step(env) is Ok,
        ensures
            self.step(env)->Ok_0.redexes() + 1 == self.redexes(),
        decreases self,
    {
        match self {
            Expression::Variable(name) => {
                Self::lemma_literal(env[name], env);
            },
            Expression::Binary(op, left, right) => {
                if left.is_reducible() {
                    left.lemma_step_contracts_one_redex(env);
                } else if right.is_reducible() {
                    left.lemma_irreducible(env);
                    right.lemma_step_contracts_one_redex(env);
                } else {
                    left.lemma_irreducible(env);
                    right.lemma_irreducible(env);
                    Self::lemma_literal(
                        op.apply(left.as_value().unwrap(), right.as_value().unwrap())->Ok_0,
                        env,
                    );
                }
            },
            _ => {},
        }
    }

    /// Taking `m` steps and then `n` steps is taking `m + n` steps.
    pub proof fn lemma_step_n_add(self, env: Bindings, m: nat, n: nat)
        ensures
            self.step_n(env, m + n) == match self.step_n(env, m) {
                Ok(next) => next.step_n(env, n),
                Err(fault) => Err(fault),
            },
        decreases m,
    {
        if m > 0 {
            if let Ok(next) = self.step(env) {
                next.lemma_step_n_add(env, (m - 1) as nat, n);
            }
        }
    }

    /// Steps of the left operand are steps of the operator node.
    pub proof fn lemma_steps_on_the_left(
        op: Operator,
        left: Expression,
        right: Expression,
        env: Bindings,
        n: nat,
    )
        ensures
            match left.step_n(env, n) {
                Ok(reduced) => Expression::Binary(op, Box::new(left), Box::new(right)).step_n(env, n)
                    == Ok::<Expression, EvalError>(
                    Expression::Binary(op, Box::new(reduced), Box::new(right)),
                ),
                Err(fault) => fault != EvalError::NotReducible ==> Expression::Binary(
                    op,
                    Box::new(left),
                    Box::new(right),
                ).step_n(env, n) == Err::<Expression, EvalError>(fault),
            },
        decreases n,
    {
        if n > 0 {
            if let Ok(next) = left.step(env) {
                Self::lemma_steps_on_the_left(op, next, right, env, (n - 1) as nat);
            }
        }
    }

    /// With a literal on the left, steps of the right operand are steps of
    /// the operator node.
    pub proof fn lemma_steps_on_the_right(
        op: Operator,
        left: Expression,
        right: Expression,
        env: Bindings,
        n: nat,
    )
        requires
            !left.is_reducible(),
        ensures
            match right.step_n(env, n) {
                Ok(reduced) => Expression::Binary(op, Box::new(left), Box::new(right)).step_n(env, n)
                    == Ok::<Expression, EvalError>(
                    Expression::Binary(op, Box::new(left), Box::new(reduced)),
                ),
                Err(fault) => fault != EvalError::NotReducible ==> Expression::Binary(
                    op,
                    Box::new(left),
                    Box::new(right),
                ).step_n(env, n) == Err::<Expression, EvalError>(fault),
            },
        decreases n,
    {
        if n > 0 {
            if let Ok(next) = right.step(env) {
                Self::lemma_steps_on_the_right(op, left, next, env, (n - 1) as nat);
            }
        }
    }

    /// What evaluation gives in one go, reduction reaches step by step: the
    /// literal of the value after as many steps as the expression has
    /// redexes, or the same fault after some number of steps.
    pub proof fn lemma_eval_is_reached(self, env: Bindings) -> (n: nat)
        ensures
            match self.eval(env) {
                Ok(value) => n == self.redexes() && self.step_n(env, n) == Ok::<
                    Expression,
                    EvalError,
                >(Expression::literal(value)),
                Err(fault) => fault != EvalError::NotReducible && self.step_n(env, n) == Err::<
                    Expression,
                    EvalError,
                >(fault),
            },
        decreases self,
    {
        match self {
            Expression::Number(_) => 0,
            Expression::Boolean(_) => 0,
            Expression::Variable(_) => {
                reveal_with_fuel(Expression::step_n, 2);
                1
            },
            Expression::Binary(op, left, right) => {
                let on_left = left.lemma_eval_is_reached(env);
                Self::lemma_steps_on_the_left(op, *left, *right, env, on_left);
                match left.eval(env) {
                    Err(_) => on_left,
                    Ok(a) => {
                        let half = Expression::Binary(op, Box::new(Expression::literal(a)), right);
                        let on_right = right.lemma_eval_is_reached(env);
                        Self::lemma_literal(a, env);
                        Self::lemma_steps_on_the_right(
                            op,
                            Expression::literal(a),
                            *right,
                            env,
                            on_right,
                        );
                        self.lemma_step_n_add(env, on_left, on_right);
                        match right.eval(env) {
                            Err(_) => on_left + on_right,
                            Ok(b) => {
                                let both = Expression::Binary(
                                    op,
                                    Box::new(Expression::literal(a)),
                                    Box::new(Expression::literal(b)),
                                );
                                Self::lemma_literal(b, env);
                                self.lemma_step_n_add(env, on_left + on_right, 1);
                                assert(both.step_n(env, 1) == both.step(env)) by {
                                    reveal_with_fuel(Expression::step_n, 2);
                                }
                                on_left + on_right + 1
                            },
                        }
                    },
                }
            },
        }
    }
}

impl Expression {
    /// What reduction ends with, evaluation gives in one go: the value of the
    /// literal that was reached, or the fault of the step that failed.
    pub proof fn lemma_reduction_is_evaluated(self, env: Bindings, n: nat)
        requires
            match self.step_n(env, n) {
                Ok(last) => !last.is_reducible(),
                Err(fault) => fault != EvalError::NotReducible,
            },
        ensures
            self.eval(env) == match self.step_n(env, n) {
                Ok(last) => Ok::<Value, EvalError>(last.as_value().unwrap()),
                Err(fault) => Err::<Value, EvalError>(fault),
            },
        decreases n,
    {
        if n == 0 {
            self.lemma_irreducible(env);
        } else if self.is_reducible() {
            self.lemma_step_keeps_value(env);
            if let Ok(next) = self.step(env) {
                next.lemma_reduction_is_evaluated(env, (n - 1) as nat);
            }
        }
    }
}

impl Statement {
    /// Steps of the assigned expression are steps of the assignment.
    pub proof fn lemma_steps_in_assignment(name: Seq<char>, expr: Expression, env: Bindings, n: nat)
        ensures
            match expr.step_n(env, n) {
                Ok(reduced) => Statement::Assign(name, expr).step_n(env, n) == Ok::<
                    (Statement, Bindings),
                    EvalError,
                >((Statement::Assign(name, reduced), env)),
                Err(fault) => fault != EvalError::NotReducible ==> Statement::Assign(name, expr).step_n(
                    env,
                    n,
                ) == Err::<(Statement, Bindings), EvalError>(fault),
            },
        decreases n,
    {
        if n > 0 {
            if let Ok(next) = expr.step(env) {
                Self::lemma_steps_in_assignment(name, next, env, (n - 1) as nat);
            }
        }
    }

    /// Steps of the condition are steps of the conditional.
    pub proof fn lemma_steps_in_condition(
        condition: Expression,
        consequence: Statement,
        alternative: Statement,
        env: Bindings,
        n: nat,
    )
        ensures
            match condition.step_n(env, n) {
                Ok(reduced) => Statement::If {
                    condition,
                    consequence: Box::new(consequence),
                    alternative: Box::new(alternative),
                }.step_n(env, n) == Ok::<(Statement, Bindings), EvalError>(
                    (
                        Statement::If {
                            condition: reduced,
                            consequence: Box::new(consequence),
                            alternative: Box::new(alternative),
                        },
                        env,
                    ),
                ),
                Err(fault) => fault != EvalError::NotReducible ==> Statement::If {
                    condition,
                    consequence: Box::new(consequence),
                    alternative: Box::new(alternative),
                }.step_n(env, n) == Err::<(Statement, Bindings), EvalError>(fault),
            },
        decreases n,
    {
        if n > 0 {
            if let Ok(next) = condition.step(env) {
                Self::lemma_steps_in_condition(next, consequence, alternative, env, (n - 1) as nat);
            }
        }
    }

    /// Steps of the first part are steps of the sequence.
    pub proof fn lemma_steps_in_first(first: Statement, second: Statement, env: Bindings, n: nat)
        ensures
            match first.step_n(env, n) {
                Ok((reduced, changed)) => Statement::Sequence {
                    first: Box::new(first),
                    second: Box::new(second),
                }.step_n(env, n) == Ok::<(Statement, Bindings), EvalError>(
                    (Statement::Sequence { first: Box::new(reduced), second: Box::new(second) }, changed),
                ),
                Err(fault) => fault != EvalError::NotReducible ==> Statement::Sequence {
                    first: Box::new(first),
                    second: Box::new(second),
                }.step_n(env, n) == Err::<(Statement, Bindings), EvalError>(fault),
            },
        decreases n,
    {
        if n > 0 {
            if let Ok((next, changed)) = first.step(env) {
                Self::lemma_steps_in_first(next, second, changed, (n - 1) as nat);
            }
        }
    }

    /// After a step to `next` and `changed`, the run goes on from there.
    proof fn lemma_one_step_then(self, env: Bindings, next: Statement, changed: Bindings, n: nat)
        requires
            self.step(env) == Ok::<(Statement, Bindings), EvalError>((next, changed)),
        ensures
            self.step_n(env, n + 1) == next.step_n(changed, n),
    {
    }

    /// What a run ends with in one go, the machine reaches step by step: the
    /// statement `DoNothing` with the same environment, or the same fault.
    pub proof fn lemma_evaluate_is_reached(self, env: Bindings, fuel: nat) -> (n: nat)
        requires
            self.evaluate(env, fuel) is Some,
        ensures
            match self.evaluate(env, fuel).unwrap() {
                Ok(last) => self.step_n(env, n) == Ok::<(Statement, Bindings), EvalError>(
                    (Statement::DoNothing, last),
                ),
                Err(fault) => fault != EvalError::NotReducible && self.step_n(env, n) == Err::<
                    (Statement, Bindings),
                    EvalError,
                >(fault),
            },
        decreases fuel, self,
    {
        match self {
            Statement::DoNothing => 0,
            Statement::Assign(name, expr) => {
                let on_expr = expr.lemma_eval_is_reached(env);
                Self::lemma_steps_in_assignment(name, expr, env, on_expr);
                match expr.eval(env) {
                    Err(_) => on_expr,
                    Ok(value) => {
                        let ready = Statement::Assign(name, Expression::literal(value));
                        Expression::lemma_literal(value, env);
                        self.lemma_step_n_add(env, on_expr, 1);
                        ready.lemma_one_step_then(
                            env,
                            Statement::DoNothing,
                            env.insert(name, value),
                            0,
                        );
                        on_expr + 1
                    },
                }
            },
            Statement::If { condition, consequence, alternative } => {
                let on_condition = condition.lemma_eval_is_reached(env);
                Self::lemma_steps_in_condition(
                    condition,
                    *consequence,
                    *alternative,
                    env,
                    on_condition,
                );
                match condition.eval(env) {
                    Err(_) => on_condition,
                    Ok(value) => {
                        let ready = Statement::If {
                            condition: Expression::literal(value),
                            consequence,
                            alternative,
                        };
                        Expression::lemma_literal(value, env);
                        match value {
                            Value::Number(_) => {
                                self.lemma_step_n_add(env, on_condition, 1);
                                assert(ready.step_n(env, 1) == Err::<
                                    (Statement, Bindings),
                                    EvalError,
                                >(EvalError::InvalidCondition));
                                on_condition + 1
                            },
                            Value::Boolean(holds) => {
                                let branch = if holds {
                                    *consequence
                                } else {
                                    *alternative
                                };
                                let on_branch = branch.lemma_evaluate_is_reached(env, fuel);
                                self.lemma_step_n_add(env, on_condition, on_branch + 1);
                                ready.lemma_one_step_then(env, branch, env, on_branch);
                                on_condition + on_branch + 1
                            },
                        }
                    },
                }
            },
            Statement::Sequence { first, second } => {
                let on_first = first.lemma_evaluate_is_reached(env, fuel);
                Self::lemma_steps_in_first(*first, *second, env, on_first);
                match first.evaluate(env, fuel).unwrap() {
                    Err(_) => on_first,
                    Ok(between) => {
                        let ready = Statement::Sequence {
                            first: Box::new(Statement::DoNothing),
                            second,
                        };
                        let on_second = second.lemma_evaluate_is_reached(between, fuel);
                        self.lemma_step_n_add(env, on_first, on_second + 1);
                        ready.lemma_one_step_then(between, *second, between, on_second);
                        on_first + on_second + 1
                    },
                }
            },
            Statement::While { condition, body } => {
                let again = Statement::Sequence { first: body, second: Box::new(self) };
                let unfolded = Statement::If {
                    condition,
                    consequence: Box::new(again),
                    alternative: Box::new(Statement::DoNothing),
                };
                let on_condition = condition.lemma_eval_is_reached(env);
                Self::lemma_steps_in_condition(
                    condition,
                    again,
                    Statement::DoNothing,
                    env,
                    on_condition,
                );
                match condition.eval(env) {
                    Err(_) => {
                        self.lemma_one_step_then(env, unfolded, env, on_condition);
                        on_condition + 1
                    },
                    Ok(value) => {
                        let ready = Statement::If {
                            condition: Expression::literal(value),
                            consequence: Box::new(again),
                            alternative: Box::new(Statement::DoNothing),
                        };
                        Expression::lemma_literal(value, env);
                        match value {
                            Value::Number(_) => {
                                self.lemma_one_step_then(env, unfolded, env, on_condition + 1);
                                unfolded.lemma_step_n_add(env, on_condition, 1);
                                assert(ready.step_n(env, 1) == Err::<
                                    (Statement, Bindings),
                                    EvalError,
                                >(EvalError::InvalidCondition));
                                on_condition + 2
                            },
                            Value::Boolean(false) => {
                                self.lemma_one_step_then(env, unfolded, env, on_condition + 1);
                                unfolded.lemma_step_n_add(env, on_condition, 1);
                                ready.lemma_one_step_then(env, Statement::DoNothing, env, 0);
                                on_condition + 2
                            },
                            Value::Boolean(true) => {
                                let less = (fuel - 1) as nat;
                                let on_body = body.lemma_evaluate_is_reached(env, less);
                                Self::lemma_steps_in_first(*body, self, env, on_body);
                                match body.evaluate(env, less).unwrap() {
                                    Err(_) => {
                                        let n = on_condition + on_body + 2;
                                        self.lemma_one_step_then(env, unfolded, env, (n - 1) as nat);
                                        unfolded.lemma_step_n_add(env, on_condition, on_body + 1);
                                        ready.lemma_one_step_then(env, again, env, on_body);
                                        n
                                    },
                                    Ok(between) => {
                                        let rest = Statement::Sequence {
                                            first: Box::new(Statement::DoNothing),
                                            second: Box::new(self),
                                        };
                                        let on_loop = self.lemma_evaluate_is_reached(between, less);
                                        let n = on_condition + on_body + on_loop + 3;
                                        self.lemma_one_step_then(env, unfolded, env, (n - 1) as nat);
                                        unfolded.lemma_step_n_add(
                                            env,
                                            on_condition,
                                            on_body + on_loop + 2,
                                        );
                                        ready.lemma_one_step_then(
                                            env,
                                            again,
                                            env,
                                            on_body + on_loop + 1,
                                        );
                                        again.lemma_step_n_add(env, on_body, on_loop + 1);
                                        rest.lemma_one_step_then(between, self, between, on_loop);
                                        n
                                    },
                                }
                            },
                        }
                    },
                }
            },
        }
    }

    /// A step that ends with a fault shows the fault that the run ends with.
    pub proof fn lemma_fault_is_outcome(self, env: Bindings, fuel: nat)
        requires
            self.is_reducible(),
            self.step(env) is Err,
        ensures
            self.evaluate(env, fuel) == Some(
                Err::<Bindings, EvalError>(self.step(env)->Err_0),
            ),
            self.step(env)->Err_0 != EvalError::NotReducible,
        decreases self,
    {
        match self {
            Statement::DoNothing => {},
            Statement::Assign(_, expr) => {
                expr.lemma_step_keeps_value(env);
            },
            Statement::If { condition, consequence, alternative } => {
                if condition.is_reducible() {
                    condition.lemma_step_keeps_value(env);
                } else {
                    condition.lemma_irreducible(env);
                }
            },
            Statement::Sequence { first, second } => {
                first.lemma_fault_is_outcome(env, fuel);
            },
            Statement::While { condition, body } => {},
        }
    }

    /// A reduction step keeps what the run ends with; the run before the step
    /// may need one more unit of fuel than the run after it.
    pub proof fn lemma_step_keeps_outcome(self, env: Bindings, fuel: nat)
        requires
            self.step(env) is Ok,
            self.step(env)->Ok_0.0.evaluate(self.step(env)->Ok_0.1, fuel) is Some,
        ensures
            self.evaluate(env, fuel + 1) == self.step(env)->Ok_0.0.evaluate(
                self.step(env)->Ok_0.1,
                fuel,
            ),
        decreases self,
    {
        let (next, changed) = self.step(env)->Ok_0;
        next.lemma_fuel_monotonic(changed, fuel, fuel + 1);
        match self {
            Statement::DoNothing => {},
            Statement::Assign(_, expr) => {
                if expr.is_reducible() {
                    expr.lemma_step_keeps_value(env);
                } else {
                    expr.lemma_irreducible(env);
                }
            },
            Statement::If { condition, consequence, alternative } => {
                if condition.is_reducible() {
                    condition.lemma_step_keeps_value(env);
                } else {
                    condition.lemma_irreducible(env);
                }
            },
            Statement::Sequence { first, second } => {
                if *first is DoNothing {
                    assert(first.evaluate(env, fuel + 1) == Some(Ok::<Bindings, EvalError>(env)));
                } else {
                    let (reduced, _) = first.step(env)->Ok_0;
                    first.lemma_step_keeps_outcome(env, fuel);
                    if let Some(Ok(between)) = reduced.evaluate(changed, fuel) {
                        second.lemma_fuel_monotonic(between, fuel, fuel + 1);
                    }
                }
            },
            Statement::While { condition, body } => {
                let again = Statement::Sequence { first: body, second: Box::new(self) };
                assert(again.evaluate(env, fuel) == match body.evaluate(env, fuel) {
                    Some(Ok(between)) => self.evaluate(between, fuel),
                    stopped => stopped,
                });
            },
        }
    }

    /// What the machine stops with, the run ends with in one go: the
    /// environment that it reaches `DoNothing` with, or the fault of the step
    /// that failed. As many units of fuel as the machine took steps are
    /// enough.
    pub proof fn lemma_run_is_evaluated(self, env: Bindings, n: nat)
        requires
            match self.step_n(env, n) {
                Ok((last, _)) => last is DoNothing,
                Err(fault) => fault != EvalError::NotReducible,
            },
        ensures
            self.evaluate(env, n) == Some(
                match self.step_n(env, n) {
                    Ok((_, bindings)) => Ok::<Bindings, EvalError>(bindings),
                    Err(fault) => Err::<Bindings, EvalError>(fault),
                },
            ),
        decreases n,
    {
        if n > 0 {
            match self.step(env) {
                Ok((next, changed)) => {
                    next.lemma_run_is_evaluated(changed, (n - 1) as nat);
                    self.lemma_step_keeps_outcome(env, (n - 1) as nat);
                },
                Err(_) => {
                    self.lemma_fault_is_outcome(env, n);
                },
            }
        }
    }
}

/// **Agreement, for expressions.** Where evaluation gives a value, reduction
/// comes to the literal of that value, after one step for each variable and
/// each operator of the expression. Where evaluation ends with a fault,
/// reduction comes to the same fault. And what reduction has come to after
/// `n` steps, be it a literal or a fault, is what evaluation gives.
pub proof fn theorem_expression_agreement(expr: Expression, env: Bindings, n: nat)
    ensures
        match expr.eval(env) {
            Ok(value) => expr.step_n(env, expr.redexes()) == Ok::<Expression, EvalError>(
                Expression::literal(value),
            ),
            Err(fault) => fault != EvalError::NotReducible && exists|m: nat|
                expr.step_n(env, m) == Err::<Expression, EvalError>(fault),
        },
        match expr.step_n(env, n) {
            Ok(last) => !last.is_reducible() ==> expr.eval(env) == Ok::<Value, EvalError>(
                last.as_value().unwrap(),
            ),
            Err(fault) => fault != EvalError::NotReducible ==> expr.eval(env) == Err::<
                Value,
                EvalError,
            >(fault),
        },
{
    let m = expr.lemma_eval_is_reached(env);
    match expr.step_n(env, n) {
        Ok(last) => {
            if !last.is_reducible() {
                expr.lemma_reduction_is_evaluated(env, n);
            }
        },
        Err(fault) => {
            if fault != EvalError::NotReducible {
                expr.lemma_reduction_is_evaluated(env, n);
            }
        },
    }
}

/// **Agreement.** Running a statement in one go and driving the machine step
/// by step come to an end on the same statements and environments, and then
/// end with the same result: the environment that the machine reaches
/// `DoNothing` with is the one that the evaluation computes, and a fault that
/// stops the machine is the fault that the evaluation ends with.
///
/// [`crate::stmt::Stmt::evalute`] returns what `outcome` says, and
/// [`crate::machine::Machine::run`] ends with what `machine_outcome` says: so
/// the two return the same wherever either of them returns.
pub proof fn theorem_agreement(program: Statement, env: Bindings)
    ensures
        program.halts(env) <==> program.stops(env),
        program.halts(env) ==> program.outcome(env) == program.machine_outcome(env),
{
    if program.halts(env) {
        program.lemma_halts(env);
        let fuel = program.fuel_needed(env);
        let n = program.lemma_evaluate_is_reached(env, fuel);
        match program.outcome(env) {
            Ok(_) => {
                program.lemma_stops(env, n);
            },
            Err(_) => {
                let m = program.lemma_fault_stops(env, n);
                program.lemma_stops(env, m);
            },
        }
    }
    if program.stops(env) {
        program.lemma_stops_after_steps_taken(env);
        let n = program.steps_taken(env);
        let (last, bindings) = program.last_state(env);
        if last is DoNothing {
            program.lemma_run_is_evaluated(env, n);
            program.lemma_outcome(env, n);
        } else {
            last.lemma_fault_is_outcome(bindings, 0);
            program.lemma_step_n_add(env, n, 1);
            program.lemma_run_is_evaluated(env, n + 1);
            program.lemma_outcome(env, n + 1);
        }
    }
}

/// A run of the machine that has reached `DoNothing` after `n` steps settles
/// what evaluation in one go gives: it halts, with the environment that the
/// machine has reached.
pub proof fn lemma_completed_run_agrees(program: Statement, env: Bindings, n: nat, last: Bindings)
    requires
        program.step_n(env, n) == Ok::<(Statement, Bindings), EvalError>(
            (Statement::DoNothing, last),
        ),
    ensures
        program.halts(env),
        program.outcome(env) == Ok::<Bindings, EvalError>(last),
        program.stops(env),
        program.steps_taken(env) == n,
{
    program.lemma_run_is_evaluated(env, n);
    program.lemma_outcome(env, n);
    program.lemma_stops(env, n);
}

} // verus!
