//! Big-step semantics: what a term evaluates to, with no intermediate terms.

use crate::environment::Bindings;
use crate::syntax::{Expression, Statement};
use crate::value::{EvalError, Value};
use vstd::prelude::*;

verus! {

/// What `name` is bound to in `env`.
pub open spec fn lookup(env: Bindings, name: Seq<char>) -> Result<Value, EvalError> {
    if env.contains_key(name) {
        Ok(env[name])
    } else {
        Err(EvalError::UnboundVariable)
    }
}

impl Expression {
    /// The value of the expression in `env`.
    ///
    /// The left operand is evaluated before the right one, and both before the
    /// operator looks at either: the first fault met in that order is the
    /// result.
    pub open spec fn eval(self, env: Bindings) -> Result<Value, EvalError>
        decreases self,
    {
        match self {
            Expression::Number(n) => Ok(Value::Number(n)),
            Expression::Boolean(b) => Ok(Value::Boolean(b)),
            Expression::Variable(name) => lookup(env, name),
            Expression::Binary(op, left, right) => match left.eval(env) {
                Err(fault) => Err(fault),
                Ok(a) => match right.eval(env) {
                    Err(fault) => Err(fault),
                    Ok(b) => op.apply(a, b),
                },
            },
        }
    }
}

impl Statement {
    /// How the run of the statement in `env` ends on `fuel` units of fuel.
    ///
    /// Fuel is what bounds the loops: an iteration takes one unit, and its
    /// body, as well as the iterations after it, run on what is left. `None`
    /// means that the fuel ran out: a loop was to go on with none left.
    /// `Some` holds the final environment or the fault that ended the run,
    /// and then any greater amount of fuel gives the same.
    ///
    /// A conditional runs the branch that its condition selects, in the
    /// environment it was given. A sequence runs its second part in the
    /// environment that its first part leaves. A loop whose condition holds
    /// runs its body and then itself again, in the environment that the body
    /// leaves. A condition that is a number gives `InvalidCondition`.
    pub open spec fn evaluate(self, env: Bindings, fuel: nat) -> Option<Result<Bindings, EvalError>>
        decreases fuel, self,
    {
        match self {
            Statement::DoNothing => Some(Ok(env)),
            Statement::Assign(name, expr) => Some(
                match expr.eval(env) {
                    Ok(value) => Ok(env.insert(name, value)),
                    Err(fault) => Err(fault),
                },
            ),
            Statement::If { condition, consequence, alternative } => match condition.eval(env) {
                Ok(Value::Boolean(true)) => consequence.evaluate(env, fuel),
                Ok(Value::Boolean(false)) => alternative.evaluate(env, fuel),
                Ok(Value::Number(_)) => Some(Err(EvalError::InvalidCondition)),
                Err(fault) => Some(Err(fault)),
            },
            Statement::Sequence { first, second } => match first.evaluate(env, fuel) {
                Some(Ok(between)) => second.evaluate(between, fuel),
                stopped => stopped,
            },
            Statement::While { condition, body } => match condition.eval(env) {
                Ok(Value::Boolean(true)) => if fuel == 0 {
                    None
                } else {
                    match body.evaluate(env, (fuel - 1) as nat) {
                        Some(Ok(between)) => self.evaluate(between, (fuel - 1) as nat),
                        stopped => stopped,
                    }
                },
                Ok(Value::Boolean(false)) => Some(Ok(env)),
                Ok(Value::Number(_)) => Some(Err(EvalError::InvalidCondition)),
                Err(fault) => Some(Err(fault)),
            },
        }
    }

    /// Whether running the statement in `env` comes to an end, be it with an
    /// environment or with a fault.
    #[verifier::opaque]
    pub open spec fn halts(self, env: Bindings) -> bool {
        exists|fuel: nat| self.evaluate(env, fuel) is Some
    }

    /// The least fuel with which the run in `env` comes to an end.
    #[verifier::opaque]
    pub open spec fn fuel_needed(self, env: Bindings) -> nat {
        choose|fuel: nat|
            self.evaluate(env, fuel) is Some && forall|less: nat|
                less < fuel ==> self.evaluate(env, less) is None
    }

    /// How the run in `env` ends, where it does: see [`Statement::halts`].
    pub open spec fn outcome(self, env: Bindings) -> Result<Bindings, EvalError> {
        self.evaluate(env, self.fuel_needed(env)).unwrap()
    }
}

impl Statement {
    /// More fuel never changes how a run ends.
    pub proof fn lemma_fuel_monotonic(self, env: Bindings, fuel: nat, more: nat)
        requires
            self.evaluate(env, fuel) is Some,
            fuel <= more,
        ensures
            self.evaluate(env, more) == self.evaluate(env, fuel),
        decreases fuel, self,
    {
        match self {
            Statement::DoNothing => {},
            Statement::Assign(_, _) => {},
            Statement::If { condition, consequence, alternative } => {
                match condition.eval(env) {
                    Ok(Value::Boolean(true)) => consequence.lemma_fuel_monotonic(env, fuel, more),
                    Ok(Value::Boolean(false)) => alternative.lemma_fuel_monotonic(env, fuel, more),
                    _ => {},
                }
            },
            Statement::Sequence { first, second } => {
                first.lemma_fuel_monotonic(env, fuel, more);
                if let Some(Ok(between)) = first.evaluate(env, fuel) {
                    second.lemma_fuel_monotonic(between, fuel, more);
                }
            },
            Statement::While { condition, body } => {
                if condition.eval(env) == Ok::<Value, EvalError>(Value::Boolean(true)) {
                    let less = (fuel - 1) as nat;
                    let most = (more - 1) as nat;
                    body.lemma_fuel_monotonic(env, less, most);
                    if let Some(Ok(between)) = body.evaluate(env, less) {
                        self.lemma_fuel_monotonic(between, less, most);
                    }
                }
            },
        }
    }

    /// Among the amounts of fuel with which the run ends there is a least.
    proof fn lemma_least_fuel(self, env: Bindings, fuel: nat) -> (least: nat)
        requires
            self.evaluate(env, fuel) is Some,
        ensures
            least <= fuel,
            self.evaluate(env, least) is Some,
            forall|less: nat| less < least ==> self.evaluate(env, less) is None,
        decreases fuel,
    {
        if fuel > 0 && self.evaluate(env, (fuel - 1) as nat) is Some {
            self.lemma_least_fuel(env, (fuel - 1) as nat)
        } else {
            assert forall|less: nat| less < fuel implies self.evaluate(env, less) is None by {
                if self.evaluate(env, less) is Some {
                    self.lemma_fuel_monotonic(env, less, (fuel - 1) as nat);
                }
            }
            fuel
        }
    }

    /// A run that ends with some fuel halts, needs no more fuel than that, and
    /// has the outcome seen with it.
    pub proof fn lemma_outcome(self, env: Bindings, fuel: nat)
        requires
            self.evaluate(env, fuel) is Some,
        ensures
            self.halts(env),
            self.fuel_needed(env) <= fuel,
            self.evaluate(env, self.fuel_needed(env)) == self.evaluate(env, fuel),
            self.outcome(env) == self.evaluate(env, fuel).unwrap(),
    {
        reveal(Statement::halts);
        reveal(Statement::fuel_needed);
        let least = self.lemma_least_fuel(env, fuel);
        let needed = self.fuel_needed(env);
        assert(self.evaluate(env, needed) is Some);
        if fuel < needed {
            assert(self.evaluate(env, fuel) is None);
        }
        self.lemma_fuel_monotonic(env, needed, fuel);
    }

    /// A run that halts ends with the fuel it needs.
    pub proof fn lemma_halts(self, env: Bindings)
        requires
            self.halts(env),
        ensures
            self.evaluate(env, self.fuel_needed(env)) == Some(self.outcome(env)),
    {
        reveal(Statement::halts);
        let fuel = choose|fuel: nat| self.evaluate(env, fuel) is Some;
        self.lemma_outcome(env, fuel);
    }

    /// A conditional runs as the branch that its condition selects.
    pub proof fn lemma_if_runs_branch(self, env: Bindings)
        requires
            self is If,
            self.halts(env),
            self->If_condition.eval(env) matches Ok(Value::Boolean(_)),
        ensures
            ({
                let branch = if self->If_condition.eval(env) == Ok::<Value, EvalError>(
                    Value::Boolean(true),
                ) {
                    *self->consequence
                } else {
                    *self->alternative
                };
                &&& branch.halts(env)
                &&& branch.fuel_needed(env) <= self.fuel_needed(env)
                &&& branch.outcome(env) == self.outcome(env)
            }),
    {
        self.lemma_halts(env);
        let fuel = self.fuel_needed(env);
        let branch = if self->If_condition.eval(env) == Ok::<Value, EvalError>(
            Value::Boolean(true),
        ) {
            *self->consequence
        } else {
            *self->alternative
        };
        assert(branch.evaluate(env, fuel) == self.evaluate(env, fuel));
        branch.lemma_outcome(env, fuel);
    }

    /// The first part of a sequence that halts halts too.
    pub proof fn lemma_sequence_runs_first(self, env: Bindings)
        requires
            self is Sequence,
            self.halts(env),
        ensures
            self->first.halts(env),
            self->first.fuel_needed(env) <= self.fuel_needed(env),
            self->first.outcome(env) matches Err(fault) ==> self.outcome(env) == Err::<
                Bindings,
                EvalError,
            >(fault),
    {
        self.lemma_halts(env);
        self->first.lemma_outcome(env, self.fuel_needed(env));
    }

    /// Once its first part has run without fault, a sequence goes on as its
    /// second part, from the environment that the first part left.
    pub proof fn lemma_sequence_runs_second(self, env: Bindings, between: Bindings)
        requires
            self is Sequence,
            self.halts(env),
            self->first.outcome(env) == Ok::<Bindings, EvalError>(between),
        ensures
            self->second.halts(between),
            self->second.fuel_needed(between) <= self.fuel_needed(env),
            self->second.outcome(between) == self.outcome(env),
    {
        self.lemma_halts(env);
        self->first.lemma_outcome(env, self.fuel_needed(env));
        self->second.lemma_outcome(between, self.fuel_needed(env));
    }

    /// The body of a loop that halts, and whose condition holds, halts too,
    /// and needs less fuel than the loop.
    pub proof fn lemma_while_runs_body(self, env: Bindings)
        requires
            self is While,
            self.halts(env),
            self->While_condition.eval(env) == Ok::<Value, EvalError>(Value::Boolean(true)),
        ensures
            self->body.halts(env),
            self->body.fuel_needed(env) < self.fuel_needed(env),
            self->body.outcome(env) matches Err(fault) ==> self.outcome(env) == Err::<
                Bindings,
                EvalError,
            >(fault),
    {
        self.lemma_halts(env);
        self->body.lemma_outcome(env, (self.fuel_needed(env) - 1) as nat);
    }

    /// Once its body has run without fault, a loop goes on as the same loop,
    /// from the environment that the body left, and needs less fuel from
    /// there.
    pub proof fn lemma_while_runs_again(self, env: Bindings, between: Bindings)
        requires
            self is While,
            self.halts(env),
            self->While_condition.eval(env) == Ok::<Value, EvalError>(Value::Boolean(true)),
            self->body.outcome(env) == Ok::<Bindings, EvalError>(between),
        ensures
            self.halts(between),
            self.fuel_needed(between) < self.fuel_needed(env),
            self.outcome(between) == self.outcome(env),
    {
        self.lemma_halts(env);
        self->body.lemma_outcome(env, (self.fuel_needed(env) - 1) as nat);
        self.lemma_outcome(between, (self.fuel_needed(env) - 1) as nat);
    }
}

} // verus!
