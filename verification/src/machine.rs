//! The small-step driver: a statement and an environment, rewritten one
//! reduction step at a time.

use crate::environment::{Bindings, Environment};
use crate::stmt::Stmt;
use crate::syntax::Statement;
use crate::value::EvalError;
use vstd::prelude::*;

verus! {

/// The state of a run: the statement that is still to be reduced, and the
/// environment as the steps taken so far have left it.
#[derive(Debug)]
pub struct Machine {
    pub stmt: Stmt,
    pub env: Environment,
}

impl View for Machine {
    type V = (Statement, Bindings);

    open spec fn view(&self) -> (Statement, Bindings) {
        (self.stmt@, self.env@)
    }
}

impl Machine {
    /// A machine that is about to run `stmt` from `env`.
    pub fn new(stmt: Stmt, env: Environment) -> (machine: Self)
        ensures
            machine.stmt == stmt,
            machine.env == env,
    {
        Self { stmt, env }
    }

    /// Takes one reduction step, replacing both the statement and the
    /// environment.
    ///
    /// Where no step can be taken the machine stays as it is, and the fault
    /// is returned: `NotReducible` once the statement is `DoNothing`.
    pub fn step(&mut self) -> (result: Result<(), EvalError>)
        ensures
            old(self).stmt@.step(old(self).env@) == match result {
                Ok(()) => Ok::<(Statement, Bindings), EvalError>(final(self)@),
                Err(fault) => Err::<(Statement, Bindings), EvalError>(fault),
            },
            result is Err ==> *final(self) == *old(self),
    {
        match self.stmt.reduce(&self.env) {
            Ok((new_stmt, new_env)) => {
                self.stmt = new_stmt;
                self.env = new_env;
                Ok(())
            },
            Err(fault) => Err(fault),
        }
    }

    /// Steps until the statement is `DoNothing`, and gives the states that the
    /// run went through: the one before each step, in order, and the final
    /// one last.
    ///
    /// A step that ends with a fault ends the run: the fault is returned in
    /// place of the states, and the machine is left where the step was
    /// attempted. There is no bound on the number of steps: on a statement
    /// that never stops, this function does not return. A caller that must
    /// stay in control calls [`Machine::step`] in a loop of its own, and
    /// counts.
    pub fn run(&mut self) -> (result: Result<Vec<(Stmt, Environment)>, EvalError>)
        requires
            old(self).stmt@.stops(old(self).env@),
        ensures
            final(self)@ == old(self).stmt@.last_state(old(self).env@),
            match result {
                Ok(states) => {
                    &&& final(self).stmt@ is DoNothing
                    &&& old(self).stmt@.machine_outcome(old(self).env@) == Ok::<Bindings, EvalError>(
                        final(self).env@,
                    )
                    &&& states.len() == old(self).stmt@.steps_taken(old(self).env@) + 1
                    &&& forall|i: int|
                        0 <= i < states.len() ==> old(self).stmt@.step_n(old(self).env@, i as nat) == Ok::<
                            (Statement, Bindings),
                            EvalError,
                        >(((#[trigger] states[i]).0@, states[i].1@))
                },
                Err(fault) => {
                    &&& final(self).stmt@.is_reducible()
                    &&& final(self).stmt@.step(final(self).env@) == Err::<(Statement, Bindings), EvalError>(
                        fault,
                    )
                    &&& old(self).stmt@.machine_outcome(old(self).env@) == Err::<Bindings, EvalError>(
                        fault,
                    )
                },
            },
    {
        let ghost start = self.stmt@;
        let ghost start_env = self.env@;
        let mut states: Vec<(Stmt, Environment)> = Vec::new();
        while self.stmt.is_reducible()
            invariant
                start == old(self).stmt@,
                start_env == old(self).env@,
                start.stops(start_env),
                self.stmt@.stops(self.env@),
                self.stmt@.steps_taken(self.env@) + states.len() == start.steps_taken(start_env),
                self.stmt@.last_state(self.env@) == start.last_state(start_env),
                start.step_n(start_env, states.len() as nat) == Ok::<(Statement, Bindings), EvalError>(
                    self@,
                ),
                forall|i: int|
                    0 <= i < states.len() ==> start.step_n(start_env, i as nat) == Ok::<
                        (Statement, Bindings),
                        EvalError,
                    >(((#[trigger] states[i]).0@, states[i].1@)),
            decreases self.stmt@.steps_taken(self.env@),
        {
            let ghost before = self@;
            let ghost taken = states.len() as nat;
            states.push((self.stmt.clone(), self.env.clone()));
            match self.step() {
                Ok(()) => {
                    proof {
                        before.0.lemma_stops_one_step_on(before.1);
                        start.lemma_step_n_add(start_env, taken, 1);
                        assert(before.0.step_n(before.1, 1) == before.0.step(before.1)) by {
                            reveal_with_fuel(Statement::step_n, 2);
                        }
                    }
                },
                Err(fault) => {
                    proof {
                        before.0.lemma_stops_at_once(before.1);
                    }
                    return Err(fault);
                },
            }
        }
        proof {
            self.stmt@.lemma_stops_at_once(self.env@);
        }
        states.push((self.stmt.clone(), self.env.clone()));
        Ok(states)
    }

    /// Steps until the statement is `DoNothing` or `limit` steps have been
    /// taken, whichever comes first, and gives the states that the run went
    /// through: the one before each step, in order, and the one reached last.
    ///
    /// This is [`Machine::run`] for a caller that does not know whether the
    /// statement ever stops. Whether it did is seen from the statement that
    /// the machine is left with. A step that ends with a fault ends the run
    /// as it does there.
    pub fn run_within(&mut self, limit: usize) -> (result: Result<
        Vec<(Stmt, Environment)>,
        EvalError,
    >)
        ensures
            match result {
                Ok(states) => {
                    &&& 1 <= states.len() <= limit + 1
                    &&& final(self).stmt@.is_reducible() ==> states.len() == limit + 1
                    &&& !final(self).stmt@.is_reducible() ==> {
                        &&& old(self).stmt@.stops(old(self).env@)
                        &&& old(self).stmt@.steps_taken(old(self).env@) == states.len() - 1
                        &&& old(self).stmt@.machine_outcome(old(self).env@) == Ok::<Bindings, EvalError>(
                            final(self).env@,
                        )
                    }
                    &&& old(self).stmt@.step_n(old(self).env@, (states.len() - 1) as nat) == Ok::<
                        (Statement, Bindings),
                        EvalError,
                    >(final(self)@)
                    &&& forall|i: int|
                        0 <= i < states.len() ==> old(self).stmt@.step_n(old(self).env@, i as nat) == Ok::<
                            (Statement, Bindings),
                            EvalError,
                        >(((#[trigger] states[i]).0@, states[i].1@))
                },
                Err(fault) => {
                    &&& old(self).stmt@.stops(old(self).env@)
                    &&& old(self).stmt@.steps_taken(old(self).env@) < limit
                    &&& final(self)@ == old(self).stmt@.last_state(old(self).env@)
                    &&& final(self).stmt@.is_reducible()
                    &&& final(self).stmt@.step(final(self).env@) == Err::<(Statement, Bindings), EvalError>(
                        fault,
                    )
                    &&& old(self).stmt@.machine_outcome(old(self).env@) == Err::<Bindings, EvalError>(
                        fault,
                    )
                },
            },
    {
        let ghost start = self.stmt@;
        let ghost start_env = self.env@;
        let mut states: Vec<(Stmt, Environment)> = Vec::new();
        let mut taken: usize = 0;
        while taken < limit && self.stmt.is_reducible()
            invariant
                start == old(self).stmt@,
                start_env == old(self).env@,
                taken <= limit,
                states.len() == taken,
                start.step_n(start_env, taken as nat) == Ok::<(Statement, Bindings), EvalError>(
                    self@,
                ),
                forall|i: int|
                    0 <= i < states.len() ==> start.step_n(start_env, i as nat) == Ok::<
                        (Statement, Bindings),
                        EvalError,
                    >(((#[trigger] states[i]).0@, states[i].1@)),
            decreases limit - taken,
        {
            let ghost before = self@;
            states.push((self.stmt.clone(), self.env.clone()));
            match self.step() {
                Ok(()) => {
                    proof {
                        start.lemma_step_n_add(start_env, taken as nat, 1);
                        assert(before.0.step_n(before.1, 1) == before.0.step(before.1)) by {
                            reveal_with_fuel(Statement::step_n, 2);
                        }
                    }
                },
                Err(fault) => {
                    proof {
                        start.lemma_stops(start_env, taken as nat);
                    }
                    return Err(fault);
                },
            }
            taken += 1;
        }
        proof {
            if !self.stmt@.is_reducible() {
                start.lemma_stops(start_env, taken as nat);
            }
        }
        states.push((self.stmt.clone(), self.env.clone()));
        Ok(states)
    }
}

} // verus!
