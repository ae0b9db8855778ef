//! The variable environment: a finite mapping from names to values.

use crate::value::Value;
use vstd::prelude::*;
use vstd::std_specs::cmp::PartialEqSpecImpl;

verus! {

/// What an environment holds, as a mathematical map from names to values.
pub type Bindings = Map<Seq<char>, Value>;

/// A finite mapping from variable names to values.
///
/// An environment is a plain value: updating it never disturbs a copy made
/// earlier, so snapshots that a caller keeps stay as they were.
#[derive(Debug)]
pub struct Environment {
    entries: Vec<(String, Value)>,
}

impl View for Environment {
    type V = Bindings;

    closed spec fn view(&self) -> Bindings {
        Map::new(
            |name: Seq<char>| Self::position(self.entries@, name) is Some,
            |name: Seq<char>| self.entries@[Self::position(self.entries@, name).unwrap()].1,
        )
    }
}

impl Environment {
    /// No name occurs twice among the entries.
    #[verifier::type_invariant]
    spec fn distinct_names(self) -> bool {
        Self::distinct(self.entries@)
    }

    /// Whether no name occurs twice among `entries`.
    spec fn distinct(entries: Seq<(String, Value)>) -> bool {
        forall|i: int, j: int|
            0 <= i < j < entries.len() ==> (#[trigger] entries[i]).0@ != (#[trigger] entries[j]).0@
    }

    /// The index of an entry for `name`, if there is one.
    spec fn position(entries: Seq<(String, Value)>, name: Seq<char>) -> Option<int> {
        if exists|i: int| 0 <= i < entries.len() && (#[trigger] entries[i]).0@ == name {
            Some(choose|i: int| 0 <= i < entries.len() && (#[trigger] entries[i]).0@ == name)
        } else {
            None
        }
    }

    /// The environment that binds nothing.
    pub fn new() -> (env: Self)
        ensures
            env@ == Map::<Seq<char>, Value>::empty(),
    {
        let env = Environment { entries: Vec::new() };
        assert(env@ =~= Map::<Seq<char>, Value>::empty());
        env
    }

    /// The index of the entry for `name`, if there is one.
    fn find(&self, name: &String) -> (found: Option<usize>)
        ensures
            match found {
                Some(i) => i < self.entries.len() && self.entries[i as int].0@ == name@,
                None => forall|i: int| 0 <= i < self.entries.len() ==> self.entries[i].0@ != name@,
            },
    {
        let mut i: usize = 0;
        while i < self.entries.len()
            invariant
                i <= self.entries.len(),
                forall|j: int| 0 <= j < i ==> self.entries[j].0@ != name@,
            decreases self.entries.len() - i,
        {
            if self.entries[i].0 == *name {
                return Some(i);
            }
            i += 1;
        }
        None
    }

    /// The value that `name` is bound to, if it is bound.
    pub fn get(&self, name: &String) -> (value: Option<Value>)
        ensures
            value == if self@.contains_key(name@) {
                Some(self@[name@])
            } else {
                None
            },
    {
        proof {
            use_type_invariant(self);
        }
        match self.find(name) {
            Some(i) => {
                let value = self.entries[i].1;
                assert(Self::position(self.entries@, name@) == Some(i as int));
                Some(value)
            },
            None => None,
        }
    }

    /// A copy of the entries.
    fn copy_entries(&self) -> (entries: Vec<(String, Value)>)
        ensures
            entries@ == self.entries@,
    {
        let mut entries: Vec<(String, Value)> = Vec::new();
        let mut i: usize = 0;
        while i < self.entries.len()
            invariant
                i <= self.entries.len(),
                entries@ == self.entries@.subrange(0, i as int),
            decreases self.entries.len() - i,
        {
            entries.push((self.entries[i].0.clone(), self.entries[i].1));
            assert(entries@ =~= self.entries@.subrange(0, i + 1));
            i += 1;
        }
        assert(entries@ =~= self.entries@);
        entries
    }

    /// The bindings, one pair for each name that is bound, in no order that
    /// a caller may count on.
    pub fn bindings(&self) -> (pairs: Vec<(String, Value)>)
        ensures
            forall|i: int|
                0 <= i < pairs.len() ==> self@.contains_pair((#[trigger] pairs[i]).0@, pairs[i].1),
            forall|name: Seq<char>| #[trigger]
                self@.contains_key(name) ==> exists|i: int|
                    0 <= i < pairs.len() && (#[trigger] pairs[i]).0@ == name,
            forall|i: int, j: int|
                0 <= i < j < pairs.len() ==> (#[trigger] pairs[i]).0@ != (#[trigger] pairs[j]).0@,
    {
        proof {
            use_type_invariant(self);
        }
        let pairs = self.copy_entries();
        proof {
            assert forall|k: int| 0 <= k < pairs.len() implies self@.contains_pair(
                (#[trigger] pairs[k]).0@,
                pairs[k].1,
            ) by {
                assert(Self::position(self.entries@, pairs[k].0@) == Some(k));
            }
            assert forall|name: Seq<char>| #[trigger] self@.contains_key(name) implies exists|i: int|
                0 <= i < pairs.len() && (#[trigger] pairs[i]).0@ == name by {
                let k = Self::position(self.entries@, name).unwrap();
                assert(pairs[k].0@ == name);
            }
        }
        pairs
    }

    /// Binds `name` to `value`, replacing what `name` was bound to before.
    pub fn insert(&mut self, name: String, value: Value)
        ensures
            final(self)@ == old(self)@.insert(name@, value),
    {
        proof {
            use_type_invariant(&*self);
        }
        let found = self.find(&name);
        let ghost before = self.entries@;
        let ghost key = name@;
        let mut entries: Vec<(String, Value)> = Vec::new();
        core::mem::swap(&mut self.entries, &mut entries);
        match found {
            Some(i) => {
                entries.set(i, (name, value));
            },
            None => {
                entries.push((name, value));
            },
        }
        let ghost after = entries@;
        assert(Self::distinct(after));
        core::mem::swap(&mut self.entries, &mut entries);
        proof {
            assert forall|n: Seq<char>| #[trigger]
                self@.contains_key(n) == old(self)@.insert(key, value).contains_key(n) by {
                if Self::position(before, n) is Some {
                    let i = Self::position(before, n).unwrap();
                    assert(after[i].0@ == n);
                }
                if Self::position(after, n) is Some {
                    let i = Self::position(after, n).unwrap();
                    if n != key {
                        assert(before[i].0@ == n);
                    }
                }
                if n == key {
                    match found {
                        Some(i) => {
                            assert(after[i as int].0@ == n);
                        },
                        None => {
                            assert(after[after.len() - 1].0@ == n);
                        },
                    }
                }
            }
            assert forall|n: Seq<char>| #[trigger] self@.contains_key(n) implies self@[n] == old(
                self,
            )@.insert(key, value)[n] by {
                let i = Self::position(after, n).unwrap();
                if n != key {
                    assert(before[i].0@ == n);
                    let j = Self::position(before, n).unwrap();
                    assert(i == j);
                }
            }
            assert(self@ =~= old(self)@.insert(key, value));
        }
    }
}

impl Environment {
    /// Whether every binding of `self` is also a binding of `other`.
    fn agrees_with(&self, other: &Environment) -> (b: bool)
        ensures
            b == self@.submap_of(other@),
    {
        proof {
            use_type_invariant(self);
        }
        let mut i: usize = 0;
        while i < self.entries.len()
            invariant
                i <= self.entries.len(),
                Self::distinct(self.entries@),
                forall|j: int|
                    0 <= j < i ==> other@.contains_pair(
                        (#[trigger] self.entries[j]).0@,
                        self.entries[j].1,
                    ),
            decreases self.entries.len() - i,
        {
            let found = other.get(&self.entries[i].0);
            let same = match found {
                Some(value) => value == self.entries[i].1,
                None => false,
            };
            if !same {
                proof {
                    let name = self.entries[i as int].0@;
                    assert(Self::position(self.entries@, name) == Some(i as int));
                    assert(self@.contains_key(name) && self@[name] == self.entries[i as int].1);
                }
                return false;
            }
            i += 1;
        }
        proof {
            assert forall|name: Seq<char>| #[trigger]
                self@.dom().contains(name) implies other@.dom().contains(name) && self@[name]
                == other@[name] by {
                let j = Self::position(self.entries@, name).unwrap();
                assert(self.entries[j].0@ == name);
            }
        }
        true
    }
}

impl Clone for Environment {
    /// A copy that binds exactly what `self` binds.
    fn clone(&self) -> (copy: Self)
        ensures
            copy@ == self@,
    {
        proof {
            use_type_invariant(self);
        }
        Environment { entries: self.copy_entries() }
    }
}

impl PartialEq for Environment {
    /// Two environments are equal when they bind the same names to the same
    /// values, in whatever order the bindings were made.
    fn eq(&self, other: &Self) -> (b: bool) {
        let b = self.agrees_with(other) && other.agrees_with(self);
        proof {
            if b {
                assert(self@ =~= other@);
            }
        }
        b
    }
}

impl PartialEqSpecImpl for Environment {
    open spec fn obeys_eq_spec() -> bool {
        true
    }

    open spec fn eq_spec(&self, other: &Self) -> bool {
        self@ == other@
    }
}

impl Eq for Environment {

}

} // verus!
