//! Named things in the order in which they were registered, no name twice.

use crate::record::{has_key, is_first_position, lemma_position_unique};
use vstd::prelude::*;

verus! {

/// What was registered, each under its name. A name is taken once.
pub struct Registry<C> {
    entries: Vec<(String, C)>,
}

impl<C> Registry<C> {
    /// Name and thing, in the order in which they were registered.
    pub closed spec fn registered(&self) -> Seq<(Seq<char>, C)> {
        self.entries@.map_values(|e: (String, C)| (e.0@, e.1))
    }

    /// An empty registry.
    pub fn new() -> (registry: Self)
        ensures
            registry.registered() == Seq::<(Seq<char>, C)>::empty(),
    {
        let registry = Registry { entries: Vec::new() };
        assert(registry.registered() =~= Seq::empty());
        registry
    }

    /// The number of things.
    pub fn len(&self) -> (n: usize)
        ensures
            n == self.registered().len(),
    {
        self.entries.len()
    }

    /// The position of the thing called `name`.
    pub fn position(&self, name: &String) -> (found: Option<usize>)
        ensures
            match found {
                Some(i) => is_first_position(self.registered(), name@, i as int),
                None => !has_key(self.registered(), name@),
            },
    {
        let mut i: usize = 0;
        while i < self.entries.len()
            invariant
                i <= self.entries@.len(),
                forall|j: int| 0 <= j < i ==> (#[trigger] self.registered()[j]).0 != name@,
            decreases self.entries@.len() - i,
        {
            if self.entries[i].0 == *name {
                assert(self.registered()[i as int].0 == name@);
                return Some(i);
            }
            i += 1;
        }
        None
    }

    /// The thing at position `at`, with its name.
    pub fn get(&self, at: usize) -> (found: Option<(&String, &C)>)
        ensures
            match found {
                Some(entry) => at < self.registered().len() && (entry.0@, *entry.1)
                    == self.registered()[at as int],
                None => at >= self.registered().len(),
            },
    {
        if at < self.entries.len() {
            Some((&self.entries[at].0, &self.entries[at].1))
        } else {
            None
        }
    }

    /// Registers `thing` under `name` and says at which position it
    /// stands. A name that is taken is refused: the thing comes back, and
    /// nothing changes.
    pub fn add(&mut self, name: String, thing: C) -> (result: Result<usize, C>)
        ensures
            if has_key(old(self).registered(), name@) {
                &&& result == Err::<usize, C>(thing)
                &&& final(self).registered() == old(self).registered()
            } else {
                &&& result == Ok::<usize, C>(old(self).registered().len() as usize)
                &&& final(self).registered() == old(self).registered().push((name@, thing))
            },
    {
        match self.position(&name) {
            Some(at) => {
                proof {
                    lemma_position_unique(self.registered(), name@, at as int);
                }
                Err(thing)
            },
            None => {
                let at = self.entries.len();
                let ghost before = self.registered();
                self.entries.push((name, thing));
                assert(self.registered() =~= before.push((name@, thing)));
                Ok(at)
            },
        }
    }
}

} // verus!
