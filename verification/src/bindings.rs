//! Finite maps keyed by name.
//!
//! Every table of the language (a scope of the symbol table, the function
//! table, the interpreter's variables) maps names to values. `NameMap` keeps
//! such a table as a list of entries with pairwise distinct names and is viewed
//! as a `Map` from the name's characters to the value.

use vstd::prelude::*;

verus! {

/// A finite map from names to values of type `T`.
#[derive(Debug)]
pub struct NameMap<T> {
    entries: Vec<(String, T)>,
}

impl<T> View for NameMap<T> {
    type V = Map<Seq<char>, T>;

    closed spec fn view(&self) -> Map<Seq<char>, T> {
        Map::new(
            |k: Seq<char>| self.position_of(k) is Some,
            |k: Seq<char>| self.entries[self.position_of(k)->0].1,
        )
    }
}

impl<T> NameMap<T> {
    /// Well-formedness: no two entries carry the same name.
    pub closed spec fn wf(self) -> bool {
        forall|i: int, j: int|
            0 <= i < j < self.entries.len() ==> self.entries[i].0@ != self.entries[j].0@
    }

    /// The index of the entry named `k`, if there is one.
    closed spec fn position_of(self, k: Seq<char>) -> Option<int> {
        if exists|i: int| 0 <= i < self.entries.len() && self.entries[i].0@ == k {
            Some(choose|i: int| 0 <= i < self.entries.len() && self.entries[i].0@ == k)
        } else {
            None
        }
    }

    proof fn lemma_position(self, i: int)
        requires
            self.wf(),
            0 <= i < self.entries.len(),
        ensures
            self.position_of(self.entries[i].0@) == Some(i),
    {
        let k = self.entries[i].0@;
        let j = choose|j: int| 0 <= j < self.entries.len() && self.entries[j].0@ == k;
        assert(j == i);
    }

    /// The empty map.
    pub fn new() -> (m: Self)
        ensures
            m.wf(),
            m@ == Map::<Seq<char>, T>::empty(),
    {
        let m = NameMap { entries: Vec::new() };
        assert(m@ =~= Map::<Seq<char>, T>::empty());
        m
    }

    fn find(&self, name: &String) -> (r: Option<usize>)
        ensures
            match r {
                Some(i) => i < self.entries.len() && self.entries[i as int].0@ == name@,
                None => forall|i: int| 0 <= i < self.entries.len() ==> self.entries[i].0@ != name@,
            },
    {
        let mut i: usize = 0;
        while i < self.entries.len()
            invariant
                i <= self.entries.len(),
                forall|j: int| 0 <= j < i ==> self.entries[j].0@ != name@,
            decreases self.entries.len() - i,
        {
            if self.entries[i].0 == *name {
                return Some(i);
            }
            i += 1;
        }
        None
    }

    /// Whether `name` is bound.
    pub fn contains(&self, name: &String) -> (b: bool)
        ensures
            b == self@.contains_key(name@),
    {
        self.find(name).is_some()
    }

    /// The value bound to `name`, if any.
    pub fn get(&self, name: &String) -> (r: Option<&T>)
        requires
            self.wf(),
        ensures
            match r {
                Some(v) => self@.contains_key(name@) && *v == self@[name@],
                None => !self@.contains_key(name@),
            },
    {
        match self.find(name) {
            Some(i) => {
                proof {
                    self.lemma_position(i as int);
                }
                Some(&self.entries[i].1)
            },
            None => None,
        }
    }

    /// Binds `name` to `value`, replacing any earlier binding of `name`.
    pub fn insert(&mut self, name: String, value: T)
        requires
            old(self).wf(),
        ensures
            final(self).wf(),
            final(self)@ == old(self)@.insert(name@, value),
    {
        match self.find(&name) {
            Some(i) => {
                let ghost before = *self;
                self.entries[i] = (name, value);
                proof {
                    assert forall|k: Seq<char>| #[trigger]
                        self.position_of(k) == before.position_of(k) by {
                        if before.position_of(k) is Some {
                            let j = before.position_of(k)->0;
                            assert(self.entries[j].0@ == k);
                            self.lemma_position(j);
                        }
                    }
                    before.lemma_position(i as int);
                    assert(self@ =~= before@.insert(name@, value));
                }
            },
            None => {
                let ghost before = *self;
                let ghost n = before.entries.len() as int;
                self.entries.push((name, value));
                proof {
                    assert forall|k: Seq<char>| k != name@ implies #[trigger] self.position_of(k)
                        == before.position_of(k) by {
                        if before.position_of(k) is Some {
                            let j = before.position_of(k)->0;
                            assert(self.entries[j].0@ == k);
                            self.lemma_position(j);
                        } else if self.position_of(k) is Some {
                            let j = self.position_of(k)->0;
                            assert(j < n);
                            assert(before.entries[j].0@ == k);
                        }
                    }
                    self.lemma_position(n);
                    assert(self@ =~= before@.insert(name@, value));
                }
            },
        }
    }

    /// Removes the binding of `name`, if any, and returns the value it had.
    pub fn remove(&mut self, name: &String) -> (r: Option<T>)
        requires
            old(self).wf(),
        ensures
            final(self).wf(),
            final(self)@ == old(self)@.remove(name@),
            match r {
                Some(v) => old(self)@.contains_key(name@) && v == old(self)@[name@],
                None => !old(self)@.contains_key(name@),
            },
    {
        match self.find(name) {
            Some(i) => {
                let ghost before = *self;
                let entry = self.entries.remove(i);
                proof {
                    before.lemma_position(i as int);
                    assert forall|k: Seq<char>| k != name@ implies (#[trigger] self.position_of(k) is Some
                        <==> before.position_of(k) is Some) && (before.position_of(k) is Some
                        ==> self.entries[self.position_of(k)->0].1 == before.entries[before.position_of(
                        k,
                    )->0].1) by {
                        if before.position_of(k) is Some {
                            let j = before.position_of(k)->0;
                            let j2 = if j < i { j } else { j - 1 };
                            assert(self.entries[j2].0@ == k);
                            self.lemma_position(j2);
                        } else if self.position_of(k) is Some {
                            let j = self.position_of(k)->0;
                            let j0 = if j < i { j } else { j + 1 };
                            assert(before.entries[j0].0@ == k);
                        }
                    }
                    if self.position_of(name@) is Some {
                        let j = self.position_of(name@)->0;
                        let j0 = if j < i { j } else { j + 1 };
                        assert(before.entries[j0].0@ == name@);
                    }
                    assert(self@ =~= before@.remove(name@));
                }
                Some(entry.1)
            },
            None => {
                assert(self@ =~= self@.remove(name@));
                None
            },
        }
    }
}

impl<T: Clone> Clone for NameMap<T> {
    /// A map with the same names, each bound to a clone of its value.
    fn clone(&self) -> (r: Self)
        ensures
            self.wf() ==> r.wf(),
            self.wf() ==> r@.dom() == self@.dom(),
            self.wf() ==> forall|k: Seq<char>| #[trigger]
                self@.contains_key(k) ==> cloned::<T>(self@[k], r@[k]),
    {
        let mut entries: Vec<(String, T)> = Vec::new();
        let mut i: usize = 0;
        while i < self.entries.len()
            invariant
                i <= self.entries.len(),
                entries.len() == i,
                forall|j: int| 0 <= j < i ==> entries[j].0@ == self.entries[j].0@,
                forall|j: int| 0 <= j < i ==> cloned::<T>(self.entries[j].1, #[trigger] entries[j].1),
            decreases self.entries.len() - i,
        {
            let name = self.entries[i].0.clone();
            let value = self.entries[i].1.clone();
            entries.push((name, value));
            i += 1;
        }
        let r = NameMap { entries };
        proof {
            assert forall|k: Seq<char>| self.wf() implies #[trigger] r.position_of(k)
                == self.position_of(k) by {
                if self.position_of(k) is Some {
                    let j = self.position_of(k)->0;
                    assert(r.entries[j].0@ == k);
                    r.lemma_position(j);
                } else if r.position_of(k) is Some {
                    let j = r.position_of(k)->0;
                    assert(self.entries[j].0@ == k);
                }
            }
            if self.wf() {
                assert(r@.dom() =~= self@.dom());
            }
        }
        r
    }
}

} // verus!
