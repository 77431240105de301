//! Values by name.
use crate::text;
use vstd::prelude::*;

verus! {

/// A finite map from names to values.
pub struct Table<V> {
    entries: Vec<(String, V)>,
}

impl<V> View for Table<V> {
    type V = Map<Seq<char>, V>;

    closed spec fn view(&self) -> Map<Seq<char>, V> {
        Map::new(
            |name: Seq<char>| exists|i: int| self.holds(i, name),
            |name: Seq<char>| self.entries@[choose|i: int| self.holds(i, name)].1,
        )
    }
}

impl<V> Table<V> {
    /// Entry `i` has this name.
    spec fn holds(&self, i: int, name: Seq<char>) -> bool {
        0 <= i < self.entries@.len() && self.entries@[i].0@ == name
    }

    /// No name has two entries.
    pub closed spec fn wf(&self) -> bool {
        forall|i: int, j: int|
            0 <= i < j < self.entries@.len() ==> (#[trigger] self.entries@[i]).0@ != (
            #[trigger] self.entries@[j]).0@
    }

    /// The names in the order of their entries.
    pub closed spec fn names(&self) -> Seq<Seq<char>> {
        self.entries@.map_values(|entry: (String, V)| entry.0@)
    }

    /// The names are the keys, each once.
    pub proof fn lemma_names(&self)
        requires
            self.wf(),
        ensures
            self.names().no_duplicates(),
            forall|name: Seq<char>| #[trigger]
                self.names().contains(name) <==> self@.contains_key(name),
    {
        assert forall|name: Seq<char>| #[trigger] self.names().contains(name) implies
            self@.contains_key(name) by {
            let i = choose|i: int| 0 <= i < self.names().len() && self.names()[i] == name;
            assert(self.holds(i, name));
        }
        assert forall|name: Seq<char>| self@.contains_key(name) implies
            #[trigger] self.names().contains(name) by {
            let i = choose|i: int| self.holds(i, name);
            assert(self.names()[i] == name);
        }
    }

    proof fn lemma_holds(&self, i: int, name: Seq<char>)
        requires
            self.wf(),
            self.holds(i, name),
        ensures
            self@.contains_key(name),
            self@[name] == self.entries@[i].1,
    {
        let k = choose|k: int| self.holds(k, name);
        assert(self.holds(k, name));
        assert(self.entries@[i].0@ == self.entries@[k].0@);
    }

    /// A table without entries.
    pub fn new() -> (r: Self)
        ensures
            r.wf(),
            r@ == Map::<Seq<char>, V>::empty(),
    {
        let r = Table { entries: Vec::new() };
        assert(r@ =~= Map::<Seq<char>, V>::empty());
        r
    }

    /// Number of entries.
    pub fn len(&self) -> (r: usize)
        ensures
            r == self.names().len(),
    {
        self.entries.len()
    }

    /// The name of entry `i`.
    pub fn name(&self, i: usize) -> (r: &String)
        requires
            i < self.names().len(),
        ensures
            r@ == self.names()[i as int],
    {
        &self.entries[i].0
    }

    /// Where the entry of `name` is, if there is one.
    fn find(&self, name: &str) -> (r: Option<usize>)
        ensures
            match r {
                Some(i) => self.holds(i as int, name@),
                None => !self@.contains_key(name@),
            },
    {
        let mut i: usize = 0;
        while i < self.entries.len()
            invariant
                i <= self.entries@.len(),
                forall|j: int| 0 <= j < i ==> !self.holds(j, name@),
            decreases self.entries@.len() - i,
        {
            if text::same(self.entries[i].0.as_str(), name) {
                return Some(i);
            }
            i += 1;
        }
        None
    }

    /// The value of `name`, if it has one.
    pub fn get(&self, name: &str) -> (r: Option<&V>)
        requires
            self.wf(),
        ensures
            match r {
                Some(value) => self@.contains_key(name@) && *value == self@[name@],
                None => !self@.contains_key(name@),
            },
    {
        match self.find(name) {
            Some(i) => {
                proof {
                    self.lemma_holds(i as int, name@);
                }
                Some(&self.entries[i].1)
            },
            None => None,
        }
    }

    /// Gives `name` this value, in place of any it had.
    pub fn insert(&mut self, name: String, value: V)
        requires
            old(self).wf(),
        ensures
            final(self).wf(),
            final(self)@ == old(self)@.insert(name@, value),
    {
        let ghost key = name@;
        let ghost before = *self;
        match self.find(name.as_str()) {
            Some(i) => {
                let ghost at = i as int;
                self.entries.set(i, (name, value));
                proof {
                    self.lemma_inserted(before, at, key, value);
                }
            },
            None => {
                let ghost at = self.entries@.len() as int;
                self.entries.push((name, value));
                proof {
                    assert forall|j: int| 0 <= j < at implies before.entries@[j].0@ != key by {
                        assert(!before.holds(j, key));
                    }
                    self.lemma_inserted(before, at, key, value);
                }
            },
        }
    }

    /// Setting the one entry of a name, or adding the first, inserts into the map.
    proof fn lemma_inserted(&self, before: Self, at: int, key: Seq<char>, value: V)
        requires
            before.wf(),
            0 <= at < self.entries@.len(),
            self.entries@.len() == before.entries@.len() || self.entries@.len()
                == before.entries@.len() + 1 && at == before.entries@.len(),
            self.entries@[at].0@ == key,
            self.entries@[at].1 == value,
            forall|j: int| 0 <= j < before.entries@.len() && j != at ==> self.entries@[j]
                == before.entries@[j],
            forall|j: int| 0 <= j < before.entries@.len() && j != at ==> (
            #[trigger] before.entries@[j]).0@ != key,
            at < before.entries@.len() ==> before.entries@[at].0@ == key,
        ensures
            self.wf(),
            self@ == before@.insert(key, value),
    {
        assert(self.wf());
        assert(self.holds(at, key));
        self.lemma_holds(at, key);
        let after = before@.insert(key, value);
        assert forall|name: Seq<char>| #[trigger]
            self@.dom().contains(name) implies after.dom().contains(name) && self@[name]
            == after[name] by {
            if name != key {
                let i = choose|i: int| self.holds(i, name);
                assert(before.holds(i, name));
                self.lemma_holds(i, name);
                before.lemma_holds(i, name);
            }
        }
        assert forall|name: Seq<char>| #[trigger]
            after.dom().contains(name) implies self@.dom().contains(name) by {
            if name != key {
                assert(before@.dom().contains(name));
                let i = choose|i: int| before.holds(i, name);
                assert(self.holds(i, name));
            }
        }
        assert(self@.dom() =~= after.dom());
        assert(self@ =~= after);
    }
}

} // verus!
