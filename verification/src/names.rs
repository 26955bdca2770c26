//! An insertion-ordered table keyed by name.
use vstd::prelude::*;

verus! {

/// A table from names to values that remembers the order in which the names
/// first came in. A name occurs at most once.
pub struct NameMap<T> {
    names: Vec<String>,
    values: Vec<T>,
}

impl<T> View for NameMap<T> {
    type V = Map<Seq<char>, T>;

    /// The table as a map, forgetting the order.
    open spec fn view(&self) -> Map<Seq<char>, T> {
        Map::new(
            |name: Seq<char>| self.keys().contains(name),
            |name: Seq<char>| self.values()[self.keys().index_of(name)],
        )
    }
}

impl<T> NameMap<T> {
    /// The names, in the order of their first insertion.
    pub closed spec fn keys(&self) -> Seq<Seq<char>> {
        self.names@.map_values(|s: String| s@)
    }

    /// The values, each at the index of its name in `keys()`.
    pub closed spec fn values(&self) -> Seq<T> {
        self.values@
    }

    /// Names and values line up and no name occurs twice.
    pub open spec fn wf(&self) -> bool {
        &&& self.keys().len() == self.values().len()
        &&& self.keys().no_duplicates()
    }

    pub open spec fn contains(&self, name: Seq<char>) -> bool {
        self.keys().contains(name)
    }

    /// The value stored under `name`, if any.
    pub open spec fn lookup(&self, name: Seq<char>) -> Option<T> {
        if self.keys().contains(name) {
            Some(self.values()[self.keys().index_of(name)])
        } else {
            None
        }
    }

    /// In a well-formed table a name has one index only, so `lookup` finds
    /// the value at whichever index holds the name.
    pub proof fn lemma_lookup_at(&self, i: int)
        requires
            self.wf(),
            0 <= i < self.keys().len(),
        ensures
            self.contains(self.keys()[i]),
            self.keys().index_of(self.keys()[i]) == i,
            self.lookup(self.keys()[i]) == Some(self.values()[i]),
    {
        let name = self.keys()[i];
        assert(self.keys().contains(name));
        let j = self.keys().index_of(name);
        assert(0 <= j < self.keys().len() && self.keys()[j] == name);
    }

    pub fn new() -> (table: Self)
        ensures
            table.wf(),
            table.keys() == Seq::<Seq<char>>::empty(),
            table.values() == Seq::<T>::empty(),
    {
        NameMap { names: Vec::new(), values: Vec::new() }
    }

    pub fn len(&self) -> (n: usize)
        requires
            self.wf(),
        ensures
            n == self.keys().len(),
            n == self.values().len(),
    {
        self.names.len()
    }

    /// The index of `name` among the keys.
    pub fn position(&self, name: &String) -> (found: Option<usize>)
        requires
            self.wf(),
        ensures
            match found {
                Some(i) => i < self.keys().len() && self.keys()[i as int] == name@
                    && self.keys().index_of(name@) == i,
                None => !self.contains(name@),
            },
    {
        let mut i: usize = 0;
        while i < self.names.len()
            invariant
                self.wf(),
                i <= self.names.len(),
                forall|j: int| 0 <= j < i ==> self.keys()[j] != name@,
            decreases self.names.len() - i,
        {
            if self.names[i] == *name {
                proof {
                    self.lemma_lookup_at(i as int);
                }
                return Some(i);
            }
            i += 1;
        }
        None
    }

    /// The value stored under `name`.
    pub fn get(&self, name: &String) -> (found: Option<&T>)
        requires
            self.wf(),
        ensures
            match found {
                Some(value) => self.lookup(name@) == Some(*value),
                None => self.lookup(name@) is None,
            },
    {
        match self.position(name) {
            Some(i) => Some(&self.values[i]),
            None => None,
        }
    }

    /// The name at index `i`.
    pub fn name_at(&self, i: usize) -> (name: &String)
        requires
            self.wf(),
            i < self.keys().len(),
        ensures
            name@ == self.keys()[i as int],
    {
        &self.names[i]
    }

    /// The value at index `i`.
    pub fn value_at(&self, i: usize) -> (value: &T)
        requires
            self.wf(),
            i < self.values().len(),
        ensures
            *value == self.values()[i as int],
    {
        &self.values[i]
    }

    /// Replaces the value at index `i`, leaving every name in place.
    pub fn set_value(&mut self, i: usize, value: T)
        requires
            old(self).wf(),
            i < old(self).values().len(),
        ensures
            final(self).wf(),
            final(self).keys() == old(self).keys(),
            final(self).values() == old(self).values().update(i as int, value),
    {
        self.values[i] = value;
    }

    /// Stores `value` under `name`. A name that is already present keeps its
    /// place and has its value replaced wholesale; a new name goes to the end.
    pub fn insert(&mut self, name: String, value: T)
        requires
            old(self).wf(),
        ensures
            final(self).wf(),
            old(self).contains(name@) ==> {
                &&& final(self).keys() == old(self).keys()
                &&& final(self).values() == old(self).values().update(
                    old(self).keys().index_of(name@),
                    value,
                )
            },
            !old(self).contains(name@) ==> {
                &&& final(self).keys() == old(self).keys().push(name@)
                &&& final(self).values() == old(self).values().push(value)
            },
            final(self)@ == old(self)@.insert(name@, value),
    {
        match self.position(&name) {
            Some(i) => {
                self.values[i] = value;
                proof {
                    let before = *old(self);
                    let after = *self;
                    assert(after@ =~= before@.insert(name@, value)) by {
                        assert forall|k: Seq<char>| after@.dom().contains(k) implies #[trigger] after@[k]
                            == before@.insert(name@, value)[k] by {
                            let j = before.keys().index_of(k);
                            assert(0 <= j < before.keys().len() && before.keys()[j] == k);
                        }
                    }
                }
            },
            None => {
                let ghost pushed = name@;
                self.names.push(name);
                self.values.push(value);
                proof {
                    let before = *old(self);
                    let after = *self;
                    assert(after.keys() =~= before.keys().push(pushed));
                    assert(after@ =~= before@.insert(pushed, value)) by {
                        assert forall|k: Seq<char>| after.keys().contains(k) <==> (k == pushed
                            || before.keys().contains(k)) by {
                            if before.keys().contains(k) {
                                let j = before.keys().index_of(k);
                                assert(after.keys()[j] == k);
                            }
                            if k == pushed {
                                assert(after.keys()[before.keys().len() as int] == k);
                            }
                        }
                        assert forall|k: Seq<char>| after@.dom().contains(k) implies #[trigger] after@[k]
                            == before@.insert(pushed, value)[k] by {
                            let j = after.keys().index_of(k);
                            assert(0 <= j < after.keys().len() && after.keys()[j] == k);
                            if k != pushed {
                                let i = before.keys().index_of(k);
                                assert(0 <= i < before.keys().len() && before.keys()[i] == k);
                                assert(after.keys()[i] == k);
                            }
                        }
                    }
                }
            },
        }
    }

    /// Takes `name` and its value out of the table; the other entries keep
    /// their order. Returns whether the name was present.
    pub fn remove(&mut self, name: &String) -> (removed: bool)
        requires
            old(self).wf(),
        ensures
            final(self).wf(),
            removed == old(self).contains(name@),
            removed ==> {
                &&& final(self).keys() == old(self).keys().remove(old(self).keys().index_of(name@))
                &&& final(self).values() == old(self).values().remove(
                    old(self).keys().index_of(name@),
                )
            },
            !removed ==> {
                &&& final(self).keys() == old(self).keys()
                &&& final(self).values() == old(self).values()
            },
            !final(self).contains(name@),
            forall|other: Seq<char>|
                other != name@ ==> final(self).lookup(other) == old(self).lookup(other),
    {
        match self.position(name) {
            Some(i) => {
                self.names.remove(i);
                self.values.remove(i);
                proof {
                    let before = *old(self);
                    let after = *self;
                    assert(after.keys() =~= before.keys().remove(i as int));
                    assert forall|k: Seq<char>| after.keys().contains(k) <==> (k != name@
                        && before.keys().contains(k)) by {
                        if after.keys().contains(k) {
                            let j = after.keys().index_of(k);
                            assert(0 <= j < after.keys().len() && after.keys()[j] == k);
                            if j < i {
                                assert(before.keys()[j] == k);
                            } else {
                                assert(before.keys()[j + 1] == k);
                            }
                        }
                        if k != name@ && before.keys().contains(k) {
                            let j = before.keys().index_of(k);
                            assert(0 <= j < before.keys().len() && before.keys()[j] == k);
                            if j < i {
                                assert(after.keys()[j] == k);
                            } else {
                                assert(after.keys()[j - 1] == k);
                            }
                        }
                    }
                    assert forall|other: Seq<char>| other != name@ implies after.lookup(other)
                        == before.lookup(other) by {
                        if before.keys().contains(other) {
                            let j = before.keys().index_of(other);
                            assert(0 <= j < before.keys().len() && before.keys()[j] == other);
                            let a = after.keys().index_of(other);
                            assert(0 <= a < after.keys().len() && after.keys()[a] == other);
                            if a < i {
                                assert(before.keys()[a] == other);
                            } else {
                                assert(before.keys()[a + 1] == other);
                            }
                        }
                    }
                }
                true
            },
            None => false,
        }
    }
}

/// A set of names.
pub struct NameSet {
    names: NameMap<()>,
}

impl View for NameSet {
    type V = Set<Seq<char>>;

    closed spec fn view(&self) -> Set<Seq<char>> {
        self.names.keys().to_set()
    }
}

impl NameSet {
    /// The list underneath holds each name once.
    pub closed spec fn wf(&self) -> bool {
        self.names.wf()
    }

    pub fn new() -> (set: Self)
        ensures
            set.wf(),
            set@ == Set::<Seq<char>>::empty(),
    {
        let set = NameSet { names: NameMap::new() };
        assert(set@ =~= Set::<Seq<char>>::empty());
        set
    }

    /// The number of names in the set.
    pub fn len(&self) -> (n: usize)
        requires
            self.wf(),
        ensures
            self@.finite(),
            n == self@.len(),
    {
        proof {
            self.names.keys().unique_seq_to_set();
        }
        self.names.len()
    }

    pub fn is_empty(&self) -> (empty: bool)
        requires
            self.wf(),
        ensures
            empty == (self@ == Set::<Seq<char>>::empty()),
    {
        let n = self.names.len();
        proof {
            if n == 0 {
                assert(self@ =~= Set::<Seq<char>>::empty());
            } else {
                assert(self@.contains(self.names.keys()[0]));
            }
        }
        n == 0
    }

    pub fn contains(&self, name: &String) -> (present: bool)
        requires
            self.wf(),
        ensures
            present == self@.contains(name@),
    {
        self.names.position(name).is_some()
    }

    /// Adds `name`; returns whether it was new.
    pub fn insert(&mut self, name: String) -> (added: bool)
        requires
            old(self).wf(),
        ensures
            final(self).wf(),
            final(self)@ == old(self)@.insert(name@),
            added == !old(self)@.contains(name@),
    {
        if self.names.position(&name).is_some() {
            assert(self@ =~= old(self)@.insert(name@));
            false
        } else {
            let ghost key = name@;
            self.names.insert(name, ());
            proof {
                let before = old(self).names.keys();
                let after = self.names.keys();
                assert forall|k: Seq<char>| after.contains(k) <==> (k == key || before.contains(
                    k,
                )) by {
                    if before.contains(k) {
                        let j = before.index_of(k);
                        assert(after[j] == k);
                    }
                    if k == key {
                        assert(after[before.len() as int] == k);
                    }
                }
                assert(self@ =~= old(self)@.insert(key));
            }
            true
        }
    }

    /// Takes `name` out; returns whether it was there.
    pub fn remove(&mut self, name: &String) -> (removed: bool)
        requires
            old(self).wf(),
        ensures
            final(self).wf(),
            final(self)@ == old(self)@.remove(name@),
            removed == old(self)@.contains(name@),
    {
        let removed = self.names.remove(name);
        proof {
            let before = *old(self);
            let after = *self;
            assert forall|k: Seq<char>| after@.contains(k) <==> (k != name@ && before@.contains(
                k,
            )) by {
                if k != name@ {
                    assert(after.names.lookup(k) == before.names.lookup(k));
                }
            }
            assert(after@ =~= before@.remove(name@));
        }
        removed
    }
}

} // verus!
