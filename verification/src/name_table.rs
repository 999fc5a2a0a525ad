//! A table of values kept under distinct names, the shape shared by every
//! store of the crate: mailboxes under agent names, queues and registry
//! entries under team names.

use vstd::prelude::*;

verus! {

/// One named slot of a [`NameTable`].
struct Entry<T> {
    name: String,
    value: T,
}

/// Values stored under pairwise distinct names.
///
/// The view is the map from each name to the value stored under it.
pub struct NameTable<T> {
    entries: Vec<Entry<T>>,
}

/// The names of a run of entries, in storage order.
spec fn entry_names<T>(entries: Seq<Entry<T>>) -> Seq<Seq<char>> {
    Seq::new(entries.len(), |i: int| entries[i].name@)
}

/// The map that a run of entries with distinct names stands for.
spec fn entry_map<T>(entries: Seq<Entry<T>>) -> Map<Seq<char>, T> {
    Map::new(
        |k: Seq<char>| entry_names(entries).contains(k),
        |k: Seq<char>| entries[entry_names(entries).index_of(k)].value,
    )
}

/// Every entry is found under its own name, and nothing else is in the map.
proof fn lemma_entry_map<T>(entries: Seq<Entry<T>>)
    requires
        entry_names(entries).no_duplicates(),
    ensures
        forall|i: int|
            0 <= i < entries.len() ==> entry_map(entries).contains_key(
                #[trigger] entries[i].name@,
            ) && entry_map(entries)[entries[i].name@] == entries[i].value,
        forall|k: Seq<char>| #[trigger]
            entry_map(entries).contains_key(k) ==> exists|i: int|
                0 <= i < entries.len() && #[trigger] entries[i].name@ == k,
        entry_map(entries).dom().finite(),
{
    let names = entry_names(entries);
    assert forall|i: int| 0 <= i < entries.len() implies entry_map(entries).contains_key(
        #[trigger] entries[i].name@,
    ) && entry_map(entries)[entries[i].name@] == entries[i].value by {
        assert(names[i] == entries[i].name@);
        let j = names.index_of(entries[i].name@);
        assert(names[j] == names[i]);
    }
    assert forall|k: Seq<char>| #[trigger] entry_map(entries).contains_key(k) implies exists|
        i: int,
    |
        0 <= i < entries.len() && #[trigger] entries[i].name@ == k by {
        let j = names.index_of(k);
        assert(names[j] == k);
        assert(entries[j].name@ == k);
    }
    assert(entry_map(entries).dom() =~= names.to_set());
    vstd::seq_lib::seq_to_set_is_finite(names);
}

impl<T> View for NameTable<T> {
    type V = Map<Seq<char>, T>;

    closed spec fn view(&self) -> Map<Seq<char>, T> {
        entry_map(self.entries@)
    }
}

impl<T> NameTable<T> {
    #[verifier::type_invariant]
    spec fn distinct_names(self) -> bool {
        entry_names(self.entries@).no_duplicates()
    }

    /// An empty table.
    pub fn new() -> (table: Self)
        ensures
            table@ == Map::<Seq<char>, T>::empty(),
    {
        let table = NameTable { entries: Vec::new() };
        assert(table@ =~= Map::<Seq<char>, T>::empty());
        table
    }

    /// Where `name` is stored, if anywhere.
    fn position(&self, name: &String) -> (found: Option<usize>)
        ensures
            match found {
                Some(i) => i < self.entries@.len() && self.entries@[i as int].name@ == name@,
                None => forall|j: int|
                    0 <= j < self.entries@.len() ==> self.entries@[j].name@ != name@,
            },
    {
        let mut i: usize = 0;
        while i < self.entries.len()
            invariant
                i <= self.entries@.len(),
                forall|j: int| 0 <= j < i ==> self.entries@[j].name@ != name@,
            decreases self.entries@.len() - i,
        {
            if self.entries[i].name == *name {
                return Some(i);
            }
            i += 1;
        }
        None
    }

    /// Whether a value is stored under `name`.
    pub fn contains_name(&self, name: &str) -> (present: bool)
        ensures
            present == self@.contains_key(name@),
    {
        let wanted = name.to_owned();
        proof {
            use_type_invariant(self);
            lemma_entry_map(self.entries@);
        }
        self.position(&wanted).is_some()
    }

    /// The value stored under `name`, if there is one.
    pub fn get(&self, name: &str) -> (found: Option<&T>)
        ensures
            match found {
                Some(value) => self@.contains_key(name@) && *value == self@[name@],
                None => !self@.contains_key(name@),
            },
    {
        let wanted = name.to_owned();
        proof {
            use_type_invariant(self);
            lemma_entry_map(self.entries@);
        }
        match self.position(&wanted) {
            Some(i) => Some(&self.entries[i].value),
            None => None,
        }
    }

    /// Stores `value` under `name`, in place of whatever was stored there.
    pub fn put(&mut self, name: &str, value: T)
        ensures
            final(self)@ == old(self)@.insert(name@, value),
    {
        let wanted = name.to_owned();
        proof {
            use_type_invariant(&*self);
        }
        let found = self.position(&wanted);
        let ghost before = self.entries@;
        let mut entries: Vec<Entry<T>> = Vec::new();
        core::mem::swap(&mut self.entries, &mut entries);
        match found {
            Some(i) => {
                entries.set(i, Entry { name: wanted, value });
                proof {
                    assert(entry_names(entries@) =~= entry_names(before));
                }
            },
            None => {
                entries.push(Entry { name: wanted, value });
                proof {
                    assert(entry_names(entries@) =~= entry_names(before).push(name@));
                    assert forall|i: int, j: int|
                        0 <= i < j < entries@.len() implies entry_names(entries@)[i]
                        != entry_names(entries@)[j] by {
                        if j < before.len() {
                            assert(entry_names(before)[i] != entry_names(before)[j]);
                        }
                    }
                }
            },
        }
        proof {
            lemma_entry_map(before);
            lemma_entry_map(entries@);
            let stored = entry_map(entries@);
            let wished = entry_map(before).insert(name@, value);
            let at = match found {
                Some(i) => i as int,
                None => before.len() as int,
            };
            assert(entries@[at].name@ == name@ && entries@[at].value == value);
            assert forall|k: Seq<char>| #[trigger] stored.contains_key(k) implies wished.contains_key(
                k,
            ) && stored[k] == wished[k] by {
                let j = choose|j: int| 0 <= j < entries@.len() && #[trigger] entries@[j].name@ == k;
                if j != at {
                    assert(before[j].name@ == k);
                    assert(entry_names(entries@)[j] != entry_names(entries@)[at]);
                }
            }
            assert forall|k: Seq<char>| #[trigger] wished.contains_key(k) implies stored.contains_key(
                k,
            ) by {
                if k != name@ {
                    let j = choose|j: int| 0 <= j < before.len() && #[trigger] before[j].name@ == k;
                    assert(entries@[j].name@ == k);
                }
            }
            assert(stored =~= wished);
        }
        self.entries = entries;
    }

    /// Removes and returns the value stored under `name`, if there is one.
    pub fn take(&mut self, name: &str) -> (taken: Option<T>)
        ensures
            final(self)@ == old(self)@.remove(name@),
            match taken {
                Some(value) => old(self)@.contains_key(name@) && value == old(self)@[name@],
                None => !old(self)@.contains_key(name@),
            },
    {
        let wanted = name.to_owned();
        proof {
            use_type_invariant(&*self);
            lemma_entry_map(self.entries@);
        }
        match self.position(&wanted) {
            Some(i) => {
                let ghost before = self.entries@;
                let mut entries: Vec<Entry<T>> = Vec::new();
                core::mem::swap(&mut self.entries, &mut entries);
                let entry = entries.remove(i);
                proof {
                    assert(entry_names(entries@) =~= entry_names(before).remove(i as int));
                    assert forall|a: int, b: int|
                        0 <= a < b < entries@.len() implies entry_names(entries@)[a]
                        != entry_names(entries@)[b] by {
                        let a0 = if a < i { a } else { a + 1 };
                        let b0 = if b < i { b } else { b + 1 };
                        assert(entry_names(before)[a0] != entry_names(before)[b0]);
                    }
                    lemma_entry_map(entries@);
                    assert forall|k: Seq<char>|
                        entry_map(before).remove(name@).contains_key(k) implies #[trigger] entry_map(
                            entries@,
                        ).contains_key(k) by {
                        let j = choose|j: int| 0 <= j < before.len() && #[trigger] before[j].name@ == k;
                        assert(entry_names(before)[j] != entry_names(before)[i as int]);
                        let j1 = if j < i { j } else { j - 1 };
                        assert(entries@[j1].name@ == k);
                    }
                    assert forall|k: Seq<char>| #[trigger]
                        entry_map(entries@).contains_key(k) implies entry_map(before).remove(
                            name@,
                        ).contains_key(k) && entry_map(entries@)[k] == entry_map(before)[k] by {
                        let j = choose|j: int|
                            0 <= j < entries@.len() && #[trigger] entries@[j].name@ == k;
                        let j0 = if j < i { j } else { j + 1 };
                        assert(before[j0].name@ == k);
                        assert(entry_names(before)[j0] != entry_names(before)[i as int]);
                    }
                    assert(entry_map(entries@) =~= entry_map(before).remove(name@));
                }
                self.entries = entries;
                Some(entry.value)
            },
            None => {
                assert(self@.remove(name@) =~= self@);
                None
            },
        }
    }

    /// The names in use, each once.
    pub fn names(&self) -> (names: Vec<String>)
        ensures
            self@.dom().finite(),
            names@.len() == self@.dom().len(),
            forall|i: int| 0 <= i < names@.len() ==> self@.contains_key(#[trigger] names@[i]@),
            forall|k: Seq<char>| #[trigger]
                self@.contains_key(k) ==> exists|i: int|
                    0 <= i < names@.len() && #[trigger] names@[i]@ == k,
            forall|i: int, j: int|
                0 <= i < j < names@.len() ==> #[trigger] names@[i]@ != #[trigger] names@[j]@,
    {
        proof {
            use_type_invariant(self);
            lemma_entry_map(self.entries@);
        }
        let mut names: Vec<String> = Vec::new();
        let mut i: usize = 0;
        while i < self.entries.len()
            invariant
                i <= self.entries@.len(),
                names@.len() == i,
                forall|j: int| 0 <= j < i ==> #[trigger] names@[j]@ == self.entries@[j].name@,
            decreases self.entries@.len() - i,
        {
            names.push(self.entries[i].name.clone());
            i += 1;
        }
        proof {
            let stored = entry_names(self.entries@);
            assert forall|a: int, b: int| 0 <= a < b < names@.len() implies #[trigger] names@[a]@
                != #[trigger] names@[b]@ by {
                assert(stored[a] != stored[b]);
            }
            assert(entry_map(self.entries@).dom() =~= stored.to_set());
            stored.unique_seq_to_set();
            assert forall|k: Seq<char>| #[trigger] self@.contains_key(k) implies exists|i: int|
                0 <= i < names@.len() && #[trigger] names@[i]@ == k by {
                let j = choose|j: int|
                    0 <= j < self.entries@.len() && #[trigger] self.entries@[j].name@ == k;
                assert(names@[j]@ == k);
            }
        }
        names
    }
}

} // verus!
