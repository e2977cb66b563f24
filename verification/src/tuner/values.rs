//! Values by parameter name.

use crate::text::same_text;
use vstd::prelude::*;

verus! {

/// Values by name, in the order in which their names came in.
#[derive(Debug)]
pub struct ParamMap<V> {
    entries: Vec<(String, V)>,
}

/// The value of the first entry with a name.
pub open spec fn lookup<V>(items: Seq<(Seq<char>, V)>, name: Seq<char>) -> Option<V>
    decreases items.len(),
{
    if items.len() == 0 {
        None
    } else if items[0].0 == name {
        Some(items[0].1)
    } else {
        lookup(items.skip(1), name)
    }
}

/// Whether no name stands in two entries.
pub open spec fn distinct_names<V>(items: Seq<(Seq<char>, V)>) -> bool {
    forall|i: int, j: int| 0 <= i < j < items.len() ==> (#[trigger] items[i]).0 != (#[trigger] items[j]).0
}

/// A lookup finds the only entry with a name.
pub proof fn lemma_lookup<V>(items: Seq<(Seq<char>, V)>, name: Seq<char>, i: int)
    requires
        0 <= i < items.len(),
        items[i].0 == name,
        forall|j: int| 0 <= j < i ==> (#[trigger] items[j]).0 != name,
    ensures
        lookup(items, name) == Some(items[i].1),
    decreases items.len(),
{
    if i > 0 {
        assert(items[0].0 != name);
        let rest = items.skip(1);
        assert forall|j: int| 0 <= j < i - 1 implies (#[trigger] rest[j]).0 != name by {
            assert(rest[j] == items[j + 1]);
        }
        lemma_lookup(rest, name, i - 1);
    }
}

/// A lookup fails where no entry has the name.
pub proof fn lemma_lookup_missing<V>(items: Seq<(Seq<char>, V)>, name: Seq<char>)
    requires
        forall|j: int| 0 <= j < items.len() ==> (#[trigger] items[j]).0 != name,
    ensures
        lookup(items, name) is None,
    decreases items.len(),
{
    if items.len() > 0 {
        assert(items[0].0 != name);
        let rest = items.skip(1);
        assert forall|j: int| 0 <= j < rest.len() implies (#[trigger] rest[j]).0 != name by {
            assert(rest[j] == items[j + 1]);
        }
        lemma_lookup_missing(rest, name);
    }
}

/// A lookup that succeeds points to an entry.
pub proof fn lemma_lookup_found<V>(items: Seq<(Seq<char>, V)>, name: Seq<char>) -> (at: int)
    requires
        lookup(items, name) is Some,
    ensures
        0 <= at < items.len(),
        items[at].0 == name,
        lookup(items, name) == Some(items[at].1),
        forall|j: int| 0 <= j < at ==> (#[trigger] items[j]).0 != name,
    decreases items.len(),
{
    if items[0].0 == name {
        0
    } else {
        let rest = items.skip(1);
        let at = lemma_lookup_found(rest, name);
        assert forall|j: int| 0 <= j < at + 1 implies (#[trigger] items[j]).0 != name by {
            if j > 0 {
                assert(rest[j - 1] == items[j]);
            }
        }
        at + 1
    }
}

impl<V> ParamMap<V> {
    /// The entries in order.
    pub closed spec fn items(self) -> Seq<(Seq<char>, V)> {
        self.entries@.map_values(|entry: (String, V)| (entry.0@, entry.1))
    }

    /// Whether no name stands in two entries.
    pub open spec fn wf(self) -> bool {
        distinct_names(self.items())
    }

    /// No values.
    pub fn new() -> (map: ParamMap<V>)
        ensures
            map.wf(),
            map.items() == Seq::<(Seq<char>, V)>::empty(),
            map@ == Map::<Seq<char>, V>::empty(),
    {
        let map: ParamMap<V> = ParamMap { entries: Vec::new() };
        assert(map.items() =~= Seq::<(Seq<char>, V)>::empty());
        assert(map@ =~= Map::<Seq<char>, V>::empty());
        map
    }

    /// How many names have a value.
    pub fn len(&self) -> (count: usize)
        requires
            self.wf(),
        ensures
            count == self.items().len(),
            count == self@.len(),
            self@.dom().finite(),
    {
        proof {
            let items = self.items();
            let names = items.map_values(|item: (Seq<char>, V)| item.0);
            assert forall|i: int, j: int| 0 <= i < names.len() && 0 <= j < names.len() && i != j implies names[i] != names[j] by {
                if i < j {
                    assert(items[i].0 != items[j].0);
                } else {
                    assert(items[j].0 != items[i].0);
                }
            }
            assert(names.no_duplicates());
            names.unique_seq_to_set();
            assert(self@.dom() =~= names.to_set()) by {
                assert forall|name: Seq<char>| self@.dom().contains(name) == names.to_set().contains(name) by {
                    if lookup(items, name) is Some {
                        let at = lemma_lookup_found(items, name);
                        assert(names[at] == name);
                    } else {
                        if names.contains(name) {
                            let at = choose|at: int| 0 <= at < names.len() && names[at] == name;
                            assert(items[at].0 == name);
                            assert forall|j: int| 0 <= j < at implies (#[trigger] items[j]).0 != name by {
                                assert(items[j].0 != items[at].0);
                            }
                            lemma_lookup(items, name, at);
                        }
                    }
                }
            }
        }
        self.entries.len()
    }

    /// Whether there is no value.
    pub fn is_empty(&self) -> (empty: bool)
        ensures
            empty == (self.items().len() == 0),
    {
        self.entries.len() == 0
    }

    /// The name of an entry.
    pub fn name(&self, i: usize) -> (name: &str)
        requires
            i < self.items().len(),
        ensures
            name@ == self.items()[i as int].0,
    {
        self.entries[i].0.as_str()
    }

    /// The value of an entry.
    pub fn value(&self, i: usize) -> (value: &V)
        requires
            i < self.items().len(),
        ensures
            *value == self.items()[i as int].1,
    {
        &self.entries[i].1
    }

    /// Where a name stands.
    fn position(&self, name: &str) -> (at: Option<usize>)
        ensures
            match at {
                Some(i) => {
                    &&& i < self.entries@.len()
                    &&& self.entries@[i as int].0@ == name@
                    &&& lookup(self.items(), name@) == Some(self.entries@[i as int].1)
                    &&& forall|j: int| 0 <= j < i ==> (#[trigger] self.entries@[j]).0@ != name@
                },
                None => {
                    &&& lookup(self.items(), name@) is None
                    &&& forall|j: int| 0 <= j < self.entries@.len() ==> (#[trigger] self.entries@[j]).0@ != name@
                },
            },
    {
        let count: usize = self.entries.len();
        let mut i: usize = 0;
        while i < count
            invariant
                i <= count == self.entries@.len(),
                forall|j: int| 0 <= j < i ==> (#[trigger] self.entries@[j]).0@ != name@,
            decreases count - i,
        {
            if same_text(self.entries[i].0.as_str(), name) {
                proof {
                    let items = self.items();
                    assert forall|j: int| 0 <= j < i implies (#[trigger] items[j]).0 != name@ by {
                        assert(self.entries@[j].0@ != name@);
                    }
                    lemma_lookup(items, name@, i as int);
                }
                return Some(i);
            }
            i = i + 1;
        }
        proof {
            let items = self.items();
            assert forall|j: int| 0 <= j < items.len() implies (#[trigger] items[j]).0 != name@ by {
                assert(self.entries@[j].0@ != name@);
            }
            lemma_lookup_missing(items, name@);
        }
        None
    }

    /// The value of a name.
    pub fn get(&self, name: &str) -> (value: Option<&V>)
        ensures
            match value {
                Some(v) => self@.dom().contains(name@) && *v == self@[name@],
                None => !self@.dom().contains(name@),
            },
    {
        match self.position(name) {
            Some(i) => Some(&self.entries[i].1),
            None => None,
        }
    }

    /// Whether a name has a value.
    pub fn contains_key(&self, name: &str) -> (known: bool)
        ensures
            known == self@.dom().contains(name@),
    {
        self.position(name).is_some()
    }

    /// Gives a name a value. A name that already has one keeps its place; a new
    /// one comes last.
    pub fn insert(&mut self, name: String, value: V)
        requires
            old(self).wf(),
        ensures
            final(self).wf(),
            final(self)@ == old(self)@.insert(name@, value),
            !old(self)@.dom().contains(name@) ==> final(self).items() == old(self).items().push((name@, value)),
            old(self)@.dom().contains(name@) ==> exists|i: int|
                0 <= i < old(self).items().len() && #[trigger] old(self).items()[i].0 == name@ && final(self).items()
                    == old(self).items().update(i, (name@, value)),
    {
        let ghost before = self.items();
        let ghost key = name@;
        let ghost given = value;
        match self.position(name.as_str()) {
            Some(i) => {
                self.entries.set(i, (name, value));
                proof {
                    assert(self.items() =~= before.update(i as int, (key, given)));
                    lemma_insert_known(before, i as int, key, given);
                    assert(self@ =~= old(self)@.insert(key, given));
                    assert(before[i as int].0 == key);
                }
            },
            None => {
                proof {
                    assert forall|j: int| 0 <= j < before.len() implies (#[trigger] before[j]).0 != key by {
                        assert(self.entries@[j].0@ != key);
                    }
                }
                self.entries.push((name, value));
                proof {
                    assert(self.items() =~= before.push((key, given)));
                    lemma_insert_new(before, key, given);
                    assert(self@ =~= old(self)@.insert(key, given));
                }
            },
        }
    }
}

impl<V> View for ParamMap<V> {
    type V = Map<Seq<char>, V>;

    open spec fn view(&self) -> Map<Seq<char>, V> {
        Map::new(
            |name: Seq<char>| lookup(self.items(), name) is Some,
            |name: Seq<char>| lookup(self.items(), name)->0,
        )
    }
}

/// Replacing the value of an entry changes what is found under its name only.
proof fn lemma_insert_known<V>(items: Seq<(Seq<char>, V)>, i: int, name: Seq<char>, value: V)
    requires
        distinct_names(items),
        0 <= i < items.len(),
        items[i].0 == name,
    ensures
        distinct_names(items.update(i, (name, value))),
        forall|key: Seq<char>| #[trigger] lookup(items.update(i, (name, value)), key) == if key == name {
            Some(value)
        } else {
            lookup(items, key)
        },
{
    let after = items.update(i, (name, value));
    assert forall|a: int, b: int| 0 <= a < b < after.len() implies (#[trigger] after[a]).0 != (#[trigger] after[b]).0 by {
        assert(items[a].0 != items[b].0);
    }
    assert forall|key: Seq<char>| #[trigger] lookup(after, key) == if key == name {
        Some(value)
    } else {
        lookup(items, key)
    } by {
        if key == name {
            assert forall|j: int| 0 <= j < i implies (#[trigger] after[j]).0 != name by {
                assert(after[j].0 != after[i].0);
            }
            lemma_lookup(after, name, i);
        } else if lookup(items, key) is Some {
            let at = lemma_lookup_found(items, key);
            assert forall|j: int| 0 <= j < at implies (#[trigger] after[j]).0 != key by {
                assert(items[j].0 != key);
            }
            lemma_lookup(after, key, at);
        } else {
            if lookup(after, key) is Some {
                let at = lemma_lookup_found(after, key);
                assert forall|j: int| 0 <= j < at implies (#[trigger] items[j]).0 != key by {
                    assert(after[j].0 != key);
                }
                lemma_lookup(items, key, at);
            }
        }
    }
}

/// A new entry changes what is found under its name only.
proof fn lemma_insert_new<V>(items: Seq<(Seq<char>, V)>, name: Seq<char>, value: V)
    requires
        distinct_names(items),
        forall|j: int| 0 <= j < items.len() ==> (#[trigger] items[j]).0 != name,
    ensures
        distinct_names(items.push((name, value))),
        forall|key: Seq<char>| #[trigger] lookup(items.push((name, value)), key) == if key == name {
            Some(value)
        } else {
            lookup(items, key)
        },
{
    let after = items.push((name, value));
    assert forall|a: int, b: int| 0 <= a < b < after.len() implies (#[trigger] after[a]).0 != (#[trigger] after[b]).0 by {
        assert(items[a].0 != name);
        if b < items.len() {
            assert(items[a].0 != items[b].0);
        }
    }
    assert forall|key: Seq<char>| #[trigger] lookup(after, key) == if key == name {
        Some(value)
    } else {
        lookup(items, key)
    } by {
        if key == name {
            assert forall|j: int| 0 <= j < items.len() implies (#[trigger] after[j]).0 != name by {
                assert(items[j].0 != name);
            }
            lemma_lookup(after, name, items.len() as int);
        } else if lookup(items, key) is Some {
            let at = lemma_lookup_found(items, key);
            assert forall|j: int| 0 <= j < at implies (#[trigger] after[j]).0 != key by {
                assert(items[j].0 != key);
            }
            lemma_lookup(after, key, at);
        } else {
            if lookup(after, key) is Some {
                let at = lemma_lookup_found(after, key);
                assert(at < items.len());
                assert forall|j: int| 0 <= j < at implies (#[trigger] items[j]).0 != key by {
                    assert(after[j].0 != key);
                }
                lemma_lookup(items, key, at);
            }
        }
    }
}

} // verus!
