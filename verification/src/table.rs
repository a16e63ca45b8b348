//! A small map from names to values that keeps its names in ascending
//! order, so that walking it visits the names in that order.
//!
//! The maps of the standard library have no model in vstd for keys that are
//! strings, so nothing could be proved of what they hold. This one is a
//! vector of entries with the order as its invariant.

use crate::text::{
    lemma_lex_irreflexive, lemma_lex_total, lemma_lex_transitive, lex_lt, same_text, text_lt,
};
use vstd::prelude::*;

verus! {

/// Whether `names` is strictly ascending.
pub open spec fn ascending(names: Seq<Seq<char>>) -> bool {
    forall|i: int, j: int| 0 <= i < j < names.len() ==> lex_lt(#[trigger] names[i], #[trigger] names[j])
}

/// One name with its value.
#[derive(Debug, Clone)]
pub struct Entry<V> {
    pub name: String,
    pub value: V,
}

/// A map from names to values, held in ascending order of the names. No name
/// occurs twice.
#[derive(Debug)]
pub struct Table<V> {
    entries: Vec<Entry<V>>,
}

/// The names of `entries`, in their order.
pub open spec fn names_of<V>(entries: Seq<Entry<V>>) -> Seq<Seq<char>> {
    entries.map_values(|e: Entry<V>| e.name@)
}

/// The values of `entries`, in their order.
pub open spec fn values_of<V>(entries: Seq<Entry<V>>) -> Seq<V> {
    entries.map_values(|e: Entry<V>| e.value)
}

impl<V> Table<V> {
    /// The names, in ascending order.
    pub closed spec fn names(&self) -> Seq<Seq<char>> {
        names_of(self.entries@)
    }

    /// The values, each at the index of its name.
    pub closed spec fn values(&self) -> Seq<V> {
        values_of(self.entries@)
    }

    /// What every table satisfies.
    pub open spec fn wf(&self) -> bool {
        &&& self.names().len() == self.values().len()
        &&& ascending(self.names())
    }

    #[verifier::type_invariant]
    spec fn inv(&self) -> bool {
        ascending(self.names())
    }

    /// The value held for `name`.
    pub open spec fn spec_get(&self, name: Seq<char>) -> Option<V> {
        if self.names().contains(name) {
            Some(self.values()[self.names().index_of(name)])
        } else {
            None
        }
    }

    /// Whether the table holds `name`.
    pub open spec fn has(&self, name: Seq<char>) -> bool {
        self.names().contains(name)
    }

    /// A table without entries.
    pub fn new() -> (t: Self)
        ensures
            t.wf(),
            t.names() == Seq::<Seq<char>>::empty(),
            t.values() == Seq::<V>::empty(),
    {
        let t = Table { entries: Vec::new() };
        assert(t.names() =~= Seq::<Seq<char>>::empty());
        assert(t.values() =~= Seq::<V>::empty());
        t
    }

    /// Number of entries.
    pub fn len(&self) -> (n: usize)
        ensures
            self.wf(),
            n == self.names().len(),
    {
        proof {
            use_type_invariant(self);
        }
        self.entries.len()
    }

    /// The name at index `i` in ascending order.
    pub fn name_at(&self, i: usize) -> (name: &String)
        requires
            i < self.names().len(),
        ensures
            name@ == self.names()[i as int],
    {
        &self.entries[i].name
    }

    /// The value at index `i`, which belongs to the name at that index.
    pub fn value_at(&self, i: usize) -> (value: &V)
        requires
            i < self.names().len(),
        ensures
            self.wf(),
            *value == self.values()[i as int],
            self.spec_get(self.names()[i as int]) == Some(*value),
    {
        proof {
            use_type_invariant(self);
            lemma_index_of_ascending(self.names(), i as int);
        }
        &self.entries[i].value
    }

    /// The value held for `name`, if any.
    pub fn get(&self, name: &str) -> (r: Option<&V>)
        ensures
            self.wf(),
            match r {
                Some(v) => self.spec_get(name@) == Some(*v),
                None => self.spec_get(name@) is None,
            },
    {
        proof {
            use_type_invariant(self);
        }
        let mut i: usize = 0;
        while i < self.entries.len()
            invariant
                i <= self.entries.len(),
                ascending(self.names()),
                forall|j: int| 0 <= j < i ==> #[trigger] self.names()[j] != name@,
            decreases self.entries.len() - i,
        {
            if same_text(self.entries[i].name.as_str(), name) {
                proof {
                    lemma_index_of_ascending(self.names(), i as int);
                }
                return Some(&self.entries[i].value);
            }
            i = i + 1;
        }
        None
    }

    /// Sets the value of `name`, replacing the one it had.
    pub fn insert(&mut self, name: String, value: V)
        ensures
            final(self).wf(),
            final(self).spec_get(name@) == Some(value),
            forall|other: Seq<char>|
                other != name@ ==> final(self).spec_get(other) == old(self).spec_get(other),
            forall|other: Seq<char>|
                #![trigger final(self).has(other)]
                final(self).has(other) <==> other == name@ || old(self).has(other),
            final(self).names().len() == old(self).names().len() + (if old(self).has(name@) {
                0int
            } else {
                1int
            }),
    {
        proof {
            use_type_invariant(&*self);
        }
        let ghost before = *self;
        let ghost names = self.names();
        let ghost values = self.values();
        let mut p: usize = 0;
        while p < self.entries.len() && text_lt(self.entries[p].name.as_str(), name.as_str())
            invariant
                p <= self.entries.len(),
                *self == before,
                forall|j: int| 0 <= j < p ==> lex_lt(#[trigger] names[j], name@),
                names == self.names(),
            decreases self.entries.len() - p,
        {
            p = p + 1;
        }
        let found = p < self.entries.len() && same_text(
            self.entries[p].name.as_str(),
            name.as_str(),
        );
        let ghost key = name@;
        let mut taken = Table { entries: Vec::new() };
        assert(taken.names() =~= Seq::<Seq<char>>::empty());
        std::mem::swap(self, &mut taken);
        let mut entries = taken.entries;
        if found {
            entries.set(p, Entry { name, value });
            assert(names_of(entries@) =~= names);
            *self = Table { entries };
            proof {
                assert(self.names() =~= names);
                assert(self.values() =~= values.update(p as int, value));
                lemma_index_of_ascending(names, p as int);
                assert forall|other: Seq<char>| other != key implies self.spec_get(other)
                    == before.spec_get(other) by {
                    if names.contains(other) {
                        let k = names.index_of(other);
                        assert(k != p);
                    }
                }
            }
        } else {
            proof {
                if p < names.len() {
                    lemma_lex_total(names[p as int], key);
                    assert(lex_lt(key, names[p as int]));
                    assert forall|j: int| p < j < names.len() implies lex_lt(
                        key,
                        #[trigger] names[j],
                    ) by {
                        lemma_lex_transitive(key, names[p as int], names[j]);
                    }
                }
                assert forall|j: int| 0 <= j < names.len() implies #[trigger] names[j] != key by {
                    lemma_lex_irreflexive(key);
                }
            }
            entries.insert(p, Entry { name, value });
            proof {
                let after = names.insert(p as int, key);
                assert(names_of(entries@) =~= after);
                assert(ascending(after)) by {
                    assert forall|i: int, j: int| 0 <= i < j < after.len() implies lex_lt(
                        #[trigger] after[i],
                        #[trigger] after[j],
                    ) by {
                        if i < p && j < p {
                            assert(after[i] == names[i] && after[j] == names[j]);
                        } else if i < p && j == p {
                            assert(after[i] == names[i]);
                        } else if i < p && j > p {
                            assert(after[i] == names[i] && after[j] == names[j - 1]);
                        } else if i == p {
                            assert(after[j] == names[j - 1]);
                        } else {
                            assert(after[i] == names[i - 1] && after[j] == names[j - 1]);
                        }
                    }
                }
            }
            *self = Table { entries };
            proof {
                let after = names.insert(p as int, key);
                assert(self.names() =~= after);
                assert(self.values() =~= values.insert(p as int, value));
                lemma_index_of_ascending(after, p as int);
                assert forall|other: Seq<char>| other != key implies (after.contains(other)
                    <==> names.contains(other)) && self.spec_get(other) == before.spec_get(
                    other,
                ) by {
                    if names.contains(other) {
                        let k = names.index_of(other);
                        let k2 = if k < p {
                            k
                        } else {
                            k + 1
                        };
                        assert(after[k2] == other);
                        lemma_index_of_ascending(after, k2);
                        lemma_index_of_ascending(names, k);
                    }
                    if after.contains(other) {
                        let k2 = after.index_of(other);
                        assert(k2 != p);
                        let k = if k2 < p {
                            k2
                        } else {
                            k2 - 1
                        };
                        assert(names[k] == other);
                    }
                }
                assert(after.contains(key));
            }
        }
    }
}

impl<V: Clone> Clone for Table<V> {
    /// A table with the same names, each with a clone of its value.
    fn clone(&self) -> (r: Self)
        ensures
            r.names() == self.names(),
            r.values().len() == self.values().len(),
            forall|i: int|
                0 <= i < self.values().len() ==> cloned(
                    #[trigger] self.values()[i],
                    r.values()[i],
                ),
    {
        proof {
            use_type_invariant(self);
        }
        let mut entries: Vec<Entry<V>> = Vec::new();
        let mut i: usize = 0;
        while i < self.entries.len()
            invariant
                i <= self.entries.len(),
                entries@.len() == i,
                names_of(entries@) == names_of(self.entries@).take(i as int),
                forall|j: int|
                    0 <= j < i ==> cloned(
                        #[trigger] values_of(self.entries@)[j],
                        values_of(entries@)[j],
                    ),
            decreases self.entries.len() - i,
        {
            let ghost before = entries@;
            let name = self.entries[i].name.clone();
            let value = self.entries[i].value.clone();
            assert(name@ == names_of(self.entries@)[i as int]);
            assert(cloned(values_of(self.entries@)[i as int], value));
            entries.push(Entry { name, value });
            assert(names_of(entries@) =~= names_of(before).push(name@));
            assert forall|j: int| 0 <= j < i + 1 implies cloned(
                #[trigger] values_of(self.entries@)[j],
                values_of(entries@)[j],
            ) by {
                if j < i {
                    assert(values_of(entries@)[j] == values_of(before)[j]);
                }
            }
            i = i + 1;
            assert(names_of(entries@) =~= names_of(self.entries@).take(i as int));
        }
        assert(names_of(entries@) =~= names_of(self.entries@));
        Table { entries }
    }
}

/// In an ascending sequence each name stands at one index only.
pub proof fn lemma_index_of_ascending(names: Seq<Seq<char>>, i: int)
    requires
        ascending(names),
        0 <= i < names.len(),
    ensures
        names.contains(names[i]),
        names.index_of(names[i]) == i,
{
    let k = names.index_of(names[i]);
    assert(names.contains(names[i]));
    assert(0 <= k < names.len() && names[k] == names[i]);
    lemma_lex_irreflexive(names[i]);
    if k < i {
        assert(lex_lt(names[k], names[i]));
    } else if i < k {
        assert(lex_lt(names[i], names[k]));
    }
}

} // verus!
