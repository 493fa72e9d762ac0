//! A map keyed by identifier, kept as a vector in the order of its keys.

use vstd::prelude::*;

use crate::text;
use crate::text::{order_text, TextOrder};

verus! {

/// A map from identifiers to values.
#[derive(Debug, Clone)]
pub struct IdMap<V> {
    entries: Vec<(String, V)>,
}

/// The keys of `entries`, in order.
spec fn keys_of<V>(entries: Seq<(String, V)>) -> Seq<Seq<char>> {
    Seq::new(entries.len(), |i: int| entries[i].0@)
}

/// The map that `entries` stands for.
spec fn map_of<V: View>(entries: Seq<(String, V)>) -> Map<Seq<char>, V::V> {
    Map::new(
        |k: Seq<char>| keys_of(entries).contains(k),
        |k: Seq<char>| entries[keys_of(entries).index_of(k)].1@,
    )
}

/// `keys` is strictly increasing.
pub open spec fn increasing(keys: Seq<Seq<char>>) -> bool {
    forall|i: int, j: int| 0 <= i < j < keys.len() ==> #[trigger] text::text_lt(keys[i], keys[j])
}

/// In an increasing sequence a key stands at one position only.
pub proof fn increasing_is_unique(keys: Seq<Seq<char>>)
    requires
        increasing(keys),
    ensures
        keys.no_duplicates(),
{
    assert forall|i: int, j: int| 0 <= i < keys.len() && 0 <= j < keys.len() && i != j implies keys[i]
        != keys[j] by {
        text::text_lt_irreflexive(keys[i]);
        if i < j {
            assert(text::text_lt(keys[i], keys[j]));
        } else {
            assert(text::text_lt(keys[j], keys[i]));
        }
    }
}

/// The value of the map at the key of position `i` is the value stored there.
proof fn map_of_at<V: View>(entries: Seq<(String, V)>, i: int)
    requires
        increasing(keys_of(entries)),
        0 <= i < entries.len(),
    ensures
        map_of(entries).contains_key(entries[i].0@),
        map_of(entries)[entries[i].0@] == entries[i].1@,
{
    let keys = keys_of(entries);
    increasing_is_unique(keys);
    assert(keys[i] == entries[i].0@);
    assert(keys.contains(keys[i]));
    assert(keys.index_of(keys[i]) == i);
}

/// Replacing the value at position `i` rebinds its key and no other.
proof fn map_of_update<V: View>(entries: Seq<(String, V)>, i: int)
    requires
        increasing(keys_of(entries)),
        0 <= i < entries.len(),
    ensures
        forall|v: V|
            #![trigger entries.update(i, (entries[i].0, v))]
            keys_of(entries.update(i, (entries[i].0, v))) == keys_of(entries) && map_of(
                entries.update(i, (entries[i].0, v)),
            ) == map_of(entries).insert(entries[i].0@, v@),
{
    assert forall|v: V|
        #![trigger entries.update(i, (entries[i].0, v))]
        keys_of(entries.update(i, (entries[i].0, v))) == keys_of(entries) && map_of(
            entries.update(i, (entries[i].0, v)),
        ) == map_of(entries).insert(entries[i].0@, v@) by {
        let after = entries.update(i, (entries[i].0, v));
        assert(keys_of(after) =~= keys_of(entries));
        increasing_is_unique(keys_of(entries));
        map_of_at(after, i);
        assert(map_of(after) =~= map_of(entries).insert(entries[i].0@, v@));
    }
}

/// Inserting a new key at the position where it belongs adds that binding and no other.
proof fn map_of_insert<V: View>(entries: Seq<(String, V)>, i: int, key: String, v: V)
    requires
        increasing(keys_of(entries)),
        0 <= i <= entries.len(),
        forall|j: int| 0 <= j < i ==> text::text_lt(#[trigger] entries[j].0@, key@),
        forall|j: int| i <= j < entries.len() ==> text::text_lt(key@, #[trigger] entries[j].0@),
    ensures
        increasing(keys_of(entries.insert(i, (key, v)))),
        map_of(entries.insert(i, (key, v))) == map_of(entries).insert(key@, v@),
{
    let keys = keys_of(entries);
    let after = entries.insert(i, (key, v));
    assert(keys_of(after) =~= keys.insert(i, key@));
    assert forall|a: int, b: int| 0 <= a < b < after.len() implies #[trigger] text::text_lt(
        keys_of(after)[a],
        keys_of(after)[b],
    ) by {
        let a0 = if a < i {
            a
        } else {
            a - 1
        };
        let b0 = if b < i {
            b
        } else {
            b - 1
        };
        if a != i && b != i {
            assert(text::text_lt(keys[a0], keys[b0]));
        } else if a == i {
            assert(text::text_lt(key@, entries[b0].0@));
        } else {
            assert(text::text_lt(entries[a0].0@, key@));
        }
    }
    increasing_is_unique(keys);
    increasing_is_unique(keys_of(after));
    let bound = map_of(entries).insert(key@, v@);
    assert forall|k: Seq<char>|
        #![trigger map_of(after).dom().contains(k)]
        #![trigger bound.dom().contains(k)]
        map_of(after).dom().contains(k) == bound.dom().contains(k) && (bound.dom().contains(k)
            ==> map_of(after)[k] == bound[k]) by {
        if keys.contains(k) {
            let j = keys.index_of(k);
            let j1 = if j < i {
                j
            } else {
                j + 1
            };
            assert(keys_of(after)[j1] == k);
            map_of_at(after, j1);
            map_of_at(entries, j);
            assert(k != key@) by {
                text::text_lt_irreflexive(k);
                assert(entries[j].0@ == k);
            }
        } else if k == key@ {
            assert(keys_of(after)[i] == k);
            map_of_at(after, i);
        } else if keys_of(after).contains(k) {
            let j1 = keys_of(after).index_of(k);
            let j = if j1 < i {
                j1
            } else {
                j1 - 1
            };
            assert(keys[j] == k);
        }
    }
    assert(map_of(after) =~= bound);
}

/// Removing the entry at position `i` removes its key and no other.
proof fn map_of_remove<V: View>(entries: Seq<(String, V)>, i: int)
    requires
        increasing(keys_of(entries)),
        0 <= i < entries.len(),
    ensures
        increasing(keys_of(entries.remove(i))),
        map_of(entries.remove(i)) == map_of(entries).remove(entries[i].0@),
{
    let keys = keys_of(entries);
    let after = entries.remove(i);
    assert(keys_of(after) =~= keys.remove(i));
    assert forall|a: int, b: int| 0 <= a < b < after.len() implies #[trigger] text::text_lt(
        keys_of(after)[a],
        keys_of(after)[b],
    ) by {
        let a0 = if a < i {
            a
        } else {
            a + 1
        };
        let b0 = if b < i {
            b
        } else {
            b + 1
        };
        assert(text::text_lt(keys[a0], keys[b0]));
    }
    increasing_is_unique(keys);
    increasing_is_unique(keys_of(after));
    let bound = map_of(entries).remove(keys[i]);
    assert forall|k: Seq<char>|
        #![trigger map_of(after).dom().contains(k)]
        #![trigger bound.dom().contains(k)]
        map_of(after).dom().contains(k) == bound.dom().contains(k) && (bound.dom().contains(k)
            ==> map_of(after)[k] == bound[k]) by {
        if keys.contains(k) && k != keys[i] {
            let j = keys.index_of(k);
            let j1 = if j < i {
                j
            } else {
                j - 1
            };
            assert(keys_of(after)[j1] == k);
            map_of_at(after, j1);
            map_of_at(entries, j);
        } else if keys_of(after).contains(k) {
            let j1 = keys_of(after).index_of(k);
            let j = if j1 < i {
                j1
            } else {
                j1 + 1
            };
            assert(keys[j] == k);
        }
    }
    assert(map_of(after) =~= bound);
}

impl<V: View> View for IdMap<V> {
    type V = Map<Seq<char>, V::V>;

    closed spec fn view(&self) -> Map<Seq<char>, V::V> {
        map_of(self.entries@)
    }
}

impl<V: View> IdMap<V> {
    /// The keys stand in increasing order.
    pub closed spec fn wf(&self) -> bool {
        increasing(keys_of(self.entries@))
    }

    /// The keys, in increasing order.
    pub closed spec fn keys(&self) -> Seq<Seq<char>> {
        keys_of(self.entries@)
    }

    /// The keys are exactly those of the map, each once and in increasing order.
    pub proof fn keys_are_domain(&self)
        requires
            self.wf(),
        ensures
            increasing(self.keys()),
            self.keys().no_duplicates(),
            forall|k: Seq<char>| #[trigger] self@.contains_key(k) <==> self.keys().contains(k),
    {
        increasing_is_unique(self.keys());
    }

    /// An empty map.
    pub fn new() -> (map: Self)
        ensures
            map.wf(),
            map@ == Map::<Seq<char>, V::V>::empty(),
    {
        let map = IdMap { entries: Vec::new() };
        assert(map@ =~= Map::<Seq<char>, V::V>::empty());
        map
    }

    /// The position of `key` if it is present, and otherwise the position where it belongs.
    fn locate(&self, key: &str) -> (place: (bool, usize))
        requires
            self.wf(),
        ensures
            place.0 == self@.contains_key(key@),
            place.0 ==> place.1 < self.entries@.len() && self.entries@[place.1 as int].0@ == key@,
            !place.0 ==> {
                &&& place.1 <= self.entries@.len()
                &&& forall|j: int|
                    0 <= j < place.1 ==> text::text_lt(#[trigger] self.entries@[j].0@, key@)
                &&& forall|j: int|
                    place.1 <= j < self.entries@.len() ==> text::text_lt(
                        key@,
                        #[trigger] self.entries@[j].0@,
                    )
            },
    {
        let mut low: usize = 0;
        let mut high: usize = self.entries.len();
        while low < high
            invariant
                self.wf(),
                low <= high <= self.entries@.len(),
                forall|j: int|
                    0 <= j < low ==> text::text_lt(#[trigger] self.entries@[j].0@, key@),
                forall|j: int|
                    high <= j < self.entries@.len() ==> text::text_lt(
                        key@,
                        #[trigger] self.entries@[j].0@,
                    ),
            decreases high - low,
        {
            let middle: usize = low + (high - low) / 2;
            let ghost keys = self.keys();
            assert(keys[middle as int] == self.entries@[middle as int].0@);
            match order_text(self.entries[middle].0.as_str(), key) {
                TextOrder::Before => {
                    assert forall|j: int| 0 <= j < middle + 1 implies text::text_lt(
                        #[trigger] self.entries@[j].0@,
                        key@,
                    ) by {
                        if j < middle {
                            assert(text::text_lt(keys[j], keys[middle as int]));
                            text::text_lt_transitive(keys[j], keys[middle as int], key@);
                        }
                    }
                    low = middle + 1;
                },
                TextOrder::After => {
                    assert forall|j: int| middle <= j < self.entries@.len() implies text::text_lt(
                        key@,
                        #[trigger] self.entries@[j].0@,
                    ) by {
                        if middle < j {
                            assert(text::text_lt(keys[middle as int], keys[j]));
                            text::text_lt_transitive(key@, keys[middle as int], keys[j]);
                        }
                    }
                    high = middle;
                },
                TextOrder::Same => {
                    proof {
                        map_of_at(self.entries@, middle as int);
                    }
                    return (true, middle);
                },
            }
        }
        proof {
            if self@.contains_key(key@) {
                let j = self.keys().index_of(key@);
                assert(self.entries@[j].0@ == key@);
                text::text_lt_irreflexive(key@);
            }
        }
        (false, low)
    }

    /// Whether `key` is bound.
    pub fn contains_key(&self, key: &str) -> (found: bool)
        requires
            self.wf(),
        ensures
            found == self@.contains_key(key@),
    {
        self.locate(key).0
    }

    /// The value bound to `key`.
    pub fn get(&self, key: &str) -> (value: Option<&V>)
        requires
            self.wf(),
        ensures
            match value {
                Some(v) => self@.contains_key(key@) && v@ == self@[key@],
                None => !self@.contains_key(key@),
            },
    {
        let (found, i) = self.locate(key);
        if found {
            proof {
                map_of_at(self.entries@, i as int);
            }
            Some(&self.entries[i].1)
        } else {
            None
        }
    }

    /// The value bound to `key`, for changing it in place.
    pub fn get_mut(&mut self, key: &str) -> (value: Option<&mut V>)
        requires
            old(self).wf(),
        ensures
            final(self).wf(),
            final(self).keys() == old(self).keys(),
            match value {
                Some(v) => {
                    &&& old(self)@.contains_key(key@)
                    &&& (*v)@ == old(self)@[key@]
                    &&& final(self)@ == old(self)@.insert(key@, (*final(v))@)
                },
                None => !old(self)@.contains_key(key@) && final(self)@ == old(self)@,
            },
    {
        let (found, i) = self.locate(key);
        if found {
            proof {
                map_of_at(self.entries@, i as int);
                map_of_update(self.entries@, i as int);
            }
            Some(&mut self.entries[i].1)
        } else {
            None
        }
    }

    /// Binds `key` to `value`, in place of what it was bound to.
    pub fn insert(&mut self, key: String, value: V)
        requires
            old(self).wf(),
        ensures
            final(self).wf(),
            final(self)@ == old(self)@.insert(key@, value@),
    {
        let (found, i) = self.locate(key.as_str());
        if found {
            proof {
                map_of_update(self.entries@, i as int);
            }
            self.entries[i].1 = value;
        } else {
            proof {
                map_of_insert(self.entries@, i as int, key, value);
            }
            self.entries.insert(i, (key, value));
        }
    }

    /// Unbinds `key`.
    pub fn remove(&mut self, key: &str)
        requires
            old(self).wf(),
        ensures
            final(self).wf(),
            final(self)@ == old(self)@.remove(key@),
    {
        let (found, i) = self.locate(key);
        if found {
            proof {
                map_of_remove(self.entries@, i as int);
            }
            self.entries.remove(i);
        } else {
            assert(self@.remove(key@) =~= self@);
        }
    }

    /// The number of keys.
    pub fn len(&self) -> (n: usize)
        ensures
            n == self.keys().len(),
    {
        self.entries.len()
    }

    /// The key at position `i` and its value.
    pub fn at(&self, i: usize) -> (entry: (&str, &V))
        requires
            self.wf(),
            i < self.keys().len(),
        ensures
            entry.0@ == self.keys()[i as int],
            self@.contains_key(entry.0@),
            entry.1@ == self@[entry.0@],
    {
        proof {
            map_of_at(self.entries@, i as int);
        }
        (self.entries[i].0.as_str(), &self.entries[i].1)
    }

    /// The value at position `i`, for changing it in place.
    pub fn at_mut(&mut self, i: usize) -> (value: &mut V)
        requires
            old(self).wf(),
            i < old(self).keys().len(),
        ensures
            final(self).wf(),
            final(self).keys() == old(self).keys(),
            (*value)@ == old(self)@[old(self).keys()[i as int]],
            final(self)@ == old(self)@.insert(old(self).keys()[i as int], (*final(value))@),
    {
        proof {
            map_of_at(self.entries@, i as int);
            map_of_update(self.entries@, i as int);
        }
        &mut self.entries[i].1
    }
}

} // verus!
