//! An inverted index: under each key, the values that refer to it, in the
//! order in which they were entered.

use vstd::prelude::*;
use vstd::std_specs::hash::obeys_key_model;
use std::collections::HashMap;
use std::hash::Hash;
use crate::entry::entry_mut;

verus! {

/// The values entered under `key` so far, first entered first; none where the
/// key is unknown.
pub open spec fn values_of<K, V>(table: Map<K, Seq<V>>, key: K) -> Seq<V> {
    if table.contains_key(key) {
        table[key]
    } else {
        Seq::empty()
    }
}

/// An index from keys to the values entered under them. The index keeps its
/// entries in a hash map, so what its operations promise holds for key types
/// whose hashing and equality behave (`obeys_key_model`).
pub struct InvertedIndex<K, V> {
    look_up_table: HashMap<K, Vec<V>>,
}

impl<K, V> View for InvertedIndex<K, V> {
    type V = Map<K, Seq<V>>;

    /// Every key that was ever entered, with its values in order of entry.
    closed spec fn view(&self) -> Map<K, Seq<V>> {
        Map::new(
            |key: K| self.look_up_table@.contains_key(key),
            |key: K| self.look_up_table@[key]@,
        )
    }
}

impl<K: Hash + Eq, V> InvertedIndex<K, V> {
    /// An index without keys.
    pub fn new() -> (index: InvertedIndex<K, V>)
        ensures
            index@ == Map::<K, Seq<V>>::empty(),
    {
        let index = InvertedIndex { look_up_table: HashMap::new() };
        assert(index@ =~= Map::<K, Seq<V>>::empty());
        index
    }

    /// Enter `value` under `key`, after the values already there.
    pub fn insert_single(&mut self, key: K, value: V)
        ensures
            obeys_key_model::<K>() ==> final(self)@ == old(self)@.insert(
                key,
                values_of(old(self)@, key).push(value),
            ),
    {
        match entry_mut(&mut self.look_up_table, &key) {
            Some(values) => {
                values.push(value);
            },
            None => {
                let mut values = Vec::new();
                values.push(value);
                self.look_up_table.insert(key, values);
            },
        }
        proof {
            if obeys_key_model::<K>() {
                assert(self@ =~= old(self)@.insert(key, values_of(old(self)@, key).push(value)));
            }
        }
    }

    /// Enter `values` under `key`, in their order, after the values already
    /// there. A key entered with no values is known all the same.
    pub fn insert_multiple(&mut self, key: K, values: Vec<V>)
        ensures
            obeys_key_model::<K>() ==> final(self)@ == old(self)@.insert(
                key,
                values_of(old(self)@, key) + values@,
            ),
    {
        let ghost entered = values@;
        let mut values = values;
        match entry_mut(&mut self.look_up_table, &key) {
            Some(stored_values) => {
                stored_values.append(&mut values);
            },
            None => {
                self.look_up_table.insert(key, values);
            },
        }
        proof {
            if obeys_key_model::<K>() {
                assert(self@ =~= old(self)@.insert(key, values_of(old(self)@, key) + entered));
            }
        }
    }

    /// The value entered first under `key`, if there is one.
    pub fn peek_first(&self, key: &K) -> (first: Option<&V>)
        ensures
            obeys_key_model::<K>() ==> match first {
                Some(value) => values_of(self@, *key).len() > 0 && *value == values_of(
                    self@,
                    *key,
                )[0],
                None => values_of(self@, *key).len() == 0,
            },
    {
        match self.look_up_table.get(key) {
            Some(values) => {
                if values.len() > 0 {
                    Some(&values[0])
                } else {
                    None
                }
            },
            None => None,
        }
    }

    /// All values entered under `key`, in order of entry; `None` for a key
    /// that was never entered.
    pub fn peek_all(&self, key: &K) -> (all: Option<&Vec<V>>)
        ensures
            obeys_key_model::<K>() ==> match all {
                Some(values) => self@.contains_key(*key) && values@ == self@[*key],
                None => !self@.contains_key(*key),
            },
    {
        self.look_up_table.get(key)
    }
}

} // verus!
