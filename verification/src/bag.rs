//! A bag: any number of items under each key, handed back first in, first out.

use vstd::prelude::*;
use vstd::std_specs::hash::obeys_key_model;
use std::collections::{HashMap, VecDeque};
use std::hash::Hash;
use crate::entry::entry_mut;

verus! {

/// The items waiting under `key`, oldest first; none where the key is absent.
pub open spec fn queue_of<K, V>(queues: Map<K, Seq<V>>, key: K) -> Seq<V> {
    if queues.contains_key(key) {
        queues[key]
    } else {
        Seq::empty()
    }
}

/// The queues after `item` has joined the end of the queue under `key`.
pub open spec fn queues_add<K, V>(queues: Map<K, Seq<V>>, key: K, item: V) -> Map<K, Seq<V>> {
    queues.insert(key, queue_of(queues, key).push(item))
}

/// The queues after the oldest item under `key` has left. A key whose last
/// item left is no longer in the map.
pub open spec fn queues_retrieve<K, V>(queues: Map<K, Seq<V>>, key: K) -> Map<K, Seq<V>> {
    if queue_of(queues, key).len() <= 1 {
        queues.remove(key)
    } else {
        queues.insert(key, queue_of(queues, key).drop_first())
    }
}

/// A bag of items under keys. Items under one key leave in the order in
/// which they came. The bag keeps its items in a hash map, so what its
/// operations promise holds for key types whose hashing and equality behave
/// (`obeys_key_model`), as do the promises of the hash map itself.
pub struct Bag<K, V> {
    items: HashMap<K, VecDeque<V>>,
}

impl<K, V> View for Bag<K, V> {
    type V = Map<K, Seq<V>>;

    /// The keys that have items waiting, each with its items, oldest first.
    closed spec fn view(&self) -> Map<K, Seq<V>> {
        Map::new(
            |key: K| self.items@.contains_key(key) && self.items@[key]@.len() > 0,
            |key: K| self.items@[key]@,
        )
    }
}

impl<K: Hash + Eq, V> Bag<K, V> {
    /// No key of the view has an empty queue.
    pub proof fn lemma_no_empty_queue(&self)
        ensures
            forall|key: K| self@.contains_key(key) ==> (#[trigger] self@[key]).len() > 0,
    {
    }

    /// An empty bag.
    pub fn new() -> (bag: Bag<K, V>)
        ensures
            bag@ == Map::<K, Seq<V>>::empty(),
    {
        let bag = Bag { items: HashMap::new() };
        assert(bag@ =~= Map::<K, Seq<V>>::empty());
        bag
    }

    /// Put `item` last in the queue under `key`.
    pub fn add(&mut self, key: K, item: V)
        ensures
            obeys_key_model::<K>() ==> final(self)@ == queues_add(old(self)@, key, item),
    {
        match entry_mut(&mut self.items, &key) {
            Some(queue) => {
                queue.push_back(item);
            },
            None => {
                let mut queue = VecDeque::new();
                queue.push_back(item);
                self.items.insert(key, queue);
            },
        }
        proof {
            if obeys_key_model::<K>() {
                assert(self.items@[key]@ == queue_of(old(self)@, key).push(item));
                assert(self@ =~= queues_add(old(self)@, key, item));
            }
        }
    }

    /// Take the oldest item under `key`, if there is one.
    pub fn retrieve(&mut self, key: &K) -> (item: Option<V>)
        ensures
            obeys_key_model::<K>() ==> item == if queue_of(old(self)@, *key).len() > 0 {
                Some(queue_of(old(self)@, *key)[0])
            } else {
                None
            },
            obeys_key_model::<K>() ==> final(self)@ == queues_retrieve(old(self)@, *key),
    {
        let item = match entry_mut(&mut self.items, key) {
            Some(queue) => queue.pop_front(),
            None => None,
        };
        proof {
            if obeys_key_model::<K>() {
                assert(self@ =~= queues_retrieve(old(self)@, *key));
            }
        }
        item
    }

    /// Whether any item waits under `key`.
    pub fn contains_items(&self, key: &K) -> (found: bool)
        ensures
            obeys_key_model::<K>() ==> found == (queue_of(self@, *key).len() > 0),
    {
        match self.items.get(key) {
            Some(queue) => queue.len() > 0,
            None => false,
        }
    }

    /// How many items wait under `key`.
    pub fn count_items(&self, key: &K) -> (count: usize)
        ensures
            obeys_key_model::<K>() ==> count == queue_of(self@, *key).len(),
    {
        match self.items.get(key) {
            Some(queue) => queue.len(),
            None => 0,
        }
    }
}

} // verus!
