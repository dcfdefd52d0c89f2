//! Access to the entry of a hash map for changing it in place.

use vstd::prelude::*;
use vstd::std_specs::hash::obeys_key_model;
use std::collections::HashMap;
use std::hash::Hash;

verus! {

/// The entry of a hash map under `key`, for changing it in place. Calls
/// `HashMap::get_mut`: `None` where the key is absent and the map stays as it
/// is; otherwise the value stored under the key, and whatever the caller
/// leaves in it is what the map then holds under that key. As with the other
/// operations of `HashMap`, this is claimed for key types whose hashing and
/// equality behave.
#[verifier::external_body]
pub(crate) fn entry_mut<'a, K: Hash + Eq, V>(map: &'a mut HashMap<K, V>, key: &K) -> (entry:
    Option<&'a mut V>)
    ensures
        obeys_key_model::<K>() ==> match entry {
            Some(value) => {
                &&& old(map)@.contains_key(*key)
                &&& *value == old(map)@[*key]
                &&& final(map)@ == old(map)@.insert(*key, *final(value))
            },
            None => {
                &&& !old(map)@.contains_key(*key)
                &&& final(map)@ == old(map)@
            },
        },
{
    map.get_mut(key)
}

} // verus!
