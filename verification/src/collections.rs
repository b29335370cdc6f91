//! Walking maps and sets of tag numbers as plain vectors.
use std::collections::{BTreeMap, HashMap, HashSet};
use std::sync::Arc;
use vstd::prelude::*;

verus! {

broadcast use {
    vstd::std_specs::btree::group_btree_axioms,
    vstd::std_specs::hash::group_hash_axioms,
    vstd::seq_lib::group_seq_properties,
};

/// The keys of a map, each once.
pub fn sorted_keys<V>(map: &BTreeMap<u32, V>) -> (keys: Vec<u32>)
    ensures
        keys@.to_set() == map@.dom(),
        keys@.no_duplicates(),
{
    let mut keys: Vec<u32> = Vec::new();
    for key in it: map.keys()
        invariant
            keys@ =~= it.seq().unref().take(it.index() as int),
    {
        keys.push(*key);
    }
    keys
}

/// The keys of a hash map, each once, in no particular order.
pub fn hash_keys<V>(map: &HashMap<u32, V>) -> (keys: Vec<u32>)
    ensures
        keys@.to_set() == map@.dom(),
        keys@.no_duplicates(),
{
    let mut keys: Vec<u32> = Vec::new();
    for key in it: map.keys()
        invariant
            keys@ =~= it.seq().unref().take(it.index() as int),
    {
        keys.push(*key);
    }
    keys
}

/// The members of a hash set, each once, in no particular order.
pub fn hash_members(set: &HashSet<u32>) -> (members: Vec<u32>)
    ensures
        members@.to_set() == set@,
        members@.no_duplicates(),
{
    let mut members: Vec<u32> = Vec::new();
    for member in it: set.iter()
        invariant
            members@ =~= it.seq().unref().take(it.index() as int),
    {
        members.push(*member);
    }
    members
}

/// `Arc::clone`: another handle on the same value.
#[verifier::external_body]
pub(crate) fn share<T>(value: &Arc<T>) -> (other: Arc<T>)
    ensures
        other == *value,
{
    Arc::clone(value)
}

} // verus!
