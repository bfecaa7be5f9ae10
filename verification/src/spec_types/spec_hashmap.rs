//! A `HashMap<K, V>` wrapper that behaves exactly like `HashMap<K, V>`.
//!
//! What the map holds is known as far as std's `HashMap` is known to follow
//! its key model for `K` (`obeys_key_model::<K>()`, which vstd establishes
//! for the integer types and `bool`); the contracts are conditional on it.

use std::collections::HashMap;
use std::hash::Hash;
use vstd::prelude::*;
use vstd::std_specs::hash::obeys_key_model;

verus! {

broadcast use vstd::std_specs::hash::group_hash_axioms;

/// Transparent wrapper around `HashMap<K, V>`; its model is the map it holds.
#[derive(Clone, Debug)]
pub struct SpecHashMap<K, V> {
    inner: HashMap<K, V>,
}

impl<K, V> View for SpecHashMap<K, V> {
    type V = Map<K, V>;

    closed spec fn view(&self) -> Map<K, V> {
        self.inner@
    }
}

impl<K: Hash + Eq, V> SpecHashMap<K, V> {
    /// Creates an empty `SpecHashMap`.
    pub fn new() -> (m: Self)
        ensures
            m@ == Map::<K, V>::empty(),
    {
        SpecHashMap { inner: HashMap::new() }
    }

    /// The number of entries in the map.
    pub fn len(&self) -> (n: usize)
        ensures
            obeys_key_model::<K>() ==> n == self@.len(),
    {
        self.inner.len()
    }

    /// Whether the map holds no entries.
    pub fn is_empty(&self) -> (b: bool)
        ensures
            b == self@.is_empty(),
    {
        self.inner.is_empty()
    }

    /// Maps `key` to `value`, returning the value it replaced, if any.
    pub fn insert(&mut self, key: K, value: V) -> (old_value: Option<V>)
        ensures
            obeys_key_model::<K>() ==> {
                &&& final(self)@ == old(self)@.insert(key, value)
                &&& match old_value {
                    Some(v) => old(self)@.contains_key(key) && v == old(self)@[key],
                    None => !old(self)@.contains_key(key),
                }
            },
    {
        self.inner.insert(key, value)
    }

    /// The value that `key` maps to, if any.
    pub fn get(&self, key: &K) -> (value: Option<&V>)
        ensures
            obeys_key_model::<K>() ==> match value {
                Some(v) => self@.contains_key(*key) && *v == self@[*key],
                None => !self@.contains_key(*key),
            },
    {
        self.inner.get(key)
    }

    /// Removes `key` from the map, returning the value it mapped to, if any.
    pub fn remove(&mut self, key: &K) -> (value: Option<V>)
        ensures
            obeys_key_model::<K>() ==> {
                &&& final(self)@ == old(self)@.remove(*key)
                &&& match value {
                    Some(v) => old(self)@.contains_key(*key) && v == old(self)@[*key],
                    None => !old(self)@.contains_key(*key),
                }
            },
    {
        self.inner.remove(key)
    }
}

impl<K, V> From<HashMap<K, V>> for SpecHashMap<K, V> {
    fn from(inner: HashMap<K, V>) -> (m: Self)
        ensures
            m@ == inner@,
    {
        SpecHashMap { inner }
    }
}

impl<K, V> vstd::std_specs::convert::FromSpecImpl<HashMap<K, V>> for SpecHashMap<K, V> {
    open spec fn obeys_from_spec() -> bool {
        false
    }

    open spec fn from_spec(inner: HashMap<K, V>) -> Self {
        arbitrary()
    }
}

impl<K, V> From<SpecHashMap<K, V>> for HashMap<K, V> {
    fn from(spec_hashmap: SpecHashMap<K, V>) -> (m: Self)
        ensures
            m@ == spec_hashmap@,
    {
        spec_hashmap.inner
    }
}

impl<K, V> vstd::std_specs::convert::FromSpecImpl<SpecHashMap<K, V>> for HashMap<K, V> {
    open spec fn obeys_from_spec() -> bool {
        false
    }

    open spec fn from_spec(spec_hashmap: SpecHashMap<K, V>) -> Self {
        arbitrary()
    }
}

impl<K, V> core::ops::Deref for SpecHashMap<K, V> {
    type Target = HashMap<K, V>;

    fn deref(&self) -> (m: &HashMap<K, V>)
        ensures
            m@ == self@,
    {
        &self.inner
    }
}

impl<K: Hash + Eq, V> Default for SpecHashMap<K, V> {
    fn default() -> (m: Self)
        ensures
            m@ == Map::<K, V>::empty(),
    {
        SpecHashMap::new()
    }
}

/// After inserting a key, looking it up gives the inserted value, and the
/// rest of the map is unchanged.
pub proof fn lemma_insert_then_get<K, V>(m: Map<K, V>, key: K, value: V, other: K)
    ensures
        m.insert(key, value).contains_key(key),
        m.insert(key, value)[key] == value,
        other != key ==> (m.insert(key, value).contains_key(other) == m.contains_key(other)),
        other != key && m.contains_key(other) ==> m.insert(key, value)[other] == m[other],
{
}

/// Removing a key that was just inserted into a map without it gives back
/// the map it started from.
pub proof fn lemma_insert_then_remove<K, V>(m: Map<K, V>, key: K, value: V)
    requires
        !m.contains_key(key),
    ensures
        m.insert(key, value).remove(key) == m,
{
    assert(m.insert(key, value).remove(key) =~= m);
}

} // verus!
