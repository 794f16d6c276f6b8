//! Maps from needle keys to their locations.
use vstd::prelude::*;
use std::collections::HashMap;
use crate::storage::needle_value::NeedleValue;

verus! {

broadcast use vstd::std_specs::hash::group_hash_axioms;

/// What a map from keys to needle locations hands back for `key`: its location, if any.
pub open spec fn lookup(m: Map<u64, NeedleValue>, key: u64) -> Option<NeedleValue> {
    if m.contains_key(key) {
        Some(m[key])
    } else {
        None
    }
}

/// A map from needle keys to their locations.
pub trait NeedleValueMap {
    /// The entries of the map.
    spec fn entries(&self) -> Map<u64, NeedleValue>;

    /// Sets the location of `key`; returns the location that it had.
    fn set(&mut self, key: u64, needle_value: NeedleValue) -> (r: Option<NeedleValue>)
        ensures
            final(self).entries() == old(self).entries().insert(key, needle_value),
            r == lookup(old(self).entries(), key),
    ;

    /// Removes `key`; returns the location that it had.
    fn delete(&mut self, key: u64) -> (r: Option<NeedleValue>)
        ensures
            final(self).entries() == old(self).entries().remove(key),
            r == lookup(old(self).entries(), key),
    ;

    /// The location of `key`, if it has one.
    fn get(&self, key: u64) -> (r: Option<NeedleValue>)
        ensures
            r == lookup(self.entries(), key),
    ;
}

/// A map from needle keys to their locations, held in memory.
pub struct MemNeedleValueMap {
    hm: HashMap<u64, NeedleValue>,
}

impl MemNeedleValueMap {
    /// An empty map.
    pub fn new() -> (r: MemNeedleValueMap)
        ensures
            r.entries() == Map::<u64, NeedleValue>::empty(),
    {
        MemNeedleValueMap { hm: HashMap::new() }
    }
}

impl NeedleValueMap for MemNeedleValueMap {
    closed spec fn entries(&self) -> Map<u64, NeedleValue> {
        self.hm@
    }

    fn set(&mut self, key: u64, needle_value: NeedleValue) -> (r: Option<NeedleValue>) {
        self.hm.insert(key, needle_value)
    }

    fn delete(&mut self, key: u64) -> (r: Option<NeedleValue>) {
        self.hm.remove(&key)
    }

    fn get(&self, key: u64) -> (r: Option<NeedleValue>) {
        match self.hm.get(&key) {
            Some(v) => Some(*v),
            None => None,
        }
    }
}

} // verus!
