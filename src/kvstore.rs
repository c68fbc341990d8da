//! A key/value store without replication, whose `delete` reports whether
//! the key was there.

use vstd::prelude::*;

use crate::kvmap::{BytesMap, KvError};

verus! {

/// Operations of a flat key/value store.
pub trait KVStorage {
    fn get(&self, key: String) -> Result<Vec<u8>, KvError>;

    fn set(&mut self, key: String, buf: Vec<u8>) -> Result<bool, KvError>;

    fn delete(&mut self, key: String) -> Result<bool, KvError>;
}

/// A `KVStorage` held in memory.
#[derive(Debug)]
pub struct MemKVStore {
    store: BytesMap,
}

impl View for MemKVStore {
    type V = Map<Seq<char>, Seq<u8>>;

    closed spec fn view(&self) -> Map<Seq<char>, Seq<u8>> {
        self.store@
    }
}

impl MemKVStore {
    pub closed spec fn wf(&self) -> bool {
        self.store.wf()
    }

    /// An empty store.
    pub fn new() -> (r: MemKVStore)
        ensures
            r.wf(),
            r@ == Map::<Seq<char>, Seq<u8>>::empty(),
    {
        MemKVStore { store: BytesMap::new() }
    }
}

impl KVStorage for MemKVStore {
    /// The value stored under `key`, or `NotFound`.
    fn get(&self, key: String) -> (r: Result<Vec<u8>, KvError>)
        ensures
            self.wf() && self@.contains_key(key@) ==> (r matches Ok(v) && v@ == self@[key@]),
            !self@.contains_key(key@) ==> r == Err::<Vec<u8>, KvError>(KvError::NotFound),
    {
        match self.store.get(&key) {
            Some(v) => Ok(v),
            None => Err(KvError::NotFound),
        }
    }

    /// Stores `buf` under `key`, replacing any earlier value.
    fn set(&mut self, key: String, buf: Vec<u8>) -> (r: Result<bool, KvError>)
        ensures
            r == Ok::<bool, KvError>(true),
            old(self).wf() ==> final(self).wf() && final(self)@ == old(self)@.insert(key@, buf@),
    {
        self.store.insert(key, buf);
        Ok(true)
    }

    /// Removes the value stored under `key`; `Ok(false)` when there was none.
    fn delete(&mut self, key: String) -> (r: Result<bool, KvError>)
        ensures
            r == Ok::<bool, KvError>(old(self)@.contains_key(key@)),
            old(self).wf() ==> final(self).wf() && final(self)@ == old(self)@.remove(key@),
    {
        let existed = self.store.remove(&key);
        Ok(existed)
    }
}

} // verus!
