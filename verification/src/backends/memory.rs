//! The in-memory storage backend.

use vstd::prelude::*;
use crate::cache::CacheKey;
use crate::cache::CacheValue;
use crate::entry::CacheEntry;
use crate::entry::EntryMetadata;
use crate::error::CacheError;
use crate::storage::map_contains_key;
use crate::storage::map_total;
use crate::storage::map_wf;
use crate::storage::EntryMap;
use crate::storage::MapModel;

verus! {

/// A backend that holds the saved map as plain data. Sharing one store
/// between several handles is the embedding application's affair; the
/// store itself is verified here.
pub struct MemoryBackend<K, V, M = ()> {
    data: EntryMap<K, V, M>,
}

impl<K: CacheKey, V: CacheValue, M: EntryMetadata> MemoryBackend<K, V, M> {
    /// What the backend currently holds.
    pub closed spec fn stored(self) -> MapModel<K, V, M> {
        self.data@
    }

    /// The backend's own invariant: what it holds is a well-formed map.
    pub open spec fn inv(self) -> bool {
        map_wf(self.stored())
    }

    /// Build an empty backend.
    pub fn new() -> (r: Self)
        ensures
            r.stored().len() == 0,
            r.inv(),
    {
        MemoryBackend { data: EntryMap::new() }
    }

    /// Store a full snapshot, replacing whatever was held before.
    pub fn save(&mut self, entries: &EntryMap<K, V, M>) -> (r: Result<(), CacheError>)
        requires
            map_wf(entries@),
        ensures
            r is Ok,
            final(self).stored() == entries@,
            final(self).inv(),
    {
        self.data = entries.deep_clone();
        Ok(())
    }

    /// Hand back a copy of everything held.
    pub fn load(&self) -> (r: Result<EntryMap<K, V, M>, CacheError>)
        ensures
            match r {
                Ok(m) => m@ == self.stored(),
                Err(_) => false,
            },
    {
        Ok(self.data.deep_clone())
    }

    /// Drop the history stored for `key`, if any.
    pub fn remove(&mut self, key: &K) -> (r: Result<(), CacheError>)
        requires
            old(self).inv(),
        ensures
            r is Ok,
            final(self).stored() == crate::storage::spec_remove_key(old(self).stored(), *key),
            final(self).inv(),
    {
        let _ = self.data.remove_key(key);
        Ok(())
    }

    /// Drop everything held.
    pub fn clear(&mut self) -> (r: Result<(), CacheError>)
        ensures
            r is Ok,
            final(self).stored().len() == 0,
            final(self).inv(),
    {
        self.data.clear();
        Ok(())
    }

    /// Whether a history is stored for `key`.
    pub fn contains(&self, key: &K) -> (r: Result<bool, CacheError>)
        ensures
            match r {
                Ok(b) => b == map_contains_key(self.stored(), *key),
                Err(_) => false,
            },
    {
        Ok(self.data.contains_key(key))
    }

    /// An estimate of the held size: the entry count scaled by the
    /// in-memory size of one entry record, saturating at the largest
    /// machine value.
    pub fn size_bytes(&self) -> (r: Result<u64, CacheError>)
        requires
            map_total(self.stored()) <= usize::MAX,
        ensures
            match r {
                Ok(n) => n == crate::cache::sat64(
                    map_total(self.stored()) * vstd::layout::size_of::<CacheEntry<K, V, M>>(),
                ),
                Err(_) => false,
            },
    {
        let total = self.data.total_entries();
        let per = core::mem::size_of::<CacheEntry<K, V, M>>();
        proof {
            vstd::arithmetic::mul::lemma_mul_upper_bound(
                total as int,
                0xFFFF_FFFF_FFFF_FFFFint,
                per as int,
                0xFFFF_FFFF_FFFF_FFFFint,
            );
            vstd::arithmetic::mul::lemma_mul_nonnegative(total as int, per as int);
        }
        let wide: u128 = (total as u128) * (per as u128);
        if wide > u64::MAX as u128 {
            Ok(u64::MAX)
        } else {
            Ok(wide as u64)
        }
    }

    /// Compaction is a no-op for an in-memory store.
    pub fn compact(&self) -> (r: Result<(), CacheError>)
        ensures
            r is Ok,
    {
        Ok(())
    }
}

} // verus!
