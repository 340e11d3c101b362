//! The versioned cache entry and the metadata contract.

use vstd::prelude::*;
use crate::cache::CacheKey;
use crate::cache::CacheValue;
use crate::clock;
use crate::Millis;

verus! {

/// The contract a pluggable metadata type must meet.
///
/// Metadata is carried along with every entry and read only for enrichment
/// and search, never by the eviction or persistence logic. Each executable
/// method is pinned to a specification-level twin, so that engine contracts
/// can speak about metadata without knowing the concrete type.
pub trait EntryMetadata: Sized {
    /// The metadata value a freshly constructed entry carries.
    spec fn spec_default() -> Self;

    /// The approximate payload size this metadata reports, if any.
    spec fn spec_size_bytes(&self) -> Option<u64>;

    /// The category label this metadata reports, if any.
    spec fn spec_category(&self) -> Option<Seq<char>>;

    /// Produce the default metadata value.
    fn meta_default() -> (r: Self)
        ensures
            r == Self::spec_default(),
    ;

    /// Produce a copy equal to `self`.
    fn meta_clone(&self) -> (r: Self)
        ensures
            r == *self,
    ;

    /// Report the approximate payload size, if known.
    fn size_bytes(&self) -> (r: Option<u64>)
        ensures
            r == self.spec_size_bytes(),
    ;

    /// Report the category label, if any.
    fn category(&self) -> (r: Option<&str>)
        ensures
            match r {
                Some(s) => self.spec_category() == Some(s@),
                None => self.spec_category() is None,
            },
    ;
}

impl EntryMetadata for () {
    open spec fn spec_default() -> Self {
        ()
    }

    open spec fn spec_size_bytes(&self) -> Option<u64> {
        None
    }

    open spec fn spec_category(&self) -> Option<Seq<char>> {
        None
    }

    fn meta_default() -> (r: Self) {
    }

    fn meta_clone(&self) -> (r: Self) {
    }

    fn size_bytes(&self) -> (r: Option<u64>) {
        None
    }

    fn category(&self) -> (r: Option<&str>) {
        None
    }
}

/// One versioned record: a key, a value, optional metadata, the creation
/// time, access statistics, and an optional time-to-live window.
pub struct CacheEntry<K, V, M = ()> {
    /// The key this version is stored under.
    pub key: K,
    /// The cached value.
    pub value: V,
    /// Pluggable metadata, read only for enrichment and search.
    pub metadata: M,
    /// Creation time.
    pub timestamp: Millis,
    /// Time of the most recent recorded access.
    pub last_accessed: Millis,
    /// How many times this version was handed out.
    pub access_count: u64,
    /// Time-to-live: the entry is expired once its age exceeds this window.
    pub ttl: Option<Millis>,
}

impl<K, V, M> CacheEntry<K, V, M> {
    /// The access-time invariant: an entry is never marked as accessed
    /// before it was created. It holds after creation and every recorded
    /// access preserves it.
    pub open spec fn wf(self) -> bool {
        self.last_accessed >= self.timestamp
    }

    /// Whether the entry is expired at time `now`: a time-to-live is set
    /// and the age exceeds it. A negative time-to-live makes the entry
    /// expired from the moment of its creation.
    pub open spec fn spec_expired_at(self, now: Millis) -> bool {
        match self.ttl {
            Some(t) => now - self.timestamp > t,
            None => false,
        }
    }

    /// The entry as it stands after one access recorded at time `now`:
    /// the last-access time never falls below the creation time, so the
    /// access-time invariant survives even a backwards clock.
    pub open spec fn spec_accessed(self, now: Millis) -> Self {
        CacheEntry {
            last_accessed: if now >= self.timestamp {
                now
            } else {
                self.timestamp
            },
            access_count: if self.access_count < u64::MAX {
                (self.access_count + 1) as u64
            } else {
                u64::MAX
            },
            ..self
        }
    }

    /// Decide expiry against an explicit time.
    pub fn is_expired_at(&self, now: Millis) -> (r: bool)
        ensures
            r == self.spec_expired_at(now),
    {
        match self.ttl {
            Some(t) => (now as i128) - (self.timestamp as i128) > (t as i128),
            None => false,
        }
    }

    /// Decide expiry against the wall clock. An entry without a
    /// time-to-live is never expired, whatever the clock returned.
    pub fn is_expired(&self) -> (r: bool)
        ensures
            self.ttl is None ==> r == false,
            exists|now: Millis| r == self.spec_expired_at(now),
    {
        let now = clock::now_millis();
        self.is_expired_at(now)
    }

    /// The entry's age at time `now`, as a millisecond count.
    pub fn age_at(&self, now: Millis) -> (r: i128)
        ensures
            r == now - self.timestamp,
    {
        (now as i128) - (self.timestamp as i128)
    }

    /// The entry's age against the wall clock: the difference between some
    /// clock reading and the creation time, so it lies in the range that
    /// such a difference can take.
    pub fn age(&self) -> (r: i128)
        ensures
            i64::MIN - self.timestamp <= r <= i64::MAX - self.timestamp,
    {
        let now = clock::now_millis();
        self.age_at(now)
    }

    /// Record one access at an explicit time: the access count grows by one
    /// (saturating at its maximum) and the last-access time becomes `now`,
    /// or stays at the creation time when `now` lies before it, so the
    /// access-time invariant holds afterwards whatever the clock said.
    pub fn record_access_at(&mut self, now: Millis)
        ensures
            *final(self) == old(self).spec_accessed(now),
            final(self).wf(),
    {
        self.last_accessed = if now >= self.timestamp {
            now
        } else {
            self.timestamp
        };
        if self.access_count < u64::MAX {
            self.access_count = self.access_count + 1;
        }
    }

    /// Record one access against the wall clock.
    pub fn record_access(&mut self)
        ensures
            exists|now: Millis| *final(self) == old(self).spec_accessed(now),
    {
        let now = clock::now_millis();
        self.record_access_at(now);
    }

    /// Attach a time-to-live window to the entry.
    pub fn with_ttl(self, ttl: Millis) -> (r: Self)
        ensures
            r == (CacheEntry { ttl: Some(ttl), ..self }),
    {
        CacheEntry { ttl: Some(ttl), ..self }
    }
}

impl<K: CacheKey, V: CacheValue, M: EntryMetadata> CacheEntry<K, V, M> {
    /// Produce a copy equal to `self`.
    pub fn entry_clone(&self) -> (r: Self)
        ensures
            r == *self,
    {
        CacheEntry {
            key: self.key.key_clone(),
            value: self.value.value_clone(),
            metadata: self.metadata.meta_clone(),
            timestamp: self.timestamp,
            last_accessed: self.last_accessed,
            access_count: self.access_count,
            ttl: self.ttl,
        }
    }
}

impl<K, V, M: EntryMetadata> CacheEntry<K, V, M> {
    /// Build an entry created at time `now`, with explicit metadata: the
    /// access count starts at zero, no time-to-live is set, and the
    /// last-access time equals the creation time.
    pub fn with_metadata_at(key: K, value: V, metadata: M, now: Millis) -> (r: Self)
        ensures
            r == (CacheEntry {
                key,
                value,
                metadata,
                timestamp: now,
                last_accessed: now,
                access_count: 0u64,
                ttl: None::<Millis>,
            }),
            r.wf(),
    {
        CacheEntry {
            key,
            value,
            metadata,
            timestamp: now,
            last_accessed: now,
            access_count: 0,
            ttl: None,
        }
    }

    /// Build an entry with explicit metadata, created now.
    pub fn with_metadata(key: K, value: V, metadata: M) -> (r: Self)
        ensures
            r.key == key,
            r.value == value,
            r.metadata == metadata,
            r.access_count == 0,
            r.ttl is None,
            r.last_accessed == r.timestamp,
            r.wf(),
    {
        let now = clock::now_millis();
        Self::with_metadata_at(key, value, metadata, now)
    }

    /// Build an entry created at time `now` with default metadata.
    pub fn new_at(key: K, value: V, now: Millis) -> (r: Self)
        ensures
            r == (CacheEntry {
                key,
                value,
                metadata: M::spec_default(),
                timestamp: now,
                last_accessed: now,
                access_count: 0u64,
                ttl: None::<Millis>,
            }),
            r.wf(),
    {
        Self::with_metadata_at(key, value, M::meta_default(), now)
    }

    /// Build an entry with default metadata, created now.
    pub fn new(key: K, value: V) -> (r: Self)
        ensures
            r.key == key,
            r.value == value,
            r.metadata == M::spec_default(),
            r.access_count == 0,
            r.ttl is None,
            r.last_accessed == r.timestamp,
            r.wf(),
    {
        let now = clock::now_millis();
        Self::new_at(key, value, now)
    }
}

} // verus!
