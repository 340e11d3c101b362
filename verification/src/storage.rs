//! The entry map: keys to ordered version histories.
//!
//! The map is held as a vector of key/history pairs in insertion order.
//! Insertion order is what makes the eviction tie-break deterministic: when
//! two keys tie on a metric, the one inserted earlier is the victim. The
//! mathematical model is the sequence of pairs itself, each history seen as
//! a sequence of entries.

use vstd::prelude::*;
use crate::cache::CacheKey;
use crate::cache::CacheValue;
use crate::entry::CacheEntry;
use crate::entry::EntryMetadata;

verus! {

/// The model of an entry map: key/history pairs in insertion order.
pub type MapModel<K, V, M> = Seq<(K, Seq<CacheEntry<K, V, M>>)>;

/// No two pairs hold keys that stand for the same slot.
pub open spec fn keys_unique<K: CacheKey, V, M>(m: MapModel<K, V, M>) -> bool {
    forall|i: int, j: int|
        0 <= i < m.len() && 0 <= j < m.len() && i != j ==> !(#[trigger] m[i]).0.key_eqv(
            &(#[trigger] m[j]).0,
        )
}

/// Every history holds at least one version: a key whose history drains is
/// removed from the map, never left behind empty.
pub open spec fn histories_nonempty<K, V, M>(m: MapModel<K, V, M>) -> bool {
    forall|i: int| 0 <= i < m.len() ==> (#[trigger] m[i]).1.len() > 0
}

/// Every version in a history carries the key its history is stored under.
pub open spec fn keys_consistent<K: CacheKey, V, M>(m: MapModel<K, V, M>) -> bool {
    forall|i: int, j: int|
        0 <= i < m.len() && 0 <= j < m[i].1.len() ==> (#[trigger] m[i].1[j]).key.key_eqv(&m[i].0)
}

/// The entry-map invariant.
pub open spec fn map_wf<K: CacheKey, V, M>(m: MapModel<K, V, M>) -> bool {
    keys_unique(m) && histories_nonempty(m) && keys_consistent(m)
}

/// Whether some pair's key stands for the slot of `k`.
pub open spec fn map_contains_key<K: CacheKey, V, M>(m: MapModel<K, V, M>, k: K) -> bool {
    exists|i: int| 0 <= i < m.len() && (#[trigger] m[i]).0.key_eqv(&k)
}

/// The index of the pair for `k`; meaningful only when the map contains
/// `k`, and then unique as long as keys are unique.
pub open spec fn map_index_of<K: CacheKey, V, M>(m: MapModel<K, V, M>, k: K) -> int {
    choose|i: int| 0 <= i < m.len() && (#[trigger] m[i]).0.key_eqv(&k)
}

/// The history stored for `k`; meaningful only when the map contains `k`.
pub open spec fn map_history_of<K: CacheKey, V, M>(m: MapModel<K, V, M>, k: K) -> Seq<
    CacheEntry<K, V, M>,
> {
    m[map_index_of(m, k)].1
}

/// The total number of entries across all histories.
pub open spec fn map_total<K, V, M>(m: MapModel<K, V, M>) -> int
    decreases m.len(),
{
    if m.len() == 0 {
        0
    } else {
        map_total(m.drop_last()) + m.last().1.len()
    }
}

/// Two indices whose keys both stand for the slot of `k` are the same
/// index, as long as keys are unique.
pub proof fn lemma_index_unique<K: CacheKey, V, M>(m: MapModel<K, V, M>, k: K, i: int, j: int)
    requires
        keys_unique(m),
        0 <= i < m.len(),
        0 <= j < m.len(),
        m[i].0.key_eqv(&k),
        m[j].0.key_eqv(&k),
    ensures
        i == j,
{
    if i != j {
        m[j].0.lemma_eqv_symmetric(&k);
        m[i].0.lemma_eqv_transitive(&k, &m[j].0);
    }
}

/// The total entry count is never negative.
pub proof fn lemma_total_nonneg<K, V, M>(m: MapModel<K, V, M>)
    ensures
        map_total(m) >= 0,
    decreases m.len(),
{
    if m.len() > 0 {
        lemma_total_nonneg(m.drop_last());
    }
}

/// Extending a prefix of the map by one pair grows its total by that
/// pair's history length.
pub proof fn lemma_total_take_step<K, V, M>(m: MapModel<K, V, M>, i: int)
    requires
        0 <= i < m.len(),
    ensures
        map_total(m.take(i + 1)) == map_total(m.take(i)) + m[i].1.len(),
{
    assert(m.take(i + 1).drop_last() =~= m.take(i));
    assert(m.take(i + 1).last() == m[i]);
}

/// A prefix of the map never holds more entries than the whole map.
pub proof fn lemma_total_take_bound<K, V, M>(m: MapModel<K, V, M>, i: int)
    requires
        0 <= i <= m.len(),
    ensures
        map_total(m.take(i)) <= map_total(m),
    decreases m.len() - i,
{
    if i == m.len() {
        assert(m.take(i) =~= m);
    } else {
        lemma_total_take_step(m, i);
        lemma_total_take_bound(m, i + 1);
    }
}

/// Removing the pair at `i` shrinks the total by that history's length.
pub proof fn lemma_total_remove<K, V, M>(m: MapModel<K, V, M>, i: int)
    requires
        0 <= i < m.len(),
    ensures
        map_total(m.remove(i)) == map_total(m) - m[i].1.len(),
    decreases m.len(),
{
    if i == m.len() - 1 {
        assert(m.remove(i) =~= m.drop_last());
    } else {
        assert(m.remove(i).drop_last() =~= m.drop_last().remove(i));
        assert(m.remove(i).last() == m.last());
        lemma_total_remove(m.drop_last(), i);
    }
}

/// Replacing the history at `i` changes the total by the difference of the
/// history lengths.
pub proof fn lemma_total_update<K, V, M>(
    m: MapModel<K, V, M>,
    i: int,
    p: (K, Seq<CacheEntry<K, V, M>>),
)
    requires
        0 <= i < m.len(),
    ensures
        map_total(m.update(i, p)) == map_total(m) - m[i].1.len() + p.1.len(),
    decreases m.len(),
{
    if i == m.len() - 1 {
        assert(m.update(i, p).drop_last() =~= m.drop_last());
        assert(m.update(i, p).last() == p);
    } else {
        assert(m.update(i, p).drop_last() =~= m.drop_last().update(i, p));
        assert(m.update(i, p).last() == m.last());
        lemma_total_update(m.drop_last(), i, p);
    }
}

/// Appending a pair grows the total by its history length.
pub proof fn lemma_total_push<K, V, M>(m: MapModel<K, V, M>, p: (K, Seq<CacheEntry<K, V, M>>))
    ensures
        map_total(m.push(p)) == map_total(m) + p.1.len(),
{
    assert(m.push(p).drop_last() =~= m);
    assert(m.push(p).last() == p);
}

/// A history after a new version is appended under a cap: the version is
/// pushed, and if the history then exceeds the cap, the oldest version is
/// dropped.
pub open spec fn push_trunc<K, V, M>(
    h: Seq<CacheEntry<K, V, M>>,
    e: CacheEntry<K, V, M>,
    cap: int,
) -> Seq<CacheEntry<K, V, M>> {
    let p = h.push(e);
    if p.len() > cap {
        p.drop_first()
    } else {
        p
    }
}

/// A history after a whole sequence of versions is appended one by one
/// under a cap.
pub open spec fn apply_adds<K, V, M>(
    h: Seq<CacheEntry<K, V, M>>,
    es: Seq<CacheEntry<K, V, M>>,
    cap: int,
) -> Seq<CacheEntry<K, V, M>>
    decreases es.len(),
{
    if es.len() == 0 {
        h
    } else {
        apply_adds(push_trunc(h, es.first(), cap), es.drop_first(), cap)
    }
}

/// Law: appending any sequence of versions to a history within a positive
/// cap leaves exactly the newest versions — the suffix of everything seen,
/// cut to the cap — dropping the oldest first. In particular the history
/// never grows beyond the cap, and no appended version is lost while the
/// cap has room.
pub proof fn lemma_apply_adds_keeps_newest<K, V, M>(
    h: Seq<CacheEntry<K, V, M>>,
    es: Seq<CacheEntry<K, V, M>>,
    cap: int,
)
    requires
        cap >= 1,
        h.len() <= cap,
    ensures
        apply_adds(h, es, cap) == (h + es).skip(
            if h.len() + es.len() <= cap {
                0
            } else {
                h.len() + es.len() - cap
            },
        ),
        apply_adds(h, es, cap).len() <= cap,
    decreases es.len(),
{
    let all = h + es;
    if es.len() == 0 {
        assert(all.skip(0) =~= h);
    } else {
        let e0 = es.first();
        let h2 = push_trunc(h, e0, cap);
        lemma_apply_adds_keeps_newest(h2, es.drop_first(), cap);
        let all2 = h2 + es.drop_first();
        if h.len() + 1 <= cap {
            assert(h2 =~= h.push(e0));
            assert(all2 =~= all);
        } else {
            assert(h2 =~= h.push(e0).drop_first());
            assert(all2 =~= all.skip(1));
            let s = if h.len() + es.len() <= cap {
                0int
            } else {
                h.len() + es.len() - cap
            };
            let s2 = if h2.len() + es.drop_first().len() <= cap {
                0int
            } else {
                h2.len() + es.drop_first().len() - cap
            };
            assert(all.skip(s) =~= all2.skip(s2));
        }
    }
}

/// Law, from the empty history: after a sequence of appends under a
/// positive cap, every appended version survives while they fit within
/// the cap, and exactly the newest `cap` of them survive otherwise.
pub proof fn lemma_adds_from_empty<K, V, M>(es: Seq<CacheEntry<K, V, M>>, cap: int)
    requires
        cap >= 1,
    ensures
        apply_adds(Seq::empty(), es, cap) == es.skip(
            if es.len() <= cap {
                0
            } else {
                es.len() - cap
            },
        ),
        es.len() <= cap ==> apply_adds(Seq::empty(), es, cap) == es,
        apply_adds(Seq::empty(), es, cap).len() <= cap,
{
    lemma_apply_adds_keeps_newest(Seq::empty(), es, cap);
    assert(Seq::empty() + es =~= es);
    assert(es.skip(0) =~= es);
}

/// The map after a new version of `e.key` is appended under a per-key cap.
pub open spec fn spec_push_version<K: CacheKey, V, M>(
    m: MapModel<K, V, M>,
    e: CacheEntry<K, V, M>,
    cap: int,
) -> MapModel<K, V, M> {
    if map_contains_key(m, e.key) {
        let i = map_index_of(m, e.key);
        m.update(i, (m[i].0, push_trunc(m[i].1, e, cap)))
    } else {
        m.push((e.key, seq![e]))
    }
}

/// The map after the whole history of `k` is replaced by the single
/// version `e`.
pub open spec fn spec_replace<K: CacheKey, V, M>(
    m: MapModel<K, V, M>,
    k: K,
    e: CacheEntry<K, V, M>,
) -> MapModel<K, V, M> {
    if map_contains_key(m, k) {
        let i = map_index_of(m, k);
        m.update(i, (m[i].0, seq![e]))
    } else {
        m.push((k, seq![e]))
    }
}

/// The map after the history of `k` is removed.
pub open spec fn spec_remove_key<K: CacheKey, V, M>(m: MapModel<K, V, M>, k: K) -> MapModel<
    K,
    V,
    M,
> {
    if map_contains_key(m, k) {
        m.remove(map_index_of(m, k))
    } else {
        m
    }
}

/// A history after every version is marked as accessed at time `now`.
pub open spec fn accessed_history<K, V, M>(h: Seq<CacheEntry<K, V, M>>, now: crate::Millis) -> Seq<
    CacheEntry<K, V, M>,
> {
    h.map_values(|e: CacheEntry<K, V, M>| e.spec_accessed(now))
}

/// The map after the history of `k` is replaced by `h`; meaningful only
/// when the map contains `k`.
pub open spec fn map_update_history<K: CacheKey, V, M>(
    m: MapModel<K, V, M>,
    k: K,
    h: Seq<CacheEntry<K, V, M>>,
) -> MapModel<K, V, M> {
    let i = map_index_of(m, k);
    m.update(i, (m[i].0, h))
}

/// Whether `j` is the index `get_latest` picks from a history: its
/// timestamp is maximal, and every later version has a strictly smaller
/// one, so among equal timestamps the most recently appended version wins.
pub open spec fn is_latest_index<K, V, M>(h: Seq<CacheEntry<K, V, M>>, j: int) -> bool {
    &&& 0 <= j < h.len()
    &&& (forall|l: int| 0 <= l < h.len() ==> (#[trigger] h[l]).timestamp <= h[j].timestamp)
    &&& (forall|l: int| j < l < h.len() ==> (#[trigger] h[l]).timestamp < h[j].timestamp)
}

/// At most one index of a history satisfies `is_latest_index`.
pub proof fn lemma_latest_unique<K, V, M>(h: Seq<CacheEntry<K, V, M>>, j1: int, j2: int)
    requires
        is_latest_index(h, j1),
        is_latest_index(h, j2),
    ensures
        j1 == j2,
{
}

/// Replacing the history at `i` by a non-empty one whose versions carry
/// the pair's key preserves the invariant.
pub proof fn lemma_wf_update<K: CacheKey, V, M>(
    m: MapModel<K, V, M>,
    i: int,
    h: Seq<CacheEntry<K, V, M>>,
)
    requires
        map_wf(m),
        0 <= i < m.len(),
        h.len() > 0,
        forall|j: int| 0 <= j < h.len() ==> (#[trigger] h[j]).key.key_eqv(&m[i].0),
    ensures
        map_wf(m.update(i, (m[i].0, h))),
{
    let m2 = m.update(i, (m[i].0, h));
    assert forall|a: int, b: int|
        0 <= a < m2.len() && 0 <= b < m2.len() && a != b implies !(#[trigger] m2[a]).0.key_eqv(
        &(#[trigger] m2[b]).0,
    ) by {
        assert(m2[a].0 == m[a].0);
        assert(m2[b].0 == m[b].0);
    }
}

/// Appending a pair for a key the map does not contain, with a non-empty
/// history whose versions carry that key, preserves the invariant.
pub proof fn lemma_wf_push<K: CacheKey, V, M>(
    m: MapModel<K, V, M>,
    k: K,
    h: Seq<CacheEntry<K, V, M>>,
)
    requires
        map_wf(m),
        !map_contains_key(m, k),
        h.len() > 0,
        forall|j: int| 0 <= j < h.len() ==> (#[trigger] h[j]).key.key_eqv(&k),
    ensures
        map_wf(m.push((k, h))),
{
    let m2 = m.push((k, h));
    assert forall|a: int, b: int|
        0 <= a < m2.len() && 0 <= b < m2.len() && a != b implies !(#[trigger] m2[a]).0.key_eqv(
        &(#[trigger] m2[b]).0,
    ) by {
        if a < m.len() && b < m.len() {
            assert(m[a].0 == m2[a].0);
            assert(m[b].0 == m2[b].0);
        } else if a == m.len() {
            assert(m2[b].0 == m[b].0);
            if k.key_eqv(&m[b].0) {
                k.lemma_eqv_symmetric(&m[b].0);
                assert(map_contains_key(m, k));
            }
        } else {
            assert(m2[a].0 == m[a].0);
        }
    }
}

/// Removing a pair preserves the invariant.
pub proof fn lemma_wf_remove<K: CacheKey, V, M>(m: MapModel<K, V, M>, i: int)
    requires
        map_wf(m),
        0 <= i < m.len(),
    ensures
        map_wf(m.remove(i)),
{
    let m2 = m.remove(i);
    assert forall|a: int, b: int|
        0 <= a < m2.len() && 0 <= b < m2.len() && a != b implies !(#[trigger] m2[a]).0.key_eqv(
        &(#[trigger] m2[b]).0,
    ) by {
        let a0 = if a < i {
            a
        } else {
            a + 1
        };
        let b0 = if b < i {
            b
        } else {
            b + 1
        };
        assert(m2[a].0 == m[a0].0);
        assert(m2[b].0 == m[b0].0);
    }
    assert forall|a: int, j: int|
        0 <= a < m2.len() && 0 <= j < m2[a].1.len() implies (#[trigger] m2[a].1[j]).key.key_eqv(
        &m2[a].0,
    ) by {
        let a0 = if a < i {
            a
        } else {
            a + 1
        };
        assert(m2[a] == m[a0]);
    }
}

/// The map from keys to ordered version histories, in insertion order.
pub struct EntryMap<K, V, M = ()> {
    pairs: Vec<(K, Vec<CacheEntry<K, V, M>>)>,
}

impl<K, V, M> View for EntryMap<K, V, M> {
    type V = MapModel<K, V, M>;

    closed spec fn view(&self) -> MapModel<K, V, M> {
        self.pairs@.map_values(|p: (K, Vec<CacheEntry<K, V, M>>)| (p.0, p.1@))
    }
}

impl<K: CacheKey, V: CacheValue, M: EntryMetadata> EntryMap<K, V, M> {
    /// Build an empty map.
    pub fn new() -> (r: Self)
        ensures
            r@.len() == 0,
            map_wf(r@),
            map_total(r@) == 0,
    {
        EntryMap { pairs: Vec::new() }
    }

    /// The number of distinct keys.
    pub fn key_count(&self) -> (r: usize)
        ensures
            r == self@.len(),
    {
        self.pairs.len()
    }

    /// The index of the first pair whose key stands for the slot of `key`,
    /// if any.
    pub fn find_index(&self, key: &K) -> (r: Option<usize>)
        ensures
            match r {
                Some(i) => 0 <= i < self@.len() && self@[i as int].0.key_eqv(key) && (forall|
                    j: int,
                |
                    0 <= j < i ==> !(#[trigger] self@[j]).0.key_eqv(key)),
                None => forall|j: int| 0 <= j < self@.len() ==> !(#[trigger] self@[j]).0.key_eqv(key),
            },
    {
        let mut i: usize = 0;
        while i < self.pairs.len()
            invariant
                i <= self.pairs.len(),
                forall|j: int| 0 <= j < i ==> !(#[trigger] self@[j]).0.key_eqv(key),
            decreases self.pairs.len() - i,
        {
            if self.pairs[i].0.key_eq(key) {
                return Some(i);
            }
            i = i + 1;
        }
        None
    }

    /// Whether the map holds a history for `key`.
    pub fn contains_key(&self, key: &K) -> (r: bool)
        ensures
            r == map_contains_key(self@, *key),
    {
        match self.find_index(key) {
            Some(_) => true,
            None => false,
        }
    }

    /// The key of the pair at index `i`.
    pub fn key_at(&self, i: usize) -> (r: &K)
        requires
            i < self@.len(),
        ensures
            *r == self@[i as int].0,
    {
        &self.pairs[i].0
    }

    /// The history of the pair at index `i`.
    pub fn history_at(&self, i: usize) -> (r: &Vec<CacheEntry<K, V, M>>)
        requires
            i < self@.len(),
        ensures
            r@ == self@[i as int].1,
    {
        &self.pairs[i].1
    }

    /// Remove the pair at index `i`.
    pub fn remove_at(&mut self, i: usize)
        requires
            i < old(self)@.len(),
        ensures
            final(self)@ == old(self)@.remove(i as int),
    {
        self.pairs.remove(i);
        assert(final(self)@ =~= old(self)@.remove(i as int));
    }

    /// The total number of entries across all histories.
    pub fn total_entries(&self) -> (r: usize)
        requires
            map_total(self@) <= usize::MAX,
        ensures
            r == map_total(self@),
    {
        let mut sum: usize = 0;
        let mut i: usize = 0;
        proof {
            assert(self@.take(0) =~= Seq::empty());
        }
        while i < self.pairs.len()
            invariant
                i <= self.pairs.len(),
                map_total(self@) <= usize::MAX,
                sum == map_total(self@.take(i as int)),
            decreases self.pairs.len() - i,
        {
            proof {
                lemma_total_take_step(self@, i as int);
                lemma_total_take_bound(self@, i as int + 1);
            }
            sum = sum + self.pairs[i].1.len();
            i = i + 1;
        }
        proof {
            assert(self@.take(self@.len() as int) =~= self@);
        }
        sum
    }

    /// Append a new version under a per-key cap: the version joins its
    /// key's history (a new history is opened for an unknown key), and if
    /// the history then exceeds the cap its oldest version is dropped.
    pub fn push_version(&mut self, entry: CacheEntry<K, V, M>, cap: usize)
        requires
            map_wf(old(self)@),
            cap >= 1,
        ensures
            final(self)@ == spec_push_version(old(self)@, entry, cap as int),
            map_wf(final(self)@),
    {
        let ghost m0 = self@;
        let ghost e = entry;
        match self.find_index(&entry.key) {
            Some(i) => {
                proof {
                    assert(map_contains_key(m0, e.key));
                    let i2 = map_index_of(m0, e.key);
                    lemma_index_unique(m0, e.key, i2, i as int);
                }
                let mut pair = self.pairs.remove(i);
                pair.1.push(entry);
                if pair.1.len() > cap {
                    pair.1.remove(0);
                }
                let ghost newh = pair.1@;
                self.pairs.insert(i, pair);
                proof {
                    assert(newh =~= push_trunc(m0[i as int].1, e, cap as int));
                    assert(final(self)@ =~= m0.update(
                        i as int,
                        (m0[i as int].0, push_trunc(m0[i as int].1, e, cap as int)),
                    ));
                    assert forall|j: int| 0 <= j < newh.len() implies (
                    #[trigger] newh[j]).key.key_eqv(&m0[i as int].0) by {
                        if newh[j] == e {
                            e.key.lemma_eqv_reflexive();
                            m0[i as int].0.lemma_eqv_symmetric(&e.key);
                            e.key.lemma_eqv_transitive(&e.key, &m0[i as int].0);
                        }
                    }
                    lemma_wf_update(m0, i as int, newh);
                }
            },
            None => {
                proof {
                    if map_contains_key(m0, e.key) {
                        let i2 = map_index_of(m0, e.key);
                        assert(m0[i2].0.key_eqv(&e.key));
                    }
                }
                let k = entry.key.key_clone();
                let mut h: Vec<CacheEntry<K, V, M>> = Vec::new();
                h.push(entry);
                self.pairs.push((k, h));
                proof {
                    assert(final(self)@ =~= m0.push((e.key, seq![e])));
                    e.key.lemma_eqv_reflexive();
                    lemma_wf_push(m0, e.key, seq![e]);
                }
            },
        }
    }

    /// Replace the whole history of `key` by the single version `entry`,
    /// opening a new history if the key is unknown.
    pub fn replace_history(&mut self, key: K, entry: CacheEntry<K, V, M>)
        requires
            map_wf(old(self)@),
            entry.key.key_eqv(&key),
        ensures
            final(self)@ == spec_replace(old(self)@, key, entry),
            map_wf(final(self)@),
    {
        let ghost m0 = self@;
        let ghost k = key;
        let ghost e = entry;
        match self.find_index(&key) {
            Some(i) => {
                proof {
                    assert(map_contains_key(m0, k));
                    let i2 = map_index_of(m0, k);
                    lemma_index_unique(m0, k, i2, i as int);
                }
                let mut pair = self.pairs.remove(i);
                let mut h: Vec<CacheEntry<K, V, M>> = Vec::new();
                h.push(entry);
                pair.1 = h;
                self.pairs.insert(i, pair);
                proof {
                    assert(final(self)@ =~= m0.update(i as int, (m0[i as int].0, seq![e])));
                    assert forall|j: int| 0 <= j < seq![e].len() implies (
                    #[trigger] seq![e][j]).key.key_eqv(&m0[i as int].0) by {
                        m0[i as int].0.lemma_eqv_symmetric(&k);
                        e.key.lemma_eqv_transitive(&k, &m0[i as int].0);
                    }
                    lemma_wf_update(m0, i as int, seq![e]);
                }
            },
            None => {
                let mut h: Vec<CacheEntry<K, V, M>> = Vec::new();
                h.push(entry);
                self.pairs.push((key, h));
                proof {
                    if map_contains_key(m0, k) {
                        let i2 = map_index_of(m0, k);
                        assert(m0[i2].0.key_eqv(&k));
                    }
                    assert(final(self)@ =~= m0.push((k, seq![e])));
                    lemma_wf_push(m0, k, seq![e]);
                }
            },
        }
    }

    /// Remove the history of `key` and hand it back, or report that the
    /// key is unknown and leave the map unchanged.
    pub fn remove_key(&mut self, key: &K) -> (r: Option<Vec<CacheEntry<K, V, M>>>)
        requires
            map_wf(old(self)@),
        ensures
            final(self)@ == spec_remove_key(old(self)@, *key),
            map_wf(final(self)@),
            match r {
                Some(h) => map_contains_key(old(self)@, *key) && h@ == map_history_of(
                    old(self)@,
                    *key,
                ),
                None => !map_contains_key(old(self)@, *key),
            },
    {
        let ghost m0 = self@;
        match self.find_index(key) {
            Some(i) => {
                proof {
                    assert(map_contains_key(m0, *key));
                    let i2 = map_index_of(m0, *key);
                    lemma_index_unique(m0, *key, i2, i as int);
                    lemma_wf_remove(m0, i as int);
                }
                let pair = self.pairs.remove(i);
                proof {
                    assert(final(self)@ =~= m0.remove(i as int));
                }
                Some(pair.1)
            },
            None => {
                proof {
                    if map_contains_key(m0, *key) {
                        let i2 = map_index_of(m0, *key);
                        assert(m0[i2].0.key_eqv(key));
                    }
                }
                None
            },
        }
    }

    /// Drop every history.
    pub fn clear(&mut self)
        ensures
            final(self)@.len() == 0,
            map_wf(final(self)@),
            map_total(final(self)@) == 0,
    {
        self.pairs.clear();
    }

    /// Mark every version of `key`'s history as accessed at time `now` and
    /// hand back a copy of the updated history, or report that the key is
    /// unknown and leave the map unchanged.
    pub fn access_all(&mut self, key: &K, now: crate::Millis) -> (r: Option<
        Vec<CacheEntry<K, V, M>>,
    >)
        requires
            map_wf(old(self)@),
        ensures
            map_wf(final(self)@),
            match r {
                Some(h) => map_contains_key(old(self)@, *key) && h@ == accessed_history(
                    map_history_of(old(self)@, *key),
                    now,
                ) && final(self)@ == map_update_history(old(self)@, *key, h@),
                None => !map_contains_key(old(self)@, *key) && final(self)@ == old(self)@,
            },
    {
        let ghost m0 = self@;
        match self.find_index(key) {
            Some(i) => {
                proof {
                    assert(map_contains_key(m0, *key));
                    let i2 = map_index_of(m0, *key);
                    lemma_index_unique(m0, *key, i2, i as int);
                }
                let mut pair = self.pairs.remove(i);
                let ghost h0 = pair.1@;
                let mut updated: Vec<CacheEntry<K, V, M>> = Vec::new();
                let mut out: Vec<CacheEntry<K, V, M>> = Vec::new();
                let mut j: usize = 0;
                while j < pair.1.len()
                    invariant
                        j <= pair.1.len(),
                        pair.1@ == h0,
                        updated@ =~= accessed_history(h0, now).take(j as int),
                        out@ == updated@,
                    decreases pair.1.len() - j,
                {
                    let mut e = pair.1[j].entry_clone();
                    e.record_access_at(now);
                    out.push(e.entry_clone());
                    updated.push(e);
                    j = j + 1;
                }
                proof {
                    assert(updated@ =~= accessed_history(h0, now));
                }
                pair.1 = updated;
                self.pairs.insert(i, pair);
                proof {
                    assert(final(self)@ =~= map_update_history(m0, *key, accessed_history(h0, now)));
                    assert forall|j2: int|
                        0 <= j2 < accessed_history(h0, now).len() implies (#[trigger] accessed_history(
                        h0,
                        now,
                    )[j2]).key.key_eqv(&m0[i as int].0) by {
                        assert(accessed_history(h0, now)[j2].key == h0[j2].key);
                    }
                    lemma_wf_update(m0, i as int, accessed_history(h0, now));
                }
                Some(out)
            },
            None => {
                proof {
                    if map_contains_key(m0, *key) {
                        let i2 = map_index_of(m0, *key);
                        assert(m0[i2].0.key_eqv(key));
                    }
                }
                None
            },
        }
    }

    /// Mark the latest version of `key`'s history — the one `is_latest_index`
    /// picks — as accessed at time `now` and hand back a copy of it, or
    /// report that the key is unknown and leave the map unchanged.
    pub fn access_latest(&mut self, key: &K, now: crate::Millis) -> (r: Option<
        CacheEntry<K, V, M>,
    >)
        requires
            map_wf(old(self)@),
        ensures
            map_wf(final(self)@),
            match r {
                Some(e) => map_contains_key(old(self)@, *key) && (exists|j: int|
                    {
                        &&& #[trigger] is_latest_index(map_history_of(old(self)@, *key), j)
                        &&& e == map_history_of(old(self)@, *key)[j].spec_accessed(now)
                        &&& final(self)@ == map_update_history(
                            old(self)@,
                            *key,
                            map_history_of(old(self)@, *key).update(
                                j,
                                map_history_of(old(self)@, *key)[j].spec_accessed(now),
                            ),
                        )
                    }),
                None => !map_contains_key(old(self)@, *key) && final(self)@ == old(self)@,
            },
    {
        let ghost m0 = self@;
        match self.find_index(key) {
            Some(i) => {
                proof {
                    assert(map_contains_key(m0, *key));
                    let i2 = map_index_of(m0, *key);
                    lemma_index_unique(m0, *key, i2, i as int);
                }
                let mut pair = self.pairs.remove(i);
                let ghost h0 = pair.1@;
                let mut best: usize = 0;
                let mut j: usize = 1;
                while j < pair.1.len()
                    invariant
                        pair.1@ == h0,
                        h0.len() > 0,
                        best < j <= pair.1.len(),
                        forall|l: int| 0 <= l < j ==> (#[trigger] h0[l]).timestamp <= h0[
                            best as int].timestamp,
                        forall|l: int|
                            best < l < j ==> (#[trigger] h0[l]).timestamp < h0[best as int].timestamp,
                    decreases pair.1.len() - j,
                {
                    if pair.1[j].timestamp >= pair.1[best].timestamp {
                        best = j;
                    }
                    j = j + 1;
                }
                proof {
                    assert(is_latest_index(h0, best as int));
                }
                let mut e = pair.1.remove(best);
                e.record_access_at(now);
                let out = e.entry_clone();
                pair.1.insert(best, e);
                proof {
                    assert(pair.1@ =~= h0.update(
                        best as int,
                        h0[best as int].spec_accessed(now),
                    ));
                }
                self.pairs.insert(i, pair);
                proof {
                    let newh = h0.update(best as int, h0[best as int].spec_accessed(now));
                    assert(final(self)@ =~= map_update_history(m0, *key, newh));
                    assert forall|j2: int| 0 <= j2 < newh.len() implies (
                    #[trigger] newh[j2]).key.key_eqv(&m0[i as int].0) by {
                        if j2 == best as int {
                            assert(newh[j2].key == h0[j2].key);
                        }
                    }
                    lemma_wf_update(m0, i as int, newh);
                    assert(map_history_of(m0, *key) == h0);
                    assert(is_latest_index(map_history_of(m0, *key), best as int));
                    assert(out == map_history_of(m0, *key)[best as int].spec_accessed(now));
                }
                Some(out)
            },
            None => {
                proof {
                    if map_contains_key(m0, *key) {
                        let i2 = map_index_of(m0, *key);
                        assert(m0[i2].0.key_eqv(key));
                    }
                }
                None
            },
        }
    }

    /// A copy of the whole map, equal pair by pair.
    pub fn deep_clone(&self) -> (r: Self)
        ensures
            r@ == self@,
    {
        let mut pairs: Vec<(K, Vec<CacheEntry<K, V, M>>)> = Vec::new();
        let mut i: usize = 0;
        while i < self.pairs.len()
            invariant
                i <= self.pairs.len(),
                pairs@.len() == i,
                forall|idx: int|
                    0 <= idx < i ==> (#[trigger] pairs@[idx]).0 == self.pairs@[idx].0
                        && pairs@[idx].1@ == self.pairs@[idx].1@,
            decreases self.pairs.len() - i,
        {
            let k = self.pairs[i].0.key_clone();
            let h = clone_history(&self.pairs[i].1);
            pairs.push((k, h));
            i = i + 1;
        }
        let r = EntryMap { pairs };
        proof {
            assert forall|idx: int| 0 <= idx < r@.len() implies #[trigger] r@[idx] == self@[idx] by {
                assert(r@[idx] == (pairs@[idx].0, pairs@[idx].1@));
                assert(self@[idx] == (self.pairs@[idx].0, self.pairs@[idx].1@));
            }
            assert(r@ =~= self@);
        }
        r
    }

    /// Append a pair for a key the map does not contain.
    pub fn push_pair(&mut self, key: K, hist: Vec<CacheEntry<K, V, M>>)
        requires
            map_wf(old(self)@),
            !map_contains_key(old(self)@, key),
            hist@.len() > 0,
            forall|j: int| 0 <= j < hist@.len() ==> (#[trigger] hist@[j]).key.key_eqv(&key),
        ensures
            final(self)@ == old(self)@.push((key, hist@)),
            map_wf(final(self)@),
    {
        let ghost m0 = self@;
        let ghost k = key;
        let ghost h = hist@;
        self.pairs.push((key, hist));
        proof {
            assert(final(self)@ =~= m0.push((k, h)));
            lemma_wf_push(m0, k, h);
        }
    }
}

/// A copy of a history, equal entry by entry.
pub fn clone_history<K: CacheKey, V: CacheValue, M: EntryMetadata>(
    h: &Vec<CacheEntry<K, V, M>>,
) -> (r: Vec<CacheEntry<K, V, M>>)
    ensures
        r@ == h@,
{
    let mut r: Vec<CacheEntry<K, V, M>> = Vec::new();
    let mut i: usize = 0;
    while i < h.len()
        invariant
            i <= h.len(),
            r@ =~= h@.take(i as int),
        decreases h.len() - i,
    {
        r.push(h[i].entry_clone());
        i = i + 1;
    }
    assert(r@ =~= h@);
    r
}

/// The on-disk encoding a filesystem backend writes its histories in.
#[derive(PartialEq, Eq, Structural, Clone, Copy, Debug)]
pub enum SerializationFormat {
    /// Human-readable JSON, one file per key.
    Json,
    /// A compact binary encoding, one file per key.
    Bincode,
}

impl SerializationFormat {
    /// The file extension used for cache files in this format.
    pub fn extension(&self) -> (r: &str)
        ensures
            *self == SerializationFormat::Json ==> r@ == "json"@,
            *self == SerializationFormat::Bincode ==> r@ == "bin"@,
    {
        match self {
            SerializationFormat::Json => "json",
            SerializationFormat::Bincode => "bin",
        }
    }
}

impl Default for SerializationFormat {
    /// The default encoding is JSON.
    fn default() -> (r: Self)
        ensures
            r == SerializationFormat::Json,
    {
        SerializationFormat::Json
    }
}

} // verus!
