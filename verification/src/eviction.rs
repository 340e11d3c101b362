//! Eviction policies.
//!
//! Each policy selects a victim key — never an individual version — and
//! removes its whole history, except for the time-to-live policy, which
//! first sweeps individually expired versions and falls back to FIFO
//! semantics if the map is still over its cap. When two keys tie on a
//! metric, the one that entered the map earlier is the victim, so eviction
//! is deterministic.

use vstd::prelude::*;
use crate::cache::CacheKey;
use crate::cache::CacheValue;
use crate::clock;
use crate::entry::CacheEntry;
use crate::entry::EntryMetadata;
use crate::storage::map_contains_key;
use crate::storage::map_total;
use crate::storage::map_wf;
use crate::storage::EntryMap;
use crate::storage::MapModel;
use crate::Millis;

verus! {

/// The capacity facts handed to a policy when it runs.
#[derive(Clone, Debug)]
pub struct EvictionContext {
    /// The configured cap on the total entry count.
    pub max_total_entries: usize,
    /// The total entry count at the moment the policy was invoked.
    pub current_total_entries: usize,
}

/// The quantity a single-victim policy minimizes over the keys.
#[derive(PartialEq, Eq, Structural, Clone, Copy, Debug)]
pub enum EvictionMetric {
    /// The least recent last-access time of a history's versions.
    OldestAccess,
    /// The sum of the access counts of a history's versions.
    FewestAccesses,
    /// The least recent creation time of a history's versions.
    OldestCreation,
}

/// The least last-access time in a history; the greatest machine value for
/// an empty one, so that a key with no versions is never preferred.
pub open spec fn min_last_accessed<K, V, M>(h: Seq<CacheEntry<K, V, M>>) -> int
    decreases h.len(),
{
    if h.len() == 0 {
        i64::MAX as int
    } else {
        let rest = min_last_accessed(h.drop_last());
        if h.last().last_accessed < rest {
            h.last().last_accessed as int
        } else {
            rest
        }
    }
}

/// The sum of the access counts in a history.
pub open spec fn sum_access_count<K, V, M>(h: Seq<CacheEntry<K, V, M>>) -> int
    decreases h.len(),
{
    if h.len() == 0 {
        0
    } else {
        sum_access_count(h.drop_last()) + h.last().access_count
    }
}

/// The least creation time in a history; the greatest machine value for an
/// empty one.
pub open spec fn min_timestamp<K, V, M>(h: Seq<CacheEntry<K, V, M>>) -> int
    decreases h.len(),
{
    if h.len() == 0 {
        i64::MAX as int
    } else {
        let rest = min_timestamp(h.drop_last());
        if h.last().timestamp < rest {
            h.last().timestamp as int
        } else {
            rest
        }
    }
}

/// The value a metric assigns to a history.
pub open spec fn metric_spec<K, V, M>(h: Seq<CacheEntry<K, V, M>>, metric: EvictionMetric) -> int {
    match metric {
        EvictionMetric::OldestAccess => min_last_accessed(h),
        EvictionMetric::FewestAccesses => sum_access_count(h),
        EvictionMetric::OldestCreation => min_timestamp(h),
    }
}

/// The least last-access time lies in the machine's range.
proof fn lemma_min_last_accessed_range<K, V, M>(h: Seq<CacheEntry<K, V, M>>)
    ensures
        i64::MIN <= min_last_accessed(h) <= i64::MAX,
    decreases h.len(),
{
    if h.len() > 0 {
        lemma_min_last_accessed_range(h.drop_last());
    }
}

/// The least creation time lies in the machine's range.
proof fn lemma_min_timestamp_range<K, V, M>(h: Seq<CacheEntry<K, V, M>>)
    ensures
        i64::MIN <= min_timestamp(h) <= i64::MAX,
    decreases h.len(),
{
    if h.len() > 0 {
        lemma_min_timestamp_range(h.drop_last());
    }
}

/// An access-count sum is never negative.
pub proof fn lemma_sum_access_count_nonneg<K, V, M>(h: Seq<CacheEntry<K, V, M>>)
    ensures
        sum_access_count(h) >= 0,
    decreases h.len(),
{
    if h.len() > 0 {
        lemma_sum_access_count_nonneg(h.drop_last());
    }
}

/// An access-count sum is bounded by the history length times the largest
/// single count.
proof fn lemma_sum_access_count_bound<K, V, M>(h: Seq<CacheEntry<K, V, M>>)
    ensures
        0 <= sum_access_count(h) <= h.len() * (u64::MAX as int),
    decreases h.len(),
{
    if h.len() == 0 {
    } else {
        lemma_sum_access_count_bound(h.drop_last());
        assert((h.len() - 1) * (u64::MAX as int) + (u64::MAX as int) == h.len() * (
        u64::MAX as int)) by (nonlinear_arith);
    }
}

/// An access-count sum over at most `u64::MAX` versions fits well under
/// the largest `u128` value.
proof fn lemma_sum_access_count_fits<K, V, M>(h: Seq<CacheEntry<K, V, M>>)
    requires
        h.len() <= 0xFFFF_FFFF_FFFF_FFFF,
    ensures
        0 <= sum_access_count(h) <= 0xFFFF_FFFF_FFFF_FFFF * 0xFFFF_FFFF_FFFF_FFFF,
{
    lemma_sum_access_count_bound(h);
    assert(h.len() * (u64::MAX as int) <= 0xFFFF_FFFF_FFFF_FFFF * 0xFFFF_FFFF_FFFF_FFFF)
        by (nonlinear_arith)
        requires
            h.len() <= 0xFFFF_FFFF_FFFF_FFFF,
    ;
}

/// The fixed offset that shifts a metric's value into the unsigned range,
/// so that one unsigned comparison decides the order of two values of the
/// same metric.
pub open spec fn metric_shift(metric: EvictionMetric) -> int {
    match metric {
        EvictionMetric::OldestAccess => 0x8000_0000_0000_0000,
        EvictionMetric::FewestAccesses => 0,
        EvictionMetric::OldestCreation => 0x8000_0000_0000_0000,
    }
}

/// The metric of a history, shifted by the metric's fixed offset.
fn metric_rank<K: CacheKey, V: CacheValue, M: EntryMetadata>(
    h: &Vec<CacheEntry<K, V, M>>,
    metric: EvictionMetric,
) -> (r: u128)
    ensures
        r == metric_spec(h@, metric) + metric_shift(metric),
{
    match metric {
        EvictionMetric::OldestAccess => {
            let mut mn: i64 = i64::MAX;
            let mut j: usize = 0;
            proof {
                assert(h@.take(0) =~= Seq::empty());
            }
            while j < h.len()
                invariant
                    j <= h.len(),
                    mn == min_last_accessed(h@.take(j as int)),
                decreases h.len() - j,
            {
                proof {
                    assert(h@.take(j as int + 1).drop_last() =~= h@.take(j as int));
                    lemma_min_last_accessed_range(h@.take(j as int));
                }
                if h[j].last_accessed < mn {
                    mn = h[j].last_accessed;
                }
                j = j + 1;
            }
            proof {
                assert(h@.take(h@.len() as int) =~= h@);
            }
            (mn as i128 + 0x8000_0000_0000_0000i128) as u128
        },
        EvictionMetric::FewestAccesses => {
            let mut s: u128 = 0;
            let mut j: usize = 0;
            proof {
                assert(h@.take(0) =~= Seq::empty());
            }
            while j < h.len()
                invariant
                    j <= h.len(),
                    s == sum_access_count(h@.take(j as int)),
                decreases h.len() - j,
            {
                proof {
                    assert(h@.take(j as int + 1).drop_last() =~= h@.take(j as int));
                    assert(h@.take(j as int + 1).len() <= 0xFFFF_FFFF_FFFF_FFFF);
                    lemma_sum_access_count_fits(h@.take(j as int + 1));
                }
                s = s + (h[j].access_count as u128);
                j = j + 1;
            }
            proof {
                assert(h@.take(h@.len() as int) =~= h@);
            }
            s
        },
        EvictionMetric::OldestCreation => {
            let mut mn: i64 = i64::MAX;
            let mut j: usize = 0;
            proof {
                assert(h@.take(0) =~= Seq::empty());
            }
            while j < h.len()
                invariant
                    j <= h.len(),
                    mn == min_timestamp(h@.take(j as int)),
                decreases h.len() - j,
            {
                proof {
                    assert(h@.take(j as int + 1).drop_last() =~= h@.take(j as int));
                    lemma_min_timestamp_range(h@.take(j as int));
                }
                if h[j].timestamp < mn {
                    mn = h[j].timestamp;
                }
                j = j + 1;
            }
            proof {
                assert(h@.take(h@.len() as int) =~= h@);
            }
            (mn as i128 + 0x8000_0000_0000_0000i128) as u128
        },
    }
}

/// Whether `i` is the index the single-victim policies pick: its history's
/// metric is minimal, and every earlier key's metric is strictly greater,
/// so among tied keys the earliest inserted wins.
pub open spec fn is_victim<K: CacheKey, V, M>(
    m: MapModel<K, V, M>,
    metric: EvictionMetric,
    i: int,
) -> bool {
    &&& 0 <= i < m.len()
    &&& (forall|l: int|
        0 <= l < m.len() ==> metric_spec((#[trigger] m[l]).1, metric) >= metric_spec(m[i].1, metric))
    &&& (forall|l: int|
        0 <= l < i ==> metric_spec((#[trigger] m[l]).1, metric) > metric_spec(m[i].1, metric))
}

/// At most one index of a map satisfies `is_victim`.
pub proof fn lemma_victim_unique<K: CacheKey, V, M>(
    m: MapModel<K, V, M>,
    metric: EvictionMetric,
    i: int,
    j: int,
)
    requires
        is_victim(m, metric, i),
        is_victim(m, metric, j),
    ensures
        i == j,
{
    if i < j {
        assert(metric_spec(m[i].1, metric) > metric_spec(m[j].1, metric));
        assert(metric_spec(m[j].1, metric) >= metric_spec(m[i].1, metric));
    } else if j < i {
        assert(metric_spec(m[j].1, metric) > metric_spec(m[i].1, metric));
        assert(metric_spec(m[i].1, metric) >= metric_spec(m[j].1, metric));
    }
}

/// Remove the whole history of the key that minimizes `metric`; on an
/// empty map this is a no-op.
pub fn remove_key_by<K: CacheKey, V: CacheValue, M: EntryMetadata>(
    entries: &mut EntryMap<K, V, M>,
    metric: EvictionMetric,
)
    requires
        map_wf(old(entries)@),
    ensures
        map_wf(final(entries)@),
        old(entries)@.len() == 0 ==> final(entries)@ == old(entries)@,
        old(entries)@.len() > 0 ==> exists|i: int|
            #[trigger] is_victim(old(entries)@, metric, i) && final(entries)@ == old(
                entries,
            )@.remove(i),
{
    let ghost m0 = entries@;
    let n = entries.key_count();
    if n == 0 {
        return ;
    }
    let mut best: usize = 0;
    let mut best_rank = metric_rank(entries.history_at(0), metric);
    let mut i: usize = 1;
    while i < n
        invariant
            n == m0.len(),
            entries@ == m0,
            map_wf(m0),
            best < i <= n,
            best_rank == metric_spec(m0[best as int].1, metric) + metric_shift(metric),
            forall|l: int|
                0 <= l < i ==> metric_spec((#[trigger] m0[l]).1, metric) >= metric_spec(
                    m0[best as int].1,
                    metric,
                ),
            forall|l: int|
                0 <= l < best ==> metric_spec((#[trigger] m0[l]).1, metric) > metric_spec(
                    m0[best as int].1,
                    metric,
                ),
        decreases n - i,
    {
        let rank = metric_rank(entries.history_at(i), metric);
        if rank < best_rank {
            best = i;
            best_rank = rank;
        }
        i = i + 1;
    }
    proof {
        assert(is_victim(m0, metric, best as int));
    }
    entries.remove_at(best);
    proof {
        crate::storage::lemma_wf_remove(m0, best as int);
    }
}

/// A history with its expired versions dropped, in order.
pub open spec fn filter_unexpired<K, V, M>(h: Seq<CacheEntry<K, V, M>>, now: Millis) -> Seq<
    CacheEntry<K, V, M>,
>
    decreases h.len(),
{
    if h.len() == 0 {
        Seq::empty()
    } else {
        let rest = filter_unexpired(h.drop_last(), now);
        if h.last().spec_expired_at(now) {
            rest
        } else {
            rest.push(h.last())
        }
    }
}

/// A map after the expired-version sweep: every history keeps only its
/// unexpired versions, and keys whose histories drain are dropped.
pub open spec fn spec_sweep<K, V, M>(m: MapModel<K, V, M>, now: Millis) -> MapModel<K, V, M>
    decreases m.len(),
{
    if m.len() == 0 {
        Seq::empty()
    } else {
        let rest = spec_sweep(m.drop_last(), now);
        let kept = filter_unexpired(m.last().1, now);
        if kept.len() == 0 {
            rest
        } else {
            rest.push((m.last().0, kept))
        }
    }
}

/// Every version the sweep keeps was in the history it came from.
proof fn lemma_filter_elements<K, V, M>(h: Seq<CacheEntry<K, V, M>>, now: Millis)
    ensures
        forall|a: int|
            0 <= a < filter_unexpired(h, now).len() ==> exists|b: int|
                0 <= b < h.len() && #[trigger] filter_unexpired(h, now)[a] == h[b],
    decreases h.len(),
{
    if h.len() > 0 {
        lemma_filter_elements(h.drop_last(), now);
        assert forall|a: int| 0 <= a < filter_unexpired(h, now).len() implies exists|b: int|
            0 <= b < h.len() && #[trigger] filter_unexpired(h, now)[a] == h[b] by {
            let f = filter_unexpired(h, now);
            let fr = filter_unexpired(h.drop_last(), now);
            if a < fr.len() {
                let b = choose|b: int| 0 <= b < h.drop_last().len() && fr[a] == h.drop_last()[b];
                assert(f[a] == h[b]);
            } else {
                assert(f[a] == h[h.len() - 1]);
            }
        }
    }
}

/// The sweep never lengthens a history.
proof fn lemma_filter_len_le<K, V, M>(h: Seq<CacheEntry<K, V, M>>, now: Millis)
    ensures
        filter_unexpired(h, now).len() <= h.len(),
    decreases h.len(),
{
    if h.len() > 0 {
        lemma_filter_len_le(h.drop_last(), now);
    }
}

/// The sweep never grows the total entry count.
pub proof fn lemma_sweep_total<K, V, M>(m: MapModel<K, V, M>, now: Millis)
    ensures
        map_total(spec_sweep(m, now)) <= map_total(m),
    decreases m.len(),
{
    if m.len() > 0 {
        lemma_sweep_total(m.drop_last(), now);
        lemma_filter_len_le(m.last().1, now);
        let kept = filter_unexpired(m.last().1, now);
        if kept.len() > 0 {
            crate::storage::lemma_total_push(
                spec_sweep(m.drop_last(), now),
                (m.last().0, kept),
            );
        }
    }
}

/// An empty map holds no entries at all.
pub proof fn lemma_total_zero_of_empty<K, V, M>(m: MapModel<K, V, M>)
    requires
        m.len() == 0,
    ensures
        map_total(m) == 0,
{
}

/// Drop every expired version from the map, removing keys whose histories
/// drain.
pub fn sweep_map<K: CacheKey, V: CacheValue, M: EntryMetadata>(
    entries: &mut EntryMap<K, V, M>,
    now: Millis,
)
    requires
        map_wf(old(entries)@),
    ensures
        final(entries)@ == spec_sweep(old(entries)@, now),
        map_wf(final(entries)@),
{
    let ghost m0 = entries@;
    let mut result: EntryMap<K, V, M> = EntryMap::new();
    let n = entries.key_count();
    proof {
        assert(m0.take(0) =~= Seq::empty());
        assert(result@ =~= spec_sweep(m0.take(0), now));
    }
    let mut i: usize = 0;
    while i < n
        invariant
            entries@ == m0,
            map_wf(m0),
            i <= n == m0.len(),
            result@ == spec_sweep(m0.take(i as int), now),
            map_wf(result@),
            forall|a: int|
                0 <= a < result@.len() ==> exists|b: int|
                    0 <= b < i && (#[trigger] result@[a]).0 == m0[b].0,
        decreases n - i,
    {
        let h = entries.history_at(i);
        let ghost h0 = h@;
        let mut kept: Vec<CacheEntry<K, V, M>> = Vec::new();
        proof {
            assert(h0.take(0) =~= Seq::empty());
        }
        let mut j: usize = 0;
        while j < h.len()
            invariant
                h@ == h0,
                j <= h0.len(),
                kept@ == filter_unexpired(h0.take(j as int), now),
            decreases h.len() - j,
        {
            proof {
                assert(h0.take(j as int + 1).drop_last() =~= h0.take(j as int));
            }
            if !h[j].is_expired_at(now) {
                kept.push(h[j].entry_clone());
            }
            j = j + 1;
        }
        proof {
            assert(h0.take(h0.len() as int) =~= h0);
            assert(kept@ == filter_unexpired(m0[i as int].1, now));
        }
        if kept.len() > 0 {
            let k = entries.key_at(i).key_clone();
            proof {
                if map_contains_key(result@, k) {
                    let a = choose|a: int|
                        0 <= a < result@.len() && (#[trigger] result@[a]).0.key_eqv(&k);
                    let b = choose|b: int| 0 <= b < i && result@[a].0 == m0[b].0;
                    assert(m0[b].0.key_eqv(&m0[i as int].0));
                }
                lemma_filter_elements(m0[i as int].1, now);
                assert forall|a: int| 0 <= a < kept@.len() implies (
                #[trigger] kept@[a]).key.key_eqv(&k) by {
                    let f = filter_unexpired(m0[i as int].1, now);
                    assert(kept@[a] == f[a]);
                    let b = choose|b: int| 0 <= b < m0[i as int].1.len() && f[a] == m0[i as int].1[b];
                    assert(m0[i as int].1[b].key.key_eqv(&m0[i as int].0));
                }
            }
            result.push_pair(k, kept);
        }
        proof {
            assert(m0.take(i as int + 1).drop_last() =~= m0.take(i as int));
            assert(m0.take(i as int + 1).last() == m0[i as int]);
            assert(result@ == spec_sweep(m0.take(i as int + 1), now));
        }
        i = i + 1;
    }
    proof {
        assert(m0.take(n as int) =~= m0);
    }
    *entries = result;
}

/// The index `remove_key_by` removes; meaningful whenever the map is
/// non-empty, and then unique.
pub open spec fn victim_of<K: CacheKey, V, M>(m: MapModel<K, V, M>, metric: EvictionMetric) -> int {
    choose|i: int| is_victim(m, metric, i)
}

/// The map after one run of a single-victim policy.
pub open spec fn spec_evict_once<K: CacheKey, V, M>(
    m: MapModel<K, V, M>,
    metric: EvictionMetric,
) -> MapModel<K, V, M> {
    if m.len() == 0 {
        m
    } else {
        m.remove(victim_of(m, metric))
    }
}

/// Every pair the sweep keeps is the swept form of a pair of the map.
pub proof fn lemma_sweep_elements<K, V, M>(m: MapModel<K, V, M>, now: Millis)
    ensures
        forall|a: int|
            0 <= a < spec_sweep(m, now).len() ==> exists|b: int|
                0 <= b < m.len() && #[trigger] spec_sweep(m, now)[a] == (
                m[b].0,
                filter_unexpired(m[b].1, now),
                ),
    decreases m.len(),
{
    if m.len() > 0 {
        lemma_sweep_elements(m.drop_last(), now);
        assert forall|a: int| 0 <= a < spec_sweep(m, now).len() implies exists|b: int|
            0 <= b < m.len() && #[trigger] spec_sweep(m, now)[a] == (
            m[b].0,
            filter_unexpired(m[b].1, now),
            ) by {
            let rest = spec_sweep(m.drop_last(), now);
            if a < rest.len() {
                let b = choose|b: int|
                    0 <= b < m.drop_last().len() && #[trigger] rest[a] == (
                    m.drop_last()[b].0,
                    filter_unexpired(m.drop_last()[b].1, now),
                    );
                assert(spec_sweep(m, now)[a] == (m[b].0, filter_unexpired(m[b].1, now)));
            } else {
                assert(spec_sweep(m, now)[a] == (
                    m[m.len() - 1].0,
                    filter_unexpired(m[m.len() - 1].1, now),
                ));
            }
        }
    }
}

/// The sweep never lengthens any history, so a per-key depth cap is kept.
pub proof fn lemma_sweep_cap<K, V, M>(m: MapModel<K, V, M>, now: Millis, cap: int)
    requires
        forall|i: int| 0 <= i < m.len() ==> (#[trigger] m[i]).1.len() <= cap,
    ensures
        forall|a: int| 0 <= a < spec_sweep(m, now).len() ==> (#[trigger] spec_sweep(m, now)[a]).1.len()
            <= cap,
{
    lemma_sweep_elements(m, now);
    assert forall|a: int| 0 <= a < spec_sweep(m, now).len() implies (
    #[trigger] spec_sweep(m, now)[a]).1.len() <= cap by {
        let b = choose|b: int|
            0 <= b < m.len() && #[trigger] spec_sweep(m, now)[a] == (
            m[b].0,
            filter_unexpired(m[b].1, now),
            );
        lemma_filter_len_le(m[b].1, now);
    }
}

/// The sweep never leaves an empty history behind.
pub proof fn lemma_sweep_nonempty<K, V, M>(m: MapModel<K, V, M>, now: Millis)
    ensures
        crate::storage::histories_nonempty(spec_sweep(m, now)),
    decreases m.len(),
{
    if m.len() > 0 {
        lemma_sweep_nonempty(m.drop_last(), now);
    }
}

/// What one run of a single-victim policy did to a map agrees with its
/// specification: the unique victim came out, and the total never grew.
pub proof fn lemma_remove_key_by_model<K: CacheKey, V, M>(
    m0: MapModel<K, V, M>,
    m1: MapModel<K, V, M>,
    metric: EvictionMetric,
)
    requires
        m0.len() == 0 ==> m1 == m0,
        m0.len() > 0 ==> exists|i: int| #[trigger] is_victim(m0, metric, i) && m1 == m0.remove(i),
    ensures
        m1 == spec_evict_once(m0, metric),
        map_total(m1) <= map_total(m0),
{
    if m0.len() > 0 {
        let i = choose|i: int| #[trigger] is_victim(m0, metric, i) && m1 == m0.remove(i);
        let v = victim_of(m0, metric);
        assert(is_victim(m0, metric, v));
        lemma_victim_unique(m0, metric, i, v);
        crate::storage::lemma_total_remove(m0, i);
    }
}

/// The map after the time-to-live pass: the expired-version sweep, then
/// one FIFO victim if the swept map still exceeds `max_total`.
pub open spec fn spec_ttl_evict<K: CacheKey, V, M>(
    m: MapModel<K, V, M>,
    max_total: int,
    now: Millis,
) -> MapModel<K, V, M> {
    let swept = spec_sweep(m, now);
    if map_total(swept) > max_total {
        spec_evict_once(swept, EvictionMetric::OldestCreation)
    } else {
        swept
    }
}

/// The time-to-live eviction pass against an explicit time: sweep expired
/// versions everywhere, and if the map still holds more entries than
/// `max_total_entries`, fall back to one FIFO victim.
pub fn ttl_evict_at<K: CacheKey, V: CacheValue, M: EntryMetadata>(
    entries: &mut EntryMap<K, V, M>,
    max_total_entries: usize,
    now: Millis,
)
    requires
        map_wf(old(entries)@),
        map_total(old(entries)@) <= usize::MAX,
    ensures
        map_wf(final(entries)@),
        final(entries)@ == spec_ttl_evict(old(entries)@, max_total_entries as int, now),
        map_total(final(entries)@) <= map_total(old(entries)@),
        map_total(old(entries)@) <= max_total_entries + 1 ==> map_total(final(entries)@)
            <= max_total_entries,
        map_total(spec_sweep(old(entries)@, now)) > max_total_entries ==> exists|i: int|
            #[trigger] is_victim(spec_sweep(old(entries)@, now), EvictionMetric::OldestCreation, i),
{
    let ghost m0 = entries@;
    sweep_map(entries, now);
    proof {
        lemma_sweep_total(m0, now);
        lemma_sweep_nonempty(m0, now);
        crate::storage::lemma_total_nonneg(entries@);
    }
    let total = entries.total_entries();
    if total > max_total_entries {
        let ghost swept = entries@;
        proof {
            if entries@.len() == 0 {
                lemma_total_zero_of_empty(entries@);
            }
        }
        remove_key_by(entries, EvictionMetric::OldestCreation);
        proof {
            lemma_remove_key_by_model(swept, entries@, EvictionMetric::OldestCreation);
            if map_total(m0) <= max_total_entries + 1 {
                let i = victim_of(swept, EvictionMetric::OldestCreation);
                assert(is_victim(swept, EvictionMetric::OldestCreation, i));
                assert(swept[i].1.len() > 0);
                crate::storage::lemma_total_remove(swept, i);
            }
        }
    }
}

/// The policy contract every strategy meets: the map stays well formed,
/// never gains entries, and becomes exactly what the strategy's own model
/// function prescribes — at some clock reading, which only the
/// time-to-live model consults.
pub trait EvictionStrategy<K: CacheKey, V: CacheValue, M: EntryMetadata> {
    /// The map this strategy leaves behind, given the map it found, the
    /// configured total cap, and the time it ran at.
    spec fn evict_model(&self, m: MapModel<K, V, M>, max_total: int, now: Millis) -> MapModel<
        K,
        V,
        M,
    >;

    /// Bring the map toward its cap as the policy prescribes.
    fn evict(&self, entries: &mut EntryMap<K, V, M>, context: &EvictionContext)
        requires
            map_wf(old(entries)@),
            map_total(old(entries)@) <= usize::MAX,
        ensures
            map_wf(final(entries)@),
            map_total(final(entries)@) <= map_total(old(entries)@),
            exists|now: Millis|
                final(entries)@ == #[trigger] self.evict_model(
                    old(entries)@,
                    context.max_total_entries as int,
                    now,
                ),
    ;
}

/// Least recently used: the victim is the key whose history's least
/// recent last-access time is smallest.
pub struct LruEviction;

/// Least frequently used: the victim is the key whose history's summed
/// access count is smallest.
pub struct LfuEviction;

/// First in, first out: the victim is the key whose oldest version was
/// created first.
pub struct FifoEviction;

/// Time to live: expired versions are swept everywhere; if the map is
/// still over its cap, one FIFO victim follows.
pub struct TtlEviction;

/// No automatic eviction: capacity overruns are left for the caller to
/// manage through explicit removal.
pub struct NoEviction;

impl<K: CacheKey, V: CacheValue, M: EntryMetadata> EvictionStrategy<K, V, M> for LruEviction {
    /// The map with the whole history of the least recently used key
    /// removed; the clock and the cap play no part.
    open spec fn evict_model(&self, m: MapModel<K, V, M>, max_total: int, now: Millis) -> MapModel<
        K,
        V,
        M,
    > {
        spec_evict_once(m, EvictionMetric::OldestAccess)
    }

    fn evict(&self, entries: &mut EntryMap<K, V, M>, context: &EvictionContext) {
        remove_key_by(entries, EvictionMetric::OldestAccess);
        proof {
            lemma_remove_key_by_model(old(entries)@, final(entries)@, EvictionMetric::OldestAccess);
            assert(final(entries)@ == self.evict_model(
                old(entries)@,
                context.max_total_entries as int,
                0i64,
            ));
        }
    }
}

impl<K: CacheKey, V: CacheValue, M: EntryMetadata> EvictionStrategy<K, V, M> for LfuEviction {
    /// The map with the whole history of the least frequently used key
    /// removed; the clock and the cap play no part.
    open spec fn evict_model(&self, m: MapModel<K, V, M>, max_total: int, now: Millis) -> MapModel<
        K,
        V,
        M,
    > {
        spec_evict_once(m, EvictionMetric::FewestAccesses)
    }

    fn evict(&self, entries: &mut EntryMap<K, V, M>, context: &EvictionContext) {
        remove_key_by(entries, EvictionMetric::FewestAccesses);
        proof {
            lemma_remove_key_by_model(
                old(entries)@,
                final(entries)@,
                EvictionMetric::FewestAccesses,
            );
            assert(final(entries)@ == self.evict_model(
                old(entries)@,
                context.max_total_entries as int,
                0i64,
            ));
        }
    }
}

impl<K: CacheKey, V: CacheValue, M: EntryMetadata> EvictionStrategy<K, V, M> for FifoEviction {
    /// The map with the whole history of the first-inserted key removed;
    /// the clock and the cap play no part.
    open spec fn evict_model(&self, m: MapModel<K, V, M>, max_total: int, now: Millis) -> MapModel<
        K,
        V,
        M,
    > {
        spec_evict_once(m, EvictionMetric::OldestCreation)
    }

    fn evict(&self, entries: &mut EntryMap<K, V, M>, context: &EvictionContext) {
        remove_key_by(entries, EvictionMetric::OldestCreation);
        proof {
            lemma_remove_key_by_model(
                old(entries)@,
                final(entries)@,
                EvictionMetric::OldestCreation,
            );
            assert(final(entries)@ == self.evict_model(
                old(entries)@,
                context.max_total_entries as int,
                0i64,
            ));
        }
    }
}

impl<K: CacheKey, V: CacheValue, M: EntryMetadata> EvictionStrategy<K, V, M> for TtlEviction {
    /// The two-phase time-to-live pass at time `now`: expired versions
    /// swept everywhere, then one FIFO victim if still over the cap.
    open spec fn evict_model(&self, m: MapModel<K, V, M>, max_total: int, now: Millis) -> MapModel<
        K,
        V,
        M,
    > {
        spec_ttl_evict(m, max_total, now)
    }

    fn evict(&self, entries: &mut EntryMap<K, V, M>, context: &EvictionContext) {
        let now = clock::now_millis();
        ttl_evict_at(entries, context.max_total_entries, now);
        proof {
            assert(final(entries)@ == self.evict_model(
                old(entries)@,
                context.max_total_entries as int,
                now,
            ));
        }
    }
}

impl<K: CacheKey, V: CacheValue, M: EntryMetadata> EvictionStrategy<K, V, M> for NoEviction {
    /// The map exactly as it was: this strategy never removes anything.
    open spec fn evict_model(&self, m: MapModel<K, V, M>, max_total: int, now: Millis) -> MapModel<
        K,
        V,
        M,
    > {
        m
    }

    fn evict(&self, entries: &mut EntryMap<K, V, M>, context: &EvictionContext) {
        proof {
            assert(final(entries)@ == self.evict_model(
                old(entries)@,
                context.max_total_entries as int,
                0i64,
            ));
        }
    }
}

/// One strategy per policy, selected at run time.
pub enum SelectedStrategy {
    /// The least-recently-used strategy.
    Lru(LruEviction),
    /// The least-frequently-used strategy.
    Lfu(LfuEviction),
    /// The first-in-first-out strategy.
    Fifo(FifoEviction),
    /// The time-to-live strategy.
    Ttl(TtlEviction),
    /// The do-nothing strategy.
    Disabled(NoEviction),
}

impl<K: CacheKey, V: CacheValue, M: EntryMetadata> EvictionStrategy<K, V, M> for SelectedStrategy {
    /// The model of whichever strategy was selected.
    open spec fn evict_model(&self, m: MapModel<K, V, M>, max_total: int, now: Millis) -> MapModel<
        K,
        V,
        M,
    > {
        match self {
            SelectedStrategy::Lru(s) => s.evict_model(m, max_total, now),
            SelectedStrategy::Lfu(s) => s.evict_model(m, max_total, now),
            SelectedStrategy::Fifo(s) => s.evict_model(m, max_total, now),
            SelectedStrategy::Ttl(s) => s.evict_model(m, max_total, now),
            SelectedStrategy::Disabled(s) => s.evict_model(m, max_total, now),
        }
    }

    fn evict(&self, entries: &mut EntryMap<K, V, M>, context: &EvictionContext) {
        let ghost max = context.max_total_entries as int;
        match self {
            SelectedStrategy::Lru(s) => {
                s.evict(entries, context);
                proof {
                    let n = choose|n: Millis|
                        final(entries)@ == #[trigger] s.evict_model(old(entries)@, max, n);
                    assert(final(entries)@ == self.evict_model(old(entries)@, max, n));
                }
            },
            SelectedStrategy::Lfu(s) => {
                s.evict(entries, context);
                proof {
                    let n = choose|n: Millis|
                        final(entries)@ == #[trigger] s.evict_model(old(entries)@, max, n);
                    assert(final(entries)@ == self.evict_model(old(entries)@, max, n));
                }
            },
            SelectedStrategy::Fifo(s) => {
                s.evict(entries, context);
                proof {
                    let n = choose|n: Millis|
                        final(entries)@ == #[trigger] s.evict_model(old(entries)@, max, n);
                    assert(final(entries)@ == self.evict_model(old(entries)@, max, n));
                }
            },
            SelectedStrategy::Ttl(s) => {
                s.evict(entries, context);
                proof {
                    let n = choose|n: Millis|
                        final(entries)@ == #[trigger] s.evict_model(old(entries)@, max, n);
                    assert(final(entries)@ == self.evict_model(old(entries)@, max, n));
                }
            },
            SelectedStrategy::Disabled(s) => {
                s.evict(entries, context);
                proof {
                    let n = choose|n: Millis|
                        final(entries)@ == #[trigger] s.evict_model(old(entries)@, max, n);
                    assert(final(entries)@ == self.evict_model(old(entries)@, max, n));
                }
            },
        }
    }
}

/// The strategy that enforces a policy.
pub fn create_strategy(policy: &crate::config::EvictionPolicy) -> (r: SelectedStrategy)
    ensures
        *policy == crate::config::EvictionPolicy::Lru <==> r is Lru,
        *policy == crate::config::EvictionPolicy::Lfu <==> r is Lfu,
        *policy == crate::config::EvictionPolicy::Fifo <==> r is Fifo,
        *policy == crate::config::EvictionPolicy::Ttl <==> r is Ttl,
        *policy == crate::config::EvictionPolicy::Disabled <==> r is Disabled,
{
    match policy {
        crate::config::EvictionPolicy::Lru => SelectedStrategy::Lru(LruEviction),
        crate::config::EvictionPolicy::Lfu => SelectedStrategy::Lfu(LfuEviction),
        crate::config::EvictionPolicy::Fifo => SelectedStrategy::Fifo(FifoEviction),
        crate::config::EvictionPolicy::Ttl => SelectedStrategy::Ttl(TtlEviction),
        crate::config::EvictionPolicy::Disabled => SelectedStrategy::Disabled(NoEviction),
    }
}

} // verus!
