//! Counters of cache hits and misses, for benchmarks and diagnostics.

use vstd::prelude::*;

verus! {

/// Hits and misses since the counters were last taken. Both wrap around.
#[derive(Debug, Clone, Copy, PartialEq, Eq)]
pub struct CacheStats {
    /// Number of cache hits.
    pub hits: u64,
    /// Number of cache misses.
    pub misses: u64,
}

/// A lookup in the block cache.
pub enum CacheEvent {
    /// The block was cached.
    Hit,
    /// The block was not cached.
    Miss,
}

/// The counter after one more event.
pub open spec fn counted(counter: u64) -> u64 {
    if counter == u64::MAX {
        0
    } else {
        (counter + 1) as u64
    }
}

impl CacheStats {
    /// Both counters at zero.
    pub open spec fn zero() -> CacheStats {
        CacheStats { hits: 0, misses: 0 }
    }

    /// Counters at zero.
    pub fn new() -> (stats: CacheStats)
        ensures
            stats == CacheStats::zero(),
            stats.hits == 0,
            stats.misses == 0,
    {
        CacheStats { hits: 0, misses: 0 }
    }

    /// The counters after one more event.
    pub open spec fn after(self, event: CacheEvent) -> CacheStats {
        match event {
            CacheEvent::Hit => CacheStats { hits: counted(self.hits), misses: self.misses },
            CacheEvent::Miss => CacheStats { hits: self.hits, misses: counted(self.misses) },
        }
    }

    /// The counters after a sequence of events.
    pub open spec fn after_all(self, events: Seq<CacheEvent>) -> CacheStats
        decreases events.len(),
    {
        if events.len() == 0 {
            self
        } else {
            self.after_all(events.drop_last()).after(events.last())
        }
    }
}

/// Counts a cache hit.
pub fn record_cache_hit(stats: &mut CacheStats)
    ensures
        *final(stats) == old(stats).after(CacheEvent::Hit),
        final(stats).hits == (old(stats).hits + 1) % 0x1_0000_0000_0000_0000,
        final(stats).misses == old(stats).misses,
{
    stats.hits = stats.hits.wrapping_add(1);
}

/// Counts a cache miss.
pub fn record_cache_miss(stats: &mut CacheStats)
    ensures
        *final(stats) == old(stats).after(CacheEvent::Miss),
        final(stats).hits == old(stats).hits,
        final(stats).misses == (old(stats).misses + 1) % 0x1_0000_0000_0000_0000,
{
    stats.misses = stats.misses.wrapping_add(1);
}

/// Reads and resets the counters. Returns `(hits, misses)`.
pub fn take_cache_stats(stats: &mut CacheStats) -> (taken: (u64, u64))
    ensures
        taken == (old(stats).hits, old(stats).misses),
        *final(stats) == CacheStats::zero(),
        final(stats).hits == 0,
        final(stats).misses == 0,
{
    let taken = (stats.hits, stats.misses);
    stats.hits = 0;
    stats.misses = 0;
    taken
}

/// The number of hits among the events.
pub open spec fn hits_in(events: Seq<CacheEvent>) -> int
    decreases events.len(),
{
    if events.len() == 0 {
        0
    } else {
        hits_in(events.drop_last()) + if events.last() is Hit {
            1int
        } else {
            0int
        }
    }
}

/// From zero, and below the wrap-around, the counters are the number of hits and
/// of misses among the events recorded.
pub proof fn law_counters_count(events: Seq<CacheEvent>)
    requires
        events.len() <= u64::MAX,
    ensures
        CacheStats::zero().after_all(events).hits == hits_in(events),
        CacheStats::zero().after_all(events).misses == events.len() - hits_in(events),
        0 <= hits_in(events) <= events.len(),
    decreases events.len(),
{
    if events.len() > 0 {
        law_counters_count(events.drop_last());
    }
}

/// From any counters each one grows by the number of its events, modulo the wrap-around,
/// and events of the other kind leave it alone.
pub proof fn law_counters_add_events(stats: CacheStats, events: Seq<CacheEvent>)
    ensures
        stats.after_all(events).hits == (stats.hits + events.filter(
            |event: CacheEvent| event is Hit,
        ).len()) % 0x1_0000_0000_0000_0000,
        stats.after_all(events).misses == (stats.misses + events.filter(
            |event: CacheEvent| event is Miss,
        ).len()) % 0x1_0000_0000_0000_0000,
        hits_in(events) == events.filter(|event: CacheEvent| event is Hit).len(),
    decreases events.len(),
{
    reveal(Seq::filter);
    if events.len() > 0 {
        law_counters_add_events(stats, events.drop_last());
    }
}

} // verus!
