//! The memory collector: one direct snapshot of the system memory counters,
//! mapped field for field with human-readable renderings, behind the
//! shortest freshness gate.

use vstd::prelude::*;

use crate::cache::CacheEntry;
use crate::fmt::{format_bytes, format_bytes_spec};
use crate::models::MemoryStats;

verus! {

/// Map raw memory counters field for field into a snapshot, rendering each
/// byte count human-readably.
pub fn build_memory_stats(
    total_phys: u64,
    avail_phys: u64,
    total_pagefile: u64,
    avail_pagefile: u64,
    total_virtual: u64,
    avail_virtual: u64,
    memory_load: u32,
) -> (r: MemoryStats)
    ensures
        r.total_phys == total_phys,
        r.avail_phys == avail_phys,
        r.total_pagefile == total_pagefile,
        r.avail_pagefile == avail_pagefile,
        r.total_virtual == total_virtual,
        r.avail_virtual == avail_virtual,
        r.memory_load == memory_load,
        r.total_phys_formatted@ == format_bytes_spec(total_phys),
        r.avail_phys_formatted@ == format_bytes_spec(avail_phys),
        r.total_pagefile_formatted@ == format_bytes_spec(total_pagefile),
        r.avail_pagefile_formatted@ == format_bytes_spec(avail_pagefile),
        r.total_virtual_formatted@ == format_bytes_spec(total_virtual),
        r.avail_virtual_formatted@ == format_bytes_spec(avail_virtual),
{
    MemoryStats {
        total_phys,
        total_phys_formatted: format_bytes(total_phys),
        avail_phys,
        avail_phys_formatted: format_bytes(avail_phys),
        total_pagefile,
        total_pagefile_formatted: format_bytes(total_pagefile),
        avail_pagefile,
        avail_pagefile_formatted: format_bytes(avail_pagefile),
        total_virtual,
        total_virtual_formatted: format_bytes(total_virtual),
        avail_virtual,
        avail_virtual_formatted: format_bytes(avail_virtual),
        memory_load,
    }
}

/// An all-zero snapshot, for a collector built before its first refresh.
pub fn empty_memory_stats() -> (r: MemoryStats)
    ensures
        r.total_phys == 0 && r.avail_phys == 0 && r.total_pagefile == 0 && r.avail_pagefile == 0
            && r.total_virtual == 0 && r.avail_virtual == 0 && r.memory_load == 0,
{
    build_memory_stats(0, 0, 0, 0, 0, 0, 0)
}

/// The memory collector: one freshness-gated snapshot of the counters.
pub struct MemoryService {
    pub query_interval_ms: u64,
    pub cache: CacheEntry<MemoryStats>,
}

impl MemoryService {
    /// A collector filled with an initial snapshot, fresh as of `now_ms`.
    pub fn new(initial: MemoryStats, now_ms: u64) -> (r: Self)
        ensures
            r.query_interval_ms == 1000,
            r.cache.value == initial,
            r.cache.refreshed_on_ms == now_ms,
    {
        MemoryService { query_interval_ms: 1000, cache: CacheEntry::new(initial, now_ms) }
    }

    /// The cached snapshot is older than the refresh interval.
    pub fn needs_refresh(&self, now_ms: u64) -> (r: bool)
        ensures
            r == self.cache.spec_is_stale(now_ms, self.query_interval_ms),
    {
        self.cache.is_stale(now_ms, self.query_interval_ms)
    }

    /// Map fresh raw counters into a snapshot and replace the cache with it.
    pub fn refresh(
        &mut self,
        total_phys: u64,
        avail_phys: u64,
        total_pagefile: u64,
        avail_pagefile: u64,
        total_virtual: u64,
        avail_virtual: u64,
        memory_load: u32,
        now_ms: u64,
    )
        ensures
            final(self).cache.value.total_phys == total_phys,
            final(self).cache.value.avail_phys == avail_phys,
            final(self).cache.value.total_pagefile == total_pagefile,
            final(self).cache.value.avail_pagefile == avail_pagefile,
            final(self).cache.value.total_virtual == total_virtual,
            final(self).cache.value.avail_virtual == avail_virtual,
            final(self).cache.value.memory_load == memory_load,
            final(self).cache.value.total_phys_formatted@ == format_bytes_spec(total_phys),
            final(self).cache.value.avail_phys_formatted@ == format_bytes_spec(avail_phys),
            final(self).cache.value.total_pagefile_formatted@ == format_bytes_spec(total_pagefile),
            final(self).cache.value.avail_pagefile_formatted@ == format_bytes_spec(avail_pagefile),
            final(self).cache.value.total_virtual_formatted@ == format_bytes_spec(total_virtual),
            final(self).cache.value.avail_virtual_formatted@ == format_bytes_spec(avail_virtual),
            final(self).cache.refreshed_on_ms == now_ms,
            final(self).query_interval_ms == old(self).query_interval_ms,
    {
        let stats = build_memory_stats(
            total_phys,
            avail_phys,
            total_pagefile,
            avail_pagefile,
            total_virtual,
            avail_virtual,
            memory_load,
        );
        self.cache.store(stats, now_ms);
    }

    /// Read the cached snapshot.
    pub fn get_stats(&self) -> (r: &MemoryStats)
        ensures
            *r == self.cache.value,
    {
        self.cache.value()
    }
}

} // verus!
