//! Freshness-gated cache state. A cache entry is replaced wholesale on
//! refresh, never partially mutated; a reader that finds the entry fresh
//! sees a value no older than its refresh interval.

use vstd::prelude::*;

verus! {

/// A cached value and the instant (in milliseconds) of its last refresh.
pub struct CacheEntry<T> {
    pub refreshed_on_ms: u64,
    pub value: T,
}

impl<T> CacheEntry<T> {
    /// The entry is due for a refresh: at least `interval_ms` elapsed since
    /// the last one. A clock that went backwards counts as no time elapsed.
    pub open spec fn spec_is_stale(&self, now_ms: u64, interval_ms: u64) -> bool {
        self.refreshed_on_ms <= now_ms && now_ms - self.refreshed_on_ms >= interval_ms
    }

    /// Fill the cache for the first time.
    pub fn new(value: T, refreshed_on_ms: u64) -> (r: Self)
        ensures
            r.value == value,
            r.refreshed_on_ms == refreshed_on_ms,
    {
        CacheEntry { refreshed_on_ms, value }
    }

    /// Decide freshness against the given clock reading and interval.
    pub fn is_stale(&self, now_ms: u64, interval_ms: u64) -> (r: bool)
        ensures
            r == self.spec_is_stale(now_ms, interval_ms),
    {
        now_ms >= self.refreshed_on_ms && now_ms - self.refreshed_on_ms >= interval_ms
    }

    /// Replace the value wholesale and stamp the refresh instant. Until
    /// `interval_ms` has elapsed past `now_ms`, the entry is not stale, so a
    /// gated reader never observes a value older than the interval.
    pub fn store(&mut self, value: T, now_ms: u64)
        ensures
            final(self).value == value,
            final(self).refreshed_on_ms == now_ms,
    {
        self.value = value;
        self.refreshed_on_ms = now_ms;
    }

    /// Read the cached value.
    pub fn value(&self) -> (r: &T)
        ensures
            *r == self.value,
    {
        &self.value
    }
}

} // verus!
