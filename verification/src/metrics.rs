//! The numbers that the store exports to its monitoring endpoint.

use vstd::prelude::*;

verus! {

/// Counters only grow and gauges follow the state. All of them wrap around at
/// the end of their range.
#[derive(Debug, Clone, Copy, PartialEq, Eq)]
pub struct StoreMetrics {
    /// `edge_cache_hits_total`
    pub hits: u64,
    /// `edge_cache_misses_total`
    pub misses: u64,
    /// `edge_cache_evictions_total`
    pub evictions: u64,
    /// `edge_cache_invalidations_total`
    pub invalidations: u64,
    /// `edge_cache_stream_attach_total`
    pub stream_attach: u64,
    /// `edge_cache_stream_attach_miss_total`
    pub stream_attach_miss: u64,
    /// `edge_cache_demotions_total`
    pub demotions: u64,
    /// `edge_cache_keys`
    pub keys: i64,
    /// `edge_cache_partial_writes`
    pub partial_writes: i64,
    /// `edge_cache_disk_bytes`
    pub disk_bytes: i64,
    /// `edge_cache_atomic_publish_enabled`
    pub atomic_publish_enabled: i64,
    /// `edge_cache_io_uring_enabled`
    pub io_uring_enabled: i64,
}

/// The value of a gauge that tells whether something is on.
pub open spec fn flag(on: bool) -> i64 {
    if on {
        1
    } else {
        0
    }
}

impl StoreMetrics {
    /// Everything at zero.
    pub open spec fn zero() -> StoreMetrics {
        StoreMetrics {
            hits: 0,
            misses: 0,
            evictions: 0,
            invalidations: 0,
            stream_attach: 0,
            stream_attach_miss: 0,
            demotions: 0,
            keys: 0,
            partial_writes: 0,
            disk_bytes: 0,
            atomic_publish_enabled: 0,
            io_uring_enabled: 0,
        }
    }

    /// After one hit.
    pub open spec fn hit(self) -> StoreMetrics {
        StoreMetrics { hits: self.hits.wrapping_add(1), ..self }
    }

    /// After one miss.
    pub open spec fn missed(self) -> StoreMetrics {
        StoreMetrics { misses: self.misses.wrapping_add(1), ..self }
    }

    /// After a reader attached to a running write by its tag.
    pub open spec fn attached(self) -> StoreMetrics {
        StoreMetrics {
            hits: self.hits.wrapping_add(1),
            stream_attach: self.stream_attach.wrapping_add(1),
            ..self
        }
    }

    /// After a reader asked for a tag that no running write has.
    pub open spec fn attach_missed(self) -> StoreMetrics {
        StoreMetrics {
            misses: self.misses.wrapping_add(1),
            stream_attach_miss: self.stream_attach_miss.wrapping_add(1),
            ..self
        }
    }

    /// After one more write is in progress.
    pub open spec fn writer_added(self) -> StoreMetrics {
        StoreMetrics { partial_writes: self.partial_writes.wrapping_add(1), ..self }
    }

    /// After one write in progress is gone.
    pub open spec fn writer_removed(self) -> StoreMetrics {
        StoreMetrics { partial_writes: self.partial_writes.wrapping_sub(1), ..self }
    }

    /// After `n` writes in progress are gone at once.
    pub open spec fn writers_removed(self, n: nat) -> StoreMetrics {
        StoreMetrics { partial_writes: self.partial_writes.wrapping_sub(n as i64), ..self }
    }

    /// With `n` complete objects in memory.
    pub open spec fn with_keys(self, n: nat) -> StoreMetrics {
        StoreMetrics { keys: n as i64, ..self }
    }

    /// With `n` bytes on disk.
    pub open spec fn with_disk_bytes(self, n: usize) -> StoreMetrics {
        StoreMetrics { disk_bytes: n as i64, ..self }
    }

    /// After an object left memory for the disk.
    pub open spec fn demoted(self) -> StoreMetrics {
        StoreMetrics {
            keys: self.keys.wrapping_sub(1),
            demotions: self.demotions.wrapping_add(1),
            ..self
        }
    }

    /// After one eviction.
    pub open spec fn evicted(self) -> StoreMetrics {
        StoreMetrics { evictions: self.evictions.wrapping_add(1), ..self }
    }

    /// After one invalidation.
    pub open spec fn invalidated(self) -> StoreMetrics {
        StoreMetrics { invalidations: self.invalidations.wrapping_add(1), ..self }
    }

    /// With the two feature gauges set.
    pub open spec fn with_features(self, atomic_publish: bool, io_uring: bool) -> StoreMetrics {
        StoreMetrics {
            atomic_publish_enabled: flag(atomic_publish),
            io_uring_enabled: flag(io_uring),
            ..self
        }
    }

    /// Everything at zero.
    pub fn new() -> (m: StoreMetrics)
        ensures
            m == StoreMetrics::zero(),
    {
        StoreMetrics {
            hits: 0,
            misses: 0,
            evictions: 0,
            invalidations: 0,
            stream_attach: 0,
            stream_attach_miss: 0,
            demotions: 0,
            keys: 0,
            partial_writes: 0,
            disk_bytes: 0,
            atomic_publish_enabled: 0,
            io_uring_enabled: 0,
        }
    }

    /// Counts a hit.
    pub fn count_hit(&mut self)
        ensures
            *final(self) == old(self).hit(),
    {
        self.hits = self.hits.wrapping_add(1);
    }

    /// Counts a miss.
    pub fn count_miss(&mut self)
        ensures
            *final(self) == old(self).missed(),
    {
        self.misses = self.misses.wrapping_add(1);
    }

    /// Counts a reader that attached by tag.
    pub fn count_attach(&mut self)
        ensures
            *final(self) == old(self).attached(),
    {
        self.hits = self.hits.wrapping_add(1);
        self.stream_attach = self.stream_attach.wrapping_add(1);
    }

    /// Counts a tag that matched nothing.
    pub fn count_attach_miss(&mut self)
        ensures
            *final(self) == old(self).attach_missed(),
    {
        self.misses = self.misses.wrapping_add(1);
        self.stream_attach_miss = self.stream_attach_miss.wrapping_add(1);
    }

    /// One more write is in progress.
    pub fn add_writer(&mut self)
        ensures
            *final(self) == old(self).writer_added(),
    {
        self.partial_writes = self.partial_writes.wrapping_add(1);
    }

    /// One write in progress is gone.
    pub fn remove_writer(&mut self)
        ensures
            *final(self) == old(self).writer_removed(),
    {
        self.partial_writes = self.partial_writes.wrapping_sub(1);
    }

    /// `n` writes in progress are gone at once.
    pub fn remove_writers(&mut self, n: usize)
        ensures
            *final(self) == old(self).writers_removed(n as nat),
    {
        self.partial_writes = self.partial_writes.wrapping_sub(n as i64);
    }

    /// Sets the number of complete objects in memory.
    pub fn set_keys(&mut self, n: usize)
        ensures
            *final(self) == old(self).with_keys(n as nat),
    {
        self.keys = n as i64;
    }

    /// Sets the number of bytes on disk.
    pub fn set_disk_bytes(&mut self, n: usize)
        ensures
            *final(self) == old(self).with_disk_bytes(n),
    {
        self.disk_bytes = n as i64;
    }

    /// Counts an object that left memory for the disk.
    pub fn count_demotion(&mut self)
        ensures
            *final(self) == old(self).demoted(),
    {
        self.keys = self.keys.wrapping_sub(1);
        self.demotions = self.demotions.wrapping_add(1);
    }

    /// Counts an eviction.
    pub fn count_eviction(&mut self)
        ensures
            *final(self) == old(self).evicted(),
    {
        self.evictions = self.evictions.wrapping_add(1);
    }

    /// Counts an invalidation.
    pub fn count_invalidation(&mut self)
        ensures
            *final(self) == old(self).invalidated(),
    {
        self.invalidations = self.invalidations.wrapping_add(1);
    }

    /// Sets the two feature gauges.
    pub fn set_features(&mut self, atomic_publish: bool, io_uring: bool)
        ensures
            *final(self) == old(self).with_features(atomic_publish, io_uring),
    {
        self.atomic_publish_enabled = if atomic_publish {
            1
        } else {
            0
        };
        self.io_uring_enabled = if io_uring {
            1
        } else {
            0
        };
    }
}

} // verus!
