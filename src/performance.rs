//! Performance counters, and a pool that hands out zeroed buffers.

use vstd::prelude::*;
use crate::monitoring::sat_add;

verus! {

/// Request, error and response-time counters (they stop at their largest
/// value) and a live connection gauge.
pub struct PerformanceMonitor {
    pub request_count: u64,
    pub error_count: u64,
    pub active_connections: usize,
    /// Summed response times, in microseconds.
    pub total_response_time: u64,
}

impl PerformanceMonitor {
    pub fn new() -> (r: Self)
        ensures
            r == (PerformanceMonitor { request_count: 0, error_count: 0, active_connections: 0, total_response_time: 0 }),
    {
        PerformanceMonitor { request_count: 0, error_count: 0, active_connections: 0, total_response_time: 0 }
    }

    pub fn record_request(&mut self)
        ensures
            *final(self) == (PerformanceMonitor { request_count: sat_add(old(self).request_count, 1), ..*old(self) }),
    {
        self.request_count = self.request_count.saturating_add(1);
    }

    pub fn record_error(&mut self)
        ensures
            *final(self) == (PerformanceMonitor { error_count: sat_add(old(self).error_count, 1), ..*old(self) }),
    {
        self.error_count = self.error_count.saturating_add(1);
    }

    /// Counts an opened connection and returns the number now active.
    pub fn increment_connections(&mut self) -> (r: usize)
        ensures
            *final(self) == (PerformanceMonitor {
                active_connections: if old(self).active_connections == usize::MAX {
                    usize::MAX
                } else {
                    (old(self).active_connections + 1) as usize
                },
                ..*old(self)
            }),
            r == final(self).active_connections,
    {
        self.active_connections = self.active_connections.saturating_add(1);
        self.active_connections
    }

    /// Counts a closed connection and returns the number still active.
    pub fn decrement_connections(&mut self) -> (r: usize)
        ensures
            *final(self) == (PerformanceMonitor {
                active_connections: if old(self).active_connections == 0 {
                    0
                } else {
                    (old(self).active_connections - 1) as usize
                },
                ..*old(self)
            }),
            r == final(self).active_connections,
    {
        if self.active_connections > 0 {
            self.active_connections = self.active_connections - 1;
        }
        self.active_connections
    }

    /// Adds one response time, in microseconds.
    pub fn record_response_time(&mut self, micros: u64)
        ensures
            *final(self) == (PerformanceMonitor {
                total_response_time: sat_add(old(self).total_response_time, micros),
                ..*old(self)
            }),
    {
        self.total_response_time = self.total_response_time.saturating_add(micros);
    }

    /// Zeroes the request, error and response-time counters; the gauge stays.
    pub fn reset_stats(&mut self)
        ensures
            *final(self) == (PerformanceMonitor {
                request_count: 0,
                error_count: 0,
                total_response_time: 0,
                ..*old(self)
            }),
    {
        self.request_count = 0;
        self.error_count = 0;
        self.total_response_time = 0;
    }
}

pub struct MemoryPool {}

impl MemoryPool {
    pub fn new() -> (r: Self) {
        MemoryPool {}
    }

    /// A zeroed buffer of `size` bytes.
    pub fn allocate(&self, size: usize) -> (r: Vec<u8>)
        ensures
            r@ == Seq::new(size as nat, |i: int| 0u8),
    {
        let mut v: Vec<u8> = Vec::new();
        let mut i: usize = 0;
        while i < size
            invariant
                i <= size,
                v@ == Seq::new(i as nat, |j: int| 0u8),
            decreases size - i,
        {
            v.push(0);
            i = i + 1;
            assert(v@ =~= Seq::new(i as nat, |j: int| 0u8));
        }
        v
    }
}

} // verus!
