//! Rolling byte budget for content handed to the display surface.
//!
//! The ledger is an advisory accounting gate, not an allocator: it never
//! reclaims anything, it only forgets everything once per amnesty
//! interval, regardless of how much is currently booked.

use crate::errors::CoreError;
use vstd::prelude::*;

verus! {

/// Seconds between two unconditional resets of the ledger.
pub const CLEANUP_INTERVAL: u64 = 300;

/// Ceiling on the bytes the ledger will admit between two resets.
pub const MEMORY_LIMIT: u64 = 512 * 1024 * 1024;

/// The rolling ledger: bytes admitted since the last reset, and when
/// that reset happened (seconds of wall-clock time, assumed monotone).
pub struct MemoryMonitor {
    pub total_allocated: u64,
    pub last_cleanup: u64,
}

/// State of the ledger after the periodic amnesty check at time `now_secs`.
pub open spec fn spec_cleanup(m: MemoryMonitor, now_secs: u64) -> MemoryMonitor {
    if now_secs > m.last_cleanup + CLEANUP_INTERVAL {
        MemoryMonitor { total_allocated: 0, last_cleanup: now_secs }
    } else {
        m
    }
}

/// Whether a request of `size` bytes fits under the ceiling given the
/// bytes already booked.
pub open spec fn spec_admissible(m: MemoryMonitor, size: u64) -> bool {
    m.total_allocated + size <= MEMORY_LIMIT
}

impl Default for MemoryMonitor {
    /// A fresh ledger: nothing booked, never reset.
    fn default() -> (r: Self)
        ensures
            r.total_allocated == 0,
            r.last_cleanup == 0,
    {
        MemoryMonitor { total_allocated: 0, last_cleanup: 0 }
    }
}

impl MemoryMonitor {
    /// Zeroes the ledger once more than [`CLEANUP_INTERVAL`] seconds have
    /// passed since the previous reset; otherwise leaves it untouched.
    /// Called before every admission decision.
    pub fn check_and_cleanup(&mut self, now_secs: u64)
        ensures
            *final(self) == spec_cleanup(*old(self), now_secs),
    {
        let last = self.last_cleanup;
        if now_secs > last && now_secs - last > CLEANUP_INTERVAL {
            self.total_allocated = 0;
            self.last_cleanup = now_secs;
        }
    }

    /// Books `size` bytes, failing without booking anything if the total
    /// would cross [`MEMORY_LIMIT`].
    pub fn allocate(&mut self, size: u64) -> (r: Result<(), CoreError>)
        ensures
            r is Ok <==> spec_admissible(*old(self), size),
            r is Ok ==> *final(self) == (MemoryMonitor {
                total_allocated: (old(self).total_allocated + size) as u64,
                ..*old(self)
            }),
            r is Err ==> *final(self) == *old(self) && r->Err_0 is LimitExceeded,
    {
        let current = self.total_allocated;
        if current > MEMORY_LIMIT || size > MEMORY_LIMIT - current {
            return Err(CoreError::LimitExceeded);
        }
        self.total_allocated = current + size;
        Ok(())
    }

    /// The admission protocol: run the amnesty check, then try to book
    /// `size` bytes against whatever the check left in the ledger.
    pub fn admit_bytes(&mut self, now_secs: u64, size: u64) -> (r: Result<(), CoreError>)
        ensures
            r is Ok <==> spec_admissible(spec_cleanup(*old(self), now_secs), size),
            r is Ok ==> *final(self) == (MemoryMonitor {
                total_allocated: (spec_cleanup(*old(self), now_secs).total_allocated + size) as u64,
                ..spec_cleanup(*old(self), now_secs)
            }),
            r is Err ==> *final(self) == spec_cleanup(*old(self), now_secs) && r->Err_0 is LimitExceeded,
    {
        self.check_and_cleanup(now_secs);
        self.allocate(size)
    }
}

/// Once an admission has been denied, the ledger is left exactly as it
/// was, so repeating the same request within the same amnesty interval
/// is denied again: the first request that would cross the ceiling fails,
/// and so does every identical request after it.
pub proof fn lemma_denied_stays_denied(m: MemoryMonitor, now1: u64, now2: u64, size: u64)
    requires
        !spec_admissible(spec_cleanup(m, now1), size),
        now2 <= spec_cleanup(m, now1).last_cleanup + CLEANUP_INTERVAL,
    ensures
        !spec_admissible(spec_cleanup(spec_cleanup(m, now1), now2), size),
{
}

/// As soon as the amnesty interval has elapsed, an admission of any size
/// up to the ceiling succeeds again, with no explicit reset call: the
/// periodic check alone clears the ledger.
pub proof fn lemma_amnesty_readmits(m: MemoryMonitor, now_secs: u64, size: u64)
    requires
        now_secs > m.last_cleanup + CLEANUP_INTERVAL,
        size <= MEMORY_LIMIT,
    ensures
        spec_admissible(spec_cleanup(m, now_secs), size),
{
}

} // verus!
