//! Counters that gather their counts before they hand them on.

use vstd::prelude::*;

verus! {

/// The limit on buffers in bytes, out of one in mebibytes.
pub fn initialize_metrics(global_limit_mb: u64) -> (bytes: u64)
    requires
        global_limit_mb * 1048576 <= u64::MAX,
    ensures
        bytes == global_limit_mb * 1048576,
{
    global_limit_mb * 1048576
}

/// A counter that hands its counts on in batches.
#[derive(Debug)]
pub struct BatchedCounter {
    pub local_count: u64,
    pub batch_size: u64,
}

impl BatchedCounter {
    /// What is handed on, and what is left, when the count comes to `total`.
    pub open spec fn settled(self, total: int, handed: u64) -> bool {
        if total >= self.batch_size {
            handed == total && self.local_count == 0
        } else {
            handed == 0 && self.local_count == total
        }
    }

    /// A counter with nothing counted.
    pub fn new(batch_size: u64) -> (c: Self)
        ensures
            c.local_count == 0,
            c.batch_size == batch_size,
    {
        BatchedCounter { local_count: 0, batch_size }
    }

    /// Counts one, and says how much to hand on.
    pub fn inc(&mut self) -> (handed: u64)
        requires
            old(self).local_count < u64::MAX,
        ensures
            final(self).batch_size == old(self).batch_size,
            final(self).settled(old(self).local_count + 1, handed),
    {
        self.local_count = self.local_count + 1;
        if self.local_count >= self.batch_size {
            self.flush()
        } else {
            0
        }
    }

    /// Counts `val`, and says how much to hand on.
    pub fn inc_by(&mut self, val: u64) -> (handed: u64)
        requires
            old(self).local_count + val <= u64::MAX,
        ensures
            final(self).batch_size == old(self).batch_size,
            final(self).settled(old(self).local_count + val, handed),
    {
        self.local_count = self.local_count + val;
        if self.local_count >= self.batch_size {
            self.flush()
        } else {
            0
        }
    }

    /// Hands everything on.
    pub fn flush(&mut self) -> (handed: u64)
        ensures
            handed == old(self).local_count,
            final(self).local_count == 0,
            final(self).batch_size == old(self).batch_size,
    {
        let handed: u64 = self.local_count;
        self.local_count = 0;
        handed
    }
}

/// Nothing gets lost on the way: what is handed on and what is kept is together
/// what was counted, and less than a batch is kept.
pub proof fn counts_are_kept(c: BatchedCounter, total: int, handed: u64)
    requires
        0 <= total <= u64::MAX,
        c.settled(total, handed),
    ensures
        handed + c.local_count == total,
        c.local_count == 0 || c.local_count < c.batch_size,
{
}

/// `2` to the power of `64`, at which a shared count wraps.
pub open spec fn wrap() -> int {
    0x1_0000_0000_0000_0000
}

/// A counter that goes up and down, and adds what it has counted to a shared
/// count in batches.
#[derive(Debug)]
pub struct BatchedAtomicCounter {
    pub local_count: i64,
    pub batch_size: i64,
}

impl BatchedAtomicCounter {
    /// What is left here, and the shared count, when the own count comes to `n`.
    pub open spec fn settled(self, n: int, flushes: bool, before: u64, after: u64) -> bool {
        if flushes {
            self.local_count == 0 && after == (before + n) % wrap()
        } else {
            self.local_count == n && after == before
        }
    }

    /// A counter with nothing counted.
    pub fn new(batch_size: i64) -> (c: Self)
        ensures
            c.local_count == 0,
            c.batch_size == batch_size,
    {
        BatchedAtomicCounter { local_count: 0, batch_size }
    }

    /// Counts one up.
    pub fn inc(&mut self, global: &mut u64)
        requires
            old(self).local_count < i64::MAX,
        ensures
            final(self).batch_size == old(self).batch_size,
            final(self).settled(
                old(self).local_count + 1,
                old(self).local_count + 1 >= old(self).batch_size,
                *old(global),
                *final(global),
            ),
    {
        self.local_count = self.local_count + 1;
        if self.local_count >= self.batch_size {
            self.flush(global);
        }
    }

    /// Counts one down.
    pub fn dec(&mut self, global: &mut u64)
        requires
            i64::MIN + 1 < old(self).local_count,
            i64::MIN < old(self).batch_size,
        ensures
            final(self).batch_size == old(self).batch_size,
            final(self).settled(
                old(self).local_count - 1,
                old(self).local_count - 1 <= -old(self).batch_size,
                *old(global),
                *final(global),
            ),
    {
        self.local_count = self.local_count - 1;
        if self.local_count <= -self.batch_size {
            self.flush(global);
        }
    }

    /// Adds everything to the shared count.
    pub fn flush(&mut self, global: &mut u64)
        requires
            i64::MIN < old(self).local_count,
        ensures
            final(self).batch_size == old(self).batch_size,
            final(self).settled(old(self).local_count as int, true, *old(global), *final(global)),
    {
        if self.local_count != 0 {
            if self.local_count > 0 {
                *global = global.wrapping_add(self.local_count as u64);
            } else {
                *global = global.wrapping_sub((-self.local_count) as u64);
            }
            self.local_count = 0;
        }
    }
}

/// A shared count and a counter's own count together change by exactly what was
/// counted.
pub proof fn shared_counts_are_kept(
    c: BatchedAtomicCounter,
    n: int,
    flushes: bool,
    before: u64,
    after: u64,
)
    requires
        c.settled(n, flushes, before, after),
    ensures
        (after + c.local_count) % wrap() == (before + n) % wrap(),
{
}

/// Counts are handed on once a batch is full, all at once, and not before.
pub proof fn full_batches_are_handed_on(
    c: BatchedCounter,
    s: BatchedAtomicCounter,
    total: int,
    handed: u64,
    flushes: bool,
    before: u64,
    after: u64,
)
    requires
        0 <= total <= u64::MAX,
        c.settled(total, handed),
        s.settled(total, flushes, before, after),
        before + total <= u64::MAX,
    ensures
        total >= c.batch_size ==> handed == total && c.local_count == 0,
        total < c.batch_size ==> handed == 0 && c.local_count == total,
        flushes ==> after == before + total && s.local_count == 0,
        !flushes ==> after == before && s.local_count == total,
{
}

} // verus!
