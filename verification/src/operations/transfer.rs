//! A file's transfer through the ring: its data and holes in turn, then the
//! flush to disk.

use crate::error::{FxcpError, IoKind};
use crate::operations::segment;
use crate::operations::sparse::FileSegment;
use crate::operations::CopyStats;
use vstd::prelude::*;

verus! {

/// How often a refused operation is queued again.
pub const PUSH_ATTEMPTS: u8 = 10;

/// The next thing to do for a file.
#[derive(Debug, Clone, Copy, PartialEq, Eq, Structural)]
pub enum TransferStep {
    /// Copy this run of data.
    Copy { offset: u64, len: u64 },
    /// Make this range a hole of the target.
    Punch { offset: u64, len: u64 },
    /// Leave a hole too short to be worth punching.
    Leave,
    /// All segments are done.
    Finish,
}

/// A file's segments, how many of them are done, and what that came to.
#[derive(Debug)]
pub struct Transfer {
    pub segments: Vec<FileSegment>,
    pub next: usize,
    pub stats: CopyStats,
}

/// Statistics of nothing.
pub open spec fn no_stats() -> CopyStats {
    CopyStats { bytes_processed: 0, bytes_zeros: 0, io_micros: 0, ops_count: 0 }
}

impl Transfer {
    pub open spec fn wf(&self) -> bool {
        self.next <= self.segments@.len()
    }

    /// The transfer of `length` bytes at `offset`. Where the source can tell its
    /// holes, `mapped` lists its segments; else the range is one run of data.
    pub fn new(seek_hole: bool, offset: u64, length: u64, mapped: Vec<FileSegment>) -> (t: Transfer)
        ensures
            t.wf(),
            t.next == 0,
            t.stats == no_stats(),
            t.segments@ == (if seek_hole {
                mapped@
            } else {
                seq![FileSegment::Data { offset, len: length }]
            }),
    {
        let stats = CopyStats { bytes_processed: 0, bytes_zeros: 0, io_micros: 0, ops_count: 0 };
        if seek_hole {
            Transfer { segments: mapped, next: 0, stats }
        } else {
            let mut one: Vec<FileSegment> = Vec::new();
            one.push(FileSegment::Data { offset, len: length });
            assert(one@ =~= seq![FileSegment::Data { offset, len: length }]);
            Transfer { segments: one, next: 0, stats }
        }
    }

    /// What to do for a segment.
    pub open spec fn step_for(s: FileSegment) -> TransferStep {
        match s {
            FileSegment::Data { offset, len } => TransferStep::Copy { offset, len },
            FileSegment::Hole { offset, len } => if len >= segment::HOLE_THRESHOLD {
                TransferStep::Punch { offset, len }
            } else {
                TransferStep::Leave
            },
        }
    }

    /// Goes on to the next segment. A hole counts as zeros at once.
    pub fn next_step(&mut self) -> (step: TransferStep)
        requires
            old(self).wf(),
            old(self).next < old(self).segments@.len() && old(self).segments@[old(
                self,
            ).next as int] is Hole ==> old(self).stats.bytes_zeros + old(self).segments@[old(
                self,
            ).next as int].size() <= u64::MAX,
        ensures
            final(self).wf(),
            final(self).segments@ == old(self).segments@,
            if old(self).next < old(self).segments@.len() {
                let s = old(self).segments@[old(self).next as int];
                &&& step == Transfer::step_for(s)
                &&& final(self).next == old(self).next + 1
                &&& final(self).stats == (if s is Hole {
                    CopyStats {
                        bytes_zeros: (old(self).stats.bytes_zeros + s.size()) as u64,
                        ..old(self).stats
                    }
                } else {
                    old(self).stats
                })
            } else {
                &&& step == TransferStep::Finish
                &&& final(self).next == old(self).next
                &&& final(self).stats == old(self).stats
            },
    {
        if self.next >= self.segments.len() {
            return TransferStep::Finish;
        }
        let s: FileSegment = self.segments[self.next];
        self.next = self.next + 1;
        match s {
            FileSegment::Data { offset, len } => TransferStep::Copy { offset, len },
            FileSegment::Hole { offset, len } => {
                self.stats.bytes_zeros = self.stats.bytes_zeros + len;
                if len >= segment::HOLE_THRESHOLD {
                    TransferStep::Punch { offset, len }
                } else {
                    TransferStep::Leave
                }
            },
        }
    }

    /// Adds what a copied run of data came to.
    pub fn add_segment(&mut self, s: &CopyStats)
        requires
            old(self).wf(),
            old(self).stats.bytes_processed + s.bytes_processed <= u64::MAX,
            old(self).stats.bytes_zeros + s.bytes_zeros <= u64::MAX,
            old(self).stats.ops_count + s.ops_count <= u64::MAX,
        ensures
            final(self).wf(),
            final(self).segments@ == old(self).segments@,
            final(self).next == old(self).next,
            final(self).stats.bytes_processed == old(self).stats.bytes_processed
                + s.bytes_processed,
            final(self).stats.bytes_zeros == old(self).stats.bytes_zeros + s.bytes_zeros,
            final(self).stats.ops_count == old(self).stats.ops_count + s.ops_count,
            final(self).stats.io_micros == old(self).stats.io_micros,
    {
        self.stats.bytes_processed = self.stats.bytes_processed + s.bytes_processed;
        self.stats.bytes_zeros = self.stats.bytes_zeros + s.bytes_zeros;
        self.stats.ops_count = self.stats.ops_count + s.ops_count;
    }

    /// What the transfer came to, having taken `micros` microseconds.
    pub fn finish(self, micros: u64) -> (s: CopyStats)
        ensures
            s == (CopyStats { io_micros: micros, ..self.stats }),
    {
        let mut s: CopyStats = self.stats;
        s.io_micros = micros;
        s
    }
}

/// Attempts left to queue an operation that the ring has no room for.
#[derive(Debug, Clone, Copy)]
pub struct PushAttempts {
    pub left: u8,
}

impl PushAttempts {
    pub fn new() -> (p: PushAttempts)
        ensures
            p.left == PUSH_ATTEMPTS,
    {
        PushAttempts { left: PUSH_ATTEMPTS }
    }

    /// Notes a refusal; returns whether to try once more.
    pub fn refused(&mut self) -> (again: bool)
        ensures
            final(self).left == (if old(self).left > 0 {
                old(self).left - 1
            } else {
                0
            }),
            again == (final(self).left > 0),
    {
        if self.left > 0 {
            self.left = self.left - 1;
        }
        self.left > 0
    }

    /// The error for a hole that could not be queued.
    pub fn hole_refused() -> (e: FxcpError)
        ensures
            segment::is_io_error(e, IoKind::Other, "Submission queue full (fallocate)"@),
    {
        FxcpError::Io {
            kind: IoKind::Other,
            errno: None,
            message: "Submission queue full (fallocate)".to_owned(),
        }
    }
}

/// Where waiting for a flush stands.
#[derive(Debug)]
pub enum FsyncStep {
    /// Look for another completion.
    Again,
    /// The flush is done.
    Done,
    /// The flush failed.
    Failed(FxcpError),
    /// The deadline has passed: flush without the ring.
    TimedOut,
    /// Wait for the ring.
    Wait,
}

/// What a completion means while a flush is awaited: the flush has tag zero.
/// `said` is what the system says of a failure.
pub fn fsync_completion(tag: u64, result: i32, said: &str) -> (step: FsyncStep)
    requires
        result > i32::MIN,
    ensures
        if tag != 0 {
            step is Again
        } else if result < 0 {
            step is Failed && segment::is_os_error(step->Failed_0, -result, said@)
        } else {
            step is Done
        },
{
    if tag != 0 {
        FsyncStep::Again
    } else if result < 0 {
        FsyncStep::Failed(segment::os_error(-result, said))
    } else {
        FsyncStep::Done
    }
}

/// What to do while a flush is awaited and no completion is ready.
pub fn fsync_idle(now_us: u64, deadline_us: u64) -> (step: FsyncStep)
    ensures
        if now_us > deadline_us {
            step is TimedOut
        } else {
            step is Wait
        },
{
    if now_us > deadline_us {
        FsyncStep::TimedOut
    } else {
        FsyncStep::Wait
    }
}

/// How long flushes take: a running average and a running deviation, in
/// microseconds.
#[derive(Debug, Clone)]
pub struct FsyncLatencyTracker {
    pub avg_us: u64,
    pub deviation_us: u64,
}

impl Default for FsyncLatencyTracker {
    /// One second, give or take half a second.
    fn default() -> (t: Self)
        ensures
            t.avg() == 1_000_000,
            t.deviation() == 500_000,
    {
        FsyncLatencyTracker { avg_us: 1_000_000, deviation_us: 500_000 }
    }
}

impl FsyncLatencyTracker {
    /// The average, in microseconds.
    pub open spec fn avg(&self) -> int {
        self.avg_us as int
    }

    /// The deviation, in microseconds.
    pub open spec fn deviation(&self) -> int {
        self.deviation_us as int
    }

    /// Takes a flush of `sample` microseconds into account: an eighth of the new
    /// average, and a quarter of the new deviation is its distance from the old
    /// average.
    pub fn record_success(&mut self, sample: u64)
        requires
            old(self).avg() * 7 + sample <= u64::MAX,
            old(self).deviation() * 3 + old(self).avg() + sample <= u64::MAX,
        ensures
            final(self).avg() == (old(self).avg() * 7 + sample) / 8,
            final(self).deviation() == (old(self).deviation() * 3 + (if sample > old(self).avg() {
                sample - old(self).avg()
            } else {
                old(self).avg() - sample
            })) / 4,
    {
        let diff: u64 = if sample > self.avg_us {
            sample - self.avg_us
        } else {
            self.avg_us - sample
        };
        self.deviation_us = (self.deviation_us * 3 + diff) / 4;
        self.avg_us = (self.avg_us * 7 + sample) / 8;
    }

    /// Takes a flush into account that did not finish in time: both double, the
    /// average to at most thirty seconds.
    pub fn record_timeout(&mut self)
        ensures
            final(self).avg() == (if old(self).avg() * 2 <= 30_000_000 {
                old(self).avg() * 2
            } else {
                30_000_000
            }),
            final(self).deviation() == (if old(self).deviation() * 2 <= u64::MAX {
                old(self).deviation() * 2
            } else {
                u64::MAX as int
            }),
    {
        self.avg_us = if self.avg_us <= 15_000_000 {
            self.avg_us * 2
        } else {
            30_000_000
        };
        self.deviation_us = if self.deviation_us <= u64::MAX / 2 {
            self.deviation_us * 2
        } else {
            u64::MAX
        };
    }

    /// The time to allow for a flush, in microseconds: the average and four
    /// deviations, between five seconds and a minute.
    pub fn get_timeout(&self) -> (us: u64)
        requires
            self.avg() + 4 * self.deviation() <= u64::MAX,
        ensures
            ({
                let t = self.avg() + 4 * self.deviation();
                us == (if t < 5_000_000 {
                    5_000_000
                } else if t > 60_000_000 {
                    60_000_000
                } else {
                    t
                })
            }),
    {
        let t: u64 = self.avg_us + 4 * self.deviation_us;
        if t < 5_000_000 {
            5_000_000
        } else if t > 60_000_000 {
            60_000_000
        } else {
            t
        }
    }
}

/// Data is copied whole, to where it is; a hole is punched where it is long enough, and
/// else left as the new file has it.
pub proof fn every_segment_has_its_step(s: FileSegment)
    ensures
        s matches FileSegment::Data { offset, len } ==> Transfer::step_for(s) == (
        TransferStep::Copy { offset, len }),
        s matches FileSegment::Hole { offset, len } ==> Transfer::step_for(s) == if len < 16384 {
            TransferStep::Leave
        } else {
            TransferStep::Punch { offset, len }
        },
        no_stats().bytes_processed == 0 && no_stats().bytes_zeros == 0 && no_stats().ops_count == 0
            && no_stats().io_micros == 0,
{
}

/// The mean and the deviation are those that are kept.
pub proof fn latency_is_what_is_kept(t: FsyncLatencyTracker)
    ensures
        t.avg() == t.avg_us,
        t.deviation() == t.deviation_us,
{
}

/// Every segment is taken up once, in order, as what it is, and the transfer ends behind the
/// last.
pub proof fn every_segment_is_taken_up(t: &mut Transfer, step: TransferStep)
    requires
        call_ensures(Transfer::next_step, (t,), step),
        old(t).next < old(t).segments@.len() && old(t).segments@[old(t).next as int] is Hole ==> old(
            t,
        ).stats.bytes_zeros + old(t).segments@[old(t).next as int].size() <= u64::MAX,
    ensures
        old(t).next >= old(t).segments@.len() ==> step == TransferStep::Finish && final(t).next
            == old(t).next,
        old(t).next < old(t).segments@.len() ==> final(t).next == old(t).next + 1 && step
            != TransferStep::Finish,
        old(t).next < old(t).segments@.len() ==> (match old(t).segments@[old(t).next as int] {
            FileSegment::Data { offset, len } => step == (TransferStep::Copy { offset, len })
                && final(t).stats == old(t).stats,
            FileSegment::Hole { offset, len } => (step == TransferStep::Leave <==> len < 16384)
                && (step == TransferStep::Leave || step == (TransferStep::Punch { offset, len }))
                && final(t).stats.bytes_zeros == old(t).stats.bytes_zeros + len,
        }),
{
}

/// A completion that is another's is waited past, a failed one fails, and the deadline ends
/// the wait.
pub proof fn sync_is_waited_for(
    tag: u64,
    result: i32,
    said: &str,
    step: FsyncStep,
    now_us: u64,
    deadline_us: u64,
    idle: FsyncStep,
)
    requires
        call_ensures(fsync_completion, (tag, result, said), step),
        call_ensures(fsync_idle, (now_us, deadline_us), idle),
        result > i32::MIN,
    ensures
        step is Again <==> tag != 0,
        step is Failed <==> tag == 0 && result < 0,
        step is Done <==> tag == 0 && result >= 0,
        idle is TimedOut <==> deadline_us < now_us,
        idle is Wait <==> now_us <= deadline_us,
{
}

/// A push is tried ten times in all.
pub proof fn pushes_are_limited(p: PushAttempts, q: &mut PushAttempts, again: bool)
    requires
        call_ensures(PushAttempts::new, (), p),
        call_ensures(PushAttempts::refused, (q,), again),
    ensures
        p.left == 10,
        old(q).left > 0 ==> final(q).left == old(q).left - 1,
        old(q).left == 0 ==> final(q).left == 0,
        again <==> old(q).left > 1,
{
}

/// The time that a sync may take lies between five seconds and a minute, and in between is
/// the mean and four deviations.
pub proof fn timeout_follows_latency(t: &FsyncLatencyTracker, us: u64)
    requires
        call_ensures(FsyncLatencyTracker::get_timeout, (t,), us),
        t.avg() + 4 * t.deviation() <= u64::MAX,
    ensures
        5_000_000 <= us <= 60_000_000,
        5_000_000 <= t.avg_us + 4 * t.deviation_us <= 60_000_000 ==> us == t.avg_us + 4
            * t.deviation_us,
        t.avg_us + 4 * t.deviation_us < 5_000_000 ==> us == 5_000_000,
        t.avg_us + 4 * t.deviation_us > 60_000_000 ==> us == 60_000_000,
{
}

} // verus!
