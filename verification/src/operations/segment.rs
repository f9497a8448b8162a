//! Copying one run of data through a ring of buffers: which reads and writes to
//! queue, what each completion means, and when the segment is done. Whoever
//! drives the ring queues what is asked for and reports what came of it.

use crate::buffer::{self, BufferPool};
use crate::errno::{ECANCELED, EINTR, EINVAL, EOPNOTSUPP};
use crate::error::{FxcpError, IoKind};
use crate::operations::CopyStats;
use crate::text;
use vstd::prelude::*;
use vstd::string::StringExecFns;

verus! {

/// The bits of a completion tag that say what was queued.
pub const OP_TYPE_MASK: u64 = 0xFFFF_0000_0000_0000;

/// The bits of a completion tag that number the buffer.
pub const INDEX_MASK: u64 = 0x0000_0000_0000_FFFF;

pub const READ_OP: u64 = 0x0001_0000_0000_0000;

pub const WRITE_OP: u64 = 0x0002_0000_0000_0000;

pub const FALLOC_OP: u64 = 0x0003_0000_0000_0000;

pub const HOLE_OP: u64 = 0x0004_0000_0000_0000;

/// Flag of a read or write that bypasses the page cache.
pub const RWF_UNCACHED: i32 = 0x40;

/// Flag of a write that must not tear.
pub const RWF_ATOMIC: i32 = 0x80;

/// The shortest run of zeros that is worth a hole.
pub const HOLE_THRESHOLD: u64 = 16384;

/// What was queued under a tag.
pub open spec fn op_of(tag: u64) -> u64 {
    tag & OP_TYPE_MASK
}

/// The buffer that was queued under a tag.
pub open spec fn index_of(tag: u64) -> u16 {
    (tag & INDEX_MASK) as u16
}

/// The tag under which an operation on a buffer is queued.
pub open spec fn tag_of(op: u64, index: u16) -> u64 {
    op | index as u64
}

/// A tag tells the operation and the buffer that it was made of.
pub proof fn tag_round_trip(op: u64, index: u16)
    requires
        op == READ_OP || op == WRITE_OP || op == FALLOC_OP || op == HOLE_OP,
    ensures
        op_of(tag_of(op, index)) == op,
        index_of(tag_of(op, index)) == index,
        tag_of(op, index) != 0,
{
    assert(op == 0x0001_0000_0000_0000u64 || op == 0x0002_0000_0000_0000u64 || op
        == 0x0003_0000_0000_0000u64 || op == 0x0004_0000_0000_0000u64 ==> (op | index as u64)
        & 0xFFFF_0000_0000_0000u64 == op && ((op | index as u64) & 0x0000_0000_0000_FFFFu64) as u16
        == index && (op | index as u64) != 0) by (bit_vector);
}

/// Whether a block holds nothing but zeros.
pub open spec fn all_zero(data: Seq<u8>) -> bool {
    forall|i: int| 0 <= i < data.len() ==> data[i] == 0
}

/// Whether a block holds nothing but zeros.
pub fn is_block_zero(buf: &[u8]) -> (zero: bool)
    ensures
        zero == all_zero(buf@),
{
    let mut i: usize = 0;
    while i < buf.len()
        invariant
            i <= buf@.len(),
            forall|j: int| 0 <= j < i ==> buf@[j] == 0,
        decreases buf@.len() - i,
    {
        if buf[i] != 0 {
            return false;
        }
        i = i + 1;
    }
    true
}

/// Why a write of `length` bytes at `offset` out of memory at `address` cannot
/// be atomic, if it cannot: the device has no atomic writes, or the length is no
/// power of two, is out of the device's bounds, or does not divide the offset or
/// the address.
pub open spec fn atomic_fault(min: u32, max: u32, offset: u64, length: u32, address: usize) -> Option<
    (IoKind, Seq<char>),
> {
    let n = text::decimal(length as nat);
    if min == 0 || max == 0 {
        Some((IoKind::Unsupported, "Atomic writes not supported by hardware"@))
    } else if length == 0 || length & ((length - 1) as u32) != 0 {
        Some((IoKind::InvalidInput, "Atomic write length "@ + n + " is not power of 2"@))
    } else if length < min || length > max {
        Some(
            (
                IoKind::InvalidInput,
                "Atomic write length "@ + n + " out of bounds ("@ + text::decimal(min as nat) + "-"@
                    + text::decimal(max as nat) + ")"@,
            ),
        )
    } else if offset % (length as u64) != 0 {
        Some(
            (
                IoKind::InvalidInput,
                "Atomic write offset "@ + text::decimal(offset as nat)
                    + " not aligned to length "@ + n,
            ),
        )
    } else if (address as u64) % (length as u64) != 0 {
        Some((IoKind::InvalidInput, "Buffer memory not aligned for atomic write"@))
    } else {
        None
    }
}

/// An I/O error with a message and no error number.
pub open spec fn is_io_error(e: FxcpError, kind: IoKind, message: Seq<char>) -> bool {
    e matches FxcpError::Io { kind: k, errno, message: m } && k == kind && errno is None && m@
        == message
}

fn io_error(kind: IoKind, message: String) -> (e: FxcpError)
    ensures
        is_io_error(e, kind, message@),
{
    FxcpError::Io { kind, errno: None, message }
}

/// Checks that a write can be atomic.
pub fn check_atomic_invariants(min: u32, max: u32, offset: u64, length: u32, address: usize) -> (res:
    Result<(), FxcpError>)
    ensures
        match atomic_fault(min, max, offset, length, address) {
            Some(f) => res is Err && is_io_error(res->Err_0, f.0, f.1),
            None => res is Ok,
        },
{
    if min == 0 || max == 0 {
        return Err(
            io_error(IoKind::Unsupported, "Atomic writes not supported by hardware".to_owned()),
        );
    }
    let n = text::decimal_of(length as u64);
    if length == 0 || length & (length - 1) != 0 {
        return Err(
            io_error(
                IoKind::InvalidInput,
                text::concat3("Atomic write length ", n.as_str(), " is not power of 2"),
            ),
        );
    }
    if length < min || length > max {
        let mut m = text::concat3("Atomic write length ", n.as_str(), " out of bounds (");
        let lo = text::decimal_of(min as u64);
        let hi = text::decimal_of(max as u64);
        m.append(lo.as_str());
        m.append("-");
        m.append(hi.as_str());
        m.append(")");
        return Err(io_error(IoKind::InvalidInput, m));
    }
    if offset % (length as u64) != 0 {
        let at = text::decimal_of(offset);
        let mut m = text::concat3(
            "Atomic write offset ",
            at.as_str(),
            " not aligned to length ",
        );
        m.append(n.as_str());
        return Err(io_error(IoKind::InvalidInput, m));
    }
    if (address as u64) % (length as u64) != 0 {
        return Err(
            io_error(
                IoKind::InvalidInput,
                "Buffer memory not aligned for atomic write".to_owned(),
            ),
        );
    }
    Ok(())
}

/// How a segment is to be copied.
#[derive(Debug, Clone, Copy)]
pub struct SegmentConfig {
    /// Look for blocks of zeros and leave holes in their place.
    pub vdo_opt: bool,
    /// Ask for writes that do not tear.
    pub use_atomic: bool,
    /// Reads bypass the page cache.
    pub read_uncached: bool,
    /// Writes bypass the page cache.
    pub write_uncached: bool,
    /// The least and greatest atomic write; zero where there is none.
    pub atomic_min: u32,
    pub atomic_max: u32,
    /// Whether the target still takes atomic writes.
    pub atomic_writes: bool,
    /// At most this many operations in flight.
    pub buffer_limit: Option<usize>,
}

/// A read to queue, and in linked mode the write to queue right behind it.
#[derive(Debug, Clone, Copy)]
pub struct ReadPlan {
    pub index: u16,
    pub offset: u64,
    pub len: u32,
    pub read_flags: i32,
    pub read_tag: u64,
    /// Flags and tag of the linked write.
    pub linked: Option<(i32, u64)>,
}

/// What a completion asks to be queued next.
#[derive(Debug, Clone, Copy, PartialEq, Eq, Structural)]
pub enum NextOp {
    /// Nothing.
    Nothing,
    /// A write once more, no longer atomic.
    Retry { index: u16, offset: u64, len: u32, flags: i32, tag: u64 },
    /// The write that goes with a finished read.
    Write { index: u16, offset: u64, len: u32, flags: i32, tag: u64 },
    /// A hole in place of a block of zeros.
    Punch { index: u16, offset: u64, size: u64, tag: u64 },
}

/// What to do when no completion is ready.
#[derive(Debug, Clone, Copy, PartialEq, Eq, Structural)]
pub enum IdleStep {
    /// Queue more reads.
    Fill,
    /// Wait for a completion.
    Wait,
    /// Nothing is in flight.
    Leave,
}

/// What a completion amounts to.
#[derive(Debug, Clone, Copy, PartialEq, Eq, Structural)]
pub enum Verdict {
    /// It belongs to a hole or to no operation of the segment.
    Ignored,
    /// A write whose linked read failed.
    Cancelled,
    /// An atomic write that the target does not take.
    AtomicRefused,
    /// A failed operation.
    Failed,
    /// A finished operation after an earlier failure.
    Drained,
    ReadDone,
    WriteDone,
    PunchDone,
    /// Nothing that was ever queued.
    Unknown,
}

/// The state of a segment's copy.
#[derive(Debug)]
pub struct SegmentCopy {
    pub config: SegmentConfig,
    /// The largest read.
    pub chunk: u64,
    /// At most this many operations in flight.
    pub limit: u64,
    pub start: u64,
    pub total: u64,
    /// Where the next read starts, and how much is left to read.
    pub offset: u64,
    pub length: u64,
    /// Operations queued and not completed.
    pub inflight: u64,
    /// Whether something was queued since the last submission.
    pub pending: bool,
    /// Whether the target still takes atomic writes.
    pub atomic_writes: bool,
    /// Which buffers are to be written atomically.
    pub intent: Vec<bool>,
    /// The file offset of each buffer's content.
    pub context: Vec<u64>,
    pub error: Option<FxcpError>,
    pub bytes_processed: u64,
    pub bytes_zeros: u64,
    pub ops_count: u64,
    /// Atomic writes that were repeated without atomicity.
    pub fallbacks: u64,
}

impl SegmentCopy {
    /// What has been queued and what is left make up the segment; every read so
    /// far took at least one byte; at most one operation more than the limit is
    /// in flight (a linked pair).
    pub open spec fn wf(&self) -> bool {
        &&& 0 < self.chunk <= u32::MAX
        &&& self.start + self.total <= u64::MAX
        &&& self.offset + self.length == self.start + self.total
        &&& self.start <= self.offset
        &&& self.ops_count <= self.offset - self.start
        &&& self.limit <= 65535
        &&& self.inflight <= self.limit + 1
        &&& self.intent@.len() == self.context@.len()
    }

    /// Reads carry their write behind them.
    pub open spec fn is_linked(&self) -> bool {
        !self.config.vdo_opt && !self.config.use_atomic
    }

    pub open spec fn read_flags(&self) -> i32 {
        if self.config.read_uncached {
            RWF_UNCACHED
        } else {
            0
        }
    }

    /// The flags of a write, which may be asked to be atomic.
    pub open spec fn write_flags(&self, atomic: bool) -> i32 {
        if self.config.write_uncached {
            if atomic {
                0xC0
            } else {
                RWF_UNCACHED
            }
        } else {
            if atomic {
                RWF_ATOMIC
            } else {
                0
            }
        }
    }

    /// The length of the next read.
    pub open spec fn next_len(&self) -> u32 {
        let n = if self.length <= self.chunk {
            self.length
        } else {
            self.chunk
        };
        if self.config.use_atomic && self.config.atomic_max > 0 && n > self.config.atomic_max {
            self.config.atomic_max
        } else {
            n as u32
        }
    }

    /// Everything but the buffers' notes, the counters and the position is the
    /// same.
    pub open spec fn same_setup(&self, other: &SegmentCopy) -> bool {
        &&& self.config == other.config
        &&& self.chunk == other.chunk
        &&& self.limit == other.limit
        &&& self.start == other.start
        &&& self.total == other.total
        &&& self.intent@.len() == other.intent@.len()
    }

    /// The position and what is left to read are the same.
    pub open spec fn same_position(&self, other: &SegmentCopy) -> bool {
        &&& self.offset == other.offset
        &&& self.length == other.length
        &&& self.ops_count == other.ops_count
    }

    /// A segment of `total_len` bytes at `start_offset`, with nothing queued.
    pub fn new(
        config: SegmentConfig,
        pool: &BufferPool,
        start_offset: u64,
        total_len: u64,
    ) -> (s: SegmentCopy)
        requires
            start_offset + total_len <= u64::MAX,
            0 < pool.chunk() <= u32::MAX,
            pool.count() <= 65535,
        ensures
            s.wf(),
            s.config == config,
            s.chunk == pool.chunk(),
            s.limit == (match config.buffer_limit {
                Some(n) => if n <= pool.count() {
                    n as nat
                } else {
                    pool.count()
                },
                None => pool.count(),
            }),
            s.start == start_offset && s.total == total_len,
            s.offset == start_offset && s.length == total_len,
            s.inflight == 0 && !s.pending && s.error is None,
            s.atomic_writes == config.atomic_writes,
            s.intent@ == Seq::new(pool.count(), |i: int| false),
            s.context@ == Seq::new(pool.count(), |i: int| 0u64),
            s.bytes_processed == 0 && s.bytes_zeros == 0 && s.ops_count == 0 && s.fallbacks == 0,
    {
        let capacity: usize = pool.capacity();
        let limit: usize = match config.buffer_limit {
            Some(n) => if n <= capacity {
                n
            } else {
                capacity
            },
            None => capacity,
        };
        let intent: Vec<bool> = vec![false; capacity];
        let context: Vec<u64> = vec![0u64; capacity];
        assert(intent@ =~= Seq::new(pool.count(), |i: int| false));
        assert(context@ =~= Seq::new(pool.count(), |i: int| 0u64));
        SegmentCopy {
            config,
            chunk: pool.chunk_size() as u64,
            limit: limit as u64,
            start: start_offset,
            total: total_len,
            offset: start_offset,
            length: total_len,
            inflight: 0,
            pending: false,
            atomic_writes: config.atomic_writes,
            intent,
            context,
            error: None,
            bytes_processed: 0,
            bytes_zeros: 0,
            ops_count: 0,
            fallbacks: 0,
        }
    }

    /// Whether there is anything left: to read, or to wait for.
    pub open spec fn has_work(&self) -> bool {
        self.length > 0 || self.inflight > 0
    }

    /// Whether there is anything left to read or to wait for.
    pub fn is_active(&self) -> (b: bool)
        ensures
            b == self.has_work(),
    {
        self.length > 0 || self.inflight > 0
    }

    /// Whether another read may be queued now.
    pub fn may_submit(&self) -> (b: bool)
        ensures
            b == (self.inflight < self.limit && self.length > 0 && self.error is None),
    {
        self.inflight < self.limit && self.length > 0 && self.error.is_none()
    }

    /// Notes that everything queued was submitted; returns whether there was
    /// anything. A failed submission is the segment's error unless there is one
    /// already.
    pub fn submitted(&mut self, failure: Option<String>) -> (any: bool)
        ensures
            any == old(self).pending,
            final(self).same_setup(old(self)),
            final(self).same_position(old(self)),
            final(self).inflight == old(self).inflight,
            !final(self).pending,
            final(self).atomic_writes == old(self).atomic_writes,
            final(self).intent@ == old(self).intent@,
            final(self).context@ == old(self).context@,
            final(self).bytes_processed == old(self).bytes_processed,
            final(self).bytes_zeros == old(self).bytes_zeros,
            final(self).fallbacks == old(self).fallbacks,
            match failure {
                Some(m) => if old(self).pending && old(self).error is None {
                    final(self).error is Some && is_io_error(
                        final(self).error->0,
                        IoKind::Other,
                        m@,
                    )
                } else {
                    final(self).error == old(self).error
                },
                None => final(self).error == old(self).error,
            },
    {
        let any: bool = self.pending;
        self.pending = false;
        if any && self.error.is_none() {
            match failure {
                Some(m) => {
                    self.error = Some(io_error(IoKind::Other, m));
                },
                None => {},
            }
        }
        any
    }

    /// Plans the next read into buffer `index`, whose memory is at `address`. A
    /// buffer that the segment does not know, and a read whose write could not
    /// be atomic although it has to be, is refused; in the second case the
    /// buffer is freed.
    pub fn plan_read(&mut self, pool: &mut BufferPool, index: u16, address: usize) -> (res: Result<
        ReadPlan,
        FxcpError,
    >)
        requires
            old(self).wf(),
            old(pool).wf(),
            old(self).length > 0,
        ensures
            final(self).wf(),
            final(pool).wf(),
            final(self).same_setup(old(self)),
            final(self).same_position(old(self)),
            final(self).inflight == old(self).inflight,
            final(self).pending == old(self).pending,
            final(self).atomic_writes == old(self).atomic_writes,
            final(self).error == old(self).error,
            final(self).bytes_processed == old(self).bytes_processed,
            final(self).bytes_zeros == old(self).bytes_zeros,
            final(self).fallbacks == old(self).fallbacks,
            final(pool).same_shape(old(pool)),
            ({
                let fault = if old(self).config.use_atomic {
                    atomic_fault(
                        old(self).config.atomic_min,
                        old(self).config.atomic_max,
                        old(self).offset,
                        old(self).next_len(),
                        address,
                    )
                } else {
                    None
                };
                if index >= old(self).intent@.len() {
                    &&& res matches Err(FxcpError::MemoryExhausted(m))
                    &&& m@ == "BufferPool index corrupted"@
                    &&& *final(pool) == *old(pool)
                    &&& final(self).intent@ == old(self).intent@
                    &&& final(self).context@ == old(self).context@
                } else if let Some(f) = fault {
                    &&& res is Err
                    &&& is_io_error(res->Err_0, f.0, f.1)
                    &&& released(old(pool), final(pool), index)
                    &&& final(self).intent@ == old(self).intent@
                    &&& final(self).context@ == old(self).context@
                } else {
                    &&& res matches Ok(p)
                    &&& p.index == index
                    &&& p.offset == old(self).offset
                    &&& p.len == old(self).next_len()
                    &&& 0 < p.len <= old(self).length
                    &&& p.read_flags == old(self).read_flags()
                    &&& p.read_tag == tag_of(READ_OP, index)
                    &&& p.linked == (if old(self).is_linked() {
                        Some((old(self).write_flags(false), tag_of(WRITE_OP, index)))
                    } else {
                        None
                    })
                    &&& *final(pool) == *old(pool)
                    &&& final(self).intent@ == old(self).intent@.update(
                        index as int,
                        old(self).config.use_atomic,
                    )
                    &&& final(self).context@ == old(self).context@.update(
                        index as int,
                        old(self).offset,
                    )
                }
            }),
    {
        if index as usize >= self.intent.len() {
            return Err(FxcpError::MemoryExhausted("BufferPool index corrupted".to_owned()));
        }
        let n: u64 = if self.length <= self.chunk {
            self.length
        } else {
            self.chunk
        };
        let len: u32 = if self.config.use_atomic && self.config.atomic_max > 0 && n
            > self.config.atomic_max as u64 {
            self.config.atomic_max
        } else {
            n as u32
        };
        if self.config.use_atomic {
            match check_atomic_invariants(
                self.config.atomic_min,
                self.config.atomic_max,
                self.offset,
                len,
                address,
            ) {
                Ok(_) => {},
                Err(e) => {
                    pool.release(index);
                    return Err(e);
                },
            }
        }
        self.intent.set(index as usize, self.config.use_atomic);
        self.context.set(index as usize, self.offset);
        let linked: Option<(i32, u64)> = if self.linked_mode() {
            Some((self.write_flags_exec(false), WRITE_OP | index as u64))
        } else {
            None
        };
        let read_flags: i32 = if self.config.read_uncached {
            RWF_UNCACHED
        } else {
            0
        };
        Ok(
            ReadPlan {
                index,
                offset: self.offset,
                len,
                read_flags,
                read_tag: READ_OP | index as u64,
                linked,
            },
        )
    }

    fn linked_mode(&self) -> (b: bool)
        ensures
            b == self.is_linked(),
    {
        !self.config.vdo_opt && !self.config.use_atomic
    }

    fn write_flags_exec(&self, atomic: bool) -> (f: i32)
        ensures
            f == self.write_flags(atomic),
    {
        if self.config.write_uncached {
            if atomic {
                0xC0
            } else {
                RWF_UNCACHED
            }
        } else {
            if atomic {
                RWF_ATOMIC
            } else {
                0
            }
        }
    }

    /// Notes that a planned read of `len` bytes, with its linked write if there
    /// is one, was queued.
    pub fn read_queued(&mut self, len: u32)
        requires
            old(self).wf(),
            0 < len <= old(self).length,
            old(self).inflight < old(self).limit,
        ensures
            final(self).wf(),
            final(self).same_setup(old(self)),
            final(self).offset == old(self).offset + len,
            final(self).length == old(self).length - len,
            final(self).ops_count == old(self).ops_count + 1,
            final(self).inflight == old(self).inflight + (if old(self).is_linked() {
                2int
            } else {
                1
            }),
            final(self).pending,
            final(self).atomic_writes == old(self).atomic_writes,
            final(self).intent@ == old(self).intent@,
            final(self).context@ == old(self).context@,
            final(self).error == old(self).error,
            final(self).bytes_processed == old(self).bytes_processed,
            final(self).bytes_zeros == old(self).bytes_zeros,
            final(self).fallbacks == old(self).fallbacks,
    {
        if self.linked_mode() {
            self.inflight = self.inflight + 2;
        } else {
            self.inflight = self.inflight + 1;
        }
        self.pending = true;
        self.offset = self.offset + len as u64;
        self.length = self.length - len as u64;
        self.ops_count = self.ops_count + 1;
    }

    /// Notes that the ring took no read (or, where `half_queued`, the read but
    /// not its linked write) and frees the buffer. Returns whether to submit
    /// now: in linked mode what was half queued, else whatever is pending.
    pub fn read_refused(&mut self, pool: &mut BufferPool, index: u16, half_queued: bool) -> (submit:
        bool)
        requires
            old(self).wf(),
            old(pool).wf(),
        ensures
            final(self).wf(),
            final(pool).wf(),
            released(old(pool), final(pool), index),
            submit == (if old(self).is_linked() {
                half_queued
            } else {
                old(self).pending
            }),
            final(self).same_setup(old(self)),
            final(self).same_position(old(self)),
            final(self).inflight == old(self).inflight,
            final(self).pending == (old(self).is_linked() && old(self).pending),
            final(self).atomic_writes == old(self).atomic_writes,
            final(self).intent@ == old(self).intent@,
            final(self).context@ == old(self).context@,
            final(self).error == old(self).error,
            final(self).bytes_processed == old(self).bytes_processed,
            final(self).bytes_zeros == old(self).bytes_zeros,
            final(self).fallbacks == old(self).fallbacks,
    {
        pool.release(index);
        if self.linked_mode() {
            half_queued
        } else {
            let any: bool = self.pending;
            self.pending = false;
            any
        }
    }

    /// What to do when no completion is ready: queue more where there is more
    /// and room for it, else wait for what is in flight.
    pub fn when_idle(&self, pool: &BufferPool, queue_full: bool) -> (step: IdleStep)
        ensures
            step == (if self.length > 0 && pool.free_list().len() > 0 && !queue_full {
                IdleStep::Fill
            } else if self.inflight > 0 {
                IdleStep::Wait
            } else {
                IdleStep::Leave
            }),
    {
        if self.length > 0 && pool.free_count() > 0 && !queue_full {
            IdleStep::Fill
        } else if self.inflight > 0 {
            IdleStep::Wait
        } else {
            IdleStep::Leave
        }
    }

    /// What a completion amounts to.
    pub open spec fn verdict(&self, tag: u64, result: i32) -> Verdict {
        let op = op_of(tag);
        if tag == 0 || op == HOLE_OP {
            Verdict::Ignored
        } else if result < 0 {
            if -result == ECANCELED && self.is_linked() && op == WRITE_OP {
                Verdict::Cancelled
            } else if op == WRITE_OP && self.intent@[index_of(tag) as int] && (-result == EOPNOTSUPP
                || -result == EINVAL) {
                Verdict::AtomicRefused
            } else {
                Verdict::Failed
            }
        } else if self.error is Some {
            Verdict::Drained
        } else if op == READ_OP {
            Verdict::ReadDone
        } else if op == WRITE_OP {
            Verdict::WriteDone
        } else if op == FALLOC_OP {
            Verdict::PunchDone
        } else {
            Verdict::Unknown
        }
    }

    fn judge(&self, tag: u64, result: i32) -> (v: Verdict)
        requires
            result > i32::MIN,
            (index_of(tag) as nat) < self.intent@.len(),
        ensures
            v == self.verdict(tag, result),
    {
        let op: u64 = tag & OP_TYPE_MASK;
        if tag == 0 || op == HOLE_OP {
            return Verdict::Ignored;
        }
        if result < 0 {
            let errno: i32 = -result;
            if errno == ECANCELED && self.linked_mode() && op == WRITE_OP {
                return Verdict::Cancelled;
            }
            let index: u16 = (tag & INDEX_MASK) as u16;
            if op == WRITE_OP && self.intent[index as usize] && (errno == EOPNOTSUPP || errno
                == EINVAL) {
                return Verdict::AtomicRefused;
            }
            return Verdict::Failed;
        }
        if self.error.is_some() {
            return Verdict::Drained;
        }
        if op == READ_OP {
            Verdict::ReadDone
        } else if op == WRITE_OP {
            Verdict::WriteDone
        } else if op == FALLOC_OP {
            Verdict::PunchDone
        } else {
            Verdict::Unknown
        }
    }

    /// Whether a failed or drained operation gives its buffer back. A linked
    /// read leaves that to its write; a hole that failed keeps it.
    pub open spec fn gives_back(&self, tag: u64) -> bool {
        op_of(tag) != FALLOC_OP && (!self.is_linked() || op_of(tag) == WRITE_OP)
    }

    /// Whether a finished read is a block of zeros that needs no write.
    pub open spec fn is_zero_read(&self, data: Seq<u8>) -> bool {
        self.config.vdo_opt && data.len() > 0 && all_zero(data)
    }

    /// What to queue after a finished read of `data` into buffer `index`.
    pub open spec fn after_read(&self, index: u16, data: Seq<u8>) -> NextOp {
        let offset = self.context@[index as int];
        if self.is_linked() {
            NextOp::Nothing
        } else if self.is_zero_read(data) && data.len() >= HOLE_THRESHOLD {
            NextOp::Punch { index, offset, size: data.len() as u64, tag: tag_of(FALLOC_OP, index) }
        } else {
            NextOp::Write {
                index,
                offset,
                len: data.len() as u32,
                flags: self.write_flags(self.atomic_writes && self.intent@[index as int]),
                tag: tag_of(WRITE_OP, index),
            }
        }
    }

    /// Takes note of a completion. `data` is what the buffer holds after a
    /// finished read: as many bytes as `result` says. `said` is what the system
    /// says of a failure. The caller queues what is returned and reports on it with
    /// `next_queued`.
    ///
    /// Only operations that are in flight complete, on buffers of the pool, and
    /// a read never overfills its buffer.
    pub fn on_completion(
        &mut self,
        pool: &mut BufferPool,
        tag: u64,
        result: i32,
        data: &[u8],
        said: &str,
    ) -> (next: NextOp)
        requires
            old(self).wf(),
            old(pool).wf(),
            old(pool).count() == old(self).intent@.len(),
            result > i32::MIN,
            (index_of(tag) as nat) < old(self).intent@.len(),
            old(self).verdict(tag, result) == Verdict::Ignored || old(self).verdict(tag, result)
                == Verdict::Unknown || old(self).inflight > 0,
            old(self).verdict(tag, result) == Verdict::ReadDone ==> result == data@.len()
                && data@.len() <= buffer::larger(old(pool).chunk(), old(pool).align()),
            old(self).verdict(tag, result) == Verdict::WriteDone ==> old(self).bytes_processed
                + result <= u64::MAX,
            old(self).fallbacks < u64::MAX,
        ensures
            final(self).wf(),
            final(pool).wf(),
            final(pool).same_shape(old(pool)),
            final(self).same_setup(old(self)),
            final(self).same_position(old(self)),
            final(self).pending == old(self).pending,
            final(self).context@ == old(self).context@,
            final(self).bytes_zeros == old(self).bytes_zeros,
            ({
                let v = old(self).verdict(tag, result);
                let index = index_of(tag);
                // What is left in flight.
                &&& final(self).inflight == (if v == Verdict::Ignored || v == Verdict::Unknown || v
                    == Verdict::AtomicRefused {
                    old(self).inflight as int
                } else {
                    old(self).inflight - 1
                })
                // Which buffer is freed or filled.
                &&& if v == Verdict::Cancelled || v == Verdict::WriteDone || v == Verdict::PunchDone
                    || ((v == Verdict::Failed || v == Verdict::Drained) && old(self).gives_back(
                    tag,
                )) {
                    released(old(pool), final(pool), index)
                } else if v == Verdict::ReadDone {
                    &&& final(pool).free_list() == old(pool).free_list()
                    &&& final(pool).lens() == old(pool).lens().update(index as int, result as usize)
                } else {
                    *final(pool) == *old(pool)
                }
                // What is remembered.
                &&& final(self).error == (if v == Verdict::Failed && old(self).error is None
                    && -result != EINTR {
                    final(self).error
                } else {
                    old(self).error
                })
                &&& v == Verdict::Failed && old(self).error is None && -result != EINTR
                    ==> final(self).error is Some && is_os_error(
                    final(self).error->0,
                    -result,
                    said@,
                )
                &&& final(self).bytes_processed == old(self).bytes_processed + (if v
                    == Verdict::WriteDone {
                    result as int
                } else {
                    0
                })
                &&& if v == Verdict::AtomicRefused {
                    &&& final(self).atomic_writes == (old(self).atomic_writes && -result
                        != EOPNOTSUPP)
                    &&& final(self).intent@ == old(self).intent@.update(index as int, false)
                    &&& final(self).fallbacks == old(self).fallbacks + 1
                } else {
                    &&& final(self).atomic_writes == old(self).atomic_writes
                    &&& final(self).intent@ == old(self).intent@
                    &&& final(self).fallbacks == old(self).fallbacks
                }
                // What comes next.
                &&& next == (if v == Verdict::ReadDone {
                    old(self).after_read(index, data@)
                } else if v == Verdict::AtomicRefused {
                    NextOp::Retry {
                        index,
                        offset: old(self).context@[index as int],
                        len: old(pool).lens()[index as int] as u32,
                        flags: old(self).write_flags(false),
                        tag: tag_of(WRITE_OP, index),
                    }
                } else {
                    NextOp::Nothing
                })
            }),
    {
        let v: Verdict = self.judge(tag, result);
        let op: u64 = tag & OP_TYPE_MASK;
        let index: u16 = (tag & INDEX_MASK) as u16;
        match v {
            Verdict::Ignored => NextOp::Nothing,
            Verdict::Unknown => NextOp::Nothing,
            Verdict::Cancelled => {
                self.inflight = self.inflight - 1;
                pool.release(index);
                NextOp::Nothing
            },
            Verdict::AtomicRefused => {
                if -result == EOPNOTSUPP {
                    self.atomic_writes = false;
                }
                self.fallbacks = self.fallbacks + 1;
                self.intent.set(index as usize, false);
                NextOp::Retry {
                    index,
                    offset: self.context[index as usize],
                    len: pool.get_len(index) as u32,
                    flags: self.write_flags_exec(false),
                    tag: WRITE_OP | index as u64,
                }
            },
            Verdict::Failed => {
                if op != FALLOC_OP && (!self.linked_mode() || op == WRITE_OP) {
                    pool.release(index);
                }
                if self.error.is_none() && -result != EINTR {
                    self.error = Some(os_error(-result, said));
                }
                self.inflight = self.inflight - 1;
                NextOp::Nothing
            },
            Verdict::Drained => {
                if op != FALLOC_OP && (!self.linked_mode() || op == WRITE_OP) {
                    pool.release(index);
                }
                self.inflight = self.inflight - 1;
                NextOp::Nothing
            },
            Verdict::ReadDone => {
                self.inflight = self.inflight - 1;
                pool.set_len(index, result as usize);
                if self.linked_mode() {
                    return NextOp::Nothing;
                }
                let zero: bool = self.config.vdo_opt && data.len() > 0 && is_block_zero(data);
                if zero && data.len() as u64 >= HOLE_THRESHOLD {
                    NextOp::Punch {
                        index,
                        offset: self.context[index as usize],
                        size: data.len() as u64,
                        tag: FALLOC_OP | index as u64,
                    }
                } else {
                    let atomic: bool = self.atomic_writes && self.intent[index as usize];
                    NextOp::Write {
                        index,
                        offset: self.context[index as usize],
                        len: data.len() as u32,
                        flags: self.write_flags_exec(atomic),
                        tag: WRITE_OP | index as u64,
                    }
                }
            },
            Verdict::WriteDone => {
                self.inflight = self.inflight - 1;
                self.bytes_processed = self.bytes_processed + result as u64;
                pool.release(index);
                NextOp::Nothing
            },
            Verdict::PunchDone => {
                self.inflight = self.inflight - 1;
                pool.release(index);
                NextOp::Nothing
            },
        }
    }

    /// The message for an operation that the ring did not take.
    pub open spec fn queue_full_message(op: NextOp) -> Seq<char> {
        match op {
            NextOp::Retry { .. } => "SQ full during atomic retry"@,
            NextOp::Punch { .. } => "Submission queue full during zero-block fallocate"@,
            _ => "Submission queue full during write"@,
        }
    }

    /// The buffer that an operation works on.
    pub open spec fn buffer_of(op: NextOp) -> Option<u16> {
        match op {
            NextOp::Nothing => None,
            NextOp::Retry { index, .. } => Some(index),
            NextOp::Write { index, .. } => Some(index),
            NextOp::Punch { index, .. } => Some(index),
        }
    }

    /// Notes whether the ring took what a completion asked for. A hole counts as
    /// copied once it is queued. What was not taken is the segment's error, and
    /// its buffer is freed.
    pub fn next_queued(&mut self, pool: &mut BufferPool, op: NextOp, taken: bool)
        requires
            old(self).wf(),
            old(pool).wf(),
            op is Retry && !taken ==> old(self).inflight > 0,
            (op is Write || op is Punch) && taken ==> old(self).inflight <= old(self).limit,
            op is Punch && taken ==> old(self).bytes_processed + op->size <= u64::MAX && old(
                self,
            ).bytes_zeros + op->size <= u64::MAX,
        ensures
            final(self).wf(),
            final(pool).wf(),
            final(self).same_setup(old(self)),
            final(self).same_position(old(self)),
            final(self).intent@ == old(self).intent@,
            final(self).context@ == old(self).context@,
            final(self).atomic_writes == old(self).atomic_writes,
            final(self).fallbacks == old(self).fallbacks,
            final(self).pending == (old(self).pending || (taken && (op is Write || op is Punch))),
            final(self).inflight == old(self).inflight + (if taken && (op is Write || op is Punch) {
                1int
            } else if !taken && op is Retry {
                -1
            } else {
                0
            }),
            final(self).bytes_zeros == old(self).bytes_zeros + (if taken && op is Punch {
                op->size as int
            } else {
                0
            }),
            final(self).bytes_processed == old(self).bytes_processed + (if taken && op is Punch {
                op->size as int
            } else {
                0
            }),
            if !taken && op !is Nothing {
                &&& final(self).error is Some
                &&& is_io_error(
                    final(self).error->0,
                    IoKind::Other,
                    SegmentCopy::queue_full_message(op),
                )
                &&& released(old(pool), final(pool), SegmentCopy::buffer_of(op)->0)
            } else {
                &&& final(self).error == old(self).error
                &&& *final(pool) == *old(pool)
            },
    {
        match op {
            NextOp::Nothing => {},
            NextOp::Retry { index, .. } => {
                if !taken {
                    self.error = Some(
                        io_error(IoKind::Other, "SQ full during atomic retry".to_owned()),
                    );
                    pool.release(index);
                    self.inflight = self.inflight - 1;
                }
            },
            NextOp::Write { index, .. } => {
                if taken {
                    self.pending = true;
                    self.inflight = self.inflight + 1;
                } else {
                    self.error = Some(
                        io_error(IoKind::Other, "Submission queue full during write".to_owned()),
                    );
                    pool.release(index);
                }
            },
            NextOp::Punch { index, size, .. } => {
                if taken {
                    self.pending = true;
                    self.bytes_zeros = self.bytes_zeros + size;
                    self.bytes_processed = self.bytes_processed + size;
                    self.inflight = self.inflight + 1;
                } else {
                    self.error = Some(
                        io_error(
                            IoKind::Other,
                            "Submission queue full during zero-block fallocate".to_owned(),
                        ),
                    );
                    pool.release(index);
                }
            },
        }
    }

    /// What came of the segment: its error, or its counters.
    pub fn finish(self) -> (res: Result<CopyStats, FxcpError>)
        ensures
            match self.error {
                Some(e) => res == Err::<CopyStats, FxcpError>(e),
                None => res is Ok && res->Ok_0 == (CopyStats {
                    bytes_processed: self.bytes_processed,
                    bytes_zeros: self.bytes_zeros,
                    io_micros: 0,
                    ops_count: self.ops_count,
                }),
            },
    {
        match self.error {
            Some(e) => Err(e),
            None => Ok(
                CopyStats {
                    bytes_processed: self.bytes_processed,
                    bytes_zeros: self.bytes_zeros,
                    io_micros: 0,
                    ops_count: self.ops_count,
                },
            ),
        }
    }
}

/// What freeing a buffer does to a pool.
pub open spec fn released(before: &BufferPool, after: &BufferPool, index: u16) -> bool {
    &&& after.same_shape(before)
    &&& if index < before.count() {
        &&& after.lens() == before.lens().update(index as int, 0)
        &&& after.free_list() == (if !before.is_local() && before.free_list().len()
            >= before.count() {
            before.free_list()
        } else {
            before.free_list().push(index)
        })
    } else {
        &&& after.lens() == before.lens()
        &&& after.free_list() == before.free_list()
    }
}

/// The kind of I/O failure that an error number of a read or write stands for.
pub open spec fn kind_of_errno(errno: int) -> IoKind {
    if errno == 2 {
        IoKind::NotFound
    } else if errno == 1 || errno == 13 {
        IoKind::PermissionDenied
    } else if errno == 17 {
        IoKind::AlreadyExists
    } else if errno == 110 {
        IoKind::TimedOut
    } else if errno == 11 {
        IoKind::WouldBlock
    } else if errno == 4 {
        IoKind::Interrupted
    } else if errno == 22 {
        IoKind::InvalidInput
    } else if errno == 38 || errno == 95 {
        IoKind::Unsupported
    } else {
        IoKind::Other
    }
}

/// The error for an error number of the operating system, with what the system
/// says of it.
pub open spec fn is_os_error(e: FxcpError, errno: int, said: Seq<char>) -> bool {
    e matches FxcpError::Io { kind: k, errno: n, message: m } && k == kind_of_errno(errno) && n
        == Some(errno as i32) && m@ == said
}

/// The error for an error number of the operating system, with what the system
/// says of it.
pub fn os_error(errno: i32, said: &str) -> (e: FxcpError)
    ensures
        is_os_error(e, errno as int, said@),
{
    let kind: IoKind = if errno == 2 {
        IoKind::NotFound
    } else if errno == 1 || errno == 13 {
        IoKind::PermissionDenied
    } else if errno == 17 {
        IoKind::AlreadyExists
    } else if errno == 110 {
        IoKind::TimedOut
    } else if errno == 11 {
        IoKind::WouldBlock
    } else if errno == 4 {
        IoKind::Interrupted
    } else if errno == 22 {
        IoKind::InvalidInput
    } else if errno == 38 || errno == 95 {
        IoKind::Unsupported
    } else {
        IoKind::Other
    };
    FxcpError::Io { kind, errno: Some(errno), message: said.to_owned() }
}

/// A segment that has come to its end has been read whole, from its start to its
/// end, and nothing of it is in flight.
pub proof fn segment_ends_whole(s: SegmentCopy)
    requires
        s.wf(),
        !s.has_work(),
    ensures
        s.offset == s.start + s.total,
        s.inflight == 0,
{
}

/// A block is zero exactly where it is as many zeros as it is long.
pub proof fn zero_block_is_zeros(data: Seq<u8>)
    ensures
        all_zero(data) <==> data == crate::bytes::zeros(data.len()),
{
    if all_zero(data) {
        assert(data =~= crate::bytes::zeros(data.len()));
    }
}

/// A write can be atomic exactly where the hardware has atomic writes, its length is a
/// power of two between their bounds, and place and buffer are multiples of it. Only
/// missing hardware is told as unsupported.
pub proof fn atomic_writes_are_aligned(
    min: u32,
    max: u32,
    offset: u64,
    length: u32,
    address: usize,
)
    ensures
        atomic_fault(min, max, offset, length, address) is None <==> {
            &&& min > 0 && max > 0
            &&& length > 0 && length & ((length - 1) as u32) == 0
            &&& min <= length <= max
            &&& offset as int % length as int == 0
            &&& address as int % length as int == 0
        },
        atomic_fault(min, max, offset, length, address) matches Some(f) ==> f.0
            == if min == 0 || max == 0 {
            IoKind::Unsupported
        } else {
            IoKind::InvalidInput
        },
{
}

/// The next operation takes as much as is left, as a buffer holds and as an atomic write
/// may carry: no more, and no less.
pub proof fn next_piece_is_the_largest(s: SegmentCopy)
    requires
        s.wf(),
        s.length > 0,
    ensures
        ({
            let n = s.next_len() as int;
            let bounded = s.config.use_atomic && s.config.atomic_max > 0;
            &&& 0 < n <= s.length
            &&& n <= s.chunk
            &&& bounded ==> n <= s.config.atomic_max
            &&& n == s.length || n == s.chunk || bounded && n == s.config.atomic_max
        }),
{
}

/// Reads and writes are linked unless zeros are looked for or writes are atomic, and
/// they carry a flag for each thing that was asked of them.
pub proof fn flags_follow_the_setup(s: SegmentCopy, atomic: bool)
    ensures
        s.is_linked() <==> !(s.config.vdo_opt || s.config.use_atomic),
        s.read_flags() == if s.config.read_uncached {
            0x40i32
        } else {
            0
        },
        s.write_flags(atomic) == (if s.config.write_uncached {
            0x40int
        } else {
            0
        }) + (if atomic {
            0x80int
        } else {
            0
        }),
{
}

/// There is work while bytes are to be read or operations are under way.
pub proof fn work_is_left(s: SegmentCopy)
    ensures
        s.has_work() <==> !(s.length == 0 && s.inflight == 0),
{
}

/// What a completion means: nothing is made of one without a tag; a failed one is a
/// failure unless it was cancelled with its read or may be tried again without the
/// demand not to tear; after a failure the rest only drain; else the operation is done.
pub proof fn completion_is_judged(s: SegmentCopy, tag: u64, result: i32)
    requires
        result > i32::MIN,
    ensures
        ({
            let v = s.verdict(tag, result);
            let known = tag != 0 && op_of(tag) != 0x0004_0000_0000_0000u64;
            let read = op_of(tag) == 0x0001_0000_0000_0000u64;
            let write = op_of(tag) == 0x0002_0000_0000_0000u64;
            let punch = op_of(tag) == 0x0003_0000_0000_0000u64;
            let cancelled = result == -125 && write && s.is_linked();
            let refused = write && s.intent@[index_of(tag) as int] && (result == -95 || result
                == -22);
            &&& v == Verdict::Ignored <==> !known
            &&& v == Verdict::Cancelled <==> known && cancelled
            &&& v == Verdict::AtomicRefused <==> known && refused
            &&& v == Verdict::Failed <==> known && result < 0 && !cancelled && !refused
            &&& v == Verdict::Drained <==> known && result >= 0 && s.error is Some
            &&& v == Verdict::ReadDone <==> known && result >= 0 && s.error is None && read
            &&& v == Verdict::WriteDone <==> known && result >= 0 && s.error is None && write
            &&& v == Verdict::PunchDone <==> known && result >= 0 && s.error is None && punch
            &&& v == Verdict::Unknown <==> known && result >= 0 && s.error is None && !read
                && !write && !punch
        }),
{
}

/// What was read is written to where it was read from, whole; only a run of zeros that
/// is long enough becomes a hole there instead, and a linked write is queued already.
pub proof fn what_is_read_is_written(s: SegmentCopy, index: u16, data: Seq<u8>)
    ensures
        ({
            let next = s.after_read(index, data);
            let hole = s.config.vdo_opt && data.len() >= 16384 && data == crate::bytes::zeros(
                data.len(),
            );
            &&& next is Nothing <==> s.is_linked()
            &&& next is Punch <==> !s.is_linked() && hole
            &&& next is Write <==> !s.is_linked() && !hole
            &&& next matches NextOp::Punch { index: i, offset, size, tag } ==> i == index && offset
                == s.context@[index as int] && size == data.len() as u64 && tag == tag_of(
                FALLOC_OP,
                index,
            )
            &&& next matches NextOp::Write { index: i, offset, len, flags, tag } ==> i == index
                && offset == s.context@[index as int] && len == data.len() as u32 && tag == tag_of(
                WRITE_OP,
                index,
            ) && flags == s.write_flags(s.atomic_writes && s.intent@[index as int])
        }),
{
    zero_block_is_zeros(data);
}

/// A buffer is given back by whichever operation is the last on it: the write, or the
/// read where no write was linked to it.
pub proof fn last_operation_gives_back(s: SegmentCopy, tag: u64, op: NextOp)
    ensures
        s.gives_back(tag) <==> op_of(tag) == 0x0002_0000_0000_0000u64 || (!s.is_linked() && op_of(
            tag,
        ) != 0x0003_0000_0000_0000u64),
        op is Nothing <==> SegmentCopy::buffer_of(op) is None,
        op matches NextOp::Write { index, .. } ==> SegmentCopy::buffer_of(op) == Some(index),
        op matches NextOp::Retry { index, .. } ==> SegmentCopy::buffer_of(op) == Some(index),
        op matches NextOp::Punch { index, .. } ==> SegmentCopy::buffer_of(op) == Some(index),
        op is Write ==> SegmentCopy::queue_full_message(op)
            == "Submission queue full during write"@,
        op is Retry ==> SegmentCopy::queue_full_message(op) == "SQ full during atomic retry"@,
        op is Punch ==> SegmentCopy::queue_full_message(op)
            == "Submission queue full during zero-block fallocate"@,
{
}

/// A buffer that is given back is empty, and the next to be taken; the others stay as
/// they are.
pub proof fn given_back_buffer_is_next(before: &BufferPool, after: &BufferPool, index: u16)
    requires
        released(before, after, index),
        index < before.count(),
        before.lens().len() == before.count(),
        before.is_local() || before.free_list().len() < before.count(),
    ensures
        after.lens()[index as int] == 0,
        forall|i: int|
            0 <= i < before.count() && i != index ==> after.lens()[i] == before.lens()[i],
        after.free_list().len() == before.free_list().len() + 1,
        after.free_list().last() == index,
        after.free_list().drop_last() == before.free_list(),
        after.same_shape(before),
{
}

/// The number of an error of the system tells its kind.
pub proof fn error_numbers_tell_kinds(errno: int)
    ensures
        ({
            let k = kind_of_errno(errno);
            &&& k == IoKind::NotFound <==> errno == 2
            &&& k == IoKind::PermissionDenied <==> errno == 1 || errno == 13
            &&& k == IoKind::AlreadyExists <==> errno == 17
            &&& k == IoKind::TimedOut <==> errno == 110
            &&& k == IoKind::WouldBlock <==> errno == 11
            &&& k == IoKind::Interrupted <==> errno == 4
            &&& k == IoKind::InvalidInput <==> errno == 22
            &&& k == IoKind::Unsupported <==> errno == 38 || errno == 95
        }),
{
}

/// What keeps its setup and its position keeps each part of them.
pub proof fn setup_is_kept(a: SegmentCopy, b: SegmentCopy)
    ensures
        a.same_setup(&b) <==> a.config == b.config && a.chunk == b.chunk && a.limit == b.limit
            && a.start == b.start && a.total == b.total && a.intent@.len() == b.intent@.len(),
        a.same_position(&b) <==> a.offset == b.offset && a.length == b.length && a.ops_count
            == b.ops_count,
{
}

/// An error is told by its kind, its number where it has one, and its words.
pub proof fn errors_hold_their_words(e: FxcpError, kind: IoKind, errno: i32, words: Seq<char>)
    ensures
        is_io_error(e, kind, words) <==> e is Io && e->kind == kind && e->errno is None
            && e->Io_message@ == words,
        is_os_error(e, errno as int, words) <==> e is Io && e->kind == kind_of_errno(errno as int)
            && e->errno == Some(errno) && e->Io_message@ == words,
{
}

/// Giving back a buffer that there is not changes nothing, and a full list of free buffers
/// stays as it is.
pub proof fn unknown_buffer_is_not_given_back(before: &BufferPool, after: &BufferPool, index: u16)
    requires
        released(before, after, index),
    ensures
        index >= before.count() ==> after.lens() == before.lens() && after.free_list()
            == before.free_list(),
        !before.is_local() && before.free_list().len() >= before.count() ==> after.free_list()
            == before.free_list(),
        after.count() == before.count() && after.chunk() == before.chunk() && after.align()
            == before.align() && after.is_local() == before.is_local(),
{
}

} // verus!
