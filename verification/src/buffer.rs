//! Aligned I/O buffers and pools of them: sizes, the memory budget, and which
//! buffer is free. The memory itself belongs to whoever does the I/O.

use crate::error::FxcpError;
use crate::text;
use crossbeam::queue::ArrayQueue;
use vstd::prelude::*;
use vstd::string::StringExecFns;

verus! {

/// The least alignment of a buffer.
pub const MINIMUM_ALIGNMENT_BYTES: usize = 4096;

/// The least size of a pool's buffers.
pub const MIN_CHUNK_SIZE: usize = 4096;

/// The number of bytes that buffers may take in all, and take now.
#[derive(Debug, Clone, Copy)]
pub struct BufferBudget {
    pub used: u64,
    pub limit: u64,
}

/// Whether `n` is a power of two.
pub open spec fn power_of_two(n: usize) -> bool {
    n != 0 && n & ((n - 1) as usize) == 0
}

/// Whether memory of `size` bytes can be laid out with this alignment: the
/// alignment is a power of two and the size, rounded up to it, is at most
/// `isize::MAX`.
pub open spec fn layout_valid(size: usize, align: usize) -> bool {
    power_of_two(align) && size <= isize::MAX - (align - 1)
}

/// The greater of two sizes.
pub open spec fn larger(a: usize, b: usize) -> usize {
    if a >= b {
        a
    } else {
        b
    }
}

fn larger_exec(a: usize, b: usize) -> (m: usize)
    ensures
        m == larger(a, b),
{
    if a >= b {
        a
    } else {
        b
    }
}

/// The refusal of a buffer of `capacity` bytes.
pub open spec fn over_limit_message(capacity: usize) -> Seq<char> {
    "Global memory limit exceeded. Refusing allocation of "@ + text::decimal(capacity as nat)
        + " bytes."@
}

/// A buffer: its size, its alignment and how much of it is filled.
#[derive(Debug)]
pub struct AlignedBuffer {
    capacity: usize,
    alignment: usize,
    len: usize,
}

impl AlignedBuffer {
    /// The size in bytes.
    pub closed spec fn size(&self) -> usize {
        self.capacity
    }

    /// The alignment in bytes.
    pub closed spec fn align(&self) -> usize {
        self.alignment
    }

    /// How many bytes are filled.
    pub closed spec fn filled(&self) -> usize {
        self.len
    }

    /// No more is filled than there is.
    pub open spec fn wf(&self) -> bool {
        self.filled() <= self.size()
    }

    /// A buffer on a given memory node. Nodes are not told apart yet: this is
    /// `try_new`.
    pub fn try_new_numa(
        budget: &mut BufferBudget,
        capacity: usize,
        alignment: usize,
        numa_node: i32,
    ) -> (res: Result<AlignedBuffer, FxcpError>)
        ensures
            AlignedBuffer::made(*old(budget), capacity, alignment, *final(budget), res),
    {
        Self::try_new(budget, capacity, alignment)
    }

    /// What `try_new` does: the alignment is at least 4096 and the size at least
    /// the alignment. Where the budget has no room the buffer is refused; where
    /// the layout is invalid the error is `EINVAL`. A buffer takes its size from
    /// the budget, a refusal nothing.
    pub open spec fn made(
        before: BufferBudget,
        capacity: usize,
        alignment: usize,
        after: BufferBudget,
        res: Result<AlignedBuffer, FxcpError>,
    ) -> bool {
        let align = larger(alignment, MINIMUM_ALIGNMENT_BYTES);
        let size = larger(capacity, align);
        &&& after.limit == before.limit
        &&& if before.used + size > before.limit {
            &&& res matches Err(FxcpError::MemoryExhausted(m))
            &&& m@ == over_limit_message(capacity)
            &&& after.used == before.used
        } else if !layout_valid(size, align) {
            &&& res matches Err(FxcpError::System(e))
            &&& e == 22
            &&& after.used == before.used
        } else {
            &&& res matches Ok(b)
            &&& b.size() == size && b.align() == align && b.filled() == 0
            &&& after.used == before.used + size
        }
    }

    /// An empty buffer, paid for out of the budget.
    pub fn try_new(budget: &mut BufferBudget, capacity: usize, alignment: usize) -> (res: Result<
        AlignedBuffer,
        FxcpError,
    >)
        ensures
            AlignedBuffer::made(*old(budget), capacity, alignment, *final(budget), res),
            res is Ok ==> res->Ok_0.wf(),
    {
        let align: usize = larger_exec(alignment, MINIMUM_ALIGNMENT_BYTES);
        let size: usize = larger_exec(capacity, align);
        if budget.used > budget.limit || size as u64 > budget.limit - budget.used {
            let n = text::decimal_of(capacity as u64);
            let m = text::concat3(
                "Global memory limit exceeded. Refusing allocation of ",
                n.as_str(),
                " bytes.",
            );
            return Err(FxcpError::MemoryExhausted(m));
        }
        let pow2: bool = align & (align - 1) == 0;
        if !pow2 || size > isize::MAX as usize || isize::MAX as usize - size < align - 1 {
            return Err(FxcpError::System(22));
        }
        budget.used = budget.used + size as u64;
        Ok(AlignedBuffer { capacity: size, alignment: align, len: 0 })
    }

    /// Gives the buffer's bytes back to the budget.
    pub fn free(self, budget: &mut BufferBudget)
        requires
            self.size() <= old(budget).used,
        ensures
            final(budget).used == old(budget).used - self.size(),
            final(budget).limit == old(budget).limit,
    {
        budget.used = budget.used - self.capacity as u64;
    }

    /// Empties the buffer.
    pub fn clear(&mut self)
        ensures
            final(self).filled() == 0,
            final(self).size() == old(self).size(),
            final(self).align() == old(self).align(),
    {
        self.len = 0;
    }

    /// The size in bytes.
    pub fn capacity(&self) -> (n: usize)
        ensures
            n == self.size(),
    {
        self.capacity
    }

    /// Marks the whole buffer as filled.
    pub fn set_full_len(&mut self)
        ensures
            final(self).filled() == old(self).size(),
            final(self).size() == old(self).size(),
            final(self).align() == old(self).align(),
    {
        self.len = self.capacity;
    }

    /// Marks the first `len` bytes as filled.
    pub fn set_len(&mut self, len: usize)
        requires
            len <= old(self).size(),
        ensures
            final(self).filled() == len,
            final(self).size() == old(self).size(),
            final(self).align() == old(self).align(),
    {
        self.len = len;
    }

    /// How many bytes are filled.
    pub fn get_len(&self) -> (n: usize)
        ensures
            n == self.filled(),
    {
        self.len
    }

    /// The alignment in bytes.
    pub fn alignment(&self) -> (n: usize)
        ensures
            n == self.align(),
    {
        self.alignment
    }
}

/// `crossbeam::queue::ArrayQueue`, a bounded first-in first-out queue.
#[verifier::external_type_specification]
#[verifier::external_body]
#[verifier::reject_recursive_types(T)]
pub struct ExArrayQueue<T>(ArrayQueue<T>);

/// The items of a queue, the oldest first.
pub uninterp spec fn queue_items(q: ArrayQueue<u16>) -> Seq<u16>;

/// The number of items that a queue was made for.
pub uninterp spec fn queue_bound(q: ArrayQueue<u16>) -> nat;

/// `ArrayQueue::new`: an empty queue for `cap` items. It panics where `cap` is
/// zero, or too large for the queue's index arithmetic.
#[verifier::external_body]
fn queue_new(cap: usize) -> (q: ArrayQueue<u16>)
    requires
        0 < cap <= 65535,
    ensures
        queue_items(q) == Seq::<u16>::empty(),
        queue_bound(q) == cap,
{
    ArrayQueue::new(cap)
}

/// `ArrayQueue::push`: appends an item, or hands it back where the queue is
/// full.
#[verifier::external_body]
fn queue_push(q: &mut ArrayQueue<u16>, item: u16) -> (res: Result<(), u16>)
    ensures
        queue_bound(*final(q)) == queue_bound(*old(q)),
        if queue_items(*old(q)).len() < queue_bound(*old(q)) {
            res is Ok && queue_items(*final(q)) == queue_items(*old(q)).push(item)
        } else {
            res == Err::<(), u16>(item) && queue_items(*final(q)) == queue_items(*old(q))
        },
{
    q.push(item)
}

/// `ArrayQueue::pop`: takes the oldest item, where there is one.
#[verifier::external_body]
fn queue_pop(q: &mut ArrayQueue<u16>) -> (res: Option<u16>)
    ensures
        queue_bound(*final(q)) == queue_bound(*old(q)),
        if queue_items(*old(q)).len() > 0 {
            res == Some(queue_items(*old(q))[0]) && queue_items(*final(q)) == queue_items(
                *old(q),
            ).drop_first()
        } else {
            res is None && queue_items(*final(q)) == queue_items(*old(q))
        },
{
    q.pop()
}

/// `ArrayQueue::len`: the number of items.
#[verifier::external_body]
fn queue_len(q: &ArrayQueue<u16>) -> (n: usize)
    ensures
        n == queue_items(*q).len(),
{
    q.len()
}

/// The free buffers of a pool: a queue where the pool is shared, a stack where
/// it belongs to one thread.
#[derive(Debug)]
enum FreeList {
    Shared(ArrayQueue<u16>),
    Local(Vec<u16>),
}

impl FreeList {
    spec fn items(&self) -> Seq<u16> {
        match self {
            FreeList::Shared(q) => queue_items(*q),
            FreeList::Local(v) => v@,
        }
    }

    spec fn fits(&self, capacity: nat) -> bool {
        match self {
            FreeList::Shared(q) => queue_bound(*q) == capacity && queue_items(*q).len() <= capacity,
            FreeList::Local(v) => true,
        }
    }
}

/// The numbers from 0 up to `n`, as buffer numbers.
pub open spec fn all_indices(n: nat) -> Seq<u16> {
    Seq::new(n, |i: int| i as u16)
}

/// Whether a number of buffers of a size can be had out of what the budget has
/// left.
pub open spec fn affordable(budget: BufferBudget, count: int, size: usize, align: usize) -> bool {
    let each = larger(size, align);
    &&& layout_valid(each, align)
    &&& budget.used + count * each <= budget.limit
}

/// A pool of equal buffers, of which some are free.
#[derive(Debug)]
pub struct BufferPool {
    buffers: Vec<AlignedBuffer>,
    free: FreeList,
    chunk_size: usize,
    alignment: usize,
}

/// The sizes that a pool is tried with, in turn: what was asked for, then fewer
/// and smaller buffers, then the least pool of all.
pub open spec fn pool_plans(count: usize, size: usize) -> Seq<(usize, usize)> {
    seq![
        (count, size),
        ((count / 2) as usize, size),
        ((count / 4) as usize, size),
        (count, (size / 2) as usize),
        ((count / 2) as usize, (size / 2) as usize),
        (8usize, MIN_CHUNK_SIZE),
    ]
}

/// Whether a pool of this shape is big enough to be worth having.
pub open spec fn plan_usable(plan: (usize, usize)) -> bool {
    plan.0 >= 2 && plan.1 >= MIN_CHUNK_SIZE
}

/// The first plan from `i` on that is usable and affordable.
pub open spec fn chosen_plan(
    plans: Seq<(usize, usize)>,
    i: int,
    budget: BufferBudget,
    align: usize,
) -> Option<(usize, usize)>
    decreases plans.len() - i,
{
    if 0 <= i < plans.len() {
        if plan_usable(plans[i]) && affordable(budget, plans[i].0 as int, plans[i].1, align) {
            Some(plans[i])
        } else {
            chosen_plan(plans, i + 1, budget, align)
        }
    } else {
        None
    }
}

impl BufferPool {
    /// The free buffers, in the order in which they were freed.
    pub closed spec fn free_list(&self) -> Seq<u16> {
        self.free.items()
    }

    /// Whether buffers are handed out last-freed first (else first-freed first).
    pub closed spec fn is_local(&self) -> bool {
        self.free is Local
    }

    /// How much of each buffer is filled.
    pub closed spec fn lens(&self) -> Seq<usize> {
        Seq::new(self.buffers@.len(), |i: int| self.buffers@[i].filled())
    }

    /// The size asked for each buffer.
    pub closed spec fn chunk(&self) -> usize {
        self.chunk_size
    }

    /// The alignment of every buffer.
    pub closed spec fn align(&self) -> usize {
        self.alignment
    }

    /// The number of buffers.
    pub open spec fn count(&self) -> nat {
        self.lens().len()
    }

    /// Buffers have numbers that fit in 16 bits, each buffer has the pool's
    /// size, the free ones are buffers of the pool, and a shared pool has no
    /// more free buffers than buffers.
    pub closed spec fn wf(&self) -> bool {
        &&& 2 <= self.count() <= 65535
        &&& self.free.fits(self.count())
        &&& forall|i: int|
            0 <= i < self.count() ==> (#[trigger] self.buffers@[i]).wf() && self.buffers@[i].size()
                == larger(self.chunk(), self.align())
        &&& forall|i: int|
            0 <= i < self.free_list().len() ==> (#[trigger] self.free_list()[i]) < self.count()
        &&& self.chunk() >= MIN_CHUNK_SIZE
    }

    /// Gives back what the buffers cost.
    fn refund(buffers: Vec<AlignedBuffer>, each: usize, budget: &mut BufferBudget)
        requires
            forall|i: int| 0 <= i < buffers@.len() ==> (#[trigger] buffers@[i]).size() == each,
            buffers@.len() * each <= old(budget).used,
        ensures
            final(budget).used == old(budget).used - buffers@.len() * each,
            final(budget).limit == old(budget).limit,
    {
        let ghost total = buffers@.len();
        let ghost start = budget.used as int;
        let mut rest = buffers;
        assert((total - total) * each == 0) by (nonlinear_arith);
        while rest.len() > 0
            invariant
                rest@.len() <= total,
                forall|i: int| 0 <= i < rest@.len() ==> (#[trigger] rest@[i]).size() == each,
                budget.used == start - (total - rest@.len()) * each,
                budget.limit == old(budget).limit,
                total * each <= start,
            decreases rest@.len(),
        {
            let ghost n = rest@.len() as int;
            proof {
                assert((total - n) * each + each == (total - n + 1) * each) by (nonlinear_arith);
                assert((total - n + 1) * each <= total * each) by (nonlinear_arith)
                    requires
                        n >= 1,
                ;
            }
            match rest.pop() {
                Some(b) => {
                    b.free(budget);
                },
                None => {},
            }
        }
    }

    /// `count` empty buffers of a size, all or none.
    fn alloc_buffers(budget: &mut BufferBudget, count: usize, size: usize, align: usize) -> (res:
        Option<Vec<AlignedBuffer>>)
        requires
            count >= 1,
            align >= MINIMUM_ALIGNMENT_BYTES,
        ensures
            final(budget).limit == old(budget).limit,
            match res {
                Some(v) => {
                    &&& affordable(*old(budget), count as int, size, align)
                    &&& final(budget).used == old(budget).used + count * larger(size, align)
                    &&& v@.len() == count
                    &&& forall|i: int|
                        0 <= i < count ==> (#[trigger] v@[i]).size() == larger(size, align)
                            && v@[i].filled() == 0 && v@[i].align() == align
                },
                None => !affordable(*old(budget), count as int, size, align)
                    && final(budget).used == old(budget).used,
            },
    {
        let ghost each = larger(size, align);
        let mut v: Vec<AlignedBuffer> = Vec::new();
        let mut i: usize = 0;
        while i < count
            invariant
                i <= count,
                count >= 1,
                align >= MINIMUM_ALIGNMENT_BYTES,
                each == larger(size, align),
                v@.len() == i,
                i > 0 ==> layout_valid(each, align) && budget.used <= budget.limit,
                budget.limit == old(budget).limit,
                budget.used == old(budget).used + i * each,
                forall|k: int|
                    0 <= k < i ==> (#[trigger] v@[k]).size() == each && v@[k].filled() == 0
                        && v@[k].align() == align,
            decreases count - i,
        {
            proof {
                assert(i * each + each == (i + 1) * each) by (nonlinear_arith);
                assert((i + 1) * each <= count * each) by (nonlinear_arith)
                    requires
                        i < count,
                ;
                assert(0 <= i * each) by (nonlinear_arith);
            }
            match AlignedBuffer::try_new(budget, size, align) {
                Ok(b) => {
                    v.push(b);
                },
                Err(_) => {
                    Self::refund(v, larger_exec(size, align), budget);
                    return None;
                },
            }
            i = i + 1;
        }
        Some(v)
    }

    /// What a new pool looks like.
    pub open spec fn fresh(
        before: BufferBudget,
        count: usize,
        size: usize,
        alignment: usize,
        local: bool,
        after: BufferBudget,
        res: Result<BufferPool, FxcpError>,
    ) -> bool {
        let align = larger(alignment, MINIMUM_ALIGNMENT_BYTES);
        &&& after.limit == before.limit
        &&& if count > 65535 {
            &&& res matches Err(FxcpError::Config(m))
            &&& m@ == "BufferPool: max 65535 buffers allowed"@
            &&& after.used == before.used
        } else {
            match chosen_plan(pool_plans(count, size), 0, before, align) {
                Some(plan) => {
                    &&& res matches Ok(pool)
                    &&& pool.wf()
                    &&& pool.is_local() == local
                    &&& pool.chunk() == plan.1
                    &&& pool.align() == align
                    &&& pool.free_list() == all_indices(plan.0 as nat)
                    &&& pool.lens() == Seq::new(plan.0 as nat, |i: int| 0usize)
                    &&& after.used == before.used + plan.0 * larger(plan.1, align)
                },
                None => {
                    &&& res matches Err(FxcpError::MemoryExhausted(m))
                    &&& m@ == "BufferPool: All allocation strategies failed."@
                    &&& after.used == before.used
                },
            }
        }
    }

    /// A pool shared between threads.
    pub fn new(
        budget: &mut BufferBudget,
        requested_buffers: usize,
        requested_chunk_size: usize,
        alignment: usize,
    ) -> (res: Result<BufferPool, FxcpError>)
        ensures
            BufferPool::fresh(
                *old(budget),
                requested_buffers,
                requested_chunk_size,
                alignment,
                false,
                *final(budget),
                res,
            ),
    {
        Self::create_pool(budget, requested_buffers, requested_chunk_size, alignment, false)
    }

    /// A pool for one thread.
    pub fn new_local(
        budget: &mut BufferBudget,
        requested_buffers: usize,
        requested_chunk_size: usize,
        alignment: usize,
    ) -> (res: Result<BufferPool, FxcpError>)
        ensures
            BufferPool::fresh(
                *old(budget),
                requested_buffers,
                requested_chunk_size,
                alignment,
                true,
                *final(budget),
                res,
            ),
    {
        Self::create_pool(budget, requested_buffers, requested_chunk_size, alignment, true)
    }

    /// A free list with all of `count` buffers in it.
    fn full_free_list(count: usize, local: bool) -> (free: FreeList)
        requires
            2 <= count <= 65535,
        ensures
            free is Local == local,
            free.items() == all_indices(count as nat),
            free.fits(count as nat),
    {
        let mut i: usize = 0;
        if local {
            let mut v: Vec<u16> = Vec::new();
            while i < count
                invariant
                    i <= count <= 65535,
                    v@ == all_indices(i as nat),
                decreases count - i,
            {
                v.push(i as u16);
                i = i + 1;
                assert(v@ =~= all_indices(i as nat));
            }
            FreeList::Local(v)
        } else {
            let mut q = queue_new(count);
            assert(queue_items(q) =~= all_indices(0));
            while i < count
                invariant
                    i <= count <= 65535,
                    queue_items(q) == all_indices(i as nat),
                    queue_bound(q) == count,
                decreases count - i,
            {
                let _ = queue_push(&mut q, i as u16);
                i = i + 1;
                assert(queue_items(q) =~= all_indices(i as nat));
            }
            FreeList::Shared(q)
        }
    }

    /// A pool of the first planned shape that the budget affords.
    fn create_pool(
        budget: &mut BufferBudget,
        requested_buffers: usize,
        requested_chunk_size: usize,
        alignment: usize,
        local_mode: bool,
    ) -> (res: Result<BufferPool, FxcpError>)
        ensures
            BufferPool::fresh(
                *old(budget),
                requested_buffers,
                requested_chunk_size,
                alignment,
                local_mode,
                *final(budget),
                res,
            ),
    {
        if requested_buffers > 65535 {
            return Err(FxcpError::Config("BufferPool: max 65535 buffers allowed".to_owned()));
        }
        let align: usize = larger_exec(alignment, MINIMUM_ALIGNMENT_BYTES);
        let mut plans: Vec<(usize, usize)> = Vec::new();
        plans.push((requested_buffers, requested_chunk_size));
        plans.push((requested_buffers / 2, requested_chunk_size));
        plans.push((requested_buffers / 4, requested_chunk_size));
        plans.push((requested_buffers, requested_chunk_size / 2));
        plans.push((requested_buffers / 2, requested_chunk_size / 2));
        plans.push((8, MIN_CHUNK_SIZE));
        assert(plans@ =~= pool_plans(requested_buffers, requested_chunk_size));
        let mut i: usize = 0;
        while i < plans.len()
            invariant
                i <= plans@.len(),
                plans@ == pool_plans(requested_buffers, requested_chunk_size),
                align == larger(alignment, MINIMUM_ALIGNMENT_BYTES),
                requested_buffers <= 65535,
                *budget == *old(budget),
                chosen_plan(plans@, 0, *budget, align) == chosen_plan(
                    plans@,
                    i as int,
                    *budget,
                    align,
                ),
            decreases plans@.len() - i,
        {
            let (count, size) = plans[i];
            if count >= 2 && size >= MIN_CHUNK_SIZE {
                assert(count <= 65535);
                match Self::alloc_buffers(budget, count, size, align) {
                    Some(buffers) => {
                        let free = Self::full_free_list(count, local_mode);
                        let pool = BufferPool { buffers, free, chunk_size: size, alignment: align };
                        assert(pool.lens() =~= Seq::new(count as nat, |k: int| 0usize));
                        return Ok(pool);
                    },
                    None => {},
                }
            }
            i = i + 1;
        }
        Err(FxcpError::MemoryExhausted("BufferPool: All allocation strategies failed.".to_owned()))
    }

    /// The number of buffers.
    pub fn capacity(&self) -> (n: usize)
        ensures
            n == self.count(),
    {
        self.buffers.len()
    }

    /// The size asked for each buffer.
    pub fn chunk_size(&self) -> (n: usize)
        ensures
            n == self.chunk(),
    {
        self.chunk_size
    }

    /// The alignment of every buffer.
    pub fn alignment(&self) -> (n: usize)
        ensures
            n == self.align(),
    {
        self.alignment
    }

    /// How much of a buffer is filled; nothing of one that is not in the pool.
    pub fn get_len(&self, index: u16) -> (n: usize)
        ensures
            n == (if index < self.count() {
                self.lens()[index as int]
            } else {
                0
            }),
    {
        if (index as usize) < self.buffers.len() {
            self.buffers[index as usize].get_len()
        } else {
            0
        }
    }

    /// Two pools of the same kind, number, size and alignment of buffers.
    pub open spec fn same_shape(&self, other: &BufferPool) -> bool {
        &&& self.count() == other.count()
        &&& self.chunk() == other.chunk()
        &&& self.align() == other.align()
        &&& self.is_local() == other.is_local()
    }

    /// Marks the first `len` bytes of a buffer as filled; does nothing for one
    /// that is not in the pool.
    pub fn set_len(&mut self, index: u16, len: usize)
        requires
            old(self).wf(),
            index < old(self).count() ==> len <= larger(old(self).chunk(), old(self).align()),
        ensures
            final(self).wf(),
            final(self).same_shape(old(self)),
            final(self).free_list() == old(self).free_list(),
            final(self).lens() == (if index < old(self).count() {
                old(self).lens().update(index as int, len)
            } else {
                old(self).lens()
            }),
    {
        if (index as usize) < self.buffers.len() {
            assert(self.buffers@[index as int].wf());
            self.buffers[index as usize].set_len(len);
        }
        assert forall|i: int| 0 <= i < self.buffers@.len() implies (
        #[trigger] self.buffers@[i]).wf() && self.buffers@[i].size() == larger(
            self.chunk(),
            self.align(),
        ) by {
            assert(old(self).buffers@[i].wf());
        }
        assert(self.free_list() == old(self).free_list());
        assert forall|i: int| 0 <= i < self.free_list().len() implies (
        #[trigger] self.free_list()[i]) < self.count() by {
            assert(old(self).free_list()[i] < old(self).count());
        }
        assert(self.lens() =~= (if index < old(self).count() {
            old(self).lens().update(index as int, len)
        } else {
            old(self).lens()
        }));
    }

    /// Takes a free buffer, where there is one: the one freed first from a
    /// shared pool, the one freed last from a local one.
    pub fn acquire(&mut self) -> (res: Option<u16>)
        requires
            old(self).wf(),
        ensures
            final(self).wf(),
            final(self).same_shape(old(self)),
            final(self).lens() == old(self).lens(),
            if old(self).free_list().len() == 0 {
                res is None && final(self).free_list() == old(self).free_list()
            } else if old(self).is_local() {
                res == Some(old(self).free_list().last()) && final(self).free_list() == old(
                    self,
                ).free_list().drop_last()
            } else {
                res == Some(old(self).free_list()[0]) && final(self).free_list() == old(
                    self,
                ).free_list().drop_first()
            },
            res is Some ==> res->0 < old(self).count(),
    {
        let res = match &mut self.free {
            FreeList::Shared(q) => queue_pop(q),
            FreeList::Local(v) => v.pop(),
        };
        assert(self.lens() =~= old(self).lens());
        assert forall|i: int| 0 <= i < self.free_list().len() implies (
        #[trigger] self.free_list()[i]) < self.count() by {
            assert(self.free_list()[i] == old(self).free_list()[i] || self.free_list()[i] == old(
                self,
            ).free_list()[i + 1]);
        }
        res
    }

    /// Empties a buffer and frees it. A shared pool whose list is full drops it;
    /// a number that is not in the pool changes nothing.
    pub fn release(&mut self, index: u16)
        requires
            old(self).wf(),
        ensures
            final(self).wf(),
            final(self).same_shape(old(self)),
            if index < old(self).count() {
                &&& final(self).lens() == old(self).lens().update(index as int, 0)
                &&& final(self).free_list() == (if !old(self).is_local() && old(
                    self,
                ).free_list().len() >= old(self).count() {
                    old(self).free_list()
                } else {
                    old(self).free_list().push(index)
                })
            } else {
                &&& final(self).lens() == old(self).lens()
                &&& final(self).free_list() == old(self).free_list()
            },
    {
        if (index as usize) < self.buffers.len() {
            self.buffers[index as usize].clear();
            match &mut self.free {
                FreeList::Shared(q) => {
                    let _ = queue_push(q, index);
                },
                FreeList::Local(v) => {
                    v.push(index);
                },
            }
            assert(self.lens() =~= old(self).lens().update(index as int, 0));
        } else {
            assert(self.lens() =~= old(self).lens());
        }
    }

    /// The number of free buffers.
    pub fn free_count(&self) -> (n: usize)
        ensures
            n == self.free_list().len(),
    {
        match &self.free {
            FreeList::Shared(q) => queue_len(q),
            FreeList::Local(v) => v.len(),
        }
    }
}

/// Whether no buffer is on the free list twice.
pub open spec fn no_duplicates(free: Seq<u16>) -> bool {
    forall|i: int, j: int| 0 <= i < j < free.len() ==> free[i] != free[j]
}

/// A new pool's free list names each buffer once.
pub proof fn fresh_list_has_no_duplicates(n: nat)
    requires
        n <= 65535,
    ensures
        no_duplicates(all_indices(n)),
{
}

/// Where no buffer is listed twice, the one handed out is no longer free and
/// the rest still has no duplicates: no buffer is ever in two hands.
pub proof fn acquired_buffer_is_exclusive(free: Seq<u16>, local: bool)
    requires
        no_duplicates(free),
        free.len() > 0,
    ensures
        ({
            let (taken, rest) = if local {
                (free.last(), free.drop_last())
            } else {
                (free[0], free.drop_first())
            };
            !rest.contains(taken) && no_duplicates(rest)
        }),
{
}

/// Freeing a buffer that is in use keeps the list free of duplicates.
pub proof fn released_buffer_is_listed_once(free: Seq<u16>, index: u16)
    requires
        no_duplicates(free),
        !free.contains(index),
    ensures
        no_duplicates(free.push(index)),
{
    assert forall|i: int, j: int| 0 <= i < j < free.push(index).len() implies free.push(index)[i]
        != free.push(index)[j] by {
        assert(free.contains(free[i]));
    }
}

/// A buffer is at least as large as asked for and as its alignment, which is at least a
/// page; it is counted while it lives, and refused where it would go beyond the limit.
pub proof fn buffers_stay_within_budget(
    before: BufferBudget,
    capacity: usize,
    alignment: usize,
    after: BufferBudget,
    res: Result<AlignedBuffer, FxcpError>,
)
    requires
        AlignedBuffer::made(before, capacity, alignment, after, res),
    ensures
        after.limit == before.limit,
        res matches Ok(b) ==> {
            &&& b.align() >= 4096 && b.align() >= alignment && (b.align() == 4096 || b.align()
                == alignment)
            &&& b.size() >= capacity && b.size() >= b.align() && (b.size() == capacity || b.size()
                == b.align())
            &&& b.filled() == 0
            &&& after.used == before.used + b.size()
            &&& after.used <= before.limit
            &&& b.align() & ((b.align() - 1) as usize) == 0
        },
        res is Err ==> after.used == before.used,
        res is Err && res->Err_0 is MemoryExhausted <==> before.used + larger(
            capacity,
            larger(alignment, 4096),
        ) > before.limit,
{
}

/// The larger of two is one of them, and no less than either.
pub proof fn larger_is_the_greater(a: usize, b: usize)
    ensures
        larger(a, b) >= a && larger(a, b) >= b,
        larger(a, b) == a || larger(a, b) == b,
        power_of_two(a) <==> a > 0 && a & ((a - 1) as usize) == 0,
        layout_valid(a, b) <==> power_of_two(b) && a + b <= isize::MAX + 1,
        over_limit_message(a) == "Global memory limit exceeded. Refusing allocation of "@
            + text::decimal(a as nat) + " bytes."@,
{
}

/// A pool is made by the first of its plans that has at least two buffers of at least a
/// page and that the budget affords.
pub proof fn first_affordable_plan_counts(
    plans: Seq<(usize, usize)>,
    i: int,
    budget: BufferBudget,
    align: usize,
) -> (at: int)
    requires
        0 <= i <= plans.len(),
    ensures
        ({
            let fits = |p: (usize, usize)|
                p.0 >= 2 && p.1 >= 4096 && layout_valid(larger(p.1, align), align) && budget.used
                    + p.0 * larger(p.1, align) <= budget.limit;
            &&& i <= at <= plans.len()
            &&& chosen_plan(plans, i, budget, align) is None <==> at == plans.len()
            &&& at < plans.len() ==> fits(plans[at]) && chosen_plan(plans, i, budget, align)
                == Some(plans[at])
            &&& forall|j: int| i <= j < at ==> !fits(#[trigger] plans[j])
        }),
    decreases plans.len() - i,
{
    if i < plans.len() && !(plan_usable(plans[i]) && affordable(
        budget,
        plans[i].0 as int,
        plans[i].1,
        align,
    )) {
        first_affordable_plan_counts(plans, i + 1, budget, align)
    } else {
        i
    }
}

/// The plans ask for ever less: fewer buffers first, then smaller ones, and at last eight
/// of a page.
pub proof fn plans_ask_for_less(count: usize, size: usize)
    ensures
        ({
            let p = pool_plans(count, size);
            &&& p.len() == 6
            &&& p[0] == (count, size)
            &&& p[1].0 == count as int / 2 && p[1].1 == size
            &&& p[2].0 == count as int / 4 && p[2].1 == size
            &&& p[3].0 == count && p[3].1 == size as int / 2
            &&& p[4].0 == count as int / 2 && p[4].1 == size as int / 2
            &&& p[5] == (8usize, 4096usize)
        }),
{
}

/// A new pool has all of its buffers free and empty, and is counted whole.
pub proof fn new_pool_is_free(
    before: BufferBudget,
    count: usize,
    size: usize,
    alignment: usize,
    local: bool,
    after: BufferBudget,
    res: Result<BufferPool, FxcpError>,
)
    requires
        BufferPool::fresh(before, count, size, alignment, local, after, res),
    ensures
        after.limit == before.limit,
        count > 65535 ==> res is Err && res->Err_0 is Config && after.used == before.used,
        count <= 65535 && res is Err ==> res->Err_0 is MemoryExhausted && after.used == before.used
            && chosen_plan(pool_plans(count, size), 0, before, larger(alignment, 4096)) is None,
        count <= 65535 ==> (res is Ok <==> chosen_plan(
            pool_plans(count, size),
            0,
            before,
            larger(alignment, 4096),
        ) is Some),
        res matches Ok(pool) ==> {
            let plan = chosen_plan(pool_plans(count, size), 0, before, larger(alignment, 4096))->0;
            &&& pool.wf()
            &&& pool.is_local() == local
            &&& pool.count() == plan.0
            &&& pool.chunk() == plan.1
            &&& pool.align() == larger(alignment, 4096)
            &&& pool.free_list().len() == pool.count()
            &&& forall|i: int| 0 <= i < pool.count() ==> #[trigger] pool.free_list()[i] == i as u16
            &&& forall|i: int| 0 <= i < pool.count() ==> #[trigger] pool.lens()[i] == 0
            &&& after.used == before.used + plan.0 * larger(plan.1, pool.align())
        },
{
}

/// A buffer that is taken was free and is so no longer; there is one as long as any is free.
pub proof fn taken_buffer_was_free(p: &mut BufferPool, res: Option<u16>)
    requires
        call_ensures(BufferPool::acquire, (p,), res),
    ensures
        res is None <==> old(p).free_list().len() == 0,
        res matches Some(i) ==> old(p).free_list().contains(i) && final(p).free_list().len() == old(
            p,
        ).free_list().len() - 1,
        res is None ==> final(p).free_list() == old(p).free_list(),
        final(p).lens() == old(p).lens(),
{
    let free = old(p).free_list();
    if free.len() > 0 {
        assert(free.last() == free[free.len() - 1]);
    }
}

/// A buffer that is given back is empty and free again.
pub proof fn returned_buffer_is_free(p: &mut BufferPool, index: u16)
    requires
        call_ensures(BufferPool::release, (p, index), ()),
        index < old(p).count(),
        old(p).free_list().len() < old(p).count(),
    ensures
        final(p).free_list().contains(index),
        final(p).free_list().len() == old(p).free_list().len() + 1,
        final(p).lens()[index as int] == 0,
        final(p).count() == old(p).count(),
{
    let free = final(p).free_list();
    assert(free[free.len() - 1] == index);
}

} // verus!
