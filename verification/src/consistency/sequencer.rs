//! Tickets and the barrier that finished tickets pass.

use std::collections::BTreeSet;
use vstd::prelude::*;

verus! {

broadcast use {
    vstd::std_specs::btree::group_btree_axioms,
    vstd::laws_cmp::group_laws_cmp,
};

/// A counter that issues tickets, each one larger than those before.
#[derive(Debug)]
pub struct GlobalSequencer {
    pub counter: u64,
}

impl GlobalSequencer {
    /// A counter whose last ticket was `start`.
    pub fn new(start: u64) -> (s: Self)
        ensures
            s.counter == start,
    {
        GlobalSequencer { counter: start }
    }

    /// Issues the next ticket: the first is one where the start is zero.
    pub fn next(&mut self) -> (ticket: u64)
        requires
            old(self).counter < u64::MAX,
        ensures
            ticket == old(self).counter + 1,
            final(self).counter == ticket,
    {
        self.counter = self.counter + 1;
        self.counter
    }

    /// The last ticket that was issued.
    pub fn current(&self) -> (ticket: u64)
        ensures
            ticket == self.counter,
    {
        self.counter
    }
}

/// A barrier that stands at the last number up to which everything is complete.
/// Numbers that are complete out of turn wait behind it.
#[derive(Debug)]
pub struct SequenceBarrier {
    pub finished: u64,
    pub pending: BTreeSet<u64>,
}

impl SequenceBarrier {
    /// What waits is beyond the next number.
    pub open spec fn wf(self) -> bool {
        forall|x: u64| #[trigger] self.pending@.contains(x) ==> self.finished + 1 < x < u64::MAX
    }

    /// Whether a number is complete.
    pub open spec fn is_done(self, x: u64) -> bool {
        x <= self.finished || self.pending@.contains(x)
    }

    /// A barrier that stands at `start`.
    pub fn new(start: u64) -> (b: Self)
        ensures
            b.wf(),
            b.finished == start,
            b.pending@ == Set::<u64>::empty(),
    {
        SequenceBarrier { finished: start, pending: BTreeSet::new() }
    }

    /// Whether waiting for `seq` is over.
    pub fn wait_for(&self, seq: u64) -> (over: bool)
        ensures
            over == (self.finished >= seq),
    {
        self.finished >= seq
    }

    /// Marks a number as complete. The barrier moves on as far as everything up
    /// to there is complete. (The last 64-bit number is never issued.)
    pub fn complete(&mut self, seq: u64)
        requires
            old(self).wf(),
            seq < u64::MAX,
        ensures
            final(self).wf(),
            final(self).finished >= old(self).finished,
            forall|x: u64| #[trigger]
                final(self).is_done(x) <==> (old(self).is_done(x) || x == seq),
            seq <= old(self).finished ==> final(self).finished == old(self).finished
                && final(self).pending@ == old(self).pending@,
    {
        if seq <= self.finished {
            return;
        }
        let ghost start = self.finished;
        let ghost waiting = self.pending@.insert(seq);
        self.pending.insert(seq);
        let mut next: u64 = self.finished + 1;
        while self.pending.remove(&next)
            invariant
                start == old(self).finished,
                self.finished == start,
                waiting == old(self).pending@.insert(seq),
                start + 1 <= next <= u64::MAX,
                forall|x: u64| #[trigger] waiting.contains(x) ==> start < x < u64::MAX,
                forall|x: u64| start < x < next ==> #[trigger] waiting.contains(x),
                forall|x: u64| #[trigger]
                    self.pending@.contains(x) <==> waiting.contains(x) && x >= next,
            ensures
                !self.pending@.contains(next),
            decreases u64::MAX - next,
        {
            assert(waiting.contains(next));
            next = next + 1;
        }
        self.finished = next - 1;
        proof {
            assert forall|x: u64| #[trigger] self.is_done(x) <==> (old(self).is_done(x) || x
                == seq) by {
                if start < x < next {
                    assert(waiting.contains(x));
                }
                assert(self.pending@.contains(x) <==> waiting.contains(x) && x >= next);
            }
        }
    }

    /// The number where the barrier stands.
    pub fn current(&self) -> (seq: u64)
        ensures
            seq == self.finished,
    {
        self.finished
    }
}

/// A barrier stands where the completed numbers put it: two barriers past which
/// the same numbers are complete agree. So the order in which numbers are
/// completed does not matter.
pub proof fn completions_decide(a: SequenceBarrier, b: SequenceBarrier)
    requires
        a.wf(),
        b.wf(),
        forall|x: u64| #[trigger] a.is_done(x) <==> b.is_done(x),
    ensures
        a.finished == b.finished,
        a.pending@ == b.pending@,
{
    if a.finished < b.finished {
        let x = (a.finished + 1) as u64;
        assert(b.is_done(x));
        assert(a.is_done(x));
    }
    if b.finished < a.finished {
        let x = (b.finished + 1) as u64;
        assert(a.is_done(x));
        assert(b.is_done(x));
    }
    assert forall|x: u64| a.pending@.contains(x) <==> b.pending@.contains(x) by {
        assert(a.is_done(x) <==> b.is_done(x));
    }
    assert(a.pending@ =~= b.pending@);
}

/// Everything up to where the barrier stands is complete, and the number after
/// it is not.
pub proof fn barrier_stands_at_first_gap(b: SequenceBarrier)
    requires
        b.wf(),
        b.finished < u64::MAX,
    ensures
        forall|x: u64| x <= b.finished ==> #[trigger] b.is_done(x),
        !b.is_done((b.finished + 1) as u64),
{
}

/// Tickets are handed out one after the other, and a barrier lets through what all that was
/// before is done.
pub proof fn tickets_are_handed_out_in_order(
    s: &mut GlobalSequencer,
    ticket: u64,
    b: &SequenceBarrier,
    seq: u64,
    over: bool,
)
    requires
        call_ensures(GlobalSequencer::next, (s,), ticket),
        call_ensures(SequenceBarrier::wait_for, (b, seq), over),
        old(s).counter < u64::MAX,
        b.wf(),
    ensures
        ticket == old(s).counter + 1,
        final(s).counter == ticket,
        over ==> b.is_done(seq),
        over <==> seq <= b.finished,
{
}

/// What is completed is done, and nothing else becomes so.
pub proof fn completed_is_done(b: &mut SequenceBarrier, seq: u64, x: u64)
    requires
        call_ensures(SequenceBarrier::complete, (b, seq), ()),
    ensures
        final(b).is_done(seq),
        x != seq ==> (final(b).is_done(x) <==> old(b).is_done(x)),
        final(b).finished >= old(b).finished,
{
}

} // verus!
