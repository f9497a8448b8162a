//! One operation at a time per file: operations on one inode run in the order in
//! which they asked, and one path is held by one holder.

use crate::consistency::sequencer::{GlobalSequencer, SequenceBarrier};
use crate::path;
use crate::text;
use std::collections::HashMap;
use vstd::prelude::*;

verus! {

broadcast use vstd::std_specs::hash::group_hash_axioms;

/// What an operation does. Writes and renames are held to the same order.
#[derive(Debug, Clone, Copy, PartialEq, Eq, Structural)]
pub enum OpKind {
    Write,
    Rename,
}

/// The tickets of one inode.
#[derive(Debug)]
pub struct InodeState {
    pub sequencer: GlobalSequencer,
    pub barrier: SequenceBarrier,
}

impl InodeState {
    /// Only tickets that were issued are complete.
    pub open spec fn wf(self) -> bool {
        &&& self.barrier.wf()
        &&& self.sequencer.counter < u64::MAX
        &&& self.barrier.finished <= self.sequencer.counter
        &&& forall|x: u64| #[trigger]
            self.barrier.pending@.contains(x) ==> x <= self.sequencer.counter
    }

    fn new() -> (s: Self)
        ensures
            s.wf(),
            s.sequencer.counter == 0,
            s.barrier.finished == 0,
            s.barrier.pending@ == Set::<u64>::empty(),
    {
        InodeState { sequencer: GlobalSequencer::new(0), barrier: SequenceBarrier::new(0) }
    }
}

/// The engine that puts operations in order.
#[derive(Debug)]
pub struct SerializationEngine {
    pub state: HashMap<u64, InodeState>,
    pub path_locks: Vec<String>,
}

impl SerializationEngine {
    /// Every inode is in order, and no path is held twice.
    pub open spec fn wf(self) -> bool {
        &&& forall|inode: u64| #[trigger]
            self.state@.contains_key(inode) ==> self.state@[inode].wf()
        &&& forall|i: int, j: int|
            0 <= i < j < self.path_locks@.len() ==> !path::same_path(
                (#[trigger] self.path_locks@[i])@,
                (#[trigger] self.path_locks@[j])@,
            )
    }

    /// The last ticket issued for an inode.
    pub open spec fn issued(self, inode: u64) -> u64 {
        if self.state@.contains_key(inode) {
            self.state@[inode].sequencer.counter
        } else {
            0
        }
    }

    /// Where the barrier of an inode stands.
    pub open spec fn finished(self, inode: u64) -> u64 {
        if self.state@.contains_key(inode) {
            self.state@[inode].barrier.finished
        } else {
            0
        }
    }

    /// Whether a ticket is complete.
    pub open spec fn is_done(self, inode: u64, ticket: u64) -> bool {
        ticket == 0 || (self.state@.contains_key(inode) && self.state@[inode].barrier.is_done(
            ticket,
        ))
    }

    /// Whether the holder of a ticket may go ahead: everything before it is
    /// complete.
    pub open spec fn may_run(self, inode: u64, ticket: u64) -> bool {
        self.finished(inode) + 1 >= ticket
    }

    /// Whether a path is held.
    pub open spec fn holds(self, p: Seq<char>) -> bool {
        exists|i: int|
            0 <= i < self.path_locks@.len() && path::same_path(
                (#[trigger] self.path_locks@[i])@,
                p,
            )
    }

    /// No operations yet.
    pub fn new() -> (e: Self)
        ensures
            e.wf(),
            e.state@ == Map::<u64, InodeState>::empty(),
            e.path_locks@.len() == 0,
    {
        SerializationEngine { state: HashMap::new(), path_locks: Vec::new() }
    }

    /// Whether an inode has had operations.
    pub fn is_active(&self, inode: u64) -> (yes: bool)
        ensures
            yes == self.state@.contains_key(inode),
    {
        self.state.contains_key(&inode)
    }

    /// Takes the next ticket of an inode. Its holder waits until it may go
    /// ahead, and completes the ticket when done.
    pub fn acquire_barrier(&mut self, inode: u64, _kind: OpKind) -> (ticket: u64)
        requires
            old(self).wf(),
            old(self).issued(inode) < u64::MAX - 1,
        ensures
            final(self).wf(),
            ticket == old(self).issued(inode) + 1,
            final(self).issued(inode) == ticket,
            final(self).state@.contains_key(inode),
            final(self).finished(inode) == old(self).finished(inode),
            forall|t: u64| #[trigger] final(self).is_done(inode, t) == old(self).is_done(inode, t),
            final(self).state@.remove(inode) == old(self).state@.remove(inode),
            final(self).path_locks == old(self).path_locks,
    {
        let ghost before = self.state@;
        let mut state = match self.state.remove(&inode) {
            Some(s) => s,
            None => InodeState::new(),
        };
        let ticket: u64 = state.sequencer.next();
        self.state.insert(inode, state);
        proof {
            assert(self.state@.remove(inode) =~= before.remove(inode));
            assert forall|k: u64| #[trigger] self.state@.contains_key(k) implies self.state@[k].wf() by {
                if k != inode {
                    assert(before.contains_key(k));
                }
            }
        }
        ticket
    }

    /// Whether the holder of a ticket may go ahead.
    pub fn may_start(&self, inode: u64, ticket: u64) -> (yes: bool)
        requires
            self.wf(),
        ensures
            yes == self.may_run(inode, ticket),
    {
        match self.state.get(&inode) {
            Some(s) => ticket <= 1 || s.barrier.wait_for(ticket - 1),
            None => ticket <= 1,
        }
    }

    /// Completes a ticket. Says whether the inode is known.
    pub fn complete_op(&mut self, inode: u64, ticket: u64) -> (known: bool)
        requires
            old(self).wf(),
            ticket <= old(self).issued(inode),
        ensures
            final(self).wf(),
            known == old(self).state@.contains_key(inode),
            final(self).issued(inode) == old(self).issued(inode),
            final(self).state@.contains_key(inode) == known,
            known ==> forall|t: u64| #[trigger]
                final(self).is_done(inode, t) <==> (old(self).is_done(inode, t) || t == ticket),
            final(self).finished(inode) >= old(self).finished(inode),
            final(self).state@.remove(inode) == old(self).state@.remove(inode),
            final(self).path_locks == old(self).path_locks,
    {
        let ghost before = self.state@;
        match self.state.remove(&inode) {
            Some(s) => {
                let mut state = s;
                let ghost b = state.barrier;
                assert(before[inode].wf());
                state.barrier.complete(ticket);
                proof {
                    assert forall|x: u64| #[trigger] state.barrier.pending@.contains(x) implies x
                        <= state.sequencer.counter by {
                        assert(state.barrier.is_done(x));
                        assert(b.is_done(x) || x == ticket);
                    }
                    let f = state.barrier.finished;
                    assert(state.barrier.is_done(f));
                    assert(b.is_done(f) || f == ticket);
                }
                self.state.insert(inode, state);
                proof {
                    assert(self.state@.remove(inode) =~= before.remove(inode));
                    assert forall|k: u64| #[trigger] self.state@.contains_key(k) implies self.state@[k].wf() by {
                        if k != inode {
                            assert(before.contains_key(k));
                        }
                    }
                    assert forall|t: u64| #[trigger]
                        self.is_done(inode, t) <==> (old(self).is_done(inode, t) || t == ticket) by {
                        assert(state.barrier.is_done(t) <==> (b.is_done(t) || t == ticket));
                    }
                }
                true
            },
            None => {
                assert(self.state@ =~= before);
                false
            },
        }
    }

    /// Takes hold of a path, where nobody holds it.
    pub fn acquire_path_barrier(&mut self, p: &str) -> (granted: bool)
        requires
            old(self).wf(),
        ensures
            final(self).wf(),
            granted == !old(self).holds(p@),
            granted ==> final(self).path_locks@.len() == old(self).path_locks@.len() + 1,
            forall|q: Seq<char>| #[trigger]
                final(self).holds(q) <==> (old(self).holds(q) || (granted && path::same_path(p@, q))),
            final(self).state == old(self).state,
    {
        let mut i: usize = 0;
        while i < self.path_locks.len()
            invariant
                i <= self.path_locks@.len(),
                *self == *old(self),
                old(self).wf(),
                forall|j: int|
                    0 <= j < i ==> !path::same_path((#[trigger] self.path_locks@[j])@, p@),
            decreases self.path_locks@.len() - i,
        {
            if path::same_path_exec(&self.path_locks[i], p) {
                assert(self.holds(p@));
                return false;
            }
            i = i + 1;
        }
        let ghost before = self.path_locks@;
        self.path_locks.push(p.to_owned());
        proof {
            assert forall|q: Seq<char>| #[trigger] self.holds(q) <==> (old(self).holds(q)
                || path::same_path(p@, q)) by {
                if old(self).holds(q) {
                    let k = choose|k: int|
                        0 <= k < before.len() && path::same_path((#[trigger] before[k])@, q);
                    assert(self.path_locks@[k] == before[k]);
                }
                if path::same_path(p@, q) {
                    assert(self.path_locks@[before.len() as int]@ == p@);
                }
                if self.holds(q) {
                    let k = choose|k: int|
                        0 <= k < self.path_locks@.len() && path::same_path(
                            (#[trigger] self.path_locks@[k])@,
                            q,
                        );
                    if k < before.len() {
                        assert(before[k] == self.path_locks@[k]);
                    }
                }
            }
        }
        true
    }

    /// Lets go of a path. Says whether it was held, so that others may be told.
    pub fn release_path(&mut self, p: &str) -> (was_held: bool)
        requires
            old(self).wf(),
        ensures
            final(self).wf(),
            was_held == old(self).holds(p@),
            forall|q: Seq<char>| #[trigger]
                final(self).holds(q) <==> (old(self).holds(q) && !path::same_path(p@, q)),
            final(self).state == old(self).state,
    {
        let ghost before = self.path_locks@;
        let mut i: usize = 0;
        while i < self.path_locks.len()
            invariant
                i <= self.path_locks@.len(),
                *self == *old(self),
                old(self).wf(),
                before == self.path_locks@,
                forall|j: int|
                    0 <= j < i ==> !path::same_path((#[trigger] self.path_locks@[j])@, p@),
            decreases self.path_locks@.len() - i,
        {
            if path::same_path_exec(&self.path_locks[i], p) {
                assert(old(self).holds(p@));
                self.path_locks.remove(i);
                proof {
                    let after = self.path_locks@;
                    assert(after =~= before.remove(i as int));
                    assert forall|a: int, b: int| 0 <= a < b < after.len() implies !path::same_path(
                        (#[trigger] after[a])@,
                        (#[trigger] after[b])@,
                    ) by {
                        let x = if a < i {
                            a
                        } else {
                            a + 1
                        };
                        let y = if b < i {
                            b
                        } else {
                            b + 1
                        };
                        assert(after[a] == before[x] && after[b] == before[y]);
                    }
                    assert forall|q: Seq<char>| #[trigger] self.holds(q) <==> (old(self).holds(q)
                        && !path::same_path(p@, q)) by {
                        if self.holds(q) {
                            let k = choose|k: int|
                                0 <= k < after.len() && path::same_path((#[trigger] after[k])@, q);
                            let x = if k < i {
                                k
                            } else {
                                k + 1
                            };
                            assert(after[k] == before[x]);
                            assert(old(self).path_locks@[x] == before[x]);
                            if path::same_path(p@, q) {
                                if x < i {
                                    assert(!path::same_path(before[x]@, before[i as int]@));
                                } else {
                                    assert(!path::same_path(before[i as int]@, before[x]@));
                                }
                            }
                        }
                        if old(self).holds(q) && !path::same_path(p@, q) {
                            let k = choose|k: int|
                                0 <= k < before.len() && path::same_path((#[trigger] before[k])@, q);
                            let x = if k < i {
                                k
                            } else {
                                k - 1
                            };
                            assert(k != i);
                            assert(after[x] == before[k]);
                        }
                    }
                }
                return true;
            }
            i = i + 1;
        }
        proof {
            assert(!old(self).holds(p@));
            assert forall|q: Seq<char>| #[trigger] self.holds(q) implies !path::same_path(p@, q) by {
                let k = choose|k: int|
                    0 <= k < before.len() && path::same_path((#[trigger] before[k])@, q);
                assert(!path::same_path(before[k]@, p@));
            }
        }
        false
    }

    /// Tickets keep the order, so every sequence number is in turn.
    pub fn check_sequence(&self, _inode: u64, _seq: u64) -> (in_turn: bool)
        ensures
            in_turn,
    {
        true
    }

    /// Tickets keep the order, so there is nothing to remember.
    pub fn update_sequence(&mut self, _inode: u64, _seq: u64)
        ensures
            *final(self) == *old(self),
    {
    }
}

/// Of two tickets of one inode that are not complete, at most one may go ahead.
pub proof fn one_operation_at_a_time(e: SerializationEngine, inode: u64, a: u64, b: u64)
    requires
        e.wf(),
        a != b,
        !e.is_done(inode, a),
        !e.is_done(inode, b),
    ensures
        !(e.may_run(inode, a) && e.may_run(inode, b)),
{
}

/// While a ticket is not complete, somebody may go ahead: no inode is stuck.
pub proof fn somebody_may_run(e: SerializationEngine, inode: u64, ticket: u64)
    requires
        e.wf(),
        ticket <= e.issued(inode),
        !e.is_done(inode, ticket),
    ensures
        ({
            let first = (e.finished(inode) + 1) as u64;
            first <= ticket && !e.is_done(inode, first) && e.may_run(inode, first)
        }),
{
}

/// An operation may start exactly where all that were given a ticket before it are done.
pub proof fn earlier_operations_come_first(e: SerializationEngine, inode: u64, ticket: u64)
    requires
        e.wf(),
    ensures
        e.may_run(inode, ticket) <==> forall|t: u64| t < ticket ==> #[trigger] e.is_done(inode, t),
{
    let f = e.finished(inode);
    if e.state@.contains_key(inode) {
        let b = e.state@[inode].barrier;
        assert(e.state@[inode].wf());
        crate::consistency::sequencer::barrier_stands_at_first_gap(b);
        if !e.may_run(inode, ticket) {
            assert(!b.is_done((f + 1) as u64));
            assert(!e.is_done(inode, (f + 1) as u64));
        }
        assert forall|t: u64| e.may_run(inode, ticket) && t < ticket implies #[trigger] e.is_done(
            inode,
            t,
        ) by {
            assert(b.is_done(t));
        }
    } else if ticket > 1 {
        assert(!e.is_done(inode, 1));
    }
}

/// What is not in use has no tickets and nothing done; a path is held exactly where one
/// that names it is among the held.
pub proof fn unused_inode_has_no_tickets(
    e: SerializationEngine,
    inode: u64,
    ticket: u64,
    p: Seq<char>,
)
    ensures
        !e.state@.contains_key(inode) ==> e.issued(inode) == 0 && e.finished(inode) == 0 && (
        e.is_done(inode, ticket) <==> ticket == 0),
        e.state@.contains_key(inode) ==> e.issued(inode) == e.state@[inode].sequencer.counter
            && e.finished(inode) == e.state@[inode].barrier.finished && (e.is_done(inode, ticket)
            <==> ticket == 0 || ticket <= e.state@[inode].barrier.finished
            || e.state@[inode].barrier.pending@.contains(ticket)),
        e.holds(p) <==> exists|i: int|
            0 <= i < e.path_locks@.len() && path::components((#[trigger] e.path_locks@[i])@)
                == path::components(p),
{
    if e.holds(p) {
        let i = choose|i: int|
            0 <= i < e.path_locks@.len() && path::same_path((#[trigger] e.path_locks@[i])@, p);
        assert(path::components(e.path_locks@[i]@) == path::components(p));
    }
}

/// A path is held by one at a time, under whatever spelling, until it is given back.
pub proof fn path_is_held_by_one(
    e: &mut SerializationEngine,
    p: &str,
    granted: bool,
    f: &mut SerializationEngine,
    q: &str,
    held: bool,
)
    requires
        call_ensures(SerializationEngine::acquire_path_barrier, (e, p), granted),
        call_ensures(SerializationEngine::release_path, (f, q), held),
    ensures
        granted <==> !old(e).holds(p@),
        final(e).holds(p@),
        held <==> old(f).holds(q@),
        !final(f).holds(q@),
{
    assert(path::same_path(p@, p@));
    assert(path::same_path(q@, q@));
    assert(final(e).holds(p@) <==> (old(e).holds(p@) || (granted && path::same_path(p@, p@))));
    assert(final(f).holds(q@) <==> (old(f).holds(q@) && !path::same_path(q@, q@)));
}

/// Each operation on a file gets the next ticket, and is done once it is completed.
pub proof fn tickets_are_served(
    e: &mut SerializationEngine,
    inode: u64,
    kind: OpKind,
    ticket: u64,
    f: &mut SerializationEngine,
    done: u64,
    known: bool,
)
    requires
        call_ensures(SerializationEngine::acquire_barrier, (e, inode, kind), ticket),
        call_ensures(SerializationEngine::complete_op, (f, inode, done), known),
        old(e).issued(inode) < u64::MAX - 1,
    ensures
        ticket == old(e).issued(inode) + 1,
        final(e).issued(inode) == ticket,
        final(e).finished(inode) == old(e).finished(inode),
        known <==> old(f).state@.contains_key(inode),
        known ==> final(f).is_done(inode, done),
{
}

} // verus!
