//! The in-memory log of operations: who may work on an inode, and in which order
//! operations were let through.

use crossbeam::queue::SegQueue;
use dashmap::DashMap;
use vstd::prelude::*;

verus! {

/// While a barrier waits, writers beyond this number wait too.
pub const MAX_WRITERS_BEFORE_BARRIER: usize = 10;

/// The operations between two batch checks.
pub const BATCH_SIZE: u64 = 1000;

/// What an operation does.
#[derive(Debug, Clone, Copy, PartialEq, Eq, Structural)]
pub enum WalOpKind {
    Write,
    Rename,
    Truncate,
    Metadata,
    Barrier,
}

impl WalOpKind {
    /// Renames, truncations and barriers have the inode to themselves.
    pub open spec fn exclusive(self) -> bool {
        self == WalOpKind::Rename || self == WalOpKind::Truncate || self == WalOpKind::Barrier
    }

    fn is_exclusive(&self) -> (yes: bool)
        ensures
            yes == self.exclusive(),
    {
        match self {
            WalOpKind::Rename | WalOpKind::Truncate | WalOpKind::Barrier => true,
            _ => false,
        }
    }
}

/// Who works on an inode, and who waits to have it alone.
#[derive(Debug, Clone, Copy, PartialEq, Eq, Structural)]
pub struct InodeUse {
    pub active_writers: usize,
    pub pending_barriers: usize,
    pub exclusive_locked: bool,
}

/// How asking for an inode came out.
#[derive(Debug, Clone, Copy, PartialEq, Eq, Structural)]
pub enum Attempt {
    /// Go ahead.
    Granted,
    /// Ask again; `announced` says whether others know of the wish.
    Wait { announced: bool },
}

impl InodeUse {
    /// Nobody writes while somebody has the inode alone.
    pub open spec fn wf(self) -> bool {
        self.exclusive_locked ==> self.active_writers == 0
    }

    /// Nobody works on it.
    pub open spec fn idle() -> Self {
        InodeUse { active_writers: 0, pending_barriers: 0, exclusive_locked: false }
    }

    /// What asking comes to. A writer waits while the inode is held alone, and
    /// while somebody waits for that and many writers are at work already. Who
    /// wants the inode alone announces it, and gets it when nobody writes.
    pub open spec fn asked(self, kind: WalOpKind, announced: bool) -> (Self, Attempt) {
        if kind.exclusive() {
            if !announced && self.exclusive_locked {
                (self, Attempt::Wait { announced: false })
            } else {
                let pending = if announced {
                    self.pending_barriers
                } else {
                    (self.pending_barriers + 1) as usize
                };
                if self.active_writers == 0 && !self.exclusive_locked {
                    (
                        InodeUse {
                            pending_barriers: (pending - 1) as usize,
                            exclusive_locked: true,
                            ..self
                        },
                        Attempt::Granted,
                    )
                } else {
                    (
                        InodeUse { pending_barriers: pending, ..self },
                        Attempt::Wait { announced: true },
                    )
                }
            }
        } else if self.exclusive_locked || (kind == WalOpKind::Write && self.pending_barriers > 0
            && self.active_writers >= MAX_WRITERS_BEFORE_BARRIER) {
            (self, Attempt::Wait { announced: false })
        } else if kind == WalOpKind::Write {
            (
                InodeUse { active_writers: (self.active_writers + 1) as usize, ..self },
                Attempt::Granted,
            )
        } else {
            (self, Attempt::Granted)
        }
    }

    /// Asks for the inode.
    pub fn ask(&mut self, kind: WalOpKind, announced: bool) -> (a: Attempt)
        requires
            old(self).wf(),
            old(self).active_writers < usize::MAX,
            old(self).pending_barriers < usize::MAX,
            announced ==> old(self).pending_barriers > 0,
        ensures
            (*final(self), a) == old(self).asked(kind, announced),
            final(self).wf(),
    {
        if kind.is_exclusive() {
            if !announced {
                if self.exclusive_locked {
                    return Attempt::Wait { announced: false };
                }
                self.pending_barriers = self.pending_barriers + 1;
            }
            if self.active_writers == 0 && !self.exclusive_locked {
                self.exclusive_locked = true;
                self.pending_barriers = self.pending_barriers - 1;
                return Attempt::Granted;
            }
            return Attempt::Wait { announced: true };
        }
        if self.exclusive_locked {
            return Attempt::Wait { announced: false };
        }
        if kind == WalOpKind::Write {
            if self.pending_barriers > 0 && self.active_writers >= MAX_WRITERS_BEFORE_BARRIER {
                return Attempt::Wait { announced: false };
            }
            self.active_writers = self.active_writers + 1;
        }
        Attempt::Granted
    }

    /// Whether an operation of this kind is at work.
    pub open spec fn works(self, kind: WalOpKind) -> bool {
        if kind == WalOpKind::Write {
            self.active_writers > 0
        } else if kind.exclusive() {
            self.exclusive_locked
        } else {
            true
        }
    }

    /// The state after an operation is done.
    pub open spec fn released(self, kind: WalOpKind) -> Self {
        if kind == WalOpKind::Write {
            InodeUse { active_writers: (self.active_writers - 1) as usize, ..self }
        } else if kind.exclusive() {
            InodeUse { exclusive_locked: false, ..self }
        } else {
            self
        }
    }

    /// An operation is done.
    pub fn release(&mut self, kind: WalOpKind)
        requires
            old(self).wf(),
            old(self).works(kind),
        ensures
            *final(self) == old(self).released(kind),
            final(self).wf(),
    {
        if kind == WalOpKind::Write {
            self.active_writers = self.active_writers - 1;
        } else if kind.is_exclusive() {
            self.exclusive_locked = false;
        }
    }
}

/// An operation that was let through.
#[derive(Debug, Clone, Copy, PartialEq, Eq, Structural)]
pub struct WalEntry {
    pub id: u64,
    pub inode: u64,
    pub kind: WalOpKind,
    pub seq: u64,
    /// When it was let through, in nanoseconds on the caller's clock.
    pub timestamp: u64,
    pub completed: bool,
}

/// What a map from inodes to their use holds: writers, waiting barriers and
/// whether somebody has the inode alone.
pub uninterp spec fn inodes_in(m: DashMap<u64, (usize, usize, bool)>) -> Map<
    u64,
    (usize, usize, bool),
>;

/// `DashMap::new`: the map is empty.
#[verifier::external_body]
fn inodes_new() -> (m: DashMap<u64, (usize, usize, bool)>)
    ensures
        forall|k: u64| !(#[trigger] inodes_in(m).contains_key(k)),
{
    DashMap::new()
}

/// `DashMap::get`: the value under a key, copied out, where there is one.
#[verifier::external_body]
fn inodes_get(m: &DashMap<u64, (usize, usize, bool)>, inode: u64) -> (res: Option<
    (usize, usize, bool),
>)
    ensures
        match res {
            Some(v) => inodes_in(*m).contains_key(inode) && inodes_in(*m)[inode] == v,
            None => !inodes_in(*m).contains_key(inode),
        },
{
    match m.get(&inode) {
        Some(entry) => Some(*entry.value()),
        None => None,
    }
}

/// `DashMap::insert`: puts a value under a key, in place of any before it.
#[verifier::external_body]
fn inodes_insert(m: &mut DashMap<u64, (usize, usize, bool)>, inode: u64, v: (usize, usize, bool))
    ensures
        inodes_in(*final(m)) == inodes_in(*old(m)).insert(inode, v),
{
    m.insert(inode, v);
}

/// `SegQueue` of the crate `crossbeam`: a queue without a bound, opaque here.
#[verifier::external_type_specification]
#[verifier::external_body]
#[verifier::reject_recursive_types(T)]
pub struct ExSegQueue<T>(crossbeam::queue::SegQueue<T>);

/// What a queue of log entries holds, the oldest first.
pub uninterp spec fn log_items(q: SegQueue<u64>) -> Seq<u64>;

/// `SegQueue::new`: the queue is empty.
#[verifier::external_body]
fn log_new() -> (q: SegQueue<u64>)
    ensures
        log_items(q).len() == 0,
{
    SegQueue::new()
}

/// `SegQueue::push`: puts an entry at the end.
#[verifier::external_body]
fn log_push(q: &mut SegQueue<u64>, id: u64)
    ensures
        log_items(*final(q)) == log_items(*old(q)).push(id),
{
    q.push(id);
}

/// The log: who works on which inode, and the numbers of the operations that
/// were let through, in their order.
#[derive(Debug)]
pub struct InMemoryWal {
    pub log_queue: SegQueue<u64>,
    pub inode_states: DashMap<u64, (usize, usize, bool)>,
    pub global_seq: u64,
    pub batch_tokens: u64,
}

impl InMemoryWal {
    /// The use of an inode; nobody works on one that was never asked for.
    pub open spec fn use_of(self, inode: u64) -> InodeUse {
        if inodes_in(self.inode_states).contains_key(inode) {
            let t = inodes_in(self.inode_states)[inode];
            InodeUse { active_writers: t.0, pending_barriers: t.1, exclusive_locked: t.2 }
        } else {
            InodeUse::idle()
        }
    }

    /// The numbers of the operations that were let through.
    pub open spec fn log(self) -> Seq<u64> {
        log_items(self.log_queue)
    }

    /// Nobody writes to an inode that somebody has alone.
    pub open spec fn wf(self) -> bool {
        forall|inode: u64| (#[trigger] self.use_of(inode)).wf()
    }

    /// An empty log.
    pub fn new() -> (w: Self)
        ensures
            w.wf(),
            w.log().len() == 0,
            forall|inode: u64| #[trigger] w.use_of(inode) == InodeUse::idle(),
            w.global_seq == 0,
            w.batch_tokens == BATCH_SIZE,
    {
        InMemoryWal {
            log_queue: log_new(),
            inode_states: inodes_new(),
            global_seq: 0,
            batch_tokens: BATCH_SIZE,
        }
    }

    /// The number of the next operation, and the counter after it: well before
    /// the numbers run out, they start again at one.
    pub open spec fn numbered(seq: u64) -> (u64, u64) {
        if seq >= u64::MAX - 10000 {
            (1, 1)
        } else {
            (seq, (seq + 1) as u64)
        }
    }

    /// The number of the next operation.
    pub fn get_next_seq(&mut self) -> (seq: u64)
        ensures
            (seq, final(self).global_seq) == Self::numbered(old(self).global_seq),
            *final(self) == (InMemoryWal { global_seq: final(self).global_seq, ..*old(self) }),
    {
        let seq: u64 = self.global_seq;
        if seq >= u64::MAX - 10000 {
            self.global_seq = 1;
            return 1;
        }
        self.global_seq = seq + 1;
        seq
    }

    /// Counts an operation down. Says whether a batch is full; the count then
    /// starts anew.
    pub fn trigger_batch_check(&mut self) -> (full: bool)
        ensures
            full == (old(self).batch_tokens == 0),
            final(self).batch_tokens == (if full {
                BATCH_SIZE
            } else {
                (old(self).batch_tokens - 1) as u64
            }),
            *final(self) == (InMemoryWal { batch_tokens: final(self).batch_tokens, ..*old(self) }),
    {
        if self.batch_tokens == 0 {
            self.batch_tokens = BATCH_SIZE;
            true
        } else {
            self.batch_tokens = self.batch_tokens - 1;
            false
        }
    }

    fn look_up(&self, inode: u64) -> (u: InodeUse)
        ensures
            u == self.use_of(inode),
    {
        match inodes_get(&self.inode_states, inode) {
            Some((active_writers, pending_barriers, exclusive_locked)) => InodeUse {
                active_writers,
                pending_barriers,
                exclusive_locked,
            },
            None => InodeUse {
                active_writers: 0,
                pending_barriers: 0,
                exclusive_locked: false,
            },
        }
    }

    fn put_back(&mut self, inode: u64, u: InodeUse)
        ensures
            final(self).use_of(inode) == u,
            forall|other: u64|
                other != inode ==> #[trigger] final(self).use_of(other) == old(self).use_of(other),
            final(self).log_queue == old(self).log_queue,
            final(self).global_seq == old(self).global_seq,
            final(self).batch_tokens == old(self).batch_tokens,
    {
        inodes_insert(
            &mut self.inode_states,
            inode,
            (u.active_writers, u.pending_barriers, u.exclusive_locked),
        );
    }

    /// Asks to work on an inode. Where the wish is granted, the operation gets a
    /// number and goes into the log; where it is not, the caller asks again,
    /// saying whether the wish is announced already.
    pub fn acquire_barrier(
        &mut self,
        inode: u64,
        kind: WalOpKind,
        announced: bool,
        now: u64,
    ) -> (res: (Attempt, Option<WalEntry>))
        requires
            old(self).wf(),
            old(self).use_of(inode).active_writers < usize::MAX,
            old(self).use_of(inode).pending_barriers < usize::MAX,
            announced ==> old(self).use_of(inode).pending_barriers > 0,
        ensures
            final(self).wf(),
            (final(self).use_of(inode), res.0) == old(self).use_of(inode).asked(kind, announced),
            forall|other: u64|
                other != inode ==> #[trigger] final(self).use_of(other) == old(self).use_of(other),
            match res.0 {
                Attempt::Granted => {
                    let (seq, counter) = Self::numbered(old(self).global_seq);
                    &&& res.1 == Some(
                        WalEntry { id: seq, inode, kind, seq: 0, timestamp: now, completed: false },
                    )
                    &&& final(self).global_seq == counter
                    &&& final(self).log() == old(self).log().push(seq)
                    &&& final(self).batch_tokens == (if old(self).batch_tokens == 0 {
                        BATCH_SIZE
                    } else {
                        (old(self).batch_tokens - 1) as u64
                    })
                },
                Attempt::Wait { .. } => {
                    &&& res.1 is None
                    &&& final(self).global_seq == old(self).global_seq
                    &&& final(self).log() == old(self).log()
                    &&& final(self).batch_tokens == old(self).batch_tokens
                },
            },
    {
        let mut u = self.look_up(inode);
        assert(self.use_of(inode).wf());
        let a = u.ask(kind, announced);
        self.put_back(inode, u);
        proof {
            assert forall|k: u64| (#[trigger] self.use_of(k)).wf() by {
                if k != inode {
                    assert(old(self).use_of(k).wf());
                }
            }
        }
        if a != Attempt::Granted {
            return (a, None);
        }
        let ghost mid = *self;
        let id: u64 = self.get_next_seq();
        log_push(&mut self.log_queue, id);
        let _ = self.trigger_batch_check();
        proof {
            assert forall|k: u64| #[trigger] self.use_of(k) == mid.use_of(k) by {}
        }
        (a, Some(WalEntry { id, inode, kind, seq: 0, timestamp: now, completed: false }))
    }

    /// An operation is done.
    pub fn release(&mut self, entry: &mut WalEntry)
        requires
            old(self).wf(),
            old(self).use_of(old(entry).inode).works(old(entry).kind),
        ensures
            *final(entry) == (WalEntry { completed: true, ..*old(entry) }),
            final(self).wf(),
            final(self).use_of(old(entry).inode) == old(self).use_of(old(entry).inode).released(
                old(entry).kind,
            ),
            forall|other: u64|
                other != old(entry).inode ==> #[trigger] final(self).use_of(other) == old(self).use_of(other),
            final(self).log() == old(self).log(),
            final(self).global_seq == old(self).global_seq,
            final(self).batch_tokens == old(self).batch_tokens,
    {
        let inode: u64 = entry.inode;
        entry.completed = true;
        let mut u = self.look_up(inode);
        assert(self.use_of(inode).wf());
        u.release(entry.kind);
        self.put_back(inode, u);
        proof {
            assert forall|k: u64| (#[trigger] self.use_of(k)).wf() by {
                if k != inode {
                    assert(old(self).use_of(k).wf());
                }
            }
        }
    }
}

/// Who has an inode alone has it alone: while it is held, every other wish
/// waits, and it is granted only when nobody else is at work.
pub proof fn exclusive_use_excludes(u: InodeUse, kind: WalOpKind, announced: bool)
    requires
        u.wf(),
        u.active_writers < usize::MAX,
        u.pending_barriers < usize::MAX,
        announced ==> u.pending_barriers > 0,
    ensures
        u.exclusive_locked ==> u.asked(kind, announced).1 is Wait,
        kind.exclusive() && u.asked(kind, announced).1 is Granted ==> u.active_writers == 0
            && !u.exclusive_locked,
        u.asked(kind, announced).0.wf(),
{
}

/// A granted operation that is done leaves the inode as it was.
pub proof fn release_undoes_grant(u: InodeUse, kind: WalOpKind)
    requires
        u.wf(),
        u.active_writers < usize::MAX,
        u.pending_barriers < usize::MAX,
        u.asked(kind, false).1 is Granted,
    ensures
        u.asked(kind, false).0.works(kind),
        u.asked(kind, false).0.released(kind) == u,
{
}

/// Renames, truncations and barriers are alone on a file; they get it once no one writes.
/// Writes share it, and wait for what is alone on it; once some are at it and a barrier
/// waits, the next wait too. Anything else waits only for what is alone.
pub proof fn use_is_granted_in_turn(u: InodeUse, kind: WalOpKind, announced: bool)
    requires
        u.wf(),
        u.active_writers < usize::MAX,
        u.pending_barriers < usize::MAX,
        announced ==> u.pending_barriers > 0,
    ensures
        ({
            let alone = kind == WalOpKind::Rename || kind == WalOpKind::Truncate || kind
                == WalOpKind::Barrier;
            let (after, a) = u.asked(kind, announced);
            &&& kind.exclusive() <==> alone
            &&& a == Attempt::Granted <==> !u.exclusive_locked && (if alone {
                u.active_writers == 0
            } else {
                kind == WalOpKind::Write ==> u.pending_barriers == 0 || u.active_writers < 10
            })
            &&& a == (Attempt::Wait { announced: true }) <==> alone && !(a == Attempt::Granted) && (
            announced || !u.exclusive_locked)
            &&& after.exclusive_locked <==> u.exclusive_locked || alone && a == Attempt::Granted
            &&& after.active_writers == u.active_writers + if kind == WalOpKind::Write && a
                == Attempt::Granted {
                1int
            } else {
                0
            }
            &&& after.pending_barriers == u.pending_barriers + (if alone && a == (Attempt::Wait {
                announced: true,
            }) && !announced {
                1int
            } else if alone && a == Attempt::Granted && announced {
                -1
            } else {
                0
            })
        }),
{
}

/// Giving a file back takes one writer off, or ends its being held alone.
pub proof fn release_gives_back_one(u: InodeUse, kind: WalOpKind)
    requires
        u.works(kind),
    ensures
        ({
            let alone = kind == WalOpKind::Rename || kind == WalOpKind::Truncate || kind
                == WalOpKind::Barrier;
            let after = u.released(kind);
            &&& after.active_writers == u.active_writers - if kind == WalOpKind::Write {
                1int
            } else {
                0
            }
            &&& after.exclusive_locked <==> u.exclusive_locked && !alone
            &&& after.pending_barriers == u.pending_barriers
        }),
        InodeUse::idle().active_writers == 0 && InodeUse::idle().pending_barriers == 0
            && !InodeUse::idle().exclusive_locked,
{
}

/// Numbers go up by one, and start again from one long before they run out.
pub proof fn numbers_go_up(seq: u64)
    ensures
        seq < 0xffff_ffff_ffff_ffff - 10000 ==> InMemoryWal::numbered(seq).0 == seq
            && InMemoryWal::numbered(seq).1 == seq + 1,
        seq >= 0xffff_ffff_ffff_ffff - 10000 ==> InMemoryWal::numbered(seq) == (1u64, 1u64),
{
}

/// The use of a file is what is kept of it, and none where nothing is.
pub proof fn use_is_what_is_kept(w: InMemoryWal, inode: u64)
    ensures
        !inodes_in(w.inode_states).contains_key(inode) ==> w.use_of(inode) == InodeUse::idle(),
        inodes_in(w.inode_states).contains_key(inode) ==> w.use_of(inode).active_writers
            == inodes_in(w.inode_states)[inode].0 && w.use_of(inode).pending_barriers == inodes_in(
            w.inode_states,
        )[inode].1 && w.use_of(inode).exclusive_locked == inodes_in(w.inode_states)[inode].2,
        w.log() == log_items(w.log_queue),
{
}

/// What is granted is numbered, logged and told, all at once; what has to wait changes
/// neither numbers nor log.
pub proof fn granted_use_is_logged(
    w: &mut InMemoryWal,
    inode: u64,
    kind: WalOpKind,
    announced: bool,
    now: u64,
    res: (Attempt, Option<WalEntry>),
)
    requires
        call_ensures(InMemoryWal::acquire_barrier, (w, inode, kind, announced, now), res),
    ensures
        res.0 == Attempt::Granted <==> res.1 is Some,
        res.1 matches Some(e) ==> e.inode == inode && e.kind == kind && e.timestamp == now
            && !e.completed && final(w).log() == old(w).log().push(e.id),
        res.1 is None ==> final(w).log() == old(w).log() && final(w).global_seq == old(
            w,
        ).global_seq,
        old(w).use_of(inode).exclusive_locked && old(w).wf() ==> res.0 is Wait || old(w).use_of(
            inode,
        ).active_writers == usize::MAX || old(w).use_of(inode).pending_barriers == usize::MAX || (
        announced && old(w).use_of(inode).pending_barriers == 0),
        forall|other: u64|
            other != inode ==> #[trigger] final(w).use_of(other) == old(w).use_of(other),
{
    let u = old(w).use_of(inode);
    if u.exclusive_locked && old(w).wf() && u.active_writers < usize::MAX && u.pending_barriers
        < usize::MAX && (announced ==> u.pending_barriers > 0) {
        exclusive_use_excludes(u, kind, announced);
    }
}

/// A finished entry is marked, and its file given back.
pub proof fn released_entry_is_completed(w: &mut InMemoryWal, entry: &mut WalEntry)
    requires
        call_ensures(InMemoryWal::release, (w, entry), ()),
    ensures
        final(entry).completed,
        final(entry).id == old(entry).id && final(entry).inode == old(entry).inode && final(entry).kind
            == old(entry).kind,
        final(w).use_of(old(entry).inode) == old(w).use_of(old(entry).inode).released(
            old(entry).kind,
        ),
        final(w).log() == old(w).log(),
{
}

} // verus!
