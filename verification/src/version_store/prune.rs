//! Which snapshots have to go: by age, by number or by size. A snapshot with a
//! tag stays.

use crate::order;
use crate::sync::passes::Moment;
use crate::text;
use crate::version_store;
use crate::version_store::{
    parse_timestamp, sort_snapshots, store_name_of, SnapshotEntry, VersionStore,
};
use vstd::prelude::*;

verus! {

/// What pruning came to.
#[derive(Debug, Clone, Copy, PartialEq, Eq, Structural)]
pub struct PruneStats {
    pub snapshots_removed: u64,
    pub bytes_freed: u64,
}

impl Default for PruneStats {
    fn default() -> (s: Self)
        ensures
            s.snapshots_removed == 0,
            s.bytes_freed == 0,
    {
        PruneStats { snapshots_removed: 0, bytes_freed: 0 }
    }
}

impl PruneStats {
    /// A snapshot was removed.
    pub fn on_removed(&mut self, freed: u64)
        requires
            old(self).snapshots_removed < u64::MAX,
            old(self).bytes_freed + freed <= u64::MAX,
        ensures
            final(self).snapshots_removed == old(self).snapshots_removed + 1,
            final(self).bytes_freed == old(self).bytes_freed + freed,
    {
        self.snapshots_removed = self.snapshots_removed + 1;
        self.bytes_freed = self.bytes_freed + freed;
    }
}

/// The directory's name of a snapshot.
pub open spec fn name_of(e: SnapshotEntry) -> Seq<char> {
    version_store::store_name(e.timestamp@)
}

/// Whether a snapshot was taken before a moment. One whose time cannot be read
/// was not.
pub open spec fn is_older(e: SnapshotEntry, cutoff: Moment) -> bool {
    match crate::clock::stamp_value(name_of(e)) {
        Some(t) => t < cutoff.secs || (t == cutoff.secs && cutoff.nanos > 0),
        None => false,
    }
}

/// The names of the snapshots among the first `n` that are too old and have no
/// tag.
pub open spec fn expired(v: Seq<SnapshotEntry>, cutoff: Moment, n: nat) -> Seq<Seq<char>>
    decreases n,
{
    if n == 0 {
        Seq::empty()
    } else {
        let rest = expired(v, cutoff, (n - 1) as nat);
        if is_older(v[n - 1], cutoff) && v[n - 1].tag is None {
            rest.push(name_of(v[n - 1]))
        } else {
            rest
        }
    }
}

/// The names of the snapshots among the first `n` that have no tag.
pub open spec fn untagged(v: Seq<SnapshotEntry>, n: nat) -> Seq<Seq<char>>
    decreases n,
{
    if n == 0 {
        Seq::empty()
    } else {
        let rest = untagged(v, (n - 1) as nat);
        if v[n - 1].tag is None {
            rest.push(name_of(v[n - 1]))
        } else {
            rest
        }
    }
}

/// Whether `doomed` are the snapshots to remove for the last `max_count` to be
/// left: the oldest beyond that number, those with a tag excepted.
pub open spec fn is_excess(v: Seq<SnapshotEntry>, max_count: nat, doomed: Seq<Seq<char>>) -> bool {
    if v.len() <= max_count {
        doomed.len() == 0
    } else {
        exists|s: Seq<SnapshotEntry>| #[trigger]
            version_store::is_sorted_by_time(v, s) && doomed == untagged(
                s,
                (v.len() - max_count) as nat,
            )
    }
}

/// Sorting keeps the number of snapshots.
pub proof fn sorted_has_the_same_length(v: Seq<SnapshotEntry>, s: Seq<SnapshotEntry>)
    requires
        version_store::is_sorted_by_time(v, s),
    ensures
        s.len() == v.len(),
{
}

/// Pruning by size, one snapshot at a time: the oldest goes first, until what is
/// left is small enough.
#[derive(Debug)]
pub struct SizePrune {
    /// The snapshots, the oldest first.
    pub snapshots: Vec<SnapshotEntry>,
    pub max_bytes: u64,
    /// What is left.
    pub remaining: u64,
    /// The snapshot that is looked at next.
    pub pos: usize,
}

/// The position of the first snapshot from `i` on that has no tag; the number of
/// snapshots where there is none.
pub open spec fn next_untagged(v: Seq<SnapshotEntry>, i: int) -> int
    decreases v.len() - i,
{
    if 0 <= i < v.len() && v[i].tag is Some {
        next_untagged(v, i + 1)
    } else {
        i
    }
}

impl SizePrune {
    /// The position is among the snapshots.
    pub open spec fn wf(self) -> bool {
        self.pos <= self.snapshots@.len()
    }

    /// The snapshot to remove next: none where what is left is small enough, or
    /// where only snapshots with a tag are left.
    pub fn next(&mut self) -> (res: Option<String>)
        requires
            old(self).wf(),
        ensures
            final(self).wf(),
            final(self).snapshots == old(self).snapshots,
            final(self).max_bytes == old(self).max_bytes,
            final(self).remaining == old(self).remaining,
            if old(self).remaining <= old(self).max_bytes {
                res is None && final(self).pos == old(self).pos
            } else {
                let k = next_untagged(old(self).snapshots@, old(self).pos as int);
                &&& final(self).pos == k
                &&& k < old(self).snapshots@.len() ==> {
                    &&& old(self).snapshots@[k].tag is None
                    &&& res is Some
                    &&& res->0@ == name_of(old(self).snapshots@[k])
                }
                &&& k >= old(self).snapshots@.len() ==> res is None
            },
    {
        if self.remaining <= self.max_bytes {
            return None;
        }
        while self.pos < self.snapshots.len() && self.snapshots[self.pos].tag.is_some()
            invariant
                self.wf(),
                self.snapshots == old(self).snapshots,
                self.max_bytes == old(self).max_bytes,
                self.remaining == old(self).remaining,
                next_untagged(old(self).snapshots@, old(self).pos as int) == next_untagged(
                    old(self).snapshots@,
                    self.pos as int,
                ),
            decreases self.snapshots@.len() - self.pos,
        {
            self.pos = self.pos + 1;
        }
        if self.pos == self.snapshots.len() {
            return None;
        }
        Some(store_name_of(&self.snapshots[self.pos].timestamp))
    }

    /// Removing the snapshot that `next` named succeeded or failed. One that
    /// cannot be removed is passed over.
    pub fn on_result(&mut self, removed: bool)
        requires
            old(self).pos < old(self).snapshots@.len(),
        ensures
            final(self).wf(),
            final(self).snapshots == old(self).snapshots,
            final(self).max_bytes == old(self).max_bytes,
            final(self).pos == old(self).pos + 1,
            final(self).remaining == (if removed {
                let size = old(self).snapshots@[old(self).pos as int].size_bytes;
                if size <= old(self).remaining {
                    (old(self).remaining - size) as u64
                } else {
                    0
                }
            } else {
                old(self).remaining
            }),
    {
        assert(self.snapshots.len() == self.snapshots@.len());
        if removed {
            self.remaining = self.remaining.saturating_sub(self.snapshots[self.pos].size_bytes);
        }
        self.pos = self.pos + 1;
    }
}

/// Whether a name is that of a snapshot without a tag.
pub open spec fn names_untagged(v: Seq<SnapshotEntry>, name: Seq<char>) -> bool {
    exists|i: int| 0 <= i < v.len() && (#[trigger] v[i]).tag is None && name_of(v[i]) == name
}

/// Whether every name is that of a snapshot without a tag.
pub open spec fn only_untagged(v: Seq<SnapshotEntry>, names: Seq<Seq<char>>) -> bool {
    forall|k: int| 0 <= k < names.len() ==> names_untagged(v, #[trigger] names[k])
}

/// Pruning by age removes only snapshots without a tag that are too old, and
/// all of those.
pub proof fn tagged_snapshots_never_expire(v: Seq<SnapshotEntry>, cutoff: Moment, n: nat)
    requires
        n <= v.len(),
    ensures
        only_untagged(v, expired(v, cutoff, n)),
        forall|i: int|
            0 <= i < n && is_older(#[trigger] v[i], cutoff) && v[i].tag is None ==> expired(
                v,
                cutoff,
                n,
            ).contains(name_of(v[i])),
    decreases n,
{
    if n > 0 {
        let m = (n - 1) as nat;
        tagged_snapshots_never_expire(v, cutoff, m);
        let before = expired(v, cutoff, m);
        let all = expired(v, cutoff, n);
        assert forall|k: int| 0 <= k < all.len() implies names_untagged(v, #[trigger] all[k]) by {
            if k < before.len() {
                assert(all[k] == before[k]);
            } else {
                assert(v[n - 1].tag is None && name_of(v[n - 1]) == all[k]);
            }
        }
        assert forall|i: int|
            0 <= i < n && is_older(#[trigger] v[i], cutoff) && v[i].tag
                is None implies all.contains(name_of(v[i])) by {
            if i < m {
                let k = choose|k: int| 0 <= k < before.len() && before[k] == name_of(v[i]);
                assert(all[k] == name_of(v[i]));
            } else {
                assert(all[all.len() - 1] == name_of(v[i]));
            }
        }
    }
}

/// Pruning by number removes only snapshots without a tag, and at most as many
/// as there are beyond the number.
pub proof fn tagged_snapshots_are_not_excess(
    v: Seq<SnapshotEntry>,
    max_count: nat,
    doomed: Seq<Seq<char>>,
)
    requires
        is_excess(v, max_count, doomed),
    ensures
        only_untagged(v, doomed),
        doomed.len() + max_count <= v.len() || doomed.len() == 0,
{
    if v.len() > max_count {
        let s = choose|s: Seq<SnapshotEntry>| #[trigger]
            version_store::is_sorted_by_time(v, s) && doomed == untagged(
                s,
                (v.len() - max_count) as nat,
            );
        sorted_has_the_same_length(v, s);
        untagged_names(s, (v.len() - max_count) as nat);
        let o = choose|o: Seq<usize>| #[trigger]
            order::is_sorted_order(version_store::timestamps(v), o) && s == order::reorder(v, o);
        assert forall|k: int| 0 <= k < doomed.len() implies names_untagged(v, #[trigger] doomed[k]) by {
            assert(names_untagged(s, doomed[k]));
            let j = choose|j: int|
                0 <= j < s.len() && (#[trigger] s[j]).tag is None && name_of(s[j]) == doomed[k];
            let i = o[j] as int;
            assert(i < v.len());
            assert(s[j] == v[i]);
            assert(v[i].tag is None && name_of(v[i]) == doomed[k]);
        }
    }
}

proof fn untagged_names(s: Seq<SnapshotEntry>, n: nat)
    requires
        n <= s.len(),
    ensures
        only_untagged(s, untagged(s, n)),
        untagged(s, n).len() <= n,
    decreases n,
{
    if n > 0 {
        untagged_names(s, (n - 1) as nat);
        let before = untagged(s, (n - 1) as nat);
        let all = untagged(s, n);
        assert forall|k: int| 0 <= k < all.len() implies names_untagged(s, #[trigger] all[k]) by {
            if k < before.len() {
                assert(all[k] == before[k]);
            } else {
                assert(s[n - 1].tag is None && name_of(s[n - 1]) == all[k]);
            }
        }
    }
}

impl VersionStore {
    /// The snapshots to remove for none to be from before `cutoff`.
    pub fn prune_by_age(&self, v: &Vec<SnapshotEntry>, cutoff: Moment) -> (out: Vec<String>)
        ensures
            text::texts(out@) == expired(v@, cutoff, v@.len()),
    {
        let mut out: Vec<String> = Vec::new();
        let mut i: usize = 0;
        assert(text::texts(out@) =~= Seq::empty());
        while i < v.len()
            invariant
                i <= v@.len(),
                text::texts(out@) == expired(v@, cutoff, i as nat),
            decreases v@.len() - i,
        {
            let name = store_name_of(&v[i].timestamp);
            let old_enough = match parse_timestamp(&name) {
                Some(t) => t < cutoff.secs || (t == cutoff.secs && cutoff.nanos > 0),
                None => false,
            };
            let ghost before = out@;
            if old_enough && v[i].tag.is_none() {
                out.push(name);
                assert(text::texts(out@) =~= text::texts(before).push(name_of(v@[i as int])));
            }
            i = i + 1;
        }
        out
    }

    /// The snapshots to remove for the last `max_count` to be left.
    pub fn prune_by_count(&self, v: Vec<SnapshotEntry>, max_count: usize) -> (out: Vec<String>)
        ensures
            is_excess(v@, max_count as nat, text::texts(out@)),
    {
        let mut out: Vec<String> = Vec::new();
        assert(text::texts(out@) =~= Seq::empty());
        if v.len() <= max_count {
            return out;
        }
        let excess: usize = v.len() - max_count;
        let ghost all = v@;
        let s = sort_snapshots(v);
        proof {
            sorted_has_the_same_length(all, s@);
        }
        let mut i: usize = 0;
        while i < excess
            invariant
                i <= excess <= s@.len(),
                text::texts(out@) == untagged(s@, i as nat),
            decreases excess - i,
        {
            let ghost before = out@;
            if s[i].tag.is_none() {
                out.push(store_name_of(&s[i].timestamp));
                assert(text::texts(out@) =~= text::texts(before).push(name_of(s@[i as int])));
            }
            i = i + 1;
        }
        assert(version_store::is_sorted_by_time(all, s@));
        out
    }

    /// Starts removing the oldest snapshots until those that are left take up no
    /// more than `max_bytes`.
    pub fn prune_by_size(&self, v: Vec<SnapshotEntry>, max_bytes: u64) -> (p: SizePrune)
        requires
            version_store::size_total(v@, v@.len()) <= u64::MAX,
        ensures
            p.wf(),
            version_store::is_sorted_by_time(v@, p.snapshots@),
            p.max_bytes == max_bytes,
            p.remaining == version_store::size_total(v@, v@.len()),
            p.pos == 0,
    {
        let mut total: u64 = 0;
        let mut i: usize = 0;
        while i < v.len()
            invariant
                i <= v@.len(),
                total == version_store::size_total(v@, i as nat),
                version_store::size_total(v@, v@.len()) <= u64::MAX,
            decreases v@.len() - i,
        {
            proof {
                version_store::snapshot_totals_grow(v@, (i + 1) as nat, v@.len());
            }
            total = total + v[i].size_bytes;
            i = i + 1;
        }
        SizePrune { snapshots: sort_snapshots(v), max_bytes, remaining: total, pos: 0 }
    }
}

proof fn untagged_are_picked(
    v: Seq<SnapshotEntry>,
    s: Seq<SnapshotEntry>,
    o: Seq<usize>,
    n: nat,
    f: spec_fn(usize) -> Option<Seq<char>>,
)
    requires
        s == order::reorder(v, o),
        n <= s.len(),
        forall|k: usize| #[trigger]
            f(k) == (if v[k as int].tag is None {
                Some(version_store::store_name(v[k as int].timestamp@))
            } else {
                None
            }),
    ensures
        untagged(s, n) == o.take(n as int).filter_map(f),
        forall|i: int|
            0 <= i < n && v[#[trigger] o[i] as int].tag is None ==> untagged(s, n).contains(
                version_store::store_name(v[o[i] as int].timestamp@),
            ),
        (forall|i: int| 0 <= i < n ==> v[#[trigger] o[i] as int].tag is None) ==> untagged(
            s,
            n,
        ).len() == n,
    decreases n,
{
    if n > 0 {
        untagged_are_picked(v, s, o, (n - 1) as nat, f);
        assert(o.take(n as int).drop_last() =~= o.take(n - 1));
        assert(untagged(s, n) =~= o.take(n as int).filter_map(f));
        let before = untagged(s, (n - 1) as nat);
        let all = untagged(s, n);
        assert forall|i: int| 0 <= i < n && v[#[trigger] o[i] as int].tag is None implies all.contains(
            version_store::store_name(v[o[i] as int].timestamp@),
        ) by {
            let name = version_store::store_name(v[o[i] as int].timestamp@);
            if i < n - 1 {
                let k = choose|k: int| 0 <= k < before.len() && before[k] == name;
                assert(all[k] == name);
            } else {
                assert(all[all.len() - 1] == name);
            }
        }
        if forall|i: int| 0 <= i < n ==> v[#[trigger] o[i] as int].tag is None {
            assert(v[o[n - 1] as int].tag is None);
        }
    } else {
        assert(untagged(s, 0) =~= o.take(0).filter_map(f));
    }
}

proof fn expired_are_picked(
    v: Seq<SnapshotEntry>,
    cutoff: Moment,
    n: nat,
    f: spec_fn(SnapshotEntry) -> Option<Seq<char>>,
)
    requires
        n <= v.len(),
        forall|e: SnapshotEntry| #[trigger]
            f(e) == (match crate::clock::stamp_value(version_store::store_name(e.timestamp@)) {
                Some(t) => if e.tag is None && (t < cutoff.secs || t == cutoff.secs && 0
                    < cutoff.nanos) {
                    Some(version_store::store_name(e.timestamp@))
                } else {
                    None
                },
                None => None,
            }),
    ensures
        expired(v, cutoff, n) == v.take(n as int).filter_map(f),
    decreases n,
{
    if n > 0 {
        expired_are_picked(v, cutoff, (n - 1) as nat, f);
        assert(v.take(n as int).drop_last() =~= v.take(n - 1));
    }
    assert(expired(v, cutoff, n) =~= v.take(n as int).filter_map(f));
}

/// Pruning by age: exactly the snapshots go that have no tag and whose name tells of
/// a time before the moment, in the order given. A time that cannot be read does
/// not count as old, and whole seconds come before any part of them.
pub proof fn expired_is_older_than_cutoff(v: Seq<SnapshotEntry>, cutoff: Moment)
    ensures
        expired(v, cutoff, v.len()) == v.filter_map(
            |e: SnapshotEntry|
                match crate::clock::stamp_value(version_store::store_name(e.timestamp@)) {
                    Some(t) => if e.tag is None && (t < cutoff.secs || t == cutoff.secs && 0
                        < cutoff.nanos) {
                        Some(version_store::store_name(e.timestamp@))
                    } else {
                        None
                    },
                    None => None,
                },
        ),
{
    let f = |e: SnapshotEntry|
        match crate::clock::stamp_value(version_store::store_name(e.timestamp@)) {
            Some(t) => if e.tag is None && (t < cutoff.secs || t == cutoff.secs && 0
                < cutoff.nanos) {
                Some(version_store::store_name(e.timestamp@))
            } else {
                None
            },
            None => None,
        };
    expired_are_picked(v, cutoff, v.len(), f);
    assert(v.take(v.len() as int) =~= v);
}

/// Pruning by size goes to the next snapshot without a tag and passes over none that
/// has none.
pub proof fn next_untagged_is_the_first(v: Seq<SnapshotEntry>, i: int)
    requires
        0 <= i <= v.len(),
    ensures
        i <= next_untagged(v, i) <= v.len(),
        next_untagged(v, i) < v.len() ==> v[next_untagged(v, i)].tag is None,
        forall|j: int| i <= j < next_untagged(v, i) ==> (#[trigger] v[j]).tag is Some,
    decreases v.len() - i,
{
    if i < v.len() && v[i].tag is Some {
        next_untagged_is_the_first(v, i + 1);
    }
}

/// Pruning by number, given more snapshots than that: put in the order of time, by
/// an arrangement of their positions, of those beyond the number, the oldest, all
/// that have no tag go and no other. Where none has a tag, exactly the number is
/// left.
pub proof fn excess_is_the_oldest(v: Seq<SnapshotEntry>, max_count: nat, doomed: Seq<Seq<char>>) -> (o:
    Seq<usize>)
    requires
        is_excess(v, max_count, doomed),
        v.len() > max_count,
    ensures
        o.len() == v.len(),
        forall|i: int| 0 <= i < o.len() ==> (#[trigger] o[i]) < v.len(),
        forall|i: int, j: int| 0 <= i < j < o.len() ==> o[i] != o[j],
        forall|i: int, j: int|
            0 <= i < j < o.len() ==> order::le(
                v[#[trigger] o[i] as int].timestamp@,
                v[#[trigger] o[j] as int].timestamp@,
            ),
        doomed == o.take(v.len() - max_count).filter_map(
            |k: usize|
                if v[k as int].tag is None {
                    Some(version_store::store_name(v[k as int].timestamp@))
                } else {
                    None
                },
        ),
        forall|i: int|
            0 <= i < v.len() - max_count && v[#[trigger] o[i] as int].tag is None
                ==> doomed.contains(version_store::store_name(v[o[i] as int].timestamp@)),
        (forall|i: int| 0 <= i < v.len() ==> (#[trigger] v[i]).tag is None) ==> v.len()
            - doomed.len() == max_count,
{
    let s = choose|s: Seq<SnapshotEntry>| #[trigger]
        version_store::is_sorted_by_time(v, s) && doomed == untagged(
            s,
            (v.len() - max_count) as nat,
        );
    sorted_has_the_same_length(v, s);
    let keys = version_store::timestamps(v);
    let o = choose|o: Seq<usize>| #[trigger]
        order::is_sorted_order(keys, o) && s == order::reorder(v, o);
    order::arrangement_is_sorted(keys, o);
    assert forall|i: int, j: int| 0 <= i < j < o.len() implies order::le(
        v[#[trigger] o[i] as int].timestamp@,
        v[#[trigger] o[j] as int].timestamp@,
    ) by {
        assert(order::le(keys[o[i] as int], keys[o[j] as int]));
    }
    let f = |k: usize|
        if v[k as int].tag is None {
            Some(version_store::store_name(v[k as int].timestamp@))
        } else {
            None
        };
    let n = (v.len() - max_count) as nat;
    untagged_are_picked(v, s, o, n, f);
    o
}

/// Nothing goes while there are no more than may stay.
pub proof fn few_snapshots_stay(v: Seq<SnapshotEntry>, max_count: nat, doomed: Seq<Seq<char>>)
    requires
        is_excess(v, max_count, doomed),
        v.len() <= max_count,
    ensures
        doomed == Seq::<Seq<char>>::empty(),
{
}

/// Pruning by count removes all the snapshots without a tag among the oldest that are too
/// many, and no others: where none has a tag, as many are left as may be.
pub proof fn count_prune_removes_the_oldest(
    store: &VersionStore,
    v: Vec<SnapshotEntry>,
    max_count: usize,
    out: Vec<String>,
) -> (o: Seq<usize>)
    requires
        call_ensures(VersionStore::prune_by_count, (store, v, max_count), out),
    ensures
        v@.len() <= max_count ==> out@.len() == 0,
        v@.len() > max_count ==> {
            &&& o.len() == v@.len()
            &&& forall|i: int| 0 <= i < o.len() ==> (#[trigger] o[i]) < v@.len()
            &&& forall|i: int, j: int| 0 <= i < j < o.len() ==> o[i] != o[j]
            &&& forall|i: int, j: int|
                0 <= i < j < o.len() ==> order::le(
                    v@[#[trigger] o[i] as int].timestamp@,
                    v@[#[trigger] o[j] as int].timestamp@,
                )
            &&& text::texts(out@) == o.take(v@.len() - max_count).filter_map(
                |k: usize|
                    if v@[k as int].tag is None {
                        Some(version_store::store_name(v@[k as int].timestamp@))
                    } else {
                        None
                    },
            )
            &&& forall|i: int|
                0 <= i < v@.len() - max_count && v@[#[trigger] o[i] as int].tag is None
                    ==> text::texts(out@).contains(
                    version_store::store_name(v@[o[i] as int].timestamp@),
                )
            &&& (forall|i: int| 0 <= i < v@.len() ==> (#[trigger] v@[i]).tag is None) ==> v@.len()
                - out@.len() == max_count
        },
{
    let doomed = text::texts(out@);
    assert(doomed.len() == out@.len());
    if v@.len() > max_count {
        excess_is_the_oldest(v@, max_count as nat, doomed)
    } else {
        Seq::empty()
    }
}

/// Pruning by age removes exactly the snapshots without a tag whose time is before the
/// cutoff.
pub proof fn age_prune_removes_the_older(
    store: &VersionStore,
    v: &Vec<SnapshotEntry>,
    cutoff: Moment,
    out: Vec<String>,
)
    requires
        call_ensures(VersionStore::prune_by_age, (store, v, cutoff), out),
    ensures
        text::texts(out@) == v@.filter_map(
            |e: SnapshotEntry|
                match crate::clock::stamp_value(version_store::store_name(e.timestamp@)) {
                    Some(t) => if e.tag is None && (t < cutoff.secs || t == cutoff.secs && 0
                        < cutoff.nanos) {
                        Some(version_store::store_name(e.timestamp@))
                    } else {
                        None
                    },
                    None => None,
                },
        ),
{
    expired_is_older_than_cutoff(v@, cutoff);
}

/// Pruning by size goes through the snapshots from the oldest on, and names the next without
/// a tag while there is too much; what was removed counts no longer.
pub proof fn size_prune_goes_on_while_too_large(p: &mut SizePrune, res: Option<String>)
    requires
        call_ensures(SizePrune::next, (p,), res),
        old(p).wf(),
    ensures
        old(p).remaining <= old(p).max_bytes ==> res is None,
        old(p).remaining > old(p).max_bytes && (exists|i: int|
            old(p).pos <= i < old(p).snapshots@.len() && (#[trigger] old(p).snapshots@[i]).tag
                is None) ==> res is Some,
        res matches Some(name) ==> {
            &&& old(p).pos <= final(p).pos < old(p).snapshots@.len()
            &&& old(p).snapshots@[final(p).pos as int].tag is None
            &&& name@ == version_store::store_name(
                old(p).snapshots@[final(p).pos as int].timestamp@,
            )
            &&& forall|j: int|
                old(p).pos <= j < final(p).pos ==> (#[trigger] old(p).snapshots@[j]).tag is Some
        },
{
    next_untagged_is_the_first(old(p).snapshots@, old(p).pos as int);
}

/// What was removed is taken off what remains, and what was not is not; either way the next
/// one is looked at.
pub proof fn removed_size_is_taken_off(p: &mut SizePrune, removed: bool)
    requires
        call_ensures(SizePrune::on_result, (p, removed), ()),
        old(p).pos < old(p).snapshots@.len(),
    ensures
        final(p).pos == old(p).pos + 1,
        !removed ==> final(p).remaining == old(p).remaining,
        removed && old(p).snapshots@[old(p).pos as int].size_bytes <= old(p).remaining
            ==> final(p).remaining + old(p).snapshots@[old(p).pos as int].size_bytes == old(p).remaining,
        final(p).max_bytes == old(p).max_bytes && final(p).snapshots == old(p).snapshots,
{
}

} // verus!
