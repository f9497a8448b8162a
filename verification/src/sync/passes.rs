//! The passes around the walk: verifying what was copied, deleting what the
//! source no longer has, and cleaning up after interrupted runs.

use crate::filter;
use crate::order;
use crate::sync::SyncStats;
use crate::text;
use vstd::prelude::*;

verus! {

/// How comparing a file with its copy came out.
#[derive(Debug, Clone, Copy, PartialEq, Eq, Structural)]
pub enum Compared {
    Same,
    Different,
    /// One of the two could not be read.
    Failed,
}

/// Whether an entry of the source is compared with its copy: it is a file, it is
/// not excluded, and the copy is there.
pub fn should_verify(rel: &str, is_file: bool, dst_exists: bool, excludes: &Vec<String>) -> (yes:
    bool)
    ensures
        yes == (is_file && dst_exists && !filter::matches_any(text::texts(excludes@), rel@)),
{
    is_file && dst_exists && !filter::any_matches(excludes, rel)
}

impl SyncStats {
    /// Counts a comparison; one that could not be made counts as a failure.
    pub fn on_compared(&mut self, c: Compared)
        requires
            old(self).room(0),
        ensures
            *final(self) == (if c == Compared::Same {
                SyncStats { files_verified: (old(self).files_verified + 1) as u64, ..*old(self) }
            } else {
                SyncStats { verify_failures: (old(self).verify_failures + 1) as u64, ..*old(self) }
            }),
    {
        if c == Compared::Same {
            self.files_verified = self.files_verified + 1;
        } else {
            self.verify_failures = self.verify_failures + 1;
        }
    }

    /// Counts a stored directory hash.
    pub fn on_dir_hashed(&mut self)
        requires
            old(self).room(0),
        ensures
            *final(self) == (SyncStats {
                dirs_hashed: (old(self).dirs_hashed + 1) as u64,
                ..*old(self)
            }),
    {
        self.dirs_hashed = self.dirs_hashed + 1;
    }
}

/// How deletions are found.
#[derive(Debug, Clone, Copy, PartialEq, Eq, Structural)]
pub enum DeletePlan {
    /// The journal tells.
    Replay,
    /// The whole target is walked.
    Walk,
}

/// How deletions are found: by the journal where it could be read and has
/// entries, else by walking the target.
pub fn delete_plan(journal_entries: Option<usize>) -> (p: DeletePlan)
    ensures
        p == (match journal_entries {
            Some(n) => if n > 0 {
                DeletePlan::Replay
            } else {
                DeletePlan::Walk
            },
            None => DeletePlan::Walk,
        }),
{
    match journal_entries {
        Some(n) => if n > 0 {
            DeletePlan::Replay
        } else {
            DeletePlan::Walk
        },
        None => DeletePlan::Walk,
    }
}

/// What to do with an entry of the target.
#[derive(Debug, Clone, Copy, PartialEq, Eq, Structural)]
pub enum DeleteAction {
    Keep,
    RemoveDir,
    /// Removed files are counted.
    RemoveFile,
}

/// Whether an entry of the target stays whatever the source has: the root,
/// excluded paths and the journal.
pub open spec fn is_protected(rel: Seq<char>, excludes: Seq<Seq<char>>) -> bool {
    rel.len() == 0 || filter::matches_any(excludes, rel) || text::contains(
        rel,
        ".foxing_tombstones"@,
    )
}

/// What to do with an entry of the target that the walk comes across.
pub fn delete_extra_files(
    rel: &str,
    is_dir: bool,
    src_exists: bool,
    excludes: &Vec<String>,
) -> (a: DeleteAction)
    ensures
        a == (if src_exists || is_protected(rel@, text::texts(excludes@)) {
            DeleteAction::Keep
        } else if is_dir {
            DeleteAction::RemoveDir
        } else {
            DeleteAction::RemoveFile
        }),
{
    if text::chars_of(rel).len() == 0 || filter::any_matches(excludes, rel) || text::has_infix(
        rel,
        ".foxing_tombstones",
    ) {
        return DeleteAction::Keep;
    }
    if src_exists {
        DeleteAction::Keep
    } else if is_dir {
        DeleteAction::RemoveDir
    } else {
        DeleteAction::RemoveFile
    }
}

/// How old a temporary file has to be to be an orphan, in seconds.
pub const ORPHAN_AGE_SECS: i64 = 3600;

/// A moment: seconds since the epoch, and nanoseconds within the second.
#[derive(Debug, Clone, Copy, PartialEq, Eq, Structural)]
pub struct Moment {
    pub secs: i64,
    pub nanos: u32,
}

impl Moment {
    /// Whether this moment comes before `other`.
    pub open spec fn is_before(self, other: Moment) -> bool {
        self.secs < other.secs || (self.secs == other.secs && self.nanos < other.nanos)
    }
}

/// Whether a file is left over from an interrupted run: its name says that it is
/// temporary, and it was last modified more than an hour before `now`.
pub fn run_cleanup(name: &str, modified: Moment, now: Moment) -> (orphan: bool)
    requires
        now.secs >= i64::MIN + ORPHAN_AGE_SECS,
    ensures
        orphan == (text::starts_with(name@, ".tmp."@) && modified.is_before(
            Moment { secs: (now.secs - ORPHAN_AGE_SECS) as i64, nanos: now.nanos },
        )),
{
    let cutoff: i64 = now.secs - ORPHAN_AGE_SECS;
    text::has_prefix(name, ".tmp.") && (modified.secs < cutoff || (modified.secs == cutoff
        && modified.nanos < now.nanos))
}

/// The position of the last dot in a name from the `n`th character down, or -1.
pub open spec fn last_dot(name: Seq<char>, n: int) -> int
    decreases n,
{
    if n <= 0 {
        -1
    } else if name[n - 1] == '.' {
        n - 1
    } else {
        last_dot(name, n - 1)
    }
}

/// A name without its extension. A dot at its beginning starts none.
pub open spec fn stem(name: Seq<char>) -> Seq<char> {
    let p = last_dot(name, name.len() as int);
    if 0 < p <= name.len() && name != ".."@ {
        name.subrange(0, p)
    } else {
        name
    }
}

/// A name without its extension.
pub fn stem_of(name: &str) -> (out: String)
    ensures
        out@ == stem(name@),
{
    let x = text::chars_of(name);
    let mut i: usize = x.len();
    while i > 0 && x[i - 1] != '.'
        invariant
            i <= x@.len(),
            x@ == name@,
            last_dot(name@, name@.len() as int) == last_dot(name@, i as int),
        decreases i,
    {
        i = i - 1;
    }
    if i >= 2 && !text::same_text(name, "..") {
        text::string_of_range(x.as_slice(), 0, i - 1)
    } else {
        name.to_owned()
    }
}

/// The name of the checkpoint of a file at a time.
pub open spec fn checkpoint_of(name: Seq<char>, timestamp: i64) -> Seq<char> {
    stem(name) + ".snap."@ + text::signed_decimal(timestamp as int)
}

/// The name of the checkpoint of a file at a time.
pub fn checkpoint_name(name: &str, timestamp: i64) -> (out: String)
    ensures
        out@ == checkpoint_of(name@, timestamp),
{
    text::concat3(&stem_of(name), ".snap.", &text::signed_decimal_of(timestamp))
}

/// Whether a name is that of a checkpoint of `base`.
pub open spec fn is_checkpoint(name: Seq<char>, base: Seq<char>) -> bool {
    ||| text::starts_with(name, stem(base) + ".snap."@)
    ||| text::starts_with(name, base) && text::contains(name, ".snap."@)
}

/// The checkpoints of `base` among the first `n` names.
pub open spec fn checkpoints_in(names: Seq<Seq<char>>, base: Seq<char>, n: nat) -> Seq<Seq<char>>
    decreases n,
{
    if n == 0 {
        Seq::empty()
    } else if is_checkpoint(names[n - 1], base) {
        checkpoints_in(names, base, (n - 1) as nat).push(names[n - 1])
    } else {
        checkpoints_in(names, base, (n - 1) as nat)
    }
}

/// Whether `doomed` is what has to go of the names for `keep` checkpoints of
/// `base` to be left: the first of them in alphabetical order.
pub open spec fn is_surplus(
    names: Seq<Seq<char>>,
    base: Seq<char>,
    keep: nat,
    doomed: Seq<Seq<char>>,
) -> bool {
    let found = checkpoints_in(names, base, names.len());
    let surplus = if found.len() > keep {
        found.len() - keep
    } else {
        0
    };
    exists|o: Seq<usize>| #[trigger]
        order::is_sorted_order(found, o) && doomed == order::reorder(found, o).subrange(0, surplus)
}

fn find_checkpoints(names: &Vec<String>, base: &str) -> (out: Vec<String>)
    ensures
        text::texts(out@) == checkpoints_in(text::texts(names@), base@, names@.len()),
{
    let made = text::concat2(&stem_of(base), ".snap.");
    let ghost t = text::texts(names@);
    let mut out: Vec<String> = Vec::new();
    let mut i: usize = 0;
    assert(text::texts(out@) =~= Seq::empty());
    while i < names.len()
        invariant
            i <= names@.len(),
            t == text::texts(names@),
            made@ == stem(base@) + ".snap."@,
            text::texts(out@) == checkpoints_in(t, base@, i as nat),
        decreases names@.len() - i,
    {
        assert(t[i as int] == names@[i as int]@);
        let ghost before = out@;
        if text::has_prefix(&names[i], &made) || (text::has_prefix(&names[i], base)
            && text::has_infix(&names[i], ".snap.")) {
            out.push(names[i].clone());
            assert(text::texts(out@) =~= text::texts(before).push(t[i as int]));
        }
        i = i + 1;
    }
    out
}

/// The names in a directory that have to go for no more than `keep` checkpoints
/// of `base` to be left. The oldest go first: their names come first.
pub fn prune_stream_checkpoints(names: &Vec<String>, base: &str, keep: usize) -> (out: Vec<String>)
    ensures
        is_surplus(text::texts(names@), base@, keep as nat, text::texts(out@)),
{
    let found = find_checkpoints(names, base);
    let sorted = order::sorted_order(&found);
    let ghost f = text::texts(found@);
    let mut out: Vec<String> = Vec::new();
    let surplus: usize = if found.len() > keep {
        found.len() - keep
    } else {
        0
    };
    let mut i: usize = 0;
    assert(text::texts(out@) =~= order::reorder(f, sorted@).subrange(0, 0));
    while i < surplus
        invariant
            i <= surplus <= found@.len(),
            f == text::texts(found@),
            order::is_sorted_order(f, sorted@),
            text::texts(out@) == order::reorder(f, sorted@).subrange(0, i as int),
        decreases surplus - i,
    {
        assert(sorted@[i as int] < f.len());
        let ghost before = out@;
        out.push(found[sorted[i]].clone());
        proof {
            assert(text::texts(out@) =~= text::texts(before).push(
                order::reorder(f, sorted@)[i as int],
            ));
            assert(order::reorder(f, sorted@).subrange(0, i + 1) =~= order::reorder(
                f,
                sorted@,
            ).subrange(0, i as int).push(order::reorder(f, sorted@)[i as int]));
        }
        i = i + 1;
    }
    proof {
        let t = text::texts(names@);
        assert(f == checkpoints_in(t, base@, t.len()));
        assert(order::is_sorted_order(f, sorted@) && text::texts(out@) == order::reorder(
            f,
            sorted@,
        ).subrange(0, surplus as int));
    }
    out
}

/// A checkpoint is recognised by the name that it was given.
pub proof fn made_checkpoints_are_found(base: Seq<char>, timestamp: i64)
    ensures
        is_checkpoint(checkpoint_of(base, timestamp), base),
{
    let name = checkpoint_of(base, timestamp);
    let made = stem(base) + ".snap."@;
    assert(name.subrange(0, made.len() as int) =~= made);
}

/// Pruning leaves no more than `keep` checkpoints, and as many as that where
/// there were so many.
pub proof fn pruning_keeps_the_rest(
    names: Seq<Seq<char>>,
    base: Seq<char>,
    keep: nat,
    doomed: Seq<Seq<char>>,
)
    requires
        is_surplus(names, base, keep, doomed),
    ensures
        ({
            let n = checkpoints_in(names, base, names.len()).len();
            n - doomed.len() == if n > keep {
                keep
            } else {
                n
            }
        }),
{
}

/// The checkpoints of a file are the names that are found to be some, in order, and
/// those are: what starts with the name without its extension and `.snap.`, or with
/// the whole name and has `.snap.` in it.
pub proof fn checkpoints_are_filtered(names: Seq<Seq<char>>, base: Seq<char>, n: nat)
    requires
        n <= names.len(),
    ensures
        checkpoints_in(names, base, n) == names.take(n as int).filter(
            |m: Seq<char>|
                (stem(base) + ".snap."@).is_prefix_of(m) || base.is_prefix_of(m) && exists|i: int|
                    0 <= i <= m.len() - 6 && #[trigger] m.subrange(i, i + 6) == ".snap."@,
        ),
    decreases n,
{
    let p = |m: Seq<char>|
        (stem(base) + ".snap."@).is_prefix_of(m) || base.is_prefix_of(m) && exists|i: int|
            0 <= i <= m.len() - 6 && #[trigger] m.subrange(i, i + 6) == ".snap."@;
    reveal(Seq::filter);
    if n > 0 {
        checkpoints_are_filtered(names, base, (n - 1) as nat);
        assert(names.take(n as int).drop_last() =~= names.take(n - 1));
        let m = names[n - 1];
        reveal_strlit(".snap.");
        text::prefix_is_start(m, stem(base) + ".snap."@);
        text::prefix_is_start(m, base);
        assert(text::contains(m, ".snap."@) == exists|i: int|
            0 <= i <= m.len() - 6 && #[trigger] m.subrange(i, i + 6) == ".snap."@) by {
            if text::contains(m, ".snap."@) {
                let i = choose|i: int| text::stands_at(m, ".snap."@, i);
                assert(m.subrange(i, i + 6) == ".snap."@);
            }
            if exists|i: int|
                0 <= i <= m.len() - 6 && #[trigger] m.subrange(i, i + 6) == ".snap."@ {
                let i = choose|i: int|
                    0 <= i <= m.len() - 6 && #[trigger] m.subrange(i, i + 6) == ".snap."@;
                assert(text::stands_at(m, ".snap."@, i));
            }
        }
    }
    assert(checkpoints_in(names, base, n) =~= names.take(n as int).filter(p));
}

/// The stem of a name is what stands before its last dot, where that is not its first
/// character; a name without such a dot is its own stem.
pub proof fn stem_ends_at_last_dot(a: Seq<char>, b: Seq<char>)
    requires
        a.len() > 0,
        forall|i: int| 0 <= i < b.len() ==> b[i] != '.',
    ensures
        a + seq!['.'] + b != ".."@ ==> stem(a + seq!['.'] + b) == a,
        stem(b) == b,
        stem(seq!['.'] + b) == seq!['.'] + b,
{
    let w = a + seq!['.'] + b;
    last_dot_is(w, w.len() as int, a.len() as int);
    assert(w.subrange(0, a.len() as int) =~= a);
    let h = seq!['.'] + b;
    last_dot_is(h, h.len() as int, 0);
    no_dot(b, b.len() as int);
}

proof fn last_dot_is(s: Seq<char>, n: int, p: int)
    requires
        0 <= p < n <= s.len(),
        s[p] == '.',
        forall|i: int| p < i < n ==> s[i] != '.',
    ensures
        last_dot(s, n) == p,
    decreases n,
{
    if n - 1 > p {
        last_dot_is(s, n - 1, p);
    }
}

proof fn no_dot(s: Seq<char>, n: int)
    requires
        0 <= n <= s.len(),
        forall|i: int| 0 <= i < n ==> s[i] != '.',
    ensures
        last_dot(s, n) == -1,
    decreases n,
{
    if n > 0 {
        no_dot(s, n - 1);
    }
}

/// The checkpoints that go are the first by name, all of them checkpoints, and those
/// that stay come after them.
pub proof fn oldest_checkpoints_go(
    names: Seq<Seq<char>>,
    base: Seq<char>,
    keep: nat,
    doomed: Seq<Seq<char>>,
) -> (o: Seq<usize>)
    requires
        is_surplus(names, base, keep, doomed),
    ensures
        ({
            let found = checkpoints_in(names, base, names.len());
            &&& o.len() == found.len()
            &&& forall|i: int| 0 <= i < o.len() ==> (#[trigger] o[i]) < found.len()
            &&& forall|i: int, j: int| 0 <= i < j < o.len() ==> o[i] != o[j]
            &&& forall|i: int, j: int|
                0 <= i < j < o.len() ==> order::le(
                    found[#[trigger] o[i] as int],
                    found[#[trigger] o[j] as int],
                )
            &&& doomed.len() <= found.len()
            &&& found.len() - doomed.len() <= keep
            &&& doomed.len() > 0 ==> found.len() - doomed.len() == keep
            &&& forall|i: int| 0 <= i < doomed.len() ==> #[trigger] doomed[i] == found[o[i] as int]
        }),
{
    let found = checkpoints_in(names, base, names.len());
    let surplus = if found.len() > keep {
        found.len() - keep
    } else {
        0
    };
    let o = choose|o: Seq<usize>| #[trigger]
        order::is_sorted_order(found, o) && doomed == order::reorder(found, o).subrange(0, surplus);
    order::arrangement_is_sorted(found, o);
    o
}

/// Of two moments the one with fewer seconds comes first; in one second, the one with
/// fewer nanoseconds.
pub proof fn moments_are_ordered(a: Moment, b: Moment)
    requires
        a.nanos < 1000000000,
        b.nanos < 1000000000,
    ensures
        a.is_before(b) <==> a.secs * 1000000000 + a.nanos < b.secs * 1000000000 + b.nanos,
{
}

/// Nothing is deleted from a target that the source has, or that is excluded, or that
/// has the journal of deletions in its path, and the root stays; all else goes.
pub proof fn protected_entries_stay(rel: Seq<char>, excludes: Seq<String>)
    ensures
        is_protected(rel, text::texts(excludes)) <==> {
            ||| rel.len() == 0
            ||| exists|i: int|
                0 <= i < excludes.len() && filter::glob_matches((#[trigger] excludes[i])@, rel)
            ||| exists|i: int|
                0 <= i <= rel.len() - 18 && #[trigger] rel.subrange(i, i + 18)
                    == ".foxing_tombstones"@
        },
{
    reveal_strlit(".foxing_tombstones");
    filter::one_matches(excludes, rel);
    if text::contains(rel, ".foxing_tombstones"@) {
        let i = choose|i: int| text::stands_at(rel, ".foxing_tombstones"@, i);
        assert(rel.subrange(i, i + 18) == ".foxing_tombstones"@);
    }
    if exists|i: int|
        0 <= i <= rel.len() - 18 && #[trigger] rel.subrange(i, i + 18) == ".foxing_tombstones"@ {
        let i = choose|i: int|
            0 <= i <= rel.len() - 18 && #[trigger] rel.subrange(i, i + 18)
                == ".foxing_tombstones"@;
        assert(text::stands_at(rel, ".foxing_tombstones"@, i));
    }
}

/// Deleting from the target keeps what the source has and what is protected, and removes
/// all else as what it is; a file is removed as a file, a directory as a directory.
pub proof fn only_extra_entries_are_deleted(
    rel: &str,
    is_dir: bool,
    src_exists: bool,
    excludes: &Vec<String>,
    a: DeleteAction,
)
    requires
        call_ensures(delete_extra_files, (rel, is_dir, src_exists, excludes), a),
    ensures
        src_exists ==> a == DeleteAction::Keep,
        rel@.len() == 0 ==> a == DeleteAction::Keep,
        (exists|i: int|
            0 <= i < excludes@.len() && filter::glob_matches((#[trigger] excludes@[i])@, rel@))
            ==> a == DeleteAction::Keep,
        a == DeleteAction::RemoveDir ==> is_dir,
        a == DeleteAction::RemoveFile ==> !is_dir,
        !src_exists && !is_protected(rel@, text::texts(excludes@)) ==> a != DeleteAction::Keep,
{
    protected_entries_stay(rel@, excludes@);
}

/// A file is verified where it is one, its copy is there and no pattern excludes it, and a
/// difference counts as a failure.
pub proof fn every_copied_file_is_verified(
    rel: &str,
    is_file: bool,
    dst_exists: bool,
    excludes: &Vec<String>,
    yes: bool,
)
    requires
        call_ensures(should_verify, (rel, is_file, dst_exists, excludes), yes),
    ensures
        yes <==> is_file && dst_exists && forall|i: int|
            0 <= i < excludes@.len() ==> !filter::glob_matches((#[trigger] excludes@[i])@, rel@),
{
    filter::one_matches(excludes@, rel@);
}

/// A file whose copy is the same counts as verified; any other outcome counts as a failure.
pub proof fn differing_copy_is_a_failure(s: &mut SyncStats, c: Compared)
    requires
        call_ensures(SyncStats::on_compared, (s, c), ()),
        old(s).room(0),
    ensures
        final(s).files_verified == old(s).files_verified + if c == Compared::Same {
            1int
        } else {
            0
        },
        final(s).verify_failures == old(s).verify_failures + if c == Compared::Same {
            0int
        } else {
            1
        },
        final(s).files_copied == old(s).files_copied && final(s).errors == old(s).errors,
{
}

/// Deletions are replayed from a journal that has some, and found by a walk where it has
/// none or is missing.
pub proof fn journal_is_replayed_where_it_has_entries(n: Option<usize>, p: DeletePlan)
    requires
        call_ensures(delete_plan, (n,), p),
    ensures
        p == DeletePlan::Replay <==> n is Some && n->0 != 0,
        p == DeletePlan::Walk <==> n is None || n->0 == 0,
{
}

/// A temporary file is an orphan where it is one by its name and was last changed more than
/// an hour ago.
pub proof fn orphans_are_older_than_an_hour(name: &str, modified: Moment, now: Moment, orphan: bool)
    requires
        call_ensures(run_cleanup, (name, modified, now), orphan),
        modified.nanos < 1000000000,
        now.nanos < 1000000000,
        now.secs >= i64::MIN + 3600,
    ensures
        orphan <==> ".tmp."@.is_prefix_of(name@) && modified.secs * 1000000000 + modified.nanos
            < (now.secs - 3600) * 1000000000 + now.nanos,
{
    text::prefix_is_start(name@, ".tmp."@);
}

/// As many checkpoints of a file as are to be kept stay, the last by name.
pub proof fn last_checkpoints_stay(
    names: &Vec<String>,
    base: &str,
    keep: usize,
    out: Vec<String>,
) -> (o: Seq<usize>)
    requires
        call_ensures(prune_stream_checkpoints, (names, base, keep), out),
    ensures
        ({
            let found = checkpoints_in(text::texts(names@), base@, names@.len());
            &&& out@.len() == if found.len() > keep {
                found.len() - keep
            } else {
                0
            }
            &&& o.len() == found.len()
            &&& forall|i: int, j: int|
                0 <= i < j < o.len() ==> order::le(
                    found[#[trigger] o[i] as int],
                    found[#[trigger] o[j] as int],
                )
            &&& forall|i: int|
                0 <= i < out@.len() ==> (#[trigger] out@[i])@ == found[o[i] as int]
        }),
{
    let doomed = text::texts(out@);
    let o = oldest_checkpoints_go(text::texts(names@), base@, keep as nat, doomed);
    assert forall|i: int| 0 <= i < out@.len() implies (#[trigger] out@[i])@ == checkpoints_in(
        text::texts(names@),
        base@,
        names@.len(),
    )[o[i] as int] by {
        assert(doomed[i] == out@[i]@);
    }
    o
}

} // verus!
