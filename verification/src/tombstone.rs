//! The journal of deletions: which entries are still worth keeping, and what
//! replaying one against a target comes to.

use crate::error::IoKind;
use crate::filter;
use crate::path;
use crate::text;
use vstd::prelude::*;

verus! {

/// One deletion.
#[derive(Debug)]
pub struct TombstoneEntry {
    /// The path, relative to the root of source and target.
    pub rel_path: String,
    /// Whether a directory was removed.
    pub is_dir: bool,
    /// When it was, in seconds since the epoch.
    pub timestamp: i64,
    /// The number of the event that told of it; zero where a scan found it.
    pub seq: u64,
}

/// One path that came into being, and when.
#[derive(Debug)]
pub struct Creation {
    pub rel_path: String,
    pub timestamp: i64,
}

impl TombstoneEntry {
    fn duplicate(&self) -> (e: Self)
        ensures
            e == *self,
    {
        TombstoneEntry {
            rel_path: self.rel_path.clone(),
            is_dir: self.is_dir,
            timestamp: self.timestamp,
            seq: self.seq,
        }
    }
}

/// Whether the path of an entry was created again after its deletion.
pub open spec fn created_again(e: TombstoneEntry, created: Seq<Creation>) -> bool {
    exists|i: int|
        0 <= i < created.len() && (#[trigger] created[i]).timestamp > e.timestamp
            && path::same_path(created[i].rel_path@, e.rel_path@)
}

fn was_created_again(e: &TombstoneEntry, created: &Vec<Creation>) -> (yes: bool)
    ensures
        yes == created_again(*e, created@),
{
    let mut i: usize = 0;
    while i < created.len()
        invariant
            i <= created@.len(),
            forall|j: int|
                0 <= j < i ==> !((#[trigger] created@[j]).timestamp > e.timestamp
                    && path::same_path(created@[j].rel_path@, e.rel_path@)),
        decreases created@.len() - i,
    {
        if created[i].timestamp > e.timestamp && path::same_path_exec(
            &created[i].rel_path,
            &e.rel_path,
        ) {
            assert(created@[i as int].timestamp > e.timestamp);
            return true;
        }
        i = i + 1;
    }
    false
}

/// Whether an entry stays in the journal: it is not older than `cutoff` and its
/// path was not created again.
pub open spec fn stays(e: TombstoneEntry, created: Seq<Creation>, cutoff: int) -> bool {
    e.timestamp >= cutoff && !created_again(e, created)
}

/// The entries among the first `n` that stay.
pub open spec fn retained(
    entries: Seq<TombstoneEntry>,
    created: Seq<Creation>,
    cutoff: int,
    n: nat,
) -> Seq<TombstoneEntry>
    decreases n,
{
    if n == 0 {
        Seq::empty()
    } else if stays(entries[n - 1], created, cutoff) {
        retained(entries, created, cutoff, (n - 1) as nat).push(entries[n - 1])
    } else {
        retained(entries, created, cutoff, (n - 1) as nat)
    }
}

proof fn retained_is_shorter(
    entries: Seq<TombstoneEntry>,
    created: Seq<Creation>,
    cutoff: int,
    n: nat,
)
    ensures
        retained(entries, created, cutoff, n).len() <= n,
    decreases n,
{
    if n > 0 {
        retained_is_shorter(entries, created, cutoff, (n - 1) as nat);
    }
}

/// The journal file, as far as it is known: where it is, and how many entries
/// it holds.
#[derive(Debug)]
pub struct TombstoneJournal {
    pub path: String,
    pub entry_count: u64,
}

impl TombstoneJournal {
    /// A journal at `path` whose file holds `lines` lines; none where there is
    /// no file yet.
    pub fn open(path: &str, lines: Option<u64>) -> (j: Self)
        ensures
            j.path@ == path@,
            j.entry_count == (match lines {
                Some(n) => n,
                None => 0,
            }),
    {
        TombstoneJournal {
            path: path.to_owned(),
            entry_count: match lines {
                Some(n) => n,
                None => 0,
            },
        }
    }

    /// The entries of a journal, in the order of its lines: what could be made of
    /// each line that `entry_lines` gives. A line of which nothing could be made
    /// is passed over.
    pub fn read_all(&self, parsed: Vec<Option<TombstoneEntry>>) -> (out: Vec<TombstoneEntry>)
        ensures
            out@ == readable(parsed@, parsed@.len()),
    {
        let mut out: Vec<TombstoneEntry> = Vec::new();
        let mut i: usize = 0;
        while i < parsed.len()
            invariant
                i <= parsed@.len(),
                out@ == readable(parsed@, i as nat),
            decreases parsed@.len() - i,
        {
            if let Some(e) = &parsed[i] {
                out.push(e.duplicate());
            }
            i = i + 1;
        }
        out
    }

    /// One entry more was written. (The counter wraps around.)
    pub fn append(&mut self)
        ensures
            final(self).path == old(self).path,
            final(self).entry_count == old(self).entry_count.wrapping_add(1),
    {
        self.entry_count = self.entry_count.wrapping_add(1);
    }

    /// The journal without the entries that are older than `max_age_secs` at the
    /// time `now`, and without those whose path was created again later; and how
    /// many entries that leaves out. The file is to be replaced by the result.
    pub fn compact(
        &mut self,
        entries: &Vec<TombstoneEntry>,
        created: &Vec<Creation>,
        now: i64,
        max_age_secs: i64,
    ) -> (out: (Vec<TombstoneEntry>, u64))
        requires
            i64::MIN <= now - max_age_secs <= i64::MAX,
        ensures
            final(self).path == old(self).path,
            final(self).entry_count == out.0@.len(),
            out.0@ == retained(entries@, created@, now - max_age_secs, entries@.len()),
            out.1 == entries@.len() - out.0@.len(),
    {
        let cutoff: i64 = now - max_age_secs;
        let mut kept: Vec<TombstoneEntry> = Vec::new();
        let mut i: usize = 0;
        while i < entries.len()
            invariant
                i <= entries@.len(),
                cutoff == now - max_age_secs,
                kept@ == retained(entries@, created@, cutoff as int, i as nat),
            decreases entries@.len() - i,
        {
            if entries[i].timestamp >= cutoff && !was_created_again(&entries[i], created) {
                kept.push(entries[i].duplicate());
            }
            i = i + 1;
        }
        proof {
            retained_is_shorter(entries@, created@, cutoff as int, entries@.len());
        }
        self.entry_count = kept.len() as u64;
        let removed: u64 = (entries.len() - kept.len()) as u64;
        (kept, removed)
    }

    /// The file was emptied.
    pub fn clear(&mut self)
        ensures
            final(self).path == old(self).path,
            final(self).entry_count == 0,
    {
        self.entry_count = 0;
    }

    /// The number of entries.
    pub fn len(&self) -> (n: u64)
        ensures
            n == self.entry_count,
    {
        self.entry_count
    }

    /// Whether there are no entries.
    pub fn is_empty(&self) -> (empty: bool)
        ensures
            empty == (self.entry_count == 0),
    {
        self.entry_count == 0
    }

    /// Where the journal is.
    pub fn path(&self) -> (p: &str)
        ensures
            p@ == self.path@,
    {
        self.path.as_str()
    }
}

/// The entries among what could be made of the first `n` lines.
pub open spec fn readable(parsed: Seq<Option<TombstoneEntry>>, n: nat) -> Seq<TombstoneEntry>
    decreases n,
{
    if n == 0 {
        Seq::empty()
    } else {
        match parsed[n - 1] {
            Some(e) => readable(parsed, (n - 1) as nat).push(e),
            None => readable(parsed, (n - 1) as nat),
        }
    }
}

/// The text that a journal gets for an entry: its JSON, and a line feed.
pub open spec fn line_of(json: Seq<char>) -> Seq<char> {
    json + seq!['\n']
}

/// The text that a journal gets for an entry.
pub fn journal_line(json: &str) -> (out: String)
    ensures
        out@ == line_of(json@),
{
    let mut out = json.to_owned();
    out.push('\n');
    assert(out@ =~= line_of(json@));
    out
}

/// The text of a journal to which the first `n` of these were appended.
pub open spec fn journal_text(jsons: Seq<Seq<char>>, n: nat) -> Seq<char>
    decreases n,
{
    if n == 0 {
        Seq::empty()
    } else {
        journal_text(jsons, (n - 1) as nat) + line_of(jsons[n - 1])
    }
}

/// Whether a text can stand for an entry: it is more than white space, and all on
/// one line. JSON without padding is such a text.
pub open spec fn is_one_line(json: Seq<char>) -> bool {
    &&& text::trim(json).len() > 0
    &&& json.last() != '\r'
    &&& forall|i: int| 0 <= i < json.len() ==> json[i] != '\n'
}

/// The lines of a journal that hold an entry at all: those with more than white
/// space, among the first `n`.
pub open spec fn entry_lines_in(lines: Seq<Seq<char>>, n: nat) -> Seq<Seq<char>>
    decreases n,
{
    if n == 0 {
        Seq::empty()
    } else if text::trim(lines[n - 1]).len() > 0 {
        entry_lines_in(lines, (n - 1) as nat).push(lines[n - 1])
    } else {
        entry_lines_in(lines, (n - 1) as nat)
    }
}

/// The lines of a journal's text that hold an entry.
pub fn entry_lines(content: &str) -> (out: Vec<String>)
    ensures
        text::texts(out@) == entry_lines_in(text::lines(content@), text::lines(content@).len()),
{
    let lines = text::split_lines(content);
    let ghost t = text::lines(content@);
    let mut out: Vec<String> = Vec::new();
    let mut i: usize = 0;
    assert(text::texts(out@) =~= Seq::empty());
    while i < lines.len()
        invariant
            i <= lines@.len(),
            t == text::lines(content@),
            text::texts(lines@) == t,
            text::texts(out@) == entry_lines_in(t, i as nat),
        decreases lines@.len() - i,
    {
        assert(t[i as int] == lines@[i as int]@);
        let line = text::trimmed(&lines[i]);
        let ghost before = out@;
        if text::chars_of(&line).len() > 0 {
            out.push(lines[i].clone());
            assert(text::texts(out@) =~= text::texts(before).push(t[i as int]));
        }
        i = i + 1;
    }
    out
}

/// What was appended to a journal is read back, all of it and in order, by
/// whatever parser makes each entry out of its text; and the file then has as many
/// lines as there are entries, which is what a journal that is opened on it counts.
pub proof fn appended_entries_are_read_back(
    parse: spec_fn(Seq<char>) -> Option<TombstoneEntry>,
    jsons: Seq<Seq<char>>,
    entries: Seq<TombstoneEntry>,
)
    requires
        jsons.len() == entries.len(),
        forall|i: int|
            0 <= i < jsons.len() ==> is_one_line(#[trigger] jsons[i]) && parse(jsons[i]) == Some(
                entries[i],
            ),
    ensures
        ({
            let lines = text::lines(journal_text(jsons, jsons.len()));
            let found = entry_lines_in(lines, lines.len());
            &&& lines.len() == entries.len()
            &&& found == jsons
            &&& readable(found.map_values(parse), found.len()) == entries
        }),
{
    lines_of_journal(jsons, jsons.len());
    assert(jsons.subrange(0, jsons.len() as int) =~= jsons);
    every_line_holds_entry(jsons, jsons.len());
    all_readable(jsons.map_values(parse), entries, entries.len());
    assert(entries.subrange(0, entries.len() as int) =~= entries);
}

/// A journal that was emptied has no lines, and nothing is read from it.
pub proof fn emptied_journal_reads_empty()
    ensures
        text::lines(Seq::<char>::empty()) == Seq::<Seq<char>>::empty(),
        entry_lines_in(text::lines(Seq::<char>::empty()), 0) == Seq::<Seq<char>>::empty(),
        readable(Seq::empty(), 0) == Seq::<TombstoneEntry>::empty(),
{
}

/// After `n` appends to a new journal its length is `n`.
pub proof fn appends_are_counted(counts: Seq<u64>, n: nat)
    requires
        n < counts.len(),
        n <= u64::MAX,
        counts[0] == 0,
        forall|i: int|
            0 <= i < n ==> #[trigger] counts[i + 1] == counts[i].wrapping_add(1),
    ensures
        counts[n as int] == n,
    decreases n,
{
    if n > 0 {
        appends_are_counted(counts, (n - 1) as nat);
        assert(counts[(n - 1) + 1] == counts[n - 1].wrapping_add(1));
    }
}

proof fn all_readable(parsed: Seq<Option<TombstoneEntry>>, entries: Seq<TombstoneEntry>, n: nat)
    requires
        n <= parsed.len(),
        parsed.len() == entries.len(),
        forall|i: int| 0 <= i < n ==> #[trigger] parsed[i] == Some(entries[i]),
    ensures
        readable(parsed, n) == entries.subrange(0, n as int),
    decreases n,
{
    if n > 0 {
        all_readable(parsed, entries, (n - 1) as nat);
        assert(entries.subrange(0, n as int) =~= entries.subrange(0, n - 1).push(entries[n - 1]));
    } else {
        assert(entries.subrange(0, 0) =~= Seq::empty());
    }
}

proof fn every_line_holds_entry(lines: Seq<Seq<char>>, n: nat)
    requires
        n <= lines.len(),
        forall|i: int| 0 <= i < n ==> is_one_line(#[trigger] lines[i]),
    ensures
        entry_lines_in(lines, n) == lines.subrange(0, n as int),
    decreases n,
{
    if n > 0 {
        every_line_holds_entry(lines, (n - 1) as nat);
        assert(is_one_line(lines[n - 1]));
        assert(lines.subrange(0, n as int) =~= lines.subrange(0, n - 1).push(lines[n - 1]));
    } else {
        assert(lines.subrange(0, 0) =~= Seq::empty());
    }
}

proof fn lines_of_journal(jsons: Seq<Seq<char>>, n: nat)
    requires
        n <= jsons.len(),
        forall|i: int| 0 <= i < n ==> is_one_line(#[trigger] jsons[i]),
    ensures
        text::lines(journal_text(jsons, n)) == jsons.subrange(0, n as int),
        n > 0 ==> journal_text(jsons, n).len() > 0 && journal_text(jsons, n).last() == '\n',
    decreases n,
{
    if n > 0 {
        let before = journal_text(jsons, (n - 1) as nat);
        lines_of_journal(jsons, (n - 1) as nat);
        assert(is_one_line(jsons[n - 1]));
        text::line_appended(before, jsons[n - 1], 0);
        assert(before + line_of(jsons[n - 1]) =~= before + jsons[n - 1] + seq!['\n']);
        assert(jsons.subrange(0, n as int) =~= jsons.subrange(0, n - 1).push(jsons[n - 1]));
    } else {
        assert(jsons.subrange(0, 0) =~= Seq::empty());
    }
}

/// One removal to be made.
#[derive(Debug)]
pub struct Removal {
    pub path: String,
    pub is_dir: bool,
}

/// The removals that the first `n` entries call for, by path below `target` and
/// whether it is a directory. Excluded paths are left alone.
pub open spec fn removals(
    target: Seq<char>,
    entries: Seq<TombstoneEntry>,
    excludes: Seq<Seq<char>>,
    n: nat,
) -> Seq<(Seq<char>, bool)>
    decreases n,
{
    if n == 0 {
        Seq::empty()
    } else {
        let e = entries[n - 1];
        let rest = removals(target, entries, excludes, (n - 1) as nat);
        if filter::matches_any(excludes, e.rel_path@) {
            rest
        } else {
            rest.push((path::join(target, e.rel_path@), e.is_dir))
        }
    }
}

/// The views of a list of removals.
pub open spec fn removal_models(v: Seq<Removal>) -> Seq<(Seq<char>, bool)> {
    Seq::new(v.len(), |i: int| (v[i].path@, v[i].is_dir))
}

/// The removals that replaying a journal against `target` calls for, in the
/// order of its entries.
pub fn plan_replay(
    target: &str,
    entries: &Vec<TombstoneEntry>,
    excludes: &Vec<String>,
) -> (out: Vec<Removal>)
    ensures
        removal_models(out@) == removals(
            target@,
            entries@,
            text::texts(excludes@),
            entries@.len(),
        ),
{
    let mut out: Vec<Removal> = Vec::new();
    let ghost x = text::texts(excludes@);
    let mut i: usize = 0;
    assert(removal_models(out@) =~= Seq::empty());
    while i < entries.len()
        invariant
            i <= entries@.len(),
            x == text::texts(excludes@),
            removal_models(out@) == removals(target@, entries@, x, i as nat),
        decreases entries@.len() - i,
    {
        let ghost before = out@;
        if !filter::any_matches(excludes, &entries[i].rel_path) {
            out.push(
                Removal {
                    path: path::join_path(target, &entries[i].rel_path),
                    is_dir: entries[i].is_dir,
                },
            );
            assert(removal_models(out@) =~= removal_models(before).push(
                (path::join(target@, entries@[i as int].rel_path@), entries@[i as int].is_dir),
            ));
        }
        i = i + 1;
    }
    out
}

/// How a removal came out.
#[derive(Debug, Clone, Copy, PartialEq, Eq, Structural)]
pub enum Removed {
    Yes,
    Failed(IoKind),
}

/// The number of removals among the first `n` that succeeded.
pub open spec fn successes(outcomes: Seq<Removed>, n: nat) -> nat
    decreases n,
{
    if n == 0 {
        0
    } else {
        successes(outcomes, (n - 1) as nat) + if outcomes[n - 1] == Removed::Yes {
            1nat
        } else {
            0nat
        }
    }
}

/// The number of entries that replaying removed: a path that is gone already, or
/// that cannot be removed, does not count and is no error.
pub fn replay_tombstones(outcomes: &Vec<Removed>) -> (deleted: u64)
    ensures
        deleted == successes(outcomes@, outcomes@.len()),
        deleted <= outcomes@.len(),
{
    let mut deleted: u64 = 0;
    let mut i: usize = 0;
    while i < outcomes.len()
        invariant
            i <= outcomes@.len(),
            deleted == successes(outcomes@, i as nat),
            deleted <= i,
        decreases outcomes@.len() - i,
    {
        if outcomes[i] == Removed::Yes {
            deleted = deleted + 1;
        }
        i = i + 1;
    }
    deleted
}

/// Replaying entries again does nothing: where every path is gone already, no
/// removal counts.
pub proof fn replaying_gone_paths_removes_nothing(outcomes: Seq<Removed>, n: nat)
    requires
        n <= outcomes.len(),
        forall|i: int|
            0 <= i < n ==> #[trigger] outcomes[i] == Removed::Failed(IoKind::NotFound),
    ensures
        successes(outcomes, n) == 0,
    decreases n,
{
    if n > 0 {
        replaying_gone_paths_removes_nothing(outcomes, (n - 1) as nat);
    }
}

/// Compacting drops nothing that should stay and keeps nothing that should go.
pub proof fn compaction_is_exact(
    entries: Seq<TombstoneEntry>,
    created: Seq<Creation>,
    cutoff: int,
    n: nat,
)
    requires
        n <= entries.len(),
    ensures
        forall|i: int|
            0 <= i < n && stays(#[trigger] entries[i], created, cutoff) ==> retained(
                entries,
                created,
                cutoff,
                n,
            ).contains(entries[i]),
        forall|k: int|
            0 <= k < retained(entries, created, cutoff, n).len() ==> stays(
                #[trigger] retained(entries, created, cutoff, n)[k],
                created,
                cutoff,
            ),
    decreases n,
{
    if n > 0 {
        let m = (n - 1) as nat;
        let before = retained(entries, created, cutoff, m);
        let all = retained(entries, created, cutoff, n);
        compaction_is_exact(entries, created, cutoff, m);
        assert forall|i: int|
            0 <= i < n && stays(#[trigger] entries[i], created, cutoff) implies all.contains(
            entries[i],
        ) by {
            if i < m {
                let k = choose|k: int| 0 <= k < before.len() && before[k] == entries[i];
                assert(all[k] == entries[i]);
            } else {
                assert(all[all.len() - 1] == entries[i]);
            }
        }
    }
}

/// Compacting a compacted journal at the same time changes nothing.
pub proof fn compaction_is_idempotent(
    entries: Seq<TombstoneEntry>,
    created: Seq<Creation>,
    cutoff: int,
)
    ensures
        ({
            let once = retained(entries, created, cutoff, entries.len());
            retained(once, created, cutoff, once.len()) == once
        }),
{
    let once = retained(entries, created, cutoff, entries.len());
    compaction_is_exact(entries, created, cutoff, entries.len());
    all_stay(once, created, cutoff, once.len());
    assert(once.subrange(0, once.len() as int) =~= once);
}

proof fn all_stay(entries: Seq<TombstoneEntry>, created: Seq<Creation>, cutoff: int, n: nat)
    requires
        n <= entries.len(),
        forall|i: int| 0 <= i < entries.len() ==> stays(#[trigger] entries[i], created, cutoff),
    ensures
        retained(entries, created, cutoff, n) == entries.subrange(0, n as int),
    decreases n,
{
    if n > 0 {
        all_stay(entries, created, cutoff, (n - 1) as nat);
        assert(entries.subrange(0, n as int) =~= entries.subrange(0, n - 1).push(entries[n - 1]));
    } else {
        assert(entries.subrange(0, 0) =~= Seq::empty());
    }
}

/// Replaying plans one removal for each entry that no exclude matches, in the order
/// of the entries (`at` says which entry each is for): of the entry's kind, at the
/// path that follows the target by all the components of the entry's path. An entry
/// with a relative path that does not start with a `.` is meant here.
pub proof fn replay_is_planned_below_target(
    target: Seq<char>,
    entries: Seq<TombstoneEntry>,
    excludes: Seq<Seq<char>>,
    n: nat,
) -> (at: Seq<int>)
    requires
        n <= entries.len(),
        forall|i: int|
            0 <= i < n ==> !path::is_absolute((#[trigger] entries[i]).rel_path@) && (
            path::components(entries[i].rel_path@).len() > 0 ==> path::components(
                entries[i].rel_path@,
            )[0] != seq!['.']),
    ensures
        at.len() == removals(target, entries, excludes, n).len(),
        forall|k: int|
            0 <= k < at.len() ==> {
                let r = removals(target, entries, excludes, n)[k];
                let e = entries[#[trigger] at[k]];
                &&& 0 <= at[k] < n
                &&& forall|j: int|
                    0 <= j < excludes.len() ==> !#[trigger] filter::glob_matches(
                        excludes[j],
                        e.rel_path@,
                    )
                &&& r.1 == e.is_dir
                &&& path::components(r.0) == path::components(target) + path::components(
                    e.rel_path@,
                )
            },
        forall|k: int, m: int| 0 <= k < m < at.len() ==> at[k] < at[m],
        forall|i: int|
            0 <= i < n ==> #[trigger] at.contains(i) || exists|j: int|
                0 <= j < excludes.len() && #[trigger] filter::glob_matches(
                    excludes[j],
                    entries[i].rel_path@,
                ),
    decreases n,
{
    if n == 0 {
        Seq::empty()
    } else {
        let before = replay_is_planned_below_target(target, entries, excludes, (n - 1) as nat);
        let e = entries[n - 1];
        if filter::matches_any(excludes, e.rel_path@) {
            let j = choose|j: int|
                0 <= j < excludes.len() && #[trigger] filter::glob_matches(
                    excludes[j],
                    e.rel_path@,
                );
            assert forall|i: int|
                0 <= i < n implies #[trigger] before.contains(i) || exists|j: int|
                0 <= j < excludes.len() && #[trigger] filter::glob_matches(
                    excludes[j],
                    entries[i].rel_path@,
                ) by {
                let known = entries[i].rel_path@;
                if i == n - 1 {
                    assert(filter::glob_matches(excludes[j], known));
                }
            }
            before
        } else {
            let at = before.push(n - 1);
            path::joined_is_concatenated(target, e.rel_path@);
            let rs = removals(target, entries, excludes, n);
            assert(rs.drop_last() =~= removals(target, entries, excludes, (n - 1) as nat));
            assert forall|k: int| 0 <= k < at.len() implies {
                let r = rs[k];
                let e = entries[#[trigger] at[k]];
                &&& 0 <= at[k] < n
                &&& forall|j: int|
                    0 <= j < excludes.len() ==> !#[trigger] filter::glob_matches(
                        excludes[j],
                        e.rel_path@,
                    )
                &&& r.1 == e.is_dir
                &&& path::components(r.0) == path::components(target) + path::components(
                    e.rel_path@,
                )
            } by {
                if k < before.len() {
                    assert(at[k] == before[k]);
                    assert(rs[k] == removals(target, entries, excludes, (n - 1) as nat)[k]);
                }
            }
            assert forall|i: int|
                0 <= i < n implies #[trigger] at.contains(i) || exists|j: int|
                0 <= j < excludes.len() && #[trigger] filter::glob_matches(
                    excludes[j],
                    entries[i].rel_path@,
                ) by {
                let known = entries[i].rel_path@;
                if i < n - 1 {
                    if before.contains(i) {
                        let k = choose|k: int| 0 <= k < before.len() && before[k] == i;
                        assert(at[k] == i);
                    }
                } else {
                    assert(at[at.len() - 1] == i);
                }
            }
            at
        }
    }
}

/// Compacting keeps exactly the entries that are at least as young as the cutoff and
/// whose path was not created later than it was deleted, in their order.
pub proof fn compaction_keeps_young_and_gone(
    entries: Seq<TombstoneEntry>,
    created: Seq<Creation>,
    cutoff: int,
)
    ensures
        retained(entries, created, cutoff, entries.len()) == entries.filter(
            |e: TombstoneEntry|
                e.timestamp >= cutoff && forall|i: int|
                    0 <= i < created.len() && path::components(
                        (#[trigger] created[i]).rel_path@,
                    ) == path::components(e.rel_path@) ==> created[i].timestamp <= e.timestamp,
        ),
{
    let p = |e: TombstoneEntry|
        e.timestamp >= cutoff && forall|i: int|
            0 <= i < created.len() && path::components((#[trigger] created[i]).rel_path@)
                == path::components(e.rel_path@) ==> created[i].timestamp <= e.timestamp;
    retained_are_filtered(entries, created, cutoff, entries.len(), p);
    assert(entries.take(entries.len() as int) =~= entries);
}

proof fn retained_are_filtered(
    entries: Seq<TombstoneEntry>,
    created: Seq<Creation>,
    cutoff: int,
    n: nat,
    p: spec_fn(TombstoneEntry) -> bool,
)
    requires
        n <= entries.len(),
        forall|e: TombstoneEntry| #[trigger]
            p(e) == (e.timestamp >= cutoff && forall|i: int|
                0 <= i < created.len() && path::components((#[trigger] created[i]).rel_path@)
                    == path::components(e.rel_path@) ==> created[i].timestamp <= e.timestamp),
    ensures
        retained(entries, created, cutoff, n) == entries.take(n as int).filter(p),
    decreases n,
{
    reveal(Seq::filter);
    if n > 0 {
        let e = entries[n - 1];
        retained_are_filtered(entries, created, cutoff, (n - 1) as nat, p);
        assert(entries.take(n as int).drop_last() =~= entries.take(n - 1));
        assert(p(e) == stays(e, created, cutoff)) by {
            if created_again(e, created) {
                let i = choose|i: int|
                    0 <= i < created.len() && (#[trigger] created[i]).timestamp > e.timestamp
                        && path::same_path(created[i].rel_path@, e.rel_path@);
                assert(path::components(created[i].rel_path@) == path::components(e.rel_path@));
            }
        }
    }
    assert(retained(entries, created, cutoff, n) =~= entries.take(n as int).filter(p));
}

/// Replaying counts exactly the removals that succeeded.
pub proof fn successes_are_counted(outcomes: Seq<Removed>, n: nat)
    requires
        n <= outcomes.len(),
    ensures
        successes(outcomes, n) == outcomes.take(n as int).filter(
            |r: Removed| r == Removed::Yes,
        ).len(),
    decreases n,
{
    let p = |r: Removed| r == Removed::Yes;
    reveal(Seq::filter);
    if n > 0 {
        successes_are_counted(outcomes, (n - 1) as nat);
        assert(outcomes.take(n as int).drop_last() =~= outcomes.take(n - 1));
    }
}

/// Every entry that no pattern excludes is removed at the path that it has from the
/// target, and as the kind of thing that it was.
pub proof fn removals_are_joined(
    target: Seq<char>,
    entries: Seq<TombstoneEntry>,
    excludes: Seq<Seq<char>>,
    n: nat,
)
    requires
        n <= entries.len(),
    ensures
        removals(target, entries, excludes, n) == entries.take(n as int).filter(
            |e: TombstoneEntry|
                forall|j: int|
                    0 <= j < excludes.len() ==> !#[trigger] filter::glob_matches(
                        excludes[j],
                        e.rel_path@,
                    ),
        ).map_values(|e: TombstoneEntry| (path::join(target, e.rel_path@), e.is_dir)),
    decreases n,
{
    let keep = |e: TombstoneEntry|
        forall|j: int|
            0 <= j < excludes.len() ==> !#[trigger] filter::glob_matches(excludes[j], e.rel_path@);
    let f = |e: TombstoneEntry| (path::join(target, e.rel_path@), e.is_dir);
    reveal(Seq::filter);
    if n > 0 {
        removals_are_joined(target, entries, excludes, (n - 1) as nat);
        assert(entries.take(n as int).drop_last() =~= entries.take(n - 1));
        let before = entries.take(n - 1).filter(keep);
        let last = entries[n - 1];
        assert(before.push(last).map_values(f) =~= before.map_values(f).push(f(last)));
        assert(keep(last) == !filter::matches_any(excludes, last.rel_path@));
    }
    assert(removals(target, entries, excludes, n) =~= entries.take(n as int).filter(
        keep,
    ).map_values(f));
}

/// Of a journal the lines that hold something are read, in order, and of what they hold
/// the entries.
pub proof fn journal_lines_are_filtered(
    parsed: Seq<Option<TombstoneEntry>>,
    lines: Seq<Seq<char>>,
    n: nat,
    m: nat,
)
    requires
        n <= parsed.len(),
        m <= lines.len(),
    ensures
        readable(parsed, n) == parsed.take(n as int).filter_map(|p: Option<TombstoneEntry>| p),
        entry_lines_in(lines, m) == lines.take(m as int).filter(
            |l: Seq<char>| text::trim(l).len() != 0,
        ),
    decreases n + m,
{
    let f = |p: Option<TombstoneEntry>| p;
    let keep = |l: Seq<char>| text::trim(l).len() != 0;
    reveal(Seq::filter);
    if n > 0 {
        journal_lines_are_filtered(parsed, lines, (n - 1) as nat, m);
        assert(parsed.take(n as int).drop_last() =~= parsed.take(n - 1));
        reveal(Seq::filter_map);
    } else {
        reveal(Seq::filter_map);
    }
    assert(readable(parsed, n) =~= parsed.take(n as int).filter_map(f));
    if m > 0 {
        journal_lines_are_filtered(parsed, lines, n, (m - 1) as nat);
        assert(lines.take(m as int).drop_last() =~= lines.take(m - 1));
    }
    assert(entry_lines_in(lines, m) =~= lines.take(m as int).filter(keep));
}

/// A planned removal stands for its own path and kind, each at its place.
pub proof fn removals_keep_their_places(v: Seq<Removal>, json: Seq<char>)
    ensures
        removal_models(v).len() == v.len(),
        forall|i: int|
            0 <= i < v.len() ==> #[trigger] removal_models(v)[i] == (v[i].path@, v[i].is_dir),
        line_of(json) == json.push('\n'),
{
}

/// The plan to replay deletions removes, for every entry that no pattern excludes and in
/// their order, the path that lies at the entry's whole relative path below the target, as
/// the kind of thing that the entry names; nothing else is removed.
pub proof fn plan_removes_entries_below_target(
    target: &str,
    entries: &Vec<TombstoneEntry>,
    excludes: &Vec<String>,
    out: Vec<Removal>,
) -> (at: Seq<int>)
    requires
        call_ensures(plan_replay, (target, entries, excludes), out),
        forall|i: int|
            0 <= i < entries@.len() ==> !path::is_absolute((#[trigger] entries@[i]).rel_path@) && (
            path::components(entries@[i].rel_path@).len() > 0 ==> path::components(
                entries@[i].rel_path@,
            )[0] != seq!['.']),
    ensures
        at.len() == out@.len(),
        forall|k: int|
            0 <= k < at.len() ==> {
                let r = out@[k];
                let e = entries@[#[trigger] at[k]];
                &&& 0 <= at[k] < entries@.len()
                &&& r.is_dir == e.is_dir
                &&& path::components(r.path@) == path::components(target@) + path::components(
                    e.rel_path@,
                )
            },
        forall|k: int, m: int| 0 <= k < m < at.len() ==> at[k] < at[m],
        forall|i: int|
            0 <= i < entries@.len() ==> (#[trigger] at.contains(i) <==> !filter::matches_any(
                text::texts(excludes@),
                entries@[i].rel_path@,
            )),
{
    let ex = text::texts(excludes@);
    let at = replay_is_planned_below_target(target@, entries@, ex, entries@.len());
    let rs = removals(target@, entries@, ex, entries@.len());
    assert(removal_models(out@).len() == out@.len());
    assert forall|k: int| 0 <= k < at.len() implies {
        let r = out@[k];
        let e = entries@[#[trigger] at[k]];
        &&& 0 <= at[k] < entries@.len()
        &&& r.is_dir == e.is_dir
        &&& path::components(r.path@) == path::components(target@) + path::components(e.rel_path@)
    } by {
        assert(removal_models(out@)[k] == (out@[k].path@, out@[k].is_dir));
        assert(rs[k] == removal_models(out@)[k]);
    }
    assert forall|i: int| 0 <= i < entries@.len() implies (#[trigger] at.contains(i)
        <==> !filter::matches_any(ex, entries@[i].rel_path@)) by {
        if at.contains(i) {
            let k = choose|k: int| 0 <= k < at.len() && at[k] == i;
            assert(entries@[at[k]] == entries@[i]);
        }
    }
    at
}

/// Compaction keeps an entry exactly where it is young enough and its path was not created
/// again after it, in order, and tells how many went.
pub proof fn compaction_drops_the_rest(
    j: &mut TombstoneJournal,
    entries: &Vec<TombstoneEntry>,
    created: &Vec<Creation>,
    now: i64,
    max_age_secs: i64,
    out: (Vec<TombstoneEntry>, u64),
)
    requires
        call_ensures(TombstoneJournal::compact, (j, entries, created, now, max_age_secs), out),
    ensures
        out.0@ == entries@.filter(
            |e: TombstoneEntry|
                e.timestamp >= now - max_age_secs && forall|i: int|
                    0 <= i < created@.len() && path::components(
                        (#[trigger] created@[i]).rel_path@,
                    ) == path::components(e.rel_path@) ==> created@[i].timestamp <= e.timestamp,
        ),
        out.1 == entries@.len() - out.0@.len(),
        final(j).entry_count == out.0@.len(),
        final(j).path == old(j).path,
{
    compaction_keeps_young_and_gone(entries@, created@, now - max_age_secs);
}

/// Only removals that were carried out are counted, whatever became of the others.
pub proof fn replay_counts_what_it_removed(outcomes: &Vec<Removed>, deleted: u64)
    requires
        call_ensures(replay_tombstones, (outcomes,), deleted),
    ensures
        deleted == outcomes@.filter(|r: Removed| r == Removed::Yes).len(),
{
    successes_are_counted(outcomes@, outcomes@.len());
    assert(outcomes@.take(outcomes@.len() as int) =~= outcomes@);
}

} // verus!
