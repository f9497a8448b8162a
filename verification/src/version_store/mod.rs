//! The store of snapshots: what they are named, how they are listed, and what
//! their index holds.

use crate::clock;
use crate::error::FxcpError;
use crate::order;
use crate::path;
use crate::text;
use vstd::prelude::*;

pub mod archive;
pub mod prune;

verus! {

/// A text without its colons.
pub open spec fn without_colons(s: Seq<char>) -> Seq<char>
    decreases s.len(),
{
    if s.len() == 0 {
        Seq::empty()
    } else if s.last() == ':' {
        without_colons(s.drop_last())
    } else {
        without_colons(s.drop_last()).push(s.last())
    }
}

/// A text from position `i` on, each `-T` in it made a `T`.
pub open spec fn joined_t(s: Seq<char>, i: int) -> Seq<char>
    decreases s.len() - i,
{
    if i < 0 || i >= s.len() {
        Seq::empty()
    } else if i + 1 < s.len() && s[i] == '-' && s[i + 1] == 'T' {
        seq!['T'] + joined_t(s, i + 2)
    } else {
        seq![s[i]] + joined_t(s, i + 1)
    }
}

/// A text without the `Z`s at its end.
pub open spec fn without_z(s: Seq<char>) -> Seq<char>
    decreases s.len(),
{
    if s.len() > 0 && s.last() == 'Z' {
        without_z(s.drop_last())
    } else {
        s
    }
}

/// A time as it stands in the index, made fit for a directory's name.
pub open spec fn safe_name(timestamp: Seq<char>) -> Seq<char> {
    joined_t(without_colons(timestamp), 0)
}

/// The directory's name for a time as it stands in the index.
pub open spec fn store_name(timestamp: Seq<char>) -> Seq<char> {
    without_z(safe_name(timestamp))
}

fn safe_name_of(timestamp: &str) -> (out: String)
    ensures
        out@ == safe_name(timestamp@),
{
    let x = text::chars_of(timestamp);
    let mut y: Vec<char> = Vec::new();
    let mut i: usize = 0;
    assert(x@.subrange(0, 0) =~= Seq::empty());
    while i < x.len()
        invariant
            i <= x@.len(),
            y@ == without_colons(x@.subrange(0, i as int)),
        decreases x@.len() - i,
    {
        assert(x@.subrange(0, i + 1).drop_last() =~= x@.subrange(0, i as int));
        if x[i] != ':' {
            y.push(x[i]);
        }
        i = i + 1;
    }
    assert(x@.subrange(0, i as int) =~= x@);
    let mut z: Vec<char> = Vec::new();
    let mut j: usize = 0;
    assert(z@ + joined_t(y@, 0) =~= joined_t(y@, 0));
    while j < y.len()
        invariant
            j <= y@.len(),
            z@ + joined_t(y@, j as int) == joined_t(y@, 0),
        decreases y@.len() - j,
    {
        let ghost before = z@;
        if y.len() - j > 1 && y[j] == '-' && y[j + 1] == 'T' {
            z.push('T');
            assert(before + (seq!['T'] + joined_t(y@, j + 2)) =~= z@ + joined_t(y@, j + 2));
            j = j + 2;
        } else {
            z.push(y[j]);
            assert(before + (seq![y@[j as int]] + joined_t(y@, j + 1)) =~= z@ + joined_t(y@, j + 1));
            j = j + 1;
        }
    }
    assert(z@ + joined_t(y@, j as int) =~= z@);
    text::string_of(z.as_slice())
}

/// The directory's name for a time as it stands in the index.
pub fn store_name_of(timestamp: &str) -> (out: String)
    ensures
        out@ == store_name(timestamp@),
{
    let s = safe_name_of(timestamp);
    let x = text::chars_of(&s);
    let mut n: usize = x.len();
    assert(x@.subrange(0, n as int) =~= x@);
    while n > 0 && x[n - 1] == 'Z'
        invariant
            n <= x@.len(),
            without_z(x@) == without_z(x@.subrange(0, n as int)),
        decreases n,
    {
        assert(x@.subrange(0, n as int).drop_last() =~= x@.subrange(0, n - 1));
        n = n - 1;
    }
    text::string_of_range(x.as_slice(), 0, n)
}

/// The name of a snapshot taken at a time.
pub fn format_timestamp(secs: u64) -> (s: String)
    ensures
        s@ == clock::time_text(secs as i64, clock::stamp_format()),
        secs < clock::FIVE_DIGIT_YEARS ==> clock::stamp_value(s@) == Some(secs as i64),
{
    clock::text_of_time(secs as i64, "%Y-%m-%dT%H%M%S")
}

/// A time as it stands in the index.
pub fn format_iso(secs: u64) -> (s: String)
    ensures
        s@ == clock::time_text(secs as i64, clock::iso_format()),
        secs < clock::FIVE_DIGIT_YEARS ==> store_name(s@) == clock::time_text(secs as i64, clock::stamp_format()),
{
    clock::text_of_time(secs as i64, "%Y-%m-%dT%H:%M:%SZ")
}

/// The time that the name of a snapshot stands for.
pub fn parse_timestamp(name: &str) -> (res: Option<i64>)
    ensures
        res == clock::stamp_value(name@),
{
    clock::parse_stamp(name)
}

/// How long a snapshot is kept.
#[derive(Debug)]
pub struct RetentionPolicy {
    pub expires: Option<String>,
    pub policy: String,
}

/// A snapshot, as the index lists it.
#[derive(Debug)]
pub struct SnapshotEntry {
    pub timestamp: String,
    pub snap_type: String,
    pub tag: Option<String>,
    pub files: u64,
    pub size_bytes: u64,
    pub disk_usage_bytes: u64,
    pub source: String,
    pub trigger: String,
    pub retention: Option<RetentionPolicy>,
}

/// What is written beside a snapshot.
#[derive(Debug)]
pub struct SnapshotSummary {
    pub timestamp: String,
    pub status: String,
    pub snap_type: String,
    pub tag: Option<String>,
    pub source: String,
    pub trigger: String,
    pub files: u64,
    pub size_bytes: u64,
    pub disk_usage_bytes: u64,
    pub reference: Option<String>,
    pub elapsed_ms: u64,
}

/// The list of all snapshots.
#[derive(Debug)]
pub struct VersionIndex {
    pub version: u32,
    pub target: String,
    pub created: String,
    pub snapshots: Vec<SnapshotEntry>,
}

/// What all snapshots take up together.
#[derive(Debug)]
pub struct StoreStats {
    pub snapshots: usize,
    pub total_apparent_bytes: u64,
    pub total_disk_bytes: u64,
    pub oldest: Option<String>,
    pub newest: Option<String>,
}

/// The keys by which snapshots are sorted.
pub open spec fn timestamps(v: Seq<SnapshotEntry>) -> Seq<Seq<char>> {
    Seq::new(v.len(), |i: int| v[i].timestamp@)
}

/// The keys by which snapshots are sorted.
pub fn timestamps_of(v: &Vec<SnapshotEntry>) -> (out: Vec<String>)
    ensures
        text::texts(out@) == timestamps(v@),
{
    let mut out: Vec<String> = Vec::new();
    let mut i: usize = 0;
    while i < v.len()
        invariant
            i <= v@.len(),
            out@.len() == i,
            forall|j: int| 0 <= j < i ==> (#[trigger] out@[j])@ == v@[j].timestamp@,
        decreases v@.len() - i,
    {
        out.push(v[i].timestamp.clone());
        i = i + 1;
    }
    assert(text::texts(out@) =~= timestamps(v@));
    out
}

/// The size of one file: apparent bytes, and blocks of 512 bytes.
#[derive(Debug, Clone, Copy, PartialEq, Eq, Structural)]
pub struct FileUse {
    pub len: u64,
    pub blocks: u64,
}

/// The apparent bytes of the first `n` files.
pub open spec fn apparent_total(files: Seq<FileUse>, n: nat) -> nat
    decreases n,
{
    if n == 0 {
        0
    } else {
        apparent_total(files, (n - 1) as nat) + files[n - 1].len as nat
    }
}

/// The bytes on disk of the first `n` files.
pub open spec fn disk_total(files: Seq<FileUse>, n: nat) -> nat
    decreases n,
{
    if n == 0 {
        0
    } else {
        disk_total(files, (n - 1) as nat) + (files[n - 1].blocks * 512) as nat
    }
}

proof fn totals_grow(files: Seq<FileUse>, i: nat, n: nat)
    requires
        i <= n,
    ensures
        apparent_total(files, i) <= apparent_total(files, n),
        disk_total(files, i) <= disk_total(files, n),
    decreases n,
{
    if i < n {
        totals_grow(files, i, (n - 1) as nat);
    }
}

/// The apparent size of a tree and what it takes up on disk; nothing where that
/// does not fit into 64 bits.
pub fn compute_disk_usage(files: &Vec<FileUse>) -> (res: Option<(u64, u64)>)
    ensures
        ({
            let a = apparent_total(files@, files@.len());
            let d = disk_total(files@, files@.len());
            if a <= u64::MAX && d <= u64::MAX {
                res == Some((a as u64, d as u64))
            } else {
                res is None
            }
        }),
{
    let mut apparent: u64 = 0;
    let mut disk: u64 = 0;
    let mut i: usize = 0;
    while i < files.len()
        invariant
            i <= files@.len(),
            apparent == apparent_total(files@, i as nat),
            disk == disk_total(files@, i as nat),
        decreases files@.len() - i,
    {
        proof {
            totals_grow(files@, (i + 1) as nat, files@.len());
        }
        if files[i].blocks > (u64::MAX - disk) / 512 || files[i].len > u64::MAX - apparent {
            return None;
        }
        apparent = apparent + files[i].len;
        disk = disk + files[i].blocks * 512;
        i = i + 1;
    }
    Some((apparent, disk))
}

/// The store itself: where it is.
#[derive(Debug)]
pub struct VersionStore {
    pub root: String,
}

impl VersionStore {
    /// The store of a target: a directory in it.
    pub fn open(target_root: &str) -> (s: Self)
        ensures
            s.root@ == path::join(target_root@, ".foxing_versions"@),
    {
        VersionStore { root: path::join_path(target_root, ".foxing_versions") }
    }

    /// The names under which a snapshot may be found: as given, made fit for a
    /// name, and that without the final `Z`.
    pub fn delete_snapshot(&self, timestamp: &str) -> (out: Vec<String>)
        ensures
            text::texts(out@) == seq![
                path::join(self.root@, timestamp@),
                path::join(self.root@, safe_name(timestamp@)),
                path::join(self.root@, store_name(timestamp@)),
            ],
    {
        let mut out: Vec<String> = Vec::new();
        out.push(path::join_path(&self.root, timestamp));
        out.push(path::join_path(&self.root, &safe_name_of(timestamp)));
        out.push(path::join_path(&self.root, &store_name_of(timestamp)));
        assert(text::texts(out@) =~= seq![
            path::join(self.root@, timestamp@),
            path::join(self.root@, safe_name(timestamp@)),
            path::join(self.root@, store_name(timestamp@)),
        ]);
        out
    }

    /// The directory that the store is for; empty where there is none.
    pub open spec fn target(self) -> Seq<char> {
        match path::parent(self.root@) {
            Some(p) => p,
            None => ""@,
        }
    }

    fn target_of(&self) -> (out: String)
        ensures
            out@ == self.target(),
    {
        match path::parent_of(&self.root) {
            Some(p) => p,
            None => "".to_owned(),
        }
    }

    /// A new index of some snapshots.
    pub fn rebuild_index(&self, snapshots: Vec<SnapshotEntry>, now: u64) -> (index: VersionIndex)
        ensures
            index.version == 1,
            index.target@ == self.target(),
            index.created@ == clock::time_text(now as i64, clock::iso_format()),
            index.snapshots@ == snapshots@,
    {
        VersionIndex {
            version: 1,
            target: self.target_of(),
            created: format_iso(now),
            snapshots,
        }
    }

    /// The index with one snapshot more; a new one where there was none.
    pub fn append_to_index(&self, index: Option<VersionIndex>, entry: SnapshotEntry, now: u64) -> (
        out: VersionIndex)
        ensures
            match index {
                Some(i) => out.version == i.version && out.target == i.target && out.created
                    == i.created && out.snapshots@ == i.snapshots@.push(entry),
                None => out.version == 1 && out.target@ == self.target() && out.created@
                    == clock::time_text(now as i64, clock::iso_format()) && out.snapshots@ == seq![entry],
            },
    {
        let mut out = match index {
            Some(i) => i,
            None => self.rebuild_index(Vec::new(), now),
        };
        out.snapshots.push(entry);
        assert(index is None ==> out.snapshots@ =~= seq![entry]);
        out
    }
}

/// Whether an entry of the target is left out of snapshots: the root, and what
/// belongs to the store.
pub open spec fn is_internal(rel: Seq<char>) -> bool {
    rel.len() == 0 || text::starts_with(rel, ".foxing"@)
}

/// Whether an entry of the target is left out of snapshots.
pub fn left_out(rel: &str) -> (yes: bool)
    ensures
        yes == is_internal(rel@),
{
    text::chars_of(rel).len() == 0 || text::has_prefix(rel, ".foxing")
}

/// What taking a snapshot comes to so far.
#[derive(Debug, Clone, Copy, PartialEq, Eq, Structural)]
pub struct SnapshotCount {
    pub files: u64,
    pub size_bytes: u64,
}

impl SnapshotCount {
    /// One file more was stored; its size counts where it is known.
    pub fn on_stored(&mut self, len: Option<u64>)
        requires
            old(self).files < u64::MAX,
            old(self).size_bytes + (match len {
                Some(n) => n,
                None => 0,
            }) <= u64::MAX,
        ensures
            final(self).files == old(self).files + 1,
            final(self).size_bytes == old(self).size_bytes + (match len {
                Some(n) => n,
                None => 0,
            }),
    {
        self.files = self.files + 1;
        let n: u64 = match len {
            Some(n) => n,
            None => 0,
        };
        self.size_bytes = self.size_bytes + n;
    }
}

/// How many components two paths have in common from position `i` on.
pub open spec fn shared(a: Seq<Seq<char>>, b: Seq<Seq<char>>, i: int) -> int
    decreases a.len() - i,
{
    if 0 <= i < a.len() && i < b.len() && a[i] == b[i] {
        1 + shared(a, b, i + 1)
    } else {
        0
    }
}

/// The way from `b` to `a`, of which the first `i` components are dealt with: up as
/// often as `b` goes on, and down where `a` does. There is none where both go on
/// and `b` goes up itself.
pub open spec fn way_from(a: Seq<Seq<char>>, b: Seq<Seq<char>>, i: int) -> Option<Seq<Seq<char>>> {
    if i < a.len() && i < b.len() && b[i] == seq!['.', '.'] {
        None
    } else {
        Some(
            Seq::new((b.len() - i) as nat, |j: int| seq!['.', '.']) + a.subrange(
                i,
                a.len() as int,
            ),
        )
    }
}

/// The way from one path to another, where there is one. A `.` that starts `from`
/// counts as a step down to whatever `to` starts with.
pub open spec fn path_between(to: Seq<char>, from: Seq<char>) -> Option<Seq<char>> {
    let a = path::components(to);
    let b = path::components(from);
    let k = shared(a, b, 0);
    if path::is_absolute(to) != path::is_absolute(from) {
        if path::is_absolute(to) {
            Some(to)
        } else {
            None
        }
    } else if k < a.len() && k < b.len() && b[k] == seq!['.'] {
        match way_from(a, b, 1) {
            Some(w) => Some(path::rejoin(seq![a[0]] + w, 0, w.len() as int + 1)),
            None => None,
        }
    } else {
        match way_from(a, b, k) {
            Some(w) => Some(path::rejoin(w, 0, w.len() as int)),
            None => None,
        }
    }
}

/// `pathdiff::diff_paths`: the relative path that leads from `from` to `to`, by
/// their components, where there is one.
#[verifier::external_body]
fn diff_paths(to: &str, from: &str) -> (res: Option<String>)
    ensures
        match path_between(to@, from@) {
            Some(p) => res is Some && res->0@ == p,
            None => res is None,
        },
{
    pathdiff::diff_paths(to, from).map(|p| p.to_string_lossy().into_owned())
}

/// A symbolic link: where it is, and where it points.
#[derive(Debug)]
pub struct FileLink {
    pub at: String,
    pub to: Option<String>,
}

/// Where the link to a file of a snapshot is: among the files of the store, the
/// time behind its name.
pub open spec fn link_path(root: Seq<char>, rel: Seq<char>, stamp: Seq<char>) -> Seq<char> {
    path::join(path::join(root, "files"@), rel + "~"@ + stamp)
}

/// What is found in a directory of the store.
#[derive(Debug)]
pub struct Found {
    /// The directory's name.
    pub name: String,
    pub is_dir: bool,
    /// What is written beside the snapshot, where it can be read.
    pub summary: Option<SnapshotSummary>,
    /// What its tree takes up, where there is one: apparent bytes, bytes on disk,
    /// files.
    pub tree: Option<(u64, u64, u64)>,
}

/// Whether a directory of the store is a snapshot.
pub open spec fn is_snapshot(f: Found) -> bool {
    clock::stamp_value(f.name@) is Some && f.is_dir
}

/// Whether `e` is the entry of a snapshot found in the store: by its summary
/// where that can be read, whose use of the disk is looked up where it is
/// missing; else by its name and its tree.
pub open spec fn describes(f: Found, e: SnapshotEntry) -> bool {
    let (apparent, disk, files) = match f.tree {
        Some(t) => t,
        None => (0, 0, 0),
    };
    &&& e.retention is None
    &&& match f.summary {
        Some(s) => {
            &&& e.timestamp == s.timestamp
            &&& e.snap_type == s.snap_type
            &&& e.tag == s.tag
            &&& e.files == s.files
            &&& e.size_bytes == s.size_bytes
            &&& e.disk_usage_bytes == (if s.disk_usage_bytes > 0 {
                s.disk_usage_bytes
            } else {
                disk
            })
            &&& e.source == s.source
            &&& e.trigger == s.trigger
        },
        None => {
            &&& e.timestamp == f.name
            &&& e.snap_type@ == "unknown"@
            &&& e.tag is None
            &&& e.files == files
            &&& e.size_bytes == apparent
            &&& e.disk_usage_bytes == disk
            &&& e.source@.len() == 0
            &&& e.trigger@ == "unknown"@
        },
    }
}

fn entry_of(f: Found) -> (e: SnapshotEntry)
    ensures
        describes(f, e),
{
    let (apparent, disk, files) = match f.tree {
        Some(t) => t,
        None => (0, 0, 0),
    };
    match f.summary {
        Some(s) => SnapshotEntry {
            timestamp: s.timestamp,
            snap_type: s.snap_type,
            tag: s.tag,
            files: s.files,
            size_bytes: s.size_bytes,
            disk_usage_bytes: if s.disk_usage_bytes > 0 {
                s.disk_usage_bytes
            } else {
                disk
            },
            source: s.source,
            trigger: s.trigger,
            retention: None,
        },
        None => SnapshotEntry {
            timestamp: f.name,
            snap_type: "unknown".to_owned(),
            tag: None,
            files,
            size_bytes: apparent,
            disk_usage_bytes: disk,
            source: String::new(),
            trigger: "unknown".to_owned(),
            retention: None,
        },
    }
}

/// The snapshots among the first `n` things found.
pub open spec fn snapshots_among(found: Seq<Found>, n: nat) -> Seq<Found>
    decreases n,
{
    if n == 0 {
        Seq::empty()
    } else if is_snapshot(found[n - 1]) {
        snapshots_among(found, (n - 1) as nat).push(found[n - 1])
    } else {
        snapshots_among(found, (n - 1) as nat)
    }
}

/// Whether entries describe snapshots one by one.
pub open spec fn describe_all(found: Seq<Found>, entries: Seq<SnapshotEntry>) -> bool {
    &&& entries.len() == found.len()
    &&& forall|i: int| 0 <= i < entries.len() ==> describes(found[i], #[trigger] entries[i])
}

/// Whether `out` is `v` sorted by time, those of one time in the order given.
pub open spec fn is_sorted_by_time(v: Seq<SnapshotEntry>, out: Seq<SnapshotEntry>) -> bool {
    exists|o: Seq<usize>| #[trigger]
        order::is_sorted_order(timestamps(v), o) && out == order::reorder(v, o)
}

/// Whether `out` lists the snapshots among the things found, sorted by time.
pub open spec fn are_snapshots_of(found: Seq<Found>, out: Seq<SnapshotEntry>) -> bool {
    exists|v: Seq<SnapshotEntry>| #[trigger]
        describe_all(snapshots_among(found, found.len()), v) && is_sorted_by_time(v, out)
}

/// Sorts snapshots by their times, those of one time in the order given.
pub fn sort_snapshots(v: Vec<SnapshotEntry>) -> (out: Vec<SnapshotEntry>)
    ensures
        is_sorted_by_time(v@, out@),
{
    let keys = timestamps_of(&v);
    assert(text::texts(keys@).len() == keys@.len());
    order::arrange(v, &keys)
}

/// The apparent bytes of the first `n` snapshots.
pub open spec fn size_total(v: Seq<SnapshotEntry>, n: nat) -> nat
    decreases n,
{
    if n == 0 {
        0
    } else {
        size_total(v, (n - 1) as nat) + v[n - 1].size_bytes as nat
    }
}

/// The bytes on disk of the first `n` snapshots.
pub open spec fn usage_total(v: Seq<SnapshotEntry>, n: nat) -> nat
    decreases n,
{
    if n == 0 {
        0
    } else {
        usage_total(v, (n - 1) as nat) + v[n - 1].disk_usage_bytes as nat
    }
}

pub(crate) proof fn snapshot_totals_grow(v: Seq<SnapshotEntry>, i: nat, n: nat)
    requires
        i <= n,
    ensures
        size_total(v, i) <= size_total(v, n),
        usage_total(v, i) <= usage_total(v, n),
    decreases n,
{
    if i < n {
        snapshot_totals_grow(v, i, (n - 1) as nat);
    }
}

/// What all snapshots take up together. The first and the last in the list are
/// the oldest and the newest.
pub fn compute_store_stats(v: &Vec<SnapshotEntry>) -> (s: StoreStats)
    requires
        size_total(v@, v@.len()) <= u64::MAX,
        usage_total(v@, v@.len()) <= u64::MAX,
    ensures
        s.snapshots == v@.len(),
        s.total_apparent_bytes == size_total(v@, v@.len()),
        s.total_disk_bytes == usage_total(v@, v@.len()),
        v@.len() == 0 ==> s.oldest is None && s.newest is None,
        v@.len() > 0 ==> s.oldest is Some && s.oldest->0@ == v@.first().timestamp@ && s.newest
            is Some && s.newest->0@ == v@.last().timestamp@,
{
    let mut apparent: u64 = 0;
    let mut disk: u64 = 0;
    let mut i: usize = 0;
    while i < v.len()
        invariant
            i <= v@.len(),
            apparent == size_total(v@, i as nat),
            disk == usage_total(v@, i as nat),
            size_total(v@, v@.len()) <= u64::MAX,
            usage_total(v@, v@.len()) <= u64::MAX,
        decreases v@.len() - i,
    {
        proof {
            snapshot_totals_grow(v@, (i + 1) as nat, v@.len());
        }
        apparent = apparent + v[i].size_bytes;
        disk = disk + v[i].disk_usage_bytes;
        i = i + 1;
    }
    let n: usize = v.len();
    StoreStats {
        snapshots: n,
        total_apparent_bytes: apparent,
        total_disk_bytes: disk,
        oldest: if n > 0 {
            Some(v[0].timestamp.clone())
        } else {
            None
        },
        newest: if n > 0 {
            Some(v[n - 1].timestamp.clone())
        } else {
            None
        },
    }
}

impl VersionStore {
    /// The index entry of a full snapshot taken at `secs`.
    pub fn create_snapshot(
        &self,
        secs: u64,
        tag: Option<String>,
        trigger: &str,
        source: &str,
        count: &SnapshotCount,
        disk_usage_bytes: u64,
    ) -> (e: SnapshotEntry)
        ensures
            e.timestamp@ == clock::time_text(secs as i64, clock::iso_format()),
            e.snap_type@ == "full"@,
            e.tag == tag,
            e.files == count.files,
            e.size_bytes == count.size_bytes,
            e.disk_usage_bytes == disk_usage_bytes,
            e.source@ == source@,
            e.trigger@ == trigger@,
            e.retention is None,
    {
        SnapshotEntry {
            timestamp: format_iso(secs),
            snap_type: "full".to_owned(),
            tag,
            files: count.files,
            size_bytes: count.size_bytes,
            disk_usage_bytes,
            source: source.to_owned(),
            trigger: trigger.to_owned(),
            retention: None,
        }
    }

    /// The link to a file of a snapshot. It points from its own directory to the
    /// file in the snapshot's tree.
    pub fn create_file_symlinks(&self, stamp: &str, file: &str, rel: &str) -> (link: FileLink)
        ensures
            link.at@ == link_path(self.root@, rel@, stamp@),
            ({
                let base = match path::parent(link.at@) {
                    Some(p) => p,
                    None => path::join(self.root@, "files"@),
                };
                match path_between(file@, base) {
                    Some(p) => link.to is Some && link.to->0@ == p,
                    None => link.to is None,
                }
            }),
    {
        let files_root = path::join_path(&self.root, "files");
        let at = path::join_path(&files_root, &text::concat3(rel, "~", stamp));
        let base = match path::parent_of(&at) {
            Some(p) => p,
            None => files_root,
        };
        let to = diff_paths(file, &base);
        FileLink { at, to }
    }

    fn describe_found(found: Vec<Found>) -> (out: Vec<SnapshotEntry>)
        ensures
            describe_all(snapshots_among(found@, found@.len()), out@),
    {
        let ghost all = found@;
        let mut out: Vec<SnapshotEntry> = Vec::new();
        for f in it: found
            invariant
                it.seq() == all,
                describe_all(snapshots_among(all, it.index() as nat), out@),
        {
            let ghost k = it.index();
            let ghost before = snapshots_among(all, k as nat);
            assert(f == all[k]);
            assert(snapshots_among(all, (k + 1) as nat) == if is_snapshot(f) {
                before.push(f)
            } else {
                before
            });
            if f.is_dir && parse_timestamp(&f.name).is_some() {
                out.push(entry_of(f));
            }
        }
        out
    }

    /// The snapshots that are found in the store, sorted by time.
    pub fn scan_snapshots(&self, found: Vec<Found>) -> (out: Vec<SnapshotEntry>)
        ensures
            are_snapshots_of(found@, out@),
    {
        let v = Self::describe_found(found);
        sort_snapshots(v)
    }

    /// All snapshots: as the index lists them where it can be read, else as they
    /// are found in the store.
    pub fn list_snapshots(&self, index: Option<VersionIndex>, found: Vec<Found>) -> (out: Vec<
        SnapshotEntry,
    >)
        ensures
            match index {
                Some(i) => out@ == i.snapshots@,
                None => are_snapshots_of(found@, out@),
            },
    {
        match index {
            Some(i) => i.snapshots,
            None => self.scan_snapshots(found),
        }
    }
}

/// Of a time only its colons go for a name in the store, then the hyphen before a `T`,
/// then any `Z` at the end; a name that has none of these stays as it is.
pub proof fn store_names_stay(s: Seq<char>)
    ensures
        without_colons(s) == s.filter(|c: char| c != ':'),
        (forall|i: int| 0 <= i < s.len() ==> s[i] != ':') && (forall|i: int|
            0 <= i < s.len() - 1 ==> !(s[i] == '-' && #[trigger] s[i + 1] == 'T')) && (s.len() > 0
            ==> s.last() != 'Z') ==> store_name(s) == s,
{
    let keep = |c: char| c != ':';
    colons_are_filtered(s, keep);
    if forall|i: int| 0 <= i < s.len() ==> s[i] != ':' {
        nothing_filtered(s, keep);
        if forall|i: int| 0 <= i < s.len() - 1 ==> !(s[i] == '-' && #[trigger] s[i + 1] == 'T') {
            nothing_joined(s, 0);
            assert(s.subrange(0, s.len() as int) =~= s);
        }
    }
}

proof fn colons_are_filtered(s: Seq<char>, keep: spec_fn(char) -> bool)
    requires
        forall|c: char| #[trigger] keep(c) == (c != ':'),
    ensures
        without_colons(s) == s.filter(keep),
    decreases s.len(),
{
    reveal(Seq::filter);
    if s.len() > 0 {
        colons_are_filtered(s.drop_last(), keep);
    } else {
        assert(without_colons(s) =~= s.filter(keep));
    }
}

proof fn nothing_filtered(s: Seq<char>, keep: spec_fn(char) -> bool)
    requires
        forall|i: int| 0 <= i < s.len() ==> keep(#[trigger] s[i]),
    ensures
        s.filter(keep) == s,
    decreases s.len(),
{
    reveal(Seq::filter);
    if s.len() > 0 {
        nothing_filtered(s.drop_last(), keep);
        assert(s.drop_last().push(s.last()) =~= s);
    }
}

proof fn nothing_joined(s: Seq<char>, i: int)
    requires
        0 <= i <= s.len(),
        forall|j: int| 0 <= j < s.len() - 1 ==> !(s[j] == '-' && #[trigger] s[j + 1] == 'T'),
    ensures
        joined_t(s, i) == s.subrange(i, s.len() as int),
    decreases s.len() - i,
{
    if i < s.len() {
        nothing_joined(s, i + 1);
        if i + 1 < s.len() {
            assert(!(s[i] == '-' && s[i + 1] == 'T'));
        }
        assert(joined_t(s, i) =~= s.subrange(i, s.len() as int));
    } else {
        assert(joined_t(s, i) =~= s.subrange(i, s.len() as int));
    }
}

/// What is found in a store counts as a snapshot exactly where it is a directory whose
/// name is a time, and all of those are listed: each once, by the order of their times.
pub proof fn every_snapshot_is_listed(found: Seq<Found>, out: Seq<SnapshotEntry>)
    requires
        are_snapshots_of(found, out),
    ensures
        out.len() == found.filter(
            |f: Found| f.is_dir && clock::stamp_value(f.name@) is Some,
        ).len(),
        forall|i: int, j: int|
            0 <= i < j < out.len() ==> order::le(
                (#[trigger] out[i]).timestamp@,
                (#[trigger] out[j]).timestamp@,
            ),
        forall|i: int|
            0 <= i < found.len() && (#[trigger] found[i]).is_dir && clock::stamp_value(
                found[i].name@,
            ) is Some ==> exists|k: int|
                0 <= k < out.len() && describes(found[i], #[trigger] out[k]),
        forall|e: SnapshotEntry| #[trigger]
            out.contains(e) ==> exists|i: int|
                0 <= i < found.len() && (#[trigger] found[i]).is_dir && describes(found[i], e),
{
    let p = |f: Found| f.is_dir && clock::stamp_value(f.name@) is Some;
    let v = choose|v: Seq<SnapshotEntry>| #[trigger]
        describe_all(snapshots_among(found, found.len()), v) && is_sorted_by_time(v, out);
    let among = snapshots_among(found, found.len());
    snapshots_are_filtered(found, found.len(), p);
    assert(found.take(found.len() as int) =~= found);
    let keys = timestamps(v);
    let o = choose|o: Seq<usize>| #[trigger]
        order::is_sorted_order(keys, o) && out == order::reorder(v, o);
    order::arrangement_is_sorted(keys, o);
    assert forall|i: int, j: int| 0 <= i < j < out.len() implies order::le(
        (#[trigger] out[i]).timestamp@,
        (#[trigger] out[j]).timestamp@,
    ) by {
        assert(order::le(keys[o[i] as int], keys[o[j] as int]));
    }
    assert forall|i: int|
        0 <= i < found.len() && (#[trigger] found[i]).is_dir && clock::stamp_value(found[i].name@)
            is Some implies exists|k: int|
        0 <= k < out.len() && describes(found[i], #[trigger] out[k]) by {
        assert(among.contains(found[i]));
        let m = choose|m: int| 0 <= m < among.len() && among[m] == found[i];
        order::order_is_onto(keys, o, m);
        let k = choose|k: int| 0 <= k < o.len() && (#[trigger] o[k]) == m;
        assert(out[k] == v[m]);
        assert(describes(among[m], v[m]));
    }
    assert forall|e: SnapshotEntry| #[trigger] out.contains(e) implies exists|i: int|
        0 <= i < found.len() && (#[trigger] found[i]).is_dir && describes(found[i], e) by {
        let k = choose|k: int| 0 <= k < out.len() && out[k] == e;
        let m = o[k] as int;
        assert(describes(among[m], v[m]));
        let i = snapshot_origin(found, found.len(), m);
        assert(found[i].is_dir);
    }
}

proof fn snapshots_are_filtered(found: Seq<Found>, n: nat, p: spec_fn(Found) -> bool)
    requires
        n <= found.len(),
        forall|f: Found| #[trigger]
            p(f) == (f.is_dir && clock::stamp_value(f.name@) is Some),
    ensures
        snapshots_among(found, n) == found.take(n as int).filter(p),
        forall|i: int|
            0 <= i < n && p(#[trigger] found[i]) ==> snapshots_among(found, n).contains(found[i]),
    decreases n,
{
    reveal(Seq::filter);
    if n > 0 {
        snapshots_are_filtered(found, (n - 1) as nat, p);
        assert(found.take(n as int).drop_last() =~= found.take(n - 1));
        let before = snapshots_among(found, (n - 1) as nat);
        let all = snapshots_among(found, n);
        assert forall|i: int| 0 <= i < n && p(#[trigger] found[i]) implies all.contains(
            found[i],
        ) by {
            if i < n - 1 {
                let k = choose|k: int| 0 <= k < before.len() && before[k] == found[i];
                assert(all[k] == found[i]);
            } else {
                assert(all[all.len() - 1] == found[i]);
            }
        }
    }
    assert(snapshots_among(found, n) =~= found.take(n as int).filter(p));
}

proof fn snapshot_origin(found: Seq<Found>, n: nat, m: int) -> (i: int)
    requires
        n <= found.len(),
        0 <= m < snapshots_among(found, n).len(),
    ensures
        0 <= i < n,
        found[i] == snapshots_among(found, n)[m],
        found[i].is_dir,
    decreases n,
{
    let before = snapshots_among(found, (n - 1) as nat);
    if m < before.len() {
        snapshot_origin(found, (n - 1) as nat, m)
    } else {
        n - 1
    }
}

/// A snapshot is listed by its own summary where it has one, so that its time, tag and
/// counts are those that it was taken with; its use of the disk is measured where the
/// summary does not tell. Without a summary it goes by its name and what is in it.
pub proof fn listing_goes_by_summary(f: Found, e: SnapshotEntry)
    requires
        describes(f, e),
    ensures
        f.summary matches Some(s) ==> e.timestamp == s.timestamp && e.tag == s.tag && e.files
            == s.files && e.size_bytes == s.size_bytes && e.snap_type == s.snap_type && e.source
            == s.source && e.trigger == s.trigger,
        f.summary matches Some(s) ==> s.disk_usage_bytes > 0 ==> e.disk_usage_bytes
            == s.disk_usage_bytes,
        f.summary is None ==> e.timestamp == f.name && e.tag is None,
        f.summary is None ==> (f.tree matches Some(t) ==> e.size_bytes == t.0 && e.disk_usage_bytes
            == t.1 && e.files == t.2),
        (f.summary is None || f.summary->0.disk_usage_bytes == 0) ==> (f.tree matches Some(t)
            ==> e.disk_usage_bytes == t.1),
{
}

/// The sizes of a store are sums over its snapshots, and those of a tree over its files:
/// a block has 512 bytes.
pub proof fn store_sizes_are_sums(v: Seq<SnapshotEntry>, files: Seq<FileUse>, n: nat, m: nat)
    requires
        n <= v.len(),
        m <= files.len(),
    ensures
        size_total(v, n) == v.take(n as int).fold_left(
            0int,
            |t: int, e: SnapshotEntry| t + e.size_bytes,
        ),
        usage_total(v, n) == v.take(n as int).fold_left(
            0int,
            |t: int, e: SnapshotEntry| t + e.disk_usage_bytes,
        ),
        apparent_total(files, m) == files.take(m as int).fold_left(
            0int,
            |t: int, f: FileUse| t + f.len,
        ),
        disk_total(files, m) == files.take(m as int).fold_left(
            0int,
            |t: int, f: FileUse| t + 512 * f.blocks,
        ),
    decreases n + m,
{
    if n > 0 {
        store_sizes_are_sums(v, files, (n - 1) as nat, m);
        assert(v.take(n as int).drop_last() =~= v.take(n - 1));
    }
    if m > 0 {
        store_sizes_are_sums(v, files, n, (m - 1) as nat);
        assert(files.take(m as int).drop_last() =~= files.take(m - 1));
    }
}

/// The link to a version of a file lies in the store's directory of files, by the path
/// of the file and the time behind it.
pub proof fn links_lie_among_the_files(root: Seq<char>, rel: Seq<char>, stamp: Seq<char>)
    requires
        !path::is_absolute(rel + "~"@ + stamp),
        path::components(rel + "~"@ + stamp)[0] != seq!['.'],
    ensures
        path::components(link_path(root, rel, stamp)) == path::components(root).push("files"@)
            + path::components(rel + "~"@ + stamp),
{
    reveal_strlit("files");
    path::name_is_one_component(root, "files"@);
    path::joined_is_concatenated(path::join(root, "files"@), rel + "~"@ + stamp);
}

/// The hyphen before a `T` goes from a name, and so does what marks the zone at its end.
pub proof fn store_names_are_shortened(a: Seq<char>, b: Seq<char>, s: Seq<char>)
    requires
        forall|i: int| 0 <= i < a.len() ==> a[i] != ':' && a[i] != '-',
    ensures
        safe_name(a + seq!['-', 'T'] + b) == a + seq!['T'] + safe_name(b),
        without_z(s.push('Z')) == without_z(s),
        s.len() > 0 && s.last() != 'Z' ==> without_z(s) == s,
        store_name(s) == without_z(safe_name(s)),
{
    let keep = |c: char| c != ':';
    let x = a + seq!['-', 'T'] + b;
    let y = without_colons(b);
    colons_are_filtered(x, keep);
    colons_are_filtered(b, keep);
    nothing_filtered(a, keep);
    nothing_filtered(seq!['-', 'T'], keep);
    filters_apart(a + seq!['-', 'T'], b, keep);
    filters_apart(a, seq!['-', 'T'], keep);
    assert(without_colons(x) =~= a + seq!['-', 'T'] + y);
    t_is_joined(a, y, 0);
    assert(s.push('Z').drop_last() =~= s);
}

proof fn filters_apart(a: Seq<char>, b: Seq<char>, keep: spec_fn(char) -> bool)
    ensures
        (a + b).filter(keep) == a.filter(keep) + b.filter(keep),
    decreases b.len(),
{
    reveal(Seq::filter);
    if b.len() > 0 {
        filters_apart(a, b.drop_last(), keep);
        assert((a + b).drop_last() =~= a + b.drop_last());
        assert((a + b).filter(keep) =~= a.filter(keep) + b.filter(keep));
    } else {
        assert(a + b =~= a);
        assert(a.filter(keep) + b.filter(keep) =~= a.filter(keep));
    }
}

proof fn t_is_joined(a: Seq<char>, y: Seq<char>, i: int)
    requires
        0 <= i <= a.len(),
        forall|j: int| 0 <= j < a.len() ==> a[j] != '-',
    ensures
        joined_t(a + seq!['-', 'T'] + y, i) == a.subrange(i, a.len() as int) + seq!['T'] + joined_t(
            y,
            0,
        ),
    decreases a.len() - i,
{
    let s = a + seq!['-', 'T'] + y;
    if i < a.len() {
        t_is_joined(a, y, i + 1);
        assert(s[i] == a[i]);
        assert(joined_t(s, i) =~= a.subrange(i, a.len() as int) + seq!['T'] + joined_t(y, 0));
    } else {
        joined_shifts(a + seq!['-', 'T'], y, 0);
        assert(joined_t(s, i) =~= a.subrange(i, a.len() as int) + seq!['T'] + joined_t(y, 0));
    }
}

proof fn joined_shifts(p: Seq<char>, y: Seq<char>, i: int)
    requires
        0 <= i,
    ensures
        joined_t(p + y, p.len() + i) == joined_t(y, i),
    decreases y.len() - i,
{
    if i < y.len() {
        joined_shifts(p, y, i + 1);
        if i + 1 < y.len() {
            joined_shifts(p, y, i + 2);
        }
    }
}

/// The program's own files are left out of a snapshot, and the root stands for itself.
pub proof fn own_files_are_left_out(rel: Seq<char>, s: VersionStore)
    ensures
        is_internal(rel) <==> rel.len() == 0 || ".foxing"@.is_prefix_of(rel),
        path::parent(s.root@) matches Some(p) ==> s.target() == p,
        path::parent(s.root@) is None ==> s.target().len() == 0,
{
    reveal_strlit("");
    text::prefix_is_start(rel, ".foxing"@);
}

/// Without a summary a snapshot's kind and cause are unknown, and no entry that is listed
/// has a retention of its own.
pub proof fn unknown_is_said(f: Found, e: SnapshotEntry)
    requires
        describes(f, e),
    ensures
        e.retention is None,
        f.summary is None ==> e.snap_type@ == "unknown"@ && e.trigger@ == "unknown"@
            && e.source@.len() == 0,
        f.summary is None && f.tree is None ==> e.files == 0 && e.size_bytes == 0
            && e.disk_usage_bytes == 0,
{
}

/// The way from one place to another goes up out of what they do not share and down to the
/// other; they share as many components as are the same from the start.
pub proof fn way_goes_up_and_down(to: Seq<char>, from: Seq<char>, k: int)
    requires
        path::is_absolute(to) == path::is_absolute(from),
        0 <= k <= path::components(to).len(),
        k <= path::components(from).len(),
        forall|j: int| 0 <= j < k ==> path::components(to)[j] == path::components(from)[j],
        k < path::components(to).len() && k < path::components(from).len() ==> path::components(
            to,
        )[k] != path::components(from)[k],
        forall|j: int|
            0 <= j < path::components(from).len() ==> path::components(from)[j] != seq!['.']
                && path::components(from)[j] != seq!['.', '.'],
    ensures
        ({
            let a = path::components(to);
            let b = path::components(from);
            let way = Seq::new((b.len() - k) as nat, |j: int| seq!['.', '.']) + a.subrange(
                k,
                a.len() as int,
            );
            path_between(to, from) == Some(path::rejoin(way, 0, way.len() as int))
        }),
{
    shared_is(path::components(to), path::components(from), 0, k);
}

proof fn shared_is(a: Seq<Seq<char>>, b: Seq<Seq<char>>, i: int, k: int)
    requires
        0 <= i <= k <= a.len(),
        k <= b.len(),
        forall|j: int| i <= j < k ==> a[j] == b[j],
        k < a.len() && k < b.len() ==> a[k] != b[k],
    ensures
        shared(a, b, i) == k - i,
    decreases k - i,
{
    if i < k {
        shared_is(a, b, i + 1, k);
    }
}

/// Between an absolute place and a relative one there is a way only to the absolute one,
/// which is its own path.
pub proof fn absolute_place_is_its_own_way(to: Seq<char>, from: Seq<char>)
    requires
        path::is_absolute(to) != path::is_absolute(from),
    ensures
        path::is_absolute(to) ==> path_between(to, from) == Some(to),
        !path::is_absolute(to) ==> path_between(to, from) is None,
{
}

/// The times of a list of snapshots are their own, each at its place.
pub proof fn times_keep_their_places(v: Seq<SnapshotEntry>)
    ensures
        timestamps(v).len() == v.len(),
        forall|i: int| 0 <= i < v.len() ==> #[trigger] timestamps(v)[i] == v[i].timestamp@,
{
}

/// A snapshot tells when, why and of what it was taken, its tag and what was counted.
pub proof fn snapshot_tells_how_it_was_taken(
    store: &VersionStore,
    secs: u64,
    tag: Option<String>,
    trigger: &str,
    source: &str,
    count: &SnapshotCount,
    disk: u64,
    e: SnapshotEntry,
)
    requires
        call_ensures(
            VersionStore::create_snapshot,
            (store, secs, tag, trigger, source, count, disk),
            e,
        ),
    ensures
        e.timestamp@ == clock::time_text(secs as i64, clock::iso_format()),
        e.tag == tag,
        e.trigger@ == trigger@,
        e.source@ == source@,
        e.files == count.files,
        e.size_bytes == count.size_bytes,
        e.disk_usage_bytes == disk,
        e.snap_type@ == seq!['f', 'u', 'l', 'l'],
        e.retention is None,
{
    reveal_strlit("full");
    assert("full"@ =~= seq!['f', 'u', 'l', 'l']);
}

/// A new snapshot is listed last, behind all that were listed before.
pub proof fn new_snapshot_is_appended(
    store: &VersionStore,
    index: VersionIndex,
    entry: SnapshotEntry,
    now: u64,
    out: VersionIndex,
)
    requires
        call_ensures(VersionStore::append_to_index, (store, Some(index), entry, now), out),
    ensures
        out.snapshots@.len() == index.snapshots@.len() + 1,
        out.snapshots@.last() == entry,
        out.snapshots@.drop_last() == index.snapshots@,
        out.version == index.version && out.target == index.target && out.created == index.created,
{
    assert(out.snapshots@.drop_last() =~= index.snapshots@);
}

/// The snapshots of a store are those of its index where it has one, and else what is found
/// in it.
pub proof fn index_is_listed_first(
    store: &VersionStore,
    index: Option<VersionIndex>,
    found: Vec<Found>,
    out: Vec<SnapshotEntry>,
)
    requires
        call_ensures(VersionStore::list_snapshots, (store, index, found), out),
    ensures
        index matches Some(i) ==> out@ == i.snapshots@,
        index is None ==> out@.len() == found@.filter(
            |f: Found| f.is_dir && clock::stamp_value(f.name@) is Some,
        ).len() && forall|i: int, j: int|
            0 <= i < j < out@.len() ==> order::le(
                (#[trigger] out@[i]).timestamp@,
                (#[trigger] out@[j]).timestamp@,
            ),
{
    if index is None {
        every_snapshot_is_listed(found@, out@);
    }
}

/// A snapshot is deleted under every name that it may have in the store.
pub proof fn snapshot_is_deleted_by_every_name(
    store: &VersionStore,
    timestamp: &str,
    out: Vec<String>,
)
    requires
        call_ensures(VersionStore::delete_snapshot, (store, timestamp), out),
    ensures
        out@.len() == 3,
        out@[0]@ == path::join(store.root@, timestamp@),
        out@[1]@ == path::join(store.root@, safe_name(timestamp@)),
        out@[2]@ == path::join(store.root@, store_name(timestamp@)),
{
    let t = text::texts(out@);
    let names = seq![
        path::join(store.root@, timestamp@),
        path::join(store.root@, safe_name(timestamp@)),
        path::join(store.root@, store_name(timestamp@)),
    ];
    assert(t =~= names);
    assert(t.len() == out@.len());
    assert(t[0] == out@[0]@ && t[1] == out@[1]@ && t[2] == out@[2]@);
}

/// The store tells its totals, and of its snapshots the first and the last.
pub proof fn store_tells_its_totals(v: &Vec<SnapshotEntry>, s: StoreStats)
    requires
        call_ensures(compute_store_stats, (v,), s),
    ensures
        s.snapshots == v@.len(),
        s.total_apparent_bytes == v@.fold_left(0int, |t: int, e: SnapshotEntry| t + e.size_bytes),
        s.total_disk_bytes == v@.fold_left(0int, |t: int, e: SnapshotEntry| t + e.disk_usage_bytes),
        v@.len() > 0 ==> s.oldest is Some && s.oldest->0@ == v@[0].timestamp@ && s.newest is Some
            && s.newest->0@ == v@[v@.len() - 1].timestamp@,
{
    store_sizes_are_sums(v@, Seq::empty(), v@.len(), 0);
    assert(v@.take(v@.len() as int) =~= v@);
}

} // verus!
