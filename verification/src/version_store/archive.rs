//! Taking snapshots out of the store and back in: which files travel with their
//! data and which as references, and where each entry of an archive belongs.

use crate::compress;
use crate::path;
use crate::text;
use crate::version_store::VersionStore;
use vstd::prelude::*;
use vstd::string::StringExecFns;

verus! {

/// What taking snapshots out came to.
#[derive(Debug, Clone, Copy, PartialEq, Eq, Structural)]
pub struct ExportStats {
    pub snapshots_exported: u64,
    pub total_files: u64,
    pub unique_chunks: u64,
    pub dedup_chunks: u64,
    pub total_apparent_bytes: u64,
    pub unique_bytes: u64,
    pub dedup_bytes: u64,
}

impl Default for ExportStats {
    fn default() -> (s: Self)
        ensures
            s == (ExportStats {
                snapshots_exported: 0,
                total_files: 0,
                unique_chunks: 0,
                dedup_chunks: 0,
                total_apparent_bytes: 0,
                unique_bytes: 0,
                dedup_bytes: 0,
            }),
    {
        ExportStats {
            snapshots_exported: 0,
            total_files: 0,
            unique_chunks: 0,
            dedup_chunks: 0,
            total_apparent_bytes: 0,
            unique_bytes: 0,
            dedup_bytes: 0,
        }
    }
}

impl ExportStats {
    /// Every file is either unique or a duplicate.
    pub open spec fn wf(self) -> bool {
        &&& self.unique_chunks + self.dedup_chunks == self.total_files
        &&& self.unique_bytes + self.dedup_bytes == self.total_apparent_bytes
    }
}

/// What goes into the archive for a file.
#[derive(Debug)]
pub enum ExportItem {
    /// A line of text under a path: the data is there already.
    Reference { path: String, line: String },
    /// The file's data under a path.
    Data { path: String },
}

/// What goes into the archive for a file, its texts as sequences of characters.
pub ghost enum ItemModel {
    Reference { path: Seq<char>, line: Seq<char> },
    Data { path: Seq<char> },
}

impl View for ExportItem {
    type V = ItemModel;

    open spec fn view(&self) -> ItemModel {
        match *self {
            ExportItem::Reference { path, line } => ItemModel::Reference {
                path: path@,
                line: line@,
            },
            ExportItem::Data { path } => ItemModel::Data { path: path@ },
        }
    }
}

/// The views of what goes into the archive.
pub open spec fn item_models(v: Seq<ExportItem>) -> Seq<ItemModel> {
    Seq::new(v.len(), |i: int| v[i]@)
}

/// A file of a snapshot: where it is, the hash of its contents where that is
/// known, and its size.
#[derive(Debug)]
pub struct ExportFile {
    pub path: String,
    pub hash: Option<[u8; 32]>,
    pub size: u64,
}

/// The hash of a file as text; empty where it is unknown.
pub open spec fn hash_text(hash: Option<[u8; 32]>) -> Seq<char> {
    match hash {
        Some(h) => compress::hex_text(h@),
        None => ""@,
    }
}

/// Whether the `k`th file is in the store at `root` at all.
pub open spec fn is_in_store(root: Seq<char>, files: Seq<ExportFile>, k: int) -> bool {
    path::relative(files[k].path@, root) is Some
}

/// Whether data with this hash is among the first `n` files.
pub open spec fn is_stored(root: Seq<char>, files: Seq<ExportFile>, hash: Seq<char>, n: int) -> bool {
    exists|j: int|
        0 <= j < n && is_in_store(root, files, j) && (#[trigger] files[j]).hash is Some
            && hash_text(files[j].hash) == hash
}

/// Whether the data of the `k`th file is that of a file before it.
pub open spec fn is_duplicate(root: Seq<char>, files: Seq<ExportFile>, k: int) -> bool {
    files[k].hash is Some && is_stored(root, files, hash_text(files[k].hash), k)
}

/// What goes into the archive for the `k`th file: its data under its path below
/// the root, or a line with its path, hash and size where its data is there
/// already. A file whose hash is unknown always goes with its data.
pub open spec fn item_for(root: Seq<char>, files: Seq<ExportFile>, k: int) -> ItemModel {
    let rel = path::relative(files[k].path@, root)->0;
    if is_duplicate(root, files, k) {
        ItemModel::Reference {
            path: "dedup/"@ + rel,
            line: rel + "|"@ + hash_text(files[k].hash) + "|"@ + text::decimal(
                files[k].size as nat,
            ) + "\n"@,
        }
    } else {
        ItemModel::Data { path: rel }
    }
}

/// What goes into the archive for the first `n` files; those that are not in the
/// store do not count.
pub open spec fn exported(root: Seq<char>, files: Seq<ExportFile>, n: nat) -> Seq<ItemModel>
    decreases n,
{
    if n == 0 {
        Seq::empty()
    } else {
        let before = exported(root, files, (n - 1) as nat);
        if is_in_store(root, files, n - 1) {
            before.push(item_for(root, files, n - 1))
        } else {
            before
        }
    }
}

/// How many of the first `n` files are duplicates, or are not.
pub open spec fn count_of(root: Seq<char>, files: Seq<ExportFile>, n: nat, duplicates: bool) -> nat
    decreases n,
{
    if n == 0 {
        0
    } else {
        count_of(root, files, (n - 1) as nat, duplicates) + if is_in_store(root, files, n - 1)
            && is_duplicate(root, files, n - 1) == duplicates {
            1nat
        } else {
            0nat
        }
    }
}

/// How large those of the first `n` files are that are duplicates, or are not.
pub open spec fn bytes_of(root: Seq<char>, files: Seq<ExportFile>, n: nat, duplicates: bool) -> nat
    decreases n,
{
    if n == 0 {
        0
    } else {
        bytes_of(root, files, (n - 1) as nat, duplicates) + if is_in_store(root, files, n - 1)
            && is_duplicate(root, files, n - 1) == duplicates {
            files[n - 1].size as nat
        } else {
            0nat
        }
    }
}

/// The size of the first `n` files.
pub open spec fn apparent(root: Seq<char>, files: Seq<ExportFile>, n: nat) -> nat {
    bytes_of(root, files, n, true) + bytes_of(root, files, n, false)
}

/// What taking out the first `n` files of some snapshots comes to.
pub open spec fn stats_for(
    root: Seq<char>,
    files: Seq<ExportFile>,
    snapshots: u64,
    n: nat,
) -> ExportStats {
    ExportStats {
        snapshots_exported: snapshots,
        total_files: exported(root, files, n).len() as u64,
        unique_chunks: count_of(root, files, n, false) as u64,
        dedup_chunks: count_of(root, files, n, true) as u64,
        total_apparent_bytes: apparent(root, files, n) as u64,
        unique_bytes: bytes_of(root, files, n, false) as u64,
        dedup_bytes: bytes_of(root, files, n, true) as u64,
    }
}

/// More files are no smaller, and each file is a duplicate or is not.
proof fn totals_add_up(root: Seq<char>, files: Seq<ExportFile>, i: nat, n: nat)
    requires
        i <= n,
    ensures
        apparent(root, files, i) <= apparent(root, files, n),
        count_of(root, files, n, true) + count_of(root, files, n, false) == exported(
            root,
            files,
            n,
        ).len(),
        exported(root, files, n).len() <= n,
    decreases n,
{
    if n > 0 {
        if i == n {
            totals_add_up(root, files, (i - 1) as nat, (n - 1) as nat);
        } else {
            totals_add_up(root, files, i, (n - 1) as nat);
        }
    }
}

/// One file more adds its hash to those that are stored, where it has one.
proof fn stored_so_far(root: Seq<char>, files: Seq<ExportFile>, h: Seq<char>, k: int)
    requires
        0 <= k < files.len(),
    ensures
        is_stored(root, files, h, k + 1) <==> (is_stored(root, files, h, k) || (is_in_store(
            root,
            files,
            k,
        ) && files[k].hash is Some && hash_text(files[k].hash) == h)),
{
    if is_stored(root, files, h, k + 1) && !is_stored(root, files, h, k) {
        let j = choose|j: int|
            0 <= j < k + 1 && is_in_store(root, files, j) && (#[trigger] files[j]).hash is Some
                && hash_text(files[j].hash) == h;
        assert(j == k);
    }
}

proof fn pushed_is_contained(list: Seq<Seq<char>>, t: Seq<char>, h: Seq<char>)
    ensures
        list.push(t).contains(h) <==> (list.contains(h) || h == t),
{
    let all = list.push(t);
    if list.contains(h) {
        let p = choose|p: int| 0 <= p < list.len() && list[p] == h;
        assert(all[p] == h);
    }
    if h == t {
        assert(all[list.len() as int] == h);
    }
}

fn holds_text(list: &Vec<String>, t: &str) -> (yes: bool)
    ensures
        yes == text::texts(list@).contains(t@),
{
    let mut i: usize = 0;
    while i < list.len()
        invariant
            i <= list@.len(),
            forall|j: int| 0 <= j < i ==> text::texts(list@)[j] != t@,
        decreases list@.len() - i,
    {
        assert(text::texts(list@)[i as int] == list@[i as int]@);
        if text::same_text(&list[i], t) {
            return true;
        }
        i = i + 1;
    }
    false
}

fn reference(rel: &str, hash: &str, size: u64) -> (item: ExportItem)
    ensures
        item@ == (ItemModel::Reference {
            path: "dedup/"@ + rel@,
            line: rel@ + "|"@ + hash@ + "|"@ + text::decimal(size as nat) + "\n"@,
        }),
{
    let mut line = text::concat3(rel, "|", hash);
    line.append("|");
    line.append(&text::decimal_of(size));
    line.append("\n");
    ExportItem::Reference { path: text::concat2("dedup/", rel), line }
}

/// A file that goes as a reference has its data in the archive before it: there
/// is an earlier file with its hash, and that one goes with its data.
pub proof fn every_reference_has_its_data(root: Seq<char>, files: Seq<ExportFile>, k: int) -> (j: int)
    requires
        0 <= k < files.len(),
        is_in_store(root, files, k),
        item_for(root, files, k) is Reference,
    ensures
        0 <= j < k,
        is_in_store(root, files, j),
        files[j].hash is Some,
        hash_text(files[j].hash) == hash_text(files[k].hash),
        item_for(root, files, j) is Data,
        exported(root, files, k as nat).contains(item_for(root, files, j)),
    decreases k,
{
    let hash = hash_text(files[k].hash);
    let i = choose|i: int|
        0 <= i < k && is_in_store(root, files, i) && (#[trigger] files[i]).hash is Some
            && hash_text(files[i].hash) == hash;
    let j = if item_for(root, files, i) is Reference {
        every_reference_has_its_data(root, files, i)
    } else {
        i
    };
    exported_holds(root, files, j, k as nat);
    j
}

proof fn exported_holds(root: Seq<char>, files: Seq<ExportFile>, j: int, n: nat)
    requires
        0 <= j < n,
        is_in_store(root, files, j),
    ensures
        exported(root, files, n).contains(item_for(root, files, j)),
    decreases n,
{
    let before = exported(root, files, (n - 1) as nat);
    let all = exported(root, files, n);
    if j == n - 1 {
        assert(all.last() == item_for(root, files, j));
    } else {
        exported_holds(root, files, j, (n - 1) as nat);
        let p = choose|p: int| 0 <= p < before.len() && before[p] == item_for(root, files, j);
        assert(all[p] == item_for(root, files, j));
    }
}

/// Where the summary of a snapshot goes in the archive.
pub fn summary_path(snapshot: &str) -> (out: String)
    ensures
        out@ == "meta/"@ + snapshot@ + "/summary.json"@,
{
    text::concat3("meta/", snapshot, "/summary.json")
}

/// What taking snapshots in came to.
#[derive(Debug, Clone, Copy, PartialEq, Eq, Structural)]
pub struct ImportStats {
    pub files_restored: u64,
    pub bytes_restored: u64,
    pub dedup_refs: u64,
    pub metadata_files: u64,
}

impl Default for ImportStats {
    fn default() -> (s: Self)
        ensures
            s == (ImportStats {
                files_restored: 0,
                bytes_restored: 0,
                dedup_refs: 0,
                metadata_files: 0,
            }),
    {
        ImportStats { files_restored: 0, bytes_restored: 0, dedup_refs: 0, metadata_files: 0 }
    }
}

/// What an entry of an archive is.
#[derive(Debug, Clone, Copy, PartialEq, Eq, Structural)]
pub enum EntryRole {
    Index,
    Summary,
    Reference,
    File,
}

/// What an entry is, by its path.
pub open spec fn role_of(p: Seq<char>) -> EntryRole {
    if p == "index.json"@ {
        EntryRole::Index
    } else if text::starts_with(p, "meta/"@) {
        EntryRole::Summary
    } else if text::starts_with(p, "dedup/"@) {
        EntryRole::Reference
    } else {
        EntryRole::File
    }
}

/// What an entry is, by its path.
pub fn entry_role(p: &str) -> (role: EntryRole)
    ensures
        role == role_of(p@),
{
    if text::same_text(p, "index.json") {
        EntryRole::Index
    } else if text::has_prefix(p, "meta/") {
        EntryRole::Summary
    } else if text::has_prefix(p, "dedup/") {
        EntryRole::Reference
    } else {
        EntryRole::File
    }
}

/// A path without the `meta/`s at its beginning.
pub open spec fn without_meta(p: Seq<char>) -> Seq<char>
    decreases p.len(),
{
    if text::starts_with(p, "meta/"@) && "meta/"@.len() == 5 {
        without_meta(p.subrange(5, p.len() as int))
    } else {
        p
    }
}

/// Where an entry goes in the store at `root`; a reference goes nowhere, for
/// what it refers to is there already.
pub open spec fn destination_of(root: Seq<char>, p: Seq<char>) -> Option<Seq<char>> {
    match role_of(p) {
        EntryRole::Index => Some(path::join(root, "index.json"@)),
        EntryRole::Summary => {
            let snapshot = text::split(without_meta(p), '/')[0];
            Some(path::join(path::join(root, snapshot), "summary.json"@))
        },
        EntryRole::Reference => None,
        EntryRole::File => Some(path::join(root, p)),
    }
}

fn drop_meta(p: &str) -> (out: String)
    ensures
        out@ == without_meta(p@),
{
    let x = text::chars_of(p);
    let m = text::chars_of("meta/");
    proof {
        reveal_strlit("meta/");
    }
    let mut i: usize = 0;
    assert(x@.subrange(0, x@.len() as int) =~= x@);
    while i < x.len() && text::stands_at_exec(x.as_slice(), m.as_slice(), i)
        invariant
            i <= x@.len(),
            x@ == p@,
            m@ == "meta/"@,
            m@.len() == 5,
            without_meta(p@) == without_meta(p@.subrange(i as int, p@.len() as int)),
        decreases x@.len() - i,
    {
        proof {
            let rest = p@.subrange(i as int, p@.len() as int);
            assert(rest.subrange(0, 5) =~= x@.subrange(i as int, i + 5));
            assert(rest.subrange(5, rest.len() as int) =~= p@.subrange(i + 5, p@.len() as int));
        }
        i = i + 5;
    }
    proof {
        let rest = p@.subrange(i as int, p@.len() as int);
        if text::starts_with(rest, "meta/"@) {
            assert(x@.subrange(i as int, i + 5) =~= rest.subrange(0, 5));
        }
    }
    text::string_of_range(x.as_slice(), i, x.len())
}

impl ImportStats {
    /// Counts an entry of `size` bytes that was dealt with.
    pub fn on_entry(&mut self, role: EntryRole, size: u64)
        requires
            old(self).files_restored < u64::MAX,
            old(self).dedup_refs < u64::MAX,
            old(self).metadata_files < u64::MAX,
            old(self).bytes_restored + size <= u64::MAX,
        ensures
            *final(self) == (match role {
                EntryRole::Index | EntryRole::Summary => ImportStats {
                    metadata_files: (old(self).metadata_files + 1) as u64,
                    ..*old(self)
                },
                EntryRole::Reference => ImportStats {
                    dedup_refs: (old(self).dedup_refs + 1) as u64,
                    ..*old(self)
                },
                EntryRole::File => ImportStats {
                    files_restored: (old(self).files_restored + 1) as u64,
                    bytes_restored: (old(self).bytes_restored + size) as u64,
                    ..*old(self)
                },
            }),
    {
        match role {
            EntryRole::Index | EntryRole::Summary => {
                self.metadata_files = self.metadata_files + 1;
            },
            EntryRole::Reference => {
                self.dedup_refs = self.dedup_refs + 1;
            },
            EntryRole::File => {
                self.files_restored = self.files_restored + 1;
                self.bytes_restored = self.bytes_restored + size;
            },
        }
    }
}

/// One entry of an archive, as it is listed.
#[derive(Debug)]
pub struct ArchiveEntry {
    pub path: String,
    pub size: u64,
    pub is_dedup_ref: bool,
    pub is_metadata: bool,
}

/// How an archive is packed.
#[derive(Debug, Clone, Copy, PartialEq, Eq, Structural)]
pub enum Packing {
    Plain,
    Zstd(i32),
    Lz4,
    Gzip,
    Xz(u32),
}

/// What follows a prefix.
pub open spec fn after_prefix(s: Seq<char>, p: Seq<char>) -> Option<Seq<char>> {
    if text::starts_with(s, p) {
        Some(s.subrange(p.len() as int, s.len() as int))
    } else {
        None
    }
}

fn strip(s: &str, p: &str) -> (res: Option<String>)
    ensures
        match after_prefix(s@, p@) {
            Some(r) => res is Some && res->0@ == r,
            None => res is None,
        },
{
    if !text::has_prefix(s, p) {
        return None;
    }
    let x = text::chars_of(s);
    let n: usize = text::chars_of(p).len();
    Some(text::string_of_range(x.as_slice(), n, x.len()))
}

/// The level behind `zstd:`, or 3.
pub open spec fn zstd_level(s: Seq<char>) -> i32 {
    match after_prefix(s, "zstd:"@) {
        Some(l) => match text::parse_signed(l) {
            Some(n) => n as i32,
            None => 3,
        },
        None => 3,
    }
}

/// The level behind `xz:`, or 6.
pub open spec fn xz_level(s: Seq<char>) -> u32 {
    match after_prefix(s, "xz:"@) {
        Some(l) => match text::parse_number(l, u32::MAX as nat) {
            Some(n) => n as u32,
            None => 6,
        },
        None => 6,
    }
}

/// How an archive is packed, by what the user asks for.
pub open spec fn packing_of(s: Seq<char>) -> Packing {
    if s == "none"@ {
        Packing::Plain
    } else if text::starts_with(s, "zstd"@) {
        Packing::Zstd(zstd_level(s))
    } else if s == "lz4"@ {
        Packing::Lz4
    } else if s == "gzip"@ {
        Packing::Gzip
    } else if text::starts_with(s, "xz"@) {
        Packing::Xz(xz_level(s))
    } else {
        Packing::Zstd(3)
    }
}

/// How an archive is packed, by what the user asks for: with zstd where nothing
/// else is asked for.
pub fn wrap_compressor(s: &str) -> (p: Packing)
    ensures
        p == packing_of(s@),
{
    if text::same_text(s, "none") {
        return Packing::Plain;
    }
    if text::has_prefix(s, "zstd") {
        let level: i32 = match strip(s, "zstd:") {
            Some(l) => match text::parse_i32(&l) {
                Some(n) => n,
                None => 3,
            },
            None => 3,
        };
        return Packing::Zstd(level);
    }
    if text::same_text(s, "lz4") {
        return Packing::Lz4;
    }
    if text::same_text(s, "gzip") {
        return Packing::Gzip;
    }
    if text::has_prefix(s, "xz") {
        let level: u32 = match strip(s, "xz:") {
            Some(l) => match text::parse_decimal(&l, u32::MAX as u64) {
                Some(n) => n as u32,
                None => 6,
            },
            None => 6,
        };
        return Packing::Xz(level);
    }
    Packing::Zstd(3)
}

/// How an archive is unpacked.
#[derive(Debug, Clone, Copy, PartialEq, Eq, Structural)]
pub enum Unpacking {
    Plain,
    Zstd,
    Lz4,
    Gzip,
    Xz,
}

/// How an archive is unpacked, by name; anything unknown is taken as it is.
pub open spec fn unpacking_of(s: Seq<char>) -> Unpacking {
    if s == "zstd"@ {
        Unpacking::Zstd
    } else if s == "lz4"@ {
        Unpacking::Lz4
    } else if s == "gzip"@ {
        Unpacking::Gzip
    } else if s == "xz"@ {
        Unpacking::Xz
    } else {
        Unpacking::Plain
    }
}

/// How an archive is unpacked, by name.
pub fn wrap_import_decompressor(s: &str) -> (u: Unpacking)
    ensures
        u == unpacking_of(s@),
{
    if text::same_text(s, "zstd") {
        Unpacking::Zstd
    } else if text::same_text(s, "lz4") {
        Unpacking::Lz4
    } else if text::same_text(s, "gzip") {
        Unpacking::Gzip
    } else if text::same_text(s, "xz") {
        Unpacking::Xz
    } else {
        Unpacking::Plain
    }
}

/// A path that was made for a reference is recognised as one, and a summary's
/// path as a summary's.
pub proof fn exported_paths_are_recognised(rel: Seq<char>, snapshot: Seq<char>)
    ensures
        role_of("dedup/"@ + rel) == EntryRole::Reference,
        role_of("meta/"@ + snapshot + "/summary.json"@) == EntryRole::Summary,
{
    reveal_strlit("dedup/");
    reveal_strlit("meta/");
    reveal_strlit("index.json");
    reveal_strlit("/summary.json");
    let a = "dedup/"@ + rel;
    let b = "meta/"@ + snapshot + "/summary.json"@;
    assert(a.subrange(0, 6) =~= "dedup/"@);
    assert(b.subrange(0, 5) =~= "meta/"@);
    assert(a[0] == 'd' && "index.json"@[0] == 'i' && b[0] == 'm');
    if text::starts_with(a, "meta/"@) {
        assert(a.subrange(0, 5)[0] == 'm');
    }
}

/// The data of a file comes back to where it was taken from: an entry with the
/// file's path below the root goes to that path. (A path that is taken for
/// something else, such as one in a directory `meta`, is left out.)
pub proof fn exported_data_comes_back(root: Seq<char>, p: Seq<char>)
    requires
        path::relative(p, root) is Some,
        role_of(path::relative(p, root)->0) == EntryRole::File,
    ensures
        destination_of(root, path::relative(p, root)->0) is Some,
        path::same_path(destination_of(root, path::relative(p, root)->0)->0, p),
{
    path::relative_joins_back(p, root);
}

impl VersionStore {
    /// What goes into the archive for the files of some snapshots, in their
    /// order, and what that comes to: data that occurs twice goes in once.
    pub fn export(&self, files: &Vec<ExportFile>, snapshots: u64) -> (out: (
        Vec<ExportItem>,
        ExportStats,
    ))
        requires
            apparent(self.root@, files@, files@.len()) <= u64::MAX,
        ensures
            item_models(out.0@) == exported(self.root@, files@, files@.len()),
            out.1 == stats_for(self.root@, files@, snapshots, files@.len()),
            out.1.wf(),
    {
        let ghost root = self.root@;
        let ghost fs = files@;
        let mut items: Vec<ExportItem> = Vec::new();
        let mut seen: Vec<String> = Vec::new();
        let mut stats = ExportStats::default();
        stats.snapshots_exported = snapshots;
        let mut i: usize = 0;
        assert(item_models(items@) =~= exported(root, fs, 0));
        while i < files.len()
            invariant
                i <= files@.len(),
                fs == files@,
                root == self.root@,
                apparent(root, fs, fs.len()) <= u64::MAX,
                item_models(items@) == exported(root, fs, i as nat),
                stats == stats_for(root, fs, snapshots, i as nat),
                forall|h: Seq<char>| #[trigger]
                    text::texts(seen@).contains(h) <==> is_stored(root, fs, h, i as int),
            decreases files@.len() - i,
        {
            proof {
                totals_add_up(root, fs, i as nat, i as nat);
                totals_add_up(root, fs, (i + 1) as nat, fs.len());
                totals_add_up(root, fs, (i + 1) as nat, (i + 1) as nat);
            }
            let f = &files[i];
            let ghost before = items@;
            let ghost known = seen@;
            match path::strip_prefix(&f.path, &self.root) {
                Some(rel) => {
                    let hash = match &f.hash {
                        Some(h) => compress::hex_encode(h.as_slice()),
                        None => "".to_owned(),
                    };
                    assert(hash@ == hash_text(f.hash));
                    stats.total_files = stats.total_files + 1;
                    stats.total_apparent_bytes = stats.total_apparent_bytes + f.size;
                    if f.hash.is_some() && holds_text(&seen, &hash) {
                        assert(is_duplicate(root, fs, i as int));
                        stats.dedup_chunks = stats.dedup_chunks + 1;
                        stats.dedup_bytes = stats.dedup_bytes + f.size;
                        items.push(reference(&rel, &hash, f.size));
                        assert forall|h: Seq<char>| #[trigger]
                            text::texts(seen@).contains(h) <==> is_stored(
                                root,
                                fs,
                                h,
                                i + 1,
                            ) by {
                            stored_so_far(root, fs, h, i as int);
                        }
                    } else {
                        assert(!is_duplicate(root, fs, i as int));
                        stats.unique_chunks = stats.unique_chunks + 1;
                        stats.unique_bytes = stats.unique_bytes + f.size;
                        if f.hash.is_some() {
                            seen.push(hash);
                            assert(text::texts(seen@) =~= text::texts(known).push(
                                hash_text(f.hash),
                            ));
                        }
                        items.push(ExportItem::Data { path: rel });
                        assert forall|h: Seq<char>| #[trigger]
                            text::texts(seen@).contains(h) <==> is_stored(
                                root,
                                fs,
                                h,
                                i + 1,
                            ) by {
                            stored_so_far(root, fs, h, i as int);
                            if f.hash is Some {
                                pushed_is_contained(text::texts(known), hash_text(f.hash), h);
                            }
                        }
                    }
                    assert(item_models(items@) =~= item_models(before).push(
                        item_for(root, fs, i as int),
                    ));
                },
                None => {
                    assert forall|h: Seq<char>| #[trigger]
                        text::texts(seen@).contains(h) <==> is_stored(root, fs, h, i + 1) by {
                        stored_so_far(root, fs, h, i as int);
                    }
                },
            }
            i = i + 1;
        }
        proof {
            totals_add_up(root, fs, fs.len(), fs.len());
        }
        (items, stats)
    }

    /// Where an entry of an archive goes in the store.
    pub fn import(&self, p: &str) -> (res: Option<String>)
        ensures
            match destination_of(self.root@, p@) {
                Some(d) => res is Some && res->0@ == d,
                None => res is None,
            },
    {
        match entry_role(p) {
            EntryRole::Index => Some(path::join_path(&self.root, "index.json")),
            EntryRole::Summary => {
                let parts = text::split_on(&drop_meta(p), '/');
                let dir = path::join_path(&self.root, &parts[0]);
                assert(text::texts(parts@)[0] == parts@[0]@);
                Some(path::join_path(&dir, "summary.json"))
            },
            EntryRole::Reference => None,
            EntryRole::File => Some(path::join_path(&self.root, p)),
        }
    }

    /// Lists one entry of an archive.
    pub fn inspect_archive(p: String, size: u64) -> (e: ArchiveEntry)
        ensures
            e.path == p,
            e.size == size,
            e.is_dedup_ref == (role_of(p@) == EntryRole::Reference),
            e.is_metadata == (role_of(p@) == EntryRole::Index || role_of(p@) == EntryRole::Summary),
    {
        let role = entry_role(&p);
        ArchiveEntry {
            path: p,
            size,
            is_dedup_ref: role == EntryRole::Reference,
            is_metadata: role == EntryRole::Index || role == EntryRole::Summary,
        }
    }
}

/// Every file of the store that is to be exported has its item, in the order given;
/// `at` says for which file each item stands.
pub proof fn every_file_is_exported_once(
    root: Seq<char>,
    files: Seq<ExportFile>,
    n: nat,
) -> (at: Seq<int>)
    requires
        n <= files.len(),
    ensures
        at.len() == exported(root, files, n).len(),
        forall|k: int|
            0 <= k < at.len() ==> 0 <= #[trigger] at[k] < n && exported(root, files, n)[k]
                == item_for(root, files, at[k]) && path::is_under(files[at[k]].path@, root),
        forall|k: int, m: int| 0 <= k < m < at.len() ==> at[k] < at[m],
        forall|i: int|
            0 <= i < n && path::is_under(files[i].path@, root) ==> #[trigger] at.contains(i),
    decreases n,
{
    if n == 0 {
        Seq::empty()
    } else {
        let before = every_file_is_exported_once(root, files, (n - 1) as nat);
        if is_in_store(root, files, n - 1) {
            let at = before.push(n - 1);
            assert forall|i: int|
                0 <= i < n && path::is_under(files[i].path@, root) implies #[trigger] at.contains(
                i,
            ) by {
                if i < n - 1 {
                    assert(before.contains(i));
                    let k = choose|k: int| 0 <= k < before.len() && before[k] == i;
                    assert(at[k] == i);
                } else {
                    assert(at[at.len() - 1] == i);
                }
            }
            at
        } else {
            before
        }
    }
}

/// A file goes into the archive with its data, under its path below the store, unless
/// its hash is known and an earlier file of the store has the same one: then a line
/// with its path, its hash and its size goes in for it.
pub proof fn data_goes_in_once_for_a_hash(root: Seq<char>, files: Seq<ExportFile>, k: int)
    requires
        0 <= k < files.len(),
        path::is_under(files[k].path@, root),
    ensures
        ({
            let rel = path::relative(files[k].path@, root)->0;
            let seen = files[k].hash is Some && exists|j: int|
                0 <= j < k && path::is_under((#[trigger] files[j]).path@, root) && files[j].hash
                    is Some && files[j].hash->0@ == files[k].hash->0@;
            &&& item_for(root, files, k) == ItemModel::Data { path: rel } <==> !seen
            &&& item_for(root, files, k) is Reference <==> seen
            &&& item_for(root, files, k) matches ItemModel::Reference { path: p, line } ==> p
                == "dedup/"@ + rel && line == rel + "|"@ + compress::hex_text(files[k].hash->0@)
                + "|"@ + text::decimal(files[k].size as nat) + "\n"@
        }),
{
    if files[k].hash is Some {
        let h = files[k].hash->0@;
        assert forall|j: int|
            0 <= j < k && files[j].hash is Some implies (hash_text(
            (#[trigger] files[j]).hash,
        ) == hash_text(files[k].hash)) == (files[j].hash->0@ == h) by {
            compress::hex_round_trip(h);
            compress::hex_round_trip(files[j].hash->0@);
        }
        if is_duplicate(root, files, k) {
            let j = choose|j: int|
                0 <= j < k && is_in_store(root, files, j) && (#[trigger] files[j]).hash is Some
                    && hash_text(files[j].hash) == hash_text(files[k].hash);
            assert(path::is_under(files[j].path@, root));
        }
        if exists|j: int|
            0 <= j < k && path::is_under((#[trigger] files[j]).path@, root) && files[j].hash
                is Some && files[j].hash->0@ == h {
            let j = choose|j: int|
                0 <= j < k && path::is_under((#[trigger] files[j]).path@, root) && files[j].hash
                    is Some && files[j].hash->0@ == h;
            assert(is_in_store(root, files, j));
        }
    }
}

/// What an export counts: the files of the store, those whose data goes in and those
/// that have a line for it, and their bytes.
pub proof fn export_counts_its_items(root: Seq<char>, files: Seq<ExportFile>, n: nat)
    requires
        n <= files.len(),
    ensures
        count_of(root, files, n, false) == exported(root, files, n).filter(
            |i: ItemModel| i is Data,
        ).len(),
        count_of(root, files, n, true) == exported(root, files, n).filter(
            |i: ItemModel| i is Reference,
        ).len(),
        n > 0 ==> apparent(root, files, n) == apparent(root, files, (n - 1) as nat) + (
        if path::is_under(files[n - 1].path@, root) {
            files[n - 1].size as int
        } else {
            0
        }),
        n > 0 ==> bytes_of(root, files, n, true) == bytes_of(root, files, (n - 1) as nat, true) + (
        if path::is_under(files[n - 1].path@, root) && item_for(root, files, n - 1) is Reference {
            files[n - 1].size as int
        } else {
            0
        }),
        apparent(root, files, 0) == 0,
    decreases n,
{
    let data = |i: ItemModel| i is Data;
    let reference = |i: ItemModel| i is Reference;
    reveal(Seq::filter);
    if n > 0 {
        export_counts_its_items(root, files, (n - 1) as nat);
        let before = exported(root, files, (n - 1) as nat);
        let all = exported(root, files, n);
        if is_in_store(root, files, n - 1) {
            assert(all.drop_last() =~= before);
            assert(all.last() == item_for(root, files, n - 1));
        }
    }
}

/// What the entries of an archive are for is told by their paths: the index by its
/// name, summaries and references by the directory that they start with, and all else
/// is files.
pub proof fn roles_go_by_path(p: Seq<char>)
    ensures
        role_of(p) == EntryRole::Index <==> p == "index.json"@,
        role_of(p) == EntryRole::Summary <==> p.len() >= 5 && p.take(5) == "meta/"@,
        role_of(p) == EntryRole::Reference <==> p.len() >= 6 && p.take(6) == "dedup/"@,
{
    reveal_strlit("index.json");
    reveal_strlit("meta/");
    reveal_strlit("dedup/");
    if p.len() >= 5 {
        assert(p.take(5) =~= p.subrange(0, 5));
        assert(p.take(5)[0] == p[0]);
    }
    if p.len() >= 6 {
        assert(p.take(6) =~= p.subrange(0, 6));
        assert(p.take(6)[0] == p[0]);
    }
    assert("index.json"@[0] == 'i' && "meta/"@[0] == 'm' && "dedup/"@[0] == 'd');
}

/// Where an entry of an archive goes: a file below the store by all of its path, the
/// index and the summaries to their places; a reference goes nowhere.
pub proof fn entries_go_below_the_store(root: Seq<char>, p: Seq<char>, snapshot: Seq<char>)
    requires
        !path::is_absolute(p),
        path::components(p).len() > 0 ==> path::components(p)[0] != seq!['.'],
        path::is_plain(snapshot),
        snapshot != "meta"@,
    ensures
        role_of(p) == EntryRole::File ==> destination_of(root, p) is Some && path::components(
            destination_of(root, p)->0,
        ) == path::components(root) + path::components(p),
        role_of(p) == EntryRole::Reference <==> destination_of(root, p) is None,
        destination_of(root, "index.json"@) matches Some(d) && path::components(d)
            == path::components(root).push("index.json"@),
        destination_of(root, "meta/"@ + snapshot + "/summary.json"@) matches Some(d)
            && path::components(d) == path::components(root).push(snapshot).push(
            "summary.json"@,
        ),
{
    reveal_strlit("index.json");
    reveal_strlit("meta/");
    reveal_strlit("dedup/");
    reveal_strlit("/summary.json");
    reveal_strlit("summary.json");
    path::joined_is_concatenated(root, p);
    path::name_is_one_component(root, "index.json"@);
    exported_paths_are_recognised(p, snapshot);
    let m = "meta/"@ + snapshot + "/summary.json"@;
    let rest = snapshot + "/summary.json"@;
    assert(m.subrange(5, m.len() as int) =~= rest);
    assert(!text::starts_with(rest, "meta/"@)) by {
        if text::starts_with(rest, "meta/"@) {
            assert(rest.subrange(0, 5)[4] == '/');
            assert(rest[4] == '/');
            if snapshot.len() > 4 {
                assert(snapshot[4] == '/');
            } else {
                let k = snapshot.len() as int;
                assert(rest[k] == '/');
                assert(rest.subrange(0, 5)[k] == "meta/"@[k]);
                assert(k == 4);
                reveal_strlit("meta");
                assert forall|i: int| 0 <= i < 4 implies snapshot[i] == "meta"@[i] by {
                    assert(rest.subrange(0, 5)[i] == "meta/"@[i]);
                }
                assert(snapshot =~= "meta"@);
            }
        }
    }
    assert(without_meta(rest) == rest);
    assert(without_meta(m) == rest);
    assert(rest =~= snapshot + seq!['/'] + "summary.json"@);
    text::split_starts_with(snapshot, "summary.json"@, '/');
    path::name_is_one_component(root, snapshot);
    path::name_is_one_component(path::join(root, snapshot), "summary.json"@);
}

/// What is packed how is told by name, with a level behind a colon where there is one; what
/// it was packed with tells how to unpack it.
pub proof fn names_choose_packing(s: Seq<char>, level: i32, n: u32)
    ensures
        packing_of(s) == Packing::Plain <==> s == "none"@,
        packing_of(s) == Packing::Lz4 <==> s == "lz4"@,
        packing_of(s) == Packing::Gzip <==> s == "gzip"@,
        packing_of(s) is Xz <==> "xz"@.is_prefix_of(s),
        packing_of("zstd:"@ + text::signed_decimal(level as int)) == Packing::Zstd(level),
        packing_of("xz:"@ + text::decimal(n as nat)) == Packing::Xz(n),
        packing_of(s) matches Packing::Zstd(l) ==> !"zstd:"@.is_prefix_of(s) ==> l == 3,
        packing_of(s) matches Packing::Xz(l) ==> !"xz:"@.is_prefix_of(s) ==> l == 6,
        unpacking_of(s) == Unpacking::Zstd <==> s == "zstd"@,
        unpacking_of(s) == Unpacking::Lz4 <==> s == "lz4"@,
        unpacking_of(s) == Unpacking::Gzip <==> s == "gzip"@,
        unpacking_of(s) == Unpacking::Xz <==> s == "xz"@,
{
    reveal_strlit("none");
    reveal_strlit("lz4");
    reveal_strlit("gzip");
    reveal_strlit("zstd");
    reveal_strlit("zstd:");
    reveal_strlit("xz");
    reveal_strlit("xz:");
    text::prefix_is_start(s, "zstd"@);
    text::prefix_is_start(s, "zstd:"@);
    text::prefix_is_start(s, "xz"@);
    text::prefix_is_start(s, "xz:"@);
    assert("none"@[0] == 'n' && "lz4"@[0] == 'l' && "gzip"@[0] == 'g' && "zstd"@[0] == 'z'
        && "xz"@[0] == 'x');
    let number = text::signed_decimal(level as int);
    let full = "zstd:"@ + number;
    text::prefix_is_start(full, "zstd:"@);
    text::prefix_is_start(full, "zstd"@);
    assert(full.subrange(5, full.len() as int) =~= number);
    text::signed_round_trip(level as int);
    assert(full[0] == 'z');
    let digits = text::decimal(n as nat);
    let other = "xz:"@ + digits;
    text::prefix_is_start(other, "xz:"@);
    text::prefix_is_start(other, "xz"@);
    text::prefix_is_start(other, "zstd"@);
    assert(other.subrange(3, other.len() as int) =~= digits);
    text::numbers_are_digits(n as nat, u32::MAX as nat, digits);
    assert(other[0] == 'x');
}

/// An export tells how many snapshots it is of, how many files went in and how many of them
/// as data or as references, and their bytes.
pub proof fn export_tells_its_totals(
    root: Seq<char>,
    files: Seq<ExportFile>,
    snapshots: u64,
    n: nat,
)
    requires
        n <= files.len(),
        apparent(root, files, n) <= u64::MAX,
        n <= u64::MAX,
    ensures
        ({
            let s = stats_for(root, files, snapshots, n);
            let items = exported(root, files, n);
            &&& s.snapshots_exported == snapshots
            &&& s.total_files == items.len() as u64
            &&& s.unique_chunks == items.filter(|i: ItemModel| i is Data).len() as u64
            &&& s.dedup_chunks == items.filter(|i: ItemModel| i is Reference).len() as u64
            &&& s.total_apparent_bytes == apparent(root, files, n)
            &&& s.unique_bytes == bytes_of(root, files, n, false)
            &&& s.dedup_bytes == bytes_of(root, files, n, true)
            &&& s.unique_bytes + s.dedup_bytes == s.total_apparent_bytes
        }),
        hash_text(None).len() == 0,
        forall|h: [u8; 32]| #[trigger] hash_text(Some(h)) == compress::hex_text(h@),
{
    reveal_strlit("");
    export_counts_its_items(root, files, n);
}

/// What is exported stands for its own path and line, each item at its place.
pub proof fn items_keep_their_places(v: Seq<ExportItem>)
    ensures
        item_models(v).len() == v.len(),
        forall|i: int|
            0 <= i < v.len() ==> (match v[i] {
                ExportItem::Reference { path, line } => #[trigger] item_models(v)[i]
                    == ItemModel::Reference { path: path@, line: line@ },
                ExportItem::Data { path } => item_models(v)[i] == ItemModel::Data { path: path@ },
            }),
{
}

/// An imported entry goes where the exported one came from: what a store exported as data
/// is imported to the path that it was at.
pub proof fn imported_file_goes_back(
    store: &VersionStore,
    file: Seq<char>,
    p: &str,
    res: Option<String>,
)
    requires
        call_ensures(VersionStore::import, (store, p), res),
        path::relative(file, store.root@) == Some(p@),
        role_of(p@) == EntryRole::File,
    ensures
        res is Some && path::components(res->0@) == path::components(file),
{
    exported_data_comes_back(store.root@, file);
}

/// Each entry of an archive counts as what it is, and only files count their bytes.
pub proof fn entries_are_counted_by_role(s: &mut ImportStats, role: EntryRole, size: u64)
    requires
        call_ensures(ImportStats::on_entry, (s, role, size), ()),
        old(s).files_restored < u64::MAX,
        old(s).dedup_refs < u64::MAX,
        old(s).metadata_files < u64::MAX,
        old(s).bytes_restored + size <= u64::MAX,
    ensures
        final(s).files_restored == old(s).files_restored + if role == EntryRole::File {
            1int
        } else {
            0
        },
        final(s).bytes_restored == old(s).bytes_restored + if role == EntryRole::File {
            size as int
        } else {
            0
        },
        final(s).dedup_refs == old(s).dedup_refs + if role == EntryRole::Reference {
            1int
        } else {
            0
        },
        final(s).metadata_files == old(s).metadata_files + if role == EntryRole::Index || role
            == EntryRole::Summary {
            1int
        } else {
            0
        },
{
}

} // verus!
