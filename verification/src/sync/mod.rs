//! Copying trees: what to do with each entry of the source, in which order the
//! ways of copying a file are tried, and what it all adds up to.

use crate::path;
use crate::text;
use vstd::prelude::*;

pub mod passes;
pub mod stream;
pub mod walk;

verus! {

/// Files up to this size may be copied in one go.
pub const SMALL_FILE_THRESHOLD: u64 = 64 * 1024;

/// The size of the pieces in which standard input is read.
pub const STDIN_CHUNK_SIZE: usize = 1024 * 1024;

/// What to copy where, and how.
#[derive(Debug)]
pub struct SyncOptions {
    pub source: String,
    pub destination: String,
    pub archive: bool,
    pub recursive: bool,
    pub delete: bool,
    pub dry_run: bool,
    pub exclude: Vec<String>,
    pub generate_sigs: bool,
    pub cleanup: bool,
    pub size: Option<u64>,
    pub checkpoint_interval: Option<u64>,
    pub checkpoint_keep: usize,
    pub zero_copy: bool,
    pub verify: bool,
}

impl Default for SyncOptions {
    fn default() -> (o: Self)
        ensures
            o.source@.len() == 0,
            o.destination@.len() == 0,
            !o.archive && !o.recursive && !o.delete && !o.dry_run,
            o.exclude@.len() == 0,
            !o.generate_sigs && !o.cleanup,
            o.size is None,
            o.checkpoint_interval is None,
            o.checkpoint_keep == 5,
            !o.zero_copy && !o.verify,
    {
        SyncOptions {
            source: String::new(),
            destination: String::new(),
            archive: false,
            recursive: false,
            delete: false,
            dry_run: false,
            exclude: Vec::new(),
            generate_sigs: false,
            cleanup: false,
            size: None,
            checkpoint_interval: None,
            checkpoint_keep: 5,
            zero_copy: false,
            verify: false,
        }
    }
}

/// Which of its jobs a run does.
#[derive(Debug, Clone, Copy, PartialEq, Eq, Structural)]
pub enum RunMode {
    /// Remove what interrupted runs left behind.
    Cleanup,
    /// Copy standard input to a file.
    Stdin,
    /// Copy files.
    Sync,
}

impl SyncOptions {
    /// Cleaning up comes before all else; a source named `-` is standard input.
    pub open spec fn mode(self) -> RunMode {
        if self.cleanup {
            RunMode::Cleanup
        } else if self.source@ == "-"@ {
            RunMode::Stdin
        } else {
            RunMode::Sync
        }
    }

    /// Which job these options ask for.
    pub fn run(&self) -> (mode: RunMode)
        ensures
            mode == self.mode(),
    {
        if self.cleanup {
            RunMode::Cleanup
        } else if text::same_text(&self.source, "-") {
            RunMode::Stdin
        } else {
            RunMode::Sync
        }
    }

    /// Whether directories are entered: archive mode implies it.
    pub fn is_recursive(&self) -> (yes: bool)
        ensures
            yes == (self.archive || self.recursive),
    {
        self.archive || self.recursive
    }
}

/// What copying came to.
#[derive(Debug, Clone, Copy, PartialEq, Eq, Structural)]
pub struct SyncStats {
    pub files_copied: u64,
    pub files_reflinked: u64,
    pub files_cfr: u64,
    pub files_small: u64,
    pub files_skipped: u64,
    pub files_delta: u64,
    pub files_deleted: u64,
    pub dirs_created: u64,
    pub dirs_pruned: u64,
    pub bytes_copied: u64,
    pub bytes_reflinked: u64,
    pub bytes_cfr: u64,
    pub bytes_small: u64,
    pub bytes_delta: u64,
    pub errors: u64,
    pub sigs_stored: u64,
    pub dirs_hashed: u64,
    pub files_verified: u64,
    pub verify_failures: u64,
    pub files_nfs_bypass: u64,
    pub bytes_nfs_bypass: u64,
}

impl Default for SyncStats {
    fn default() -> (s: Self)
        ensures
            s == SyncStats::zero(),
    {
        SyncStats {
            files_copied: 0,
            files_reflinked: 0,
            files_cfr: 0,
            files_small: 0,
            files_skipped: 0,
            files_delta: 0,
            files_deleted: 0,
            dirs_created: 0,
            dirs_pruned: 0,
            bytes_copied: 0,
            bytes_reflinked: 0,
            bytes_cfr: 0,
            bytes_small: 0,
            bytes_delta: 0,
            errors: 0,
            sigs_stored: 0,
            dirs_hashed: 0,
            files_verified: 0,
            verify_failures: 0,
            files_nfs_bypass: 0,
            bytes_nfs_bypass: 0,
        }
    }
}

impl SyncStats {
    /// Nothing done yet.
    pub open spec fn zero() -> Self {
        SyncStats {
            files_copied: 0,
            files_reflinked: 0,
            files_cfr: 0,
            files_small: 0,
            files_skipped: 0,
            files_delta: 0,
            files_deleted: 0,
            dirs_created: 0,
            dirs_pruned: 0,
            bytes_copied: 0,
            bytes_reflinked: 0,
            bytes_cfr: 0,
            bytes_small: 0,
            bytes_delta: 0,
            errors: 0,
            sigs_stored: 0,
            dirs_hashed: 0,
            files_verified: 0,
            verify_failures: 0,
            files_nfs_bypass: 0,
            bytes_nfs_bypass: 0,
        }
    }

    /// Whether every counter can take one more, and every number of bytes
    /// `bytes` more.
    pub open spec fn room(self, bytes: u64) -> bool {
        &&& self.files_copied < u64::MAX
        &&& self.files_reflinked < u64::MAX
        &&& self.files_cfr < u64::MAX
        &&& self.files_small < u64::MAX
        &&& self.files_skipped < u64::MAX
        &&& self.files_delta < u64::MAX
        &&& self.dirs_created < u64::MAX
        &&& self.dirs_pruned < u64::MAX
        &&& self.errors < u64::MAX
        &&& self.sigs_stored < u64::MAX
        &&& self.dirs_hashed < u64::MAX
        &&& self.files_verified < u64::MAX
        &&& self.verify_failures < u64::MAX
        &&& self.files_nfs_bypass < u64::MAX
        &&& self.bytes_copied + bytes <= u64::MAX
        &&& self.bytes_reflinked + bytes <= u64::MAX
        &&& self.bytes_cfr + bytes <= u64::MAX
        &&& self.bytes_small + bytes <= u64::MAX
        &&& self.bytes_delta + bytes <= u64::MAX
        &&& self.bytes_nfs_bypass + bytes <= u64::MAX
    }

    /// Whether every counter can take one more, and every number of bytes
    /// `bytes` more.
    pub fn has_room(&self, bytes: u64) -> (yes: bool)
        ensures
            yes == self.room(bytes),
    {
        let left: u64 = u64::MAX - bytes;
        self.files_copied < u64::MAX && self.files_reflinked < u64::MAX && self.files_cfr < u64::MAX
            && self.files_small < u64::MAX && self.files_skipped < u64::MAX && self.files_delta
            < u64::MAX && self.dirs_created < u64::MAX && self.dirs_pruned < u64::MAX && self.errors
            < u64::MAX && self.sigs_stored < u64::MAX && self.dirs_hashed < u64::MAX
            && self.files_verified < u64::MAX && self.verify_failures < u64::MAX
            && self.files_nfs_bypass < u64::MAX && self.bytes_copied <= left && self.bytes_reflinked
            <= left && self.bytes_cfr <= left && self.bytes_small <= left && self.bytes_delta
            <= left && self.bytes_nfs_bypass <= left
    }

    /// The files that were transferred, whichever way.
    pub open spec fn files_total(self) -> int {
        self.files_copied + self.files_reflinked + self.files_cfr + self.files_small
            + self.files_delta + self.files_nfs_bypass
    }

    /// The bytes that were transferred, whichever way.
    pub open spec fn bytes_total(self) -> int {
        self.bytes_copied + self.bytes_reflinked + self.bytes_cfr + self.bytes_small
            + self.bytes_delta + self.bytes_nfs_bypass
    }

    /// The files that were dealt with: transferred, skipped or failed.
    pub open spec fn files_handled(self) -> int {
        self.files_total() + self.files_skipped + self.errors
    }

    /// The totals of files and bytes, where they fit.
    pub fn totals(&self) -> (res: Option<(u64, u64)>)
        ensures
            self.files_total() <= u64::MAX && self.bytes_total() <= u64::MAX ==> res == Some(
                (self.files_total() as u64, self.bytes_total() as u64),
            ),
            self.files_total() > u64::MAX || self.bytes_total() > u64::MAX ==> res is None,
    {
        let files: u128 = self.files_copied as u128 + self.files_reflinked as u128
            + self.files_cfr as u128 + self.files_small as u128 + self.files_delta as u128
            + self.files_nfs_bypass as u128;
        let bytes: u128 = self.bytes_copied as u128 + self.bytes_reflinked as u128
            + self.bytes_cfr as u128 + self.bytes_small as u128 + self.bytes_delta as u128
            + self.bytes_nfs_bypass as u128;
        if files <= u64::MAX as u128 && bytes <= u64::MAX as u128 {
            Some((files as u64, bytes as u64))
        } else {
            None
        }
    }
}

/// What a source is copied as.
#[derive(Debug, Clone, Copy, PartialEq, Eq, Structural)]
pub enum SourcePlan {
    /// One file.
    SingleFile,
    /// A directory with everything below it.
    Tree,
    /// Neither.
    Refused,
}

/// What a source is copied as: a file alone where recursion was not asked for,
/// and otherwise a directory.
pub fn source_plan(is_file: bool, is_dir: bool, recursive: bool) -> (p: SourcePlan)
    ensures
        p == (if is_file && !recursive {
            SourcePlan::SingleFile
        } else if is_dir {
            SourcePlan::Tree
        } else {
            SourcePlan::Refused
        }),
{
    if is_file && !recursive {
        SourcePlan::SingleFile
    } else if is_dir {
        SourcePlan::Tree
    } else {
        SourcePlan::Refused
    }
}

/// Where one file goes: into the destination where that is a directory, else in
/// its place. A source without a name has nowhere to go in a directory.
pub fn single_destination(source: &str, destination: &str, destination_is_dir: bool) -> (res: Option<
    String,
>)
    ensures
        !destination_is_dir ==> res is Some && res->0@ == destination@,
        destination_is_dir ==> match path::file_name(source@) {
            Some(name) => res is Some && res->0@ == path::join(destination@, name),
            None => res is None,
        },
{
    if !destination_is_dir {
        return Some(destination.to_owned());
    }
    match path::file_name_of(source) {
        Some(name) => Some(path::join_path(destination, &name)),
        None => None,
    }
}

/// What copying one file of `size` bytes comes to.
pub fn single_stats(size: u64) -> (s: SyncStats)
    ensures
        s == (SyncStats { files_copied: 1, bytes_copied: size, ..SyncStats::zero() }),
{
    let zero = SyncStats::default();
    SyncStats { files_copied: 1, bytes_copied: size, ..zero }
}

/// A clean-up is done whatever the source; else a single hyphen stands for the standard
/// input.
pub proof fn hyphen_is_standard_input(c: SyncOptions)
    ensures
        c.mode() == RunMode::Cleanup <==> c.cleanup,
        c.mode() == RunMode::Stdin <==> !c.cleanup && c.source@ == seq!['-'],
        c.mode() == RunMode::Sync <==> !c.cleanup && c.source@ != seq!['-'],
{
    reveal_strlit("-");
    assert("-"@ =~= seq!['-']);
}

/// What a run adds to one of the ways to copy it adds to the totals, and to what was
/// handled; nothing of a run that has not begun is counted.
pub proof fn every_way_counts(s: SyncStats)
    ensures
        s.files_total() == seq![
            s.files_copied as int,
            s.files_reflinked as int,
            s.files_cfr as int,
            s.files_small as int,
            s.files_delta as int,
            s.files_nfs_bypass as int,
        ].fold_left(0int, |t: int, n: int| t + n),
        s.bytes_total() == seq![
            s.bytes_copied as int,
            s.bytes_reflinked as int,
            s.bytes_cfr as int,
            s.bytes_small as int,
            s.bytes_delta as int,
            s.bytes_nfs_bypass as int,
        ].fold_left(0int, |t: int, n: int| t + n),
        s.files_handled() == s.files_total() + s.files_skipped + s.errors,
        SyncStats::zero().files_handled() == 0 && SyncStats::zero().bytes_total() == 0,
{
    six_are_summed(
        seq![
            s.files_copied as int,
            s.files_reflinked as int,
            s.files_cfr as int,
            s.files_small as int,
            s.files_delta as int,
            s.files_nfs_bypass as int,
        ],
    );
    six_are_summed(
        seq![
            s.bytes_copied as int,
            s.bytes_reflinked as int,
            s.bytes_cfr as int,
            s.bytes_small as int,
            s.bytes_delta as int,
            s.bytes_nfs_bypass as int,
        ],
    );
}

proof fn six_are_summed(v: Seq<int>)
    requires
        v.len() == 6,
    ensures
        v.fold_left(0int, |t: int, n: int| t + n) == v[0] + v[1] + v[2] + v[3] + v[4] + v[5],
{
    reveal_with_fuel(Seq::fold_left, 7);
}

/// A directory is synchronised as a tree, a file alone unless a recursive run was asked for;
/// anything else is refused.
pub proof fn sources_are_told_apart(is_file: bool, is_dir: bool, recursive: bool, p: SourcePlan)
    requires
        call_ensures(source_plan, (is_file, is_dir, recursive), p),
    ensures
        is_file && !recursive ==> p == SourcePlan::SingleFile,
        is_dir && !is_file ==> p == SourcePlan::Tree,
        !is_file && !is_dir ==> p == SourcePlan::Refused,
        is_file && recursive && !is_dir ==> p == SourcePlan::Refused,
{
}

/// A single file goes to the destination, or into it under its own name where that is a
/// directory.
pub proof fn single_file_keeps_its_name(
    source: &str,
    destination: &str,
    is_dir: bool,
    res: Option<String>,
)
    requires
        call_ensures(single_destination, (source, destination, is_dir), res),
    ensures
        !is_dir ==> res is Some && res->0@ == destination@,
        is_dir && path::file_name(source@) is Some ==> res is Some && path::components(res->0@)
            == path::components(destination@).push(path::components(source@).last()),
        is_dir && path::file_name(source@) is None ==> res is None,
{
    if is_dir && path::file_name(source@) is Some {
        let name = path::file_name(source@)->0;
        let any = seq!['a'];
        assert(any[0] != seq!['.'][0]);
        path::name_is_the_last(destination@, any, source@);
        path::name_is_one_component(destination@, name);
    }
}

} // verus!
