//! The walk over a source tree: entry by entry, what to do next.

use crate::error::CopyErrorKind;
use crate::filter;
use crate::hashing;
use crate::nfs;
use crate::path;
use crate::sync::{SyncStats, SMALL_FILE_THRESHOLD};
use crate::text;
use vstd::prelude::*;

verus! {

/// What an entry of a directory is.
#[derive(Debug, Clone, Copy, PartialEq, Eq, Structural)]
pub enum EntryKind {
    Dir,
    File,
    Other,
}

/// What to do with an entry of the source.
#[derive(Debug, Clone, Copy, PartialEq, Eq, Structural)]
pub enum EntryAction {
    /// Nothing.
    Skip,
    /// Look at the directory on both sides.
    LookAtDir,
    /// Look at the file on both sides.
    LookAtFile,
}

/// What to do with a directory.
#[derive(Debug, Clone, Copy, PartialEq, Eq, Structural)]
pub enum DirAction {
    /// It has not changed: its files are skipped.
    Prune,
    /// Say that it would be created.
    WouldCreate,
    /// Create it.
    Create,
    /// It is there.
    Leave,
}

/// What to do with a file.
#[derive(Debug, Clone, Copy, PartialEq, Eq, Structural)]
pub enum FileAction {
    Skip,
    /// Say that it would be copied.
    WouldCopy,
    Copy,
}

/// What decides whether a file has changed.
#[derive(Debug, Clone, Copy, PartialEq, Eq, Structural)]
pub struct FileState {
    pub len: u64,
    pub mtime: i64,
    pub mtime_nsec: i64,
}

/// How looking at a source file came out.
#[derive(Debug, Clone, Copy, PartialEq, Eq, Structural)]
pub enum SourceState {
    Is(FileState),
    /// It is gone.
    Vanished,
    /// It cannot be looked at.
    Failed,
}

/// The ways to copy a file, in the order in which they are tried.
#[derive(Debug, Clone, Copy, PartialEq, Eq, Structural)]
pub enum Tier {
    /// Only the changed chunks.
    Delta,
    /// In one call to the NFS server.
    NfsBypass,
    /// Sharing the blocks.
    Reflink,
    /// By the kernel or the server.
    CopyRange,
    /// In one go.
    Small,
    /// Through the ring.
    Ring,
}

/// The place of a way of copying in the order.
pub open spec fn rank(t: Tier) -> int {
    match t {
        Tier::Delta => 0,
        Tier::NfsBypass => 1,
        Tier::Reflink => 2,
        Tier::CopyRange => 3,
        Tier::Small => 4,
        Tier::Ring => 5,
    }
}

/// What is known of a file that is to be copied.
#[derive(Debug, Clone, Copy, PartialEq, Eq, Structural)]
pub struct CopyPlan {
    /// Its size.
    pub size: u64,
    /// The target is there and has the same size.
    pub same_size: bool,
    /// The blocks of 512 bytes that it takes up.
    pub blocks: u64,
    /// Source and destination are on one device.
    pub same_device: bool,
    /// The destination is on NFS.
    pub dst_is_nfs: bool,
    /// There is a session with the NFS server.
    pub nfs_session: bool,
}

impl CopyPlan {
    /// The file has holes: it is larger than a page and takes up less than half
    /// of its size.
    pub open spec fn sparse(self) -> bool {
        self.size > 4096 && self.blocks * 512 < self.size / 2
    }

    /// Whether a way of copying is worth trying.
    pub open spec fn applies(self, t: Tier) -> bool {
        match t {
            Tier::Delta => self.same_size && self.size > hashing::CHUNK_SIZE * 4,
            Tier::NfsBypass => self.dst_is_nfs && !self.sparse() && self.size > 0 && self.size
                <= nfs::NFS_BYPASS_MAX_SIZE && self.nfs_session,
            Tier::Reflink => (self.same_device || self.dst_is_nfs) && self.size > 0,
            Tier::CopyRange => self.size > 0 && !self.sparse(),
            Tier::Small => self.size <= SMALL_FILE_THRESHOLD && !self.sparse(),
            Tier::Ring => true,
        }
    }

    /// The first way worth trying whose place is `r` or later.
    pub open spec fn first_from(self, r: int) -> Tier {
        if r <= 0 && self.applies(Tier::Delta) {
            Tier::Delta
        } else if r <= 1 && self.applies(Tier::NfsBypass) {
            Tier::NfsBypass
        } else if r <= 2 && self.applies(Tier::Reflink) {
            Tier::Reflink
        } else if r <= 3 && self.applies(Tier::CopyRange) {
            Tier::CopyRange
        } else if r <= 4 && self.applies(Tier::Small) {
            Tier::Small
        } else {
            Tier::Ring
        }
    }

    fn is_sparse(&self) -> (yes: bool)
        ensures
            yes == self.sparse(),
    {
        self.size > 4096 && (self.blocks as u128) * 512 < (self.size / 2) as u128
    }

    fn worth(&self, t: Tier) -> (yes: bool)
        ensures
            yes == self.applies(t),
    {
        match t {
            Tier::Delta => self.same_size && self.size > (hashing::CHUNK_SIZE * 4) as u64,
            Tier::NfsBypass => self.dst_is_nfs && !self.is_sparse() && self.size > 0 && self.size
                <= nfs::NFS_BYPASS_MAX_SIZE && self.nfs_session,
            Tier::Reflink => (self.same_device || self.dst_is_nfs) && self.size > 0,
            Tier::CopyRange => self.size > 0 && !self.is_sparse(),
            Tier::Small => self.size <= SMALL_FILE_THRESHOLD && !self.is_sparse(),
            Tier::Ring => true,
        }
    }

    /// The first way of copying to try.
    pub fn first_tier(&self) -> (t: Tier)
        ensures
            t == self.first_from(0),
    {
        if self.worth(Tier::Delta) {
            Tier::Delta
        } else {
            self.next_tier(Tier::Delta)
        }
    }

    /// The next way to try after `t`.
    pub fn next_tier(&self, t: Tier) -> (next: Tier)
        ensures
            next == self.first_from(rank(t) + 1),
    {
        if t == Tier::Delta && self.worth(Tier::NfsBypass) {
            return Tier::NfsBypass;
        }
        if (t == Tier::Delta || t == Tier::NfsBypass) && self.worth(Tier::Reflink) {
            return Tier::Reflink;
        }
        if (t == Tier::Delta || t == Tier::NfsBypass || t == Tier::Reflink) && self.worth(
            Tier::CopyRange,
        ) {
            return Tier::CopyRange;
        }
        if t != Tier::Small && t != Tier::Ring && self.worth(Tier::Small) {
            return Tier::Small;
        }
        Tier::Ring
    }
}

/// How trying a way of copying came out.
#[derive(Debug, Clone, Copy, PartialEq, Eq, Structural)]
pub enum Outcome {
    /// So many bytes were copied.
    Copied(u64),
    /// It could not be done.
    Declined,
    /// It failed.
    Failed(CopyErrorKind),
}

/// Where a signature for the copy comes from.
#[derive(Debug, Clone, Copy, PartialEq, Eq, Structural)]
pub enum Signing {
    /// None is wanted.
    No,
    /// The data that was sent; it counts whether it can be stored or not.
    FromBuffer,
    /// The file that was written; it counts where it can be stored.
    FromFile,
}

/// What to do after trying a way of copying.
#[derive(Debug, Clone, Copy, PartialEq, Eq, Structural)]
pub enum AfterTry {
    /// The file is copied: what is left to do for it.
    Done { preserve: bool, sign: Signing },
    /// The file is given up.
    GiveUp,
    /// Try another way.
    Try(Tier),
    /// Remove the incomplete copy, then try another way.
    RemoveThenTry(Tier),
}

/// The walk over a source tree.
#[derive(Debug)]
pub struct SyncWalk {
    pub dry_run: bool,
    pub archive: bool,
    pub generate_sigs: bool,
    /// Patterns of paths that are left out.
    pub excludes: Vec<String>,
    /// Directories that have not changed, relative to the source.
    pub pruned: Vec<String>,
    pub stats: SyncStats,
}

/// Whether a path lies in one of the directories.
pub open spec fn under_any(dirs: Seq<Seq<char>>, rel: Seq<char>) -> bool {
    exists|i: int| 0 <= i < dirs.len() && path::is_under(rel, #[trigger] dirs[i])
}

/// Whether a path is one of the directories.
pub open spec fn is_any(dirs: Seq<Seq<char>>, rel: Seq<char>) -> bool {
    exists|i: int| 0 <= i < dirs.len() && path::same_path(rel, #[trigger] dirs[i])
}

/// Whether two hashes are there and agree.
pub open spec fn hashes_agree(a: Option<[u8; 32]>, b: Option<[u8; 32]>) -> bool {
    match (a, b) {
        (Some(x), Some(y)) => x@ == y@,
        _ => false,
    }
}

fn agree(a: &Option<[u8; 32]>, b: &Option<[u8; 32]>) -> (yes: bool)
    ensures
        yes == hashes_agree(*a, *b),
{
    match (a, b) {
        (Some(x), Some(y)) => hashing::same_hash(x, y),
        _ => false,
    }
}

/// Whether a file has changed: it is missing on the other side, or differs in
/// size or modification time.
pub open spec fn needs_copy(src: FileState, dst: Option<FileState>) -> bool {
    match dst {
        Some(d) => d != src,
        None => true,
    }
}

impl SyncWalk {
    /// A walk at its beginning. Texts that are no patterns exclude nothing.
    pub fn new(dry_run: bool, archive: bool, generate_sigs: bool, exclude: &Vec<String>) -> (w: Self)
        ensures
            w.dry_run == dry_run,
            w.archive == archive,
            w.generate_sigs == generate_sigs,
            text::texts(w.excludes@) == filter::valid_patterns(
                text::texts(exclude@),
                exclude@.len(),
            ),
            w.pruned@.len() == 0,
            w.stats == SyncStats::zero(),
    {
        SyncWalk {
            dry_run,
            archive,
            generate_sigs,
            excludes: filter::compile_patterns(exclude),
            pruned: Vec::new(),
            stats: SyncStats::default(),
        }
    }

    /// Whether a path is left out.
    pub open spec fn excluded(self, rel: Seq<char>) -> bool {
        filter::matches_any(text::texts(self.excludes@), rel)
    }

    /// Whether a path lies in a directory that has not changed.
    pub open spec fn in_pruned(self, rel: Seq<char>) -> bool {
        under_any(text::texts(self.pruned@), rel)
    }

    /// Whether a path is a directory that has not changed.
    pub open spec fn is_pruned(self, rel: Seq<char>) -> bool {
        is_any(text::texts(self.pruned@), rel)
    }

    /// Whether only the counters differ from `other`.
    pub open spec fn counts_differ(self, other: Self) -> bool {
        self == (SyncWalk { stats: self.stats, ..other })
    }

    fn lies_in_pruned(&self, rel: &str) -> (yes: bool)
        ensures
            yes == self.in_pruned(rel@),
    {
        let mut i: usize = 0;
        while i < self.pruned.len()
            invariant
                i <= self.pruned@.len(),
                forall|j: int|
                    0 <= j < i ==> !path::is_under(
                        rel@,
                        #[trigger] text::texts(self.pruned@)[j],
                    ),
            decreases self.pruned@.len() - i,
        {
            assert(text::texts(self.pruned@)[i as int] == self.pruned@[i as int]@);
            if path::path_starts_with(rel, &self.pruned[i]) {
                return true;
            }
            i = i + 1;
        }
        false
    }

    /// An entry could not be read.
    pub fn on_walk_error(&mut self)
        requires
            old(self).stats.room(0),
        ensures
            *final(self) == (SyncWalk {
                stats: SyncStats {
                    errors: (old(self).stats.errors + 1) as u64,
                    ..old(self).stats
                },
                ..*old(self)
            }),
    {
        self.stats.errors = self.stats.errors + 1;
    }

    /// What to do with an entry: excluded paths and special files are left out,
    /// and so are files in directories that have not changed.
    pub fn on_entry(&mut self, rel: &str, kind: EntryKind) -> (action: EntryAction)
        requires
            old(self).stats.room(0),
        ensures
            action == (if old(self).excluded(rel@) {
                EntryAction::Skip
            } else {
                match kind {
                    EntryKind::Dir => EntryAction::LookAtDir,
                    EntryKind::File => if old(self).in_pruned(rel@) {
                        EntryAction::Skip
                    } else {
                        EntryAction::LookAtFile
                    },
                    EntryKind::Other => EntryAction::Skip,
                }
            }),
            final(self).counts_differ(*old(self)),
            final(self).stats == (if !old(self).excluded(rel@) && kind == EntryKind::File && old(
                self,
            ).in_pruned(rel@) {
                SyncStats {
                    files_skipped: (old(self).stats.files_skipped + 1) as u64,
                    ..old(self).stats
                }
            } else {
                old(self).stats
            }),
    {
        if filter::any_matches(&self.excludes, rel) {
            return EntryAction::Skip;
        }
        match kind {
            EntryKind::Dir => EntryAction::LookAtDir,
            EntryKind::File => {
                if self.lies_in_pruned(rel) {
                    self.stats.files_skipped = self.stats.files_skipped + 1;
                    EntryAction::Skip
                } else {
                    EntryAction::LookAtFile
                }
            },
            EntryKind::Other => EntryAction::Skip,
        }
    }

    /// Whether a directory has not changed: it is there, it is not the root, and
    /// the hash of the source is the one that is stored with the target.
    pub open spec fn unchanged(
        rel: Seq<char>,
        dst_exists: bool,
        src_hash: Option<[u8; 32]>,
        dst_hash: Option<[u8; 32]>,
    ) -> bool {
        dst_exists && rel.len() > 0 && hashes_agree(src_hash, dst_hash)
    }

    /// What to do with a directory.
    pub open spec fn dir_action(
        self,
        rel: Seq<char>,
        dst_exists: bool,
        src_hash: Option<[u8; 32]>,
        dst_hash: Option<[u8; 32]>,
    ) -> DirAction {
        if Self::unchanged(rel, dst_exists, src_hash, dst_hash) {
            DirAction::Prune
        } else if dst_exists {
            DirAction::Leave
        } else if self.dry_run {
            DirAction::WouldCreate
        } else {
            DirAction::Create
        }
    }

    /// What to do with a directory.
    pub fn on_dir(
        &mut self,
        rel: &str,
        dst_exists: bool,
        src_hash: &Option<[u8; 32]>,
        dst_hash: &Option<[u8; 32]>,
    ) -> (action: DirAction)
        requires
            old(self).stats.room(0),
        ensures
            action == old(self).dir_action(rel@, dst_exists, *src_hash, *dst_hash),
            action == DirAction::Prune ==> {
                &&& text::texts(final(self).pruned@) == text::texts(old(self).pruned@).push(rel@)
                &&& *final(self) == (SyncWalk {
                    pruned: final(self).pruned,
                    stats: SyncStats {
                        dirs_pruned: (old(self).stats.dirs_pruned + 1) as u64,
                        ..old(self).stats
                    },
                    ..*old(self)
                })
            },
            action != DirAction::Prune ==> *final(self) == *old(self),
    {
        let empty: bool = text::chars_of(rel).len() == 0;
        if dst_exists && !empty && agree(src_hash, dst_hash) {
            let ghost before = self.pruned@;
            self.pruned.push(rel.to_owned());
            assert(text::texts(self.pruned@) =~= text::texts(before).push(rel@));
            self.stats.dirs_pruned = self.stats.dirs_pruned + 1;
            return DirAction::Prune;
        }
        if dst_exists {
            DirAction::Leave
        } else if self.dry_run {
            DirAction::WouldCreate
        } else {
            DirAction::Create
        }
    }

    /// A directory was created.
    pub fn on_dir_created(&mut self)
        requires
            old(self).stats.room(0),
        ensures
            *final(self) == (SyncWalk {
                stats: SyncStats {
                    dirs_created: (old(self).stats.dirs_created + 1) as u64,
                    ..old(self).stats
                },
                ..*old(self)
            }),
    {
        self.stats.dirs_created = self.stats.dirs_created + 1;
    }

    /// What to do with a file and how that counts.
    pub open spec fn file_action(self, src: SourceState, dst: Option<FileState>) -> (
        FileAction,
        SyncStats,
    ) {
        let s = self.stats;
        let skipped = SyncStats { files_skipped: (s.files_skipped + 1) as u64, ..s };
        match src {
            SourceState::Vanished => (FileAction::Skip, skipped),
            SourceState::Failed => (
                FileAction::Skip,
                SyncStats { errors: (s.errors + 1) as u64, ..s },
            ),
            SourceState::Is(f) => if !needs_copy(f, dst) {
                (FileAction::Skip, skipped)
            } else if self.dry_run {
                (
                    FileAction::WouldCopy,
                    SyncStats {
                        files_copied: (s.files_copied + 1) as u64,
                        bytes_copied: (s.bytes_copied + f.len) as u64,
                        ..s
                    },
                )
            } else {
                (FileAction::Copy, s)
            },
        }
    }

    /// What to do with a file, by what is found of it on both sides.
    pub fn on_file(&mut self, src: SourceState, dst: Option<FileState>) -> (action: FileAction)
        requires
            old(self).stats.room(
                match src {
                    SourceState::Is(f) => f.len,
                    _ => 0,
                },
            ),
        ensures
            (action, final(self).stats) == old(self).file_action(src, dst),
            final(self).counts_differ(*old(self)),
    {
        match src {
            SourceState::Vanished => {
                self.stats.files_skipped = self.stats.files_skipped + 1;
                FileAction::Skip
            },
            SourceState::Failed => {
                self.stats.errors = self.stats.errors + 1;
                FileAction::Skip
            },
            SourceState::Is(f) => {
                let changed = match dst {
                    Some(d) => !(d.len == f.len && d.mtime == f.mtime && d.mtime_nsec
                        == f.mtime_nsec),
                    None => true,
                };
                if !changed {
                    self.stats.files_skipped = self.stats.files_skipped + 1;
                    return FileAction::Skip;
                }
                if self.dry_run {
                    self.stats.files_copied = self.stats.files_copied + 1;
                    self.stats.bytes_copied = self.stats.bytes_copied + f.len;
                    return FileAction::WouldCopy;
                }
                FileAction::Copy
            },
        }
    }

    /// What is left to do for a copied file.
    pub open spec fn done(self, t: Tier) -> AfterTry {
        AfterTry::Done {
            preserve: self.archive && t != Tier::NfsBypass,
            sign: if !self.generate_sigs || t == Tier::Delta {
                Signing::No
            } else if t == Tier::NfsBypass {
                Signing::FromBuffer
            } else {
                Signing::FromFile
            },
        }
    }

    /// What to do after trying way `t`, and how that counts. A transfer by the
    /// kernel counts only where it is complete; the ring is the last resort.
    pub open spec fn after_try(self, plan: CopyPlan, t: Tier, o: Outcome) -> (AfterTry, SyncStats) {
        let s = self.stats;
        let next = plan.first_from(rank(t) + 1);
        match (t, o) {
            (Tier::Delta, Outcome::Copied(n)) => (
                self.done(t),
                SyncStats {
                    files_delta: (s.files_delta + 1) as u64,
                    bytes_delta: (s.bytes_delta + n) as u64,
                    ..s
                },
            ),
            (Tier::NfsBypass, Outcome::Copied(_)) => (
                self.done(t),
                SyncStats {
                    files_nfs_bypass: (s.files_nfs_bypass + 1) as u64,
                    bytes_nfs_bypass: (s.bytes_nfs_bypass + plan.size) as u64,
                    ..s
                },
            ),
            (Tier::Reflink, Outcome::Copied(_)) => (
                self.done(t),
                SyncStats {
                    files_reflinked: (s.files_reflinked + 1) as u64,
                    bytes_reflinked: (s.bytes_reflinked + plan.size) as u64,
                    ..s
                },
            ),
            (Tier::CopyRange, Outcome::Copied(n)) => if n == plan.size {
                (
                    self.done(t),
                    SyncStats {
                        files_cfr: (s.files_cfr + 1) as u64,
                        bytes_cfr: (s.bytes_cfr + n) as u64,
                        ..s
                    },
                )
            } else {
                (AfterTry::RemoveThenTry(next), s)
            },
            (Tier::Small, Outcome::Copied(n)) => (
                self.done(t),
                SyncStats {
                    files_small: (s.files_small + 1) as u64,
                    bytes_small: (s.bytes_small + n) as u64,
                    ..s
                },
            ),
            (Tier::Ring, Outcome::Copied(n)) => (
                self.done(t),
                SyncStats {
                    files_copied: (s.files_copied + 1) as u64,
                    bytes_copied: (s.bytes_copied + n) as u64,
                    ..s
                },
            ),
            (Tier::Ring, Outcome::Failed(k)) => (
                AfterTry::GiveUp,
                if k == CopyErrorKind::SourceNotFound || k == CopyErrorKind::TargetNotFound {
                    SyncStats { files_skipped: (s.files_skipped + 1) as u64, ..s }
                } else {
                    SyncStats { errors: (s.errors + 1) as u64, ..s }
                },
            ),
            (Tier::Ring, Outcome::Declined) => (
                AfterTry::GiveUp,
                SyncStats { errors: (s.errors + 1) as u64, ..s },
            ),
            _ => (AfterTry::Try(next), s),
        }
    }

    fn follow_up(&self, t: Tier) -> (a: AfterTry)
        ensures
            a == self.done(t),
    {
        AfterTry::Done {
            preserve: self.archive && t != Tier::NfsBypass,
            sign: if !self.generate_sigs || t == Tier::Delta {
                Signing::No
            } else if t == Tier::NfsBypass {
                Signing::FromBuffer
            } else {
                Signing::FromFile
            },
        }
    }

    /// What to do after trying way `t` of copying the file of `plan`.
    pub fn on_tried(&mut self, plan: &CopyPlan, t: Tier, o: Outcome) -> (next: AfterTry)
        requires
            old(self).stats.room(plan.size),
            old(self).stats.room(
                match o {
                    Outcome::Copied(n) => n,
                    _ => 0,
                },
            ),
        ensures
            (next, final(self).stats) == old(self).after_try(*plan, t, o),
            final(self).counts_differ(*old(self)),
    {
        match o {
            Outcome::Copied(n) => {
                match t {
                    Tier::Delta => {
                        self.stats.files_delta = self.stats.files_delta + 1;
                        self.stats.bytes_delta = self.stats.bytes_delta + n;
                    },
                    Tier::NfsBypass => {
                        self.stats.files_nfs_bypass = self.stats.files_nfs_bypass + 1;
                        self.stats.bytes_nfs_bypass = self.stats.bytes_nfs_bypass + plan.size;
                    },
                    Tier::Reflink => {
                        self.stats.files_reflinked = self.stats.files_reflinked + 1;
                        self.stats.bytes_reflinked = self.stats.bytes_reflinked + plan.size;
                    },
                    Tier::CopyRange => {
                        if n != plan.size {
                            return AfterTry::RemoveThenTry(plan.next_tier(t));
                        }
                        self.stats.files_cfr = self.stats.files_cfr + 1;
                        self.stats.bytes_cfr = self.stats.bytes_cfr + n;
                    },
                    Tier::Small => {
                        self.stats.files_small = self.stats.files_small + 1;
                        self.stats.bytes_small = self.stats.bytes_small + n;
                    },
                    Tier::Ring => {
                        self.stats.files_copied = self.stats.files_copied + 1;
                        self.stats.bytes_copied = self.stats.bytes_copied + n;
                    },
                }
                self.follow_up(t)
            },
            Outcome::Failed(k) => {
                if t != Tier::Ring {
                    return AfterTry::Try(plan.next_tier(t));
                }
                if k == CopyErrorKind::SourceNotFound || k == CopyErrorKind::TargetNotFound {
                    self.stats.files_skipped = self.stats.files_skipped + 1;
                } else {
                    self.stats.errors = self.stats.errors + 1;
                }
                AfterTry::GiveUp
            },
            Outcome::Declined => {
                if t != Tier::Ring {
                    return AfterTry::Try(plan.next_tier(t));
                }
                self.stats.errors = self.stats.errors + 1;
                AfterTry::GiveUp
            },
        }
    }

    /// A signature was stored.
    pub fn on_signed(&mut self)
        requires
            old(self).stats.room(0),
        ensures
            *final(self) == (SyncWalk {
                stats: SyncStats {
                    sigs_stored: (old(self).stats.sigs_stored + 1) as u64,
                    ..old(self).stats
                },
                ..*old(self)
            }),
    {
        self.stats.sigs_stored = self.stats.sigs_stored + 1;
    }

    /// Whether the hash of a target directory is stored anew: it was not found
    /// unchanged, and the source is a directory too.
    pub fn stores_dir_hash(&self, rel: &str, src_is_dir: bool) -> (yes: bool)
        ensures
            yes == (src_is_dir && !self.is_pruned(rel@)),
    {
        if !src_is_dir {
            return false;
        }
        let mut i: usize = 0;
        while i < self.pruned.len()
            invariant
                i <= self.pruned@.len(),
                forall|j: int|
                    0 <= j < i ==> !path::same_path(
                        rel@,
                        #[trigger] text::texts(self.pruned@)[j],
                    ),
            decreases self.pruned@.len() - i,
        {
            assert(text::texts(self.pruned@)[i as int] == self.pruned@[i as int]@);
            if path::same_path_exec(rel, &self.pruned[i]) {
                return false;
            }
            i = i + 1;
        }
        true
    }
}

/// Each way of copying is tried at most once, and the ways come in their order:
/// the next one is further down, until the ring is reached.
pub proof fn tiers_go_down(plan: CopyPlan, t: Tier)
    ensures
        plan.applies(plan.first_from(rank(t) + 1)),
        t != Tier::Ring ==> rank(plan.first_from(rank(t) + 1)) > rank(t),
        forall|u: Tier|
            rank(t) < rank(u) < rank(plan.first_from(rank(t) + 1)) ==> !#[trigger] plan.applies(u),
{
}

/// Every file is counted once and only once: when it is skipped, when it is
/// copied, or when it is given up.
pub proof fn file_is_counted_once(
    w: SyncWalk,
    src: SourceState,
    dst: Option<FileState>,
    plan: CopyPlan,
    t: Tier,
    o: Outcome,
)
    requires
        w.stats.room(0),
    ensures
        ({
            let (action, stats) = w.file_action(src, dst);
            stats.files_handled() == w.stats.files_handled() + if action == FileAction::Copy {
                0int
            } else {
                1
            }
        }),
        ({
            let (next, stats) = w.after_try(plan, t, o);
            stats.files_handled() == w.stats.files_handled() + if next is Done || next is GiveUp {
                1int
            } else {
                0
            }
        }),
{
}

/// A dry run asks for no change: no directory is created and no file copied.
pub proof fn dry_run_changes_nothing(
    w: SyncWalk,
    src: SourceState,
    dst: Option<FileState>,
    rel: Seq<char>,
    dst_exists: bool,
    src_hash: Option<[u8; 32]>,
    dst_hash: Option<[u8; 32]>,
)
    requires
        w.dry_run,
    ensures
        w.file_action(src, dst).0 != FileAction::Copy,
        w.dir_action(rel, dst_exists, src_hash, dst_hash) != DirAction::Create,
{
}

/// A file that has the size and the time of its source is not copied again.
pub proof fn unchanged_file_is_skipped(w: SyncWalk, f: FileState)
    ensures
        w.file_action(SourceState::Is(f), Some(f)).0 == FileAction::Skip,
{
}

/// A file that can be looked at is taken for changed exactly where the other side is
/// missing or differs in length, in seconds or in nanoseconds: it is copied then, or
/// only said to be in a dry run, and skipped otherwise. What cannot be looked at is
/// never copied.
pub proof fn changed_file_is_copied(w: SyncWalk, f: FileState, dst: Option<FileState>)
    ensures
        ({
            let changed = dst is None || dst->0.len != f.len || dst->0.mtime != f.mtime
                || dst->0.mtime_nsec != f.mtime_nsec;
            let (action, stats) = w.file_action(SourceState::Is(f), dst);
            &&& !w.dry_run && changed <==> action == FileAction::Copy
            &&& w.dry_run && changed <==> action == FileAction::WouldCopy
            &&& !changed <==> action == FileAction::Skip
        }),
        w.file_action(SourceState::Vanished, dst).0 == FileAction::Skip,
        w.file_action(SourceState::Failed, dst).0 == FileAction::Skip,
{
    if let Some(d) = dst {
        if d.len == f.len && d.mtime == f.mtime && d.mtime_nsec == f.mtime_nsec {
            assert(d == f);
        }
    }
}

/// What deciding on a file counts: one skipped file where it is skipped, one error
/// where it cannot be looked at, nothing yet where it is copied; a dry run counts the
/// file and its bytes as if they had been copied.
pub proof fn file_decision_is_counted(w: SyncWalk, src: SourceState, dst: Option<FileState>)
    requires
        w.stats.room(
            match src {
                SourceState::Is(f) => f.len,
                _ => 0,
            },
        ),
    ensures
        ({
            let (action, s) = w.file_action(src, dst);
            let b = w.stats;
            let copied: int = if action == FileAction::WouldCopy {
                1
            } else {
                0
            };
            let failed: int = if src == SourceState::Failed {
                1
            } else {
                0
            };
            let skipped: int = if action == FileAction::Skip {
                1 - failed
            } else {
                0
            };
            &&& s.files_copied == b.files_copied + copied
            &&& s.bytes_copied == b.bytes_copied + (if action == FileAction::WouldCopy {
                src->Is_0.len as int
            } else {
                0
            })
            &&& s.errors == b.errors + failed
            &&& s.files_skipped == b.files_skipped + skipped
            &&& s == (SyncStats {
                files_copied: s.files_copied,
                bytes_copied: s.bytes_copied,
                errors: s.errors,
                files_skipped: s.files_skipped,
                ..b
            })
        }),
{
}

/// In archive mode the copy gets the metadata of its source, whichever way it was
/// made, but for the call to the NFS server, which sets it itself; without archive
/// mode it does not. A signature is made where one is wanted, except for a delta: out
/// of what was sent to the NFS server, and else out of the file.
pub proof fn copied_file_keeps_metadata(w: SyncWalk, plan: CopyPlan, t: Tier, o: Outcome)
    ensures
        w.after_try(plan, t, o).0 matches AfterTry::Done { preserve, sign } ==> {
            &&& preserve <==> w.archive && t != Tier::NfsBypass
            &&& sign == Signing::No <==> !w.generate_sigs || t == Tier::Delta
            &&& sign == Signing::FromBuffer <==> w.generate_sigs && t == Tier::NfsBypass
        },
{
}

/// A way of copying that did its work ends the file, and only such a one does: the
/// kernel's has to have moved all the bytes. Any other way is followed by one further
/// down, after the incomplete copy was removed where there is one; after the ring the
/// file is given up.
pub proof fn file_ends_when_copied(w: SyncWalk, plan: CopyPlan, t: Tier, o: Outcome)
    ensures
        ({
            let next = w.after_try(plan, t, o).0;
            let whole = o matches Outcome::Copied(n) && (t != Tier::CopyRange || n == plan.size);
            &&& whole <==> next is Done
            &&& !whole && t == Tier::Ring <==> next is GiveUp
            &&& !whole && o is Copied ==> next is RemoveThenTry
            &&& next matches AfterTry::RemoveThenTry(u) ==> t == Tier::CopyRange && o is Copied
                && plan.applies(u) && rank(u) > rank(t)
            &&& next matches AfterTry::Try(u) ==> o !is Copied && plan.applies(u) && rank(u) > rank(
                t,
            )
        }),
{
    tiers_go_down(plan, t);
}

/// What trying a way counts: its own number of files and its own bytes where the file
/// is copied, as many bytes as were moved, or the size of the file where all of it is
/// taken over at once. Giving up counts an error, or a skipped file where it is gone.
pub proof fn copy_is_counted_by_its_way(w: SyncWalk, plan: CopyPlan, t: Tier, o: Outcome)
    requires
        w.stats.room(plan.size),
        o matches Outcome::Copied(n) ==> w.stats.room(n),
    ensures
        ({
            let (next, s) = w.after_try(plan, t, o);
            let b = w.stats;
            let bytes: int = match o {
                Outcome::Copied(n) => if t == Tier::NfsBypass || t == Tier::Reflink {
                    plan.size as int
                } else {
                    n as int
                },
                _ => 0,
            };
            let one = |way: Tier|
                if next is Done && t == way {
                    1int
                } else {
                    0int
                };
            let gone = o == Outcome::Failed(CopyErrorKind::SourceNotFound) || o
                == Outcome::Failed(CopyErrorKind::TargetNotFound);
            &&& s.files_delta == b.files_delta + one(Tier::Delta)
            &&& s.files_nfs_bypass == b.files_nfs_bypass + one(Tier::NfsBypass)
            &&& s.files_reflinked == b.files_reflinked + one(Tier::Reflink)
            &&& s.files_cfr == b.files_cfr + one(Tier::CopyRange)
            &&& s.files_small == b.files_small + one(Tier::Small)
            &&& s.files_copied == b.files_copied + one(Tier::Ring)
            &&& s.bytes_delta == b.bytes_delta + bytes * one(Tier::Delta)
            &&& s.bytes_nfs_bypass == b.bytes_nfs_bypass + bytes * one(Tier::NfsBypass)
            &&& s.bytes_reflinked == b.bytes_reflinked + bytes * one(Tier::Reflink)
            &&& s.bytes_cfr == b.bytes_cfr + bytes * one(Tier::CopyRange)
            &&& s.bytes_small == b.bytes_small + bytes * one(Tier::Small)
            &&& s.bytes_copied == b.bytes_copied + bytes * one(Tier::Ring)
            &&& s.files_skipped == b.files_skipped + if next is GiveUp && gone {
                1int
            } else {
                0int
            }
            &&& s.errors == b.errors + if next is GiveUp && !gone {
                1int
            } else {
                0int
            }
            &&& s.files_deleted == b.files_deleted && s.dirs_created == b.dirs_created
            &&& s.dirs_pruned == b.dirs_pruned && s.sigs_stored == b.sigs_stored
            &&& s.dirs_hashed == b.dirs_hashed && s.files_verified == b.files_verified
            &&& s.verify_failures == b.verify_failures
        }),
{
    let next = w.after_try(plan, t, o).0;
    let bytes: int = match o {
        Outcome::Copied(n) => if t == Tier::NfsBypass || t == Tier::Reflink {
            plan.size as int
        } else {
            n as int
        },
        _ => 0,
    };
    assert(bytes * 1 == bytes && bytes * 0 == 0);
}

/// Which files a way of copying is worth trying for. A file counts as sparse where it
/// is larger than a page and takes up less than half of its size in blocks: it does
/// not go to the NFS server, nor through the kernel, nor in one go, which would fill
/// its holes. An empty file goes neither to the server nor by blocks nor through the
/// kernel.
pub proof fn ways_suit_the_file(plan: CopyPlan)
    ensures
        ({
            let holes = plan.size > 4096 && plan.blocks * 512 < plan.size / 2;
            &&& plan.applies(Tier::Delta) <==> plan.same_size && plan.size > 262144
            &&& plan.applies(Tier::NfsBypass) <==> plan.dst_is_nfs && plan.nfs_session && 0
                < plan.size <= 16777216 && !holes
            &&& plan.applies(Tier::Reflink) <==> plan.size > 0 && (plan.same_device
                || plan.dst_is_nfs)
            &&& plan.applies(Tier::CopyRange) <==> plan.size > 0 && !holes
            &&& plan.applies(Tier::Small) <==> plan.size <= 65536 && !holes
            &&& plan.applies(Tier::Ring)
        }),
{
}

/// The first way tried is worth trying and none before it is: a delta before the NFS
/// server, that before sharing blocks, that before the kernel, that before one go, and
/// the ring last.
pub proof fn first_way_is_the_best(plan: CopyPlan)
    ensures
        plan.applies(plan.first_from(0)),
        plan.first_from(0) == Tier::NfsBypass ==> !plan.applies(Tier::Delta),
        plan.first_from(0) == Tier::Reflink ==> !plan.applies(Tier::Delta) && !plan.applies(
            Tier::NfsBypass,
        ),
        plan.first_from(0) == Tier::CopyRange ==> !plan.applies(Tier::Delta) && !plan.applies(
            Tier::NfsBypass,
        ) && !plan.applies(Tier::Reflink),
        plan.first_from(0) == Tier::Small ==> !plan.applies(Tier::Delta) && !plan.applies(
            Tier::NfsBypass,
        ) && !plan.applies(Tier::Reflink) && !plan.applies(Tier::CopyRange),
        plan.first_from(0) == Tier::Ring ==> forall|t: Tier| #[trigger]
            plan.applies(t) ==> t == Tier::Ring,
{
}

/// The order in which ways of copying are tried.
pub proof fn ways_have_their_order()
    ensures
        rank(Tier::Delta) < rank(Tier::NfsBypass) < rank(Tier::Reflink) < rank(Tier::CopyRange)
            < rank(Tier::Small) < rank(Tier::Ring),
{
}

/// A directory is passed over exactly where it is there, is not the root of the tree
/// and both sides have a hash and the same one; it is created where it is missing,
/// or only said to be in a dry run.
pub proof fn directory_is_created_once(
    w: SyncWalk,
    rel: Seq<char>,
    dst_exists: bool,
    src_hash: Option<[u8; 32]>,
    dst_hash: Option<[u8; 32]>,
)
    ensures
        ({
            let a = w.dir_action(rel, dst_exists, src_hash, dst_hash);
            &&& a == DirAction::Prune <==> dst_exists && rel.len() > 0 && src_hash is Some
                && dst_hash is Some && src_hash->0@ == dst_hash->0@
            &&& !dst_exists && !w.dry_run <==> a == DirAction::Create
            &&& !dst_exists && w.dry_run <==> a == DirAction::WouldCreate
        }),
{
}

/// What lies in a directory that has not changed is passed over, and nothing else: a
/// path lies in a directory where its components start with those of the directory.
pub proof fn pruning_covers_the_subtree(w: SyncWalk, rel: Seq<char>)
    ensures
        w.in_pruned(rel) <==> exists|i: int|
            0 <= i < w.pruned@.len() && path::components(
                (#[trigger] w.pruned@[i])@,
            ).is_prefix_of(path::components(rel)),
        w.is_pruned(rel) <==> exists|i: int|
            0 <= i < w.pruned@.len() && path::components((#[trigger] w.pruned@[i])@)
                == path::components(rel),
{
    let t = text::texts(w.pruned@);
    assert forall|i: int| 0 <= i < t.len() implies path::is_under(rel, #[trigger] t[i])
        == path::components(w.pruned@[i]@).is_prefix_of(path::components(rel)) by {
        let c = path::components(rel);
        let d = path::components(t[i]);
        if d.is_prefix_of(c) {
            assert(c.subrange(0, d.len() as int) =~= d);
        }
    }
    if w.in_pruned(rel) {
        let i = choose|i: int| 0 <= i < t.len() && path::is_under(rel, #[trigger] t[i]);
        assert(t[i] == w.pruned@[i]@);
    }
    if w.is_pruned(rel) {
        let i = choose|i: int| 0 <= i < t.len() && path::same_path(rel, #[trigger] t[i]);
        assert(t[i] == w.pruned@[i]@);
    }
    if exists|i: int|
        0 <= i < w.pruned@.len() && path::components((#[trigger] w.pruned@[i])@).is_prefix_of(
            path::components(rel),
        ) {
        let i = choose|i: int|
            0 <= i < w.pruned@.len() && path::components((#[trigger] w.pruned@[i])@).is_prefix_of(
                path::components(rel),
            );
        assert(path::is_under(rel, t[i]));
    }
    if exists|i: int|
        0 <= i < w.pruned@.len() && path::components((#[trigger] w.pruned@[i])@)
            == path::components(rel) {
        let i = choose|i: int|
            0 <= i < w.pruned@.len() && path::components((#[trigger] w.pruned@[i])@)
                == path::components(rel);
        assert(path::same_path(rel, t[i]));
    }
}

/// A path is left out exactly where one of the patterns matches it.
pub proof fn exclusion_is_by_pattern(w: SyncWalk, rel: Seq<char>)
    ensures
        w.excluded(rel) <==> exists|i: int|
            0 <= i < w.excludes@.len() && filter::glob_matches((#[trigger] w.excludes@[i])@, rel),
{
    filter::one_matches(w.excludes@, rel);
}

/// What changes only its counts keeps everything else.
pub proof fn only_counts_change(a: SyncWalk, b: SyncWalk)
    ensures
        a.counts_differ(b) <==> a.dry_run == b.dry_run && a.archive == b.archive && a.generate_sigs
            == b.generate_sigs && a.excludes == b.excludes && a.pruned == b.pruned,
{
}

/// A file is copied, outside a dry run, exactly where the destination is missing or its
/// length, its seconds or its nanoseconds differ.
pub proof fn on_file_copies_what_differs(
    w: &mut SyncWalk,
    f: FileState,
    dst: Option<FileState>,
    action: FileAction,
)
    requires
        call_ensures(SyncWalk::on_file, (w, SourceState::Is(f), dst), action),
        !old(w).dry_run,
    ensures
        action == FileAction::Copy <==> (dst is None || dst->0.len != f.len || dst->0.mtime
            != f.mtime || dst->0.mtime_nsec != f.mtime_nsec),
{
    changed_file_is_copied(*old(w), f, dst);
}

/// A file that was copied in archive mode gets its metadata, by whichever way it was copied
/// but the one that sets it itself; without archive mode it gets none.
pub proof fn on_tried_keeps_metadata(
    w: &mut SyncWalk,
    plan: &CopyPlan,
    t: Tier,
    o: Outcome,
    next: AfterTry,
)
    requires
        call_ensures(SyncWalk::on_tried, (w, plan, t, o), next),
    ensures
        next matches AfterTry::Done { preserve, .. } ==> {
            &&& old(w).archive && t != Tier::NfsBypass ==> preserve
            &&& old(w).archive && t == Tier::NfsBypass ==> !preserve
            &&& !old(w).archive ==> !preserve
        },
        o is Copied && t != Tier::CopyRange ==> next is Done,
        o == Outcome::Copied(plan.size) ==> next is Done,
        o !is Copied ==> !(next is Done),
        final(w).archive == old(w).archive && final(w).excludes == old(w).excludes
            && final(w).pruned == old(w).pruned,
{
    copied_file_keeps_metadata(*old(w), *plan, t, o);
    file_ends_when_copied(*old(w), *plan, t, o);
}

/// Nothing below a directory that was found unchanged is looked at, nor what a pattern
/// excludes; every other file and directory is.
pub proof fn every_entry_is_looked_at(
    w: &mut SyncWalk,
    rel: &str,
    kind: EntryKind,
    action: EntryAction,
)
    requires
        call_ensures(SyncWalk::on_entry, (w, rel, kind), action),
    ensures
        ({
            let out = exists|i: int|
                0 <= i < old(w).excludes@.len() && filter::glob_matches(
                    (#[trigger] old(w).excludes@[i])@,
                    rel@,
                );
            let below = exists|i: int|
                0 <= i < old(w).pruned@.len() && path::components(
                    (#[trigger] old(w).pruned@[i])@,
                ).is_prefix_of(path::components(rel@));
            &&& action == EntryAction::LookAtDir <==> kind == EntryKind::Dir && !out
            &&& action == EntryAction::LookAtFile <==> kind == EntryKind::File && !out && !below
        }),
{
    exclusion_is_by_pattern(*old(w), rel@);
    pruning_covers_the_subtree(*old(w), rel@);
}

/// A directory is passed over only where both hashes are there and equal, and then all below
/// it is; a missing one is created.
pub proof fn unchanged_directory_is_passed_over(
    w: &mut SyncWalk,
    rel: &str,
    dst_exists: bool,
    src_hash: &Option<[u8; 32]>,
    dst_hash: &Option<[u8; 32]>,
    action: DirAction,
)
    requires
        call_ensures(SyncWalk::on_dir, (w, rel, dst_exists, src_hash, dst_hash), action),
    ensures
        action == DirAction::Prune <==> dst_exists && rel@.len() > 0 && *src_hash is Some
            && *dst_hash is Some && src_hash->0@ == dst_hash->0@,
        !dst_exists && !old(w).dry_run <==> action == DirAction::Create,
        action == DirAction::Prune ==> final(w).pruned@.len() == old(w).pruned@.len() + 1
            && final(w).pruned@.last()@ == rel@ && forall|i: int|
            0 <= i < old(w).pruned@.len() ==> (#[trigger] final(w).pruned@[i])@ == old(
                w,
            ).pruned@[i]@,
        action != DirAction::Prune ==> final(w).pruned == old(w).pruned,
{
    directory_is_created_once(*old(w), rel@, dst_exists, *src_hash, *dst_hash);
    if action == DirAction::Prune {
        let a = text::texts(final(w).pruned@);
        let b = text::texts(old(w).pruned@);
        assert(a.len() == b.len() + 1);
        assert(a[b.len() as int] == rel@);
        assert forall|i: int| 0 <= i < old(w).pruned@.len() implies (
        #[trigger] final(w).pruned@[i])@ == old(w).pruned@[i]@ by {
            assert(a[i] == b[i]);
        }
    }
}

} // verus!
