//! Choosing how a file is copied, and how the copy takes the file's place.

use crate::errno::{EACCES, ENOTTY, EOPNOTSUPP, EPERM};
use crate::error::{FxcpError, IoKind};
use crate::operations::segment;
use crate::operations::CopyStats;
use vstd::prelude::*;

verus! {

pub const NFS_SUPER_MAGIC: i64 = 0x6969;

pub const BTRFS_SUPER_MAGIC: i64 = 0x9123683E;

pub const F2FS_SUPER_MAGIC: i64 = 0xF2F52010;

pub const SMB_SUPER_MAGIC: i64 = 0x517B;

pub const CIFS_MAGIC_NUMBER: i64 = 0xFF534D42;

pub const FS_IOC_GETFLAGS: u64 = 0x80086601;

pub const FS_IOC_SETFLAGS: u64 = 0x40086602;

pub const FS_IMMUTABLE_FL: u32 = 0x00000010;

pub const FS_APPEND_FL: u32 = 0x00000020;

pub const FS_NOCOW_FL: u32 = 0x00800000;

/// The most that one call of `copy_file_range` is asked for.
pub const COPY_RANGE_MAX: u64 = 0x4000_0000;

/// How to copy a file's data.
#[derive(Debug, Clone, Copy, PartialEq, Eq, Structural)]
pub enum CopyStrategy {
    /// Share the source's blocks.
    Reflink,
    StandardCopy,
}

/// Whether a file's flags forbid sharing its blocks.
pub open spec fn nocow(flags: u32) -> bool {
    flags & FS_NOCOW_FL != 0
}

/// Whether a file's flags forbid sharing its blocks.
pub fn has_nocow_flag(flags: u32) -> (b: bool)
    ensures
        b == nocow(flags),
{
    flags & FS_NOCOW_FL != 0
}

/// Blocks are shared only where the target can, on the source's own device, for
/// a file of at least one page that does not forbid it. The target's device is
/// that of the target file, or of its directory where there is no file yet.
/// `flags` are the source's, where they could be read.
pub fn determine_copy_strategy(
    reflink: bool,
    src_dev: u64,
    src_len: u64,
    dst_dev: Option<u64>,
    dst_parent_dev: Option<u64>,
    flags: Option<u32>,
) -> (s: CopyStrategy)
    ensures
        s == CopyStrategy::Reflink <==> {
            &&& reflink
            &&& (if dst_dev is Some {
                dst_dev
            } else {
                dst_parent_dev
            }) == Some(src_dev)
            &&& !(flags is Some && nocow(flags->0))
            &&& src_len >= 4096
        },
{
    if !reflink {
        return CopyStrategy::StandardCopy;
    }
    let dev: u64 = match dst_dev {
        Some(d) => d,
        None => match dst_parent_dev {
            Some(d) => d,
            None => return CopyStrategy::StandardCopy,
        },
    };
    if src_dev != dev {
        return CopyStrategy::StandardCopy;
    }
    let forbidden: bool = match flags {
        Some(f) => has_nocow_flag(f),
        None => false,
    };
    if forbidden || src_len < 4096 {
        return CopyStrategy::StandardCopy;
    }
    CopyStrategy::Reflink
}

/// Whether a copy of `length` bytes at `offset` covers the whole file.
pub fn covers_whole_file(offset: u64, length: u64, src_file_size: u64) -> (b: bool)
    ensures
        b == (offset == 0 && length == src_file_size),
{
    offset == 0 && length == src_file_size
}

/// Whether a copy may bypass the page cache: only in whole pages.
pub fn use_direct_io(allowed: bool, offset: u64, length: u64) -> (b: bool)
    ensures
        b == (allowed && length % 4096 == 0 && offset % 4096 == 0),
{
    allowed && length % 4096 == 0 && offset % 4096 == 0
}

/// Whether a source that could not be opened without touching its access time
/// is opened plainly: only where permission for that was lacking.
pub fn reopen_with_atime(errno: Option<i32>) -> (b: bool)
    ensures
        b == (errno == Some(EPERM) || errno == Some(EACCES)),
{
    match errno {
        Some(e) => e == EPERM || e == EACCES,
        None => false,
    }
}

/// Whether a whole-file copy starts by trying to share blocks.
pub fn reflink_first(use_atomic: bool, f2fs_atomic: bool, strategy: CopyStrategy) -> (b: bool)
    ensures
        b == (!use_atomic && !f2fs_atomic && strategy == CopyStrategy::Reflink),
{
    !use_atomic && !f2fs_atomic && strategy == CopyStrategy::Reflink
}

/// What a whole-file copy came to, given the outcome of committing its F2FS
/// transaction: a failed commit spoils a copy that went well.
pub fn settle_commit(copied: Result<CopyStats, FxcpError>, commit: Result<(), FxcpError>) -> (res:
    Result<CopyStats, FxcpError>)
    ensures
        match (copied, commit) {
            (Ok(_), Err(e)) => res == Err::<CopyStats, FxcpError>(e),
            _ => res == copied,
        },
{
    match copied {
        Ok(s) => match commit {
            Ok(_) => Ok(s),
            Err(e) => Err(e),
        },
        Err(e) => Err(e),
    }
}

/// A copy in calls of `copy_file_range`: how much there is to copy and how much
/// has been copied.
#[derive(Debug, Clone, Copy)]
pub struct RangeCopy {
    pub size: u64,
    pub copied: u64,
    pub ops: u64,
}

impl RangeCopy {
    /// Each call so far copied at least one byte.
    pub open spec fn wf(&self) -> bool {
        self.ops <= self.copied
    }

    pub fn new(size: u64) -> (c: RangeCopy)
        ensures
            c.wf(),
            c == (RangeCopy { size, copied: 0, ops: 0 }),
    {
        RangeCopy { size, copied: 0, ops: 0 }
    }

    /// How much to ask for next: what is left, up to a gibibyte; nothing once
    /// all is copied.
    pub fn next_chunk(&self) -> (n: Option<u64>)
        ensures
            n == (if self.copied < self.size {
                Some(
                    if self.size - self.copied <= COPY_RANGE_MAX {
                        (self.size - self.copied) as u64
                    } else {
                        COPY_RANGE_MAX
                    },
                )
            } else {
                None
            }),
    {
        if self.copied < self.size {
            let left: u64 = self.size - self.copied;
            if left <= COPY_RANGE_MAX {
                Some(left)
            } else {
                Some(COPY_RANGE_MAX)
            }
        } else {
            None
        }
    }

    /// Notes that a call copied `n` bytes; returns whether to go on. Nothing
    /// copied means that the source has ended.
    pub fn on_copied(&mut self, n: u64) -> (more: bool)
        requires
            old(self).wf(),
            old(self).copied + n <= u64::MAX,
        ensures
            final(self).wf(),
            final(self).size == old(self).size,
            final(self).copied == old(self).copied + n,
            final(self).ops == (if n > 0 {
                old(self).ops + 1
            } else {
                old(self).ops as int
            }),
            more == (n > 0),
    {
        if n == 0 {
            return false;
        }
        self.copied = self.copied + n;
        self.ops = self.ops + 1;
        true
    }

    /// What the copy came to: it is complete only if all was copied.
    pub fn finish(&self, micros: u64) -> (res: Result<CopyStats, FxcpError>)
        ensures
            if self.copied == self.size {
                res == Ok::<CopyStats, FxcpError>(
                    CopyStats {
                        bytes_processed: self.size,
                        bytes_zeros: 0,
                        io_micros: micros,
                        ops_count: self.ops,
                    },
                )
            } else {
                res is Err && segment::is_io_error(
                    res->Err_0,
                    IoKind::Other,
                    "Reflink partial copy or EOF"@,
                )
            },
    {
        if self.copied == self.size {
            Ok(
                CopyStats {
                    bytes_processed: self.size,
                    bytes_zeros: 0,
                    io_micros: micros,
                    ops_count: self.ops,
                },
            )
        } else {
            Err(
                FxcpError::Io {
                    kind: IoKind::Other,
                    errno: None,
                    message: "Reflink partial copy or EOF".to_owned(),
                },
            )
        }
    }

    /// Whether a target that a failed call left behind is removed: only where
    /// nothing had been copied into it.
    pub fn remove_after_failure(&self) -> (b: bool)
        ensures
            b == (self.copied == 0),
    {
        self.copied == 0
    }
}

/// What sharing blocks in one call came to.
pub fn cloned(len: u64, micros: u64) -> (s: CopyStats)
    ensures
        s == (CopyStats { bytes_processed: len, bytes_zeros: 0, io_micros: micros, ops_count: 1 }),
{
    CopyStats { bytes_processed: len, bytes_zeros: 0, io_micros: micros, ops_count: 1 }
}

/// Whether a filesystem is a network filesystem that copies on its server.
pub fn is_network_fs(magic: i64) -> (b: bool)
    ensures
        b == (magic == NFS_SUPER_MAGIC || magic == SMB_SUPER_MAGIC || magic == CIFS_MAGIC_NUMBER),
{
    magic == NFS_SUPER_MAGIC || magic == SMB_SUPER_MAGIC || magic == CIFS_MAGIC_NUMBER
}

/// How a finished temporary file takes the target's place.
#[derive(Debug, Clone, Copy, PartialEq, Eq, Structural)]
pub enum Publish {
    /// Swap the two names.
    ExchangeNames,
    /// Swap the two files' contents.
    ExchangeContents,
    /// Rename over the target.
    Rename,
}

/// How to publish: by exchange where the target exists and takes it, of names on
/// Btrfs and of contents elsewhere; else by renaming.
pub fn publish_plan(can_exchange: bool, dst_exists: bool, is_btrfs: bool) -> (p: Publish)
    ensures
        p == (if can_exchange && dst_exists {
            if is_btrfs {
                Publish::ExchangeNames
            } else {
                Publish::ExchangeContents
            }
        } else {
            Publish::Rename
        }),
{
    if can_exchange && dst_exists {
        if is_btrfs {
            Publish::ExchangeNames
        } else {
            Publish::ExchangeContents
        }
    } else {
        Publish::Rename
    }
}

/// After a failure to publish: what to try next, if anything, and whether the
/// target's exchanges are given up for good.
pub fn after_publish_failure(tried: Publish, errno: Option<i32>) -> (r: (Option<Publish>, bool))
    ensures
        r.0 == (if tried == Publish::Rename {
            None
        } else {
            Some(Publish::Rename)
        }),
        r.1 == (tried == Publish::ExchangeContents && (errno == Some(EOPNOTSUPP) || errno
            == Some(ENOTTY))),
{
    match tried {
        Publish::Rename => (None, false),
        Publish::ExchangeNames => (Some(Publish::Rename), false),
        Publish::ExchangeContents => {
            let unsupported: bool = match errno {
                Some(e) => e == EOPNOTSUPP || e == ENOTTY,
                None => false,
            };
            (Some(Publish::Rename), unsupported)
        },
    }
}

/// Adds what a delta copied to a running total.
pub fn add_delta(total: &mut CopyStats, s: &CopyStats)
    requires
        old(total).bytes_processed + s.bytes_processed <= u64::MAX,
        old(total).ops_count + s.ops_count <= u64::MAX,
    ensures
        *final(total) == (CopyStats {
            bytes_processed: (old(total).bytes_processed + s.bytes_processed) as u64,
            ops_count: (old(total).ops_count + s.ops_count) as u64,
            ..*old(total)
        }),
{
    total.bytes_processed = total.bytes_processed + s.bytes_processed;
    total.ops_count = total.ops_count + s.ops_count;
}

/// A step on the way of a whole file: it is copied to a temporary file, which
/// then takes the target's place.
#[derive(Debug, Clone, Copy, PartialEq, Eq, Structural)]
pub enum FileStep {
    /// Copy to the temporary file.
    Copy,
    /// Write the temporary file through to the disk.
    Sync,
    /// Give it the source's metadata, as far as that goes.
    Metadata,
    /// Let it take the target's place.
    Publish,
    /// Tell whoever waits for the file.
    Notify,
    /// Remove the temporary file.
    RemoveTemp,
    /// The file is copied.
    Done,
    /// It is not.
    Fail,
}

/// What a step came to.
#[derive(Debug, Clone, Copy, PartialEq, Eq, Structural)]
pub enum StepOutcome {
    Fine,
    Failed,
    /// It failed before there was a temporary file.
    NotBegun,
}

/// What follows a step.
pub open spec fn follows(step: FileStep, outcome: StepOutcome, skip_fsync: bool, waited: bool) -> FileStep {
    match step {
        FileStep::Copy => match outcome {
            StepOutcome::Fine => if skip_fsync {
                FileStep::Metadata
            } else {
                FileStep::Sync
            },
            StepOutcome::Failed => FileStep::RemoveTemp,
            StepOutcome::NotBegun => FileStep::Fail,
        },
        FileStep::Sync => if outcome == StepOutcome::Fine {
            FileStep::Metadata
        } else {
            FileStep::Fail
        },
        FileStep::Metadata => FileStep::Publish,
        FileStep::Publish => if outcome == StepOutcome::Fine {
            if waited {
                FileStep::Notify
            } else {
                FileStep::Done
            }
        } else {
            FileStep::Fail
        },
        FileStep::Notify => FileStep::Done,
        FileStep::RemoveTemp => FileStep::Fail,
        FileStep::Done => FileStep::Done,
        FileStep::Fail => FileStep::Fail,
    }
}

/// What follows a step. `waited` is whether somebody waits for the file.
pub fn execute_copy_file(step: FileStep, outcome: StepOutcome, skip_fsync: bool, waited: bool) -> (next:
    FileStep)
    ensures
        next == follows(step, outcome, skip_fsync, waited),
{
    match step {
        FileStep::Copy => match outcome {
            StepOutcome::Fine => if skip_fsync {
                FileStep::Metadata
            } else {
                FileStep::Sync
            },
            StepOutcome::Failed => FileStep::RemoveTemp,
            StepOutcome::NotBegun => FileStep::Fail,
        },
        FileStep::Sync => match outcome {
            StepOutcome::Fine => FileStep::Metadata,
            _ => FileStep::Fail,
        },
        FileStep::Metadata => FileStep::Publish,
        FileStep::Publish => match outcome {
            StepOutcome::Fine => if waited {
                FileStep::Notify
            } else {
                FileStep::Done
            },
            _ => FileStep::Fail,
        },
        FileStep::Notify => FileStep::Done,
        FileStep::RemoveTemp => FileStep::Fail,
        FileStep::Done => FileStep::Done,
        FileStep::Fail => FileStep::Fail,
    }
}

/// Only a whole copy takes the target's place: whatever the two steps before were,
/// a file is published only after it was copied without failure, and written
/// through to the disk unless that was waived.
pub proof fn only_whole_copies_are_published(
    first: FileStep,
    a: StepOutcome,
    b: StepOutcome,
    skip_fsync: bool,
    waited: bool,
)
    requires
        follows(follows(first, a, skip_fsync, waited), b, skip_fsync, waited) == FileStep::Publish,
    ensures
        a == StepOutcome::Fine,
        if skip_fsync {
            first == FileStep::Copy || first == FileStep::Sync
        } else {
            first == FileStep::Sync
        },
{
}

/// Copying a file goes from the data over the flush, unless that is left out, and the
/// metadata to taking the target's place, and only then is it done; who waits is told
/// before that. Failing to copy removes the temporary file, unless there is none yet;
/// failing to flush or to take the place fails the file. What is over stays over.
pub proof fn file_steps_lead_to_an_end(
    step: FileStep,
    outcome: StepOutcome,
    skip_fsync: bool,
    waited: bool,
)
    ensures
        ({
            let next = follows(step, outcome, skip_fsync, waited);
            let fine = outcome == StepOutcome::Fine;
            &&& next == FileStep::Sync <==> step == FileStep::Copy && fine && !skip_fsync
            &&& next == FileStep::Metadata <==> fine && (step == FileStep::Sync || step
                == FileStep::Copy && skip_fsync)
            &&& next == FileStep::Publish <==> step == FileStep::Metadata
            &&& next == FileStep::Notify <==> step == FileStep::Publish && fine && waited
            &&& next == FileStep::Done <==> step == FileStep::Done || step == FileStep::Notify
                || step == FileStep::Publish && fine && !waited
            &&& next == FileStep::RemoveTemp <==> step == FileStep::Copy && outcome
                == StepOutcome::Failed
            &&& next == FileStep::Fail <==> step == FileStep::Fail || step
                == FileStep::RemoveTemp || step == FileStep::Copy && outcome
                == StepOutcome::NotBegun || (step == FileStep::Sync || step
                == FileStep::Publish) && !fine
            &&& next != FileStep::Copy
        }),
{
}

/// A file is kept from being shared by one bit of its flags.
pub proof fn nocow_is_one_bit(flags: u32)
    ensures
        nocow(flags) <==> (flags >> 23u32) & 1u32 == 1u32,
{
    assert((flags & 0x0080_0000u32 != 0) == ((flags >> 23u32) & 1u32 == 1u32)) by (bit_vector);
}

/// Contents are shared only where the file system can, both lie on one device, the file
/// allows it and is worth it.
pub proof fn sharing_needs_one_device(
    reflink: bool,
    src_dev: u64,
    src_len: u64,
    dst_dev: Option<u64>,
    parent_dev: Option<u64>,
    flags: Option<u32>,
    s: CopyStrategy,
)
    requires
        call_ensures(
            determine_copy_strategy,
            (reflink, src_dev, src_len, dst_dev, parent_dev, flags),
            s,
        ),
    ensures
        s == CopyStrategy::Reflink ==> reflink && src_len >= 4096,
        s == CopyStrategy::Reflink && dst_dev is Some ==> dst_dev->0 == src_dev,
        s == CopyStrategy::Reflink && dst_dev is None ==> parent_dev is Some && parent_dev->0
            == src_dev,
        s == CopyStrategy::Reflink && flags is Some ==> (flags->0 >> 23u32) & 1u32 == 0u32,
        reflink && dst_dev == Some(src_dev) && flags is None && src_len >= 4096 ==> s
            == CopyStrategy::Reflink,
{
    if flags is Some {
        nocow_is_one_bit(flags->0);
        let f = flags->0;
        assert((f >> 23u32) & 1u32 == 0u32 || (f >> 23u32) & 1u32 == 1u32) by (bit_vector);
    }
}

/// A copy by ranges asks for what is left, a gigabyte at most, and has succeeded only where
/// all of it was copied.
pub proof fn range_copy_copies_all(
    c: &RangeCopy,
    n: Option<u64>,
    micros: u64,
    res: Result<CopyStats, FxcpError>,
    remove: bool,
)
    requires
        call_ensures(RangeCopy::next_chunk, (c,), n),
        call_ensures(RangeCopy::finish, (c, micros), res),
        call_ensures(RangeCopy::remove_after_failure, (c,), remove),
    ensures
        n is None <==> c.copied >= c.size,
        n matches Some(k) ==> 0 < k && c.copied + k <= c.size && k <= 0x4000_0000 && (k
            == 0x4000_0000 || c.copied + k == c.size),
        res is Ok <==> c.copied == c.size,
        res matches Ok(s) ==> s.bytes_processed == c.size && s.bytes_zeros == 0 && s.ops_count
            == c.ops && s.io_micros == micros,
        remove <==> c.copied == 0,
{
}

/// What was written aside replaces the target in one step: by an exchange where there is
/// one to exchange with and the kernel can, and else by a rename, which is the last resort
/// of either.
pub proof fn target_is_replaced_at_once(
    can_exchange: bool,
    dst_exists: bool,
    is_btrfs: bool,
    p: Publish,
    tried: Publish,
    errno: Option<i32>,
    r: (Option<Publish>, bool),
)
    requires
        call_ensures(publish_plan, (can_exchange, dst_exists, is_btrfs), p),
        call_ensures(after_publish_failure, (tried, errno), r),
    ensures
        p == Publish::Rename <==> !can_exchange || !dst_exists,
        p == Publish::ExchangeNames <==> can_exchange && dst_exists && is_btrfs,
        p == Publish::ExchangeContents <==> can_exchange && dst_exists && !is_btrfs,
        r.0 is None <==> tried == Publish::Rename,
        r.0 matches Some(next) ==> next == Publish::Rename,
        r.1 <==> tried == Publish::ExchangeContents && (errno == Some(95i32) || errno == Some(
            25i32,
        )),
{
}

/// A copy whose commit failed has failed; a failed copy stays failed with its own error.
pub proof fn failed_commit_fails_the_copy(
    copied: Result<CopyStats, FxcpError>,
    commit: Result<(), FxcpError>,
    res: Result<CopyStats, FxcpError>,
)
    requires
        call_ensures(settle_commit, (copied, commit), res),
    ensures
        res is Ok <==> copied is Ok && commit is Ok,
        copied is Ok && commit is Ok ==> res == copied,
        copied is Err ==> res == copied,
        copied is Ok && commit is Err ==> res == Err::<CopyStats, FxcpError>(commit->Err_0),
{
}

/// Direct reads and writes need whole pages.
pub proof fn direct_access_needs_pages(
    allowed: bool,
    offset: u64,
    length: u64,
    b: bool,
    size: u64,
    whole: bool,
)
    requires
        call_ensures(use_direct_io, (allowed, offset, length), b),
        call_ensures(covers_whole_file, (offset, length, size), whole),
    ensures
        b <==> allowed && offset as int % 4096 == 0 && length as int % 4096 == 0,
        whole <==> offset == 0 && length == size,
{
}

} // verus!
