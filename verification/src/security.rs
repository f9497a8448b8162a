//! Capacity, markers of what was synchronised, snapshots of single files, and
//! staying within a directory.

use crate::bytes;
use crate::constants::MIN_INODES_THRESHOLD;
use crate::errno::{EINVAL, ENOSYS, ENOTTY, EOPNOTSUPP, EXDEV};
use crate::error::{FxcpError, IoKind};
use crate::path;
use crate::text;
use fxhash::FxHasher;
use std::collections::hash_map::DefaultHasher;
use std::hash::Hasher;
use vstd::prelude::*;
use vstd::std_specs::hash::DefaultHasherAdditionalSpecFns;
use vstd::string::StringExecFns;

verus! {

/// What a file system has left.
#[derive(Debug, Clone, Copy, PartialEq, Eq, Structural)]
pub struct FsSpace {
    pub blocks_available: u64,
    pub block_size: u64,
    pub files_available: u64,
}

/// Whether a file system has room: the threshold in mebibytes and enough inodes.
/// One that cannot be asked is taken to have it.
pub fn check_capacity(space: Option<FsSpace>, threshold_mb: u64) -> (enough: bool)
    ensures
        enough == (match space {
            Some(s) => s.blocks_available * s.block_size >= threshold_mb * (1024 * 1024)
                && s.files_available >= MIN_INODES_THRESHOLD,
            None => true,
        }),
{
    match space {
        Some(s) => {
            assert(s.blocks_available * s.block_size <= u64::MAX * u64::MAX) by (nonlinear_arith)
                requires
                    s.blocks_available <= u64::MAX,
                    s.block_size <= u64::MAX,
            ;
            let available: u128 = (s.blocks_available as u128) * (s.block_size as u128);
            let threshold: u128 = (threshold_mb as u128) * 1048576;
            available >= threshold && s.files_available >= MIN_INODES_THRESHOLD
        },
        None => true,
    }
}

/// Whether a type of file system compresses: Btrfs and F2FS.
pub fn is_filesystem_compressed(magic: Option<i64>) -> (yes: bool)
    ensures
        yes == (magic matches Some(m) && (m == 0x9123683E || m == 0xF2F52010)),
{
    match magic {
        Some(m) => m == 0x9123683E || m == 0xF2F52010,
        None => false,
    }
}

/// What a failed attempt to share blocks means: invalid arguments say that the
/// file system cannot.
pub fn clone_error(errno: i32, dst: &str) -> (e: FxcpError)
    ensures
        errno == EINVAL ==> (e matches FxcpError::Io { kind, errno: n, message } && kind
            == IoKind::Unsupported && n is None && message@
            == "FICLONE (CoW) not supported by filesystem: "@ + dst@),
        errno != EINVAL ==> e == FxcpError::System(errno),
{
    if errno == EINVAL {
        FxcpError::Io {
            kind: IoKind::Unsupported,
            errno: None,
            message: text::concat2("FICLONE (CoW) not supported by filesystem: ", dst),
        }
    } else {
        FxcpError::System(errno)
    }
}

/// The marker of a file's state: size, seconds and nanoseconds of its time.
pub open spec fn marker_bytes(len: u64, mtime: i64, mtime_nsec: i64) -> Seq<u8> {
    bytes::le64(len) + bytes::le64(mtime as u64) + bytes::le64(mtime_nsec as u64)
}

/// The marker of a file's state.
pub fn write_sync_marker(len: u64, mtime: i64, mtime_nsec: i64) -> (out: Vec<u8>)
    ensures
        out@ == marker_bytes(len, mtime, mtime_nsec),
{
    let mut out: Vec<u8> = Vec::new();
    bytes::put_le64(&mut out, len);
    bytes::put_le64(&mut out, mtime as u64);
    bytes::put_le64(&mut out, mtime_nsec as u64);
    assert(out@ =~= marker_bytes(len, mtime, mtime_nsec));
    out
}

/// What a marker of 24 bytes says: size, seconds, nanoseconds.
pub open spec fn marker_state(v: Seq<u8>) -> (u64, i64, i64) {
    (
        bytes::le64_value(v.subrange(0, 8)),
        bytes::le64_value(v.subrange(8, 16)) as i64,
        bytes::le64_value(v.subrange(16, 24)) as i64,
    )
}

/// Whether the stored marker is that of the source's state.
pub fn check_sync_marker(
    stored: &Option<Vec<u8>>,
    src_len: u64,
    src_mtime: i64,
    src_mtime_nsec: i64,
) -> (same: bool)
    ensures
        same == (*stored matches Some(v) && v@.len() == 24 && marker_state(v@) == (
            src_len,
            src_mtime,
            src_mtime_nsec,
        )),
{
    match stored {
        Some(v) => {
            if v.len() != 24 {
                return false;
            }
            let len: u64 = bytes::get_le64(v.as_slice(), 0);
            let mtime: i64 = bytes::get_le64(v.as_slice(), 8) as i64;
            let nsec: i64 = bytes::get_le64(v.as_slice(), 16) as i64;
            len == src_len && mtime == src_mtime && nsec == src_mtime_nsec
        },
        None => false,
    }
}

/// A marker says the state that it was written for.
pub proof fn marker_round_trip(len: u64, mtime: i64, mtime_nsec: i64)
    ensures
        marker_bytes(len, mtime, mtime_nsec).len() == 24,
        marker_state(marker_bytes(len, mtime, mtime_nsec)) == (len, mtime, mtime_nsec),
{
    let v = marker_bytes(len, mtime, mtime_nsec);
    bytes::le64_round_trip(len);
    bytes::le64_round_trip(mtime as u64);
    bytes::le64_round_trip(mtime_nsec as u64);
    bytes::i64_bits_round_trip(mtime);
    bytes::i64_bits_round_trip(mtime_nsec);
    assert(v.subrange(0, 8) =~= bytes::le64(len));
    assert(v.subrange(8, 16) =~= bytes::le64(mtime as u64));
    assert(v.subrange(16, 24) =~= bytes::le64(mtime_nsec as u64));
}

/// Owner, mode and time of a directory.
#[derive(Debug, Clone, Copy, PartialEq, Eq, Structural)]
pub struct DirMeta {
    pub uid: u32,
    pub gid: u32,
    pub mode: u32,
    pub mtime: i64,
}

/// Whether two directories are there and agree in owner, mode and time.
pub fn is_dir_metadata_synced(src: Option<DirMeta>, dst: Option<DirMeta>) -> (same: bool)
    ensures
        same == (src is Some && dst is Some && src == dst),
{
    match (src, dst) {
        (Some(s), Some(d)) => s.uid == d.uid && s.gid == d.gid && s.mode == d.mode && s.mtime
            == d.mtime,
        _ => false,
    }
}

/// The number in eight stored bytes, where there are eight.
pub open spec fn stored_number(v: Option<Vec<u8>>) -> Option<u64> {
    match v {
        Some(b) => if b@.len() == 8 {
            Some(bytes::le64_value(b@))
        } else {
            None
        },
        None => None,
    }
}

fn number_in(v: &Option<Vec<u8>>) -> (n: Option<u64>)
    ensures
        n == stored_number(*v),
{
    match v {
        Some(b) => {
            if b.len() != 8 {
                return None;
            }
            assert(b@.subrange(0, 8) =~= b@);
            Some(bytes::get_le64(b.as_slice(), 0))
        },
        None => None,
    }
}

/// The stored epoch; zero where there is none.
pub fn get_target_epoch(stored: &Option<Vec<u8>>) -> (epoch: u64)
    ensures
        epoch == (match stored_number(*stored) {
            Some(n) => n,
            None => 0,
        }),
{
    match number_in(stored) {
        Some(n) => n,
        None => 0,
    }
}

/// The stored hash of a directory, where it is guarded by the directory's
/// present time; zero otherwise.
pub open spec fn valid_hash(
    hash: Option<Vec<u8>>,
    guard: Option<Vec<u8>>,
    mtime: Option<i64>,
) -> u64 {
    match (stored_number(hash), stored_number(guard), mtime) {
        (Some(h), Some(g), Some(m)) => if m == g as i64 {
            h
        } else {
            0
        },
        _ => 0,
    }
}

/// The stored hash of a directory, where it is still valid; zero otherwise.
pub fn get_valid_dir_hash(
    hash: &Option<Vec<u8>>,
    guard: &Option<Vec<u8>>,
    mtime: Option<i64>,
) -> (h: u64)
    ensures
        h == valid_hash(*hash, *guard, mtime),
{
    match (number_in(hash), number_in(guard), mtime) {
        (Some(h), Some(g), Some(m)) => if m == g as i64 {
            h
        } else {
            0
        },
        _ => 0,
    }
}

/// The stored hash of a directory whose lock was taken, where it is still valid;
/// zero otherwise. Without the lock there is only the error.
pub fn check_and_lock_dir_integrity(
    lock: Result<(), FxcpError>,
    hash: &Option<Vec<u8>>,
    guard: &Option<Vec<u8>>,
    mtime: Option<i64>,
) -> (res: Result<u64, FxcpError>)
    ensures
        res == (match lock {
            Ok(_) => Ok::<u64, FxcpError>(valid_hash(*hash, *guard, mtime)),
            Err(e) => Err(e),
        }),
{
    match lock {
        Ok(_) => Ok(get_valid_dir_hash(hash, guard, mtime)),
        Err(e) => Err(e),
    }
}

/// The bytes that are stored for the hash of a directory, and for the guard of
/// it: the directory's time.
pub fn write_dir_integrity_hash(hash: u64, mtime: i64) -> (out: (Vec<u8>, Vec<u8>))
    ensures
        out.0@ == bytes::le64(hash),
        out.1@ == bytes::le64(mtime as u64),
{
    let mut a: Vec<u8> = Vec::new();
    bytes::put_le64(&mut a, hash);
    assert(a@ =~= bytes::le64(hash));
    let mut b: Vec<u8> = Vec::new();
    bytes::put_le64(&mut b, mtime as u64);
    assert(b@ =~= bytes::le64(mtime as u64));
    (a, b)
}

/// A stored hash is valid as long as the directory's time stays the same, and no
/// longer.
pub proof fn dir_hash_is_guarded(
    hash: u64,
    mtime: i64,
    now: i64,
    stored: Vec<u8>,
    guard: Vec<u8>,
)
    requires
        stored@ == bytes::le64(hash),
        guard@ == bytes::le64(mtime as u64),
    ensures
        valid_hash(Some(stored), Some(guard), Some(now)) == (if now == mtime {
            hash
        } else {
            0
        }),
{
    bytes::le64_round_trip(hash);
    bytes::le64_round_trip(mtime as u64);
    bytes::i64_bits_round_trip(mtime);
}

/// What counts of an entry of a directory for its hash.
#[derive(Debug)]
pub struct DirEntryMeta {
    pub name: String,
    pub len: u64,
    pub mtime: i64,
    pub mode: u32,
}

/// What counts of a directory itself.
#[derive(Debug, Clone, Copy, PartialEq, Eq, Structural)]
pub struct DirIdentity {
    pub ino: u64,
    pub mode: u32,
    pub uid: u32,
    pub gid: u32,
}

/// What is hashed for the first `n` entries.
pub open spec fn entry_writes(entries: Seq<DirEntryMeta>, n: nat) -> Seq<Seq<u8>>
    decreases n,
{
    if n == 0 {
        Seq::empty()
    } else {
        let e = entries[n - 1];
        entry_writes(entries, (n - 1) as nat) + seq![
            vstd::utf8::encode_utf8(e.name@),
            bytes::le64(e.len),
            bytes::le64(e.mtime as u64),
            bytes::le32(e.mode),
        ]
    }
}

/// What is hashed for a directory: its name, its identity and its entries, as
/// far as they are known.
pub open spec fn dir_writes(
    name: Option<Seq<char>>,
    identity: Option<DirIdentity>,
    entries: Seq<DirEntryMeta>,
) -> Seq<Seq<u8>> {
    (match name {
        Some(s) => seq![vstd::utf8::encode_utf8(s)],
        None => Seq::empty(),
    }) + (match identity {
        Some(d) => seq![
            bytes::le64(d.ino),
            bytes::le32(d.mode),
            bytes::le32(d.uid),
            bytes::le32(d.gid),
        ],
        None => Seq::empty(),
    }) + entry_writes(entries, entries.len())
}

fn hash_u64(h: &mut DefaultHasher, v: u64)
    ensures
        final(h)@ == old(h)@.push(bytes::le64(v)),
{
    let mut buf: Vec<u8> = Vec::new();
    bytes::put_le64(&mut buf, v);
    assert(buf@ =~= bytes::le64(v));
    h.write(buf.as_slice());
}

fn hash_u32(h: &mut DefaultHasher, v: u32)
    ensures
        final(h)@ == old(h)@.push(bytes::le32(v)),
{
    let mut buf: Vec<u8> = Vec::new();
    bytes::put_le32(&mut buf, v);
    assert(buf@ =~= bytes::le32(v));
    h.write(buf.as_slice());
}

/// The hash of a directory by what its entries look like; zero for anything
/// else. Numbers are hashed little-endian.
pub fn calc_dir_integrity_hash_target(
    is_dir: bool,
    name: &Option<String>,
    identity: Option<DirIdentity>,
    entries: &Vec<DirEntryMeta>,
) -> (h: u64)
    ensures
        !is_dir ==> h == 0,
        is_dir ==> h == DefaultHasher::spec_finish(
            dir_writes(
                match *name {
                    Some(s) => Some(s@),
                    None => None,
                },
                identity,
                entries@,
            ),
        ),
{
    if !is_dir {
        return 0;
    }
    let mut hasher = DefaultHasher::new();
    let ghost none = Seq::<Seq<u8>>::empty();
    let ghost first = match name {
        Some(s) => seq![vstd::utf8::encode_utf8(s@)],
        None => none,
    };
    if let Some(s) = name {
        hasher.write(s.as_str().as_bytes());
    }
    assert(hasher@ =~= first);
    let ghost second = match identity {
        Some(d) => seq![
            bytes::le64(d.ino),
            bytes::le32(d.mode),
            bytes::le32(d.uid),
            bytes::le32(d.gid),
        ],
        None => none,
    };
    if let Some(d) = identity {
        hash_u64(&mut hasher, d.ino);
        hash_u32(&mut hasher, d.mode);
        hash_u32(&mut hasher, d.uid);
        hash_u32(&mut hasher, d.gid);
    }
    let ghost start = first + second;
    assert(hasher@ =~= start);
    let mut i: usize = 0;
    assert(start + entry_writes(entries@, 0) =~= start);
    while i < entries.len()
        invariant
            i <= entries@.len(),
            hasher@ == start + entry_writes(entries@, i as nat),
        decreases entries@.len() - i,
    {
        let e = &entries[i];
        let ghost before = hasher@;
        hasher.write(e.name.as_str().as_bytes());
        hash_u64(&mut hasher, e.len);
        hash_u64(&mut hasher, e.mtime as u64);
        hash_u32(&mut hasher, e.mode);
        assert(hasher@ =~= start + entry_writes(entries@, (i + 1) as nat));
        i = i + 1;
    }
    hasher.finish()
}

/// A copy of a file at some moment.
#[derive(Debug)]
pub struct FileVersion {
    pub inode: u64,
    pub epoch_seq: u64,
    pub timestamp: i64,
    pub path: String,
    pub size: u64,
    pub mtime: i64,
    pub content_hash: Option<u64>,
}

/// What is found of a file that is to be copied.
#[derive(Debug, Clone, Copy, PartialEq, Eq, Structural)]
pub struct FileFacts {
    pub is_file: bool,
    pub size: u64,
    pub mtime: i64,
    pub inode: u64,
}

/// Where the copy of a file goes: below the root, under a name made of inode,
/// epoch and time.
pub open spec fn snapshot_path(root: Seq<char>, inode: u64, epoch: u64, timestamp: i64) -> Seq<char> {
    path::join(
        path::join(path::join(root, ".foxing_versions"@), "live"@),
        text::decimal(inode as nat) + "_"@ + text::decimal(epoch as nat) + "_"@
            + text::signed_decimal(timestamp as int),
    )
}

/// Whether a file can be copied: it is there, it is a regular file, and it is
/// the expected inode where one is expected.
pub open spec fn can_snapshot(facts: Option<FileFacts>, expected_inode: u64) -> bool {
    facts matches Some(f) && f.is_file && (expected_inode == 0 || f.inode == expected_inode)
}

/// Where the copy of a file goes, where it can be copied.
pub fn create_version_snapshot(
    facts: Option<FileFacts>,
    epoch_seq: u64,
    root: &str,
    expected_inode: u64,
    timestamp: i64,
) -> (res: Option<String>)
    ensures
        can_snapshot(facts, expected_inode) ==> res is Some && res->0@ == snapshot_path(
            root@,
            facts->0.inode,
            epoch_seq,
            timestamp,
        ),
        !can_snapshot(facts, expected_inode) ==> res is None,
{
    match facts {
        Some(f) => {
            if !f.is_file || (expected_inode != 0 && f.inode != expected_inode) {
                return None;
            }
            let mut name = text::concat3(
                &text::decimal_of(f.inode),
                "_",
                &text::decimal_of(epoch_seq),
            );
            name.append("_");
            name.append(&text::signed_decimal_of(timestamp));
            let versions = path::join_path(root, ".foxing_versions");
            let live = path::join_path(&versions, "live");
            Some(path::join_path(&live, &name))
        },
        None => None,
    }
}

/// `fxhash::FxHasher`: a hash of a number and two byte strings. It works in
/// machine words, so that it differs between machines; nothing is stated of it.
#[verifier::external_body]
fn fx_hash(len: u64, head: &[u8], tail: &[u8]) -> (h: u64) {
    let mut hasher = FxHasher::default();
    hasher.write_u64(len);
    hasher.write(head);
    hasher.write(tail);
    hasher.finish()
}

/// Asks for the hash of a number and two byte strings, and keeps that it was the answer.
fn ask<F: Fn(u64, &[u8], &[u8]) -> u64>(f: F, len: u64, head: &[u8], tail: &[u8]) -> (h: u64)
    requires
        call_requires(f, (len, head, tail)),
    ensures
        call_ensures(f, (len, head, tail), h),
{
    f(len, head, tail)
}

/// Whether `h` was the hash of a number and two byte strings when it was asked for.
pub closed spec fn hash_answers(len: u64, head: Seq<u8>, tail: Seq<u8>, h: u64) -> bool {
    exists|a: &[u8], b: &[u8]|
        a@ == head && b@ == tail && #[trigger] call_ensures(fx_hash, (len, a, b), h)
}

/// The hash of a number and two byte strings.
fn partial_hash(len: u64, head: &[u8], tail: &[u8]) -> (h: u64)
    ensures
        hash_answers(len, head@, tail@, h),
{
    ask(fx_hash, len, head, tail)
}

/// The size from which on the end of a file counts for its partial hash.
pub const PARTIAL_HASH_TAIL_FROM: u64 = 131072;

/// Whether the end of a file counts for its partial hash.
pub fn hashes_tail(len: u64) -> (yes: bool)
    ensures
        yes == (len > PARTIAL_HASH_TAIL_FROM),
{
    len > PARTIAL_HASH_TAIL_FROM
}

/// What of the end of a file counts for its partial hash: all that was read of
/// it where the file is large, nothing otherwise.
pub fn hashed_tail<'a>(len: u64, tail: &'a [u8]) -> (out: &'a [u8])
    ensures
        out@ == (if len > PARTIAL_HASH_TAIL_FROM {
            tail@
        } else {
            Seq::empty()
        }),
{
    if hashes_tail(len) {
        tail
    } else {
        let out = vstd::slice::slice_subrange(tail, 0, 0);
        assert(out@ =~= Seq::empty());
        out
    }
}

/// The record of a copy that was made, with the partial hash of it where there
/// is one.
pub fn version_of(
    facts: &FileFacts,
    epoch_seq: u64,
    timestamp: i64,
    path: String,
    content_hash: Option<u64>,
) -> (v: FileVersion)
    ensures
        v == (FileVersion {
            inode: facts.inode,
            epoch_seq,
            timestamp,
            path,
            size: facts.size,
            mtime: facts.mtime,
            content_hash,
        }),
{
    FileVersion {
        inode: facts.inode,
        epoch_seq,
        timestamp,
        path,
        size: facts.size,
        mtime: facts.mtime,
        content_hash,
    }
}

/// The record of a copy that was made, with a partial hash of it where it could
/// be read: of its size, its beginning and, where it is large, its end. The hash is
/// the one that was given for these; which number that is depends on the machine.
pub fn record_snapshot(
    facts: &FileFacts,
    epoch_seq: u64,
    timestamp: i64,
    path: String,
    sample: Option<(Vec<u8>, Vec<u8>)>,
) -> (v: FileVersion)
    ensures
        v == (FileVersion {
            inode: facts.inode,
            epoch_seq,
            timestamp,
            path,
            size: facts.size,
            mtime: facts.mtime,
            content_hash: v.content_hash,
        }),
        v.content_hash is Some == sample is Some,
        sample matches Some(s) ==> hash_answers(
            facts.size,
            s.0@,
            if facts.size > PARTIAL_HASH_TAIL_FROM {
                s.1@
            } else {
                Seq::empty()
            },
            v.content_hash->0,
        ),
{
    let content_hash: Option<u64> = match sample {
        Some((head, tail)) => Some(
            partial_hash(facts.size, head.as_slice(), hashed_tail(facts.size, tail.as_slice())),
        ),
        None => None,
    };
    version_of(facts, epoch_seq, timestamp, path, content_hash)
}

/// What it takes to go back to a version of a file.
#[derive(Debug, Clone, PartialEq, Eq)]
pub enum Reversion {
    /// The version is the live file: it stays.
    Stay,
    /// The live file gets the contents of the version.
    CopyOver { from: String, to: String },
}

impl Reversion {
    /// What the files hold, by their paths spelled plainly, once this was done.
    pub open spec fn applied(self, files: Map<Seq<char>, Seq<u8>>) -> Map<Seq<char>, Seq<u8>> {
        match self {
            Reversion::Stay => files,
            Reversion::CopyOver { from, to } => files.insert(
                path::spelled(to@),
                files[path::spelled(from@)],
            ),
        }
    }
}

/// Whether `r` takes the live file back to the version.
pub open spec fn is_reversion(r: Reversion, version_path: Seq<char>, live_path: Seq<char>) -> bool {
    if path::same_path(version_path, live_path) {
        r is Stay
    } else {
        r matches Reversion::CopyOver { from, to } && from@ == version_path && to@ == live_path
    }
}

/// What takes a file back to one of its versions: a copy from the version to the
/// live file. The version is only read.
pub fn revert_snapshot(version_path: &str, live_path: &str) -> (res: Result<Reversion, FxcpError>)
    ensures
        res is Ok && is_reversion(res->Ok_0, version_path@, live_path@),
{
    if path::same_path_exec(version_path, live_path) {
        return Ok(Reversion::Stay);
    }
    Ok(Reversion::CopyOver { from: version_path.to_owned(), to: live_path.to_owned() })
}

/// Going back to a version gives the live file what the version holds; the version
/// and every other file stay as they are.
pub proof fn reverting_restores_version(
    r: Reversion,
    version_path: Seq<char>,
    live_path: Seq<char>,
    files: Map<Seq<char>, Seq<u8>>,
)
    requires
        is_reversion(r, version_path, live_path),
        files.contains_key(path::spelled(version_path)),
    ensures
        ({
            let after = r.applied(files);
            &&& after.contains_key(path::spelled(live_path))
            &&& after[path::spelled(live_path)] == files[path::spelled(version_path)]
            &&& after.contains_key(path::spelled(version_path))
            &&& after[path::spelled(version_path)] == files[path::spelled(version_path)]
            &&& forall|p: Seq<char>|
                p != path::spelled(live_path) ==> (#[trigger] after.contains_key(p)
                    == files.contains_key(p) && after[p] == files[p])
        }),
{
    if path::same_path(version_path, live_path) {
        path::one_path_one_spelling(version_path, live_path);
    }
}

/// Committing an epoch needs nothing to be done.
pub fn commit_epoch(_path: &str, _seq: u64, _projid: u32) -> (res: Result<(), FxcpError>)
    ensures
        res is Ok,
{
    Ok(())
}

/// Whether it does no harm that a file's flags could not be set: the file system
/// has none.
pub fn set_file_attr(errno: i32) -> (harmless: bool)
    ensures
        harmless == (errno == EOPNOTSUPP || errno == ENOTTY || errno == EINVAL),
{
    errno == EOPNOTSUPP || errno == ENOTTY || errno == EINVAL
}

/// Whether a path lies within a directory. Both have been made canonical, so
/// that no symbolic link and no `..` is left in them.
pub fn path_within_root(canonical: &str, root: &str) -> (within: bool)
    ensures
        within == path::is_under(canonical@, root@),
{
    path::path_starts_with(canonical, root)
}

/// The canonical form of a path, where it lies within a directory. Otherwise an
/// error that names the path as it was given, the directory, and what the path
/// was resolved to.
pub fn canonicalize_safe(path: &str, root: &str, canonical: String, canonical_root: &str) -> (res:
    Result<String, FxcpError>)
    ensures
        path::is_under(canonical@, canonical_root@) ==> res == Ok::<String, FxcpError>(canonical),
        !path::is_under(canonical@, canonical_root@) ==> (res matches Err(FxcpError::Security(m))
            && m@ == "path "@ + path::debug_text(path@) + " escapes root "@ + path::debug_text(root@)
            + " (resolved to "@ + path::debug_text(canonical@) + ")"@),
{
    if path_within_root(&canonical, canonical_root) {
        return Ok(canonical);
    }
    let mut m = text::concat3("path ", &path::debug_of(path), " escapes root ");
    m.append(&path::debug_of(root));
    m.append(" (resolved to ");
    m.append(&path::debug_of(&canonical));
    m.append(")");
    Err(FxcpError::Security(m))
}

/// What to do when the kernel did not open a file below a directory.
#[derive(Debug)]
pub enum BeneathFailure {
    /// The kernel cannot contain paths: make the path canonical and check it.
    Fallback,
    /// The path leads out of the directory.
    Escapes(FxcpError),
    /// Another error.
    Other(i32),
}

/// What to do when the kernel did not open a file below a directory.
pub fn open_beneath(errno: i32, relative: &str, root: &str) -> (f: BeneathFailure)
    ensures
        errno == ENOSYS ==> f is Fallback,
        errno == EXDEV ==> (f matches BeneathFailure::Escapes(FxcpError::Security(m)) && m@
            == "path "@ + path::debug_text(relative@) + " escapes root "@ + path::debug_text(root@)
            + " (RESOLVE_BENEATH rejected)"@),
        errno != ENOSYS && errno != EXDEV ==> f == BeneathFailure::Other(errno),
{
    if errno == ENOSYS {
        return BeneathFailure::Fallback;
    }
    if errno == EXDEV {
        let mut m = text::concat3("path ", &path::debug_of(relative), " escapes root ");
        m.append(&path::debug_of(root));
        m.append(" (RESOLVE_BENEATH rejected)");
        return BeneathFailure::Escapes(FxcpError::Security(m));
    }
    BeneathFailure::Other(errno)
}

/// How a file is opened.
#[derive(Debug, Clone, Copy, PartialEq, Eq, Structural)]
pub struct OpenMode {
    pub read: bool,
    pub write: bool,
    pub create: bool,
    pub truncate: bool,
}

/// How a file is opened by flags of the system. Reading is always asked for,
/// since the flag for it is zero.
pub fn open_mode(flags: i32) -> (m: OpenMode)
    ensures
        m == (OpenMode {
            read: true,
            write: flags & 1 != 0 || flags & 2 != 0,
            create: flags & 0o100 != 0,
            truncate: flags & 0o1000 != 0,
        }),
{
    OpenMode {
        read: true,
        write: flags & 1 != 0 || flags & 2 != 0,
        create: flags & 0o100 != 0,
        truncate: flags & 0o1000 != 0,
    }
}

/// A path that was accepted stays within the directory: no component of it is
/// outside.
pub proof fn accepted_paths_stay_within(canonical: Seq<char>, root: Seq<char>)
    requires
        path::is_under(canonical, root),
    ensures
        path::components(canonical).len() >= path::components(root).len(),
        forall|i: int|
            0 <= i < path::components(root).len() ==> path::components(canonical)[i]
                == path::components(root)[i],
{
    let n = path::components(root).len() as int;
    assert forall|i: int| 0 <= i < n implies path::components(canonical)[i] == path::components(
        root,
    )[i] by {
        assert(path::components(canonical).subrange(0, n)[i] == path::components(root)[i]);
    }
}

/// A number is stored in eight bytes, and nothing else is one.
pub proof fn stored_numbers_have_eight_bytes(v: Vec<u8>, n: u64)
    ensures
        v@ == bytes::le64(n) ==> stored_number(Some(v)) == Some(n),
        stored_number(Some(v)) is Some <==> v@.len() == 8,
        stored_number(None) is None,
{
    bytes::le64_round_trip(n);
}

/// Without a hash, its guard or a time there is no valid hash.
pub proof fn hash_needs_its_guard(
    hash: Option<Vec<u8>>,
    guard: Option<Vec<u8>>,
    mtime: Option<i64>,
)
    ensures
        hash is None || guard is None || mtime is None ==> valid_hash(hash, guard, mtime) == 0,
        valid_hash(hash, guard, mtime) != 0 ==> stored_number(hash) == Some(
            valid_hash(hash, guard, mtime),
        ) && stored_number(guard) is Some && mtime is Some && mtime->0 == stored_number(
            guard,
        )->0 as i64,
{
}

/// A directory is hashed by its name, by what identifies it and by every entry in order:
/// name, length, time and mode.
pub proof fn every_entry_is_hashed(
    name: Option<Seq<char>>,
    identity: Option<DirIdentity>,
    entries: Seq<DirEntryMeta>,
    n: nat,
    i: int,
)
    requires
        0 <= i < n <= entries.len(),
    ensures
        entry_writes(entries, n).len() == 4 * n,
        entry_writes(entries, n)[4 * i] == vstd::utf8::encode_utf8(entries[i].name@),
        entry_writes(entries, n)[4 * i + 1] == bytes::le64(entries[i].len),
        entry_writes(entries, n)[4 * i + 2] == bytes::le64(entries[i].mtime as u64),
        entry_writes(entries, n)[4 * i + 3] == bytes::le32(entries[i].mode),
        ({
            let head = dir_writes(name, identity, Seq::empty());
            let a = if name is Some {
                1int
            } else {
                0
            };
            &&& dir_writes(name, identity, entries) == head + entry_writes(entries, entries.len())
            &&& head.len() == a + if identity is Some {
                4int
            } else {
                0
            }
            &&& name is Some ==> head[0] == vstd::utf8::encode_utf8(name->0)
            &&& identity matches Some(d) ==> head[a] == bytes::le64(d.ino) && head[a + 1]
                == bytes::le32(d.mode) && head[a + 2] == bytes::le32(d.uid) && head[a + 3]
                == bytes::le32(d.gid)
        }),
    decreases n,
{
    if i < n - 1 {
        every_entry_is_hashed(name, identity, entries, (n - 1) as nat, i);
    } else {
        writes_are_counted(entries, (n - 1) as nat);
    }
    assert(entry_writes(Seq::empty(), 0) =~= Seq::empty());
    let head = dir_writes(name, identity, Seq::empty());
    assert(dir_writes(name, identity, entries) =~= head + entry_writes(entries, entries.len()));
}

proof fn writes_are_counted(entries: Seq<DirEntryMeta>, n: nat)
    ensures
        entry_writes(entries, n).len() == 4 * n,
    decreases n,
{
    if n > 0 {
        writes_are_counted(entries, (n - 1) as nat);
    }
}

/// A snapshot of a file lies in the store below the root, under the file's number, the
/// epoch and the time.
pub proof fn snapshot_lies_in_the_store(root: Seq<char>, inode: u64, epoch: u64, timestamp: i64)
    ensures
        path::components(snapshot_path(root, inode, epoch, timestamp)) == path::components(root)
            + seq![
            ".foxing_versions"@,
            "live"@,
            text::decimal(inode as nat) + seq!['_'] + text::decimal(epoch as nat) + seq!['_']
                + text::signed_decimal(timestamp as int),
        ],
{
    reveal_strlit(".foxing_versions");
    reveal_strlit("live");
    reveal_strlit("_");
    assert("_"@ =~= seq!['_']);
    let dir = path::join(root, ".foxing_versions"@);
    let live = path::join(dir, "live"@);
    path::name_is_one_component(root, ".foxing_versions"@);
    path::name_is_one_component(dir, "live"@);
    let a = text::decimal(inode as nat);
    let b = text::decimal(epoch as nat);
    let c = text::signed_decimal(timestamp as int);
    let name = a + seq!['_'] + b + seq!['_'] + c;
    text::decimal_is_digits(inode as nat);
    text::decimal_is_digits(epoch as nat);
    text::decimal_is_digits(timestamp as nat);
    text::decimal_is_digits((-timestamp) as nat);
    assert forall|j: int| 0 <= j < c.len() implies c[j] != '/' by {
        if timestamp < 0 && j > 0 {
            assert(c[j] == text::decimal((-timestamp) as nat)[j - 1]);
        }
    }
    assert(path::is_plain(name)) by {
        assert forall|j: int| 0 <= j < name.len() implies name[j] != '/' by {
            if j < a.len() {
                assert(name[j] == a[j]);
            } else if a.len() < j < a.len() + 1 + b.len() {
                assert(name[j] == b[j - a.len() - 1]);
            } else if j >= a.len() + b.len() + 2 {
                assert(name[j] == c[j - a.len() - b.len() - 2]);
            }
        }
        assert(name.len() > 1);
    }
    path::name_is_one_component(live, name);
    assert(path::components(root).push(".foxing_versions"@).push("live"@).push(name)
        =~= path::components(root) + seq![".foxing_versions"@, "live"@, name]);
}

/// A snapshot is taken of a plain file that is still the one that was meant, where one was.
pub proof fn only_the_meant_file_is_kept(facts: Option<FileFacts>, expected: u64)
    ensures
        facts is None ==> !can_snapshot(facts, expected),
        facts matches Some(f) ==> (can_snapshot(facts, expected) <==> f.is_file && !(expected != 0
            && f.inode != expected)),
{
}

/// Nothing is copied where both paths name one file; else the version is copied over the
/// live file.
pub proof fn version_is_copied_over(r: Reversion, version_path: Seq<char>, live_path: Seq<char>)
    requires
        is_reversion(r, version_path, live_path),
    ensures
        r is Stay <==> path::components(version_path) == path::components(live_path),
        r matches Reversion::CopyOver { from, to } ==> from@ == version_path && to@ == live_path,
{
}

/// A recorded version tells of the file what was found, and its hash is that of its size, of
/// its beginning and, of a file of more than two samples' bytes, of its end.
pub proof fn recorded_version_tells_the_file(
    facts: &FileFacts,
    epoch_seq: u64,
    timestamp: i64,
    path: String,
    head: Vec<u8>,
    tail: Vec<u8>,
    v: FileVersion,
)
    requires
        call_ensures(record_snapshot, (facts, epoch_seq, timestamp, path, Some((head, tail))), v),
    ensures
        v.inode == facts.inode && v.size == facts.size && v.mtime == facts.mtime,
        v.epoch_seq == epoch_seq && v.timestamp == timestamp && v.path == path,
        v.content_hash is Some,
        facts.size > 131072 ==> hash_answers(facts.size, head@, tail@, v.content_hash->0),
        facts.size <= 131072 ==> hash_answers(facts.size, head@, Seq::empty(), v.content_hash->0),
{
}

/// There is room where the free bytes reach the threshold and a thousand files can be made;
/// what cannot be found out is no obstacle.
pub proof fn room_needs_bytes_and_files(space: Option<FsSpace>, threshold_mb: u64, enough: bool)
    requires
        call_ensures(check_capacity, (space, threshold_mb), enough),
    ensures
        space is None ==> enough,
        space matches Some(s) ==> (enough <==> s.blocks_available * s.block_size >= threshold_mb
            * 1048576 && s.files_available >= 1000),
{
}

/// A path is accepted exactly where it lies below the root, component by component, and is
/// then handed on as it is; else what escapes is told.
pub proof fn escaping_path_is_refused(
    path: &str,
    root: &str,
    canonical: String,
    canonical_root: &str,
    res: Result<String, FxcpError>,
)
    requires
        call_ensures(canonicalize_safe, (path, root, canonical, canonical_root), res),
    ensures
        path::components(canonical_root@).is_prefix_of(path::components(canonical@)) ==> res == Ok::<
            String,
            FxcpError,
        >(canonical),
        !path::components(canonical_root@).is_prefix_of(path::components(canonical@)) ==> res is Err
            && res->Err_0 is Security,
{
    path::under_is_longer(canonical@, canonical_root@);
}

/// A file is taken for unchanged exactly where the marker that was written of it tells the
/// same length, seconds and nanoseconds.
pub proof fn marker_tells_changes(
    len: u64,
    mtime: i64,
    nanos: i64,
    out: Vec<u8>,
    stored: &Option<Vec<u8>>,
    now_len: u64,
    now_mtime: i64,
    now_nanos: i64,
    same: bool,
)
    requires
        call_ensures(write_sync_marker, (len, mtime, nanos), out),
        call_ensures(check_sync_marker, (stored, now_len, now_mtime, now_nanos), same),
        *stored == Some(out),
    ensures
        same <==> len == now_len && mtime == now_mtime && nanos == now_nanos,
{
    marker_round_trip(len, mtime, nanos);
}

/// Without a marker a file is taken for changed; directories are the same only where all
/// that is known of both agrees.
pub proof fn unmarked_file_is_changed(
    stored: &Option<Vec<u8>>,
    len: u64,
    mtime: i64,
    nanos: i64,
    same: bool,
    a: Option<DirMeta>,
    b: Option<DirMeta>,
    synced: bool,
)
    requires
        call_ensures(check_sync_marker, (stored, len, mtime, nanos), same),
        call_ensures(is_dir_metadata_synced, (a, b), synced),
    ensures
        *stored is None ==> !same,
        stored->0@.len() != 24 ==> !same,
        synced <==> a is Some && b is Some && a->0 == b->0,
{
}

/// Every hash that was recorded is one that was given for these bytes.
proof fn hash_was_given(len: u64, head: Seq<u8>, tail: Seq<u8>, h: u64) -> (given: (
    &'static [u8],
    &'static [u8],
))
    requires
        hash_answers(len, head, tail, h),
    ensures
        given.0@ == head,
        given.1@ == tail,
        call_ensures(fx_hash, (len, given.0, given.1), h),
{
    choose|a: &'static [u8], b: &'static [u8]|
        a@ == head && b@ == tail && #[trigger] call_ensures(fx_hash, (len, a, b), h)
}

} // verus!
