//! Reading an archive: its manifest, its index, its chunks, and files out of
//! them. Chunks and files are checked against their BLAKE3 hashes.

use crate::bytes;
use crate::compress;
use crate::error::{FxcpError, IoKind};
use crate::fxar::dedup::{FxarManifest, FxarManifestEntry};
use crate::fxar::records::{self, ChunkIndexEntry, FxarHeader};
use crate::hashing;
use crate::text;
use vstd::prelude::*;
use vstd::string::StringExecFns;

verus! {

/// Free space that a restore leaves untouched.
pub const SPACE_RESERVE: u64 = 10485760;

/// The length of the packed manifest whose lengths stand at `off`.
pub open spec fn manifest_len_at(data: Seq<u8>, off: int) -> int {
    bytes::le64_value(data.subrange(off, off + 8)) as int
}

/// The packed manifest whose lengths stand at `off`, where all of it is there.
pub open spec fn manifest_at(data: Seq<u8>, off: int) -> Option<Seq<u8>> {
    if off + 16 <= data.len() && off + 16 + manifest_len_at(data, off) <= data.len() {
        Some(data.subrange(off + 16, off + 16 + manifest_len_at(data, off)))
    } else {
        None
    }
}

/// Whether `entries` are the index entries that stand at `off`.
pub open spec fn index_at(data: Seq<u8>, off: int, entries: Seq<ChunkIndexEntry>) -> bool {
    &&& entries.len() > 0 ==> off + 48 * entries.len() <= data.len()
    &&& forall|k: int|
        0 <= k < entries.len() ==> (#[trigger] entries[k]).is_decoded(
            data.subrange(off + 48 * k, data.len() as int),
        )
}

/// The packed bytes of a chunk, where all of them are there.
pub open spec fn packed_at(data: Seq<u8>, off: int, len: int) -> Option<Seq<u8>> {
    if len == 0 {
        Some(Seq::empty())
    } else if off + len <= data.len() {
        Some(data.subrange(off, off + len))
    } else {
        None
    }
}

/// The error for a version that cannot be read.
pub open spec fn bad_version(v: u32) -> Seq<char> {
    "unsupported FXAR version: "@ + text::decimal(v as nat)
}

/// Where the packed manifest at `off` begins and ends, where all of it is there.
fn locate_manifest(data: &[u8], off: u64) -> (r: Option<(usize, usize)>)
    ensures
        match manifest_at(data@, off as int) {
            Some(s) => {
                &&& r matches Some((a, b))
                &&& a == off + 16
                &&& b == a + manifest_len_at(data@, off as int)
                &&& b <= data@.len()
                &&& s == data@.subrange(a as int, b as int)
            },
            None => r is None,
        },
{
    let total: u64 = data.len() as u64;
    if off > total || total - off < 16 {
        return None;
    }
    let n: u64 = bytes::get_le64(data, off as usize);
    if n > total - off - 16 {
        return None;
    }
    Some(((off + 16) as usize, (off + 16 + n) as usize))
}

/// The `count` index entries at `off`.
fn read_index(data: &[u8], off: u64, count: u64) -> (res: Result<Vec<ChunkIndexEntry>, FxcpError>)
    ensures
        match res {
            Ok(entries) => entries@.len() == count && index_at(data@, off as int, entries@),
            Err(e) => records::is_cut_off(e) && count > 0 && off + 48 * count > data@.len(),
        },
{
    let total: u64 = data.len() as u64;
    let mut entries: Vec<ChunkIndexEntry> = Vec::new();
    let mut i: u64 = 0;
    let mut pos: u64 = off;
    if count == 0 {
        return Ok(entries);
    }
    if off > total {
        return Err(records::cut_off());
    }
    while i < count
        invariant
            i <= count,
            total == data@.len(),
            off <= total,
            pos == off + 48 * i,
            pos <= total,
            entries@.len() == i,
            forall|k: int|
                0 <= k < i ==> (#[trigger] entries@[k]).is_decoded(
                    data@.subrange(off + 48 * k, data@.len() as int),
                ),
        decreases count - i,
    {
        let rest = vstd::slice::slice_subrange(data, pos as usize, data.len());
        match ChunkIndexEntry::read_from(rest) {
            Err(e) => {
                return Err(e);
            },
            Ok(entry) => {
                entries.push(entry);
            },
        }
        pos = pos + 48;
        i = i + 1;
    }
    Ok(entries)
}

/// Whether a chunk's bytes have the hash that the index gives.
pub open spec fn chunk_ok(flags: u32, packed: Seq<u8>, hash: Seq<u8>) -> bool {
    compress::unpacked(flags, packed) is Some && hashing::blake3(
        compress::unpacked(flags, packed)->0,
    ) == hash
}

/// Whether an error says why a chunk cannot be read: it is not all there, it does
/// not unpack, or it has another hash.
pub open spec fn is_chunk_error(
    e: FxcpError,
    packed: Option<Seq<u8>>,
    flags: u32,
    mismatch: Seq<char>,
) -> bool {
    match packed {
        None => records::is_cut_off(e),
        Some(p) => if compress::unpacked(flags, p) is None {
            compress::is_unpack_error(e, flags, p)
        } else {
            records::is_malformed(e, mismatch)
        },
    }
}

/// Unpacks the chunk at `off` and checks its hash; `Ok(None)` where the hash is
/// another.
fn read_chunk(data: &[u8], off: u64, len: u32, flags: u32, hash: &[u8; 32]) -> (res: Result<
    Option<Vec<u8>>,
    FxcpError,
>)
    ensures
        match packed_at(data@, off as int, len as int) {
            None => res is Err && records::is_cut_off(res->Err_0),
            Some(packed) => match compress::unpacked(flags, packed) {
                None => res is Err && compress::is_unpack_error(res->Err_0, flags, packed),
                Some(d) => if hashing::blake3(d) == hash@ {
                    res is Ok && res->Ok_0 is Some && res->Ok_0->0@ == d
                } else {
                    res is Ok && res->Ok_0 is None
                },
            },
        },
{
    let total: u64 = data.len() as u64;
    if len > 0 && (off > total || len as u64 > total - off) {
        return Err(records::cut_off());
    }
    let (from, to): (usize, usize) = if len == 0 {
        (0, 0)
    } else {
        (off as usize, (off + len as u64) as usize)
    };
    let packed = vstd::slice::slice_subrange(data, from, to);
    assert(packed_at(data@, off as int, len as int) == Some(packed@));
    match compress::decompress_chunk(packed, flags) {
        Err(e) => Err(e),
        Ok(d) => {
            let actual = hashing::blake3_hash(d.as_slice());
            if hashing::same_hash(&actual, hash) {
                Ok(Some(d))
            } else {
                Ok(None)
            }
        },
    }
}

/// An archive and its header.
#[derive(Debug)]
pub struct FxarReader<'a> {
    pub data: &'a [u8],
    pub header: FxarHeader,
}

impl<'a> FxarReader<'a> {
    /// Opens an archive.
    pub fn open(data: &'a [u8]) -> (res: Result<FxarReader<'a>, FxcpError>)
        ensures
            match res {
                Ok(r) => r.data@ == data@ && data@.len() >= 64 && data@.subrange(0, 4)
                    == records::header_magic() && r.header.is_decoded(data@) && r.header.version
                    == records::FXAR_VERSION,
                Err(e) => if data@.len() < 64 {
                    records::is_cut_off(e)
                } else if data@.subrange(0, 4) != records::header_magic() {
                    records::is_malformed(e, "not an FXAR archive"@)
                } else {
                    let v = bytes::le32_value(data@.subrange(4, 8));
                    v != records::FXAR_VERSION && records::is_malformed(e, bad_version(v))
                },
            },
    {
        match FxarHeader::read_from(data) {
            Err(e) => Err(e),
            Ok(header) => {
                if header.version != records::FXAR_VERSION {
                    let n = text::decimal_of(header.version as u64);
                    return Err(
                        records::malformed(
                            text::concat2("unsupported FXAR version: ", n.as_str()),
                        ),
                    );
                }
                Ok(FxarReader { data, header })
            },
        }
    }

    /// The manifest, unpacked.
    pub fn read_manifest(&self) -> (res: Result<Vec<u8>, FxcpError>)
        ensures
            match manifest_at(self.data@, self.header.manifest_offset as int) {
                None => res is Err && records::is_cut_off(res->Err_0),
                Some(packed) => match compress::unpacked(self.header.flags, packed) {
                    Some(json) => res is Ok && res->Ok_0@ == json,
                    None => res is Err && compress::is_unpack_error(
                        res->Err_0,
                        self.header.flags,
                        packed,
                    ),
                },
            },
    {
        match locate_manifest(self.data, self.header.manifest_offset) {
            None => Err(records::cut_off()),
            Some((a, b)) => compress::decompress_chunk(
                vstd::slice::slice_subrange(self.data, a, b),
                self.header.flags,
            ),
        }
    }

    /// The chunk index.
    pub fn read_chunk_index(&self) -> (res: Result<Vec<ChunkIndexEntry>, FxcpError>)
        ensures
            match res {
                Ok(entries) => entries@.len() == self.header.chunk_count && index_at(
                    self.data@,
                    self.header.index_offset as int,
                    entries@,
                ),
                Err(e) => records::is_cut_off(e) && self.header.chunk_count > 0
                    && self.header.index_offset + 48 * self.header.chunk_count > self.data@.len(),
            },
    {
        read_index(self.data, self.header.index_offset, self.header.chunk_count)
    }

    /// The bytes of a chunk, checked against its hash.
    pub fn read_chunk_data(&self, entry: &ChunkIndexEntry) -> (res: Result<Vec<u8>, FxcpError>)
        ensures
            res is Ok == self.chunk_readable(*entry),
            res is Ok ==> res->Ok_0@ == self.chunk_bytes(*entry),
            res is Err ==> self.is_chunk_error(res->Err_0, *entry),
    {
        match read_chunk(
            self.data,
            entry.offset,
            entry.compressed_size,
            self.header.flags,
            &entry.blake3_hash,
        ) {
            Err(e) => Err(e),
            Ok(Some(d)) => Ok(d),
            Ok(None) => {
                let n = text::decimal_of(entry.offset);
                Err(
                    records::malformed(
                        text::concat2("BLAKE3 mismatch for chunk at offset ", n.as_str()),
                    ),
                )
            },
        }
    }

    /// Whether every chunk of the index can be read.
    pub open spec fn chunks_readable(&self, index: Seq<ChunkIndexEntry>, n: int) -> bool {
        forall|k: int|
            0 <= k < n ==> self.chunk_readable(#[trigger] index[k])
    }

    /// Whether a chunk is there, unpacks and has its hash.
    pub open spec fn chunk_readable(&self, e: ChunkIndexEntry) -> bool {
        packed_at(self.data@, e.offset as int, e.compressed_size as int) is Some && chunk_ok(
            self.header.flags,
            packed_at(self.data@, e.offset as int, e.compressed_size as int)->0,
            e.blake3_hash@,
        )
    }

    /// Whether an error says why a chunk cannot be read.
    pub open spec fn is_chunk_error(&self, e: FxcpError, entry: ChunkIndexEntry) -> bool {
        is_chunk_error(
            e,
            packed_at(self.data@, entry.offset as int, entry.compressed_size as int),
            self.header.flags,
            "BLAKE3 mismatch for chunk at offset "@ + text::decimal(entry.offset as nat),
        )
    }

    /// The bytes of a readable chunk.
    pub open spec fn chunk_bytes(&self, e: ChunkIndexEntry) -> Seq<u8> {
        compress::unpacked(
            self.header.flags,
            packed_at(self.data@, e.offset as int, e.compressed_size as int)->0,
        )->0
    }

    /// All chunks of the index.
    pub fn read_all_chunks(&self, index: &Vec<ChunkIndexEntry>) -> (res: Result<
        Vec<Vec<u8>>,
        FxcpError,
    >)
        ensures
            res is Ok == self.chunks_readable(index@, index@.len() as int),
            res is Ok ==> res->Ok_0@.len() == index@.len() && forall|k: int|
                0 <= k < index@.len() ==> (#[trigger] res->Ok_0@[k])@ == self.chunk_bytes(
                    index@[k],
                ),
            res is Err ==> self.is_first_error(res->Err_0, index@),
    {
        let mut store: Vec<Vec<u8>> = Vec::new();
        let mut i: usize = 0;
        while i < index.len()
            invariant
                i <= index@.len(),
                self.chunks_readable(index@, i as int),
                store@.len() == i,
                forall|k: int|
                    0 <= k < i ==> (#[trigger] store@[k])@ == self.chunk_bytes(index@[k]),
            decreases index@.len() - i,
        {
            match self.read_chunk_data(&index[i]) {
                Ok(d) => {
                    store.push(d);
                },
                Err(e) => {
                    assert(!self.chunk_readable(index@[i as int]));
                    return Err(e);
                },
            }
            i = i + 1;
        }
        Ok(store)
    }

    /// Whether an error says why the first of some chunks that cannot be read
    /// cannot be read.
    pub open spec fn is_first_error(&self, e: FxcpError, index: Seq<ChunkIndexEntry>) -> bool {
        exists|k: int|
            #![trigger index[k]]
            0 <= k < index.len() && self.chunks_readable(index, k) && !self.chunk_readable(index[k])
                && self.is_chunk_error(e, index[k])
    }

    /// What restoring all files needs: that there is room for them, where the free
    /// space is known, and all chunks, out of which `assemble_file` makes them.
    pub fn restore_all(&self, files: &Vec<FxarManifestEntry>, available: Option<u64>) -> (res:
        Result<Vec<Vec<u8>>, FxcpError>)
        requires
            restored_size(files@, files@.len()) + SPACE_RESERVE <= u64::MAX,
        ensures
            match res {
                Ok(store) => {
                    &&& has_space(files@, available)
                    &&& exists|index: Seq<ChunkIndexEntry>|
                        #![trigger self.has_index(index)]
                        self.has_index(index) && self.chunks_readable(index, index.len() as int)
                            && store@.len() == index.len() && forall|k: int|
                            0 <= k < index.len() ==> (#[trigger] store@[k])@ == self.chunk_bytes(
                                index[k],
                            )
                },
                Err(e) => if !has_space(files@, available) {
                    is_space_error(e, files@, available)
                } else if self.header.chunk_count > 0 && self.header.index_offset + 48
                    * self.header.chunk_count > self.data@.len() {
                    records::is_cut_off(e)
                } else {
                    exists|index: Seq<ChunkIndexEntry>|
                        #![trigger self.has_index(index)]
                        self.has_index(index) && self.is_first_error(e, index)
                },
            },
    {
        if let Err(e) = check_space(files, available) {
            return Err(e);
        }
        let index = match self.read_chunk_index() {
            Ok(v) => v,
            Err(e) => {
                return Err(e);
            },
        };
        assert(self.has_index(index@));
        self.read_all_chunks(&index)
    }

    /// Whether entries are the index of the archive.
    pub open spec fn has_index(&self, index: Seq<ChunkIndexEntry>) -> bool {
        index.len() == self.header.chunk_count && index_at(
            self.data@,
            self.header.index_offset as int,
            index,
        )
    }

    /// The files of the archive, out of its manifest.
    pub fn list_files(&self, manifest: FxarManifest) -> (files: Vec<FxarManifestEntry>)
        ensures
            files == manifest.files,
    {
        manifest.files
    }

    /// A file of the archive by its path: the bytes of its chunks, checked
    /// against the file's hash.
    pub fn restore_file(
        &self,
        manifest: &FxarManifest,
        index: &Vec<ChunkIndexEntry>,
        file_path: &str,
    ) -> (res: Result<Vec<u8>, FxcpError>)
        requires
            first_file(manifest.files@, file_path@, 0) matches Some(f) ==> chunks_known(
                manifest.files@[f],
                index@.len(),
            ),
        ensures
            match first_file(manifest.files@, file_path@, 0) {
                None => res is Err && (res->Err_0 matches FxcpError::Io { kind, errno, message }
                    && kind == IoKind::NotFound && errno is None && message@
                    == "file not found in archive"@),
                Some(f) => {
                    let file = manifest.files@[f];
                    let used = used_entries(index@, file.chunks@);
                    if self.chunks_readable(used, used.len() as int) {
                        let d = self.used_bytes(used, used.len());
                        if hash_matches(file, d) {
                            res is Ok && res->Ok_0@ == d
                        } else {
                            res is Err && records::is_malformed(
                                res->Err_0,
                                "file BLAKE3 mismatch for "@ + file_path@,
                            )
                        }
                    } else {
                        res is Err && self.is_first_error(res->Err_0, used)
                    }
                },
            },
    {
        let mut f: usize = 0;
        while f < manifest.files.len() && !text::same_text(
            manifest.files[f].path.as_str(),
            file_path,
        )
            invariant
                f <= manifest.files@.len(),
                first_file(manifest.files@, file_path@, 0) == first_file(
                    manifest.files@,
                    file_path@,
                    f as int,
                ),
            decreases manifest.files@.len() - f,
        {
            f = f + 1;
        }
        if f == manifest.files.len() {
            return Err(
                FxcpError::Io {
                    kind: IoKind::NotFound,
                    errno: None,
                    message: "file not found in archive".to_owned(),
                },
            );
        }
        let file = &manifest.files[f];
        let ghost used = used_entries(index@, file.chunks@);
        assert(chunks_known(manifest.files@[f as int], index@.len()));
        let mut data: Vec<u8> = Vec::new();
        let mut j: usize = 0;
        while j < file.chunks.len()
            invariant
                j <= file.chunks@.len(),
                chunks_known(*file, index@.len()),
                used == used_entries(index@, file.chunks@),
                first_file(manifest.files@, file_path@, 0) == Some(f as int),
                *file == manifest.files@[f as int],
                self.chunks_readable(used, j as int),
                data@ == self.used_bytes(used, j as nat),
            decreases file.chunks@.len() - j,
        {
            let at: u64 = file.chunks[j];
            assert(index.len() == index@.len());
            assert(used[j as int] == index@[at as int]);
            match self.read_chunk_data(&index[at as usize]) {
                Ok(d) => {
                    bytes::put_slice(&mut data, d.as_slice());
                },
                Err(e) => {
                    assert(!self.chunk_readable(used[j as int]));
                    return Err(e);
                },
            }
            j = j + 1;
        }
        if file_hash_matches(file, data.as_slice()) {
            Ok(data)
        } else {
            Err(records::malformed(text::concat2("file BLAKE3 mismatch for ", file_path)))
        }
    }

    /// The bytes of the first `n` of some readable chunks.
    pub open spec fn used_bytes(&self, used: Seq<ChunkIndexEntry>, n: nat) -> Seq<u8>
        decreases n,
    {
        if n == 0 {
            Seq::empty()
        } else {
            self.used_bytes(used, (n - 1) as nat) + self.chunk_bytes(used[n - 1])
        }
    }
}

/// The index entries of a file's chunks.
pub open spec fn used_entries(index: Seq<ChunkIndexEntry>, chunks: Seq<u64>) -> Seq<
    ChunkIndexEntry,
> {
    Seq::new(chunks.len(), |j: int| index[chunks[j] as int])
}

/// The first file of this path, from the `i`th on.
pub open spec fn first_file(files: Seq<FxarManifestEntry>, path: Seq<char>, i: int) -> Option<int>
    decreases files.len() - i,
{
    if 0 <= i < files.len() {
        if files[i].path@ == path {
            Some(i)
        } else {
            first_file(files, path, i + 1)
        }
    } else {
        None
    }
}

/// Whether all chunk numbers of a file are those of chunks.
pub open spec fn chunks_known(file: FxarManifestEntry, count: nat) -> bool {
    forall|j: int| 0 <= j < file.chunks@.len() ==> (#[trigger] file.chunks@[j]) < count
}

/// Whether all chunk numbers of all files are those of chunks.
pub fn all_chunks_known(files: &Vec<FxarManifestEntry>, count: usize) -> (b: bool)
    ensures
        b == forall|f: int| 0 <= f < files@.len() ==> chunks_known(#[trigger] files@[f], count as nat),
{
    let mut f: usize = 0;
    while f < files.len()
        invariant
            f <= files@.len(),
            forall|g: int| 0 <= g < f ==> chunks_known(#[trigger] files@[g], count as nat),
        decreases files@.len() - f,
    {
        let file = &files[f];
        let mut j: usize = 0;
        while j < file.chunks.len()
            invariant
                j <= file.chunks@.len(),
                f < files@.len(),
                *file == files@[f as int],
                forall|k: int| 0 <= k < j ==> (#[trigger] file.chunks@[k]) < count,
            decreases file.chunks@.len() - j,
        {
            if file.chunks[j] >= count as u64 {
                assert(!chunks_known(files@[f as int], count as nat));
                return false;
            }
            j = j + 1;
        }
        f = f + 1;
    }
    true
}

/// Whether bytes have the hash that the manifest gives for a file.
pub open spec fn hash_matches(file: FxarManifestEntry, data: Seq<u8>) -> bool {
    compress::is_hex(file.blake3@) && compress::unhex(file.blake3@) == hashing::blake3(data)
}

/// Whether bytes have the hash that the manifest gives for a file.
pub fn file_hash_matches(file: &FxarManifestEntry, data: &[u8]) -> (b: bool)
    ensures
        b == hash_matches(*file, data@),
{
    let actual = hashing::blake3_hash(data);
    match compress::hex_decode(file.blake3.as_str()) {
        Some(expected) => bytes::same_bytes(actual.as_slice(), expected.as_slice()),
        None => false,
    }
}

/// The bytes of the first `n` chunks of a file.
pub open spec fn file_bytes(store: Seq<Vec<u8>>, chunks: Seq<u64>, n: nat) -> Seq<u8>
    decreases n,
{
    if n == 0 {
        Seq::empty()
    } else {
        file_bytes(store, chunks, (n - 1) as nat) + store[chunks[n - 1] as int]@
    }
}

/// Puts a file together from unpacked chunks; nothing where the result does not
/// have the file's hash.
pub fn assemble_file(file: &FxarManifestEntry, store: &Vec<Vec<u8>>) -> (res: Option<Vec<u8>>)
    requires
        chunks_known(*file, store@.len()),
    ensures
        ({
            let d = file_bytes(store@, file.chunks@, file.chunks@.len());
            if hash_matches(*file, d) {
                res is Some && res->0@ == d
            } else {
                res is None
            }
        }),
{
    let mut data: Vec<u8> = Vec::new();
    let mut j: usize = 0;
    while j < file.chunks.len()
        invariant
            j <= file.chunks@.len(),
            chunks_known(*file, store@.len()),
            data@ == file_bytes(store@, file.chunks@, j as nat),
        decreases file.chunks@.len() - j,
    {
        let at: u64 = file.chunks[j];
        assert(store.len() == store@.len());
        bytes::put_slice(&mut data, store[at as usize].as_slice());
        j = j + 1;
    }
    if file_hash_matches(file, data.as_slice()) {
        Some(data)
    } else {
        None
    }
}

/// What an import came to.
#[derive(Debug, Clone, Copy, PartialEq, Eq, Structural)]
pub struct FxarImportStats {
    pub files_restored: u64,
    pub bytes_restored: u64,
    pub chunks_verified: u64,
    pub chunks_failed: u64,
}

impl Default for FxarImportStats {
    fn default() -> (s: Self)
        ensures
            s.files_restored == 0 && s.bytes_restored == 0 && s.chunks_verified == 0
                && s.chunks_failed == 0,
    {
        FxarImportStats {
            files_restored: 0,
            bytes_restored: 0,
            chunks_verified: 0,
            chunks_failed: 0,
        }
    }
}

impl FxarImportStats {
    /// Takes note of a file: its chunks count as looked at; the file counts as
    /// restored with its size, or as one failure where it did not have its hash
    /// or could not be written.
    pub fn note_file(&mut self, file: &FxarManifestEntry, written: bool)
        requires
            old(self).chunks_verified + file.chunks@.len() <= u64::MAX,
            old(self).files_restored < u64::MAX,
            old(self).chunks_failed < u64::MAX,
            old(self).bytes_restored + file.size <= u64::MAX,
        ensures
            final(self).chunks_verified == old(self).chunks_verified + file.chunks@.len(),
            if written {
                &&& final(self).files_restored == old(self).files_restored + 1
                &&& final(self).bytes_restored == old(self).bytes_restored + file.size
                &&& final(self).chunks_failed == old(self).chunks_failed
            } else {
                &&& final(self).files_restored == old(self).files_restored
                &&& final(self).bytes_restored == old(self).bytes_restored
                &&& final(self).chunks_failed == old(self).chunks_failed + 1
            },
    {
        assert(file.chunks.len() == file.chunks@.len());
        self.chunks_verified = self.chunks_verified + file.chunks.len() as u64;
        if written {
            self.files_restored = self.files_restored + 1;
            self.bytes_restored = self.bytes_restored + file.size;
        } else {
            self.chunks_failed = self.chunks_failed + 1;
        }
    }
}

/// The size of the first `n` files.
pub open spec fn restored_size(files: Seq<FxarManifestEntry>, n: nat) -> nat
    decreases n,
{
    if n == 0 {
        0
    } else {
        restored_size(files, (n - 1) as nat) + files[n - 1].size as nat
    }
}

proof fn restored_size_grows(files: Seq<FxarManifestEntry>, i: nat, n: nat)
    requires
        i <= n,
    ensures
        restored_size(files, i) <= restored_size(files, n),
    decreases n - i,
{
    if i < n {
        restored_size_grows(files, i, (n - 1) as nat);
    }
}

/// Whether there is room for all files and a reserve, as far as the free space is
/// known.
pub open spec fn has_space(files: Seq<FxarManifestEntry>, available: Option<u64>) -> bool {
    available matches Some(n) ==> n >= restored_size(files, files.len()) + SPACE_RESERVE
}

/// Whether an error says how much room there is, and how much is needed.
pub open spec fn is_space_error(
    e: FxcpError,
    files: Seq<FxarManifestEntry>,
    available: Option<u64>,
) -> bool {
    &&& e matches FxcpError::Io { kind, errno, message }
    &&& kind == IoKind::Other
    &&& errno is None
    &&& message@ == "insufficient disk space: "@ + text::decimal(available->0 as nat)
        + " bytes available, "@ + text::decimal(
        restored_size(files, files.len()) + SPACE_RESERVE as nat,
    ) + " bytes needed"@
}

/// Checks that there is room for all files and a reserve, where the free space
/// is known.
pub fn check_space(files: &Vec<FxarManifestEntry>, available: Option<u64>) -> (res: Result<
    (),
    FxcpError,
>)
    requires
        restored_size(files@, files@.len()) + SPACE_RESERVE <= u64::MAX,
    ensures
        res is Ok == has_space(files@, available),
        res is Err ==> is_space_error(res->Err_0, files@, available),
{
    let mut total: u64 = 0;
    let mut i: usize = 0;
    while i < files.len()
        invariant
            i <= files@.len(),
            total == restored_size(files@, i as nat),
            restored_size(files@, files@.len()) + SPACE_RESERVE <= u64::MAX,
        decreases files@.len() - i,
    {
        proof {
            restored_size_grows(files@, (i + 1) as nat, files@.len());
        }
        total = total + files[i].size;
        i = i + 1;
    }
    let needed: u64 = total + SPACE_RESERVE;
    match available {
        Some(n) => {
            if n < needed {
                let a = text::decimal_of(n);
                let b = text::decimal_of(needed);
                let mut m = text::concat3(
                    "insufficient disk space: ",
                    a.as_str(),
                    " bytes available, ",
                );
                m.append(b.as_str());
                m.append(" bytes needed");
                return Err(FxcpError::Io { kind: IoKind::Other, errno: None, message: m });
            }
            Ok(())
        },
        None => Ok(()),
    }
}

/// An archive that is read from front to back: its header, its unpacked
/// manifest, and where the index begins.
#[derive(Debug)]
pub struct StreamStart {
    pub header: FxarHeader,
    pub manifest: Vec<u8>,
    pub index_offset: u64,
}

/// Reads the header and the manifest behind it.
pub fn read_stream_start(data: &[u8]) -> (res: Result<StreamStart, FxcpError>)
    ensures
        match res {
            Ok(s) => {
                &&& data@.len() >= 64
                &&& data@.subrange(0, 4) == records::header_magic()
                &&& s.header.is_decoded(data@)
                &&& s.header.version == records::FXAR_VERSION
                &&& manifest_at(data@, 64) is Some
                &&& compress::unpacked(s.header.flags, manifest_at(data@, 64)->0) == Some(
                    s.manifest@,
                )
                &&& s.index_offset == 80 + manifest_at(data@, 64)->0.len()
            },
            Err(e) => if data@.len() < 64 {
                records::is_cut_off(e)
            } else if data@.subrange(0, 4) != records::header_magic() {
                records::is_malformed(e, "not an FXAR archive"@)
            } else {
                let v = bytes::le32_value(data@.subrange(4, 8));
                if v != records::FXAR_VERSION {
                    records::is_malformed(e, bad_version(v))
                } else if manifest_at(data@, 64) is None {
                    records::is_cut_off(e)
                } else {
                    let flags = bytes::le32_value(data@.subrange(8, 12));
                    compress::unpacked(flags, manifest_at(data@, 64)->0) is None
                        && compress::is_unpack_error(e, flags, manifest_at(data@, 64)->0)
                }
            },
        },
{
    match FxarReader::open(data) {
        Err(e) => Err(e),
        Ok(reader) => match locate_manifest(data, 64) {
            None => Err(records::cut_off()),
            Some((a, b)) => match compress::decompress_chunk(
                vstd::slice::slice_subrange(data, a, b),
                reader.header.flags,
            ) {
                Err(e) => Err(e),
                Ok(manifest) => Ok(
                    StreamStart { header: reader.header, manifest, index_offset: b as u64 },
                ),
            },
        },
    }
}

/// How much room the first `n` chunks of an index take.
pub open spec fn packed_size(index: Seq<ChunkIndexEntry>, n: nat) -> nat
    decreases n,
{
    if n == 0 {
        0
    } else {
        packed_size(index, (n - 1) as nat) + index[n - 1].compressed_size as nat
    }
}

/// The packed bytes of the `k`th chunk of a stream whose chunks begin at
/// `start`.
pub open spec fn stream_packed(data: Seq<u8>, start: int, index: Seq<ChunkIndexEntry>, k: int) -> Option<
    Seq<u8>,
> {
    packed_at(data, start + packed_size(index, k as nat), index[k].compressed_size as int)
}

/// Whether the `k`th chunk of a stream is there, unpacks and has its hash.
pub open spec fn stream_chunk_ok(
    data: Seq<u8>,
    flags: u32,
    start: int,
    index: Seq<ChunkIndexEntry>,
    k: int,
) -> bool {
    stream_packed(data, start, index, k) is Some && chunk_ok(
        flags,
        stream_packed(data, start, index, k)->0,
        index[k].blake3_hash@,
    )
}

/// Whether the `k`th chunk of a stream is the first that cannot be read, and `e`
/// says why.
pub open spec fn stream_error(
    data: Seq<u8>,
    flags: u32,
    start: int,
    index: Seq<ChunkIndexEntry>,
    k: int,
    e: FxcpError,
) -> bool {
    &&& 0 <= k < index.len()
    &&& forall|j: int| 0 <= j < k ==> #[trigger] stream_chunk_ok(data, flags, start, index, j)
    &&& !stream_chunk_ok(data, flags, start, index, k)
    &&& is_chunk_error(
        e,
        stream_packed(data, start, index, k),
        flags,
        "chunk BLAKE3 mismatch at index "@ + text::decimal(k as nat),
    )
}

/// The index and the chunks behind it, in the order in which they are stored.
pub fn read_stream_chunks(data: &[u8], flags: u32, index_offset: u64, count: u64) -> (res: Result<
    (Vec<ChunkIndexEntry>, Vec<Vec<u8>>),
    FxcpError,
>)
    ensures
        match res {
            Ok((index, chunks)) => {
                let start = index_offset + 48 * count;
                &&& index@.len() == count
                &&& index_at(data@, index_offset as int, index@)
                &&& chunks@.len() == count
                &&& forall|k: int|
                    0 <= k < count ==> #[trigger] stream_chunk_ok(data@, flags, start, index@, k)
                &&& forall|k: int|
                    0 <= k < count ==> (#[trigger] chunks@[k])@ == compress::unpacked(
                        flags,
                        stream_packed(data@, start, index@, k)->0,
                    )->0
            },
            Err(e) => {
                ||| records::is_cut_off(e) && count > 0 && index_offset + 48 * count > data@.len()
                ||| exists|index: Seq<ChunkIndexEntry>, k: int|
                    #![trigger stream_error(data@, flags, index_offset + 48 * count, index, k, e)]
                    index.len() == count && index_at(data@, index_offset as int, index)
                        && stream_error(data@, flags, index_offset + 48 * count, index, k, e)
            },
        },
{
    let index = match read_index(data, index_offset, count) {
        Err(e) => {
            return Err(e);
        },
        Ok(v) => v,
    };
    let ghost start = index_offset + 48 * count;
    assert(data.len() == data@.len());
    let mut pos: u64 = index_offset + 48 * count;
    let mut chunks: Vec<Vec<u8>> = Vec::new();
    let mut i: usize = 0;
    while i < index.len()
        invariant
            i <= index@.len(),
            index@.len() == count,
            index_at(data@, index_offset as int, index@),
            start == index_offset + 48 * count,
            data@.len() <= u64::MAX,
            pos == start + packed_size(index@, i as nat),
            count > 0 ==> pos <= data@.len(),
            chunks@.len() == i,
            forall|k: int|
                0 <= k < i ==> #[trigger] stream_chunk_ok(data@, flags, start, index@, k),
            forall|k: int|
                0 <= k < i ==> (#[trigger] chunks@[k])@ == compress::unpacked(
                    flags,
                    stream_packed(data@, start, index@, k)->0,
                )->0,
        decreases index@.len() - i,
    {
        let entry = &index[i];
        match read_chunk(data, pos, entry.compressed_size, flags, &entry.blake3_hash) {
            Err(e) => {
                assert(stream_error(data@, flags, start, index@, i as int, e));
                return Err(e);
            },
            Ok(None) => {
                let n = text::decimal_of(i as u64);
                let e = records::malformed(
                    text::concat2("chunk BLAKE3 mismatch at index ", n.as_str()),
                );
                assert(stream_error(data@, flags, start, index@, i as int, e));
                return Err(e);
            },
            Ok(Some(d)) => {
                chunks.push(d);
                assert(stream_packed(data@, start, index@, i as int) == packed_at(
                    data@,
                    pos as int,
                    index@[i as int].compressed_size as int,
                ));
                assert(stream_chunk_ok(data@, flags, start, index@, i as int));
            },
        }
        pos = pos + entry.compressed_size as u64;
        i = i + 1;
    }
    Ok((index, chunks))
}

/// Whether all chunks of a stream can be read.
pub open spec fn stream_readable(data: Seq<u8>, flags: u32, index_offset: int, count: int) -> bool {
    exists|index: Seq<ChunkIndexEntry>|
        #![trigger index_at(data, index_offset, index)]
        index.len() == count && index_at(data, index_offset, index) && forall|k: int|
            0 <= k < count ==> #[trigger] stream_chunk_ok(
                data,
                flags,
                index_offset + 48 * count,
                index,
                k,
            )
}

/// What restoring all files of a stream needs: all its chunks, out of which
/// `assemble_file` makes them, and that there is room for them, where the free
/// space is known.
pub fn read_archive_stream(
    data: &[u8],
    start: &StreamStart,
    files: &Vec<FxarManifestEntry>,
    available: Option<u64>,
) -> (res: Result<Vec<Vec<u8>>, FxcpError>)
    requires
        restored_size(files@, files@.len()) + SPACE_RESERVE <= u64::MAX,
    ensures
        ({
            let flags = start.header.flags;
            let count = start.header.chunk_count;
            let at = start.index_offset + 48 * count;
            match res {
                Ok(store) => {
                    &&& has_space(files@, available)
                    &&& exists|index: Seq<ChunkIndexEntry>|
                        #![trigger index_at(data@, start.index_offset as int, index)]
                        index.len() == count && index_at(data@, start.index_offset as int, index)
                            && store@.len() == count && forall|k: int|
                            #![trigger store@[k]]
                            0 <= k < count ==> stream_chunk_ok(data@, flags, at, index, k)
                                && store@[k]@ == compress::unpacked(
                                flags,
                                stream_packed(data@, at, index, k)->0,
                            )->0
                },
                Err(e) => if count > 0 && at > data@.len() {
                    records::is_cut_off(e)
                } else {
                    ||| exists|index: Seq<ChunkIndexEntry>, k: int|
                        #![trigger stream_error(data@, flags, at, index, k, e)]
                        index.len() == count && index_at(data@, start.index_offset as int, index)
                            && stream_error(data@, flags, at, index, k, e)
                    ||| stream_readable(data@, flags, start.index_offset as int, count as int)
                        && !has_space(files@, available) && is_space_error(e, files@, available)
                },
            }
        }),
{
    match read_stream_chunks(data, start.header.flags, start.index_offset, start.header.chunk_count) {
        Err(e) => Err(e),
        Ok((index, chunks)) => {
            assert(index_at(data@, start.index_offset as int, index@));
            assert(stream_readable(
                data@,
                start.header.flags,
                start.index_offset as int,
                start.header.chunk_count as int,
            ));
            match check_space(files, available) {
                Err(e) => Err(e),
                Ok(_) => {
                    assert forall|k: int| 0 <= k < start.header.chunk_count implies stream_chunk_ok(
                        data@,
                        start.header.flags,
                        start.index_offset + 48 * start.header.chunk_count,
                        index@,
                        k,
                    ) && (#[trigger] chunks@[k])@ == compress::unpacked(
                        start.header.flags,
                        stream_packed(
                            data@,
                            start.index_offset + 48 * start.header.chunk_count,
                            index@,
                            k,
                        )->0,
                    )->0 by {
                        assert(stream_chunk_ok(
                            data@,
                            start.header.flags,
                            start.index_offset + 48 * start.header.chunk_count,
                            index@,
                            k,
                        ));
                    }
                    Ok(chunks)
                },
            }
        },
    }
}

/// The attributes of a file that can be restored, among the first `n`: those whose
/// values are hexadecimal.
pub open spec fn restorable(attrs: Seq<(String, String)>, n: nat) -> Seq<(Seq<char>, Seq<u8>)>
    decreases n,
{
    if n == 0 {
        Seq::empty()
    } else if compress::is_hex(attrs[n - 1].1@) {
        restorable(attrs, (n - 1) as nat).push(
            (attrs[n - 1].0@, compress::unhex(attrs[n - 1].1@)),
        )
    } else {
        restorable(attrs, (n - 1) as nat)
    }
}

/// Attributes as plain values.
pub open spec fn attribute_values(v: Seq<(String, Vec<u8>)>) -> Seq<(Seq<char>, Seq<u8>)> {
    Seq::new(v.len(), |i: int| (v[i].0@, v[i].1@))
}

/// The attributes of a file that can be restored.
pub fn attributes_of(file: &FxarManifestEntry) -> (out: Vec<(String, Vec<u8>)>)
    ensures
        attribute_values(out@) == restorable(file.xattr@, file.xattr@.len()),
{
    let mut out: Vec<(String, Vec<u8>)> = Vec::new();
    let mut i: usize = 0;
    assert(attribute_values(out@) =~= Seq::empty());
    while i < file.xattr.len()
        invariant
            i <= file.xattr@.len(),
            attribute_values(out@) == restorable(file.xattr@, i as nat),
        decreases file.xattr@.len() - i,
    {
        let ghost before = out@;
        if let Some(v) = compress::hex_decode(file.xattr[i].1.as_str()) {
            out.push((file.xattr[i].0.clone(), v));
            assert(attribute_values(out@) =~= attribute_values(before).push(
                (file.xattr@[i as int].0@, v@),
            ));
        }
        i = i + 1;
    }
    out
}

/// What an archive holds.
#[derive(Debug)]
pub struct FxarInspectResult {
    pub version: u32,
    pub snapshots: Vec<String>,
    pub total_files: u64,
    pub unique_files: u64,
    pub total_apparent_bytes: u64,
    pub chunk_count: u64,
    pub total_chunk_bytes: u64,
    pub total_compressed_bytes: u64,
    pub files: Vec<FxarManifestEntry>,
}

/// The unpacked size of the first `n` chunks of an index.
pub open spec fn plain_size(index: Seq<ChunkIndexEntry>, n: nat) -> nat
    decreases n,
{
    if n == 0 {
        0
    } else {
        plain_size(index, (n - 1) as nat) + index[n - 1].size as nat
    }
}

proof fn index_sizes_grow(index: Seq<ChunkIndexEntry>, i: nat, n: nat)
    requires
        i <= n,
    ensures
        plain_size(index, i) <= plain_size(index, n),
        packed_size(index, i) <= packed_size(index, n),
    decreases n - i,
{
    if i < n {
        index_sizes_grow(index, i, (n - 1) as nat);
    }
}

/// The hashes of files, as they stand in the manifest.
pub open spec fn file_hashes(files: Seq<FxarManifestEntry>) -> Seq<Seq<char>> {
    Seq::new(files.len(), |i: int| files[i].blake3@)
}

/// How many different hashes files have.
fn count_unique(files: &Vec<FxarManifestEntry>) -> (n: u64)
    ensures
        n == file_hashes(files@).to_set().len(),
{
    let ghost hs = file_hashes(files@);
    let mut seen: Vec<String> = Vec::new();
    let mut i: usize = 0;
    assert(text::texts(seen@).to_set() =~= hs.subrange(0, 0).to_set());
    while i < files.len()
        invariant
            i <= files@.len(),
            hs == file_hashes(files@),
            text::texts(seen@).no_duplicates(),
            text::texts(seen@).to_set() == hs.subrange(0, i as int).to_set(),
        decreases files@.len() - i,
    {
        let p: usize = text::position_of(&seen, files[i].blake3.as_str());
        let ghost before = text::texts(seen@);
        let ghost h = hs[i as int];
        proof {
            text_position(before, h, 0);
            assert(hs.subrange(0, i + 1) =~= hs.subrange(0, i as int).push(h));
            push_to_set(hs.subrange(0, i as int), h);
        }
        if p == seen.len() {
            seen.push(files[i].blake3.clone());
            proof {
                assert(text::texts(seen@) =~= before.push(h));
                push_to_set(before, h);
            }
        } else {
            proof {
                assert(before.contains(h));
                assert(before.to_set().contains(h));
                assert(before.to_set().insert(h) =~= before.to_set());
            }
        }
        i = i + 1;
    }
    proof {
        assert(hs.subrange(0, i as int) =~= hs);
        text::texts(seen@).unique_seq_to_set();
    }
    assert(seen.len() == seen@.len());
    seen.len() as u64
}

proof fn push_to_set(s: Seq<Seq<char>>, x: Seq<char>)
    ensures
        s.push(x).to_set() == s.to_set().insert(x),
{
    let t = s.push(x);
    assert forall|y: Seq<char>| t.to_set().contains(y) == s.to_set().insert(x).contains(y) by {
        if t.contains(y) {
            let k = choose|k: int| 0 <= k < t.len() && t[k] == y;
            if k < s.len() {
                assert(s[k] == y);
            }
        }
        if s.contains(y) {
            let k = choose|k: int| 0 <= k < s.len() && s[k] == y;
            assert(t[k] == y);
        }
        assert(t[s.len() as int] == x);
    }
    assert(t.to_set() =~= s.to_set().insert(x));
}

proof fn text_position(list: Seq<Seq<char>>, t: Seq<char>, i: int)
    requires
        0 <= i <= list.len(),
    ensures
        i <= text::find_text(list, t, i) <= list.len(),
        text::find_text(list, t, i) < list.len() ==> list[text::find_text(list, t, i)] == t,
        text::find_text(list, t, i) == list.len() ==> forall|k: int|
            i <= k < list.len() ==> list[k] != t,
    decreases list.len() - i,
{
    if i < list.len() && list[i] != t {
        text_position(list, t, i + 1);
    }
}

/// Sums up an archive: its version, what its manifest lists and what its index
/// lists.
pub fn inspect_archive(version: u32, manifest: FxarManifest, index: &Vec<ChunkIndexEntry>) -> (r:
    FxarInspectResult)
    requires
        restored_size(manifest.files@, manifest.files@.len()) <= u64::MAX,
        plain_size(index@, index@.len()) <= u64::MAX,
        packed_size(index@, index@.len()) <= u64::MAX,
    ensures
        r.version == version,
        r.snapshots == manifest.snapshots,
        r.total_files == manifest.files@.len(),
        r.unique_files == file_hashes(manifest.files@).to_set().len(),
        r.total_apparent_bytes == restored_size(manifest.files@, manifest.files@.len()),
        r.chunk_count == index@.len(),
        r.total_chunk_bytes == plain_size(index@, index@.len()),
        r.total_compressed_bytes == packed_size(index@, index@.len()),
        r.files == manifest.files,
{
    let mut apparent: u64 = 0;
    let mut i: usize = 0;
    while i < manifest.files.len()
        invariant
            i <= manifest.files@.len(),
            restored_size(manifest.files@, manifest.files@.len()) <= u64::MAX,
            apparent == restored_size(manifest.files@, i as nat),
        decreases manifest.files@.len() - i,
    {
        proof {
            restored_size_grows(manifest.files@, (i + 1) as nat, manifest.files@.len());
        }
        apparent = apparent + manifest.files[i].size;
        i = i + 1;
    }
    let mut plain: u64 = 0;
    let mut packed: u64 = 0;
    let mut j: usize = 0;
    while j < index.len()
        invariant
            j <= index@.len(),
            plain_size(index@, index@.len()) <= u64::MAX,
            packed_size(index@, index@.len()) <= u64::MAX,
            plain == plain_size(index@, j as nat),
            packed == packed_size(index@, j as nat),
        decreases index@.len() - j,
    {
        proof {
            index_sizes_grow(index@, (j + 1) as nat, index@.len());
        }
        plain = plain + index[j].size as u64;
        packed = packed + index[j].compressed_size as u64;
        j = j + 1;
    }
    let unique_files: u64 = count_unique(&manifest.files);
    assert(manifest.files.len() == manifest.files@.len());
    assert(index.len() == index@.len());
    FxarInspectResult {
        version,
        snapshots: manifest.snapshots,
        total_files: manifest.files.len() as u64,
        unique_files,
        total_apparent_bytes: apparent,
        chunk_count: index.len() as u64,
        total_chunk_bytes: plain,
        total_compressed_bytes: packed,
        files: manifest.files,
    }
}

/// What is read at a place is there only where all of it is: the manifest behind its two
/// lengths, and the bytes of a chunk.
pub proof fn what_is_cut_is_not_read(data: Seq<u8>, off: int, len: int)
    requires
        0 <= off,
        0 <= len,
    ensures
        manifest_at(data, off) is None <==> data.len() < off + 16 || data.len() < off + 16
            + bytes::le64_value(data.subrange(off, off + 8)),
        manifest_at(data, off) matches Some(m) ==> m == data.subrange(
            off + 16,
            off + 16 + bytes::le64_value(data.subrange(off, off + 8)),
        ),
        packed_at(data, off, len) is None <==> len > 0 && data.len() < off + len,
        packed_at(data, off, len) matches Some(p) ==> p.len() == len && (len > 0 ==> p
            == data.subrange(off, off + len)),
{
}

/// What is wrong with a chunk is told: that it is cut off, that it does not unpack, or that
/// it has another hash.
pub proof fn broken_chunk_is_told(
    e: FxcpError,
    packed: Option<Seq<u8>>,
    flags: u32,
    mismatch: Seq<char>,
    v: u32,
)
    requires
        is_chunk_error(e, packed, flags, mismatch),
    ensures
        packed is None ==> records::is_cut_off(e),
        packed matches Some(p) ==> (compress::unpacked(flags, p) is Some ==> records::is_malformed(
            e,
            mismatch,
        )) && (compress::unpacked(flags, p) is None ==> compress::is_unpack_error(e, flags, p)),
        bad_version(v) == "unsupported FXAR version: "@ + text::decimal(v as nat),
{
}

/// The index is read entry by entry, one every forty-eight bytes, and only whole.
pub proof fn index_is_read_whole(data: Seq<u8>, off: int, entries: Seq<ChunkIndexEntry>, k: int)
    requires
        index_at(data, off, entries),
        0 <= off,
        0 <= k < entries.len(),
    ensures
        off + 48 * entries.len() <= data.len(),
        entries[k].blake3_hash@ == data.subrange(off + 48 * k, off + 48 * k + 32),
        entries[k].size == bytes::le32_value(data.subrange(off + 48 * k + 32, off + 48 * k + 36)),
        entries[k].offset == bytes::le64_value(data.subrange(off + 48 * k + 36, off + 48 * k + 44)),
        entries[k].compressed_size == bytes::le32_value(
            data.subrange(off + 48 * k + 44, off + 48 * k + 48),
        ),
{
    let p = off + 48 * k;
    let rest = data.subrange(p, data.len() as int);
    assert(entries[k].is_decoded(rest));
    assert(rest.subrange(0, 32) =~= data.subrange(p, p + 32));
    assert(rest.subrange(32, 36) =~= data.subrange(p + 32, p + 36));
    assert(rest.subrange(36, 44) =~= data.subrange(p + 36, p + 44));
    assert(rest.subrange(44, 48) =~= data.subrange(p + 44, p + 48));
}

/// Chunks are readable where each of them is; the error that is told is that of the first
/// that is not.
pub proof fn first_broken_chunk_is_told(r: FxarReader, index: Seq<ChunkIndexEntry>, e: FxcpError)
    ensures
        r.chunks_readable(index, index.len() as int) <==> forall|k: int|
            0 <= k < index.len() ==> r.chunk_readable(#[trigger] index[k]),
        r.is_first_error(e, index) ==> exists|k: int|
            0 <= k < index.len() && !r.chunk_readable(#[trigger] index[k]) && r.is_chunk_error(
                e,
                index[k],
            ) && forall|j: int| 0 <= j < k ==> r.chunk_readable(#[trigger] index[j]),
        r.has_index(index) <==> index.len() == r.header.chunk_count && index_at(
            r.data@,
            r.header.index_offset as int,
            index,
        ),
{
    if r.is_first_error(e, index) {
        let k = choose|k: int|
            #![trigger index[k]]
            0 <= k < index.len() && r.chunks_readable(index, k) && !r.chunk_readable(index[k])
                && r.is_chunk_error(e, index[k]);
        assert(!r.chunk_readable(index[k]));
    }
}

/// A chunk of a stream stands behind those before it, and is right where it unpacks to
/// bytes of its hash.
pub proof fn stream_chunks_follow_each_other(
    data: Seq<u8>,
    flags: u32,
    start: int,
    index: Seq<ChunkIndexEntry>,
    k: int,
)
    requires
        0 <= k < index.len(),
        0 <= start,
    ensures
        ({
            let at = start + packed_size(index, k as nat);
            let n = index[k].compressed_size as int;
            let there = n == 0 || at + n <= data.len();
            let packed = if n == 0 {
                Seq::empty()
            } else {
                data.subrange(at, at + n)
            };
            &&& stream_packed(data, start, index, k) is Some <==> there
            &&& there ==> stream_packed(data, start, index, k) == Some(packed)
            &&& stream_chunk_ok(data, flags, start, index, k) <==> there && compress::unpacked(
                flags,
                packed,
            ) is Some && hashing::blake3(compress::unpacked(flags, packed)->0)
                == index[k].blake3_hash@
        }),
{
}

/// The broken chunk of a stream is the first that is not right, and is told by its number.
pub proof fn broken_stream_chunk_is_told(
    data: Seq<u8>,
    flags: u32,
    start: int,
    index: Seq<ChunkIndexEntry>,
    k: int,
    e: FxcpError,
)
    requires
        stream_error(data, flags, start, index, k, e),
    ensures
        0 <= k < index.len(),
        !stream_chunk_ok(data, flags, start, index, k),
        forall|j: int| 0 <= j < k ==> #[trigger] stream_chunk_ok(data, flags, start, index, j),
        stream_packed(data, start, index, k) is None ==> records::is_cut_off(e),
        stream_packed(data, start, index, k) matches Some(p) ==> compress::unpacked(flags, p) is Some
            ==> records::is_malformed(
            e,
            "chunk BLAKE3 mismatch at index "@ + text::decimal(k as nat),
        ),
{
}

/// Where the room does not suffice, both what there is and what is needed are told.
pub proof fn missing_room_is_told(
    e: FxcpError,
    files: Seq<FxarManifestEntry>,
    available: Option<u64>,
    v: Seq<(String, Vec<u8>)>,
    file: FxarManifestEntry,
    count: nat,
)
    requires
        is_space_error(e, files, available),
    ensures
        e is Io && e->kind == IoKind::Other && e->errno is None,
        e->Io_message@ == "insufficient disk space: "@ + text::decimal(available->0 as nat)
            + " bytes available, "@ + text::decimal(restored_size(files, files.len()) + 10485760)
            + " bytes needed"@,
        attribute_values(v).len() == v.len(),
        forall|i: int| 0 <= i < v.len() ==> #[trigger] attribute_values(v)[i] == (v[i].0@, v[i].1@),
        file_hashes(files).len() == files.len(),
        forall|i: int| 0 <= i < files.len() ==> #[trigger] file_hashes(files)[i] == files[i].blake3@,
        chunks_known(file, count) <==> forall|j: int|
            0 <= j < file.chunks@.len() ==> (#[trigger] file.chunks@[j]) < count,
{
}

/// A file is put together only where its bytes have its hash, and is then its chunks in
/// order.
pub proof fn assembled_file_has_its_hash(
    file: &FxarManifestEntry,
    store: &Vec<Vec<u8>>,
    res: Option<Vec<u8>>,
)
    requires
        call_ensures(assemble_file, (file, store), res),
    ensures
        res matches Some(d) ==> d@ == file_bytes(store@, file.chunks@, file.chunks@.len())
            && compress::is_hex(file.blake3@) && compress::unhex(file.blake3@) == hashing::blake3(
            d@,
        ),
        res is None ==> !(compress::is_hex(file.blake3@) && compress::unhex(file.blake3@)
            == hashing::blake3(file_bytes(store@, file.chunks@, file.chunks@.len()))),
{
}

/// A file that was written counts with its bytes, one that was not as a failure; its chunks
/// count either way.
pub proof fn every_restored_file_is_counted(
    s: &mut FxarImportStats,
    file: &FxarManifestEntry,
    written: bool,
)
    requires
        call_ensures(FxarImportStats::note_file, (s, file, written), ()),
    ensures
        final(s).chunks_verified == old(s).chunks_verified + file.chunks@.len(),
        final(s).files_restored == old(s).files_restored + if written {
            1int
        } else {
            0
        },
        final(s).chunks_failed == old(s).chunks_failed + if written {
            0int
        } else {
            1
        },
        final(s).bytes_restored == old(s).bytes_restored + if written {
            file.size as int
        } else {
            0
        },
{
}

/// An archive is opened exactly where its header is whole, starts as one and is of the
/// version that is known.
pub proof fn only_archives_are_opened(data: &[u8], res: Result<FxarReader, FxcpError>)
    requires
        call_ensures(FxarReader::open, (data,), res),
    ensures
        res is Ok <==> data@.len() >= 64 && data@.subrange(0, 4) == seq![
            'F' as u8,
            'X' as u8,
            'A' as u8,
            'R' as u8,
        ] && bytes::le32_value(data@.subrange(4, 8)) == 2,
        res matches Ok(r) ==> r.data@ == data@,
{
    assert(records::header_magic() =~= seq!['F' as u8, 'X' as u8, 'A' as u8, 'R' as u8]);
}

} // verus!
