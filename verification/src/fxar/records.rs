//! The fixed-size records of an archive, in little-endian bytes.

use crate::bytes;
use crate::chunker::GearChunker;
use crate::error::{FxcpError, IoKind};
use vstd::prelude::*;

verus! {

pub const FXAR_VERSION: u32 = 2;

pub const HEADER_SIZE: usize = 64;

pub const CHUNK_INDEX_ENTRY_SIZE: usize = 48;

pub const FOOTER_SIZE: usize = 32;

/// "FXAR".
pub open spec fn header_magic() -> Seq<u8> {
    seq![0x46u8, 0x58u8, 0x41u8, 0x52u8]
}

/// "FXAF".
pub open spec fn footer_magic() -> Seq<u8> {
    seq![0x46u8, 0x58u8, 0x41u8, 0x46u8]
}

/// The error for a record that is cut off.
pub open spec fn is_cut_off(e: FxcpError) -> bool {
    e matches FxcpError::Io { kind, errno, message } && kind == IoKind::UnexpectedEof && errno is None
        && message@ == "failed to fill whole buffer"@
}

/// The error for a record that is not what it should be.
pub open spec fn is_malformed(e: FxcpError, what: Seq<char>) -> bool {
    e matches FxcpError::Io { kind, errno, message } && kind == IoKind::InvalidData && errno is None
        && message@ == what
}

pub(crate) fn cut_off() -> (e: FxcpError)
    ensures
        is_cut_off(e),
{
    FxcpError::Io {
        kind: IoKind::UnexpectedEof,
        errno: None,
        message: "failed to fill whole buffer".to_owned(),
    }
}

pub(crate) fn malformed(what: String) -> (e: FxcpError)
    ensures
        is_malformed(e, what@),
{
    FxcpError::Io { kind: IoKind::InvalidData, errno: None, message: what }
}

/// The header of an archive.
#[derive(Debug, Clone, Copy)]
pub struct FxarHeader {
    pub magic: [u8; 4],
    pub version: u32,
    pub flags: u32,
    pub chunk_min: u32,
    pub chunk_max: u32,
    pub chunk_avg: u32,
    pub index_offset: u64,
    pub index_size: u64,
    pub manifest_offset: u64,
    pub manifest_size: u64,
    pub chunk_count: u64,
}

impl FxarHeader {
    /// The header's 64 bytes.
    pub open spec fn encoded(&self) -> Seq<u8> {
        self.magic@ + bytes::le32(self.version) + bytes::le32(self.flags) + bytes::le32(
            self.chunk_min,
        ) + bytes::le32(self.chunk_max) + bytes::le32(self.chunk_avg) + bytes::le64(
            self.index_offset,
        ) + bytes::le64(self.index_size) + bytes::le64(self.manifest_offset) + bytes::le64(
            self.manifest_size,
        ) + bytes::le64(self.chunk_count)
    }

    /// Whether the first 64 bytes of `b` are this header.
    pub open spec fn is_decoded(&self, b: Seq<u8>) -> bool {
        &&& self.magic@ == b.subrange(0, 4)
        &&& self.version == bytes::le32_value(b.subrange(4, 8))
        &&& self.flags == bytes::le32_value(b.subrange(8, 12))
        &&& self.chunk_min == bytes::le32_value(b.subrange(12, 16))
        &&& self.chunk_max == bytes::le32_value(b.subrange(16, 20))
        &&& self.chunk_avg == bytes::le32_value(b.subrange(20, 24))
        &&& self.index_offset == bytes::le64_value(b.subrange(24, 32))
        &&& self.index_size == bytes::le64_value(b.subrange(32, 40))
        &&& self.manifest_offset == bytes::le64_value(b.subrange(40, 48))
        &&& self.manifest_size == bytes::le64_value(b.subrange(48, 56))
        &&& self.chunk_count == bytes::le64_value(b.subrange(56, 64))
    }

    /// A header without offsets, for chunks of the chunker's sizes (the low 32
    /// bits of them).
    pub fn new(flags: u32, chunker: &GearChunker) -> (h: FxarHeader)
        ensures
            h.magic@ == header_magic(),
            h.version == FXAR_VERSION,
            h.flags == flags,
            h.chunk_min == chunker.min as u32,
            h.chunk_max == chunker.max as u32,
            h.chunk_avg == chunker.avg as u32,
            h.index_offset == 0 && h.index_size == 0,
            h.manifest_offset == 0 && h.manifest_size == 0,
            h.chunk_count == 0,
    {
        let magic: [u8; 4] = [0x46, 0x58, 0x41, 0x52];
        assert(magic@ =~= header_magic());
        FxarHeader {
            magic,
            version: FXAR_VERSION,
            flags,
            chunk_min: chunker.min as u32,
            chunk_max: chunker.max as u32,
            chunk_avg: chunker.avg as u32,
            index_offset: 0,
            index_size: 0,
            manifest_offset: 0,
            manifest_size: 0,
            chunk_count: 0,
        }
    }

    /// Appends the header's bytes.
    pub fn write_to(&self, w: &mut Vec<u8>)
        ensures
            final(w)@ == old(w)@ + self.encoded(),
            self.encoded().len() == 64,
    {
        let ghost before = w@;
        bytes::put_slice(w, self.magic.as_slice());
        bytes::put_le32(w, self.version);
        bytes::put_le32(w, self.flags);
        bytes::put_le32(w, self.chunk_min);
        bytes::put_le32(w, self.chunk_max);
        bytes::put_le32(w, self.chunk_avg);
        bytes::put_le64(w, self.index_offset);
        bytes::put_le64(w, self.index_size);
        bytes::put_le64(w, self.manifest_offset);
        bytes::put_le64(w, self.manifest_size);
        bytes::put_le64(w, self.chunk_count);
        assert(w@ =~= before + self.encoded());
    }

    /// The header at the start of `r`.
    pub fn read_from(r: &[u8]) -> (res: Result<FxarHeader, FxcpError>)
        ensures
            if r@.len() < 64 {
                res is Err && is_cut_off(res->Err_0)
            } else if r@.subrange(0, 4) != header_magic() {
                res is Err && is_malformed(res->Err_0, "not an FXAR archive"@)
            } else {
                res is Ok && res->Ok_0.is_decoded(r@)
            },
    {
        if r.len() < HEADER_SIZE {
            return Err(cut_off());
        }
        let magic: [u8; 4] = [r[0], r[1], r[2], r[3]];
        assert(magic@ =~= r@.subrange(0, 4));
        if !(r[0] == 0x46 && r[1] == 0x58 && r[2] == 0x41 && r[3] == 0x52) {
            proof {
                let m = header_magic();
                assert(m[0] == 0x46 && m[1] == 0x58 && m[2] == 0x41 && m[3] == 0x52);
                assert(r@.subrange(0, 4) != m);
            }
            return Err(malformed("not an FXAR archive".to_owned()));
        }
        assert(magic@ =~= header_magic());
        Ok(
            FxarHeader {
                magic,
                version: bytes::get_le32(r, 4),
                flags: bytes::get_le32(r, 8),
                chunk_min: bytes::get_le32(r, 12),
                chunk_max: bytes::get_le32(r, 16),
                chunk_avg: bytes::get_le32(r, 20),
                index_offset: bytes::get_le64(r, 24),
                index_size: bytes::get_le64(r, 32),
                manifest_offset: bytes::get_le64(r, 40),
                manifest_size: bytes::get_le64(r, 48),
                chunk_count: bytes::get_le64(r, 56),
            },
        )
    }
}

/// Six runs of four bytes and five of eight, put together, are found where they
/// were put.
proof fn header_parts(w: Seq<Seq<u8>>, d: Seq<Seq<u8>>, after: Seq<u8>)
    requires
        w.len() == 6 && d.len() == 5,
        forall|i: int| 0 <= i < 6 ==> (#[trigger] w[i]).len() == 4,
        forall|i: int| 0 <= i < 5 ==> (#[trigger] d[i]).len() == 8,
    ensures
        ({
            let all = w[0] + w[1] + w[2] + w[3] + w[4] + w[5] + d[0] + d[1] + d[2] + d[3] + d[4];
            let b = all + after;
            &&& all.len() == 64
            &&& b.subrange(0, 4) == w[0]
            &&& b.subrange(4, 8) == w[1]
            &&& b.subrange(8, 12) == w[2]
            &&& b.subrange(12, 16) == w[3]
            &&& b.subrange(16, 20) == w[4]
            &&& b.subrange(20, 24) == w[5]
            &&& b.subrange(24, 32) == d[0]
            &&& b.subrange(32, 40) == d[1]
            &&& b.subrange(40, 48) == d[2]
            &&& b.subrange(48, 56) == d[3]
            &&& b.subrange(56, 64) == d[4]
        }),
{
    let all = w[0] + w[1] + w[2] + w[3] + w[4] + w[5] + d[0] + d[1] + d[2] + d[3] + d[4];
    let b = all + after;
    assert(b.subrange(0, 4) =~= w[0]);
    assert(b.subrange(4, 8) =~= w[1]);
    assert(b.subrange(8, 12) =~= w[2]);
    assert(b.subrange(12, 16) =~= w[3]);
    assert(b.subrange(16, 20) =~= w[4]);
    assert(b.subrange(20, 24) =~= w[5]);
    assert(b.subrange(24, 32) =~= d[0]);
    assert(b.subrange(32, 40) =~= d[1]);
    assert(b.subrange(40, 48) =~= d[2]);
    assert(b.subrange(48, 56) =~= d[3]);
    assert(b.subrange(56, 64) =~= d[4]);
}

/// A header is read back as it was written, whatever follows it.
pub proof fn header_round_trip(h: FxarHeader, after: Seq<u8>)
    ensures
        h.encoded().len() == 64,
        h.is_decoded(h.encoded() + after),
{
    bytes::le32_round_trip(h.version);
    bytes::le32_round_trip(h.flags);
    bytes::le32_round_trip(h.chunk_min);
    bytes::le32_round_trip(h.chunk_max);
    bytes::le32_round_trip(h.chunk_avg);
    bytes::le64_round_trip(h.index_offset);
    bytes::le64_round_trip(h.index_size);
    bytes::le64_round_trip(h.manifest_offset);
    bytes::le64_round_trip(h.manifest_size);
    bytes::le64_round_trip(h.chunk_count);
    let w = seq![
        h.magic@,
        bytes::le32(h.version),
        bytes::le32(h.flags),
        bytes::le32(h.chunk_min),
        bytes::le32(h.chunk_max),
        bytes::le32(h.chunk_avg),
    ];
    let d = seq![
        bytes::le64(h.index_offset),
        bytes::le64(h.index_size),
        bytes::le64(h.manifest_offset),
        bytes::le64(h.manifest_size),
        bytes::le64(h.chunk_count),
    ];
    header_parts(w, d, after);
}

/// The bytes of a header tell it apart from every other.
pub proof fn decoded_header_is_unique(a: FxarHeader, b: FxarHeader, s: Seq<u8>)
    requires
        a.is_decoded(s),
        b.is_decoded(s),
    ensures
        a == b,
{
    assert(a.magic =~= b.magic);
}

/// Where a chunk is stored.
#[derive(Debug, Clone, Copy)]
pub struct ChunkIndexEntry {
    pub blake3_hash: [u8; 32],
    pub size: u32,
    pub offset: u64,
    pub compressed_size: u32,
}

impl ChunkIndexEntry {
    /// The entry's 48 bytes.
    pub open spec fn encoded(&self) -> Seq<u8> {
        self.blake3_hash@ + bytes::le32(self.size) + bytes::le64(self.offset) + bytes::le32(
            self.compressed_size,
        )
    }

    /// Whether the first 48 bytes of `b` are this entry.
    pub open spec fn is_decoded(&self, b: Seq<u8>) -> bool {
        &&& self.blake3_hash@ == b.subrange(0, 32)
        &&& self.size == bytes::le32_value(b.subrange(32, 36))
        &&& self.offset == bytes::le64_value(b.subrange(36, 44))
        &&& self.compressed_size == bytes::le32_value(b.subrange(44, 48))
    }

    /// Appends the entry's bytes.
    pub fn write_to(&self, w: &mut Vec<u8>)
        ensures
            final(w)@ == old(w)@ + self.encoded(),
            self.encoded().len() == 48,
    {
        let ghost before = w@;
        bytes::put_slice(w, self.blake3_hash.as_slice());
        bytes::put_le32(w, self.size);
        bytes::put_le64(w, self.offset);
        bytes::put_le32(w, self.compressed_size);
        assert(w@ =~= before + self.encoded());
    }

    /// The entry at the start of `r`.
    pub fn read_from(r: &[u8]) -> (res: Result<ChunkIndexEntry, FxcpError>)
        ensures
            if r@.len() < 48 {
                res is Err && is_cut_off(res->Err_0)
            } else {
                res is Ok && res->Ok_0.is_decoded(r@)
            },
    {
        if r.len() < CHUNK_INDEX_ENTRY_SIZE {
            return Err(cut_off());
        }
        let blake3_hash = hash_at(r, 0);
        Ok(
            ChunkIndexEntry {
                blake3_hash,
                size: bytes::get_le32(r, 32),
                offset: bytes::get_le64(r, 36),
                compressed_size: bytes::get_le32(r, 44),
            },
        )
    }
}

/// The 32 bytes of `r` at `at`.
pub fn hash_at(r: &[u8], at: usize) -> (h: [u8; 32])
    requires
        at + 32 <= r@.len(),
    ensures
        h@ == r@.subrange(at as int, at + 32),
{
    assert(r.len() == r@.len());
    let mut h: [u8; 32] = [0u8; 32];
    let mut i: usize = 0;
    while i < 32
        invariant
            i <= 32,
            at + 32 <= r@.len(),
            r@.len() <= usize::MAX,
            forall|k: int| 0 <= k < i ==> h@[k] == r@[at + k],
        decreases 32 - i,
    {
        h[i] = r[at + i];
        i = i + 1;
    }
    assert(h@ =~= r@.subrange(at as int, at + 32));
    h
}

/// An index entry is read back as it was written, whatever follows it.
pub proof fn entry_round_trip(e: ChunkIndexEntry, after: Seq<u8>)
    ensures
        e.encoded().len() == 48,
        e.is_decoded(e.encoded() + after),
{
    let b = e.encoded() + after;
    bytes::le32_round_trip(e.size);
    bytes::le64_round_trip(e.offset);
    bytes::le32_round_trip(e.compressed_size);
    assert(b.subrange(0, 32) =~= e.blake3_hash@);
    assert(b.subrange(32, 36) =~= bytes::le32(e.size));
    assert(b.subrange(36, 44) =~= bytes::le64(e.offset));
    assert(b.subrange(44, 48) =~= bytes::le32(e.compressed_size));
}

/// The bytes of an index entry tell it apart from every other.
pub proof fn decoded_entry_is_unique(a: ChunkIndexEntry, b: ChunkIndexEntry, s: Seq<u8>)
    requires
        a.is_decoded(s),
        b.is_decoded(s),
    ensures
        a == b,
{
    assert(a.blake3_hash =~= b.blake3_hash);
}

/// What follows the chunks of an archive that was written as a stream.
#[derive(Debug, Clone, Copy)]
pub struct FxarFooter {
    pub magic: [u8; 4],
    pub manifest_offset: u64,
    pub index_offset: u64,
    pub chunk_count: u64,
    pub checksum: u32,
}

/// The low and the high half of a number.
pub open spec fn low_half(v: u64) -> int {
    v as int % 0x1_0000_0000
}

pub open spec fn high_half(v: u64) -> int {
    v as int / 0x1_0000_0000
}

/// The sum, modulo 2^32, of the footer's magic bytes and of the two halves of
/// each of its three numbers.
pub open spec fn footer_checksum(manifest_offset: u64, index_offset: u64, chunk_count: u64) -> int {
    (0x46 + 0x58 + 0x41 + 0x46 + low_half(manifest_offset) + high_half(manifest_offset) + low_half(
        index_offset,
    ) + high_half(index_offset) + low_half(chunk_count) + high_half(chunk_count)) % 0x1_0000_0000
}

impl FxarFooter {
    /// The footer's 32 bytes.
    pub open spec fn encoded(&self) -> Seq<u8> {
        self.magic@ + bytes::le64(self.manifest_offset) + bytes::le64(self.index_offset)
            + bytes::le64(self.chunk_count) + bytes::le32(self.checksum)
    }

    /// Whether the first 32 bytes of `b` are this footer.
    pub open spec fn is_decoded(&self, b: Seq<u8>) -> bool {
        &&& self.magic@ == b.subrange(0, 4)
        &&& self.manifest_offset == bytes::le64_value(b.subrange(4, 12))
        &&& self.index_offset == bytes::le64_value(b.subrange(12, 20))
        &&& self.chunk_count == bytes::le64_value(b.subrange(20, 28))
        &&& self.checksum == bytes::le32_value(b.subrange(28, 32))
    }

    /// A footer with its checksum.
    pub fn new(manifest_offset: u64, index_offset: u64, chunk_count: u64) -> (f: FxarFooter)
        ensures
            f.magic@ == footer_magic(),
            f.manifest_offset == manifest_offset,
            f.index_offset == index_offset,
            f.chunk_count == chunk_count,
            f.checksum == footer_checksum(manifest_offset, index_offset, chunk_count),
    {
        let magic: [u8; 4] = [0x46, 0x58, 0x41, 0x46];
        assert(magic@ =~= footer_magic());
        FxarFooter {
            magic,
            manifest_offset,
            index_offset,
            chunk_count,
            checksum: Self::compute_checksum(manifest_offset, index_offset, chunk_count),
        }
    }

    /// The checksum of a footer with these numbers.
    pub fn compute_checksum(manifest_offset: u64, index_offset: u64, chunk_count: u64) -> (c: u32)
        ensures
            c == footer_checksum(manifest_offset, index_offset, chunk_count),
    {
        let sum: u64 = 0x46 + 0x58 + 0x41 + 0x46 + manifest_offset % 0x1_0000_0000
            + manifest_offset / 0x1_0000_0000 + index_offset % 0x1_0000_0000 + index_offset
            / 0x1_0000_0000 + chunk_count % 0x1_0000_0000 + chunk_count / 0x1_0000_0000;
        (sum % 0x1_0000_0000) as u32
    }

    /// Appends the footer's bytes.
    pub fn write_to(&self, w: &mut Vec<u8>)
        ensures
            final(w)@ == old(w)@ + self.encoded(),
            self.encoded().len() == 32,
    {
        let ghost before = w@;
        bytes::put_slice(w, self.magic.as_slice());
        bytes::put_le64(w, self.manifest_offset);
        bytes::put_le64(w, self.index_offset);
        bytes::put_le64(w, self.chunk_count);
        bytes::put_le32(w, self.checksum);
        assert(w@ =~= before + self.encoded());
    }

    /// The footer at the start of `r`. Its checksum is read, not checked.
    pub fn read_from(r: &[u8]) -> (res: Result<FxarFooter, FxcpError>)
        ensures
            if r@.len() < 32 {
                res is Err && is_cut_off(res->Err_0)
            } else if r@.subrange(0, 4) != footer_magic() {
                res is Err && is_malformed(res->Err_0, "invalid FXAR footer"@)
            } else {
                res is Ok && res->Ok_0.is_decoded(r@)
            },
    {
        if r.len() < FOOTER_SIZE {
            return Err(cut_off());
        }
        let magic: [u8; 4] = [r[0], r[1], r[2], r[3]];
        assert(magic@ =~= r@.subrange(0, 4));
        if !(r[0] == 0x46 && r[1] == 0x58 && r[2] == 0x41 && r[3] == 0x46) {
            proof {
                let m = footer_magic();
                assert(m[0] == 0x46 && m[1] == 0x58 && m[2] == 0x41 && m[3] == 0x46);
                assert(r@.subrange(0, 4) != m);
            }
            return Err(malformed("invalid FXAR footer".to_owned()));
        }
        assert(magic@ =~= footer_magic());
        Ok(
            FxarFooter {
                magic,
                manifest_offset: bytes::get_le64(r, 4),
                index_offset: bytes::get_le64(r, 12),
                chunk_count: bytes::get_le64(r, 20),
                checksum: bytes::get_le32(r, 28),
            },
        )
    }
}

/// A footer is read back as it was written, whatever follows it.
pub proof fn footer_round_trip(f: FxarFooter, after: Seq<u8>)
    ensures
        f.encoded().len() == 32,
        f.is_decoded(f.encoded() + after),
{
    let b = f.encoded() + after;
    bytes::le64_round_trip(f.manifest_offset);
    bytes::le64_round_trip(f.index_offset);
    bytes::le64_round_trip(f.chunk_count);
    bytes::le32_round_trip(f.checksum);
    assert(b.subrange(0, 4) =~= f.magic@);
    assert(b.subrange(4, 12) =~= bytes::le64(f.manifest_offset));
    assert(b.subrange(12, 20) =~= bytes::le64(f.index_offset));
    assert(b.subrange(20, 28) =~= bytes::le64(f.chunk_count));
    assert(b.subrange(28, 32) =~= bytes::le32(f.checksum));
}

/// Whether four bytes start a compressed stream: Zstandard, gzip, xz or LZ4.
pub open spec fn starts_compressed(m: Seq<u8>) -> bool {
    ||| m[0] == 0x28 && m[1] == 0xB5 && m[2] == 0x2F && m[3] == 0xFD
    ||| m[0] == 0x1F && m[1] == 0x8B
    ||| m[0] == 0xFD && m[1] == 0x37 && m[2] == 0x7A && m[3] == 0x58
    ||| m[0] == 0x04 && m[1] == 0x22 && m[2] == 0x4D && m[3] == 0x18
}

/// The name of the format that four bytes introduce. A tar archive starts with
/// the name of a file, which can be nearly anything: it is told from what it is
/// not, an archive of this format or a compressed stream.
pub open spec fn format_name(m: Seq<u8>) -> Seq<char> {
    if m == header_magic() {
        "fxar2"@
    } else if starts_compressed(m) {
        "unknown"@
    } else {
        "tar"@
    }
}

/// The format of what starts with the bytes of `r`, and the four bytes that were
/// looked at.
pub fn detect_format(r: &[u8]) -> (res: Result<(&'static str, [u8; 4]), FxcpError>)
    ensures
        if r@.len() < 4 {
            res is Err && is_cut_off(res->Err_0)
        } else {
            res is Ok && res->Ok_0.1@ == r@.subrange(0, 4) && res->Ok_0.0@ == format_name(
                r@.subrange(0, 4),
            )
        },
{
    if r.len() < 4 {
        return Err(cut_off());
    }
    let magic: [u8; 4] = [r[0], r[1], r[2], r[3]];
    assert(magic@ =~= r@.subrange(0, 4));
    proof {
        let m = header_magic();
        assert(m[0] == 0x46 && m[1] == 0x58 && m[2] == 0x41 && m[3] == 0x52);
        if magic@[0] == 0x46 && magic@[1] == 0x58 && magic@[2] == 0x41 && magic@[3] == 0x52 {
            assert(magic@ =~= m);
        }
    }
    let name = if magic[0] == 0x46 && magic[1] == 0x58 && magic[2] == 0x41 && magic[3] == 0x52 {
        "fxar2"
    } else if magic[0] == 0x28 && magic[1] == 0xB5 && magic[2] == 0x2F && magic[3] == 0xFD {
        "unknown"
    } else if magic[0] == 0x1F && magic[1] == 0x8B {
        "unknown"
    } else if magic[0] == 0xFD && magic[1] == 0x37 && magic[2] == 0x7A && magic[3] == 0x58 {
        "unknown"
    } else if magic[0] == 0x04 && magic[1] == 0x22 && magic[2] == 0x4D && magic[3] == 0x18 {
        "unknown"
    } else {
        "tar"
    };
    Ok((name, magic))
}

/// The fields of a header stand one behind the other: what it is, its version, how chunks
/// are packed and cut, where index and manifest are and how many chunks there are.
pub proof fn header_fields_have_their_places(h: FxarHeader)
    ensures
        ({
            let b = h.encoded();
            &&& b.len() == 64
            &&& b.subrange(0, 4) == h.magic@
            &&& b.subrange(4, 8) == bytes::le32(h.version)
            &&& b.subrange(8, 12) == bytes::le32(h.flags)
            &&& b.subrange(12, 16) == bytes::le32(h.chunk_min)
            &&& b.subrange(16, 20) == bytes::le32(h.chunk_max)
            &&& b.subrange(20, 24) == bytes::le32(h.chunk_avg)
            &&& b.subrange(24, 32) == bytes::le64(h.index_offset)
            &&& b.subrange(32, 40) == bytes::le64(h.index_size)
            &&& b.subrange(40, 48) == bytes::le64(h.manifest_offset)
            &&& b.subrange(48, 56) == bytes::le64(h.manifest_size)
            &&& b.subrange(56, 64) == bytes::le64(h.chunk_count)
        }),
{
    let b = h.encoded();
    bytes::le32_round_trip(h.version);
    bytes::le32_round_trip(h.flags);
    bytes::le32_round_trip(h.chunk_min);
    bytes::le32_round_trip(h.chunk_max);
    bytes::le32_round_trip(h.chunk_avg);
    bytes::le64_round_trip(h.index_offset);
    bytes::le64_round_trip(h.index_size);
    bytes::le64_round_trip(h.manifest_offset);
    bytes::le64_round_trip(h.manifest_size);
    bytes::le64_round_trip(h.chunk_count);
    assert(b.subrange(0, 4) =~= h.magic@);
    assert(b.subrange(4, 8) =~= bytes::le32(h.version));
    assert(b.subrange(8, 12) =~= bytes::le32(h.flags));
    assert(b.subrange(12, 16) =~= bytes::le32(h.chunk_min));
    assert(b.subrange(16, 20) =~= bytes::le32(h.chunk_max));
    assert(b.subrange(20, 24) =~= bytes::le32(h.chunk_avg));
    assert(b.subrange(24, 32) =~= bytes::le64(h.index_offset));
    assert(b.subrange(32, 40) =~= bytes::le64(h.index_size));
    assert(b.subrange(40, 48) =~= bytes::le64(h.manifest_offset));
    assert(b.subrange(48, 56) =~= bytes::le64(h.manifest_size));
    assert(b.subrange(56, 64) =~= bytes::le64(h.chunk_count));
}

/// An entry of the index is a hash, a size, a place and the size that is taken there.
pub proof fn entry_fields_have_their_places(e: ChunkIndexEntry)
    ensures
        ({
            let b = e.encoded();
            &&& b.len() == 48
            &&& b.subrange(0, 32) == e.blake3_hash@
            &&& b.subrange(32, 36) == bytes::le32(e.size)
            &&& b.subrange(36, 44) == bytes::le64(e.offset)
            &&& b.subrange(44, 48) == bytes::le32(e.compressed_size)
        }),
{
    let b = e.encoded();
    bytes::le32_round_trip(e.size);
    bytes::le64_round_trip(e.offset);
    bytes::le32_round_trip(e.compressed_size);
    assert(b.subrange(0, 32) =~= e.blake3_hash@);
    assert(b.subrange(32, 36) =~= bytes::le32(e.size));
    assert(b.subrange(36, 44) =~= bytes::le64(e.offset));
    assert(b.subrange(44, 48) =~= bytes::le32(e.compressed_size));
}

/// A footer says where manifest and index are, how many chunks there are, and a checksum of
/// that.
pub proof fn footer_fields_have_their_places(f: FxarFooter)
    ensures
        ({
            let b = f.encoded();
            &&& b.len() == 32
            &&& b.subrange(0, 4) == f.magic@
            &&& b.subrange(4, 12) == bytes::le64(f.manifest_offset)
            &&& b.subrange(12, 20) == bytes::le64(f.index_offset)
            &&& b.subrange(20, 28) == bytes::le64(f.chunk_count)
            &&& b.subrange(28, 32) == bytes::le32(f.checksum)
        }),
{
    let b = f.encoded();
    bytes::le64_round_trip(f.manifest_offset);
    bytes::le64_round_trip(f.index_offset);
    bytes::le64_round_trip(f.chunk_count);
    bytes::le32_round_trip(f.checksum);
    assert(b.subrange(0, 4) =~= f.magic@);
    assert(b.subrange(4, 12) =~= bytes::le64(f.manifest_offset));
    assert(b.subrange(12, 20) =~= bytes::le64(f.index_offset));
    assert(b.subrange(20, 28) =~= bytes::le64(f.chunk_count));
    assert(b.subrange(28, 32) =~= bytes::le32(f.checksum));
}

/// The checksum of a footer is the sum of its mark's bytes and of the halves of its three
/// numbers, without what goes over thirty-two bits.
pub proof fn checksum_adds_the_halves(m: u64, i: u64, c: u64, more: u64)
    ensures
        0 <= footer_checksum(m, i, c) < 0x1_0000_0000,
        footer_checksum(0, 0, 0) == 0x125,
        m as int + i + c + 0x125 < 0x1_0000_0000 ==> footer_checksum(m, i, c) == m + i + c + 0x125,
        footer_checksum(m, i, c) == footer_checksum(i, m, c),
        footer_checksum(m, i, c) == footer_checksum(m, c, i),
        more < 0x1_0000_0000 && high_half(m) + more < 0x1_0000_0000 && m + more * 0x1_0000_0000
            <= u64::MAX ==> footer_checksum((m + more * 0x1_0000_0000) as u64, i, c) == (
        footer_checksum(m, i, c) + more) % 0x1_0000_0000,
{
    if more < 0x1_0000_0000 && high_half(m) + more < 0x1_0000_0000 && m + more * 0x1_0000_0000
        <= u64::MAX {
        let v = (m + more * 0x1_0000_0000) as u64;
        assert(low_half(v) == low_half(m));
        assert(high_half(v) == high_half(m) + more);
    }
}

/// An archive starts with the letters FXAR and its footer with FXAF; what is packed by one
/// of the known compressors is not told, and anything else is taken for a tar.
pub proof fn first_bytes_tell_the_format(m: Seq<u8>)
    requires
        m.len() == 4,
    ensures
        header_magic() == seq!['F' as u8, 'X' as u8, 'A' as u8, 'R' as u8],
        footer_magic() == seq!['F' as u8, 'X' as u8, 'A' as u8, 'F' as u8],
        format_name(m) == "fxar2"@ <==> m == seq!['F' as u8, 'X' as u8, 'A' as u8, 'R' as u8],
        format_name(m) == "unknown"@ <==> m == seq![0x28u8, 0xB5u8, 0x2Fu8, 0xFDu8] || m
            == seq![0xFDu8, 0x37u8, 0x7Au8, 0x58u8] || m == seq![0x04u8, 0x22u8, 0x4Du8, 0x18u8]
            || m.subrange(0, 2) == seq![0x1Fu8, 0x8Bu8],
        format_name(m) == "fxar2"@ || format_name(m) == "unknown"@ || format_name(m) == "tar"@,
{
    reveal_strlit("fxar2");
    reveal_strlit("unknown");
    reveal_strlit("tar");
    assert("fxar2"@.len() == 5 && "unknown"@.len() == 7 && "tar"@.len() == 3);
    let fxar = seq![0x46u8, 0x58u8, 0x41u8, 0x52u8];
    let zstd = seq![0x28u8, 0xB5u8, 0x2Fu8, 0xFDu8];
    let xz = seq![0xFDu8, 0x37u8, 0x7Au8, 0x58u8];
    let lz4 = seq![0x04u8, 0x22u8, 0x4Du8, 0x18u8];
    let gzip = seq![0x1Fu8, 0x8Bu8];
    assert(m.subrange(0, 2)[0] == m[0] && m.subrange(0, 2)[1] == m[1]);
    if m[0] == 0x28 && m[1] == 0xB5 && m[2] == 0x2F && m[3] == 0xFD {
        assert(m =~= zstd);
    }
    if m[0] == 0xFD && m[1] == 0x37 && m[2] == 0x7A && m[3] == 0x58 {
        assert(m =~= xz);
    }
    if m[0] == 0x04 && m[1] == 0x22 && m[2] == 0x4D && m[3] == 0x18 {
        assert(m =~= lz4);
    }
    if m[0] == 0x1F && m[1] == 0x8B {
        assert(m.subrange(0, 2) =~= gzip);
    }
}

/// What is cut off and what is malformed are told apart by the kind of the error.
pub proof fn damage_is_told(e: FxcpError, what: Seq<char>)
    ensures
        is_cut_off(e) <==> e is Io && e->kind == IoKind::UnexpectedEof && e->errno is None
            && e->Io_message@ == "failed to fill whole buffer"@,
        is_malformed(e, what) <==> e is Io && e->kind == IoKind::InvalidData && e->errno is None
            && e->Io_message@ == what,
{
}

} // verus!
