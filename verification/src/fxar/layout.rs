//! The bytes of an archive: header, packed manifest, chunk index, chunks and, in
//! a stream, a footer.

use crate::bytes;
use crate::chunker::GearChunker;
use crate::compress;
use crate::fxar::dedup::{self, DedupTables, FxarExportStats};
use crate::fxar::records::{self, ChunkIndexEntry, FxarFooter, FxarHeader};
use vstd::prelude::*;

verus! {

/// The first `n` blobs, one after the other.
pub open spec fn blob_bytes(blobs: Seq<Vec<u8>>, n: nat) -> Seq<u8>
    decreases n,
{
    if n == 0 {
        Seq::empty()
    } else {
        blob_bytes(blobs, (n - 1) as nat) + blobs[n - 1]@
    }
}

/// The entries of the first `n` chunks, one after the other.
pub open spec fn index_bytes(entries: Seq<ChunkIndexEntry>, n: nat) -> Seq<u8>
    decreases n,
{
    if n == 0 {
        Seq::empty()
    } else {
        index_bytes(entries, (n - 1) as nat) + entries[n - 1].encoded()
    }
}

/// The entries with their chunks' places, the first chunk being stored at
/// `start`.
pub open spec fn placed(
    entries: Seq<ChunkIndexEntry>,
    blobs: Seq<Vec<u8>>,
    start: int,
) -> Seq<ChunkIndexEntry> {
    Seq::new(
        entries.len(),
        |k: int|
            ChunkIndexEntry {
                offset: (start + blob_bytes(blobs, k as nat).len()) as u64,
                ..entries[k]
            },
    )
}

/// Where the chunks of an archive begin.
pub open spec fn data_start(manifest_len: int, count: int) -> int {
    80 + manifest_len + 48 * count
}

/// The header of an archive without offsets, as a stream starts with it.
pub open spec fn is_blank_header(h: FxarHeader, flags: u32, count: int) -> bool {
    let c = dedup::archive_chunker();
    &&& h.magic@ == records::header_magic()
    &&& h.version == records::FXAR_VERSION
    &&& h.flags == flags
    &&& h.chunk_min == c.min
    &&& h.chunk_max == c.max
    &&& h.chunk_avg == c.avg
    &&& h.index_offset == 0 && h.index_size == 0
    &&& h.manifest_offset == 0 && h.manifest_size == 0
    &&& h.chunk_count == count
}

/// A header with the places of manifest and index filled in.
pub open spec fn filled_in(h: FxarHeader, manifest_len: int, count: int) -> FxarHeader {
    FxarHeader {
        manifest_offset: 64,
        manifest_size: manifest_len as u64,
        index_offset: (80 + manifest_len) as u64,
        index_size: (48 * count) as u64,
        ..h
    }
}

/// What lies between the header and the chunks: the length of the packed and of
/// the plain manifest, the packed manifest, and the index.
pub open spec fn middle(manifest: Seq<u8>, plain_len: int, entries: Seq<ChunkIndexEntry>) -> Seq<
    u8,
> {
    bytes::le64(manifest.len() as u64) + bytes::le64(plain_len as u64) + manifest + index_bytes(
        entries,
        entries.len(),
    )
}

/// An archive, but for its chunks.
#[derive(Debug)]
pub struct ArchiveParts {
    /// The header without offsets, and everything up to the first chunk.
    pub head: Vec<u8>,
    /// The header with offsets, for a file that can be gone back in.
    pub header: FxarHeader,
    /// What follows the last chunk: a footer, or nothing.
    pub tail: Vec<u8>,
    /// The size of the whole archive.
    pub total: u64,
}

/// Lays out an archive around a packed manifest and packed chunks.
pub fn lay_out(
    flags: u32,
    manifest: &[u8],
    plain_len: usize,
    entries: &Vec<ChunkIndexEntry>,
    blobs: &Vec<Vec<u8>>,
    append_footer: bool,
) -> (p: ArchiveParts)
    requires
        entries@.len() == blobs@.len(),
        data_start(manifest@.len() as int, entries@.len() as int) + blob_bytes(
            blobs@,
            blobs@.len(),
        ).len() + 32 <= u64::MAX,
        48 * entries@.len() <= usize::MAX,
    ensures
        is_archive(
            p,
            flags,
            manifest@,
            plain_len as int,
            entries@,
            blobs@,
            append_footer,
        ),
{
    let chunker = GearChunker::default();
    let mut header = FxarHeader::new(flags, &chunker);
    header.chunk_count = entries.len() as u64;
    let ghost blank = header;
    let ghost n = entries@.len() as int;
    let ghost m = manifest@.len() as int;
    let ghost start = data_start(m, n);
    let ghost ps = placed(entries@, blobs@, start);
    assert(manifest.len() == manifest@.len());
    assert(is_blank_header(blank, flags, n)) by {
        assert(2048usize as u32 == 2048 && 65536usize as u32 == 65536 && 2097152usize as u32
            == 2097152);
    }
    let mut head: Vec<u8> = Vec::new();
    header.write_to(&mut head);
    header.manifest_offset = 64;
    header.manifest_size = manifest.len() as u64;
    bytes::put_le64(&mut head, manifest.len() as u64);
    bytes::put_le64(&mut head, plain_len as u64);
    bytes::put_slice(&mut head, manifest);
    header.index_offset = 80 + manifest.len() as u64;
    header.index_size = (entries.len() * 48) as u64;
    let mut offset: u64 = 80 + manifest.len() as u64 + header.index_size;
    assert(offset == start);
    let ghost before = head@;
    let mut i: usize = 0;
    assert(before + Seq::<u8>::empty() =~= before);
    while i < entries.len()
        invariant
            i <= entries@.len(),
            entries@.len() == blobs@.len(),
            n == entries@.len(),
            ps == placed(entries@, blobs@, start),
            start + blob_bytes(blobs@, blobs@.len()).len() + 32 <= u64::MAX,
            offset == start + blob_bytes(blobs@, i as nat).len(),
            head@ == before + index_bytes(ps, i as nat),
            head@.len() == before.len() + 48 * i,
        decreases entries@.len() - i,
    {
        proof {
            blobs_grow(blobs@, (i + 1) as nat, blobs@.len());
            blobs_grow(blobs@, i as nat, blobs@.len());
        }
        let mut e = entries[i];
        e.offset = offset;
        assert(e == ps[i as int]);
        let ghost so_far = head@;
        e.write_to(&mut head);
        proof {
            assert(head@ =~= before + (index_bytes(ps, i as nat) + ps[i as int].encoded()));
        }
        assert(blobs[i as int].len() == blobs@[i as int]@.len());
        offset = offset + blobs[i].len() as u64;
        i = i + 1;
    }
    proof {
        assert(ps.len() == n);
        assert(head@ =~= blank.encoded() + middle(manifest@, plain_len as int, ps));
        assert(header == filled_in(blank, m, n));
    }
    let mut tail: Vec<u8> = Vec::new();
    if append_footer {
        let footer = FxarFooter::new(
            header.manifest_offset,
            header.index_offset,
            header.chunk_count,
        );
        footer.write_to(&mut tail);
        assert(tail@ =~= footer.encoded());
        offset = offset + 32;
    }
    ArchiveParts { head, header, tail, total: offset }
}

/// More blobs take no less room.
proof fn blobs_grow(blobs: Seq<Vec<u8>>, i: nat, n: nat)
    requires
        i <= n,
    ensures
        blob_bytes(blobs, i).len() <= blob_bytes(blobs, n).len(),
    decreases n - i,
{
    if i < n {
        blobs_grow(blobs, i, (n - 1) as nat);
    }
}

/// Packs a manifest and lays out the archive around it.
pub fn emit_archive(
    compressor: &str,
    manifest_json: &[u8],
    entries: &Vec<ChunkIndexEntry>,
    blobs: &Vec<Vec<u8>>,
    append_footer: bool,
) -> (res: Option<ArchiveParts>)
    requires
        entries@.len() == blobs@.len(),
        compress::codec_of(compressor@) == compress::Codec::Lz4 ==> compress::lz4_takes(
            manifest_json@.len(),
        ),
        48 * entries@.len() <= usize::MAX,
    ensures
        match res {
            Some(p) => exists|packed: Seq<u8>|
                #![trigger dedup::may_store(compressor@, manifest_json@, packed)]
                dedup::may_store(compressor@, manifest_json@, packed) && is_archive(
                    p,
                    compress::flag_of(compressor@),
                    packed,
                    manifest_json@.len() as int,
                    entries@,
                    blobs@,
                    append_footer,
                ),
            None => exists|packed: Seq<u8>|
                #![trigger dedup::may_store(compressor@, manifest_json@, packed)]
                dedup::may_store(compressor@, manifest_json@, packed) && data_start(
                    packed.len() as int,
                    entries@.len() as int,
                ) + blob_bytes(blobs@, blobs@.len()).len() + 32 > u64::MAX,
        },
{
    let manifest = compress::compress_chunk(manifest_json, compressor);
    assert(dedup::may_store(compressor@, manifest_json@, manifest@));
    let flags: u32 = compress::compress_flag(compressor);
    assert(manifest.len() == manifest@.len());
    match total_size(manifest.len(), entries.len(), blobs) {
        None => None,
        Some(_) => Some(
            lay_out(
                flags,
                manifest.as_slice(),
                manifest_json.len(),
                entries,
                blobs,
                append_footer,
            ),
        ),
    }
}

/// The size of an archive with a footer, where it is a 64-bit number.
fn total_size(manifest_len: usize, count: usize, blobs: &Vec<Vec<u8>>) -> (res: Option<u64>)
    requires
        48 * count <= usize::MAX,
    ensures
        ({
            let t = data_start(manifest_len as int, count as int) + blob_bytes(
                blobs@,
                blobs@.len(),
            ).len() + 32;
            match res {
                Some(n) => n == t,
                None => t > u64::MAX,
            }
        }),
{
    let base: u128 = 80 + manifest_len as u128 + 48 * count as u128 + 32;
    if base > u64::MAX as u128 {
        return None;
    }
    let mut t: u64 = base as u64;
    let mut i: usize = 0;
    while i < blobs.len()
        invariant
            i <= blobs@.len(),
            t == data_start(manifest_len as int, count as int) + blob_bytes(
                blobs@,
                i as nat,
            ).len() + 32,
        decreases blobs@.len() - i,
    {
        proof {
            blobs_grow(blobs@, (i + 1) as nat, blobs@.len());
        }
        let n: u64 = blobs[i].len() as u64;
        assert(n == blobs@[i as int]@.len());
        if n > u64::MAX - t {
            return None;
        }
        t = t + n;
        i = i + 1;
    }
    Some(t)
}

/// Whether `p` is the archive of a packed manifest and packed chunks.
pub open spec fn is_archive(
    p: ArchiveParts,
    flags: u32,
    manifest: Seq<u8>,
    plain_len: int,
    entries: Seq<ChunkIndexEntry>,
    blobs: Seq<Vec<u8>>,
    append_footer: bool,
) -> bool {
    let n = entries.len() as int;
    let m = manifest.len() as int;
    let start = data_start(m, n);
    let ps = placed(entries, blobs, start);
    &&& exists|blank: FxarHeader|
        #![trigger blank.encoded()]
        is_blank_header(blank, flags, n) && p.head@ == blank.encoded() + middle(
            manifest,
            plain_len,
            ps,
        ) && p.header == filled_in(blank, m, n)
    &&& p.head@.len() == start
    &&& if append_footer {
        exists|f: FxarFooter|
            #![trigger f.encoded()]
            f.magic@ == records::footer_magic() && f.manifest_offset == 64 && f.index_offset == 80
                + m && f.chunk_count == n && f.checksum == records::footer_checksum(
                64,
                (80 + m) as u64,
                n as u64,
            ) && p.tail@ == f.encoded()
    } else {
        p.tail@ == Seq::<u8>::empty()
    }
    &&& p.total == start + blob_bytes(blobs, blobs.len()).len() + (if append_footer {
        32int
    } else {
        0
    })
}

/// Whether `p` is an archive of these tables, with some packed form of the
/// manifest.
pub open spec fn is_archive_of(
    p: ArchiveParts,
    t: DedupTables,
    manifest_json: Seq<u8>,
    compressor: Seq<char>,
    append_footer: bool,
) -> bool {
    exists|packed: Seq<u8>|
        #![trigger dedup::may_store(compressor, manifest_json, packed)]
        dedup::may_store(compressor, manifest_json, packed) && is_archive(
            p,
            compress::flag_of(compressor),
            packed,
            manifest_json.len() as int,
            t.entries@,
            t.blobs@,
            append_footer,
        )
}

/// Whether these tables make an archive that is too large for 64-bit offsets,
/// with some packed form of the manifest.
pub open spec fn is_too_large(t: DedupTables, manifest_json: Seq<u8>, compressor: Seq<char>) -> bool {
    exists|packed: Seq<u8>|
        #![trigger dedup::may_store(compressor, manifest_json, packed)]
        dedup::may_store(compressor, manifest_json, packed) && data_start(
            packed.len() as int,
            t.entries@.len() as int,
        ) + blob_bytes(t.blobs@, t.blobs@.len()).len() + 32 > u64::MAX
}

fn write_parts(
    t: &DedupTables,
    manifest_json: &[u8],
    compressor: &str,
    snapshots: u64,
    append_footer: bool,
) -> (res: Option<(ArchiveParts, FxarExportStats)>)
    requires
        t.entries@.len() == t.blobs@.len(),
        compress::codec_of(compressor@) == compress::Codec::Lz4 ==> compress::lz4_takes(
            manifest_json@.len(),
        ),
        48 * t.entries@.len() <= usize::MAX,
    ensures
        match res {
            Some((p, stats)) => is_archive_of(p, *t, manifest_json@, compressor@, append_footer)
                && stats == (FxarExportStats {
                snapshots_exported: snapshots,
                archive_bytes: p.total,
                ..t.stats
            }),
            None => is_too_large(*t, manifest_json@, compressor@),
        },
{
    match emit_archive(compressor, manifest_json, &t.entries, &t.blobs, append_footer) {
        None => None,
        Some(p) => {
            let mut stats = t.stats;
            stats.snapshots_exported = snapshots;
            stats.archive_bytes = p.total;
            Some((p, stats))
        },
    }
}

/// An archive that is written from front to back, with a footer, and what it came
/// to; nothing where it is too large.
pub fn write_archive(
    t: &DedupTables,
    manifest_json: &[u8],
    compressor: &str,
    snapshots: u64,
) -> (res: Option<(ArchiveParts, FxarExportStats)>)
    requires
        t.entries@.len() == t.blobs@.len(),
        compress::codec_of(compressor@) == compress::Codec::Lz4 ==> compress::lz4_takes(
            manifest_json@.len(),
        ),
        48 * t.entries@.len() <= usize::MAX,
    ensures
        match res {
            Some((p, stats)) => is_archive_of(p, *t, manifest_json@, compressor@, true) && stats
                == (FxarExportStats {
                snapshots_exported: snapshots,
                archive_bytes: p.total,
                ..t.stats
            }),
            None => is_too_large(*t, manifest_json@, compressor@),
        },
{
    write_parts(t, manifest_json, compressor, snapshots, true)
}

/// An archive in a file that can be gone back in, without a footer: its header is
/// written again with the offsets. Nothing where it is too large.
pub fn write_archive_seekable(
    t: &DedupTables,
    manifest_json: &[u8],
    compressor: &str,
    snapshots: u64,
) -> (res: Option<(ArchiveParts, FxarExportStats)>)
    requires
        t.entries@.len() == t.blobs@.len(),
        compress::codec_of(compressor@) == compress::Codec::Lz4 ==> compress::lz4_takes(
            manifest_json@.len(),
        ),
        48 * t.entries@.len() <= usize::MAX,
    ensures
        match res {
            Some((p, stats)) => is_archive_of(p, *t, manifest_json@, compressor@, false) && stats
                == (FxarExportStats {
                snapshots_exported: snapshots,
                archive_bytes: p.total,
                ..t.stats
            }),
            None => is_too_large(*t, manifest_json@, compressor@),
        },
{
    write_parts(t, manifest_json, compressor, snapshots, false)
}

/// The data of an archive is its blobs in order, its index the entries in order, and each
/// entry has the place at which its blob starts.
pub proof fn blobs_lie_where_the_index_says(
    entries: Seq<ChunkIndexEntry>,
    blobs: Seq<Vec<u8>>,
    start: int,
    n: nat,
)
    requires
        n <= entries.len() == blobs.len(),
        0 <= start,
        start + blob_bytes(blobs, blobs.len()).len() <= u64::MAX,
    ensures
        blob_bytes(blobs, n) == blobs.take(n as int).map_values(|b: Vec<u8>| b@).flatten(),
        index_bytes(entries, n) == entries.take(n as int).map_values(
            |e: ChunkIndexEntry| e.encoded(),
        ).flatten(),
        placed(entries, blobs, start).len() == entries.len(),
        forall|k: int|
            0 <= k < entries.len() ==> {
                let p = #[trigger] placed(entries, blobs, start)[k];
                let all = blob_bytes(blobs, blobs.len());
                let at = p.offset - start;
                &&& p.blake3_hash == entries[k].blake3_hash
                &&& p.size == entries[k].size
                &&& p.compressed_size == entries[k].compressed_size
                &&& 0 <= at <= at + blobs[k]@.len() <= all.len()
                &&& all.subrange(at, at + blobs[k]@.len()) == blobs[k]@
            },
{
    bytes_are_flat(
        entries,
        blobs,
        n,
        |b: Vec<u8>| b@,
        |e: ChunkIndexEntry| e.encoded(),
    );
    assert forall|k: int| 0 <= k < entries.len() implies {
        let p = #[trigger] placed(entries, blobs, start)[k];
        let all = blob_bytes(blobs, blobs.len());
        let at = p.offset - start;
        &&& p.blake3_hash == entries[k].blake3_hash
        &&& p.size == entries[k].size
        &&& p.compressed_size == entries[k].compressed_size
        &&& 0 <= at <= at + blobs[k]@.len() <= all.len()
        &&& all.subrange(at, at + blobs[k]@.len()) == blobs[k]@
    } by {
        blob_stands(blobs, k, blobs.len());
    }
}

proof fn bytes_are_flat(
    entries: Seq<ChunkIndexEntry>,
    blobs: Seq<Vec<u8>>,
    n: nat,
    f: spec_fn(Vec<u8>) -> Seq<u8>,
    g: spec_fn(ChunkIndexEntry) -> Seq<u8>,
)
    requires
        n <= entries.len() == blobs.len(),
        forall|b: Vec<u8>| #[trigger] f(b) == b@,
        forall|e: ChunkIndexEntry| #[trigger] g(e) == e.encoded(),
    ensures
        blob_bytes(blobs, n) == blobs.take(n as int).map_values(f).flatten(),
        index_bytes(entries, n) == entries.take(n as int).map_values(g).flatten(),
    decreases n,
{
    let m = blobs.take(n as int).map_values(f);
    let x = entries.take(n as int).map_values(g);
    m.lemma_flatten_and_flatten_alt_are_equivalent();
    x.lemma_flatten_and_flatten_alt_are_equivalent();
    if n > 0 {
        bytes_are_flat(entries, blobs, (n - 1) as nat, f, g);
        let a = blobs.take(n - 1).map_values(f);
        let b = entries.take(n - 1).map_values(g);
        a.lemma_flatten_and_flatten_alt_are_equivalent();
        b.lemma_flatten_and_flatten_alt_are_equivalent();
        assert(m.drop_last() =~= a);
        assert(x.drop_last() =~= b);
        assert(m.last() == blobs[n - 1]@);
        assert(x.last() == entries[n - 1].encoded());
    } else {
        assert(m =~= Seq::empty());
        assert(x =~= Seq::empty());
    }
}

proof fn blob_stands(blobs: Seq<Vec<u8>>, k: int, n: nat)
    requires
        0 <= k < n <= blobs.len(),
    ensures
        ({
            let all = blob_bytes(blobs, n);
            let at = blob_bytes(blobs, k as nat).len() as int;
            &&& at + blobs[k]@.len() <= all.len()
            &&& all.subrange(at, at + blobs[k]@.len()) == blobs[k]@
        }),
    decreases n,
{
    let all = blob_bytes(blobs, n);
    let before = blob_bytes(blobs, (n - 1) as nat);
    let at = blob_bytes(blobs, k as nat).len() as int;
    if k == n - 1 {
        assert(all.subrange(at, at + blobs[k]@.len()) =~= blobs[k]@);
    } else {
        blob_stands(blobs, k, (n - 1) as nat);
        assert(all.subrange(at, at + blobs[k]@.len()) =~= before.subrange(
            at,
            at + blobs[k]@.len(),
        ));
    }
}

/// An archive starts with its header, whose places of manifest and index are filled in
/// last; then come the lengths of the manifest, packed and plain, the manifest, the index
/// and the chunks, and at the end a footer where one was asked for.
pub proof fn archive_has_its_order(
    p: ArchiveParts,
    flags: u32,
    manifest: Seq<u8>,
    plain_len: int,
    entries: Seq<ChunkIndexEntry>,
    blobs: Seq<Vec<u8>>,
    append_footer: bool,
)
    requires
        is_archive(p, flags, manifest, plain_len, entries, blobs, append_footer),
        entries.len() == blobs.len(),
        data_start(manifest.len() as int, entries.len() as int) + blob_bytes(
            blobs,
            blobs.len(),
        ).len() + 32 <= u64::MAX,
    ensures
        ({
            let m = manifest.len() as int;
            let n = entries.len() as int;
            let b = p.head@;
            let start = 80 + m + 48 * n;
            &&& p.header.magic@ == seq!['F' as u8, 'X' as u8, 'A' as u8, 'R' as u8]
            &&& p.header.version == 2
            &&& p.header.flags == flags
            &&& p.header.chunk_min == 2048 && p.header.chunk_avg == 65536 && p.header.chunk_max
                == 2097152
            &&& p.header.manifest_offset == 64 && p.header.manifest_size == m
            &&& p.header.index_offset == 80 + m && p.header.index_size == 48 * n
            &&& p.header.chunk_count == n
            &&& b.len() == start
            &&& b.subrange(64, 72) == bytes::le64(m as u64)
            &&& b.subrange(72, 80) == bytes::le64(plain_len as u64)
            &&& b.subrange(80, 80 + m) == manifest
            &&& b.subrange(80 + m, start) == index_bytes(placed(entries, blobs, start), entries.len())
            &&& p.total == start + blob_bytes(blobs, blobs.len()).len() + p.tail@.len()
            &&& append_footer <==> p.tail@.len() == 32
            &&& !append_footer <==> p.tail@.len() == 0
            &&& append_footer ==> {
                &&& p.tail@.subrange(0, 4) == seq!['F' as u8, 'X' as u8, 'A' as u8, 'F' as u8]
                &&& p.tail@.subrange(4, 12) == bytes::le64(64)
                &&& p.tail@.subrange(12, 20) == bytes::le64((80 + m) as u64)
                &&& p.tail@.subrange(20, 28) == bytes::le64(n as u64)
                &&& p.tail@.subrange(28, 32) == bytes::le32(
                    records::footer_checksum(64, (80 + m) as u64, n as u64) as u32,
                )
            }
        }),
{
    let m = manifest.len() as int;
    let n = entries.len() as int;
    let start = 80 + m + 48 * n;
    let ps = placed(entries, blobs, start);
    let blank = choose|blank: FxarHeader|
        #![trigger blank.encoded()]
        is_blank_header(blank, flags, n) && p.head@ == blank.encoded() + middle(
            manifest,
            plain_len,
            ps,
        ) && p.header == filled_in(blank, m, n);
    records::header_fields_have_their_places(blank);
    bytes::le64_round_trip(m as u64);
    bytes::le64_round_trip(plain_len as u64);
    let b = p.head@;
    assert(b.subrange(64, 72) =~= bytes::le64(m as u64));
    assert(b.subrange(72, 80) =~= bytes::le64(plain_len as u64));
    assert(b.subrange(80, 80 + m) =~= manifest);
    assert(b.subrange(80 + m, start) =~= index_bytes(ps, ps.len()));
    if append_footer {
        let f = choose|f: records::FxarFooter|
            #![trigger f.encoded()]
            f.magic@ == records::footer_magic() && f.manifest_offset == 64 && f.index_offset == 80
                + m && f.chunk_count == n && f.checksum == records::footer_checksum(
                64,
                (80 + m) as u64,
                n as u64,
            ) && p.tail@ == f.encoded();
        records::footer_fields_have_their_places(f);
    }
}

/// An archive of some tables is made with the manifest as the compressor may store it and
/// with the compressor's flag; it is too large only where the whole would not fit.
pub proof fn archive_is_of_its_tables(
    p: ArchiveParts,
    t: DedupTables,
    manifest_json: Seq<u8>,
    compressor: Seq<char>,
    append_footer: bool,
) -> (packed: Seq<u8>)
    requires
        is_archive_of(p, t, manifest_json, compressor, append_footer),
    ensures
        compress::is_packed(compress::codec_of(compressor), manifest_json, packed) || packed
            == manifest_json && compress::zstd_fails(compress::codec_of(compressor), manifest_json),
        is_archive(
            p,
            compress::flag_of(compressor),
            packed,
            manifest_json.len() as int,
            t.entries@,
            t.blobs@,
            append_footer,
        ),
{
    choose|packed: Seq<u8>|
        #![trigger dedup::may_store(compressor, manifest_json, packed)]
        dedup::may_store(compressor, manifest_json, packed) && is_archive(
            p,
            compress::flag_of(compressor),
            packed,
            manifest_json.len() as int,
            t.entries@,
            t.blobs@,
            append_footer,
        )
}

/// What is too large would not fit into an archive's numbers.
pub proof fn too_large_does_not_fit(
    t: DedupTables,
    manifest_json: Seq<u8>,
    compressor: Seq<char>,
) -> (packed: Seq<u8>)
    requires
        is_too_large(t, manifest_json, compressor),
    ensures
        dedup::may_store(compressor, manifest_json, packed),
        112 + packed.len() + 48 * t.entries@.len() + blob_bytes(t.blobs@, t.blobs@.len()).len()
            > u64::MAX,
{
    choose|packed: Seq<u8>|
        #![trigger dedup::may_store(compressor, manifest_json, packed)]
        dedup::may_store(compressor, manifest_json, packed) && data_start(
            packed.len() as int,
            t.entries@.len() as int,
        ) + blob_bytes(t.blobs@, t.blobs@.len()).len() + 32 > u64::MAX
}

} // verus!
