//! What an archive promises as a whole: what was put in comes out again.

use crate::bytes;
use crate::chunker;
use crate::compress;
use crate::fxar::dedup::{self, FxarManifestEntry, ProcessedFile};
use crate::fxar::layout::{self, ArchiveParts};
use crate::fxar::reader;
use crate::fxar::records::{self, ChunkIndexEntry, FxarHeader};
use crate::hashing;
use vstd::prelude::*;

verus! {

/// An archive file: the header with its offsets, everything up to the chunks,
/// and the chunks.
pub open spec fn archive_file(p: ArchiveParts, blobs: Seq<Vec<u8>>) -> Seq<u8> {
    p.header.encoded() + p.head@.subrange(64, p.head@.len() as int) + layout::blob_bytes(
        blobs,
        blobs.len(),
    )
}

/// An archive stream: everything up to the chunks, the chunks, and the footer.
pub open spec fn archive_stream(p: ArchiveParts, blobs: Seq<Vec<u8>>) -> Seq<u8> {
    p.head@ + layout::blob_bytes(blobs, blobs.len()) + p.tail@
}

/// Whether each index entry gives its blob's length.
pub open spec fn lengths_agree(entries: Seq<ChunkIndexEntry>, blobs: Seq<Vec<u8>>) -> bool {
    &&& entries.len() == blobs.len()
    &&& forall|k: int|
        0 <= k < entries.len() ==> (#[trigger] entries[k]).compressed_size == blobs[k]@.len()
}

proof fn index_len(entries: Seq<ChunkIndexEntry>, n: nat)
    requires
        n <= entries.len(),
    ensures
        layout::index_bytes(entries, n).len() == 48 * n,
    decreases n,
{
    if n > 0 {
        index_len(entries, (n - 1) as nat);
        records::entry_round_trip(entries[n - 1], Seq::empty());
    }
}

proof fn entry_in_index(entries: Seq<ChunkIndexEntry>, n: nat, k: int)
    requires
        n <= entries.len(),
        0 <= k < n,
    ensures
        layout::index_bytes(entries, n).len() == 48 * n,
        layout::index_bytes(entries, n).subrange(48 * k, 48 * k + 48) == entries[k].encoded(),
    decreases n,
{
    index_len(entries, n);
    index_len(entries, (n - 1) as nat);
    records::entry_round_trip(entries[n - 1], Seq::empty());
    let all = layout::index_bytes(entries, n);
    let before = layout::index_bytes(entries, (n - 1) as nat);
    assert(all == before + entries[n - 1].encoded());
    if k < n - 1 {
        entry_in_index(entries, (n - 1) as nat, k);
        assert(all.subrange(48 * k, 48 * k + 48) =~= before.subrange(48 * k, 48 * k + 48));
    } else {
        assert(all.subrange(48 * k, 48 * k + 48) =~= entries[k].encoded());
    }
}

proof fn blob_in_bytes(blobs: Seq<Vec<u8>>, n: nat, k: int)
    requires
        n <= blobs.len(),
        0 <= k < n,
    ensures
        ({
            let at = layout::blob_bytes(blobs, k as nat).len() as int;
            let end = at + blobs[k]@.len();
            &&& end <= layout::blob_bytes(blobs, n).len()
            &&& layout::blob_bytes(blobs, n).subrange(at, end) == blobs[k]@
        }),
    decreases n,
{
    let all = layout::blob_bytes(blobs, n);
    let before = layout::blob_bytes(blobs, (n - 1) as nat);
    let at = layout::blob_bytes(blobs, k as nat).len() as int;
    let end = at + blobs[k]@.len();
    if k < n - 1 {
        blob_in_bytes(blobs, (n - 1) as nat, k);
        assert(all.subrange(at, end) =~= before.subrange(at, end));
    } else {
        assert(all.subrange(at, end) =~= blobs[k]@);
    }
}

/// The parts behind the header are found in whatever has a header, the middle
/// and the chunks in a row.
proof fn parts_are_found(
    h: Seq<u8>,
    manifest: Seq<u8>,
    plain_len: int,
    ps: Seq<ChunkIndexEntry>,
    blobs: Seq<Vec<u8>>,
    tail: Seq<u8>,
)
    requires
        h.len() == 64,
        ps.len() == blobs.len(),
        manifest.len() <= u64::MAX,
    ensures
        ({
            let a = h + layout::middle(manifest, plain_len, ps) + layout::blob_bytes(
                blobs,
                blobs.len(),
            ) + tail;
            let start = layout::data_start(manifest.len() as int, ps.len() as int);
            &&& a.len() >= 64
            &&& reader::manifest_at(a, 64) == Some(manifest)
            &&& reader::index_at(a, 80 + manifest.len() as int, ps)
            &&& layout::middle(manifest, plain_len, ps).len() == start - 64
            &&& forall|k: int|
                0 <= k < blobs.len() ==> #[trigger] reader::packed_at(
                    a,
                    start + layout::blob_bytes(blobs, k as nat).len(),
                    blobs[k]@.len() as int,
                ) == Some(blobs[k]@)
        }),
{
    let n = ps.len();
    let index = layout::index_bytes(ps, n);
    let data = layout::blob_bytes(blobs, blobs.len());
    let l1 = bytes::le64(manifest.len() as u64);
    let l2 = bytes::le64(plain_len as u64);
    let mid = layout::middle(manifest, plain_len, ps);
    let a = h + mid + data + tail;
    let start = layout::data_start(manifest.len() as int, n as int);
    bytes::le64_round_trip(manifest.len() as u64);
    bytes::le64_round_trip(plain_len as u64);
    index_len(ps, n);
    assert(a.subrange(64, 72) =~= l1);
    assert(a.subrange(80, 80 + manifest.len() as int) =~= manifest);
    let off = 80 + manifest.len() as int;
    assert forall|k: int| 0 <= k < n implies (#[trigger] ps[k]).is_decoded(
        a.subrange(off + 48 * k, a.len() as int),
    ) by {
        entry_in_index(ps, n, k);
        let after = a.subrange(off + 48 * k + 48, a.len() as int);
        records::entry_round_trip(ps[k], after);
        assert(a.subrange(off + 48 * k, off + 48 * k + 48) =~= index.subrange(
            48 * k,
            48 * k + 48,
        ));
        assert(a.subrange(off + 48 * k, a.len() as int) =~= ps[k].encoded() + after);
    }
    assert forall|k: int| 0 <= k < blobs.len() implies #[trigger] reader::packed_at(
        a,
        start + layout::blob_bytes(blobs, k as nat).len(),
        blobs[k]@.len() as int,
    ) == Some(blobs[k]@) by {
        blob_in_bytes(blobs, blobs.len(), k);
        let at = layout::blob_bytes(blobs, k as nat).len() as int;
        let end = at + blobs[k]@.len();
        assert(a.subrange(start + at, start + end) =~= data.subrange(at, end));
    }
}

/// An archive file gives back its header, its manifest, its index and each of
/// its chunks.
pub proof fn archive_file_round_trip(
    p: ArchiveParts,
    flags: u32,
    manifest: Seq<u8>,
    plain_len: int,
    entries: Seq<ChunkIndexEntry>,
    blobs: Seq<Vec<u8>>,
)
    requires
        layout::is_archive(p, flags, manifest, plain_len, entries, blobs, false),
        lengths_agree(entries, blobs),
        p.total <= u64::MAX,
    ensures
        ({
            let a = archive_file(p, blobs);
            let n = entries.len();
            let ps = layout::placed(
                entries,
                blobs,
                layout::data_start(manifest.len() as int, n as int),
            );
            &&& a.len() >= 64
            &&& a.subrange(0, 4) == records::header_magic()
            &&& p.header.is_decoded(a)
            &&& p.header.version == records::FXAR_VERSION
            &&& p.header.flags == flags
            &&& reader::manifest_at(a, p.header.manifest_offset as int) == Some(manifest)
            &&& p.header.chunk_count == n
            &&& reader::index_at(a, p.header.index_offset as int, ps)
            &&& forall|k: int|
                0 <= k < n ==> reader::packed_at(
                    a,
                    (#[trigger] ps[k]).offset as int,
                    ps[k].compressed_size as int,
                ) == Some(blobs[k]@)
        }),
{
    let n = entries.len() as int;
    let m = manifest.len() as int;
    let start = layout::data_start(m, n);
    let ps = layout::placed(entries, blobs, start);
    let blank = choose|blank: FxarHeader|
        #![trigger blank.encoded()]
        layout::is_blank_header(blank, flags, n) && p.head@ == blank.encoded() + layout::middle(
            manifest,
            plain_len,
            ps,
        ) && p.header == layout::filled_in(blank, m, n);
    let data = layout::blob_bytes(blobs, blobs.len());
    records::header_round_trip(blank, Seq::empty());
    records::header_round_trip(p.header, layout::middle(manifest, plain_len, ps) + data);
    parts_are_found(p.header.encoded(), manifest, plain_len, ps, blobs, Seq::empty());
    let a = archive_file(p, blobs);
    let mid = layout::middle(manifest, plain_len, ps);
    assert(p.head@.subrange(64, p.head@.len() as int) =~= mid);
    assert(a =~= p.header.encoded() + mid + data + Seq::<u8>::empty());
    assert(a =~= p.header.encoded() + (mid + data));
    assert forall|k: int| 0 <= k < n implies reader::packed_at(
        a,
        (#[trigger] ps[k]).offset as int,
        ps[k].compressed_size as int,
    ) == Some(blobs[k]@) by {
        blob_in_bytes(blobs, blobs.len(), k);
        assert(entries[k].compressed_size == blobs[k]@.len());
        assert(reader::packed_at(
            a,
            start + layout::blob_bytes(blobs, k as nat).len(),
            blobs[k]@.len() as int,
        ) == Some(blobs[k]@));
    }
}

/// The room that chunks take by the index is the room that their blobs take.
proof fn packed_size_is_blob_len(
    entries: Seq<ChunkIndexEntry>,
    blobs: Seq<Vec<u8>>,
    start: int,
    k: nat,
)
    requires
        lengths_agree(entries, blobs),
        k <= entries.len(),
    ensures
        reader::packed_size(layout::placed(entries, blobs, start), k) == layout::blob_bytes(
            blobs,
            k,
        ).len(),
    decreases k,
{
    if k > 0 {
        packed_size_is_blob_len(entries, blobs, start, (k - 1) as nat);
        assert(entries[k - 1].compressed_size == blobs[k - 1]@.len());
    }
}

/// An archive stream, read from front to back, gives back its manifest, its
/// index and each of its chunks.
pub proof fn archive_stream_round_trip(
    p: ArchiveParts,
    flags: u32,
    manifest: Seq<u8>,
    plain_len: int,
    entries: Seq<ChunkIndexEntry>,
    blobs: Seq<Vec<u8>>,
    h: FxarHeader,
)
    requires
        layout::is_archive(p, flags, manifest, plain_len, entries, blobs, true),
        lengths_agree(entries, blobs),
        h.is_decoded(archive_stream(p, blobs)),
    ensures
        ({
            let a = archive_stream(p, blobs);
            let n = entries.len();
            let start = layout::data_start(manifest.len() as int, n as int);
            let ps = layout::placed(entries, blobs, start);
            &&& a.len() >= 64
            &&& a.subrange(0, 4) == records::header_magic()
            &&& h.version == records::FXAR_VERSION
            &&& h.flags == flags
            &&& h.chunk_count == n
            &&& reader::manifest_at(a, 64) == Some(manifest)
            &&& reader::index_at(a, 80 + manifest.len() as int, ps)
            &&& forall|k: int|
                0 <= k < n ==> #[trigger] reader::stream_packed(a, start, ps, k) == Some(blobs[k]@)
        }),
{
    let n = entries.len() as int;
    let m = manifest.len() as int;
    let start = layout::data_start(m, n);
    let ps = layout::placed(entries, blobs, start);
    let blank = choose|blank: FxarHeader|
        #![trigger blank.encoded()]
        layout::is_blank_header(blank, flags, n) && p.head@ == blank.encoded() + layout::middle(
            manifest,
            plain_len,
            ps,
        ) && p.header == layout::filled_in(blank, m, n);
    let data = layout::blob_bytes(blobs, blobs.len());
    let mid = layout::middle(manifest, plain_len, ps);
    let a = archive_stream(p, blobs);
    records::header_round_trip(blank, mid + data + p.tail@);
    assert(a =~= blank.encoded() + (mid + data + p.tail@));
    records::decoded_header_is_unique(blank, h, a);
    parts_are_found(blank.encoded(), manifest, plain_len, ps, blobs, p.tail@);
    assert(a =~= blank.encoded() + mid + data + p.tail@);
    assert forall|k: int| 0 <= k < n implies #[trigger] reader::stream_packed(a, start, ps, k)
        == Some(blobs[k]@) by {
        packed_size_is_blob_len(entries, blobs, start, k as nat);
        assert(entries[k].compressed_size == blobs[k]@.len());
        assert(reader::packed_at(
            a,
            start + layout::blob_bytes(blobs, k as nat).len(),
            blobs[k]@.len() as int,
        ) == Some(blobs[k]@));
    }
}

/// Whether chunks among `chunks` with one hash were packed from the same bytes:
/// what each of them unpacks to.
pub open spec fn same_hash_same_bytes(u: Seq<dedup::ChunkModel>, flags: u32, c: Seq<u8>) -> bool {
    forall|k: int|
        0 <= k < u.len() && (#[trigger] u[k]).0 == hashing::blake3(c) ==> compress::unpacked(
            flags,
            u[k].2,
        ) == Some(c)
}

/// The first `n` parts of a byte string, one after the other.
pub open spec fn first_parts(parts: Seq<Seq<u8>>, n: nat) -> Seq<u8>
    decreases n,
{
    if n == 0 {
        Seq::empty()
    } else {
        first_parts(parts, (n - 1) as nat) + parts[n - 1]
    }
}

proof fn first_parts_flattened(parts: Seq<Seq<u8>>, n: nat)
    requires
        n <= parts.len(),
    ensures
        first_parts(parts, n) + chunker::flattened(parts.subrange(n as int, parts.len() as int))
            == chunker::flattened(parts),
    decreases n,
{
    if n == 0 {
        assert(parts.subrange(0, parts.len() as int) =~= parts);
        assert(Seq::<u8>::empty() + chunker::flattened(parts) =~= chunker::flattened(parts));
    } else {
        let m = (n - 1) as nat;
        first_parts_flattened(parts, m);
        let rest = parts.subrange(m as int, parts.len() as int);
        assert(rest.drop_first() =~= parts.subrange(n as int, parts.len() as int));
        assert(rest[0] == parts[m as int]);
        assert(first_parts(parts, m) + (parts[m as int] + chunker::flattened(rest.drop_first()))
            =~= (first_parts(parts, m) + parts[m as int]) + chunker::flattened(rest.drop_first()));
    }
}

/// A file that was cut, stored and looked up by its manifest entry comes back
/// byte for byte and passes the check of its hash, as long as every stored chunk
/// that has the hash of one of the file's chunks unpacks to that chunk. (That
/// is so where the compressor's output unpacks, and no two different chunks
/// share a hash.)
pub proof fn stored_file_comes_back(
    contents: Seq<u8>,
    f: ProcessedFile,
    e: FxarManifestEntry,
    u: Seq<dedup::ChunkModel>,
    store: Seq<Vec<u8>>,
    flags: u32,
    name: Seq<char>,
)
    requires
        f.blake3@ == hashing::blake3(contents),
        f.chunks@.len() == dedup::archive_chunker().chunks_from(contents, 0).len(),
        forall|i: int|
            0 <= i < f.chunks@.len() ==> dedup::is_chunk_of(
                #[trigger] f.chunks@[i],
                dedup::archive_chunker().chunks_from(contents, 0)[i],
                name,
            ),
        dedup::describes(e, f, u),
        store.len() == u.len(),
        forall|k: int|
            0 <= k < u.len() ==> compress::unpacked(flags, (#[trigger] u[k]).2) == Some(store[k]@),
        forall|i: int|
            0 <= i < f.chunks@.len() ==> same_hash_same_bytes(
                u,
                flags,
                #[trigger] dedup::archive_chunker().chunks_from(contents, 0)[i],
            ),
    ensures
        reader::file_bytes(store, e.chunks@, e.chunks@.len()) == contents,
        reader::hash_matches(e, contents),
{
    let cutter = dedup::archive_chunker();
    let parts = cutter.chunks_from(contents, 0);
    let n = e.chunks@.len();
    file_bytes_are_parts(f, e, u, store, flags, name, parts, n);
    first_parts_flattened(parts, n);
    cutter.chunks_make_up_data(contents, 0);
    assert(parts.subrange(n as int, parts.len() as int) =~= Seq::empty());
    assert(contents.subrange(0, contents.len() as int) =~= contents);
    assert(first_parts(parts, n) + Seq::<u8>::empty() =~= first_parts(parts, n));
    compress::hex_round_trip(f.blake3@);
}

proof fn file_bytes_are_parts(
    f: ProcessedFile,
    e: FxarManifestEntry,
    u: Seq<dedup::ChunkModel>,
    store: Seq<Vec<u8>>,
    flags: u32,
    name: Seq<char>,
    parts: Seq<Seq<u8>>,
    n: nat,
)
    requires
        f.chunks@.len() == parts.len(),
        forall|i: int|
            0 <= i < f.chunks@.len() ==> dedup::is_chunk_of(
                #[trigger] f.chunks@[i],
                parts[i],
                name,
            ),
        dedup::describes(e, f, u),
        store.len() == u.len(),
        forall|k: int|
            0 <= k < u.len() ==> compress::unpacked(flags, (#[trigger] u[k]).2) == Some(store[k]@),
        forall|i: int|
            0 <= i < parts.len() ==> same_hash_same_bytes(u, flags, #[trigger] parts[i]),
        n <= e.chunks@.len(),
    ensures
        reader::file_bytes(store, e.chunks@, n) == first_parts(parts, n),
    decreases n,
{
    if n > 0 {
        let j = n - 1;
        file_bytes_are_parts(f, e, u, store, flags, name, parts, j as nat);
        let k = e.chunks@[j] as int;
        assert(dedup::is_chunk_of(f.chunks@[j], parts[j], name));
        assert(u[k].0 == hashing::blake3(parts[j]));
        assert(same_hash_same_bytes(u, flags, parts[j]));
        assert(compress::unpacked(flags, u[k].2) == Some(parts[j]));
    }
}

/// Every chunk among `u` with new ones of `ms` comes from one of the two.
proof fn with_new_origin(u: Seq<dedup::ChunkModel>, ms: Seq<dedup::ChunkModel>, k: int)
    requires
        0 <= k < dedup::with_new(u, ms).len(),
    ensures
        u.contains(dedup::with_new(u, ms)[k]) || ms.contains(dedup::with_new(u, ms)[k]),
    decreases ms.len(),
{
    if ms.len() > 0 {
        let v = dedup::with_new(u, ms.drop_last());
        if k < v.len() {
            with_new_origin(u, ms.drop_last(), k);
            if ms.drop_last().contains(v[k]) {
                let j = choose|j: int| 0 <= j < ms.drop_last().len() && ms.drop_last()[j] == v[k];
                assert(ms[j] == v[k]);
            }
        } else {
            assert(ms[ms.len() - 1] == dedup::with_new(u, ms)[k]);
        }
    }
}

/// Every stored chunk is a chunk of one of the files.
proof fn stored_chunk_origin(files: Seq<ProcessedFile>, n: nat, k: int) -> (r: (int, int))
    requires
        n <= files.len(),
        0 <= k < dedup::unique_chunks(files, n).len(),
    ensures
        0 <= r.0 < n,
        0 <= r.1 < files[r.0].chunks@.len(),
        dedup::unique_chunks(files, n)[k] == dedup::model(files[r.0].chunks@[r.1]),
    decreases n,
{
    let m = (n - 1) as nat;
    let u = dedup::unique_chunks(files, m);
    let ms = dedup::models(files[n - 1].chunks@);
    let c = dedup::unique_chunks(files, n)[k];
    with_new_origin(u, ms, k);
    if ms.contains(c) {
        let j = choose|j: int| 0 <= j < ms.len() && ms[j] == c;
        (n - 1, j)
    } else {
        let j = choose|j: int| 0 <= j < u.len() && u[j] == c;
        stored_chunk_origin(files, m, j)
    }
}

/// Whether a file was cut from `contents` and all of its chunks could be packed.
pub open spec fn is_cut_from(f: ProcessedFile, contents: Seq<u8>, name: Seq<char>) -> bool {
    let parts = dedup::archive_chunker().chunks_from(contents, 0);
    &&& f.blake3@ == hashing::blake3(contents)
    &&& f.chunks@.len() == parts.len()
    &&& forall|i: int|
        0 <= i < parts.len() ==> dedup::is_chunk_of(#[trigger] f.chunks@[i], parts[i], name)
            && compress::is_packed(compress::codec_of(name), parts[i], f.chunks@[i].packed@)
}

/// Every file that goes into an archive comes out of it byte for byte and passes
/// the check of its hash, whatever other files are stored with it, as long as
/// the compressor packed every chunk (`xz`, which packs otherwise than it
/// unpacks, is left out) and no two different chunks have one hash.
pub proof fn every_file_comes_back(
    files: Seq<ProcessedFile>,
    contents: Seq<Seq<u8>>,
    i: int,
    e: FxarManifestEntry,
    store: Seq<Vec<u8>>,
    name: Seq<char>,
)
    requires
        files.len() == contents.len(),
        forall|j: int| 0 <= j < files.len() ==> is_cut_from(#[trigger] files[j], contents[j], name),
        compress::flag_of(name) != compress::FLAG_COMPRESS_XZ,
        forall|a: int, b: int, c: int, d: int|
            #![trigger files[a].chunks@[b], files[c].chunks@[d]]
            0 <= a < files.len() && 0 <= b < files[a].chunks@.len() && 0 <= c < files.len() && 0
                <= d < files[c].chunks@.len() && files[a].chunks@[b].hash@
                == files[c].chunks@[d].hash@ ==> dedup::archive_chunker().chunks_from(
                contents[a],
                0,
            )[b] == dedup::archive_chunker().chunks_from(contents[c], 0)[d],
        0 <= i < files.len(),
        ({
            let u = dedup::unique_chunks(files, files.len());
            &&& dedup::describes(e, files[i], u)
            &&& store.len() == u.len()
            &&& forall|k: int|
                0 <= k < u.len() ==> compress::unpacked(
                    compress::flag_of(name),
                    (#[trigger] u[k]).2,
                ) == Some(store[k]@)
        }),
    ensures
        reader::file_bytes(store, e.chunks@, e.chunks@.len()) == contents[i],
        reader::hash_matches(e, contents[i]),
{
    let cutter = dedup::archive_chunker();
    let u = dedup::unique_chunks(files, files.len());
    let flags = compress::flag_of(name);
    let parts = cutter.chunks_from(contents[i], 0);
    assert(is_cut_from(files[i], contents[i], name));
    assert forall|j: int| 0 <= j < files[i].chunks@.len() implies same_hash_same_bytes(
        u,
        flags,
        #[trigger] parts[j],
    ) by {
        let c = parts[j];
        assert(dedup::is_chunk_of(files[i].chunks@[j], parts[j], name));
        assert forall|k: int| 0 <= k < u.len() && (#[trigger] u[k]).0 == hashing::blake3(
            c,
        ) implies compress::unpacked(flags, u[k].2) == Some(c) by {
            let (a, b) = stored_chunk_origin(files, files.len(), k);
            assert(is_cut_from(files[a], contents[a], name));
            let theirs = cutter.chunks_from(contents[a], 0);
            assert(dedup::is_chunk_of(files[a].chunks@[b], theirs[b], name));
            assert(files[a].chunks@[b].hash@ == files[i].chunks@[j].hash@);
            assert(theirs[b] == c);
            part_is_small(contents[a], b);
            if compress::codec_of(name) == compress::Codec::Lz4 {
                compress::small_block_is_readable(c, u[k].2);
            }
            compress::packing_round_trip(name, c, u[k].2);
        }
    }
    stored_file_comes_back(contents[i], files[i], e, u, store, flags, name);
}

proof fn part_is_small(data: Seq<u8>, b: int)
    requires
        0 <= b < dedup::archive_chunker().chunks_from(data, 0).len(),
    ensures
        dedup::archive_chunker().chunks_from(data, 0)[b].len() <= 2097152,
{
    let cutter = dedup::archive_chunker();
    let ends = cutter.ends_from(data, 0);
    cutter.chunk_sizes(data, 0, b);
    cutter.ends_are_increasing(data, 0);
    let from = chunker::start_of(0, ends, b);
    assert(from < ends[b] <= data.len());
    if b > 0 {
        chunker::ends_are_positive(data, dedup::archive_chunker().ends_from(data, 0), b - 1);
    }
}

/// Every file that is cut and packed for an archive comes out of it byte for byte
/// and passes the check of its hash, whatever it and the files stored with it hold:
/// incompressible chunks too. What each file was made into is what cutting and
/// packing promise; the compressor must not fail (`xz`, which packs otherwise than
/// it unpacks, is left out), and no two different chunks have one hash.
pub proof fn every_processed_file_comes_back(
    files: Seq<ProcessedFile>,
    contents: Seq<Seq<u8>>,
    i: int,
    e: FxarManifestEntry,
    store: Seq<Vec<u8>>,
    name: Seq<char>,
)
    requires
        files.len() == contents.len(),
        forall|j: int|
            0 <= j < files.len() ==> {
                let parts = dedup::archive_chunker().chunks_from(contents[j], 0);
                &&& (#[trigger] files[j]).blake3@ == hashing::blake3(contents[j])
                &&& files[j].chunks@.len() == parts.len()
                &&& forall|k: int|
                    0 <= k < parts.len() ==> dedup::is_chunk_of(
                        #[trigger] files[j].chunks@[k],
                        parts[k],
                        name,
                    )
                &&& forall|k: int|
                    0 <= k < parts.len() ==> !compress::zstd_fails(
                        compress::codec_of(name),
                        #[trigger] parts[k],
                    )
            },
        compress::flag_of(name) != compress::FLAG_COMPRESS_XZ,
        forall|a: int, b: int, c: int, d: int|
            #![trigger files[a].chunks@[b], files[c].chunks@[d]]
            0 <= a < files.len() && 0 <= b < files[a].chunks@.len() && 0 <= c < files.len() && 0
                <= d < files[c].chunks@.len() && files[a].chunks@[b].hash@
                == files[c].chunks@[d].hash@ ==> dedup::archive_chunker().chunks_from(
                contents[a],
                0,
            )[b] == dedup::archive_chunker().chunks_from(contents[c], 0)[d],
        0 <= i < files.len(),
        ({
            let u = dedup::unique_chunks(files, files.len());
            &&& dedup::describes(e, files[i], u)
            &&& store.len() == u.len()
            &&& forall|k: int|
                0 <= k < u.len() ==> compress::unpacked(
                    compress::flag_of(name),
                    (#[trigger] u[k]).2,
                ) == Some(store[k]@)
        }),
    ensures
        reader::file_bytes(store, e.chunks@, e.chunks@.len()) == contents[i],
        reader::hash_matches(e, contents[i]),
{
    assert forall|j: int| 0 <= j < files.len() implies is_cut_from(
        #[trigger] files[j],
        contents[j],
        name,
    ) by {
        let parts = dedup::archive_chunker().chunks_from(contents[j], 0);
        assert(files[j].chunks@.len() == parts.len());
        assert forall|k: int| 0 <= k < parts.len() implies dedup::is_chunk_of(
            #[trigger] files[j].chunks@[k],
            parts[k],
            name,
        ) && compress::is_packed(
            compress::codec_of(name),
            parts[k],
            files[j].chunks@[k].packed@,
        ) by {
            assert(!compress::zstd_fails(compress::codec_of(name), parts[k]));
        }
    }
    every_file_comes_back(files, contents, i, e, store, name);
}

/// Deduplication loses nothing and keeps nothing twice: for every chunk of every file
/// there is one stored chunk of the same hash, no two stored chunks have one hash, and
/// every stored chunk is one of a file's, with its size and its packed bytes.
pub proof fn every_chunk_is_stored_once(files: Seq<ProcessedFile>, n: nat)
    requires
        n <= files.len(),
    ensures
        forall|i: int, j: int|
            #![trigger files[i].chunks@[j]]
            0 <= i < n && 0 <= j < files[i].chunks@.len() ==> exists|k: int|
                0 <= k < dedup::unique_chunks(files, n).len() && (#[trigger] dedup::unique_chunks(
                    files,
                    n,
                )[k]).0 == files[i].chunks@[j].hash@,
        forall|k: int, m: int|
            0 <= k < m < dedup::unique_chunks(files, n).len() ==> (#[trigger] dedup::unique_chunks(
                files,
                n,
            )[k]).0 != (#[trigger] dedup::unique_chunks(files, n)[m]).0,
        forall|k: int|
            0 <= k < dedup::unique_chunks(files, n).len() ==> exists|i: int, j: int|
                0 <= i < n && 0 <= j < files[i].chunks@.len() && ({
                    let c = #[trigger] files[i].chunks@[j];
                    (#[trigger] dedup::unique_chunks(files, n)[k]) == (
                        c.hash@,
                        c.size,
                        c.packed@,
                    )
                }),
    decreases n,
{
    let u = dedup::unique_chunks(files, n);
    if n > 0 {
        let m = (n - 1) as nat;
        let before = dedup::unique_chunks(files, m);
        let ms = dedup::models(files[n - 1].chunks@);
        every_chunk_is_stored_once(files, m);
        dedup::with_new_keeps(before, ms);
        new_chunks_are_held(before, ms);
        assert forall|i: int, j: int|
            #![trigger files[i].chunks@[j]]
            0 <= i < n && 0 <= j < files[i].chunks@.len() implies exists|k: int|
            0 <= k < u.len() && (#[trigger] u[k]).0 == files[i].chunks@[j].hash@ by {
            let h = files[i].chunks@[j].hash@;
            if i < m {
                let k = choose|k: int| 0 <= k < before.len() && (#[trigger] before[k]).0 == h;
                assert(u.subrange(0, before.len() as int)[k] == before[k]);
                assert(u[k].0 == h);
            } else {
                assert(dedup::holds(u, ms[j].0));
            }
        }
    }
    assert forall|k: int| 0 <= k < u.len() implies exists|i: int, j: int|
        0 <= i < n && 0 <= j < files[i].chunks@.len() && ({
            let c = #[trigger] files[i].chunks@[j];
            (#[trigger] u[k]) == (c.hash@, c.size, c.packed@)
        }) by {
        let (i, j) = stored_chunk_origin(files, n, k);
        let c = files[i].chunks@[j];
    }
}

/// What is added is held afterwards, and hashes stay different.
proof fn new_chunks_are_held(u: Seq<dedup::ChunkModel>, ms: Seq<dedup::ChunkModel>)
    requires
        forall|k: int, m: int|
            0 <= k < m < u.len() ==> (#[trigger] u[k]).0 != (#[trigger] u[m]).0,
    ensures
        forall|k: int, m: int|
            0 <= k < m < dedup::with_new(u, ms).len() ==> (#[trigger] dedup::with_new(
                u,
                ms,
            )[k]).0 != (#[trigger] dedup::with_new(u, ms)[m]).0,
        forall|j: int|
            0 <= j < ms.len() ==> dedup::holds(dedup::with_new(u, ms), (#[trigger] ms[j]).0),
    decreases ms.len(),
{
    if ms.len() > 0 {
        let rest = ms.drop_last();
        let v = dedup::with_new(u, rest);
        let w = dedup::with_new(u, ms);
        new_chunks_are_held(u, rest);
        assert forall|j: int| 0 <= j < ms.len() implies dedup::holds(w, (#[trigger] ms[j]).0) by {
            if j < ms.len() - 1 {
                assert(rest[j] == ms[j]);
                assert(dedup::holds(v, rest[j].0));
                let k = choose|k: int| 0 <= k < v.len() && (#[trigger] v[k]).0 == ms[j].0;
                assert(w[k] == v[k]);
            } else if !dedup::holds(v, ms.last().0) {
                assert(w[w.len() - 1].0 == ms[j].0);
            } else {
                let k = choose|k: int| 0 <= k < v.len() && (#[trigger] v[k]).0 == ms[j].0;
                assert(w[k] == v[k]);
            }
        }
    }
}

/// An entry of the manifest says of its file what the file is: its path, size, mode,
/// times and owner, its hash in hexadecimal and its attributes, and one stored chunk
/// for each of its chunks, in order, by the same hash.
pub proof fn manifest_entry_tells_the_file(
    e: FxarManifestEntry,
    f: ProcessedFile,
    u: Seq<dedup::ChunkModel>,
)
    requires
        dedup::describes(e, f, u),
    ensures
        e.path@ == f.archive_path@,
        e.size == f.meta.size && e.mode == f.meta.mode && e.mtime == f.meta.mtime,
        e.uid == f.meta.uid && e.gid == f.meta.gid,
        compress::unhex(e.blake3@) == f.blake3@,
        e.xattr@ == f.xattr@,
        e.chunks@.len() == f.chunks@.len(),
        forall|j: int|
            0 <= j < f.chunks@.len() ==> (#[trigger] e.chunks@[j]) < u.len()
                && u[e.chunks@[j] as int].0 == f.chunks@[j].hash@,
{
    compress::hex_round_trip(f.blake3@);
}

/// The table of an archive and its data go together: for each stored chunk the hash,
/// the size and the packed size in the table, and the packed bytes.
pub proof fn tables_tell_the_chunks(
    entries: Seq<records::ChunkIndexEntry>,
    blobs: Seq<Vec<u8>>,
    u: Seq<dedup::ChunkModel>,
    k: int,
)
    requires
        dedup::are_tables_of(entries, blobs, u),
        0 <= k < u.len(),
    ensures
        entries.len() == blobs.len() == u.len(),
        entries[k].blake3_hash@ == u[k].0,
        entries[k].size == u[k].1,
        blobs[k]@ == u[k].2,
        entries[k].compressed_size == blobs[k]@.len() as u32,
{
}

/// A chunk of a file is told by the hash of its bytes and by their number.
pub proof fn chunk_is_told_by_its_bytes(c: dedup::PackedChunk, data: Seq<u8>, name: Seq<char>)
    requires
        dedup::is_chunk_of(c, data, name),
        data.len() <= u32::MAX,
    ensures
        c.hash@ == hashing::blake3(data),
        c.size == data.len(),
        compress::is_packed(compress::codec_of(name), data, c.packed@) || c.packed@ == data,
{
}

/// The totals that an archive reports: as many chunks as its files have together, and
/// as many bytes.
pub proof fn totals_are_sums(files: Seq<ProcessedFile>, n: nat)
    requires
        n <= files.len(),
    ensures
        dedup::chunk_total(files, n) == files.take(n as int).fold_left(
            0int,
            |t: int, f: ProcessedFile| t + f.chunks@.len(),
        ),
        dedup::size_total(files, n) == files.take(n as int).fold_left(
            0int,
            |t: int, f: ProcessedFile| t + f.meta.size,
        ),
    decreases n,
{
    if n > 0 {
        totals_are_sums(files, (n - 1) as nat);
        assert(files.take(n as int).drop_last() =~= files.take(n - 1));
    }
}

/// The attributes of a file that start with `user.foxing` come out of an archive with
/// the bytes that went in, in order; no others do.
pub proof fn attributes_come_back(
    attrs: Seq<(String, Vec<u8>)>,
    kept: Seq<(String, String)>,
)
    requires
        dedup::pair_texts(kept) == dedup::kept_attributes(attrs, attrs.len()),
    ensures
        reader::restorable(kept, kept.len()) == attrs.filter_map(
            |a: (String, Vec<u8>)|
                if a.0@.len() >= 11 && a.0@.take(11) == "user.foxing"@ {
                    Some((a.0@, a.1@))
                } else {
                    None
                },
        ),
{
    let f = |a: (String, Vec<u8>)|
        if a.0@.len() >= 11 && a.0@.take(11) == "user.foxing"@ {
            Some((a.0@, a.1@))
        } else {
            None
        };
    attributes_are_picked(attrs, attrs.len(), f);
    assert(attrs.take(attrs.len() as int) =~= attrs);
    restored_from_texts(kept, kept.len());
}

/// What is restored of attributes that are kept as text.
spec fn restored_texts(texts: Seq<(Seq<char>, Seq<char>)>, n: nat) -> Seq<(Seq<char>, Seq<u8>)>
    decreases n,
{
    if n == 0 {
        Seq::empty()
    } else if compress::is_hex(texts[n - 1].1) {
        restored_texts(texts, (n - 1) as nat).push(
            (texts[n - 1].0, compress::unhex(texts[n - 1].1)),
        )
    } else {
        restored_texts(texts, (n - 1) as nat)
    }
}

proof fn restored_from_texts(kept: Seq<(String, String)>, n: nat)
    requires
        n <= kept.len(),
    ensures
        reader::restorable(kept, n) == restored_texts(dedup::pair_texts(kept), n),
    decreases n,
{
    if n > 0 {
        restored_from_texts(kept, (n - 1) as nat);
    }
}

proof fn restored_prefix(
    a: Seq<(Seq<char>, Seq<char>)>,
    b: Seq<(Seq<char>, Seq<char>)>,
    n: nat,
)
    requires
        n <= a.len(),
        n <= b.len(),
        forall|i: int| 0 <= i < n ==> a[i] == b[i],
    ensures
        restored_texts(a, n) == restored_texts(b, n),
    decreases n,
{
    if n > 0 {
        restored_prefix(a, b, (n - 1) as nat);
    }
}

proof fn attributes_are_picked(
    attrs: Seq<(String, Vec<u8>)>,
    n: nat,
    f: spec_fn((String, Vec<u8>)) -> Option<(Seq<char>, Seq<u8>)>,
)
    requires
        n <= attrs.len(),
        forall|a: (String, Vec<u8>)| #[trigger]
            f(a) == (if a.0@.len() >= 11 && a.0@.take(11) == "user.foxing"@ {
                Some((a.0@, a.1@))
            } else {
                None
            }),
    ensures
        restored_texts(
            dedup::kept_attributes(attrs, n),
            dedup::kept_attributes(attrs, n).len(),
        ) == attrs.take(n as int).filter_map(f),
    decreases n,
{
    let all = dedup::kept_attributes(attrs, n);
    if n > 0 {
        let before = dedup::kept_attributes(attrs, (n - 1) as nat);
        let a = attrs[n - 1];
        attributes_are_picked(attrs, (n - 1) as nat, f);
        assert(attrs.take(n as int).drop_last() =~= attrs.take(n - 1));
        reveal_strlit("user.foxing");
        assert(crate::text::starts_with(a.0@, "user.foxing"@) == (f(a) is Some)) by {
            if a.0@.len() >= 11 {
                assert(a.0@.take(11) =~= a.0@.subrange(0, 11));
            }
        }
        if f(a) is Some {
            compress::hex_round_trip(a.1@);
            restored_prefix(all, before, before.len());
            assert(all.len() == before.len() + 1);
        }
    }
    assert(restored_texts(all, all.len()) =~= attrs.take(n as int).filter_map(f));
}

/// A file is put together from its chunks in their order.
pub proof fn file_is_its_chunks_in_order(store: Seq<Vec<u8>>, chunks: Seq<u64>, n: nat)
    requires
        n <= chunks.len(),
    ensures
        reader::file_bytes(store, chunks, n) == chunks.take(n as int).fold_left(
            Seq::<u8>::empty(),
            |t: Seq<u8>, c: u64| t + store[c as int]@,
        ),
    decreases n,
{
    if n > 0 {
        file_is_its_chunks_in_order(store, chunks, (n - 1) as nat);
        assert(chunks.take(n as int).drop_last() =~= chunks.take(n - 1));
    }
}

/// One file restored alone has the bytes that it has where all are restored.
pub proof fn one_file_is_as_in_all(
    r: reader::FxarReader,
    index: Seq<records::ChunkIndexEntry>,
    store: Seq<Vec<u8>>,
    chunks: Seq<u64>,
    n: nat,
)
    requires
        n <= chunks.len(),
        store.len() == index.len(),
        forall|j: int| 0 <= j < chunks.len() ==> (#[trigger] chunks[j]) < index.len(),
        forall|k: int|
            0 <= k < index.len() ==> (#[trigger] store[k])@ == r.chunk_bytes(index[k]),
    ensures
        r.used_bytes(reader::used_entries(index, chunks), n) == reader::file_bytes(
            store,
            chunks,
            n,
        ),
    decreases n,
{
    if n > 0 {
        one_file_is_as_in_all(r, index, store, chunks, (n - 1) as nat);
        let k = chunks[n - 1] as int;
        assert(store[k]@ == r.chunk_bytes(index[k]));
    }
}

/// A chunk is handed out only where it stands in the archive whole, at its offset, and
/// what it unpacks to has the hash that the table gives.
pub proof fn damaged_chunk_is_refused(r: reader::FxarReader, e: records::ChunkIndexEntry)
    ensures
        r.chunk_readable(e) ==> hashing::blake3(r.chunk_bytes(e)) == e.blake3_hash@,
        r.chunk_readable(e) && e.compressed_size > 0 ==> e.offset + e.compressed_size
            <= r.data@.len() && compress::unpacked(
            r.header.flags,
            r.data@.subrange(e.offset as int, e.offset + e.compressed_size),
        ) == Some(r.chunk_bytes(e)),
        e.compressed_size > 0 && e.offset + e.compressed_size > r.data@.len() ==> !r.chunk_readable(
            e,
        ),
{
}

/// A file passes the check of its hash where the manifest has the hash of its bytes in
/// hexadecimal, and bytes with another hash do not pass.
pub proof fn file_check_is_by_hash(file: FxarManifestEntry, data: Seq<u8>, other: Seq<u8>)
    ensures
        file.blake3@ == compress::hex_text(hashing::blake3(data)) ==> reader::hash_matches(
            file,
            data,
        ),
        file.blake3@ == compress::hex_text(hashing::blake3(data)) && hashing::blake3(other)
            != hashing::blake3(data) ==> !reader::hash_matches(file, other),
{
    compress::hex_round_trip(hashing::blake3(data));
}

/// The file that is restored by its path is the first of that path.
pub proof fn first_file_is_found(files: Seq<FxarManifestEntry>, p: Seq<char>, i: int)
    requires
        0 <= i <= files.len(),
    ensures
        match reader::first_file(files, p, i) {
            Some(k) => i <= k < files.len() && files[k].path@ == p && forall|j: int|
                i <= j < k ==> (#[trigger] files[j]).path@ != p,
            None => forall|j: int| i <= j < files.len() ==> (#[trigger] files[j]).path@ != p,
        },
    decreases files.len() - i,
{
    if i < files.len() && files[i].path@ != p {
        first_file_is_found(files, p, i + 1);
    }
}

/// The sizes that an archive is measured by are sums over its files and its chunks.
pub proof fn sizes_are_sums(
    files: Seq<FxarManifestEntry>,
    index: Seq<records::ChunkIndexEntry>,
    n: nat,
    m: nat,
)
    requires
        n <= files.len(),
        m <= index.len(),
    ensures
        reader::restored_size(files, n) == files.take(n as int).fold_left(
            0int,
            |t: int, f: FxarManifestEntry| t + f.size,
        ),
        reader::packed_size(index, m) == index.take(m as int).fold_left(
            0int,
            |t: int, e: records::ChunkIndexEntry| t + e.compressed_size,
        ),
        reader::plain_size(index, m) == index.take(m as int).fold_left(
            0int,
            |t: int, e: records::ChunkIndexEntry| t + e.size,
        ),
    decreases n + m,
{
    if n > 0 {
        sizes_are_sums(files, index, (n - 1) as nat, m);
        assert(files.take(n as int).drop_last() =~= files.take(n - 1));
    }
    if m > 0 {
        sizes_are_sums(files, index, n, (m - 1) as nat);
        assert(index.take(m as int).drop_last() =~= index.take(m - 1));
    }
}

/// Files are restored only where the room that is known suffices for all of them and
/// ten megabytes more.
pub proof fn restoring_leaves_room(files: Seq<FxarManifestEntry>, available: u64)
    ensures
        reader::has_space(files, None),
        reader::has_space(files, Some(available)) <==> available - 10 * 1024 * 1024
            >= reader::restored_size(files, files.len()),
{
}

} // verus!
