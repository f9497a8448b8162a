//! Storing every chunk once: files are cut into packed chunks, and chunks of one
//! hash share one place in the archive.

use crate::bytes;
use crate::chunker::{self, GearChunker};
use crate::compress;
use crate::fxar::records::ChunkIndexEntry;
use crate::hashing;
use crate::text;
use std::collections::HashMap;
use vstd::prelude::*;
use vstd::string::StringExecFns;

verus! {

/// What the archive keeps of a file besides its contents.
#[derive(Debug, Clone, Copy, PartialEq, Eq, Structural)]
pub struct FileMeta {
    pub size: u64,
    pub mode: u32,
    pub mtime: i64,
    pub uid: u32,
    pub gid: u32,
}

/// A chunk as it is stored: the hash and size of its bytes, and what they were
/// packed to.
#[derive(Debug)]
pub struct PackedChunk {
    pub hash: [u8; 32],
    pub size: u32,
    pub packed: Vec<u8>,
}

/// A file cut into packed chunks.
#[derive(Debug)]
pub struct ProcessedFile {
    pub archive_path: String,
    pub meta: FileMeta,
    pub blake3: [u8; 32],
    pub chunks: Vec<PackedChunk>,
    /// Attribute names and their values in hexadecimal.
    pub xattr: Vec<(String, String)>,
}

/// A file of the manifest: what is kept of it, and its chunks by number.
#[derive(Debug)]
pub struct FxarManifestEntry {
    pub path: String,
    pub size: u64,
    pub mode: u32,
    pub mtime: i64,
    pub uid: u32,
    pub gid: u32,
    pub blake3: String,
    pub chunks: Vec<u64>,
    pub xattr: Vec<(String, String)>,
}

/// The manifest of an archive.
#[derive(Debug)]
pub struct FxarManifest {
    pub version: u32,
    pub created: String,
    pub files: Vec<FxarManifestEntry>,
    pub snapshots: Vec<String>,
}

/// What an export came to.
#[derive(Debug, Clone, Copy, PartialEq, Eq, Structural)]
pub struct FxarExportStats {
    pub snapshots_exported: u64,
    pub total_files: u64,
    pub total_apparent_bytes: u64,
    pub chunk_count: u64,
    pub unique_chunks: u64,
    pub dedup_chunks: u64,
    pub archive_bytes: u64,
}

impl Default for FxarExportStats {
    fn default() -> (s: Self)
        ensures
            s == FxarExportStats::none(),
    {
        FxarExportStats {
            snapshots_exported: 0,
            total_files: 0,
            total_apparent_bytes: 0,
            chunk_count: 0,
            unique_chunks: 0,
            dedup_chunks: 0,
            archive_bytes: 0,
        }
    }
}

impl FxarExportStats {
    /// Statistics of an empty export.
    pub open spec fn none() -> FxarExportStats {
        FxarExportStats {
            snapshots_exported: 0,
            total_files: 0,
            total_apparent_bytes: 0,
            chunk_count: 0,
            unique_chunks: 0,
            dedup_chunks: 0,
            archive_bytes: 0,
        }
    }
}

/// A chunk as plain values.
pub type ChunkModel = (Seq<u8>, u32, Seq<u8>);

/// A packed chunk as plain values.
pub open spec fn model(c: PackedChunk) -> ChunkModel {
    (c.hash@, c.size, c.packed@)
}

/// Whether `packed` is what the archive stores for `data`: what the compressor
/// made of it, or `data` itself where Zstandard made nothing.
pub open spec fn may_store(name: Seq<char>, data: Seq<u8>, packed: Seq<u8>) -> bool {
    compress::is_packed(compress::codec_of(name), data, packed) || (packed == data
        && compress::codec_of(name) is Zstd && compress::zstd_fails(
        compress::codec_of(name),
        data,
    ))
}

/// Whether `c` is a chunk of `data`, packed.
pub open spec fn is_chunk_of(c: PackedChunk, data: Seq<u8>, name: Seq<char>) -> bool {
    &&& c.hash@ == hashing::blake3(data)
    &&& c.size == data.len() as u32
    &&& may_store(name, data, c.packed@)
}

/// The attributes that an archive keeps, among the first `n`: those whose name
/// starts with `user.foxing`, with their values in hexadecimal.
pub open spec fn kept_attributes(attrs: Seq<(String, Vec<u8>)>, n: nat) -> Seq<
    (Seq<char>, Seq<char>),
>
    decreases n,
{
    if n == 0 {
        Seq::empty()
    } else {
        let before = kept_attributes(attrs, (n - 1) as nat);
        if text::starts_with(attrs[n - 1].0@, "user.foxing"@) {
            before.push((attrs[n - 1].0@, compress::hex_text(attrs[n - 1].1@)))
        } else {
            before
        }
    }
}

/// Pairs of strings as plain values.
pub open spec fn pair_texts(v: Seq<(String, String)>) -> Seq<(Seq<char>, Seq<char>)> {
    Seq::new(v.len(), |i: int| (v[i].0@, v[i].1@))
}

/// The name of a snapshot's file in the archive.
pub fn archive_path(snapshot: &str, relative: &str) -> (p: String)
    ensures
        p@ == snapshot@ + "/tree/"@ + relative@,
{
    text::concat3(snapshot, "/tree/", relative)
}

/// The sizes that an archive's chunks have.
pub open spec fn archive_chunker() -> GearChunker {
    GearChunker {
        min: chunker::DEFAULT_CHUNK_MIN,
        avg: chunker::DEFAULT_CHUNK_AVG,
        max: chunker::DEFAULT_CHUNK_MAX,
    }
}

/// Cuts a file into chunks and packs each of them.
pub fn process_file(
    archive_path: String,
    meta: FileMeta,
    contents: &[u8],
    attributes: &Vec<(String, Vec<u8>)>,
    compressor: &str,
) -> (f: ProcessedFile)
    ensures
        f.archive_path@ == archive_path@,
        f.meta == meta,
        f.blake3@ == hashing::blake3(contents@),
        ({
            let parts = archive_chunker().chunks_from(contents@, 0);
            &&& f.chunks@.len() == parts.len()
            &&& forall|i: int|
                0 <= i < parts.len() ==> is_chunk_of(
                    #[trigger] f.chunks@[i],
                    parts[i],
                    compressor@,
                )
        }),
        pair_texts(f.xattr@) == kept_attributes(attributes@, attributes@.len()),
{
    let blake3 = hashing::blake3_hash(contents);
    let cutter = GearChunker::default();
    let cut = cutter.chunk_slice(contents);
    let ghost parts = archive_chunker().chunks_from(contents@, 0);
    assert(chunker::chunk_data(cut@) == parts);
    let mut chunks: Vec<PackedChunk> = Vec::new();
    let mut i: usize = 0;
    while i < cut.len()
        invariant
            i <= cut@.len(),
            cutter == archive_chunker(),
            cutter.wf(),
            chunker::chunk_data(cut@) == parts,
            parts == cutter.chunks_from(contents@, 0),
            forall|k: int|
                0 <= k < cut@.len() ==> (#[trigger] cut@[k]).hash@ == hashing::blake3(
                    cut@[k].data@,
                ),
            chunks@.len() == i,
            forall|k: int|
                0 <= k < i ==> is_chunk_of(#[trigger] chunks@[k], parts[k], compressor@),
        decreases cut@.len() - i,
    {
        proof {
            assert(parts[i as int] == cut@[i as int].data@);
            let ends = cutter.ends_from(contents@, 0);
            assert(parts.len() == ends.len());
            cutter.chunk_sizes(contents@, 0, i as int);
            cutter.ends_are_increasing(contents@, 0);
            let from = chunker::start_of(0, ends, i as int);
            assert(from < ends[i as int] <= contents@.len());
            assert(0 <= from) by {
                if i > 0 {
                    assert(chunker::start_of(0, ends, i - 1) < ends[i - 1]);
                    chunker::ends_are_positive(contents@, cutter.ends_from(contents@, 0), i - 1);
                }
            }
            assert(parts[i as int].len() == ends[i as int] - from);
        }
        let data = cut[i].data.as_slice();
        let packed = compress::compress_chunk(data, compressor);
        chunks.push(PackedChunk { hash: cut[i].hash, size: data.len() as u32, packed });
        i = i + 1;
    }
    let mut xattr: Vec<(String, String)> = Vec::new();
    let mut k: usize = 0;
    assert(pair_texts(xattr@) =~= Seq::empty());
    while k < attributes.len()
        invariant
            k <= attributes@.len(),
            pair_texts(xattr@) == kept_attributes(attributes@, k as nat),
        decreases attributes@.len() - k,
    {
        let ghost before = xattr@;
        if text::has_prefix(attributes[k].0.as_str(), "user.foxing") {
            let value = compress::hex_encode(attributes[k].1.as_slice());
            xattr.push((attributes[k].0.clone(), value));
            assert(pair_texts(xattr@) =~= pair_texts(before).push(
                (attributes@[k as int].0@, compress::hex_text(attributes@[k as int].1@)),
            ));
        }
        k = k + 1;
    }
    ProcessedFile { archive_path, meta, blake3, chunks, xattr }
}

/// The number under which a hash is filed.
pub open spec fn bucket_of(hash: Seq<u8>) -> u64 {
    bytes::le64_value(hash.subrange(0, 8))
}

/// Chunks stored so far, each hash once, and where to find a hash among them.
#[derive(Debug)]
pub struct ChunkTable {
    pub entries: Vec<ChunkIndexEntry>,
    pub blobs: Vec<Vec<u8>>,
    pub buckets: HashMap<u64, Vec<u64>>,
}

/// Whether no two entries have one hash.
pub open spec fn hashes_differ(entries: Seq<ChunkIndexEntry>) -> bool {
    forall|i: int, j: int|
        0 <= i < j < entries.len() ==> (#[trigger] entries[i]).blake3_hash@ != (
        #[trigger] entries[j]).blake3_hash@
}

/// The place of a hash among entries, where it is there.
pub open spec fn has_hash(entries: Seq<ChunkIndexEntry>, hash: Seq<u8>, i: int) -> bool {
    0 <= i < entries.len() && entries[i].blake3_hash@ == hash
}

impl ChunkTable {
    /// Each hash is stored once, with its bytes, and is filed under its number.
    pub open spec fn wf(&self) -> bool {
        &&& self.entries@.len() == self.blobs@.len()
        &&& self.entries@.len() <= u64::MAX
        &&& hashes_differ(self.entries@)
        &&& forall|k: int|
            0 <= k < self.entries@.len() ==> {
                let b = bucket_of((#[trigger] self.entries@[k]).blake3_hash@);
                self.buckets@.contains_key(b) && self.buckets@[b]@.contains(k as u64)
            }
        &&& forall|b: u64, i: int|
            #![trigger self.buckets@[b]@[i]]
            self.buckets@.contains_key(b) && 0 <= i < self.buckets@[b]@.len()
                ==> self.buckets@[b]@[i] < self.entries@.len()
    }

    /// A table without chunks.
    pub fn new() -> (t: ChunkTable)
        ensures
            t.wf(),
            t.entries@.len() == 0,
            t.blobs@.len() == 0,
    {
        broadcast use vstd::std_specs::hash::group_hash_axioms;

        ChunkTable { entries: Vec::new(), blobs: Vec::new(), buckets: HashMap::new() }
    }

    /// The place of a hash, where it is stored.
    fn find(&self, hash: &[u8; 32]) -> (res: Option<u64>)
        requires
            self.wf(),
        ensures
            match res {
                Some(k) => has_hash(self.entries@, hash@, k as int),
                None => forall|k: int| !has_hash(self.entries@, hash@, k),
            },
    {
        broadcast use vstd::std_specs::hash::group_hash_axioms;

        let b: u64 = bytes::get_le64(hash.as_slice(), 0);
        match self.buckets.get(&b) {
            None => {
                assert forall|k: int| !has_hash(self.entries@, hash@, k) by {
                    if has_hash(self.entries@, hash@, k) {
                        assert(self.buckets@.contains_key(
                            bucket_of(self.entries@[k].blake3_hash@),
                        ));
                    }
                }
                None
            },
            Some(list) => {
                let mut i: usize = 0;
                while i < list.len()
                    invariant
                        i <= list@.len(),
                        self.wf(),
                        self.buckets@.contains_key(b),
                        self.buckets@[b] == *list,
                        forall|j: int|
                            0 <= j < i ==> self.entries@[(#[trigger] list@[j]) as int].blake3_hash@
                                != hash@,
                    decreases list@.len() - i,
                {
                    let k: u64 = list[i];
                    assert(self.buckets@[b]@[i as int] == k);
                    assert(self.entries.len() == self.entries@.len());
                    if hashing::same_hash(&self.entries[k as usize].blake3_hash, hash) {
                        return Some(k);
                    }
                    i = i + 1;
                }
                assert forall|k: int| !has_hash(self.entries@, hash@, k) by {
                    if has_hash(self.entries@, hash@, k) {
                        assert(self.buckets@[b]@.contains(k as u64));
                        let j = choose|j: int| 0 <= j < list@.len() && list@[j] == k as u64;
                        assert(self.entries@[list@[j] as int].blake3_hash@ == hash@);
                    }
                }
                None
            },
        }
    }

    /// Stores a chunk, unless one of its hash is stored already; returns its
    /// place and whether it is new.
    pub fn store(&mut self, chunk: PackedChunk) -> (r: (u64, bool))
        requires
            old(self).wf(),
            old(self).entries@.len() < u64::MAX,
        ensures
            final(self).wf(),
            has_hash(final(self).entries@, chunk.hash@, r.0 as int),
            r.1 == (forall|k: int| !has_hash(old(self).entries@, chunk.hash@, k)),
            if r.1 {
                &&& r.0 == old(self).entries@.len()
                &&& final(self).entries@ == old(self).entries@.push(
                    ChunkIndexEntry {
                        blake3_hash: chunk.hash,
                        size: chunk.size,
                        offset: 0,
                        compressed_size: chunk.packed@.len() as u32,
                    },
                )
                &&& final(self).blobs@ == old(self).blobs@.push(chunk.packed)
            } else {
                &&& final(self).entries@ == old(self).entries@
                &&& final(self).blobs@ == old(self).blobs@
            },
    {
        broadcast use vstd::std_specs::hash::group_hash_axioms;

        match self.find(&chunk.hash) {
            Some(k) => {
                return (k, false);
            },
            None => {},
        }
        let index: u64 = self.entries.len() as u64;
        let b: u64 = bytes::get_le64(chunk.hash.as_slice(), 0);
        let ghost old_buckets = self.buckets@;
        let mut list: Vec<u64> = match self.buckets.remove(&b) {
            Some(v) => v,
            None => Vec::new(),
        };
        let ghost before = list@;
        list.push(index);
        self.buckets.insert(b, list);
        self.entries.push(
            ChunkIndexEntry {
                blake3_hash: chunk.hash,
                size: chunk.size,
                offset: 0,
                compressed_size: chunk.packed.len() as u32,
            },
        );
        self.blobs.push(chunk.packed);
        proof {
            let n = old(self).entries@.len() as int;
            assert(list@ == before.push(index));
            assert(self.buckets@ =~= old_buckets.insert(b, list));
            assert(list@[before.len() as int] == index);
            assert forall|k: int| 0 <= k < self.entries@.len() implies {
                let c = bucket_of((#[trigger] self.entries@[k]).blake3_hash@);
                self.buckets@.contains_key(c) && self.buckets@[c]@.contains(k as u64)
            } by {
                let c = bucket_of(self.entries@[k].blake3_hash@);
                if k < n {
                    assert(self.entries@[k] == old(self).entries@[k]);
                    assert(old_buckets[c]@.contains(k as u64));
                    if c == b {
                        let j = choose|j: int| 0 <= j < before.len() && before[j] == k as u64;
                        assert(list@[j] == k as u64);
                    }
                } else {
                    assert(c == b);
                }
            }
            assert forall|c: u64, i: int|
                #![trigger self.buckets@[c]@[i]]
                self.buckets@.contains_key(c) && 0 <= i
                    < self.buckets@[c]@.len() implies self.buckets@[c]@[i] < self.entries@.len() by {
                if c == b {
                    if i < before.len() {
                        assert(old_buckets[b]@[i] == before[i]);
                    }
                } else {
                    assert(old_buckets[c]@[i] < n);
                }
            }
            assert forall|i: int, j: int| 0 <= i < j < self.entries@.len() implies (
            #[trigger] self.entries@[i]).blake3_hash@ != (#[trigger] self.entries@[j]).blake3_hash@ by {
                if j == n {
                    assert(!has_hash(old(self).entries@, chunk.hash@, i));
                } else {
                    assert(old(self).entries@[i].blake3_hash@ != old(
                        self,
                    ).entries@[j].blake3_hash@);
                }
            }
        }
        (index, true)
    }
}

/// The chunks of a table as plain values.
pub open spec fn stored(t: ChunkTable) -> Seq<ChunkModel> {
    Seq::new(
        t.entries@.len(),
        |k: int| (t.entries@[k].blake3_hash@, t.entries@[k].size, t.blobs@[k]@),
    )
}

/// Whether a chunk of this hash is among chunks.
pub open spec fn holds(u: Seq<ChunkModel>, hash: Seq<u8>) -> bool {
    exists|k: int| 0 <= k < u.len() && (#[trigger] u[k]).0 == hash
}

/// Chunks `u` with those of `ms` added in turn whose hash is not there yet.
pub open spec fn with_new(u: Seq<ChunkModel>, ms: Seq<ChunkModel>) -> Seq<ChunkModel>
    decreases ms.len(),
{
    if ms.len() == 0 {
        u
    } else {
        let v = with_new(u, ms.drop_last());
        if holds(v, ms.last().0) {
            v
        } else {
            v.push(ms.last())
        }
    }
}

/// Chunks as plain values.
pub open spec fn models(chunks: Seq<PackedChunk>) -> Seq<ChunkModel> {
    Seq::new(chunks.len(), |i: int| model(chunks[i]))
}

/// The chunks of the first `n` files, in turn, each hash once.
pub open spec fn unique_chunks(files: Seq<ProcessedFile>, n: nat) -> Seq<ChunkModel>
    decreases n,
{
    if n == 0 {
        Seq::empty()
    } else {
        with_new(unique_chunks(files, (n - 1) as nat), models(files[n - 1].chunks@))
    }
}

/// The number of chunks of the first `n` files.
pub open spec fn chunk_total(files: Seq<ProcessedFile>, n: nat) -> nat
    decreases n,
{
    if n == 0 {
        0
    } else {
        chunk_total(files, (n - 1) as nat) + files[n - 1].chunks@.len()
    }
}

/// The size of the first `n` files.
pub open spec fn size_total(files: Seq<ProcessedFile>, n: nat) -> nat
    decreases n,
{
    if n == 0 {
        0
    } else {
        size_total(files, (n - 1) as nat) + files[n - 1].meta.size as nat
    }
}

/// Whether `u` is the start of `v`.
pub open spec fn is_start_of(u: Seq<ChunkModel>, v: Seq<ChunkModel>) -> bool {
    u.len() <= v.len() && v.subrange(0, u.len() as int) == u
}

/// Adding chunks keeps those that are there in their places.
pub proof fn with_new_keeps(u: Seq<ChunkModel>, ms: Seq<ChunkModel>)
    ensures
        is_start_of(u, with_new(u, ms)),
        with_new(u, ms).len() <= u.len() + ms.len(),
    decreases ms.len(),
{
    if ms.len() == 0 {
        assert(u.subrange(0, u.len() as int) =~= u);
    } else {
        with_new_keeps(u, ms.drop_last());
        let v = with_new(u, ms.drop_last());
        let w = with_new(u, ms);
        assert(w.subrange(0, u.len() as int) =~= v.subrange(0, u.len() as int));
    }
}

/// Whether the manifest entry of a file is what was kept of it, and its chunk
/// numbers lead to chunks of the file's hashes.
pub open spec fn describes(e: FxarManifestEntry, f: ProcessedFile, u: Seq<ChunkModel>) -> bool {
    &&& e.path@ == f.archive_path@
    &&& e.size == f.meta.size
    &&& e.mode == f.meta.mode
    &&& e.mtime == f.meta.mtime
    &&& e.uid == f.meta.uid
    &&& e.gid == f.meta.gid
    &&& e.blake3@ == compress::hex_text(f.blake3@)
    &&& e.xattr@ == f.xattr@
    &&& e.chunks@.len() == f.chunks@.len()
    &&& forall|j: int|
        0 <= j < e.chunks@.len() ==> (#[trigger] e.chunks@[j]) < u.len() && u[e.chunks@[j] as int].0
            == f.chunks@[j].hash@
}

/// The index entries and blobs of chunks that have no place in the archive yet.
pub open spec fn unplaced(t: ChunkTable) -> bool {
    forall|k: int|
        0 <= k < t.entries@.len() ==> (#[trigger] t.entries@[k]).offset == 0
            && t.entries@[k].compressed_size == t.blobs@[k]@.len() as u32
}

impl ChunkTable {
    /// Stores the chunks of a file; returns their places and how many are new.
    fn store_all(&mut self, chunks: Vec<PackedChunk>) -> (r: (Vec<u64>, u64))
        requires
            old(self).wf(),
            unplaced(*old(self)),
            old(self).entries@.len() + chunks@.len() < u64::MAX,
        ensures
            final(self).wf(),
            unplaced(*final(self)),
            stored(*final(self)) == with_new(stored(*old(self)), models(chunks@)),
            r.1 == final(self).entries@.len() - old(self).entries@.len(),
            r.0@.len() == chunks@.len(),
            forall|j: int|
                0 <= j < chunks@.len() ==> (#[trigger] r.0@[j]) < final(self).entries@.len()
                    && stored(*final(self))[r.0@[j] as int].0 == chunks@[j].hash@,
    {
        let ghost ms = models(chunks@);
        let ghost start = stored(*self);
        let ghost all = chunks@;
        let mut places: Vec<u64> = Vec::new();
        let mut added: u64 = 0;
        assert(ms.subrange(0, 0) =~= Seq::empty());
        for chunk in it: chunks
            invariant
                it.seq() == all,
                ms == models(all),
                self.wf(),
                unplaced(*self),
                start.len() + all.len() < u64::MAX,
                stored(*self) == with_new(start, ms.subrange(0, it.index())),
                added == stored(*self).len() - start.len(),
                stored(*self).len() <= start.len() + it.index(),
                places@.len() == it.index(),
                forall|j: int|
                    0 <= j < it.index() ==> (#[trigger] places@[j]) < stored(*self).len()
                        && stored(*self)[places@[j] as int].0 == all[j].hash@,
        {
            let ghost before = stored(*self);
            let ghost old_t = *self;
            let ghost i = it.index();
            let ghost m = model(chunk);
            assert(m == ms[i]);
            let (place, new) = self.store(chunk);
            proof {
                let part = ms.subrange(0, i + 1);
                assert(part.drop_last() =~= ms.subrange(0, i));
                assert(part.last() == m);
                assert(new == !holds(before, m.0)) by {
                    if holds(before, m.0) {
                        let k = choose|k: int| 0 <= k < before.len() && (#[trigger] before[k]).0 == m.0;
                        assert(has_hash(old_t.entries@, m.0, k));
                    }
                    if !new {
                        let k = choose|k: int| has_hash(old_t.entries@, m.0, k);
                        assert(before[k].0 == m.0);
                    }
                }
                if new {
                    assert(stored(*self) =~= before.push(m));
                } else {
                    assert(stored(*self) =~= before);
                }
                assert(stored(*self) == with_new(start, part));
                assert(stored(*self)[place as int].0 == m.0);
                assert forall|j: int| 0 <= j < i implies (#[trigger] places@[j]) < stored(*self).len()
                    && stored(*self)[places@[j] as int].0 == all[j].hash@ by {
                    assert(before[places@[j] as int].0 == all[j].hash@);
                }
            }
            if new {
                added = added + 1;
            }
            places.push(place);
        }
        assert(ms.subrange(0, all.len() as int) =~= ms);
        (places, added)
    }
}

/// The tables of an archive: its manifest's files, and its chunks.
#[derive(Debug)]
pub struct DedupTables {
    pub files: Vec<FxarManifestEntry>,
    pub entries: Vec<ChunkIndexEntry>,
    pub blobs: Vec<Vec<u8>>,
    pub stats: FxarExportStats,
}

/// Whether index entries and blobs are chunks that have no place yet.
pub open spec fn are_tables_of(
    entries: Seq<ChunkIndexEntry>,
    blobs: Seq<Vec<u8>>,
    u: Seq<ChunkModel>,
) -> bool {
    &&& entries.len() == u.len()
    &&& blobs.len() == u.len()
    &&& forall|k: int|
        0 <= k < u.len() ==> (#[trigger] entries[k]).blake3_hash@ == u[k].0 && entries[k].size
            == u[k].1 && entries[k].offset == 0 && entries[k].compressed_size == u[k].2.len() as u32
            && blobs[k]@ == u[k].2
}

/// Puts files together: each chunk is stored once, in the order in which the
/// files first have it, and the files refer to their chunks by number.
pub fn build_dedup_tables(processed: Vec<ProcessedFile>) -> (t: DedupTables)
    requires
        chunk_total(processed@, processed@.len()) < u64::MAX,
        size_total(processed@, processed@.len()) <= u64::MAX,
    ensures
        ({
            let n = processed@.len();
            let u = unique_chunks(processed@, n);
            &&& are_tables_of(t.entries@, t.blobs@, u)
            &&& hashes_differ(t.entries@)
            &&& t.files@.len() == n
            &&& forall|i: int|
                0 <= i < n ==> describes(#[trigger] t.files@[i], processed@[i], u)
            &&& t.stats == FxarExportStats {
                snapshots_exported: 0,
                total_files: n as u64,
                total_apparent_bytes: size_total(processed@, n) as u64,
                chunk_count: chunk_total(processed@, n) as u64,
                unique_chunks: u.len() as u64,
                dedup_chunks: (chunk_total(processed@, n) - u.len()) as u64,
                archive_bytes: 0,
            }
            &&& u.len() <= chunk_total(processed@, n)
        }),
{
    let ghost all = processed@;
    let ghost total = processed@.len();
    assert(processed.len() == processed@.len());
    let mut table = ChunkTable::new();
    let mut files: Vec<FxarManifestEntry> = Vec::new();
    let mut stats = FxarExportStats::default();
    assert(stored(table) =~= Seq::empty());
    for file in it: processed
        invariant
            it.seq() == all,
            total == all.len(),
            total <= usize::MAX,
            chunk_total(all, total) < u64::MAX,
            size_total(all, total) <= u64::MAX,
            table.wf(),
            unplaced(table),
            stored(table) == unique_chunks(all, it.index() as nat),
            stored(table).len() <= chunk_total(all, it.index() as nat),
            files@.len() == it.index(),
            forall|k: int| 0 <= k < it.index() ==> describes(#[trigger] files@[k], all[k], stored(table)),
            stats == (FxarExportStats {
                snapshots_exported: 0,
                total_files: it.index() as u64,
                total_apparent_bytes: size_total(all, it.index() as nat) as u64,
                chunk_count: chunk_total(all, it.index() as nat) as u64,
                unique_chunks: stored(table).len() as u64,
                dedup_chunks: (chunk_total(all, it.index() as nat) - stored(table).len()) as u64,
                archive_bytes: 0,
            }),
    {
        let ghost i = it.index() as nat;
        let ghost before = stored(table);
        let ghost f = file;
        proof {
            totals_increase(all, i + 1, total);
            totals_increase(all, i, total);
            with_new_keeps(before, models(file.chunks@));
        }
        let count: u64 = file.chunks.len() as u64;
        stats.total_files = stats.total_files + 1;
        stats.total_apparent_bytes = stats.total_apparent_bytes + file.meta.size;
        let blake3 = compress::hex_encode(file.blake3.as_slice());
        let (places, added) = table.store_all(file.chunks);
        stats.chunk_count = stats.chunk_count + count;
        stats.unique_chunks = stats.unique_chunks + added;
        stats.dedup_chunks = stats.dedup_chunks + (count - added);
        files.push(
            FxarManifestEntry {
                path: file.archive_path,
                size: file.meta.size,
                mode: file.meta.mode,
                mtime: file.meta.mtime,
                uid: file.meta.uid,
                gid: file.meta.gid,
                blake3,
                chunks: places,
                xattr: file.xattr,
            },
        );
        proof {
            let u = stored(table);
            assert forall|k: int| 0 <= k < i + 1 implies describes(
                #[trigger] files@[k],
                all[k],
                u,
            ) by {
                if k < i {
                    assert(describes(files@[k], all[k], before));
                    assert forall|j: int| 0 <= j < files@[k].chunks@.len() implies (
                    #[trigger] files@[k].chunks@[j]) < u.len() && u[files@[k].chunks@[j] as int].0
                        == all[k].chunks@[j].hash@ by {
                        let p = files@[k].chunks@[j] as int;
                        assert(u.subrange(0, before.len() as int)[p] == u[p]);
                    }
                }
            }
        }
    }
    DedupTables { files, entries: table.entries, blobs: table.blobs, stats }
}

/// Totals of more files are no smaller.
proof fn totals_increase(files: Seq<ProcessedFile>, i: nat, n: nat)
    requires
        i <= n,
    ensures
        chunk_total(files, i) <= chunk_total(files, n),
        size_total(files, i) <= size_total(files, n),
    decreases n - i,
{
    if i < n {
        totals_increase(files, i, (n - 1) as nat);
    }
}

/// A file is processed whole: its hash is that of its contents, and its chunks are those
/// that the archive's chunker cuts, each with its own hash and packed as the compressor packs
/// it; of the plain bytes only where Zstandard failed.
pub proof fn processed_file_is_whole(
    archive_path: String,
    meta: FileMeta,
    contents: &[u8],
    attributes: &Vec<(String, Vec<u8>)>,
    compressor: &str,
    f: ProcessedFile,
    i: int,
)
    requires
        call_ensures(process_file, (archive_path, meta, contents, attributes, compressor), f),
        0 <= i < f.chunks@.len(),
    ensures
        f.archive_path@ == archive_path@,
        f.meta == meta,
        f.blake3@ == hashing::blake3(contents@),
        ({
            let cutter = GearChunker { min: 2048, avg: 65536, max: 2097152 };
            let parts = cutter.chunks_from(contents@, 0);
            let codec = compress::codec_of(compressor@);
            &&& f.chunks@.len() == parts.len()
            &&& f.chunks@[i].hash@ == hashing::blake3(parts[i])
            &&& f.chunks@[i].size == parts[i].len() as u32
            &&& compress::is_packed(codec, parts[i], f.chunks@[i].packed@) || (
            f.chunks@[i].packed@ == parts[i] && compress::zstd_fails(codec, parts[i]))
        }),
{
    let parts = archive_chunker().chunks_from(contents@, 0);
    assert(is_chunk_of(f.chunks@[i], parts[i], compressor@));
}

/// A chunk is stored where its hash is not there yet, at the end, and else found where it is.
pub proof fn known_chunk_is_not_stored_again(
    t: &mut ChunkTable,
    chunk: PackedChunk,
    r: (u64, bool),
)
    requires
        call_ensures(ChunkTable::store, (t, chunk), r),
        old(t).wf(),
        old(t).entries@.len() < u64::MAX,
    ensures
        r.0 < final(t).entries@.len(),
        final(t).entries@[r.0 as int].blake3_hash@ == chunk.hash@,
        r.1 <==> forall|k: int|
            0 <= k < old(t).entries@.len() ==> (#[trigger] old(t).entries@[k]).blake3_hash@
                != chunk.hash@,
        !r.1 ==> final(t).entries@ == old(t).entries@ && final(t).blobs@ == old(t).blobs@,
        r.1 ==> final(t).entries@.len() == old(t).entries@.len() + 1 && final(t).blobs@.last()
            == chunk.packed && final(t).entries@.last().size == chunk.size,
        forall|k: int|
            0 <= k < old(t).entries@.len() ==> (#[trigger] final(t).entries@[k]) == old(
                t,
            ).entries@[k],
{
    assert(has_hash(final(t).entries@, chunk.hash@, r.0 as int));
    if r.1 {
        assert forall|k: int| 0 <= k < old(t).entries@.len() implies (#[trigger] old(
            t,
        ).entries@[k]).blake3_hash@ != chunk.hash@ by {
            assert(!has_hash(old(t).entries@, chunk.hash@, k));
        }
    } else {
        let k = choose|k: int| has_hash(old(t).entries@, chunk.hash@, k);
        assert(old(t).entries@[k].blake3_hash@ == chunk.hash@);
    }
}

/// A chunk may be stored as it was packed, and as it is only where Zstandard was to pack it
/// and gave no frame.
pub proof fn plain_bytes_are_stored_only_on_failure(
    name: Seq<char>,
    data: Seq<u8>,
    packed: Seq<u8>,
)
    requires
        may_store(name, data, packed),
    ensures
        compress::is_packed(compress::codec_of(name), data, packed) || {
            &&& packed == data
            &&& compress::codec_of(name) is Zstd
            &&& compress::zstd_answers(data, compress::codec_of(name)->Zstd_0, None)
        },
{
}

} // verus!
