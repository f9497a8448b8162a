//! Merkle trees over the fixed-size chunks of a file: building and comparing
//! them, and the signatures that are stored of them.

use crate::hashing;
use vstd::prelude::*;

verus! {

/// The hash of one chunk of a file.
#[derive(Debug, Clone, Copy)]
pub struct ChunkHash {
    pub offset: u64,
    pub length: u32,
    pub hash: [u8; 32],
}

/// The hashes of a file's chunks, and one hash over them.
#[derive(Debug)]
pub struct MerkleTree {
    pub chunk_size: u64,
    pub file_size: u64,
    pub root: [u8; 32],
    pub leaves: Vec<ChunkHash>,
}

/// A range of bytes in which a file differs from another.
#[derive(Debug, Clone, Copy, PartialEq, Eq, Structural)]
pub struct DirtyRange {
    pub offset: u64,
    pub length: u64,
}

/// What is stored of a tree.
#[derive(Debug)]
pub struct MerkleSignature {
    pub root: [u8; 32],
    pub chunk_size: u64,
    pub file_size: u64,
    pub leaf_hashes: Vec<[u8; 32]>,
}

/// The length of the chunk at `off`: a whole chunk or what is left.
pub open spec fn chunk_len(total: int, chunk: int, off: int) -> int {
    if total - off <= chunk {
        total - off
    } else {
        chunk
    }
}

/// The chunks of `data` from `off` on: where each starts, how long it is and
/// what its hash is. With a chunk size of zero there are none.
pub open spec fn chunks_from(data: Seq<u8>, chunk: int, off: int) -> Seq<(int, int, Seq<u8>)>
    decreases data.len() - off,
{
    if chunk > 0 && 0 <= off < data.len() {
        let n = chunk_len(data.len() as int, chunk, off);
        seq![(off, n, hashing::blake3(data.subrange(off, off + n)))] + chunks_from(
            data,
            chunk,
            off + n,
        )
    } else {
        Seq::empty()
    }
}

/// A leaf as plain values; its length is kept in 32 bits.
pub open spec fn is_leaf_of(leaf: ChunkHash, c: (int, int, Seq<u8>)) -> bool {
    leaf.offset == c.0 && leaf.length == c.1 as u32 && leaf.hash@ == c.2
}

/// Whether `leaves` are the chunks `chunks`.
pub open spec fn are_leaves_of(leaves: Seq<ChunkHash>, chunks: Seq<(int, int, Seq<u8>)>) -> bool {
    leaves.len() == chunks.len() && forall|i: int|
        0 <= i < leaves.len() ==> is_leaf_of(#[trigger] leaves[i], chunks[i])
}

/// The hashes of leaves, one after the other.
pub open spec fn hash_bytes(leaves: Seq<ChunkHash>) -> Seq<u8>
    decreases leaves.len(),
{
    if leaves.len() == 0 {
        Seq::empty()
    } else {
        hash_bytes(leaves.drop_last()) + leaves.last().hash@
    }
}

/// The hash over leaves: that of nothing where there are none, that of the leaf
/// where there is one, else the hash of all their hashes.
pub open spec fn root_of(leaves: Seq<ChunkHash>) -> Seq<u8> {
    if leaves.len() == 0 {
        hashing::blake3(Seq::empty())
    } else if leaves.len() == 1 {
        leaves[0].hash@
    } else {
        hashing::blake3(hash_bytes(leaves))
    }
}

/// The hashes of chunks, one after the other.
pub open spec fn chunk_hash_bytes(chunks: Seq<(int, int, Seq<u8>)>) -> Seq<u8>
    decreases chunks.len(),
{
    if chunks.len() == 0 {
        Seq::empty()
    } else {
        chunk_hash_bytes(chunks.drop_last()) + chunks.last().2
    }
}

/// The hash over the chunks of a file.
pub open spec fn merkle_root(data: Seq<u8>, chunk: int) -> Seq<u8> {
    let chunks = chunks_from(data, chunk, 0);
    if chunks.len() == 0 {
        hashing::blake3(Seq::empty())
    } else if chunks.len() == 1 {
        chunks[0].2
    } else {
        hashing::blake3(chunk_hash_bytes(chunks))
    }
}

proof fn same_hash_bytes(leaves: Seq<ChunkHash>, chunks: Seq<(int, int, Seq<u8>)>)
    requires
        are_leaves_of(leaves, chunks),
    ensures
        hash_bytes(leaves) == chunk_hash_bytes(chunks),
    decreases leaves.len(),
{
    if leaves.len() > 0 {
        let n = leaves.len() - 1;
        assert(is_leaf_of(leaves[n], chunks[n]));
        assert forall|i: int| 0 <= i < leaves.drop_last().len() implies is_leaf_of(
            #[trigger] leaves.drop_last()[i],
            chunks.drop_last()[i],
        ) by {
            assert(is_leaf_of(leaves[i], chunks[i]));
        }
        same_hash_bytes(leaves.drop_last(), chunks.drop_last());
    }
}

/// Whether each leaf starts where the one before it ends.
pub open spec fn contiguous(leaves: Seq<ChunkHash>) -> bool {
    &&& forall|i: int|
        0 <= i < leaves.len() ==> (#[trigger] leaves[i]).offset + leaves[i].length <= u64::MAX
    &&& forall|i: int, j: int|
        0 <= i < leaves.len() && j == i + 1 && j < leaves.len() ==> (#[trigger] leaves[i]).offset
            + leaves[i].length == (#[trigger] leaves[j]).offset
}

/// Whether leaves are in order: no leaf ends before an earlier one starts.
pub open spec fn in_order(leaves: Seq<ChunkHash>) -> bool {
    &&& forall|i: int|
        0 <= i < leaves.len() ==> (#[trigger] leaves[i]).offset + leaves[i].length <= u64::MAX
    &&& forall|i: int, j: int|
        0 <= i <= j < leaves.len() ==> (#[trigger] leaves[i]).offset <= (
        #[trigger] leaves[j]).offset + leaves[j].length
}

/// The leaf at `i` differs from the target's, or the target has none there.
pub open spec fn is_dirty(source: Seq<ChunkHash>, target: Seq<ChunkHash>, i: int) -> bool {
    0 <= i < source.len() && (i >= target.len() || source[i].hash@ != target[i].hash@)
}

/// The longest runs of dirty leaves among the first `n`.
pub open spec fn dirty_runs(source: Seq<ChunkHash>, target: Seq<ChunkHash>, n: nat) -> Seq<
    (int, int),
>
    decreases n,
{
    if n == 0 {
        Seq::empty()
    } else {
        let runs = dirty_runs(source, target, (n - 1) as nat);
        if is_dirty(source, target, n - 1) {
            if runs.len() > 0 && runs.last().1 == n - 1 {
                runs.drop_last().push((runs.last().0, n as int))
            } else {
                runs.push((n - 1, n as int))
            }
        } else {
            runs
        }
    }
}

/// The bytes that a run of leaves covers.
pub open spec fn range_of(leaves: Seq<ChunkHash>, run: (int, int)) -> DirtyRange {
    DirtyRange {
        offset: leaves[run.0].offset,
        length: (leaves[run.1 - 1].offset + leaves[run.1 - 1].length - leaves[run.0].offset) as u64,
    }
}

/// The bytes that runs of leaves cover.
pub open spec fn ranges_of(leaves: Seq<ChunkHash>, runs: Seq<(int, int)>) -> Seq<DirtyRange> {
    Seq::new(runs.len(), |i: int| range_of(leaves, runs[i]))
}

/// Later leaves start no earlier.
proof fn offsets_increase(leaves: Seq<ChunkHash>, i: int, j: int)
    requires
        contiguous(leaves),
        0 <= i <= j < leaves.len(),
    ensures
        leaves[i].offset <= leaves[j].offset,
        leaves[i].offset + leaves[i].length <= leaves[j].offset + leaves[j].length,
    decreases j - i,
{
    if i < j {
        offsets_increase(leaves, i + 1, j);
        assert(leaves[i].offset + leaves[i].length == leaves[i + 1].offset);
    }
}

/// Leaves that follow each other are in order.
pub proof fn contiguous_is_in_order(leaves: Seq<ChunkHash>)
    requires
        contiguous(leaves),
    ensures
        in_order(leaves),
{
    assert forall|i: int, j: int| 0 <= i <= j < leaves.len() implies (#[trigger] leaves[i]).offset
        <= (#[trigger] leaves[j]).offset + leaves[j].length by {
        offsets_increase(leaves, i, j);
    }
}

/// The runs found among the first `n` leaves are not empty, lie within them and
/// hold only dirty leaves; between two runs there is a clean leaf; and every
/// dirty leaf is in one of them.
pub proof fn runs_are_exact(source: Seq<ChunkHash>, target: Seq<ChunkHash>, n: nat)
    ensures
        ({
            let runs = dirty_runs(source, target, n);
            &&& forall|r: int|
                0 <= r < runs.len() ==> 0 <= (#[trigger] runs[r]).0 < runs[r].1 <= n && runs[r].1
                    <= source.len()
            &&& forall|r: int, s: int|
                0 <= r < s < runs.len() ==> (#[trigger] runs[r]).1 < (#[trigger] runs[s]).0
            &&& forall|r: int, i: int|
                0 <= r < runs.len() && (#[trigger] runs[r]).0 <= i < runs[r].1
                    ==> #[trigger] is_dirty(source, target, i)
            &&& forall|i: int|
                0 <= i < n && #[trigger] is_dirty(source, target, i) ==> exists|r: int|
                    0 <= r < runs.len() && (#[trigger] runs[r]).0 <= i < runs[r].1
        }),
    decreases n,
{
    if n > 0 {
        let m = (n - 1) as nat;
        runs_are_exact(source, target, m);
        let old_runs = dirty_runs(source, target, m);
        let runs = dirty_runs(source, target, n);
        if is_dirty(source, target, m as int) {
            let extends = old_runs.len() > 0 && old_runs.last().1 == m;
            let last = runs.len() - 1;
            if extends {
                assert(old_runs.last() == old_runs[old_runs.len() - 1]);
            }
            assert forall|i: int| 0 <= i < n && #[trigger] is_dirty(source, target, i) implies exists|
                r: int,
            |
                0 <= r < runs.len() && (#[trigger] runs[r]).0 <= i < runs[r].1 by {
                if i == m {
                    assert(runs[last].0 <= i < runs[last].1);
                } else {
                    let r = choose|r: int|
                        0 <= r < old_runs.len() && (#[trigger] old_runs[r]).0 <= i
                            < old_runs[r].1;
                    assert(runs[r].0 <= i < runs[r].1);
                }
            }
            assert forall|r: int, s: int| 0 <= r < s < runs.len() implies (#[trigger] runs[r]).1 < (
            #[trigger] runs[s]).0 by {
                if s < last {
                    assert(old_runs[r].1 < old_runs[s].0);
                } else if extends {
                    assert(runs[r] == old_runs[r]);
                    assert(old_runs[r].1 < old_runs[old_runs.len() - 1].0);
                } else {
                    assert(runs[r] == old_runs[r]);
                    if r == old_runs.len() - 1 {
                        assert(old_runs.last() == old_runs[r]);
                    } else {
                        assert(old_runs[r].1 < old_runs[old_runs.len() - 1].0);
                        assert(old_runs[old_runs.len() - 1].1 <= m);
                    }
                    assert(old_runs[r].1 <= m);
                }
            }
        }
    }
}

impl MerkleTree {
    /// The hash over leaves.
    fn compute_root(leaves: &Vec<ChunkHash>) -> (h: [u8; 32])
        ensures
            h@ == root_of(leaves@),
    {
        if leaves.len() == 0 {
            let empty: Vec<u8> = Vec::new();
            assert(empty@ =~= Seq::empty());
            return hashing::blake3_hash(empty.as_slice());
        }
        if leaves.len() == 1 {
            return leaves[0].hash;
        }
        let mut buf: Vec<u8> = Vec::new();
        let mut i: usize = 0;
        assert(hash_bytes(leaves@.subrange(0, 0)) =~= Seq::empty());
        while i < leaves.len()
            invariant
                i <= leaves@.len(),
                buf@ == hash_bytes(leaves@.subrange(0, i as int)),
            decreases leaves@.len() - i,
        {
            let ghost before = buf@;
            crate::bytes::put_slice(&mut buf, leaves[i].hash.as_slice());
            proof {
                let part = leaves@.subrange(0, i + 1);
                assert(part.drop_last() =~= leaves@.subrange(0, i as int));
                assert(part.last() == leaves@[i as int]);
            }
            i = i + 1;
        }
        assert(leaves@.subrange(0, i as int) =~= leaves@);
        hashing::blake3_hash(buf.as_slice())
    }

    /// The tree of a file with the given contents.
    pub fn from_file(contents: &[u8], chunk_size: u64) -> (t: MerkleTree)
        ensures
            t.chunk_size == chunk_size,
            t.file_size == contents@.len(),
            are_leaves_of(t.leaves@, chunks_from(contents@, chunk_size as int, 0)),
            t.root@ == merkle_root(contents@, chunk_size as int),
    {
        let mut b = MerkleBuilder::new(chunk_size);
        let total: usize = contents.len();
        let mut off: usize = 0;
        let ghost all = chunks_from(contents@, chunk_size as int, 0);
        while off < total && chunk_size > 0
            invariant
                off <= total,
                total == contents@.len(),
                b.offset == off,
                b.chunk_size == chunk_size,
                all == chunks_from(contents@, chunk_size as int, 0),
                b.leaves@.len() <= all.len(),
                all.subrange(b.leaves@.len() as int, all.len() as int) == chunks_from(
                    contents@,
                    chunk_size as int,
                    off as int,
                ),
                forall|i: int|
                    0 <= i < b.leaves@.len() ==> is_leaf_of(#[trigger] b.leaves@[i], all[i]),
            decreases total - off,
        {
            let left: usize = total - off;
            let n: usize = if left as u64 <= chunk_size {
                left
            } else {
                chunk_size as usize
            };
            let part = vstd::slice::slice_subrange(contents, off, off + n);
            let ghost before = b.leaves@;
            let ghost rest = chunks_from(contents@, chunk_size as int, off as int);
            b.add_chunk(part);
            proof {
                let k = before.len() as int;
                assert(rest.len() > 0);
                assert(all.subrange(k, all.len() as int)[0] == all[k]);
                assert(rest[0] == all[k]);
                assert(rest.subrange(1, rest.len() as int) =~= chunks_from(
                    contents@,
                    chunk_size as int,
                    off + n,
                ));
                assert(all.subrange(k + 1, all.len() as int) =~= rest.subrange(
                    1,
                    rest.len() as int,
                ));
                assert forall|i: int| 0 <= i < b.leaves@.len() implies is_leaf_of(
                    #[trigger] b.leaves@[i],
                    all[i],
                ) by {
                    if i < k {
                        assert(b.leaves@.drop_last()[i] == before[i]);
                    } else {
                        assert(b.leaves@.last() == b.leaves@[k]);
                    }
                }
            }
            off = off + n;
        }
        proof {
            let k = b.leaves@.len() as int;
            assert(all.subrange(k, all.len() as int).len() == 0);
            same_hash_bytes(b.leaves@, all);
            if k == 1 {
                assert(is_leaf_of(b.leaves@[0], all[0]));
            }
        }
        b.finish(total as u64)
    }

    /// The ranges of `source` that differ from `target`, chunk by chunk, with
    /// neighbouring chunks joined. What `target` has beyond the end of `source`
    /// is not among them.
    pub fn diff(source: &MerkleTree, target: &MerkleTree) -> (ranges: Vec<DirtyRange>)
        requires
            in_order(source.leaves@),
        ensures
            ranges@ == ranges_of(
                source.leaves@,
                dirty_runs(source.leaves@, target.leaves@, source.leaves@.len()),
            ),
    {
        let ghost s = source.leaves@;
        let ghost t = target.leaves@;
        let mut ranges: Vec<DirtyRange> = Vec::new();
        let mut current: Option<DirtyRange> = None;
        let ghost mut runs: Seq<(int, int)> = Seq::empty();
        let mut i: usize = 0;
        while i < source.leaves.len()
            invariant
                i <= s.len(),
                s == source.leaves@,
                t == target.leaves@,
                in_order(s),
                runs == dirty_runs(s, t, i as nat),
                match current {
                    Some(r) => runs.len() > 0 && runs.last().1 == i && r == range_of(s, runs.last())
                        && ranges@ == ranges_of(s, runs.drop_last()),
                    None => (runs.len() == 0 || runs.last().1 < i) && ranges@ == ranges_of(s, runs),
                },
            decreases s.len() - i,
        {
            proof {
                runs_are_exact(s, t, i as nat);
            }
            let leaf = source.leaves[i];
            let dirty: bool = if i < target.leaves.len() {
                !hashing::same_hash(&leaf.hash, &target.leaves[i].hash)
            } else {
                true
            };
            assert(dirty == is_dirty(s, t, i as int));
            let ghost next = dirty_runs(s, t, (i + 1) as nat);
            if dirty {
                match current {
                    Some(r) => {
                        proof {
                            assert(runs.last() == runs[runs.len() - 1]);
                            assert(s[runs.last().0].offset <= s[i as int].offset + s[i as int].length);
                            assert(next.drop_last() =~= runs.drop_last());
                        }
                        current = Some(
                            DirtyRange {
                                offset: r.offset,
                                length: (leaf.offset + leaf.length as u64) - r.offset,
                            },
                        );
                    },
                    None => {
                        assert(next.drop_last() =~= runs);
                        current = Some(
                            DirtyRange { offset: leaf.offset, length: leaf.length as u64 },
                        );
                    },
                }
            } else {
                match current {
                    Some(r) => {
                        ranges.push(r);
                        assert(ranges@ =~= ranges_of(s, runs)) by {
                            assert(runs =~= runs.drop_last().push(runs.last()));
                        }
                        current = None;
                    },
                    None => {},
                }
            }
            proof {
                runs = next;
            }
            i = i + 1;
        }
        match current {
            Some(r) => {
                ranges.push(r);
                assert(ranges@ =~= ranges_of(s, runs)) by {
                    assert(runs =~= runs.drop_last().push(runs.last()));
                }
            },
            None => {},
        }
        ranges
    }

    /// What to copy to make `target` the same as `source`: nothing where the
    /// roots agree.
    pub fn delta(source: &MerkleTree, target: &MerkleTree) -> (ranges: Vec<DirtyRange>)
        requires
            in_order(source.leaves@),
        ensures
            ranges@ == (if source.root@ == target.root@ {
                Seq::empty()
            } else {
                ranges_of(
                    source.leaves@,
                    dirty_runs(source.leaves@, target.leaves@, source.leaves@.len()),
                )
            }),
    {
        if hashing::same_hash(&source.root, &target.root) {
            let none: Vec<DirtyRange> = Vec::new();
            assert(none@ =~= Seq::empty());
            return none;
        }
        Self::diff(source, target)
    }

    /// What is stored of the tree.
    pub fn to_signature(&self) -> (sig: MerkleSignature)
        ensures
            sig.root@ == self.root@,
            sig.chunk_size == self.chunk_size,
            sig.file_size == self.file_size,
            sig.leaf_hashes@ == Seq::new(self.leaves@.len(), |i: int| self.leaves@[i].hash),
    {
        let mut hashes: Vec<[u8; 32]> = Vec::new();
        let mut i: usize = 0;
        while i < self.leaves.len()
            invariant
                i <= self.leaves@.len(),
                hashes@.len() == i,
                forall|k: int| 0 <= k < i ==> hashes@[k] == self.leaves@[k].hash,
            decreases self.leaves@.len() - i,
        {
            hashes.push(self.leaves[i].hash);
            i = i + 1;
        }
        assert(hashes@ =~= Seq::new(self.leaves@.len(), |i: int| self.leaves@[i].hash));
        MerkleSignature {
            root: self.root,
            chunk_size: self.chunk_size,
            file_size: self.file_size,
            leaf_hashes: hashes,
        }
    }

    /// The tree that a signature was made of: its chunks follow each other, each
    /// a whole chunk or what is left of the file, and stop where the file does.
    /// A signature with more hashes than the file can have chunks is refused.
    pub fn from_signature(sig: &MerkleSignature) -> (res: Option<MerkleTree>)
        requires
            sig.chunk_size > 0,
            sig.file_size / sig.chunk_size + 2 <= u64::MAX,
        ensures
            res is Some == (sig.leaf_hashes@.len() <= sig.file_size / sig.chunk_size + 2),
            match res {
                Some(t) => {
                    &&& t.root@ == sig.root@
                    &&& t.chunk_size == sig.chunk_size
                    &&& t.file_size == sig.file_size
                    &&& t.leaves@ == restored(
                        sig.leaf_hashes@,
                        sig.chunk_size as int,
                        sig.file_size as int,
                        sig.leaf_hashes@.len(),
                    )
                    &&& contiguous(t.leaves@)
                },
                None => true,
            },
    {
        let limit: u64 = sig.file_size / sig.chunk_size + 2;
        if sig.leaf_hashes.len() as u64 > limit {
            return None;
        }
        let mut leaves: Vec<ChunkHash> = Vec::new();
        let mut offset: u64 = 0;
        let mut i: usize = 0;
        let ghost hs = sig.leaf_hashes@;
        let ghost c = sig.chunk_size as int;
        let ghost total = sig.file_size as int;
        let mut ended: bool = false;
        while i < sig.leaf_hashes.len() && !ended
            invariant
                i <= hs.len(),
                hs == sig.leaf_hashes@,
                c == sig.chunk_size,
                total == sig.file_size,
                leaves@ == restored(hs, c, total, i as nat),
                leaves@.len() == i,
                contiguous(leaves@),
                offset == end_of(leaves@),
                offset <= total,
                ended ==> restored(hs, c, total, hs.len()) == leaves@,
            decreases hs.len() - i, (if ended {
                0int
            } else {
                1
            }),
        {
            let remaining: u64 = sig.file_size.saturating_sub(offset);
            let length: u32 = (if remaining <= sig.chunk_size {
                remaining
            } else {
                sig.chunk_size
            }) as u32;
            if length == 0 && i > 0 {
                proof {
                    restored_is_stable(hs, c, total, i as nat, hs.len());
                }
                ended = true;
            } else {
                let ghost before = leaves@;
                let leaf = ChunkHash { offset, length, hash: sig.leaf_hashes[i] };
                proof {
                    truncated_is_less(remaining);
                    truncated_is_less(sig.chunk_size);
                    assert(length <= remaining);
                }
                leaves.push(leaf);
                offset = offset + length as u64;
                i = i + 1;
                proof {
                    assert(leaves@ =~= restored(hs, c, total, i as nat));
                    assert(before =~= leaves@.drop_last());
                    assert forall|a: int, b: int|
                        0 <= a < leaves@.len() && b == a + 1 && b < leaves@.len() implies (
                    #[trigger] leaves@[a]).offset + leaves@[a].length == (
                    #[trigger] leaves@[b]).offset by {
                        if b < leaves@.len() - 1 {
                            assert(before[a].offset + before[a].length == before[b].offset);
                        } else {
                            assert(before.last() == before[a]);
                        }
                    }
                }
            }
        }
        Some(
            MerkleTree {
                chunk_size: sig.chunk_size,
                file_size: sig.file_size,
                root: sig.root,
                leaves,
            },
        )
    }
}

/// Where a list of leaves ends.
pub open spec fn end_of(leaves: Seq<ChunkHash>) -> int {
    if leaves.len() == 0 {
        0
    } else {
        leaves.last().offset + leaves.last().length
    }
}

/// The leaves that the first `n` hashes of a signature stand for. A chunk beyond
/// the end of the file is none, and no more follow; only the first may be empty.
pub open spec fn restored(hashes: Seq<[u8; 32]>, chunk: int, total: int, n: nat) -> Seq<ChunkHash>
    decreases n,
{
    if n == 0 {
        Seq::empty()
    } else {
        let before = restored(hashes, chunk, total, (n - 1) as nat);
        let offset = end_of(before);
        let length = chunk_len(total, chunk, offset) as u32;
        if before.len() < n - 1 || (length == 0 && n > 1) {
            before
        } else {
            before.push(ChunkHash { offset: offset as u64, length, hash: hashes[n - 1] })
        }
    }
}

/// Once a signature's leaves have stopped, more hashes add none.
proof fn restored_is_stable(hashes: Seq<[u8; 32]>, chunk: int, total: int, i: nat, n: nat)
    requires
        0 < i <= n,
        restored(hashes, chunk, total, i).len() == i,
        chunk_len(total, chunk, end_of(restored(hashes, chunk, total, i))) as u32 == 0,
    ensures
        restored(hashes, chunk, total, n) == restored(hashes, chunk, total, i),
    decreases n - i,
{
    if i < n {
        let m = (n - 1) as nat;
        restored_is_stable(hashes, chunk, total, i, m);
    }
}

proof fn truncated_is_less(x: u64)
    ensures
        (x as u32) <= x,
        x <= u32::MAX ==> x as u32 == x,
{
    assert((x as u32) as u64 <= x) by (bit_vector);
}

/// A tree in the making: the chunks seen so far.
#[derive(Debug)]
pub struct MerkleBuilder {
    pub chunk_size: u64,
    pub offset: u64,
    pub leaves: Vec<ChunkHash>,
}

impl MerkleBuilder {
    pub fn new(chunk_size: u64) -> (b: MerkleBuilder)
        ensures
            b.chunk_size == chunk_size,
            b.offset == 0,
            b.leaves@ == Seq::<ChunkHash>::empty(),
    {
        MerkleBuilder { chunk_size, offset: 0, leaves: Vec::new() }
    }

    /// Adds the next chunk of the file.
    pub fn add_chunk(&mut self, data: &[u8])
        requires
            old(self).offset + data@.len() <= u64::MAX,
        ensures
            final(self).chunk_size == old(self).chunk_size,
            final(self).offset == old(self).offset + data@.len(),
            final(self).leaves@.len() == old(self).leaves@.len() + 1,
            final(self).leaves@.drop_last() == old(self).leaves@,
            is_leaf_of(
                final(self).leaves@.last(),
                (old(self).offset as int, data@.len() as int, hashing::blake3(data@)),
            ),
    {
        let hash = hashing::blake3_hash(data);
        let ghost before = self.leaves@;
        self.leaves.push(ChunkHash { offset: self.offset, length: data.len() as u32, hash });
        assert(self.leaves@.drop_last() =~= before);
        self.offset = self.offset + data.len() as u64;
    }

    /// The tree of the chunks seen.
    pub fn finish(self, file_size: u64) -> (t: MerkleTree)
        ensures
            t.chunk_size == self.chunk_size,
            t.file_size == file_size,
            t.leaves@ == self.leaves@,
            t.root@ == root_of(self.leaves@),
    {
        let root = MerkleTree::compute_root(&self.leaves);
        MerkleTree { chunk_size: self.chunk_size, file_size, root, leaves: self.leaves }
    }
}

impl MerkleSignature {
    /// The size of the stored form: 56 bytes, and 32 for each chunk.
    pub fn serialized_size(&self) -> (n: usize)
        requires
            56 + self.leaf_hashes@.len() * 32 <= usize::MAX,
        ensures
            n == 56 + self.leaf_hashes@.len() * 32,
    {
        56 + self.leaf_hashes.len() * 32
    }

    /// Whether the stored form is small enough to go with the file.
    pub fn fits_in_xattr(&self) -> (b: bool)
        requires
            56 + self.leaf_hashes@.len() * 32 <= usize::MAX,
        ensures
            b == (56 + self.leaf_hashes@.len() * 32 <= hashing::MAX_MERKLE_XATTR_BYTES),
    {
        self.serialized_size() <= hashing::MAX_MERKLE_XATTR_BYTES
    }
}

/// Whether a file's contents still have the root of a stored signature.
pub fn verify_with_merkle(contents: &[u8], stored: &MerkleSignature) -> (same: bool)
    ensures
        same == (merkle_root(contents@, stored.chunk_size as int) == stored.root@),
{
    let tree = MerkleTree::from_file(contents, stored.chunk_size);
    hashing::same_hash(&tree.root, &stored.root)
}

/// The `i`th chunk of what follows `off` starts `i` whole chunks behind it.
proof fn chunk_at(data: Seq<u8>, chunk: int, off: int, i: int)
    requires
        chunk > 0,
        0 <= off,
        0 <= i < chunks_from(data, chunk, off).len(),
    ensures
        ({
            let c = chunks_from(data, chunk, off)[i];
            let at = off + i * chunk;
            &&& c.0 == at
            &&& 0 <= at < data.len()
            &&& c.1 == chunk_len(data.len() as int, chunk, at)
            &&& c.2 == hashing::blake3(data.subrange(at, at + c.1))
        }),
    decreases i,
{
    let n = chunk_len(data.len() as int, chunk, off);
    let rest = chunks_from(data, chunk, off + n);
    assert(chunks_from(data, chunk, off) == seq![
        (off, n, hashing::blake3(data.subrange(off, off + n))),
    ] + rest);
    if i > 0 {
        assert(chunks_from(data, chunk, off)[i] == rest[i - 1]);
        chunk_at(data, chunk, off + n, i - 1);
        assert(off + n + (i - 1) * chunk == off + i * chunk) by (nonlinear_arith)
            requires
                n == chunk,
        ;
    } else {
        assert(0 * chunk == 0) by (nonlinear_arith);
    }
}

/// Every byte behind `off` is in one of the chunks behind it.
proof fn chunk_of_byte(data: Seq<u8>, chunk: int, off: int, k: int) -> (i: int)
    requires
        chunk > 0,
        0 <= off <= k < data.len(),
    ensures
        0 <= i < chunks_from(data, chunk, off).len(),
        off + i * chunk <= k < off + i * chunk + chunk_len(
            data.len() as int,
            chunk,
            off + i * chunk,
        ),
    decreases data.len() - off,
{
    let n = chunk_len(data.len() as int, chunk, off);
    let rest = chunks_from(data, chunk, off + n);
    assert(chunks_from(data, chunk, off).len() == 1 + rest.len());
    if k < off + n {
        assert(0 * chunk == 0) by (nonlinear_arith);
        0
    } else {
        let j = chunk_of_byte(data, chunk, off + n, k);
        assert(off + n + j * chunk == off + (j + 1) * chunk) by (nonlinear_arith)
            requires
                n == chunk,
        ;
        j + 1
    }
}

/// The leaves of a file follow each other.
pub proof fn file_leaves_are_contiguous(data: Seq<u8>, chunk: int, leaves: Seq<ChunkHash>)
    requires
        0 < chunk <= u32::MAX,
        data.len() <= u64::MAX,
        are_leaves_of(leaves, chunks_from(data, chunk, 0)),
    ensures
        contiguous(leaves),
{
    let all = chunks_from(data, chunk, 0);
    assert forall|i: int| 0 <= i < leaves.len() implies (#[trigger] leaves[i]).offset
        + leaves[i].length <= u64::MAX by {
        assert(is_leaf_of(leaves[i], all[i]));
        chunk_at(data, chunk, 0, i);
    }
    assert forall|i: int, j: int| 0 <= i < leaves.len() && j == i + 1 && j < leaves.len() implies (
    #[trigger] leaves[i]).offset + leaves[i].length == (#[trigger] leaves[j]).offset by {
        assert(is_leaf_of(leaves[i], all[i]));
        assert(is_leaf_of(leaves[j], all[j]));
        chunk_at(data, chunk, 0, i);
        chunk_at(data, chunk, 0, j);
        assert((i + 1) * chunk == i * chunk + chunk) by (nonlinear_arith);
    }
}

/// Whether a byte lies in one of the ranges.
pub open spec fn in_ranges(ranges: Seq<DirtyRange>, k: int) -> bool {
    exists|r: int|
        0 <= r < ranges.len() && (#[trigger] ranges[r]).offset <= k < ranges[r].offset
            + ranges[r].length
}

/// `target` with the given ranges taken over from `source`.
pub open spec fn patched(source: Seq<u8>, target: Seq<u8>, ranges: Seq<DirtyRange>) -> Seq<u8> {
    Seq::new(
        source.len(),
        |k: int|
            if in_ranges(ranges, k) {
                source[k]
            } else {
                target[k]
            },
    )
}

/// Copying the dirty ranges of a file over an older version of the same size
/// makes the two the same, as long as no two different chunks of them have one
/// hash.
pub proof fn delta_restores_source(
    source: Seq<u8>,
    target: Seq<u8>,
    chunk: int,
    s: Seq<ChunkHash>,
    t: Seq<ChunkHash>,
)
    requires
        0 < chunk <= u32::MAX,
        source.len() == target.len(),
        source.len() <= u64::MAX,
        are_leaves_of(s, chunks_from(source, chunk, 0)),
        are_leaves_of(t, chunks_from(target, chunk, 0)),
        forall|a: int, b: int|
            0 <= a <= b <= source.len() && hashing::blake3(#[trigger] source.subrange(a, b))
                == hashing::blake3(target.subrange(a, b)) ==> source.subrange(a, b)
                == target.subrange(a, b),
    ensures
        patched(source, target, ranges_of(s, dirty_runs(s, t, s.len()))) == source,
{
    let runs = dirty_runs(s, t, s.len());
    let ranges = ranges_of(s, runs);
    let all = chunks_from(source, chunk, 0);
    let theirs = chunks_from(target, chunk, 0);
    file_leaves_are_contiguous(source, chunk, s);
    runs_are_exact(s, t, s.len());
    assert forall|k: int| 0 <= k < source.len() implies #[trigger] patched(
        source,
        target,
        ranges,
    )[k] == source[k] by {
        let i = chunk_of_byte(source, chunk, 0, k);
        chunk_at(source, chunk, 0, i);
        assert(is_leaf_of(s[i], all[i]));
        let from = i * chunk;
        let to = from + chunk_len(source.len() as int, chunk, from);
        if is_dirty(s, t, i) {
            let r = choose|r: int| 0 <= r < runs.len() && (#[trigger] runs[r]).0 <= i < runs[r].1;
            offsets_increase(s, runs[r].0, i);
            offsets_increase(s, i, runs[r].1 - 1);
            offsets_increase(s, runs[r].0, runs[r].1 - 1);
            assert(ranges[r] == range_of(s, runs[r]));
            assert(in_ranges(ranges, k));
        } else {
            let j = chunk_of_byte(target, chunk, 0, k);
            assert(i == j) by (nonlinear_arith)
                requires
                    i * chunk <= k,
                    k < i * chunk + chunk,
                    j * chunk <= k,
                    k < j * chunk + chunk,
                    chunk > 0,
            ;
            chunk_at(target, chunk, 0, i);
            assert(is_leaf_of(t[i], theirs[i]));
            assert(source.subrange(from, to) == target.subrange(from, to));
            assert(source.subrange(from, to)[k - from] == source[k]);
            assert(target.subrange(from, to)[k - from] == target[k]);
        }
    }
    assert(patched(source, target, ranges) =~= source);
}

/// A file that has not changed has nothing to copy.
pub proof fn unchanged_file_has_no_delta(
    data: Seq<u8>,
    chunk: int,
    s: Seq<ChunkHash>,
    t: Seq<ChunkHash>,
)
    requires
        are_leaves_of(s, chunks_from(data, chunk, 0)),
        are_leaves_of(t, chunks_from(data, chunk, 0)),
    ensures
        dirty_runs(s, t, s.len()).len() == 0,
{
    let runs = dirty_runs(s, t, s.len());
    let all = chunks_from(data, chunk, 0);
    runs_are_exact(s, t, s.len());
    if runs.len() > 0 {
        let i = runs[0].0;
        assert(is_dirty(s, t, i));
        assert(is_leaf_of(s[i], all[i]));
        assert(is_leaf_of(t[i], all[i]));
    }
}

/// A stored signature gives back the tree that it was made of.
pub proof fn signature_round_trip(data: Seq<u8>, chunk: int, leaves: Seq<ChunkHash>)
    requires
        0 < chunk <= u32::MAX,
        data.len() <= u64::MAX,
        are_leaves_of(leaves, chunks_from(data, chunk, 0)),
    ensures
        restored(
            Seq::new(leaves.len(), |i: int| leaves[i].hash),
            chunk,
            data.len() as int,
            leaves.len(),
        ) == leaves,
        leaves.len() <= data.len() as int / chunk + 2,
{
    let hashes = Seq::new(leaves.len(), |i: int| leaves[i].hash);
    restored_prefix(data, chunk, leaves, hashes, leaves.len());
    assert(leaves.subrange(0, leaves.len() as int) =~= leaves);
    if leaves.len() > 0 {
        let i = leaves.len() - 1;
        chunk_at(data, chunk, 0, i);
        assert(leaves.len() - 1 <= data.len() as int / chunk) by (nonlinear_arith)
            requires
                i == leaves.len() - 1,
                i * chunk < data.len(),
                chunk > 0,
        ;
    } else {
        assert(data.len() as int / chunk >= 0) by (nonlinear_arith)
            requires
                chunk > 0,
        ;
    }
}

proof fn restored_prefix(
    data: Seq<u8>,
    chunk: int,
    leaves: Seq<ChunkHash>,
    hashes: Seq<[u8; 32]>,
    n: nat,
)
    requires
        0 < chunk <= u32::MAX,
        data.len() <= u64::MAX,
        are_leaves_of(leaves, chunks_from(data, chunk, 0)),
        hashes == Seq::new(leaves.len(), |i: int| leaves[i].hash),
        n <= leaves.len(),
    ensures
        restored(hashes, chunk, data.len() as int, n) == leaves.subrange(0, n as int),
    decreases n,
{
    if n == 0 {
        assert(leaves.subrange(0, 0) =~= Seq::empty());
    } else {
        let m = n - 1;
        restored_prefix(data, chunk, leaves, hashes, m as nat);
        let all = chunks_from(data, chunk, 0);
        chunk_at(data, chunk, 0, m);
        assert(is_leaf_of(leaves[m], all[m]));
        let before = leaves.subrange(0, m);
        if m > 0 {
            chunk_at(data, chunk, 0, m - 1);
            assert(is_leaf_of(leaves[m - 1], all[m - 1]));
            assert(before.last() == leaves[m - 1]);
            assert(m * chunk == (m - 1) * chunk + chunk) by (nonlinear_arith);
        } else {
            assert(0 * chunk == 0) by (nonlinear_arith);
        }
        assert(end_of(before) == m * chunk);
        assert(leaves.subrange(0, n as int) =~= before.push(leaves[m]));
    }
}

/// The leaves of a file stand for its chunks, one behind the other and each of the same
/// size but the last: where it starts, how long it is and the hash of its bytes.
pub proof fn leaves_tell_the_chunks(data: Seq<u8>, chunk: int, leaves: Seq<ChunkHash>)
    requires
        0 < chunk <= u32::MAX,
        data.len() <= u64::MAX,
        are_leaves_of(leaves, chunks_from(data, chunk, 0)),
    ensures
        (leaves.len() - 1) * chunk < data.len() <= leaves.len() * chunk,
        forall|i: int|
            0 <= i < leaves.len() ==> {
                let leaf = #[trigger] leaves[i];
                let end = if i == leaves.len() - 1 {
                    data.len() as int
                } else {
                    (i + 1) * chunk
                };
                &&& leaf.offset == i * chunk
                &&& leaf.offset + leaf.length == end
                &&& leaf.hash@ == hashing::blake3(data.subrange(i * chunk, end))
            },
{
    let all = chunks_from(data, chunk, 0);
    chunks_are_counted(data, chunk);
    assert forall|i: int| 0 <= i < leaves.len() implies {
        let leaf = #[trigger] leaves[i];
        let end = if i == leaves.len() - 1 {
            data.len() as int
        } else {
            (i + 1) * chunk
        };
        &&& leaf.offset == i * chunk
        &&& leaf.offset + leaf.length == end
        &&& leaf.hash@ == hashing::blake3(data.subrange(i * chunk, end))
    } by {
        chunk_at(data, chunk, 0, i);
        assert(is_leaf_of(leaves[i], all[i]));
        chunk_ends(data, chunk, i, all.len() as int);
    }
}

proof fn chunks_are_counted(data: Seq<u8>, chunk: int)
    requires
        chunk > 0,
    ensures
        ({
            let n = chunks_from(data, chunk, 0).len();
            (n - 1) * chunk < data.len() <= n * chunk
        }),
{
    let n = chunks_from(data, chunk, 0).len();
    if data.len() > 0 {
        let i = chunk_of_byte(data, chunk, 0, data.len() - 1);
        assert(data.len() <= n * chunk) by (nonlinear_arith)
            requires
                data.len() - 1 < i * chunk + chunk,
                i + 1 <= n,
                chunk > 0,
        ;
        chunk_at(data, chunk, 0, n - 1);
    } else {
        assert(n == 0);
        assert((0 - 1) * chunk < 0 && 0 * chunk == 0) by (nonlinear_arith)
            requires
                chunk > 0,
        ;
    }
}

proof fn chunk_ends(data: Seq<u8>, chunk: int, i: int, n: int)
    requires
        chunk > 0,
        0 <= i < n,
        (n - 1) * chunk < data.len() <= n * chunk,
    ensures
        i * chunk + chunk_len(data.len() as int, chunk, i * chunk) == if i == n - 1 {
            data.len() as int
        } else {
            (i + 1) * chunk
        },
{
    assert((i + 1) * chunk == i * chunk + chunk) by (nonlinear_arith);
    if i < n - 1 {
        assert((i + 1) * chunk <= (n - 1) * chunk) by (nonlinear_arith)
            requires
                i + 1 <= n - 1,
                chunk > 0,
        ;
    } else {
        assert(n * chunk == (i + 1) * chunk);
    }
}

/// The root of a file is the hash of all of its chunks' hashes, in order; that of its
/// one chunk where it has one, and that of no bytes where it has none.
pub proof fn root_is_over_chunk_hashes(data: Seq<u8>, chunk: int, n: nat)
    requires
        chunk > 0,
        (n - 1) * chunk < data.len() <= n * chunk,
    ensures
        n == 0 ==> merkle_root(data, chunk) == hashing::blake3(Seq::empty()),
        n == 1 ==> merkle_root(data, chunk) == hashing::blake3(data),
        n > 1 ==> merkle_root(data, chunk) == hashing::blake3(
            Seq::new(
                n,
                |i: int|
                    hashing::blake3(
                        data.subrange(
                            i * chunk,
                            if i == n - 1 {
                                data.len() as int
                            } else {
                                (i + 1) * chunk
                            },
                        ),
                    ),
            ).flatten(),
        ),
{
    let all = chunks_from(data, chunk, 0);
    chunks_are_counted(data, chunk);
    assert(all.len() == n) by (nonlinear_arith)
        requires
            chunk > 0,
            (n - 1) * chunk < data.len() <= n * chunk,
            (all.len() - 1) * chunk < data.len() <= all.len() * chunk,
    ;
    if n == 1 {
        chunk_at(data, chunk, 0, 0);
        chunk_ends(data, chunk, 0, 1);
        assert(0 * chunk == 0) by (nonlinear_arith);
        assert(data.subrange(0, data.len() as int) =~= data);
    }
    let hashes = Seq::new(
        n,
        |i: int|
            hashing::blake3(
                data.subrange(
                    i * chunk,
                    if i == n - 1 {
                        data.len() as int
                    } else {
                        (i + 1) * chunk
                    },
                ),
            ),
    );
    assert(all.map_values(|c: (int, int, Seq<u8>)| c.2) =~= hashes) by {
        assert forall|i: int| 0 <= i < n implies all[i].2 == #[trigger] hashes[i] by {
            chunk_at(data, chunk, 0, i);
            chunk_ends(data, chunk, i, n as int);
        }
    }
    chunk_hashes_are_flat(all, |c: (int, int, Seq<u8>)| c.2);
}

proof fn chunk_hashes_are_flat(
    chunks: Seq<(int, int, Seq<u8>)>,
    f: spec_fn((int, int, Seq<u8>)) -> Seq<u8>,
)
    requires
        forall|c: (int, int, Seq<u8>)| #[trigger] f(c) == c.2,
    ensures
        chunk_hash_bytes(chunks) == chunks.map_values(f).flatten(),
    decreases chunks.len(),
{
    let m = chunks.map_values(f);
    m.lemma_flatten_and_flatten_alt_are_equivalent();
    if chunks.len() > 0 {
        chunk_hashes_are_flat(chunks.drop_last(), f);
        let before = chunks.drop_last().map_values(f);
        before.lemma_flatten_and_flatten_alt_are_equivalent();
        assert(m.drop_last() =~= before);
    }
}

/// The root of a tree is made of its leaves' hashes in order.
pub proof fn root_is_over_leaf_hashes(leaves: Seq<ChunkHash>)
    ensures
        leaves.len() == 0 ==> root_of(leaves) == hashing::blake3(Seq::empty()),
        leaves.len() == 1 ==> root_of(leaves) == leaves[0].hash@,
        leaves.len() > 1 ==> root_of(leaves) == hashing::blake3(
            leaves.map_values(|l: ChunkHash| l.hash@).flatten(),
        ),
{
    leaf_hashes_are_flat(leaves, |l: ChunkHash| l.hash@);
}

proof fn leaf_hashes_are_flat(leaves: Seq<ChunkHash>, f: spec_fn(ChunkHash) -> Seq<u8>)
    requires
        forall|l: ChunkHash| #[trigger] f(l) == l.hash@,
    ensures
        hash_bytes(leaves) == leaves.map_values(f).flatten(),
    decreases leaves.len(),
{
    let m = leaves.map_values(f);
    m.lemma_flatten_and_flatten_alt_are_equivalent();
    if leaves.len() > 0 {
        leaf_hashes_are_flat(leaves.drop_last(), f);
        let before = leaves.drop_last().map_values(f);
        before.lemma_flatten_and_flatten_alt_are_equivalent();
        assert(m.drop_last() =~= before);
    }
}

/// A byte is copied exactly where its chunk's hash is not the one the target has at
/// that place.
pub proof fn only_changed_chunks_are_sent(s: Seq<ChunkHash>, t: Seq<ChunkHash>, i: int, k: int)
    requires
        contiguous(s),
        0 <= i < s.len(),
        s[i].offset <= k < s[i].offset + s[i].length,
    ensures
        in_ranges(ranges_of(s, dirty_runs(s, t, s.len())), k) <==> (i >= t.len() || s[i].hash@
            != t[i].hash@),
{
    let runs = dirty_runs(s, t, s.len());
    let ranges = ranges_of(s, runs);
    runs_are_exact(s, t, s.len());
    if in_ranges(ranges, k) {
        let r = choose|r: int|
            0 <= r < ranges.len() && (#[trigger] ranges[r]).offset <= k < ranges[r].offset
                + ranges[r].length;
        let a = runs[r].0;
        let b = runs[r].1;
        assert(ranges[r] == range_of(s, runs[r]));
        offsets_increase(s, a, b - 1);
        if i < a {
            offsets_increase(s, i + 1, a);
            assert(s[i].offset + s[i].length == s[i + 1].offset);
        }
        if i >= b {
            offsets_increase(s, b, i);
            assert(s[b - 1].offset + s[b - 1].length == s[b].offset);
        }
        assert(is_dirty(s, t, i));
    }
    if i >= t.len() || s[i].hash@ != t[i].hash@ {
        assert(is_dirty(s, t, i));
        let r = choose|r: int| 0 <= r < runs.len() && (#[trigger] runs[r]).0 <= i < runs[r].1;
        offsets_increase(s, runs[r].0, i);
        offsets_increase(s, i, runs[r].1 - 1);
        offsets_increase(s, runs[r].0, runs[r].1 - 1);
        assert(ranges[r] == range_of(s, runs[r]));
    }
}

/// The ranges to copy, laid over the target, give the source, as long as no two different
/// chunks share a hash; and a byte whose chunk is the same in both is not copied.
pub proof fn delta_gives_the_source(
    source: &[u8],
    target: &[u8],
    chunk: u64,
    s: MerkleTree,
    t: MerkleTree,
    ranges: Vec<DirtyRange>,
)
    requires
        call_ensures(MerkleTree::from_file, (source, chunk), s),
        call_ensures(MerkleTree::from_file, (target, chunk), t),
        call_ensures(MerkleTree::diff, (&s, &t), ranges),
        0 < chunk <= u32::MAX,
        source@.len() == target@.len(),
        source@.len() <= u64::MAX,
        forall|a: int, b: int|
            0 <= a <= b <= source@.len() && hashing::blake3(#[trigger] source@.subrange(a, b))
                == hashing::blake3(target@.subrange(a, b)) ==> source@.subrange(a, b)
                == target@.subrange(a, b),
    ensures
        patched(source@, target@, ranges@) == source@,
        source@ == target@ ==> ranges@.len() == 0,
{
    delta_restores_source(source@, target@, chunk as int, s.leaves@, t.leaves@);
    if source@ == target@ {
        unchanged_file_has_no_delta(source@, chunk as int, s.leaves@, t.leaves@);
    }
}

/// A file is held against a signature by its root: the one of its own tree passes, and
/// contents with another root do not.
pub proof fn contents_are_held_against_root(
    contents: &[u8],
    chunk: u64,
    t: MerkleTree,
    sig: MerkleSignature,
    other: &[u8],
    same: bool,
)
    requires
        call_ensures(MerkleTree::from_file, (contents, chunk), t),
        call_ensures(MerkleTree::to_signature, (&t,), sig),
        call_ensures(verify_with_merkle, (other, &sig), same),
    ensures
        other@ == contents@ ==> same,
        same <==> merkle_root(other@, chunk as int) == merkle_root(contents@, chunk as int),
{
}

/// Nothing is copied where the roots are equal; else what differs is.
pub proof fn equal_roots_need_nothing(
    source: &MerkleTree,
    target: &MerkleTree,
    ranges: Vec<DirtyRange>,
    k: int,
    i: int,
)
    requires
        call_ensures(MerkleTree::delta, (source, target), ranges),
        contiguous(source.leaves@),
        0 <= i < source.leaves@.len(),
        source.leaves@[i].offset <= k < source.leaves@[i].offset + source.leaves@[i].length,
    ensures
        source.root@ == target.root@ ==> ranges@.len() == 0,
        source.root@ != target.root@ ==> (in_ranges(ranges@, k) <==> i >= target.leaves@.len()
            || source.leaves@[i].hash@ != target.leaves@[i].hash@),
{
    contiguous_is_in_order(source.leaves@);
    only_changed_chunks_are_sent(source.leaves@, target.leaves@, i, k);
}

} // verus!
