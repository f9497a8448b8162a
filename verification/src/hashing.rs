//! BLAKE3 fingerprints: of file samples, of directories, and of the fixed-size
//! chunks of a file, which tell what part of it has changed.

use crate::bytes;
use crate::error::{FxcpError, IoKind};
use crate::order;
use crate::text;
use vstd::prelude::*;

verus! {

/// The size of the chunks that files are hashed in.
pub const CHUNK_SIZE: usize = 65536;

/// The largest signature that is stored with a file.
pub const MAX_MERKLE_XATTR_BYTES: usize = 65536;

/// The BLAKE3 hash of a byte string.
pub uninterp spec fn blake3(data: Seq<u8>) -> Seq<u8>;

/// `blake3::hash`: the 32-byte hash of `data`, which depends on nothing else.
#[verifier::external_body]
pub(crate) fn blake3_hash(data: &[u8]) -> (h: [u8; 32])
    ensures
        h@ == blake3(data@),
{
    *blake3::hash(data).as_bytes()
}

/// Whether two hashes are the same.
pub fn same_hash(a: &[u8; 32], b: &[u8; 32]) -> (same: bool)
    ensures
        same == (a@ == b@),
{
    let mut i: usize = 0;
    while i < 32
        invariant
            i <= 32,
            forall|j: int| 0 <= j < i ==> a@[j] == b@[j],
        decreases 32 - i,
    {
        if a[i] != b[i] {
            return false;
        }
        i = i + 1;
    }
    assert(a@ =~= b@);
    true
}

/// Whether hashing is on, and from which file size on it pays.
#[derive(Debug, Clone, Copy)]
pub struct HashSettings {
    pub enabled: bool,
    pub lite_threshold_bytes: u64,
}

impl Default for HashSettings {
    /// On, from 128 KiB on.
    fn default() -> (s: Self)
        ensures
            s.enabled,
            s.lite_threshold_bytes == 131072,
    {
        HashSettings { enabled: true, lite_threshold_bytes: 131072 }
    }
}

/// Turns hashing on or off.
pub fn set_hashing_enabled(settings: &mut HashSettings, enabled: bool)
    ensures
        *final(settings) == (HashSettings { enabled, ..*old(settings) }),
{
    settings.enabled = enabled;
}

/// Whether hashing is on.
pub fn is_hashing_enabled(settings: &HashSettings) -> (b: bool)
    ensures
        b == settings.enabled,
{
    settings.enabled
}

/// Sets the file size from which on hashing pays, in KiB.
pub fn set_lite_threshold_kb(settings: &mut HashSettings, kb: u64)
    requires
        kb * 1024 <= u64::MAX,
    ensures
        *final(settings) == (HashSettings {
            lite_threshold_bytes: (kb * 1024) as u64,
            ..*old(settings)
        }),
{
    settings.lite_threshold_bytes = kb * 1024;
}

/// The file size from which on hashing pays, in bytes.
pub fn get_lite_threshold_bytes(settings: &HashSettings) -> (n: u64)
    ensures
        n == settings.lite_threshold_bytes,
{
    settings.lite_threshold_bytes
}

/// Whether a file of this size is fingerprinted at all.
pub open spec fn wants_lite_hash(settings: HashSettings, size: u64) -> bool {
    settings.enabled && size >= settings.lite_threshold_bytes
}

/// Whether the sample of a file of this size includes its tail.
pub open spec fn samples_tail(size: u64) -> bool {
    size > 131072
}

/// Whether the sample of a file of this size includes its tail: the last
/// `CHUNK_SIZE` bytes.
pub fn needs_tail(size: u64) -> (b: bool)
    ensures
        b == samples_tail(size),
{
    size > 131072
}

/// The fingerprint of a file's sample: its size, its head and, of a large file,
/// its tail.
pub open spec fn lite_hash(size: u64, head: Seq<u8>, tail: Seq<u8>) -> Seq<u8> {
    blake3(bytes::le64(size) + head + (if samples_tail(size) {
        tail
    } else {
        Seq::empty()
    }))
}

/// The fingerprint of a file, from its size and what was read of its head and
/// tail; none where hashing is off or the file is too small.
pub fn hash_file_lite(settings: &HashSettings, size: u64, head: &[u8], tail: &[u8]) -> (h: Option<
    [u8; 32],
>)
    ensures
        h is Some == wants_lite_hash(*settings, size),
        h is Some ==> h->0@ == lite_hash(size, head@, tail@),
{
    if !settings.enabled || size < settings.lite_threshold_bytes {
        return None;
    }
    let mut buf: Vec<u8> = Vec::new();
    bytes::put_le64(&mut buf, size);
    bytes::put_slice(&mut buf, head);
    if needs_tail(size) {
        bytes::put_slice(&mut buf, tail);
    }
    assert(buf@ =~= bytes::le64(size) + head@ + (if samples_tail(size) {
        tail@
    } else {
        Seq::empty()
    }));
    Some(blake3_hash(buf.as_slice()))
}

/// The hash of a whole file; none where hashing is off.
pub fn hash_file_full(settings: &HashSettings, contents: &[u8]) -> (h: Option<[u8; 32]>)
    ensures
        h is Some == settings.enabled,
        h is Some ==> h->0@ == blake3(contents@),
{
    if settings.enabled {
        Some(blake3_hash(contents))
    } else {
        None
    }
}

/// What sampling a file for its fingerprint came to.
#[derive(Debug, Clone)]
pub enum Sampled {
    /// The fingerprint.
    Hash([u8; 32]),
    /// The file is gone.
    Missing,
    /// Reading failed otherwise.
    Failed(FxcpError),
}

/// Whether a copy passes for the original by its fingerprint. Small files pass,
/// and so does a copy whose original is gone; a copy that is gone does not.
pub fn verify_incremental(settings: &HashSettings, size: u64, src: Sampled, dst: Sampled) -> (res:
    Result<bool, FxcpError>)
    ensures
        if !wants_lite_hash(*settings, size) {
            res == Ok::<bool, FxcpError>(true)
        } else {
            match (src, dst) {
                (Sampled::Missing, _) => res == Ok::<bool, FxcpError>(true),
                (Sampled::Failed(e), _) => res == Err::<bool, FxcpError>(e),
                (_, Sampled::Missing) => res == Ok::<bool, FxcpError>(false),
                (_, Sampled::Failed(e)) => res == Err::<bool, FxcpError>(e),
                (Sampled::Hash(a), Sampled::Hash(b)) => res == Ok::<bool, FxcpError>(a@ == b@),
            }
        },
{
    if !settings.enabled || size < settings.lite_threshold_bytes {
        return Ok(true);
    }
    match src {
        Sampled::Missing => Ok(true),
        Sampled::Failed(e) => Err(e),
        Sampled::Hash(a) => match dst {
            Sampled::Missing => Ok(false),
            Sampled::Failed(e) => Err(e),
            Sampled::Hash(b) => Ok(same_hash(&a, &b)),
        },
    }
}

/// Whether two contents have the same hash.
pub fn verify_blake3(src: &[u8], dst: &[u8]) -> (same: bool)
    ensures
        same == (blake3(src@) == blake3(dst@)),
{
    let a = blake3_hash(src);
    let b = blake3_hash(dst);
    same_hash(&a, &b)
}

/// The names of a directory's children.
pub open spec fn child_names(children: Seq<(String, [u8; 32])>) -> Seq<Seq<char>> {
    Seq::new(children.len(), |i: int| children[i].0@)
}

/// A directory's children as one byte string: for each, in turn, its name, a
/// colon and its hash.
pub open spec fn child_bytes(children: Seq<(String, [u8; 32])>) -> Seq<u8>
    decreases children.len(),
{
    if children.len() == 0 {
        Seq::empty()
    } else {
        child_bytes(children.drop_last()) + vstd::utf8::encode_utf8(children.last().0@) + seq![
            58u8,
        ] + children.last().1@
    }
}

/// The hash of a directory: its children are put in the order of their names,
/// and the hash is taken over all of their names and hashes.
pub fn compute_dir_hash(children: &mut Vec<(String, [u8; 32])>) -> (h: [u8; 32])
    ensures
        exists|o: Seq<usize>|
            #![trigger order::is_sorted_order(child_names(old(children)@), o)]
            order::is_sorted_order(child_names(old(children)@), o) && final(children)@
                == order::reorder(old(children)@, o),
        h@ == blake3(child_bytes(final(children)@)),
{
    let ghost start = children@;
    let mut names: Vec<String> = Vec::new();
    let mut i: usize = 0;
    while i < children.len()
        invariant
            i <= children@.len(),
            children@ == start,
            names@.len() == i,
            forall|k: int| 0 <= k < i ==> (#[trigger] names@[k])@ == start[k].0@,
        decreases children@.len() - i,
    {
        names.push(children[i].0.clone());
        i = i + 1;
    }
    assert(text::texts(names@) =~= child_names(start));
    let ord = order::sorted_order(&names);
    let mut sorted: Vec<(String, [u8; 32])> = Vec::new();
    let mut buf: Vec<u8> = Vec::new();
    let mut k: usize = 0;
    while k < ord.len()
        invariant
            k <= ord@.len(),
            children@ == start,
            order::is_sorted_order(child_names(start), ord@),
            sorted@ == order::reorder(start, ord@).subrange(0, k as int),
            buf@ == child_bytes(sorted@),
        decreases ord@.len() - k,
    {
        let at: usize = ord[k];
        let ghost before = sorted@;
        let name = children[at].0.clone();
        let hash = children[at].1;
        bytes::put_slice(&mut buf, name.as_str().as_bytes());
        buf.push(58);
        bytes::put_slice(&mut buf, hash.as_slice());
        sorted.push((name, hash));
        proof {
            assert(sorted@.last() == start[at as int]);
            assert(sorted@ =~= order::reorder(start, ord@).subrange(0, k + 1));
            assert(sorted@.drop_last() =~= before);
            assert(buf@ =~= child_bytes(before) + vstd::utf8::encode_utf8(start[at as int].0@)
                + seq![58u8] + start[at as int].1@);
        }
        k = k + 1;
    }
    assert(sorted@ =~= order::reorder(start, ord@));
    *children = sorted;
    blake3_hash(buf.as_slice())
}

/// The hash of a directory does not depend on the order in which its children
/// were found: two lists of the same children, no two of one name, sort to the
/// same list.
pub proof fn dir_hash_ignores_order(
    a: Seq<(String, [u8; 32])>,
    b: Seq<(String, [u8; 32])>,
    a_order: Seq<usize>,
    b_order: Seq<usize>,
)
    requires
        forall|c: (String, [u8; 32])| a.contains(c) == b.contains(c),
        forall|i: int, j: int| 0 <= i < j < a.len() ==> a[i].0@ != a[j].0@,
        forall|i: int, j: int| 0 <= i < j < b.len() ==> b[i].0@ != b[j].0@,
        order::is_sorted_order(child_names(a), a_order),
        order::is_sorted_order(child_names(b), b_order),
    ensures
        blake3(child_bytes(order::reorder(a, a_order))) == blake3(
            child_bytes(order::reorder(b, b_order)),
        ),
{
    let x = order::reorder(a, a_order);
    let y = order::reorder(b, b_order);
    let key = |c: (String, [u8; 32])| c.0@;
    sorted_children_increase(a, a_order);
    sorted_children_increase(b, b_order);
    assert forall|c: (String, [u8; 32])| x.contains(c) == y.contains(c) by {
        order::sorting_keeps_items(a, child_names(a), a_order, c);
        order::sorting_keeps_items(b, child_names(b), b_order, c);
    }
    order::increasing_lists_agree(x, y, key);
}

proof fn sorted_children_increase(a: Seq<(String, [u8; 32])>, ord: Seq<usize>)
    requires
        forall|i: int, j: int| 0 <= i < j < a.len() ==> a[i].0@ != a[j].0@,
        order::is_sorted_order(child_names(a), ord),
    ensures
        forall|i: int, j: int|
            0 <= i < j < ord.len() ==> order::le(
                (#[trigger] order::reorder(a, ord)[i]).0@,
                (#[trigger] order::reorder(a, ord)[j]).0@,
            ) && order::reorder(a, ord)[i].0@ != order::reorder(a, ord)[j].0@,
{
    let x = order::reorder(a, ord);
    assert forall|i: int, j: int| 0 <= i < j < ord.len() implies order::le(
        (#[trigger] x[i]).0@,
        (#[trigger] x[j]).0@,
    ) && x[i].0@ != x[j].0@ by {
        let p = ord[i] as int;
        let q = ord[j] as int;
        assert(order::goes_before(child_names(a), p, q));
        assert(child_names(a)[p] == a[p].0@);
        assert(child_names(a)[q] == a[q].0@);
        if p < q {
            assert(a[p].0@ != a[q].0@);
        } else {
            assert(a[q].0@ != a[p].0@);
        }
    }
}

/// A sample stands for the size, the start and, of a file of more than two samples'
/// bytes, the end; it is taken only where hashing is on and the file is large enough.
pub proof fn sample_covers_both_ends(
    settings: HashSettings,
    size: u64,
    head: Seq<u8>,
    tail: Seq<u8>,
)
    ensures
        size > 131072 ==> lite_hash(size, head, tail) == blake3(bytes::le64(size) + head + tail),
        size <= 131072 ==> lite_hash(size, head, tail) == blake3(bytes::le64(size) + head),
        wants_lite_hash(settings, size) <==> settings.enabled && settings.lite_threshold_bytes
            <= size,
{
    assert(bytes::le64(size) + head + Seq::empty() =~= bytes::le64(size) + head);
}

/// A directory's bytes are those of its entries, one after the other: each its name, a
/// colon and its hash.
pub proof fn every_child_is_hashed(
    a: Seq<(String, [u8; 32])>,
    b: Seq<(String, [u8; 32])>,
    c: (String, [u8; 32]),
)
    ensures
        child_bytes(Seq::empty()) == Seq::<u8>::empty(),
        child_bytes(seq![c]) == vstd::utf8::encode_utf8(c.0@) + seq![58u8] + c.1@,
        child_bytes(a + b) == child_bytes(a) + child_bytes(b),
    decreases b.len(),
{
    assert(seq![c].drop_last() =~= Seq::empty());
    assert(child_bytes(seq![c].drop_last()) =~= Seq::empty());
    assert(child_bytes(seq![c]) =~= vstd::utf8::encode_utf8(c.0@) + seq![58u8] + c.1@);
    if b.len() > 0 {
        every_child_is_hashed(a, b.drop_last(), c);
        assert((a + b).drop_last() =~= a + b.drop_last());
        assert(child_bytes(a + b) =~= child_bytes(a) + child_bytes(b));
    } else {
        assert(a + b =~= a);
        assert(child_bytes(a) + child_bytes(b) =~= child_bytes(a));
    }
}

/// The names of a directory's entries are their own, each at its place.
pub proof fn names_keep_their_places(children: Seq<(String, [u8; 32])>)
    ensures
        child_names(children).len() == children.len(),
        forall|i: int|
            0 <= i < children.len() ==> #[trigger] child_names(children)[i] == children[i].0@,
{
}

/// Two files are the same by their samples exactly where both have one and they are equal;
/// a source that cannot be sampled is not held against the copy, and a missing sample of the
/// copy is.
pub proof fn samples_must_agree(
    settings: &HashSettings,
    size: u64,
    src: Sampled,
    dst: Sampled,
    res: Result<bool, FxcpError>,
)
    requires
        call_ensures(verify_incremental, (settings, size, src, dst), res),
    ensures
        ({
            let hashed = settings.enabled && size >= settings.lite_threshold_bytes;
            &&& !hashed ==> res == Ok::<bool, FxcpError>(true)
            &&& hashed && src is Missing ==> res == Ok::<bool, FxcpError>(true)
            &&& hashed && src is Hash && dst is Missing ==> res == Ok::<bool, FxcpError>(false)
            &&& hashed && src is Hash && dst is Hash && src->Hash_0@ == dst->Hash_0@ ==> res == Ok::<
                bool,
                FxcpError,
            >(true)
            &&& hashed && src is Hash && dst is Hash && src->Hash_0@ != dst->Hash_0@ ==> res == Ok::<
                bool,
                FxcpError,
            >(false)
            &&& hashed && (src is Failed || src is Hash && dst is Failed) ==> res is Err
        }),
{
}

/// Contents are the same where their hashes are, and the hash of a directory does not depend
/// on the order in which its entries were read.
pub proof fn equal_contents_are_the_same(src: &[u8], dst: &[u8], same: bool)
    requires
        call_ensures(verify_blake3, (src, dst), same),
    ensures
        src@ == dst@ ==> same,
        blake3(src@) != blake3(dst@) ==> !same,
        same ==> blake3(src@) == blake3(dst@),
{
}

} // verus!
