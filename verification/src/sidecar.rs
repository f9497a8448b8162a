//! What is stored beside files: signatures, dirty flags and hashes, under which
//! keys, and how they are read back.

use crate::bytes;
use crate::compress;
use crate::hashing;
use crate::hashing::HashSettings;
use crate::merkle::MerkleSignature;
use crate::path;
use crate::text;
use bincode::Options;
use vstd::prelude::*;

verus! {

/// The largest payload that a signature is read from.
pub const MAX_SIGNATURE_BYTES: u64 = 16 * 1024 * 1024;

/// The largest payload that a Merkle signature is read from or stored as.
pub const MAX_MERKLE_BYTES: u64 = 64 * 1024;

/// The state of a file when it was last synchronised.
#[derive(Debug)]
pub struct SyncSignature {
    pub size: u64,
    pub mtime_sec: i64,
    pub mtime_nsec: i64,
    /// The fingerprint of a sample, in hexadecimal.
    pub hash: Option<String>,
    /// The hash of the whole file, in hexadecimal.
    pub merkle_root: Option<String>,
    pub chunk_size: Option<u64>,
    pub leaf_count: Option<u32>,
    /// The version of this layout.
    pub version: u8,
}

/// The version of the layout that is written.
pub const CURRENT_VERSION: u8 = 4;

/// A `SyncSignature`, its texts as sequences of characters.
pub ghost struct SignatureModel {
    pub size: u64,
    pub mtime_sec: i64,
    pub mtime_nsec: i64,
    pub hash: Option<Seq<char>>,
    pub merkle_root: Option<Seq<char>>,
    pub chunk_size: Option<u64>,
    pub leaf_count: Option<u32>,
    pub version: u8,
}

/// The characters of an optional text.
pub open spec fn text_in(o: Option<String>) -> Option<Seq<char>> {
    match o {
        Some(s) => Some(s@),
        None => None,
    }
}

impl View for SyncSignature {
    type V = SignatureModel;

    open spec fn view(&self) -> SignatureModel {
        SignatureModel {
            size: self.size,
            mtime_sec: self.mtime_sec,
            mtime_nsec: self.mtime_nsec,
            hash: text_in(self.hash),
            merkle_root: text_in(self.merkle_root),
            chunk_size: self.chunk_size,
            leaf_count: self.leaf_count,
            version: self.version,
        }
    }
}

/// An optional text in bytes: a tag, the length in eight bytes, the UTF-8.
pub open spec fn text_bytes(o: Option<Seq<char>>) -> Seq<u8> {
    match o {
        Some(s) => seq![1u8] + bytes::le64(text::byte_len(s) as u64) + vstd::utf8::encode_utf8(s),
        None => seq![0u8],
    }
}

/// A signature in bytes: its fields in their order, numbers little-endian and of
/// fixed width, a tag before what is optional.
pub open spec fn signature_bytes(m: SignatureModel) -> Seq<u8> {
    bytes::le64(m.size) + bytes::le64(m.mtime_sec as u64) + bytes::le64(m.mtime_nsec as u64)
        + text_bytes(m.hash) + text_bytes(m.merkle_root) + (match m.chunk_size {
        Some(n) => seq![1u8] + bytes::le64(n),
        None => seq![0u8],
    }) + (match m.leaf_count {
        Some(n) => seq![1u8] + bytes::le32(n),
        None => seq![0u8],
    }) + seq![m.version]
}

/// The signature that bytes of at most `limit` stand for, where they do.
pub uninterp spec fn signature_in(data: Seq<u8>, limit: u64) -> Option<SignatureModel>;

/// `bincode::serialize` of the fields of a signature: numbers little-endian and
/// of fixed width, a tag byte before an optional value, texts with their length
/// in eight bytes.
#[verifier::external_body]
fn encode_signature(sig: &SyncSignature) -> (out: Vec<u8>)
    ensures
        out@ == signature_bytes(sig@),
{
    bincode::serialize(
        &(
            sig.size,
            sig.mtime_sec,
            sig.mtime_nsec,
            &sig.hash,
            &sig.merkle_root,
            sig.chunk_size,
            sig.leaf_count,
            sig.version,
        ),
    ).unwrap_or_default()
}

/// `bincode::DefaultOptions` with a limit, `deserialize` into the fields of a
/// signature: what it gives depends on bytes and limit alone. These options read
/// numbers of variable width, unlike those that `encode_signature` writes; what
/// they make of given bytes is not stated.
#[verifier::external_body]
fn decode_signature(data: &[u8], limit: u64) -> (res: Option<SyncSignature>)
    ensures
        match signature_in(data@, limit) {
            Some(m) => res is Some && res->0@ == m,
            None => res is None,
        },
{
    let fields = bincode::DefaultOptions::new().with_limit(limit).deserialize(data).ok();
    fields.map(|f: (u64, i64, i64, Option<String>, Option<String>, Option<u64>, Option<u32>, u8)|
        SyncSignature {
            size: f.0, mtime_sec: f.1, mtime_nsec: f.2, hash: f.3,
            merkle_root: f.4, chunk_size: f.5, leaf_count: f.6, version: f.7,
        })
}

/// The hash of a file as text, where it is known.
pub open spec fn hash_hex(h: Option<[u8; 32]>) -> Option<Seq<char>> {
    match h {
        Some(x) => Some(compress::hex_text(x@)),
        None => None,
    }
}

fn hex_of(h: &Option<[u8; 32]>) -> (res: Option<String>)
    ensures
        text_in(res) == hash_hex(*h),
{
    match h {
        Some(x) => Some(compress::hex_encode(x.as_slice())),
        None => None,
    }
}

impl SyncSignature {
    /// The signature of a file with these contents: fingerprint and hash only
    /// where hashing is on and the file is large enough.
    pub open spec fn model_of(
        settings: HashSettings,
        size: u64,
        mtime_sec: i64,
        mtime_nsec: i64,
        head: Seq<u8>,
        tail: Seq<u8>,
        contents: Seq<u8>,
    ) -> SignatureModel {
        let hashed = hashing::wants_lite_hash(settings, size);
        SignatureModel {
            size,
            mtime_sec,
            mtime_nsec,
            hash: if hashed {
                Some(compress::hex_text(hashing::lite_hash(size, head, tail)))
            } else {
                None
            },
            merkle_root: if hashed {
                Some(compress::hex_text(hashing::blake3(contents)))
            } else {
                None
            },
            chunk_size: Some(hashing::CHUNK_SIZE as u64),
            leaf_count: None,
            version: CURRENT_VERSION,
        }
    }

    /// The signature of a file, from what was read of it.
    pub fn compute(
        settings: &HashSettings,
        size: u64,
        mtime_sec: i64,
        mtime_nsec: i64,
        head: &[u8],
        tail: &[u8],
        contents: &[u8],
    ) -> (sig: Self)
        ensures
            sig@ == Self::model_of(
                *settings,
                size,
                mtime_sec,
                mtime_nsec,
                head@,
                tail@,
                contents@,
            ),
    {
        let lite = hashing::hash_file_lite(settings, size, head, tail);
        let full = if lite.is_some() {
            hashing::hash_file_full(settings, contents)
        } else {
            None
        };
        SyncSignature {
            size,
            mtime_sec,
            mtime_nsec,
            hash: hex_of(&lite),
            merkle_root: hex_of(&full),
            chunk_size: Some(hashing::CHUNK_SIZE as u64),
            leaf_count: None,
            version: CURRENT_VERSION,
        }
    }

    /// The signature of a file whose contents are at hand. Its sample is its
    /// first and its last chunk.
    pub fn compute_from_buffer(
        settings: &HashSettings,
        data: &[u8],
        mtime_sec: i64,
        mtime_nsec: i64,
    ) -> (sig: Self)
        ensures
            ({
                let n = data@.len() as int;
                let c = if n < hashing::CHUNK_SIZE {
                    n
                } else {
                    hashing::CHUNK_SIZE as int
                };
                sig@ == Self::model_of(
                    *settings,
                    n as u64,
                    mtime_sec,
                    mtime_nsec,
                    data@.subrange(0, c),
                    data@.subrange(n - c, n),
                    data@,
                )
            }),
    {
        let n: usize = data.len();
        let c: usize = if n < hashing::CHUNK_SIZE {
            n
        } else {
            hashing::CHUNK_SIZE
        };
        let head = vstd::slice::slice_subrange(data, 0, c);
        let tail = vstd::slice::slice_subrange(data, n - c, n);
        Self::compute(settings, n as u64, mtime_sec, mtime_nsec, head, tail, data)
    }

    /// The signature in bytes.
    pub fn serialize(&self) -> (out: Vec<u8>)
        ensures
            out@ == signature_bytes(self@),
    {
        encode_signature(self)
    }

    /// The signature that bytes stand for, where they do.
    pub fn deserialize(data: &[u8]) -> (res: Option<Self>)
        ensures
            match signature_in(data@, MAX_SIGNATURE_BYTES) {
                Some(m) => res is Some && res->0@ == m,
                None => res is None,
            },
    {
        decode_signature(data, MAX_SIGNATURE_BYTES)
    }

    /// Whether two signatures are of the same contents: the sizes agree, and the
    /// hashes of the whole files where both are known; else the times agree, and
    /// the fingerprints where both are known.
    pub open spec fn agree(a: SignatureModel, b: SignatureModel) -> bool {
        a.size == b.size && (if a.merkle_root is Some && b.merkle_root is Some {
            a.merkle_root == b.merkle_root
        } else {
            &&& a.mtime_sec == b.mtime_sec
            &&& a.mtime_nsec == b.mtime_nsec
            &&& (a.hash is Some && b.hash is Some ==> a.hash == b.hash)
        })
    }

    /// Whether two signatures are of the same contents.
    pub fn matches(&self, other: &Self) -> (same: bool)
        ensures
            same == Self::agree(self@, other@),
    {
        if self.size != other.size {
            return false;
        }
        if let Some(a) = &self.merkle_root {
            if let Some(b) = &other.merkle_root {
                return text::same_text(a, b);
            }
        }
        if self.mtime_sec != other.mtime_sec || self.mtime_nsec != other.mtime_nsec {
            return false;
        }
        if let Some(a) = &self.hash {
            if let Some(b) = &other.hash {
                return text::same_text(a, b);
            }
        }
        true
    }
}

/// A signature agrees with itself, and agreement goes both ways.
pub proof fn agreement_is_mutual(a: SignatureModel, b: SignatureModel)
    ensures
        SyncSignature::agree(a, a),
        SyncSignature::agree(a, b) == SyncSignature::agree(b, a),
{
}

/// A change anywhere in a file shows where the hashes of the whole files are
/// known: signatures with different hashes never agree.
pub proof fn different_hashes_never_agree(a: SignatureModel, b: SignatureModel)
    requires
        a.merkle_root is Some,
        b.merkle_root is Some,
        a.merkle_root != b.merkle_root,
    ensures
        !SyncSignature::agree(a, b),
{
}

/// Where the metadata of a file is stored: beside it, under a name of its own.
pub open spec fn sidecar_of(target: Seq<char>) -> Option<Seq<char>> {
    match (path::file_name(target), path::parent(target)) {
        (Some(name), Some(dir)) => Some(path::join(dir, "."@ + name + ".foxing_meta"@)),
        _ => None,
    }
}

/// Where the metadata of a file is stored; nowhere where its path has no name.
pub fn get_sidecar_path(target: &str) -> (res: Option<String>)
    ensures
        match sidecar_of(target@) {
            Some(p) => res is Some && res->0@ == p,
            None => res is None,
        },
{
    match (path::file_name_of(target), path::parent_of(target)) {
        (Some(name), Some(dir)) => Some(
            path::join_path(&dir, &text::concat3(".", &name, ".foxing_meta")),
        ),
        _ => None,
    }
}

/// Where the metadata of a directory is stored: in it. That of anything else is
/// stored beside it.
pub open spec fn dir_sidecar_of(p: Seq<char>, is_dir: bool) -> Option<Seq<char>> {
    if is_dir {
        Some(path::join(p, ".foxing_dir_meta"@))
    } else {
        sidecar_of(p)
    }
}

/// Where the metadata of a directory is stored.
pub fn get_dir_sidecar_path(p: &str, is_dir: bool) -> (res: Option<String>)
    ensures
        match dir_sidecar_of(p@, is_dir) {
            Some(d) => res is Some && res->0@ == d,
            None => res is None,
        },
{
    if is_dir {
        Some(path::join_path(p, ".foxing_dir_meta"))
    } else {
        get_sidecar_path(p)
    }
}

/// A key without the prefix of either namespace.
pub open spec fn bare_key(key: Seq<char>) -> Seq<char> {
    if text::starts_with(key, "user.foxing."@) {
        key.subrange("user.foxing."@.len() as int, key.len() as int)
    } else if text::starts_with(key, "trusted.foxing."@) {
        key.subrange("trusted.foxing."@.len() as int, key.len() as int)
    } else {
        key
    }
}

/// A key in the trusted namespace.
pub open spec fn trusted_key(key: Seq<char>) -> Seq<char> {
    "trusted.foxing."@ + bare_key(key)
}

/// A key in the user's namespace.
pub open spec fn user_key(key: Seq<char>) -> Seq<char> {
    "user.foxing."@ + bare_key(key)
}

/// A key in the trusted namespace and in the user's, whichever it is given in.
pub fn resolve_key_variants(key: &str) -> (out: (String, String))
    ensures
        out.0@ == trusted_key(key@),
        out.1@ == user_key(key@),
{
    let x = text::chars_of(key);
    let skip: usize = if text::has_prefix(key, "user.foxing.") {
        text::chars_of("user.foxing.").len()
    } else if text::has_prefix(key, "trusted.foxing.") {
        text::chars_of("trusted.foxing.").len()
    } else {
        0
    };
    let bare = text::string_of_range(x.as_slice(), skip, x.len());
    assert(bare@ =~= bare_key(key@));
    (text::concat2("trusted.foxing.", &bare), text::concat2("user.foxing.", &bare))
}

/// The two variants of a key are the variants of each of them.
pub proof fn key_variants_are_stable(key: Seq<char>)
    ensures
        trusted_key(trusted_key(key)) == trusted_key(key),
        trusted_key(user_key(key)) == trusted_key(key),
        user_key(trusted_key(key)) == user_key(key),
        user_key(user_key(key)) == user_key(key),
{
    reveal_strlit("trusted.foxing.");
    reveal_strlit("user.foxing.");
    let t = trusted_key(key);
    let u = user_key(key);
    let b = bare_key(key);
    assert(t.subrange(0, 15) =~= "trusted.foxing."@);
    assert(t.subrange(15, t.len() as int) =~= b);
    assert(u.subrange(0, 12) =~= "user.foxing."@);
    assert(u.subrange(12, u.len() as int) =~= b);
    assert(t[0] == 't' && "user.foxing."@[0] == 'u');
    if text::starts_with(t, "user.foxing."@) {
        assert(t.subrange(0, 12)[0] == 'u');
    }
}

/// The metadata of one file: texts under keys, no key twice.
#[derive(Debug)]
pub struct MetaMap {
    pub entries: Vec<(String, String)>,
}

impl MetaMap {
    /// No key is there twice.
    pub open spec fn wf(self) -> bool {
        forall|i: int, j: int|
            0 <= i < j < self.entries@.len() ==> (#[trigger] self.entries@[i]).0@ != (
            #[trigger] self.entries@[j]).0@
    }

    /// Whether a key is there.
    pub open spec fn has(self, key: Seq<char>) -> bool {
        exists|i: int| 0 <= i < self.entries@.len() && (#[trigger] self.entries@[i]).0@ == key
    }

    /// Whether a text is there under a key.
    pub open spec fn maps(self, key: Seq<char>, value: Seq<char>) -> bool {
        exists|i: int|
            0 <= i < self.entries@.len() && (#[trigger] self.entries@[i]).0@ == key
                && self.entries@[i].1@ == value
    }

    /// The text under a key, where it is there.
    pub open spec fn get(self, key: Seq<char>) -> Option<Seq<char>> {
        if self.has(key) {
            Some(choose|value: Seq<char>| self.maps(key, value))
        } else {
            None
        }
    }

    /// Nothing.
    pub fn new() -> (m: Self)
        ensures
            m.wf(),
            forall|k: Seq<char>| #[trigger] m.get(k) is None,
            m.entries@.len() == 0,
    {
        MetaMap { entries: Vec::new() }
    }

    /// In a map without double keys, what is mapped is what is got.
    proof fn maps_is_get(self, key: Seq<char>, value: Seq<char>)
        requires
            self.wf(),
            self.maps(key, value),
        ensures
            self.get(key) == Some(value),
    {
        let i = choose|i: int|
            0 <= i < self.entries@.len() && (#[trigger] self.entries@[i]).0@ == key
                && self.entries@[i].1@ == value;
        assert(self.has(key));
        let v = choose|v: Seq<char>| self.maps(key, v);
        let j = choose|j: int|
            0 <= j < self.entries@.len() && (#[trigger] self.entries@[j]).0@ == key
                && self.entries@[j].1@ == v;
        if i < j {
            assert(self.entries@[i].0@ != self.entries@[j].0@);
        } else if j < i {
            assert(self.entries@[j].0@ != self.entries@[i].0@);
        }
    }

    proof fn get_is_maps(self, key: Seq<char>)
        requires
            self.has(key),
        ensures
            self.get(key) is Some,
            self.maps(key, self.get(key)->0),
    {
        let i = choose|i: int| 0 <= i < self.entries@.len() && (#[trigger] self.entries@[i]).0@ == key;
        assert(self.maps(key, self.entries@[i].1@));
    }

    fn position(&self, key: &str) -> (res: Option<usize>)
        ensures
            match res {
                Some(i) => i < self.entries@.len() && self.entries@[i as int].0@ == key@,
                None => !self.has(key@),
            },
    {
        let mut i: usize = 0;
        while i < self.entries.len()
            invariant
                i <= self.entries@.len(),
                forall|j: int| 0 <= j < i ==> (#[trigger] self.entries@[j]).0@ != key@,
            decreases self.entries@.len() - i,
        {
            if text::same_text(&self.entries[i].0, key) {
                return Some(i);
            }
            i = i + 1;
        }
        None
    }

    /// The text under a key.
    pub fn lookup(&self, key: &str) -> (res: Option<String>)
        requires
            self.wf(),
        ensures
            text_in(res) == self.get(key@),
    {
        match self.position(key) {
            Some(i) => {
                proof {
                    assert(self.maps(key@, self.entries@[i as int].1@));
                    self.maps_is_get(key@, self.entries@[i as int].1@);
                }
                Some(self.entries[i].1.clone())
            },
            None => None,
        }
    }

    /// Takes a key out. Says whether it was there.
    pub fn remove(&mut self, key: &str) -> (was_there: bool)
        requires
            old(self).wf(),
        ensures
            final(self).wf(),
            was_there == old(self).has(key@),
            forall|k: Seq<char>| #[trigger]
                final(self).get(k) == (if k == key@ {
                    None
                } else {
                    old(self).get(k)
                }),
            was_there ==> final(self).entries@.len() == old(self).entries@.len() - 1,
            !was_there ==> *final(self) == *old(self),
    {
        let ghost before = *self;
        match self.position(key) {
            Some(at) => {
                assert(before.has(key@));
                self.entries.remove(at);
                proof {
                    let a = at as int;
                    assert(self.entries@ =~= before.entries@.remove(a));
                    assert forall|i: int, j: int| 0 <= i < j < self.entries@.len() implies (
                    #[trigger] self.entries@[i]).0@ != (#[trigger] self.entries@[j]).0@ by {
                        let x = if i < a {
                            i
                        } else {
                            i + 1
                        };
                        let y = if j < a {
                            j
                        } else {
                            j + 1
                        };
                        assert(self.entries@[i] == before.entries@[x]);
                        assert(self.entries@[j] == before.entries@[y]);
                    }
                    assert forall|k: Seq<char>| #[trigger] self.get(k) == (if k == key@ {
                        None
                    } else {
                        before.get(k)
                    }) by {
                        if k == key@ {
                            if self.has(k) {
                                let i = choose|i: int|
                                    0 <= i < self.entries@.len() && (
                                    #[trigger] self.entries@[i]).0@ == k;
                                let x = if i < a {
                                    i
                                } else {
                                    i + 1
                                };
                                assert(self.entries@[i] == before.entries@[x]);
                                assert(before.entries@[a].0@ == k);
                            }
                        } else {
                            if before.has(k) {
                                before.get_is_maps(k);
                                let v = before.get(k)->0;
                                let x = choose|x: int|
                                    0 <= x < before.entries@.len() && (
                                    #[trigger] before.entries@[x]).0@ == k
                                        && before.entries@[x].1@ == v;
                                let i = if x < a {
                                    x
                                } else {
                                    x - 1
                                };
                                assert(self.entries@[i] == before.entries@[x]);
                                assert(self.maps(k, v));
                                self.maps_is_get(k, v);
                            } else if self.has(k) {
                                let i = choose|i: int|
                                    0 <= i < self.entries@.len() && (
                                    #[trigger] self.entries@[i]).0@ == k;
                                let x = if i < a {
                                    i
                                } else {
                                    i + 1
                                };
                                assert(self.entries@[i] == before.entries@[x]);
                            }
                        }
                    }
                }
                true
            },
            None => false,
        }
    }

    /// Puts a text under a key, in place of any before it.
    pub fn insert(&mut self, key: String, value: String)
        requires
            old(self).wf(),
        ensures
            final(self).wf(),
            forall|k: Seq<char>| #[trigger]
                final(self).get(k) == (if k == key@ {
                    Some(value@)
                } else {
                    old(self).get(k)
                }),
    {
        let ghost first = *self;
        let _ = self.remove(&key);
        let ghost before = *self;
        assert(before.get(key@) is None);
        self.entries.push((key, value));
        proof {
            let n = before.entries@.len() as int;
            assert forall|i: int, j: int| 0 <= i < j < self.entries@.len() implies (
            #[trigger] self.entries@[i]).0@ != (#[trigger] self.entries@[j]).0@ by {
                assert(self.entries@[i] == before.entries@[i]);
                if j == n {
                    if before.entries@[i].0@ == key@ {
                        assert(before.has(key@));
                    }
                } else {
                    assert(self.entries@[j] == before.entries@[j]);
                }
            }
            assert forall|k: Seq<char>| #[trigger] self.get(k) == (if k == key@ {
                Some(value@)
            } else {
                first.get(k)
            }) by {
                if k == key@ {
                    assert(self.entries@[n].0@ == k && self.entries@[n].1@ == value@);
                    assert(self.maps(k, value@));
                    self.maps_is_get(k, value@);
                } else {
                    assert(before.get(k) == first.get(k));
                    if before.has(k) {
                        before.get_is_maps(k);
                        let v = before.get(k)->0;
                        let x = choose|x: int|
                            0 <= x < before.entries@.len() && (#[trigger] before.entries@[x]).0@
                                == k && before.entries@[x].1@ == v;
                        assert(self.entries@[x] == before.entries@[x]);
                        assert(self.maps(k, v));
                        self.maps_is_get(k, v);
                    } else if self.has(k) {
                        let i = choose|i: int|
                            0 <= i < self.entries@.len() && (#[trigger] self.entries@[i]).0@ == k;
                        if i < n {
                            assert(self.entries@[i] == before.entries@[i]);
                        }
                    }
                }
            }
        }
    }

    /// The bytes stored under a key: what is there in the trusted namespace, or
    /// else in the user's, where it is hexadecimal.
    pub open spec fn value_of(self, key: Seq<char>) -> Option<Seq<u8>> {
        let found = match self.get(trusted_key(key)) {
            Some(v) => Some(v),
            None => self.get(user_key(key)),
        };
        match found {
            Some(v) => if compress::is_hex(v) {
                Some(compress::unhex(v))
            } else {
                None
            },
            None => None,
        }
    }

    fn value_under(&self, key: &str) -> (res: Option<Vec<u8>>)
        requires
            self.wf(),
        ensures
            match self.value_of(key@) {
                Some(v) => res is Some && res->0@ == v,
                None => res is None,
            },
    {
        let (trusted, user) = resolve_key_variants(key);
        let found = match self.lookup(&trusted) {
            Some(v) => Some(v),
            None => self.lookup(&user),
        };
        match found {
            Some(v) => compress::hex_decode(&v),
            None => None,
        }
    }
}

/// Whether metadata is kept for a path at all: it is there and no symbolic link.
pub fn keeps_metadata(exists: bool, is_symlink: bool) -> (yes: bool)
    ensures
        yes == (exists && !is_symlink),
{
    exists && !is_symlink
}

/// Stores bytes under a key of a file: in hexadecimal, in the user's namespace.
pub fn set_metadata(map: &mut MetaMap, key: &str, value: &[u8])
    requires
        old(map).wf(),
    ensures
        final(map).wf(),
        forall|k: Seq<char>| #[trigger]
            final(map).get(k) == (if k == user_key(key@) {
                Some(compress::hex_text(value@))
            } else {
                old(map).get(k)
            }),
{
    let (_, user) = resolve_key_variants(key);
    map.insert(user, compress::hex_encode(value));
}

/// The bytes stored under a key of a file: out of the file beside it where that
/// has them, else the trusted attribute, else the user's.
pub fn get_metadata(
    map: &Option<MetaMap>,
    key: &str,
    trusted: Option<Vec<u8>>,
    user: Option<Vec<u8>>,
) -> (res: Option<Vec<u8>>)
    requires
        *map is Some ==> map->0.wf(),
    ensures
        ({
            let beside = match *map {
                Some(m) => m.value_of(key@),
                None => None,
            };
            match beside {
                Some(v) => res is Some && res->0@ == v,
                None => if trusted is Some {
                    res == trusted
                } else {
                    res == user
                },
            }
        }),
{
    if let Some(m) = map {
        if let Some(v) = m.value_under(key) {
            return Some(v);
        }
    }
    if trusted.is_some() {
        trusted
    } else {
        user
    }
}

/// What to do with the file beside another after a key was removed.
#[derive(Debug, Clone, Copy, PartialEq, Eq, Structural)]
pub enum AfterRemove {
    /// It did not have the key.
    Leave,
    /// Write what is left.
    Rewrite,
    /// Nothing is left: remove it.
    Delete,
}

/// Removes a key, in both namespaces.
pub fn remove_metadata(map: &mut MetaMap, key: &str) -> (after: AfterRemove)
    requires
        old(map).wf(),
    ensures
        final(map).wf(),
        forall|k: Seq<char>| #[trigger]
            final(map).get(k) == (if k == user_key(key@) || k == trusted_key(key@) {
                None
            } else {
                old(map).get(k)
            }),
        after == (if !old(map).has(trusted_key(key@)) && !old(map).has(user_key(key@)) {
            AfterRemove::Leave
        } else if final(map).entries@.len() == 0 {
            AfterRemove::Delete
        } else {
            AfterRemove::Rewrite
        }),
{
    let (trusted, user) = resolve_key_variants(key);
    let ghost first = *map;
    let a = map.remove(&trusted);
    let ghost mid = *map;
    let b = map.remove(&user);
    proof {
        if first.has(user_key(key@)) {
            first.get_is_maps(user_key(key@));
            assert(mid.get(user_key(key@)) == (if user_key(key@) == trusted_key(key@) {
                None
            } else {
                first.get(user_key(key@))
            }));
        }
        if mid.has(user_key(key@)) {
            mid.get_is_maps(user_key(key@));
            assert(first.get(user_key(key@)) is Some);
        }
    }
    if !a && !b {
        AfterRemove::Leave
    } else if map.entries.len() == 0 {
        AfterRemove::Delete
    } else {
        AfterRemove::Rewrite
    }
}

/// Whether it does no harm that an attribute could not be removed: it is not
/// there, or the file system has none.
pub fn removal_error_is_harmless(not_found: bool, errno: Option<i32>) -> (yes: bool)
    ensures
        yes == (not_found || (errno matches Some(e) && (e == 95 || e == 38 || e == 1 || e == 61
            || e == 93))),
{
    if not_found {
        return true;
    }
    match errno {
        Some(e) => e == 95 || e == 38 || e == 1 || e == 61 || e == 93,
        None => false,
    }
}

/// What was stored is read back, whatever was there before: the trusted variant
/// of the key must not be in the way.
pub proof fn stored_metadata_is_read_back(m: MetaMap, key: Seq<char>, value: Seq<u8>)
    requires
        m.get(trusted_key(key)) is None,
        m.get(user_key(key)) == Some(compress::hex_text(value)),
    ensures
        m.value_of(key) == Some(value),
{
    compress::hex_round_trip(value);
}

/// Whether stored bytes say that a file is dirty: they are a single one.
pub open spec fn says_dirty(value: Seq<u8>) -> bool {
    value == seq![1u8]
}

/// Whether the stored flag says that a file is dirty.
pub fn is_dirty(value: &Option<Vec<u8>>) -> (yes: bool)
    ensures
        yes == (*value matches Some(v) && says_dirty(v@)),
{
    match value {
        Some(v) => {
            let yes: bool = v.len() == 1 && v[0] == 1;
            assert(yes ==> v@ =~= seq![1u8]);
            assert(seq![1u8].len() == 1 && seq![1u8][0] == 1);
            yes
        },
        None => false,
    }
}

/// What stands under a name once a file was marked as dirty, or its mark taken
/// away: marking writes the user's variant of the key and leaves all else, taking
/// the mark away removes both variants.
pub open spec fn flagged(before: MetaMap, active: bool, k: Seq<char>) -> Option<Seq<char>> {
    if active && k == user_key("dirty"@) {
        Some(compress::hex_text(seq![1u8]))
    } else if !active && (k == user_key("dirty"@) || k == trusted_key("dirty"@)) {
        None
    } else {
        before.get(k)
    }
}

/// Marks a file as dirty, or takes the mark away.
pub fn set_dirty_flag(map: &mut MetaMap, active: bool) -> (after: AfterRemove)
    requires
        old(map).wf(),
    ensures
        final(map).wf(),
        forall|k: Seq<char>| #[trigger] final(map).get(k) == flagged(*old(map), active, k),
        after == (if active {
            AfterRemove::Rewrite
        } else if !old(map).has(trusted_key("dirty"@)) && !old(map).has(user_key("dirty"@)) {
            AfterRemove::Leave
        } else if final(map).entries@.len() == 0 {
            AfterRemove::Delete
        } else {
            AfterRemove::Rewrite
        }),
{
    if active {
        let one: [u8; 1] = [1];
        assert(one@ =~= seq![1u8]);
        set_metadata(map, "dirty", one.as_slice());
        AfterRemove::Rewrite
    } else {
        remove_metadata(map, "dirty")
    }
}

/// A file that was marked as dirty is found dirty, where no trusted variant of the
/// flag stood before.
pub proof fn marked_file_is_dirty(before: MetaMap, after: MetaMap)
    requires
        before.get(trusted_key("dirty"@)) is None,
        forall|k: Seq<char>| #[trigger] after.get(k) == flagged(before, true, k),
    ensures
        after.value_of("dirty"@) matches Some(v) && says_dirty(v),
{
    reveal_strlit("trusted.foxing.");
    reveal_strlit("user.foxing.");
    assert(trusted_key("dirty"@)[0] == 't' && user_key("dirty"@)[0] == 'u');
    stored_metadata_is_read_back(after, "dirty"@, seq![1u8]);
}

/// Of a file whose mark was taken away no flag is left beside it, whatever stood
/// there before.
pub proof fn unmarked_file_has_no_flag(before: MetaMap, after: MetaMap)
    requires
        forall|k: Seq<char>| #[trigger] after.get(k) == flagged(before, false, k),
    ensures
        after.value_of("dirty"@) is None,
{
}

/// Stores a signature.
pub fn set_sync_signature(map: &mut MetaMap, sig: &SyncSignature)
    requires
        old(map).wf(),
    ensures
        final(map).wf(),
        forall|k: Seq<char>| #[trigger]
            final(map).get(k) == (if k == user_key("sig"@) {
                Some(compress::hex_text(signature_bytes(sig@)))
            } else {
                old(map).get(k)
            }),
{
    let data = sig.serialize();
    set_metadata(map, "sig", data.as_slice());
}

/// The stored signature, where there is one that can be read.
pub fn get_sync_signature(value: &Option<Vec<u8>>) -> (res: Option<SyncSignature>)
    ensures
        match *value {
            Some(v) => match signature_in(v@, MAX_SIGNATURE_BYTES) {
                Some(m) => res is Some && res->0@ == m,
                None => res is None,
            },
            None => res is None,
        },
{
    match value {
        Some(v) => SyncSignature::deserialize(v.as_slice()),
        None => None,
    }
}

/// The hash of a directory, as it is stored: 32 bytes and nothing else.
pub fn get_dir_hash(data: &[u8]) -> (res: Option<[u8; 32]>)
    ensures
        match res {
            Some(h) => h@ == data@,
            None => data@.len() != 32,
        },
{
    if data.len() != 32 {
        return None;
    }
    let mut h: [u8; 32] = [0u8;32];
    let mut i: usize = 0;
    while i < 32
        invariant
            i <= 32,
            data@.len() == 32,
            forall|j: int| 0 <= j < i ==> h@[j] == data@[j],
        decreases 32 - i,
    {
        h[i] = data[i];
        i = i + 1;
    }
    assert(h@ =~= data@);
    Some(h)
}

/// The hashes of the leaves one after the other, the first `n` of them.
pub open spec fn leaf_bytes(leaves: Seq<[u8; 32]>, n: nat) -> Seq<u8>
    decreases n,
{
    if n == 0 {
        Seq::empty()
    } else {
        leaf_bytes(leaves, (n - 1) as nat) + leaves[n - 1]@
    }
}

/// A Merkle signature in bytes: its fields in their order, numbers little-endian
/// and of fixed width, the number of leaves before them.
pub open spec fn merkle_bytes(sig: MerkleSignature) -> Seq<u8> {
    sig.root@ + bytes::le64(sig.chunk_size) + bytes::le64(sig.file_size) + bytes::le64(
        sig.leaf_hashes@.len() as u64,
    ) + leaf_bytes(sig.leaf_hashes@, sig.leaf_hashes@.len())
}

/// The Merkle signature that bytes of at most `limit` stand for, where they do:
/// root, chunk size, file size and leaves.
pub uninterp spec fn merkle_in(data: Seq<u8>, limit: u64) -> Option<
    (Seq<u8>, u64, u64, Seq<[u8; 32]>),
>;

/// `bincode::serialize` of the fields of a Merkle signature: arrays as they are,
/// numbers little-endian and of fixed width, the length of the list before it.
#[verifier::external_body]
fn encode_merkle(sig: &MerkleSignature) -> (out: Vec<u8>)
    ensures
        out@ == merkle_bytes(*sig),
{
    bincode::serialize(&(sig.root, sig.chunk_size, sig.file_size, &sig.leaf_hashes)).unwrap_or_default()
}

/// `bincode::DefaultOptions` with a limit, `deserialize` into the fields of a
/// Merkle signature: what it gives depends on bytes and limit alone. These
/// options read numbers of variable width; what they make of given bytes is not
/// stated.
#[verifier::external_body]
fn decode_merkle(data: &[u8], limit: u64) -> (res: Option<MerkleSignature>)
    ensures
        match merkle_in(data@, limit) {
            Some(m) => res is Some && res->0.root@ == m.0 && res->0.chunk_size == m.1
                && res->0.file_size == m.2 && res->0.leaf_hashes@ == m.3,
            None => res is None,
        },
{
    let fields = bincode::DefaultOptions::new().with_limit(limit).deserialize(data).ok();
    fields.map(|f: ([u8; 32], u64, u64, Vec<[u8; 32]>)| MerkleSignature {
        root: f.0, chunk_size: f.1, file_size: f.2, leaf_hashes: f.3,
    })
}

/// The Merkle signature in bytes; nothing where that is too large to be stored.
pub fn set_merkle_signature(sig: &MerkleSignature) -> (res: Option<Vec<u8>>)
    ensures
        merkle_bytes(*sig).len() > MAX_MERKLE_BYTES ==> res is None,
        merkle_bytes(*sig).len() <= MAX_MERKLE_BYTES ==> res is Some && res->0@ == merkle_bytes(
            *sig,
        ),
{
    let data = encode_merkle(sig);
    if data.len() as u64 > MAX_MERKLE_BYTES {
        None
    } else {
        Some(data)
    }
}

/// Whether a Merkle signature is sound: its chunks have a size, and it has no
/// more leaves than the file has chunks, with two to spare.
pub open spec fn is_sound(chunk_size: u64, file_size: u64, leaves: nat) -> bool {
    chunk_size != 0 && leaves <= file_size / chunk_size + 2
}

/// Takes a Merkle signature that was read, where it is sound.
pub fn accept_merkle(sig: MerkleSignature) -> (res: Option<MerkleSignature>)
    ensures
        is_sound(sig.chunk_size, sig.file_size, sig.leaf_hashes@.len()) ==> res == Some(sig),
        !is_sound(sig.chunk_size, sig.file_size, sig.leaf_hashes@.len()) ==> res is None,
{
    if sig.chunk_size == 0 {
        return None;
    }
    let chunks: u64 = sig.file_size / sig.chunk_size;
    if (sig.leaf_hashes.len() as u128) > chunks as u128 + 2 {
        None
    } else {
        Some(sig)
    }
}

/// The stored Merkle signature, where there is one that can be read and is
/// sound.
pub fn get_merkle_signature(value: &Option<Vec<u8>>) -> (res: Option<MerkleSignature>)
    ensures
        ({
            let read = match *value {
                Some(v) => merkle_in(v@, MAX_MERKLE_BYTES),
                None => None,
            };
            match read {
                Some(m) => if is_sound(m.1, m.2, m.3.len()) {
                    &&& res is Some
                    &&& res->0.root@ == m.0
                    &&& res->0.chunk_size == m.1
                    &&& res->0.file_size == m.2
                    &&& res->0.leaf_hashes@ == m.3
                } else {
                    res is None
                },
                None => res is None,
            }
        }),
{
    match value {
        Some(v) => match decode_merkle(v.as_slice(), MAX_MERKLE_BYTES) {
            Some(sig) => accept_merkle(sig),
            None => None,
        },
        None => None,
    }
}

/// Two signatures agree by size and root where both have a root, whatever the times; else
/// by size and time, and by the sample where both have one.
pub proof fn contents_outweigh_times(a: SignatureModel, b: SignatureModel)
    ensures
        a.merkle_root is Some && b.merkle_root is Some ==> (SyncSignature::agree(a, b) <==> a.size
            == b.size && a.merkle_root == b.merkle_root),
        a.merkle_root is None || b.merkle_root is None ==> (SyncSignature::agree(a, b) <==> a.size
            == b.size && a.mtime_sec == b.mtime_sec && a.mtime_nsec == b.mtime_nsec && (a.hash
            is None || b.hash is None || a.hash == b.hash)),
{
}

/// A signature holds what the file has: its size, its time, and where hashing is on and
/// the file large enough the sample of its ends and the hash of all of it.
pub proof fn signature_tells_the_file(
    settings: HashSettings,
    size: u64,
    mtime_sec: i64,
    mtime_nsec: i64,
    head: Seq<u8>,
    tail: Seq<u8>,
    contents: Seq<u8>,
)
    ensures
        ({
            let m = SyncSignature::model_of(
                settings,
                size,
                mtime_sec,
                mtime_nsec,
                head,
                tail,
                contents,
            );
            let hashed = settings.enabled && size >= settings.lite_threshold_bytes;
            &&& m.size == size && m.mtime_sec == mtime_sec && m.mtime_nsec == mtime_nsec
            &&& m.hash is Some <==> hashed
            &&& m.merkle_root is Some <==> hashed
            &&& hashed ==> m.hash->0 == compress::hex_text(hashing::lite_hash(size, head, tail))
            &&& hashed ==> m.merkle_root->0 == compress::hex_text(hashing::blake3(contents))
            &&& m.chunk_size == Some(65536u64)
            &&& m.leaf_count is None
            &&& m.version == 4
        }),
{
}

/// What is kept beside a file lies in its directory, under its name behind a dot; what is
/// kept of a directory lies in it.
pub proof fn sidecar_lies_beside(target: Seq<char>)
    ensures
        sidecar_of(target) is Some <==> path::file_name(target) is Some && path::parent(target)
            is Some,
        sidecar_of(target) matches Some(s) ==> path::components(s) == path::components(
            target,
        ).drop_last().push("."@ + path::components(target).last() + ".foxing_meta"@),
        path::components(dir_sidecar_of(target, true)->0) == path::components(target).push(
            ".foxing_dir_meta"@,
        ),
        dir_sidecar_of(target, true) is Some,
        dir_sidecar_of(target, false) == sidecar_of(target),
{
    reveal_strlit(".");
    reveal_strlit(".foxing_meta");
    reveal_strlit(".foxing_dir_meta");
    path::name_is_one_component(target, ".foxing_dir_meta"@);
    if sidecar_of(target) is Some {
        path::parent_drops_last(target);
        let dir = path::parent(target)->0;
        let name = path::file_name(target)->0;
        let full = "."@ + name + ".foxing_meta"@;
        path::name_is_the_last(target, ".foxing_dir_meta"@, target);
        assert(path::is_plain(full)) by {
            assert forall|j: int| 0 <= j < full.len() implies full[j] != '/' by {
                if 1 <= j < 1 + name.len() {
                    assert(full[j] == name[j - 1]);
                }
            }
            assert(full.len() > 1);
        }
        path::name_is_one_component(dir, full);
    }
}

/// A key without one of the two prefixes gets either; a key with one changes it.
pub proof fn keys_get_prefixes(key: Seq<char>)
    ensures
        !"user.foxing."@.is_prefix_of(key) && !"trusted.foxing."@.is_prefix_of(key) ==> user_key(
            key,
        ) == "user.foxing."@ + key && trusted_key(key) == "trusted.foxing."@ + key,
        user_key("trusted.foxing."@ + key) == "user.foxing."@ + key,
        trusted_key("user.foxing."@ + key) == "trusted.foxing."@ + key,
{
    reveal_strlit("user.foxing.");
    reveal_strlit("trusted.foxing.");
    let u = "user.foxing."@;
    let t = "trusted.foxing."@;
    text::prefix_is_start(key, u);
    text::prefix_is_start(key, t);
    text::prefix_is_start(u + key, u);
    text::prefix_is_start(t + key, t);
    text::prefix_is_start(t + key, u);
    assert(u.is_prefix_of(u + key)) by {
        assert((u + key).subrange(0, u.len() as int) =~= u);
    }
    assert(t.is_prefix_of(t + key)) by {
        assert((t + key).subrange(0, t.len() as int) =~= t);
    }
    assert((t + key)[0] == 't' && u[0] == 'u');
    assert((u + key).subrange(u.len() as int, (u + key).len() as int) =~= key);
    assert((t + key).subrange(t.len() as int, (t + key).len() as int) =~= key);
}

/// A value is found under the key that it is kept under, and under no other.
pub proof fn map_gives_what_it_holds(m: MetaMap, key: Seq<char>)
    requires
        m.wf(),
    ensures
        forall|i: int|
            0 <= i < m.entries@.len() ==> m.get((#[trigger] m.entries@[i]).0@) == Some(
                m.entries@[i].1@,
            ),
        m.get(key) is None <==> forall|i: int|
            0 <= i < m.entries@.len() ==> (#[trigger] m.entries@[i]).0@ != key,
{
    assert forall|i: int| 0 <= i < m.entries@.len() implies m.get((#[trigger] m.entries@[i]).0@)
        == Some(m.entries@[i].1@) by {
        let k = m.entries@[i].0@;
        assert(m.has(k));
        assert(m.maps(k, m.entries@[i].1@));
        let v = choose|v: Seq<char>| m.maps(k, v);
        assert(m.maps(k, v));
    }
}

/// A value is looked for under the trusted key first, then under the user's; it is there
/// where it is written in digits.
pub proof fn trusted_value_comes_first(m: MetaMap, key: Seq<char>, value: Seq<u8>)
    ensures
        m.get(trusted_key(key)) == Some(compress::hex_text(value)) ==> m.value_of(key) == Some(
            value,
        ),
        m.get(trusted_key(key)) is None && m.get(user_key(key)) == Some(compress::hex_text(value))
            ==> m.value_of(key) == Some(value),
        m.get(trusted_key(key)) is None && m.get(user_key(key)) is None ==> m.value_of(key) is None,
        m.get(trusted_key(key)) matches Some(v) ==> !compress::is_hex(v) ==> m.value_of(key)
            is None,
{
    compress::hex_round_trip(value);
}

/// Marking a file touches no other key, and unmarking takes both forms of the mark away.
pub proof fn mark_touches_nothing_else(before: MetaMap, active: bool, k: Seq<char>)
    ensures
        k != user_key("dirty"@) && k != trusted_key("dirty"@) ==> flagged(before, active, k)
            == before.get(k),
        flagged(before, true, trusted_key("dirty"@)) == before.get(trusted_key("dirty"@))
            || user_key("dirty"@) == trusted_key("dirty"@),
        flagged(before, false, user_key("dirty"@)) is None,
        flagged(before, false, trusted_key("dirty"@)) is None,
        flagged(before, true, user_key("dirty"@)) == Some(seq!['0', '1']),
        forall|v: Seq<u8>| #[trigger] says_dirty(v) <==> v.len() == 1 && v[0] == 1,
{
    let one = compress::hex_text(seq![1u8]);
    compress::hex_is_positional(seq![1u8], 0);
    reveal_strlit("0123456789abcdef");
    assert(one =~= seq!['0', '1']);
    assert forall|v: Seq<u8>| #[trigger] says_dirty(v) <==> v.len() == 1 && v[0] == 1 by {
        if v.len() == 1 && v[0] == 1 {
            assert(v =~= seq![1u8]);
        }
    }
}

/// A signature is written field by field: what is always there as it is, what may be
/// missing behind a byte that says whether it is there, and text behind its length.
pub proof fn signature_is_written_by_field(m: SignatureModel, s: Seq<char>)
    ensures
        signature_bytes(m) == seq![
            bytes::le64(m.size),
            bytes::le64(m.mtime_sec as u64),
            bytes::le64(m.mtime_nsec as u64),
            text_bytes(m.hash),
            text_bytes(m.merkle_root),
            if m.chunk_size is Some {
                seq![1u8] + bytes::le64(m.chunk_size->0)
            } else {
                seq![0u8]
            },
            if m.leaf_count is Some {
                seq![1u8] + bytes::le32(m.leaf_count->0)
            } else {
                seq![0u8]
            },
            seq![m.version],
        ].flatten(),
        text_bytes(None) == seq![0u8],
        text_bytes(Some(s)) == seq![
            seq![1u8],
            bytes::le64(vstd::utf8::encode_utf8(s).len() as u64),
            vstd::utf8::encode_utf8(s),
        ].flatten(),
{
    let a = bytes::le64(m.size);
    let b = bytes::le64(m.mtime_sec as u64);
    let c = bytes::le64(m.mtime_nsec as u64);
    let d = text_bytes(m.hash);
    let e = text_bytes(m.merkle_root);
    let f = if m.chunk_size is Some {
        seq![1u8] + bytes::le64(m.chunk_size->0)
    } else {
        seq![0u8]
    };
    let g = if m.leaf_count is Some {
        seq![1u8] + bytes::le32(m.leaf_count->0)
    } else {
        seq![0u8]
    };
    let h = seq![m.version];
    let parts = seq![a, b, c, d, e, f, g, h];
    parts.lemma_flatten_and_flatten_alt_are_equivalent();
    reveal_with_fuel(Seq::flatten_alt, 9);
    assert(parts.drop_last() =~= seq![a, b, c, d, e, f, g]);
    assert(parts.drop_last().drop_last() =~= seq![a, b, c, d, e, f]);
    assert(seq![a, b, c, d, e, f].drop_last() =~= seq![a, b, c, d, e]);
    assert(seq![a, b, c, d, e].drop_last() =~= seq![a, b, c, d]);
    assert(seq![a, b, c, d].drop_last() =~= seq![a, b, c]);
    assert(seq![a, b, c].drop_last() =~= seq![a, b]);
    assert(seq![a, b].drop_last() =~= seq![a]);
    assert(seq![a].drop_last() =~= Seq::<Seq<u8>>::empty());
    assert(seq![a].flatten_alt() =~= a);
    assert(parts.flatten_alt() =~= a + b + c + d + e + f + g + h);
    let x = seq![1u8];
    let y = bytes::le64(vstd::utf8::encode_utf8(s).len() as u64);
    let z = vstd::utf8::encode_utf8(s);
    let words = seq![x, y, z];
    words.lemma_flatten_and_flatten_alt_are_equivalent();
    assert(words.drop_last() =~= seq![x, y]);
    assert(seq![x, y].drop_last() =~= seq![x]);
    assert(seq![x].drop_last() =~= Seq::<Seq<u8>>::empty());
    assert(seq![x].flatten_alt() =~= x);
    assert(words.flatten_alt() =~= x + y + z);
}

/// A tree's signature is its root, its sizes, the number of its leaves and their hashes in
/// order.
pub proof fn tree_is_written_by_leaf(sig: MerkleSignature, n: nat)
    requires
        n <= sig.leaf_hashes@.len(),
    ensures
        leaf_bytes(sig.leaf_hashes@, n) == sig.leaf_hashes@.take(n as int).map_values(
            |h: [u8; 32]| h@,
        ).flatten(),
        leaf_bytes(sig.leaf_hashes@, n).len() == 32 * n,
        ({
            let b = merkle_bytes(sig);
            &&& b.len() == 56 + 32 * sig.leaf_hashes@.len()
            &&& b.subrange(0, 32) == sig.root@
            &&& b.subrange(32, 40) == bytes::le64(sig.chunk_size)
            &&& b.subrange(40, 48) == bytes::le64(sig.file_size)
            &&& b.subrange(48, 56) == bytes::le64(sig.leaf_hashes@.len() as u64)
            &&& b.subrange(56, b.len() as int) == leaf_bytes(
                sig.leaf_hashes@,
                sig.leaf_hashes@.len(),
            )
        }),
{
    let f = |h: [u8; 32]| h@;
    let all = sig.leaf_hashes@.len();
    leaves_are_flat(sig.leaf_hashes@, n, f);
    leaves_are_flat(sig.leaf_hashes@, all, f);
    bytes::le64_round_trip(sig.chunk_size);
    bytes::le64_round_trip(sig.file_size);
    bytes::le64_round_trip(all as u64);
    let b = merkle_bytes(sig);
    assert(b.subrange(0, 32) =~= sig.root@);
    assert(b.subrange(32, 40) =~= bytes::le64(sig.chunk_size));
    assert(b.subrange(40, 48) =~= bytes::le64(sig.file_size));
    assert(b.subrange(48, 56) =~= bytes::le64(all as u64));
    assert(b.subrange(56, b.len() as int) =~= leaf_bytes(sig.leaf_hashes@, all));
}

proof fn leaves_are_flat(leaves: Seq<[u8; 32]>, n: nat, f: spec_fn([u8; 32]) -> Seq<u8>)
    requires
        n <= leaves.len(),
        forall|h: [u8; 32]| #[trigger] f(h) == h@,
    ensures
        leaf_bytes(leaves, n) == leaves.take(n as int).map_values(f).flatten(),
        leaf_bytes(leaves, n).len() == 32 * n,
    decreases n,
{
    let m = leaves.take(n as int).map_values(f);
    m.lemma_flatten_and_flatten_alt_are_equivalent();
    if n > 0 {
        leaves_are_flat(leaves, (n - 1) as nat, f);
        let before = leaves.take(n - 1).map_values(f);
        before.lemma_flatten_and_flatten_alt_are_equivalent();
        assert(m.drop_last() =~= before);
        assert(m.last() == leaves[n - 1]@);
    } else {
        assert(m =~= Seq::empty());
    }
}

/// A signature whose leaves cannot all be of the file is not taken.
pub proof fn leaves_fit_the_file(chunk_size: u64, file_size: u64, leaves: nat)
    ensures
        is_sound(0, file_size, leaves) == false,
        chunk_size > 0 ==> (is_sound(chunk_size, file_size, leaves) <==> leaves - 2
            <= file_size as int / chunk_size as int),
{
}

/// A signature stands for what it holds.
pub proof fn signature_stands_for_itself(s: SyncSignature)
    ensures
        s@.size == s.size && s@.mtime_sec == s.mtime_sec && s@.mtime_nsec == s.mtime_nsec,
        s@.chunk_size == s.chunk_size && s@.leaf_count == s.leaf_count && s@.version == s.version,
        s@.hash is Some <==> s.hash is Some,
        s.hash matches Some(h) ==> s@.hash == Some(h@),
        s@.merkle_root is Some <==> s.merkle_root is Some,
        s.merkle_root matches Some(r) ==> s@.merkle_root == Some(r@),
{
}

/// What was set under a key is got back under it, by whichever of its names, where nothing
/// was kept under the trusted one; other keys keep what they had.
pub proof fn set_value_is_got_back(
    map: &mut MetaMap,
    key: &str,
    value: &[u8],
    kept: &Option<MetaMap>,
    trusted: Option<Vec<u8>>,
    user: Option<Vec<u8>>,
    res: Option<Vec<u8>>,
    other: Seq<char>,
)
    requires
        call_ensures(set_metadata, (map, key, value), ()),
        call_ensures(get_metadata, (kept, key, trusted, user), res),
        *kept == Some(*final(map)),
        old(map).get(trusted_key(key@)) is None,
        trusted_key(key@) != user_key(key@),
    ensures
        res is Some && res->0@ == value@,
        other != user_key(key@) ==> final(map).get(other) == old(map).get(other),
{
    trusted_value_comes_first(*final(map), key@, value@);
}

/// What was removed is not there any more under either name, other keys are untouched, and
/// the file beside goes with its last key.
pub proof fn removed_value_is_gone(map: &mut MetaMap, key: &str, after: AfterRemove, other: Seq<char>)
    requires
        call_ensures(remove_metadata, (map, key), after),
    ensures
        final(map).get(user_key(key@)) is None,
        final(map).get(trusted_key(key@)) is None,
        final(map).value_of(key@) is None,
        other != user_key(key@) && other != trusted_key(key@) ==> final(map).get(other) == old(
            map,
        ).get(other),
        after == AfterRemove::Leave <==> !old(map).has(user_key(key@)) && !old(map).has(
            trusted_key(key@),
        ),
        after == AfterRemove::Delete ==> final(map).entries@.len() == 0,
{
}

/// Without anything kept beside a file, its trusted attribute counts before the user's.
pub proof fn attributes_count_where_nothing_is_beside(
    key: &str,
    trusted: Option<Vec<u8>>,
    user: Option<Vec<u8>>,
    res: Option<Vec<u8>>,
)
    requires
        call_ensures(get_metadata, (&None::<MetaMap>, key, trusted, user), res),
    ensures
        trusted is Some ==> res == trusted,
        trusted is None ==> res == user,
{
}

/// Metadata is kept of what is there and no link, and an attribute that is not there or not
/// supported need not be removed.
pub proof fn harmless_errors_are_few(
    there: bool,
    is_symlink: bool,
    yes: bool,
    not_found: bool,
    errno: Option<i32>,
    harmless: bool,
)
    requires
        call_ensures(keeps_metadata, (there, is_symlink), yes),
        call_ensures(removal_error_is_harmless, (not_found, errno), harmless),
    ensures
        yes <==> there && !is_symlink,
        not_found ==> harmless,
        !not_found && errno is None ==> !harmless,
        !not_found ==> (errno matches Some(e) ==> (harmless <==> e == 1 || e == 38 || e == 61 || e
            == 93 || e == 95)),
{
}

/// The hash of a directory is its thirty-two bytes, and nothing else is one.
pub proof fn directory_hash_has_its_length(data: &[u8], res: Option<[u8; 32]>)
    requires
        call_ensures(get_dir_hash, (data,), res),
    ensures
        res is Some <==> data@.len() == 32,
        res matches Some(h) ==> h@ == data@,
{
    if res is Some {
        assert(res->0@.len() == 32);
    }
}

} // verus!
