//! Fixed-width integers as byte sequences, in both byte orders.

use vstd::prelude::*;

verus! {

/// The four bytes of `v`, most significant first.
#[verifier::opaque]
pub open spec fn be32(v: u32) -> Seq<u8> {
    seq![
        (v / 0x100_0000) as u8,
        (v / 0x1_0000 % 0x100) as u8,
        (v / 0x100 % 0x100) as u8,
        (v % 0x100) as u8,
    ]
}

/// The number that four bytes stand for, most significant first.
#[verifier::opaque]
pub open spec fn be32_value(s: Seq<u8>) -> u32 {
    (s[0] * 0x100_0000 + s[1] * 0x1_0000 + s[2] * 0x100 + s[3]) as u32
}

/// The eight bytes of `v`, most significant first.
#[verifier::opaque]
pub open spec fn be64(v: u64) -> Seq<u8> {
    be32((v / 0x1_0000_0000) as u32) + be32((v % 0x1_0000_0000) as u32)
}

/// The number that eight bytes stand for, most significant first.
#[verifier::opaque]
pub open spec fn be64_value(s: Seq<u8>) -> u64 {
    (be32_value(s.subrange(0, 4)) * 0x1_0000_0000 + be32_value(s.subrange(4, 8))) as u64
}

/// The four bytes of `v`, least significant first.
#[verifier::opaque]
pub open spec fn le32(v: u32) -> Seq<u8> {
    seq![
        (v % 0x100) as u8,
        (v / 0x100 % 0x100) as u8,
        (v / 0x1_0000 % 0x100) as u8,
        (v / 0x100_0000) as u8,
    ]
}

/// The number that four bytes stand for, least significant first.
#[verifier::opaque]
pub open spec fn le32_value(s: Seq<u8>) -> u32 {
    (s[0] + s[1] * 0x100 + s[2] * 0x1_0000 + s[3] * 0x100_0000) as u32
}

/// The eight bytes of `v`, least significant first.
#[verifier::opaque]
pub open spec fn le64(v: u64) -> Seq<u8> {
    le32((v % 0x1_0000_0000) as u32) + le32((v / 0x1_0000_0000) as u32)
}

/// The number that eight bytes stand for, least significant first.
#[verifier::opaque]
pub open spec fn le64_value(s: Seq<u8>) -> u64 {
    (le32_value(s.subrange(0, 4)) + le32_value(s.subrange(4, 8)) * 0x1_0000_0000) as u64
}

/// `n` zero bytes.
pub open spec fn zeros(n: nat) -> Seq<u8> {
    Seq::new(n, |i: int| 0u8)
}

/// Reading back four big-endian bytes gives the number that was written.
pub proof fn be32_round_trip(v: u32)
    ensures
        be32(v).len() == 4,
        be32_value(be32(v)) == v,
{
    reveal(be32);
    reveal(be32_value);
}

/// Reading back eight big-endian bytes gives the number that was written.
pub proof fn be64_round_trip(v: u64)
    ensures
        be64(v).len() == 8,
        be64_value(be64(v)) == v,
{
    reveal(be64);
    reveal(be64_value);
    let hi = (v / 0x1_0000_0000) as u32;
    let lo = (v % 0x1_0000_0000) as u32;
    be32_round_trip(hi);
    be32_round_trip(lo);
    assert(be64(v).subrange(0, 4) =~= be32(hi));
    assert(be64(v).subrange(4, 8) =~= be32(lo));
}

/// Reading back four little-endian bytes gives the number that was written.
pub proof fn le32_round_trip(v: u32)
    ensures
        le32(v).len() == 4,
        le32_value(le32(v)) == v,
{
    reveal(le32);
    reveal(le32_value);
}

/// Reading back eight little-endian bytes gives the number that was written.
pub proof fn le64_round_trip(v: u64)
    ensures
        le64(v).len() == 8,
        le64_value(le64(v)) == v,
{
    reveal(le64);
    reveal(le64_value);
    let hi = (v / 0x1_0000_0000) as u32;
    let lo = (v % 0x1_0000_0000) as u32;
    le32_round_trip(hi);
    le32_round_trip(lo);
    assert(le64(v).subrange(0, 4) =~= le32(lo));
    assert(le64(v).subrange(4, 8) =~= le32(hi));
}

/// A signed number survives the trip through its unsigned bit pattern.
pub proof fn i64_bits_round_trip(v: i64)
    ensures
        (v as u64) as i64 == v,
{
    assert((v as u64) as i64 == v) by (bit_vector);
}

/// A signed number survives the trip through its unsigned bit pattern.
pub proof fn i32_bits_round_trip(v: i32)
    ensures
        (v as u32) as i32 == v,
{
    assert((v as u32) as i32 == v) by (bit_vector);
}

/// Appends the bytes of `src` to `buf`.
pub fn put_slice(buf: &mut Vec<u8>, src: &[u8])
    ensures
        final(buf)@ == old(buf)@ + src@,
{
    let ghost before = buf@;
    buf.extend_from_slice(src);
    assert(buf@ =~= before + src@);
}

/// Appends `n` zero bytes to `buf`.
pub fn put_zeros(buf: &mut Vec<u8>, n: usize)
    ensures
        final(buf)@ == old(buf)@ + zeros(n as nat),
{
    let ghost before = buf@;
    let mut i: usize = 0;
    while i < n
        invariant
            i <= n,
            buf@ == before + zeros(i as nat),
        decreases n - i,
    {
        buf.push(0);
        i = i + 1;
        assert(buf@ =~= before + zeros(i as nat));
    }
    assert(before + zeros(0) =~= before);
}

/// Appends `v` to `buf`, most significant byte first.
pub fn put_be32(buf: &mut Vec<u8>, v: u32)
    ensures
        final(buf)@ == old(buf)@ + be32(v),
        be32(v).len() == 4,
{
    proof {
        reveal(be32);
    }
    let ghost before = buf@;
    buf.push((v / 0x100_0000) as u8);
    buf.push((v / 0x1_0000 % 0x100) as u8);
    buf.push((v / 0x100 % 0x100) as u8);
    buf.push((v % 0x100) as u8);
    assert(buf@ =~= before + be32(v));
}

/// Appends `v` to `buf`, most significant byte first.
pub fn put_be64(buf: &mut Vec<u8>, v: u64)
    ensures
        final(buf)@ == old(buf)@ + be64(v),
        be64(v).len() == 8,
{
    proof {
        reveal(be64);
    }
    let ghost before = buf@;
    put_be32(buf, (v / 0x1_0000_0000) as u32);
    put_be32(buf, (v % 0x1_0000_0000) as u32);
    assert(buf@ =~= before + be64(v));
}

/// Appends `v` to `buf`, least significant byte first.
pub fn put_le32(buf: &mut Vec<u8>, v: u32)
    ensures
        final(buf)@ == old(buf)@ + le32(v),
        le32(v).len() == 4,
{
    proof {
        reveal(le32);
    }
    let ghost before = buf@;
    buf.push((v % 0x100) as u8);
    buf.push((v / 0x100 % 0x100) as u8);
    buf.push((v / 0x1_0000 % 0x100) as u8);
    buf.push((v / 0x100_0000) as u8);
    assert(buf@ =~= before + le32(v));
}

/// Appends `v` to `buf`, least significant byte first.
pub fn put_le64(buf: &mut Vec<u8>, v: u64)
    ensures
        final(buf)@ == old(buf)@ + le64(v),
        le64(v).len() == 8,
{
    proof {
        reveal(le64);
    }
    let ghost before = buf@;
    put_le32(buf, (v % 0x1_0000_0000) as u32);
    put_le32(buf, (v / 0x1_0000_0000) as u32);
    assert(buf@ =~= before + le64(v));
}

/// The big-endian number in the four bytes of `data` at `pos`.
pub fn get_be32(data: &[u8], pos: usize) -> (v: u32)
    requires
        pos + 4 <= data@.len(),
    ensures
        v == be32_value(data@.subrange(pos as int, pos + 4)),
{
    proof {
        reveal(be32_value);
    }
    data[pos] as u32 * 0x100_0000 + data[pos + 1] as u32 * 0x1_0000 + data[pos + 2] as u32 * 0x100
        + data[pos + 3] as u32
}

/// The big-endian number in the eight bytes of `data` at `pos`.
pub fn get_be64(data: &[u8], pos: usize) -> (v: u64)
    requires
        pos + 8 <= data@.len(),
    ensures
        v == be64_value(data@.subrange(pos as int, pos + 8)),
{
    proof {
        reveal(be64_value);
    }
    assert(data.len() == data@.len());
    let hi: u32 = get_be32(data, pos);
    let lo: u32 = get_be32(data, pos + 4);
    proof {
        let s = data@.subrange(pos as int, pos + 8);
        assert(s.subrange(0, 4) =~= data@.subrange(pos as int, pos + 4));
        assert(s.subrange(4, 8) =~= data@.subrange(pos + 4, pos + 8));
    }
    hi as u64 * 0x1_0000_0000 + lo as u64
}

/// The little-endian number in the four bytes of `data` at `pos`.
pub fn get_le32(data: &[u8], pos: usize) -> (v: u32)
    requires
        pos + 4 <= data@.len(),
    ensures
        v == le32_value(data@.subrange(pos as int, pos + 4)),
{
    proof {
        reveal(le32_value);
    }
    data[pos] as u32 + data[pos + 1] as u32 * 0x100 + data[pos + 2] as u32 * 0x1_0000
        + data[pos + 3] as u32 * 0x100_0000
}

/// The little-endian number in the eight bytes of `data` at `pos`.
pub fn get_le64(data: &[u8], pos: usize) -> (v: u64)
    requires
        pos + 8 <= data@.len(),
    ensures
        v == le64_value(data@.subrange(pos as int, pos + 8)),
{
    proof {
        reveal(le64_value);
    }
    assert(data.len() == data@.len());
    let lo: u32 = get_le32(data, pos);
    let hi: u32 = get_le32(data, pos + 4);
    proof {
        let s = data@.subrange(pos as int, pos + 8);
        assert(s.subrange(0, 4) =~= data@.subrange(pos as int, pos + 4));
        assert(s.subrange(4, 8) =~= data@.subrange(pos + 4, pos + 8));
    }
    lo as u64 + hi as u64 * 0x1_0000_0000
}

/// A copy of the bytes of `data` from `from` up to `to`.
pub fn copy_range(data: &[u8], from: usize, to: usize) -> (out: Vec<u8>)
    requires
        from <= to <= data@.len(),
    ensures
        out@ == data@.subrange(from as int, to as int),
{
    let mut out: Vec<u8> = Vec::new();
    let part = vstd::slice::slice_subrange(data, from, to);
    put_slice(&mut out, part);
    assert(out@ =~= data@.subrange(from as int, to as int));
    out
}

/// Whether two byte strings are equal.
pub fn same_bytes(a: &[u8], b: &[u8]) -> (same: bool)
    ensures
        same == (a@ == b@),
{
    if a.len() != b.len() {
        return false;
    }
    let mut i: usize = 0;
    while i < a.len()
        invariant
            i <= a@.len(),
            a@.len() == b@.len(),
            forall|j: int| 0 <= j < i ==> a@[j] == b@[j],
        decreases a@.len() - i,
    {
        if a[i] != b[i] {
            return false;
        }
        i = i + 1;
    }
    assert(a@ =~= b@);
    true
}

/// In network order the first byte weighs most.
pub proof fn network_order(v: u32, w: u64)
    ensures
        ({
            let b = be32(v);
            b[0] * 0x100_0000 + b[1] * 0x1_0000 + b[2] * 0x100 + b[3] == v
        }),
        be64(w) == be32((w / 0x1_0000_0000) as u32) + be32((w % 0x1_0000_0000) as u32),
        w == (w / 0x1_0000_0000) * 0x1_0000_0000 + w % 0x1_0000_0000,
{
    reveal(be32);
    reveal(be64);
}

/// In an archive the last byte weighs most.
pub proof fn stored_order(v: u32, w: u64)
    ensures
        ({
            let b = le32(v);
            b[3] * 0x100_0000 + b[2] * 0x1_0000 + b[1] * 0x100 + b[0] == v
        }),
        le64(w) == le32((w % 0x1_0000_0000) as u32) + le32((w / 0x1_0000_0000) as u32),
{
    reveal(le32);
    reveal(le64);
}

} // verus!
