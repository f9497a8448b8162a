//! XDR (External Data Representation) encoding and decoding, as far as
//! NFSv4.2 compound calls need it: big-endian integers, length-prefixed opaque
//! data padded to four bytes, and UTF-8 strings.

use crate::bytes;
use vstd::prelude::*;

verus! {

/// The number of zero bytes that bring `n` bytes up to a multiple of four.
pub open spec fn pad_len(n: nat) -> nat {
    ((4 - n % 4) % 4) as nat
}

/// `data` followed by its padding.
pub open spec fn xdr_fixed(data: Seq<u8>) -> Seq<u8> {
    data + bytes::zeros(pad_len(data.len()))
}

/// `data` as variable-length opaque data: its length in four bytes (the low 32
/// bits of it), then the data and its padding.
pub open spec fn xdr_opaque(data: Seq<u8>) -> Seq<u8> {
    bytes::be32(data.len() as u32) + xdr_fixed(data)
}

/// The unsigned number at `pos`, where four bytes are left there.
pub open spec fn u32_at(data: Seq<u8>, pos: int) -> Option<u32> {
    if pos + 4 <= data.len() {
        Some(bytes::be32_value(data.subrange(pos, pos + 4)))
    } else {
        None
    }
}

/// The unsigned 64-bit number at `pos`, where eight bytes are left there.
pub open spec fn u64_at(data: Seq<u8>, pos: int) -> Option<u64> {
    if pos + 8 <= data.len() {
        Some(bytes::be64_value(data.subrange(pos, pos + 8)))
    } else {
        None
    }
}

/// The `len` bytes at `pos`, where that many are left.
pub open spec fn fixed_at(data: Seq<u8>, pos: int, len: int) -> Option<Seq<u8>> {
    if pos + len <= data.len() {
        Some(data.subrange(pos, pos + len))
    } else {
        None
    }
}

/// The opaque data whose length prefix stands at `pos`.
pub open spec fn opaque_at(data: Seq<u8>, pos: int) -> Option<Seq<u8>> {
    match u32_at(data, pos) {
        Some(len) => fixed_at(data, pos + 4, len as int),
        None => None,
    }
}

/// Encoder: a growing byte string.
#[derive(Debug)]
pub struct XdrEncoder {
    buf: Vec<u8>,
}

impl View for XdrEncoder {
    type V = Seq<u8>;

    /// The bytes encoded so far.
    closed spec fn view(&self) -> Seq<u8> {
        self.buf@
    }
}

impl XdrEncoder {
    /// An empty encoder with room for `capacity` bytes.
    pub fn new(capacity: usize) -> (enc: Self)
        ensures
            enc@ == Seq::<u8>::empty(),
    {
        XdrEncoder { buf: Vec::with_capacity(capacity) }
    }

    /// Encodes a 32-bit unsigned integer.
    pub fn encode_u32(&mut self, v: u32)
        ensures
            final(self)@ == old(self)@ + bytes::be32(v),
    {
        bytes::put_be32(&mut self.buf, v);
    }

    /// Encodes a 32-bit signed integer by its bit pattern.
    pub fn encode_i32(&mut self, v: i32)
        ensures
            final(self)@ == old(self)@ + bytes::be32(v as u32),
    {
        bytes::put_be32(&mut self.buf, v as u32);
    }

    /// Encodes a 64-bit unsigned integer.
    pub fn encode_u64(&mut self, v: u64)
        ensures
            final(self)@ == old(self)@ + bytes::be64(v),
    {
        bytes::put_be64(&mut self.buf, v);
    }

    /// Encodes a 64-bit signed integer by its bit pattern.
    pub fn encode_i64(&mut self, v: i64)
        ensures
            final(self)@ == old(self)@ + bytes::be64(v as u64),
    {
        bytes::put_be64(&mut self.buf, v as u64);
    }

    /// Encodes a boolean as the number one or zero.
    pub fn encode_bool(&mut self, v: bool)
        ensures
            final(self)@ == old(self)@ + bytes::be32(if v { 1u32 } else { 0u32 }),
    {
        self.encode_u32(if v { 1 } else { 0 });
    }

    /// Encodes variable-length opaque data: length, data, padding.
    pub fn encode_opaque(&mut self, data: &[u8])
        ensures
            final(self)@ == old(self)@ + xdr_opaque(data@),
    {
        let ghost before = self@;
        self.encode_u32(data.len() as u32);
        self.encode_opaque_fixed(data);
        assert(self@ =~= before + xdr_opaque(data@));
    }

    /// Encodes fixed-length opaque data: data and padding, no length.
    pub fn encode_opaque_fixed(&mut self, data: &[u8])
        ensures
            final(self)@ == old(self)@ + xdr_fixed(data@),
    {
        let ghost before = self@;
        bytes::put_slice(&mut self.buf, data);
        let pad: usize = (4 - (data.len() % 4)) % 4;
        bytes::put_zeros(&mut self.buf, pad);
        assert(self@ =~= before + xdr_fixed(data@));
    }

    /// Encodes the UTF-8 bytes of a string as opaque data.
    pub fn encode_string(&mut self, s: &str)
        ensures
            final(self)@ == old(self)@ + xdr_opaque(vstd::utf8::encode_utf8(s@)),
    {
        self.encode_opaque(s.as_bytes());
    }

    /// The encoded bytes, giving up the encoder.
    pub fn into_bytes(self) -> (out: Vec<u8>)
        ensures
            out@ == self@,
    {
        self.buf
    }

    /// The number of bytes encoded so far.
    pub fn len(&self) -> (n: usize)
        ensures
            n == self@.len(),
    {
        self.buf.len()
    }

    /// Whether nothing has been encoded yet.
    pub fn is_empty(&self) -> (empty: bool)
        ensures
            empty == (self@.len() == 0),
    {
        self.buf.len() == 0
    }

    /// The bytes encoded so far.
    pub fn as_bytes(&self) -> (out: &[u8])
        ensures
            out@ == self@,
    {
        self.buf.as_slice()
    }
}

/// What can go wrong while decoding.
#[derive(Debug, Clone, Copy, PartialEq, Eq, Structural)]
pub enum XdrError {
    /// Too few bytes are left for the value.
    Truncated,
    /// The length of opaque data is beyond reason.
    InvalidLength,
}

impl XdrError {
    /// The message that goes with the error.
    pub fn message(&self) -> (text: String)
        ensures
            text@ == match *self {
                XdrError::Truncated => "XDR: unexpected end of data"@,
                XdrError::InvalidLength => "XDR: invalid opaque length"@,
            },
    {
        match self {
            XdrError::Truncated => "XDR: unexpected end of data".to_owned(),
            XdrError::InvalidLength => "XDR: invalid opaque length".to_owned(),
        }
    }
}

/// Decoder: a byte string and a position in it. Reading opaque data whose
/// padding is cut off leaves the position up to three bytes past the end.
#[derive(Debug)]
pub struct XdrDecoder<'a> {
    data: &'a [u8],
    pos: usize,
}

impl<'a> XdrDecoder<'a> {
    /// The bytes being decoded.
    pub closed spec fn bytes(&self) -> Seq<u8> {
        self.data@
    }

    /// The position of the next value.
    pub closed spec fn pos(&self) -> int {
        self.pos as int
    }

    /// The position stays within the padding of the last value.
    pub open spec fn wf(&self) -> bool {
        &&& self.bytes().len() <= isize::MAX
        &&& 0 <= self.pos() <= self.bytes().len() + 3
    }

    /// A decoder at the start of `data`. (No slice is longer than `isize::MAX`.)
    pub fn new(data: &'a [u8]) -> (dec: Self)
        requires
            data@.len() <= isize::MAX,
        ensures
            dec.wf(),
            dec.bytes() == data@,
            dec.pos() == 0,
    {
        XdrDecoder { data, pos: 0 }
    }

    /// Reads a 32-bit unsigned integer.
    pub fn decode_u32(&mut self) -> (res: Result<u32, XdrError>)
        requires
            old(self).wf(),
        ensures
            final(self).wf(),
            final(self).bytes() == old(self).bytes(),
            match u32_at(old(self).bytes(), old(self).pos()) {
                Some(v) => res == Ok::<u32, XdrError>(v) && final(self).pos() == old(self).pos() + 4,
                None => res == Err::<u32, XdrError>(XdrError::Truncated) && final(self).pos()
                    == old(self).pos(),
            },
    {
        if self.remaining() < 4 {
            return Err(XdrError::Truncated);
        }
        let v: u32 = bytes::get_be32(self.data, self.pos);
        self.pos = self.pos + 4;
        Ok(v)
    }

    /// Reads a 32-bit signed integer by its bit pattern.
    pub fn decode_i32(&mut self) -> (res: Result<i32, XdrError>)
        requires
            old(self).wf(),
        ensures
            final(self).wf(),
            final(self).bytes() == old(self).bytes(),
            match u32_at(old(self).bytes(), old(self).pos()) {
                Some(v) => res == Ok::<i32, XdrError>(v as i32) && final(self).pos() == old(
                    self,
                ).pos() + 4,
                None => res == Err::<i32, XdrError>(XdrError::Truncated) && final(self).pos()
                    == old(self).pos(),
            },
    {
        match self.decode_u32() {
            Ok(v) => Ok(v as i32),
            Err(e) => Err(e),
        }
    }

    /// Reads a 64-bit unsigned integer.
    pub fn decode_u64(&mut self) -> (res: Result<u64, XdrError>)
        requires
            old(self).wf(),
        ensures
            final(self).wf(),
            final(self).bytes() == old(self).bytes(),
            match u64_at(old(self).bytes(), old(self).pos()) {
                Some(v) => res == Ok::<u64, XdrError>(v) && final(self).pos() == old(self).pos() + 8,
                None => res == Err::<u64, XdrError>(XdrError::Truncated) && final(self).pos()
                    == old(self).pos(),
            },
    {
        if self.remaining() < 8 {
            return Err(XdrError::Truncated);
        }
        let v: u64 = bytes::get_be64(self.data, self.pos);
        self.pos = self.pos + 8;
        Ok(v)
    }

    /// Reads variable-length opaque data. Where the data is cut off, the length
    /// prefix has been consumed; the padding need not be there.
    pub fn decode_opaque(&mut self) -> (res: Result<&'a [u8], XdrError>)
        requires
            old(self).wf(),
        ensures
            final(self).wf(),
            final(self).bytes() == old(self).bytes(),
            match opaque_at(old(self).bytes(), old(self).pos()) {
                Some(s) => res is Ok && res->Ok_0@ == s && final(self).pos() == old(self).pos() + 4
                    + s.len() + pad_len(s.len()),
                None => res is Err && res->Err_0 == XdrError::Truncated && final(self).pos() == old(
                    self,
                ).pos() + (if u32_at(old(self).bytes(), old(self).pos()) is Some {
                    4int
                } else {
                    0
                }),
            },
    {
        match self.decode_u32() {
            Ok(len) => self.decode_opaque_fixed(len as usize),
            Err(e) => Err(e),
        }
    }

    /// Reads `len` bytes of opaque data and steps over the padding, which need
    /// not be there.
    pub fn decode_opaque_fixed(&mut self, len: usize) -> (res: Result<&'a [u8], XdrError>)
        requires
            old(self).wf(),
        ensures
            final(self).wf(),
            final(self).bytes() == old(self).bytes(),
            match fixed_at(old(self).bytes(), old(self).pos(), len as int) {
                Some(s) => res is Ok && res->Ok_0@ == s && final(self).pos() == old(self).pos()
                    + s.len() + pad_len(s.len()),
                None => res is Err && res->Err_0 == XdrError::Truncated && final(self).pos() == old(
                    self,
                ).pos(),
            },
    {
        if self.pos > self.data.len() || len > self.data.len() - self.pos {
            return Err(XdrError::Truncated);
        }
        let data = vstd::slice::slice_subrange(self.data, self.pos, self.pos + len);
        let pad: usize = (4 - (len % 4)) % 4;
        self.pos = self.pos + len + pad;
        Ok(data)
    }

    /// Steps over `n` bytes and their padding, all of which must be there.
    pub fn skip(&mut self, n: usize) -> (res: Result<(), XdrError>)
        requires
            old(self).wf(),
        ensures
            final(self).wf(),
            final(self).bytes() == old(self).bytes(),
            if old(self).pos() + n + pad_len(n as nat) <= old(self).bytes().len() {
                res is Ok && final(self).pos() == old(self).pos() + n + pad_len(n as nat)
            } else {
                res is Err && res->Err_0 == XdrError::Truncated && final(self).pos() == old(
                    self,
                ).pos()
            },
    {
        let left: usize = self.remaining();
        let pad: usize = (4 - (n % 4)) % 4;
        if self.pos > self.data.len() || left < n || left - n < pad {
            return Err(XdrError::Truncated);
        }
        self.pos = self.pos + n + pad;
        Ok(())
    }

    /// Steps over `n` bytes, without padding.
    pub fn skip_raw(&mut self, n: usize) -> (res: Result<(), XdrError>)
        requires
            old(self).wf(),
        ensures
            final(self).wf(),
            final(self).bytes() == old(self).bytes(),
            if old(self).pos() + n <= old(self).bytes().len() {
                res is Ok && final(self).pos() == old(self).pos() + n
            } else {
                res is Err && res->Err_0 == XdrError::Truncated && final(self).pos() == old(
                    self,
                ).pos()
            },
    {
        if self.pos > self.data.len() || self.remaining() < n {
            return Err(XdrError::Truncated);
        }
        self.pos = self.pos + n;
        Ok(())
    }

    /// The number of bytes left; zero where the position is past the end.
    pub fn remaining(&self) -> (n: usize)
        requires
            self.wf(),
        ensures
            n == (if self.pos() <= self.bytes().len() {
                self.bytes().len() - self.pos()
            } else {
                0
            }),
    {
        self.data.len().saturating_sub(self.pos)
    }

    /// The position of the next value.
    pub fn position(&self) -> (p: usize)
        ensures
            p == self.pos(),
    {
        self.pos
    }
}

/// A 32-bit number encoded anywhere in a message is read back as it was.
pub proof fn u32_round_trip(before: Seq<u8>, v: u32, after: Seq<u8>)
    ensures
        u32_at(before + bytes::be32(v) + after, before.len() as int) == Some(v),
{
    bytes::be32_round_trip(v);
    let all = before + bytes::be32(v) + after;
    assert(all.subrange(before.len() as int, before.len() as int + 4) =~= bytes::be32(v));
}

/// A 64-bit number encoded anywhere in a message is read back as it was.
pub proof fn u64_round_trip(before: Seq<u8>, v: u64, after: Seq<u8>)
    ensures
        u64_at(before + bytes::be64(v) + after, before.len() as int) == Some(v),
{
    bytes::be64_round_trip(v);
    let all = before + bytes::be64(v) + after;
    assert(all.subrange(before.len() as int, before.len() as int + 8) =~= bytes::be64(v));
}

/// Fixed-length data encoded anywhere in a message is read back as it was.
pub proof fn fixed_round_trip(before: Seq<u8>, data: Seq<u8>, after: Seq<u8>)
    ensures
        fixed_at(before + xdr_fixed(data) + after, before.len() as int, data.len() as int) == Some(
            data,
        ),
        (before + xdr_fixed(data)).len() == before.len() + data.len() + pad_len(data.len()),
{
    let all = before + xdr_fixed(data) + after;
    assert(all.subrange(before.len() as int, before.len() as int + data.len()) =~= data);
}

/// Opaque data of less than 4 GiB encoded anywhere in a message is read back as
/// it was, and the decoder ends up where the encoder stopped.
pub proof fn opaque_round_trip(before: Seq<u8>, data: Seq<u8>, after: Seq<u8>)
    requires
        data.len() <= u32::MAX,
    ensures
        opaque_at(before + xdr_opaque(data) + after, before.len() as int) == Some(data),
        (before + xdr_opaque(data)).len() == before.len() + 4 + data.len() + pad_len(data.len()),
{
    let n = data.len() as u32;
    bytes::be32_round_trip(n);
    u32_round_trip(before, n, xdr_fixed(data) + after);
    assert(before + xdr_opaque(data) + after =~= before + bytes::be32(n) + (xdr_fixed(data)
        + after));
    fixed_round_trip(before + bytes::be32(n), data, after);
    assert(before + xdr_opaque(data) + after =~= (before + bytes::be32(n)) + xdr_fixed(data)
        + after);
}

/// Everything encoded keeps the message a whole number of four-byte units.
pub proof fn encoding_is_aligned(before: Seq<u8>, data: Seq<u8>)
    requires
        before.len() % 4 == 0,
    ensures
        (before + xdr_fixed(data)).len() % 4 == 0,
        (before + xdr_opaque(data)).len() % 4 == 0,
{
    bytes::be32_round_trip(data.len() as u32);
}

/// Data is followed by as few zeros as bring it to a multiple of four, and read back only
/// where all of it is there.
pub proof fn padding_is_least(data: Seq<u8>, d: Seq<u8>, pos: int, len: int)
    requires
        0 <= pos,
        0 <= len,
    ensures
        pad_len(data.len()) < 4,
        xdr_fixed(data).len() % 4 == 0,
        xdr_fixed(data).subrange(0, data.len() as int) == data,
        forall|i: int| data.len() <= i < xdr_fixed(data).len() ==> xdr_fixed(data)[i] == 0,
        xdr_fixed(data).len() < data.len() + 4,
        u32_at(d, pos) is None <==> d.len() < pos + 4,
        u64_at(d, pos) is None <==> d.len() < pos + 8,
        fixed_at(d, pos, len) is None <==> d.len() < pos + len,
{
    assert(xdr_fixed(data).subrange(0, data.len() as int) =~= data);
}

} // verus!
