//! The compressors of an archive's chunks, chosen by name, and hexadecimal text.

use crate::error::{FxcpError, IoKind};
use crate::text;
use std::io::{Read, Write};
use vstd::prelude::*;
use vstd::string::StringExecFns;

verus! {

pub const FLAG_COMPRESS_NONE: u32 = 0;

pub const FLAG_COMPRESS_ZSTD: u32 = 1;

pub const FLAG_COMPRESS_LZ4: u32 = 2;

pub const FLAG_COMPRESS_GZIP: u32 = 3;

pub const FLAG_COMPRESS_XZ: u32 = 4;

/// The most that a Zstandard chunk may unpack to.
pub const MAX_UNPACKED: usize = 16777216;

/// The Zstandard frame of `data` at a level.
pub uninterp spec fn zstd_encoded(data: Seq<u8>, level: i32) -> Seq<u8>;

/// What a decoder makes of a block: the bytes that it unpacks to, or the text of
/// the error that it reports.
pub ghost enum Expanded {
    Bytes(Seq<u8>),
    Fault(Seq<char>),
}

impl Expanded {
    /// The bytes, where there are any.
    pub open spec fn bytes(self) -> Option<Seq<u8>> {
        match self {
            Expanded::Bytes(b) => Some(b),
            Expanded::Fault(_) => None,
        }
    }

    /// The text of the error, where there is one.
    pub open spec fn fault(self) -> Seq<char> {
        match self {
            Expanded::Bytes(_) => Seq::empty(),
            Expanded::Fault(text) => text,
        }
    }
}

/// What a Zstandard frame unpacks to, where it is one and unpacks to at most
/// `capacity` bytes, or what is wrong with it.
pub uninterp spec fn zstd_decoded(data: Seq<u8>, capacity: nat) -> Expanded;

/// What a size-prefixed LZ4 block unpacks to, or what is wrong with it.
pub uninterp spec fn lz4_decoded(data: Seq<u8>) -> Expanded;

/// What a decoder makes of data: the bytes that it unpacks to, or the kind and
/// the text of the error that it reports.
pub ghost enum Decoded {
    Bytes(Seq<u8>),
    Fault(IoKind, Seq<char>),
}

impl Decoded {
    /// The bytes, where there are any.
    pub open spec fn bytes(self) -> Option<Seq<u8>> {
        match self {
            Decoded::Bytes(b) => Some(b),
            Decoded::Fault(_, _) => None,
        }
    }

    /// Whether an error is the one that the decoder reports: of its kind, with
    /// its text, and without an error number of the system.
    pub open spec fn reports(self, e: FxcpError) -> bool {
        &&& e matches FxcpError::Io { kind, errno, message }
        &&& errno is None
        &&& self == Decoded::Fault(kind, message@)
    }
}

/// What a gzip member unpacks to, or what is wrong with it.
pub uninterp spec fn gzip_decoded(data: Seq<u8>) -> Decoded;

/// What an xz stream unpacks to, or what is wrong with it.
pub uninterp spec fn xz_decoded(data: Seq<u8>) -> Decoded;

/// `zstd::bulk::compress`: packs `data` into one frame, which unpacks to `data`
/// wherever that much room is allowed. When it fails is not stated: that depends
/// on the memory at hand.
#[verifier::external_body]
fn zstd_compress(data: &[u8], level: i32) -> (res: Option<Vec<u8>>)
    ensures
        match res {
            Some(out) => out@ == zstd_encoded(data@, level) && forall|capacity: nat|
                capacity >= data@.len() ==> #[trigger] zstd_decoded(out@, capacity)
                    == Expanded::Bytes(data@),
            None => true,
        },
{
    zstd::bulk::compress(data, level).ok()
}

/// `zstd::bulk::decompress`: unpacks a frame of at most `capacity` bytes; the
/// error is its text.
#[verifier::external_body]
fn zstd_decompress(data: &[u8], capacity: usize) -> (res: Result<Vec<u8>, String>)
    requires
        capacity <= isize::MAX,
    ensures
        match res {
            Ok(out) => zstd_decoded(data@, capacity as nat) == Expanded::Bytes(out@),
            Err(e) => zstd_decoded(data@, capacity as nat) == Expanded::Fault(e@),
        },
{
    zstd::bulk::decompress(data, capacity).map_err(|e| e.to_string())
}

/// Whether LZ4 takes this many bytes: their number fits into 32 bits, and the
/// room set aside for the packed block does not overflow.
pub open spec fn lz4_takes(n: nat) -> bool {
    n <= u32::MAX && n * 110 <= usize::MAX
}

/// Whether LZ4 takes this many bytes.
pub fn fits_lz4(n: usize) -> (b: bool)
    ensures
        b == lz4_takes(n as nat),
{
    n <= u32::MAX as usize && n <= usize::MAX / 110
}

/// The room that LZ4 sets aside for what it makes of this many bytes, the size
/// in front of the block counted.
pub open spec fn lz4_room(n: nat) -> nat {
    24 + n * 110 / 100
}

/// Whether `out` is a size-prefixed LZ4 block for `data`: it unpacks to `data`,
/// starts with the size, and takes no more than the room set aside for it.
pub open spec fn is_lz4_block(data: Seq<u8>, out: Seq<u8>) -> bool {
    &&& lz4_decoded(out) == Expanded::Bytes(data)
    &&& 4 <= out.len() <= lz4_room(data.len())
    &&& out.subrange(0, 4) == crate::bytes::le32(data.len() as u32)
}

/// `lz4_flex::compress_prepend_size`: packs `data` into a block behind its size
/// in 32 bits, which unpacks to `data` and takes no more than the room that is
/// set aside for it. The block itself differs between machines and is not stated.
#[verifier::external_body]
fn lz4_compress(data: &[u8]) -> (out: Vec<u8>)
    requires
        lz4_takes(data@.len()),
    ensures
        is_lz4_block(data@, out@),
{
    lz4_flex::compress_prepend_size(data)
}

/// How many bytes 0xFF stand one after the other from `pos` on.
pub open spec fn ones_from(b: Seq<u8>, pos: int) -> int
    decreases b.len() - pos,
{
    if 0 <= pos < b.len() && b[pos] == 0xFF {
        1 + ones_from(b, pos + 1)
    } else {
        0
    }
}

/// The number that an LZ4 length adds up to from `pos` on: bytes 0xFF, and one
/// smaller byte, where the block does not end before it.
pub open spec fn length_sum(b: Seq<u8>, pos: int) -> int {
    let k = ones_from(b, pos);
    255 * k + (if pos + k < b.len() {
        b[pos + k] as int
    } else {
        0
    })
}

/// Whether that number can be added up in 32 bits, and then to `more` in memory.
pub open spec fn length_fits(b: Seq<u8>, pos: int, more: int) -> bool {
    length_sum(b, pos) <= u32::MAX && more + length_sum(b, pos) <= usize::MAX
}

/// The position behind such a length, where the block does not end in it.
pub open spec fn length_end(b: Seq<u8>, pos: int) -> int {
    pos + ones_from(b, pos) + 1
}

/// Whether no length in an LZ4 block grows too large, from the token at `pos` on,
/// up to where the block ends or is at fault: `out` bytes of the `cap` that it
/// unpacks to are there already. A token holds two numbers, of literal bytes and
/// of bytes to repeat; fifteen means that a length follows.
pub open spec fn lengths_fit(b: Seq<u8>, pos: int, out: int, cap: int) -> bool
    decreases b.len() - pos,
    when 0 <= pos
    via lengths_fit_decreases
{
    let long = b[pos] / 16 == 15;
    let literals = if long {
        15 + length_sum(b, pos + 1)
    } else {
        b[pos] as int / 16
    };
    let from = if long {
        length_end(b, pos + 1)
    } else {
        pos + 1
    };
    let at = from + literals;
    if pos >= b.len() {
        true
    } else if long && !length_fits(b, pos + 1, 15) {
        false
    } else if from > b.len() || at > b.len() || out + literals > cap || at == b.len() || at + 2
        > b.len() {
        true
    } else {
        let more = b[pos] % 16 == 15;
        let repeats = if more {
            19 + length_sum(b, at + 2)
        } else {
            4 + b[pos] as int % 16
        };
        let next = if more {
            length_end(b, at + 2)
        } else {
            at + 2
        };
        if more && !length_fits(b, at + 2, out + literals + 19) {
            false
        } else if next > b.len() || out + literals + repeats > cap || b[at] as int + 256 * b[at
            + 1] as int > out + literals {
            true
        } else {
            lengths_fit(b, next, out + literals + repeats, cap)
        }
    }
}

#[via_fn]
proof fn lengths_fit_decreases(b: Seq<u8>, pos: int, out: int, cap: int) {
    ones_in_bounds(b, pos + 1);
    let from = if b[pos] / 16 == 15 {
        length_end(b, pos + 1)
    } else {
        pos + 1
    };
    let at = from + if b[pos] / 16 == 15 {
        15 + length_sum(b, pos + 1)
    } else {
        b[pos] as int / 16
    };
    ones_in_bounds(b, at + 2);
}

proof fn ones_in_bounds(b: Seq<u8>, pos: int)
    ensures
        0 <= ones_from(b, pos),
        0 <= pos <= b.len() ==> pos + ones_from(b, pos) <= b.len(),
        length_sum(b, pos) >= 0,
    decreases b.len() - pos,
{
    if 0 <= pos < b.len() && b[pos] == 0xFF {
        ones_in_bounds(b, pos + 1);
    }
}

/// Whether LZ4 can read a size-prefixed block without running over a number: the
/// size is one that memory can have, and no length that is read grows too large.
pub open spec fn lz4_readable(data: Seq<u8>) -> bool {
    data.len() >= 4 ==> {
        let size = crate::bytes::le32_value(data.subrange(0, 4));
        size <= isize::MAX && lengths_fit(data, 4, 0, size as int)
    }
}

/// What reading a length comes to.
enum LengthRead {
    /// It cannot be added up.
    TooLarge,
    /// The block ends in it.
    Missing,
    /// The number, and the position behind it.
    Value(usize, usize),
}

fn read_length(data: &[u8], pos: usize, more: usize) -> (r: LengthRead)
    requires
        pos <= data@.len(),
    ensures
        match r {
            LengthRead::TooLarge => !length_fits(data@, pos as int, more as int),
            LengthRead::Missing => length_fits(data@, pos as int, more as int) && length_end(
                data@,
                pos as int,
            ) > data@.len(),
            LengthRead::Value(n, end) => {
                &&& length_fits(data@, pos as int, more as int)
                &&& n == length_sum(data@, pos as int)
                &&& end == length_end(data@, pos as int)
                &&& pos < end <= data@.len()
            },
        },
{
    let mut i: usize = pos;
    let mut sum: u64 = 0;
    let most: u64 = if usize::MAX - more < u32::MAX as usize {
        (usize::MAX - more) as u64
    } else {
        u32::MAX as u64
    };
    while i < data.len() && data[i] == 0xFF
        invariant
            pos <= i <= data@.len(),
            data@.len() == data.len(),
            sum == 255 * (i - pos),
            sum <= most <= u32::MAX,
            most <= u32::MAX && most <= usize::MAX - more,
            most == u32::MAX || most == usize::MAX - more,
            ones_from(data@, pos as int) == (i - pos) + ones_from(data@, i as int),
        decreases data.len() - i,
    {
        proof {
            ones_in_bounds(data@, i + 1);
        }
        if sum + 255 > most {
            return LengthRead::TooLarge;
        }
        sum = sum + 255;
        i = i + 1;
    }
    if i == data.len() {
        return LengthRead::Missing;
    }
    if sum + data[i] as u64 > most {
        return LengthRead::TooLarge;
    }
    LengthRead::Value((sum + data[i] as u64) as usize, i + 1)
}

/// Whether LZ4 can read a size-prefixed block without running over a number.
pub fn is_lz4_readable(data: &[u8]) -> (b: bool)
    ensures
        b == lz4_readable(data@),
{
    if data.len() < 4 {
        return true;
    }
    let size: u32 = crate::bytes::get_le32(data, 0);
    if size as u64 > isize::MAX as u64 {
        return false;
    }
    let cap: usize = size as usize;
    let mut pos: usize = 4;
    let mut out: usize = 0;
    while pos < data.len()
        invariant
            4 <= pos <= data@.len(),
            data@.len() == data.len(),
            out <= cap <= isize::MAX,
            cap == crate::bytes::le32_value(data@.subrange(0, 4)),
            lengths_fit(data@, pos as int, out as int, cap as int) == lengths_fit(
                data@,
                4,
                0,
                cap as int,
            ),
        decreases data.len() - pos,
    {
        let token: u8 = data[pos];
        let (literals, from): (usize, usize) = if token / 16 == 15 {
            match read_length(data, pos + 1, 15) {
                LengthRead::TooLarge => return false,
                LengthRead::Missing => return true,
                LengthRead::Value(n, end) => (15 + n, end),
            }
        } else {
            ((token / 16) as usize, pos + 1)
        };
        if literals > data.len() - from || literals > cap - out {
            return true;
        }
        let at: usize = from + literals;
        if data.len() - at < 2 {
            return true;
        }
        let there: usize = out + literals;
        let (repeats, next): (usize, usize) = if token % 16 == 15 {
            match read_length(data, at + 2, there + 19) {
                LengthRead::TooLarge => return false,
                LengthRead::Missing => return true,
                LengthRead::Value(n, end) => (19 + n, end),
            }
        } else {
            (4 + (token % 16) as usize, at + 2)
        };
        if repeats > cap - there {
            return true;
        }
        let back: usize = data[at] as usize + 256 * data[at + 1] as usize;
        if back > there {
            return true;
        }
        out = there + repeats;
        pos = next;
    }
    true
}

/// What LZ4 makes of up to four megabytes is readable, whatever the bytes are.
pub proof fn small_block_is_readable(data: Seq<u8>, out: Seq<u8>)
    requires
        is_lz4_block(data, out),
        data.len() <= 4194304,
    ensures
        lz4_readable(out),
{
    crate::bytes::le32_round_trip(data.len() as u32);
    short_lengths_fit(out, 4, 0, data.len() as int);
}

proof fn short_lengths_fit(b: Seq<u8>, pos: int, out: int, cap: int)
    requires
        0 <= pos,
        b.len() <= 8388608,
        0 <= out <= cap <= 4194304,
    ensures
        lengths_fit(b, pos, out, cap),
    decreases b.len() - pos,
{
    if pos < b.len() {
        ones_in_bounds(b, pos + 1);
        let long = b[pos] / 16 == 15;
        let literals = if long {
            15 + length_sum(b, pos + 1)
        } else {
            b[pos] as int / 16
        };
        let from = if long {
            length_end(b, pos + 1)
        } else {
            pos + 1
        };
        let at = from + literals;
        if from <= b.len() && at + 2 <= b.len() && out + literals <= cap {
            ones_in_bounds(b, at + 2);
            let more = b[pos] % 16 == 15;
            let repeats = if more {
                19 + length_sum(b, at + 2)
            } else {
                4 + b[pos] as int % 16
            };
            let next = if more {
                length_end(b, at + 2)
            } else {
                at + 2
            };
            if next <= b.len() && out + literals + repeats <= cap {
                short_lengths_fit(b, next, out + literals + repeats, cap);
            }
        }
    }
}

/// `lz4_flex::decompress_size_prepended`: unpacks such a block; the error is its
/// text. It adds up lengths in 32 bits without looking for an overflow, so a
/// block in which one grows too large is left out.
#[verifier::external_body]
fn lz4_decompress(data: &[u8]) -> (res: Result<Vec<u8>, String>)
    requires
        lz4_readable(data@),
    ensures
        match res {
            Ok(out) => lz4_decoded(data@) == Expanded::Bytes(out@),
            Err(e) => lz4_decoded(data@) == Expanded::Fault(e@),
        },
{
    lz4_flex::decompress_size_prepended(data).map_err(|e| e.to_string())
}

/// `flate2::write::GzEncoder` over a vector, at the default level: packs `data`
/// into one gzip member, which unpacks to `data`. Writing to a vector does not
/// fail, and a fresh encoder has no stream that could be corrupt.
#[verifier::external_body]
fn gzip_compress(data: &[u8]) -> (res: Option<Vec<u8>>)
    ensures
        res is Some && gzip_decoded(res->0@) == Decoded::Bytes(data@),
{
    let mut enc = flate2::write::GzEncoder::new(Vec::new(), flate2::Compression::default());
    enc.write_all(data).ok()?;
    enc.finish().ok()
}

/// `flate2::read::GzDecoder` read to its end: unpacks one gzip member, or reports
/// an error, of which the kind and the text are handed on. Either depends on the
/// data alone. Kinds that this library does not tell apart count as `Other`.
#[verifier::external_body]
fn gzip_decompress(data: &[u8]) -> (res: Result<Vec<u8>, (IoKind, String)>)
    ensures
        match res {
            Ok(out) => gzip_decoded(data@) == Decoded::Bytes(out@),
            Err(e) => gzip_decoded(data@) == Decoded::Fault(e.0, e.1@),
        },
{
    let mut out = Vec::new();
    match flate2::read::GzDecoder::new(data).read_to_end(&mut out).map_err(|e| (e.kind(), e.to_string())) {
        Ok(_) => Ok(out),
        Err((std::io::ErrorKind::InvalidInput, text)) => Err((IoKind::InvalidInput, text)),
        Err((std::io::ErrorKind::InvalidData, text)) => Err((IoKind::InvalidData, text)),
        Err((std::io::ErrorKind::UnexpectedEof, text)) => Err((IoKind::UnexpectedEof, text)),
        Err((_, text)) => Err((IoKind::Other, text)),
    }
}

/// `xz2::read::XzDecoder` read to its end: unpacks an xz stream, or reports an
/// error, of which the kind and the text are handed on. Either depends on the
/// data alone. Kinds that this library does not tell apart count as `Other`.
#[verifier::external_body]
fn xz_decompress(data: &[u8]) -> (res: Result<Vec<u8>, (IoKind, String)>)
    ensures
        match res {
            Ok(out) => xz_decoded(data@) == Decoded::Bytes(out@),
            Err(e) => xz_decoded(data@) == Decoded::Fault(e.0, e.1@),
        },
{
    let mut out = Vec::new();
    match xz2::read::XzDecoder::new(data).read_to_end(&mut out).map_err(|e| (e.kind(), e.to_string())) {
        Ok(_) => Ok(out),
        Err((std::io::ErrorKind::InvalidInput, text)) => Err((IoKind::InvalidInput, text)),
        Err((std::io::ErrorKind::InvalidData, text)) => Err((IoKind::InvalidData, text)),
        Err((std::io::ErrorKind::UnexpectedEof, text)) => Err((IoKind::UnexpectedEof, text)),
        Err((_, text)) => Err((IoKind::Other, text)),
    }
}

/// A compressor and its level.
#[derive(Debug, Clone, Copy, PartialEq, Eq, Structural)]
pub enum Codec {
    Plain,
    Zstd(i32),
    Lz4,
    Gzip,
}

/// The level in a name such as `zstd:19`; 3 where there is none.
pub open spec fn zstd_level(name: Seq<char>) -> i32 {
    let prefix = "zstd:"@;
    if text::starts_with(name, prefix) {
        match text::parse_signed(name.subrange(prefix.len() as int, name.len() as int)) {
            Some(n) => n as i32,
            None => 3,
        }
    } else {
        3
    }
}

/// The compressor that a name stands for. A name that stands for none, and `xz`,
/// which is only unpacked, gets Zstandard at its usual level.
pub open spec fn codec_of(name: Seq<char>) -> Codec {
    if name == "none"@ {
        Codec::Plain
    } else if text::starts_with(name, "zstd"@) {
        Codec::Zstd(zstd_level(name))
    } else if name == "lz4"@ {
        Codec::Lz4
    } else if name == "gzip"@ {
        Codec::Gzip
    } else {
        Codec::Zstd(3)
    }
}

/// The flag that an archive has for a compressor's name.
pub open spec fn flag_of(name: Seq<char>) -> u32 {
    if name == "none"@ {
        FLAG_COMPRESS_NONE
    } else if text::starts_with(name, "zstd"@) {
        FLAG_COMPRESS_ZSTD
    } else if name == "lz4"@ {
        FLAG_COMPRESS_LZ4
    } else if name == "gzip"@ {
        FLAG_COMPRESS_GZIP
    } else if text::starts_with(name, "xz"@) {
        FLAG_COMPRESS_XZ
    } else {
        FLAG_COMPRESS_ZSTD
    }
}

/// The compressor that a name stands for.
pub fn codec_for(name: &str) -> (c: Codec)
    ensures
        c == codec_of(name@),
{
    if text::same_text(name, "none") {
        Codec::Plain
    } else if text::has_prefix(name, "zstd") {
        Codec::Zstd(level_for(name))
    } else if text::same_text(name, "lz4") {
        Codec::Lz4
    } else if text::same_text(name, "gzip") {
        Codec::Gzip
    } else {
        Codec::Zstd(3)
    }
}

fn level_for(name: &str) -> (n: i32)
    ensures
        n == zstd_level(name@),
{
    if !text::has_prefix(name, "zstd:") {
        return 3;
    }
    proof {
        reveal_strlit("zstd:");
    }
    let chars = text::chars_of(name);
    let rest = text::string_of_range(chars.as_slice(), 5, chars.len());
    match text::parse_i32(rest.as_str()) {
        Some(n) => n,
        None => 3,
    }
}

/// The flag that an archive has for a compressor's name.
pub fn compress_flag(name: &str) -> (f: u32)
    ensures
        f == flag_of(name@),
{
    if text::same_text(name, "none") {
        FLAG_COMPRESS_NONE
    } else if text::has_prefix(name, "zstd") {
        FLAG_COMPRESS_ZSTD
    } else if text::same_text(name, "lz4") {
        FLAG_COMPRESS_LZ4
    } else if text::same_text(name, "gzip") {
        FLAG_COMPRESS_GZIP
    } else if text::has_prefix(name, "xz") {
        FLAG_COMPRESS_XZ
    } else {
        FLAG_COMPRESS_ZSTD
    }
}

/// What a chunk is stored as, given what the compressor made of it: where it
/// made nothing, the chunk itself.
pub fn packed_or_plain(packed: Option<Vec<u8>>, data: &[u8]) -> (out: Vec<u8>)
    ensures
        out@ == (match packed {
            Some(p) => p@,
            None => data@,
        }),
{
    match packed {
        Some(p) => p,
        None => crate::bytes::copy_range(data, 0, data.len()),
    }
}

/// Whether Zstandard may answer `r` to `data` at a level: the frame that it makes, or
/// nothing where it fails.
pub closed spec fn zstd_answers(data: Seq<u8>, level: i32, r: Option<Seq<u8>>) -> bool {
    exists|d: &[u8], v: Option<Vec<u8>>|
        d@ == data && #[trigger] call_ensures(zstd_compress, (d, level), v) && r == (match v {
            Some(p) => Some(p@),
            None => None,
        })
}

/// Whether the compressor is Zstandard and may fail on `data`.
pub open spec fn zstd_fails(codec: Codec, data: Seq<u8>) -> bool {
    codec matches Codec::Zstd(level) && zstd_answers(data, level, None)
}

fn ask<F: Fn(&[u8], i32) -> Option<Vec<u8>>>(f: F, data: &[u8], level: i32) -> (r: Option<Vec<u8>>)
    requires
        call_requires(f, (data, level)),
    ensures
        call_ensures(f, (data, level), r),
{
    f(data, level)
}

/// Asks Zstandard for a frame.
fn zstd_frame(data: &[u8], level: i32) -> (r: Option<Vec<u8>>)
    ensures
        zstd_answers(
            data@,
            level,
            match r {
                Some(p) => Some(p@),
                None => None,
            },
        ),
        r matches Some(p) ==> p@ == zstd_encoded(data@, level) && forall|capacity: nat|
            capacity >= data@.len() ==> #[trigger] zstd_decoded(p@, capacity) == Expanded::Bytes(
                data@,
            ),
{
    let r = ask(zstd_compress, data, level);
    assert(call_ensures(zstd_compress, (data, level), r));
    r
}

/// Whether `out` is what a compressor may make of `data`.
pub open spec fn is_packed(codec: Codec, data: Seq<u8>, out: Seq<u8>) -> bool {
    match codec {
        Codec::Plain => out == data,
        Codec::Zstd(level) => out == zstd_encoded(data, level) && forall|capacity: nat|
            capacity >= data.len() ==> #[trigger] zstd_decoded(out, capacity) == Expanded::Bytes(
                data,
            ),
        Codec::Lz4 => is_lz4_block(data, out),
        Codec::Gzip => gzip_decoded(out) == Decoded::Bytes(data),
    }
}

/// Packs a chunk with the compressor of a name. Where Zstandard fails, the chunk
/// is stored as it is.
pub fn compress_chunk(data: &[u8], name: &str) -> (out: Vec<u8>)
    requires
        codec_of(name@) == Codec::Lz4 ==> lz4_takes(data@.len()),
    ensures
        is_packed(codec_of(name@), data@, out@) || (out@ == data@ && codec_of(name@) is Zstd),
        codec_of(name@) matches Codec::Zstd(level) ==> exists|r: Option<Seq<u8>>| #[trigger]
            zstd_answers(data@, level, r) && out@ == (match r {
                Some(frame) => frame,
                None => data@,
            }),
        is_packed(codec_of(name@), data@, out@) || zstd_fails(codec_of(name@), data@),
{
    match codec_for(name) {
        Codec::Plain => {
            let out = crate::bytes::copy_range(data, 0, data.len());
            assert(out@ =~= data@);
            out
        },
        Codec::Zstd(level) => packed_or_plain(zstd_frame(data, level), data),
        Codec::Lz4 => lz4_compress(data),
        Codec::Gzip => packed_or_plain(gzip_compress(data), data),
    }
}

/// What a stored chunk unpacks to under an archive's flag.
pub open spec fn unpacked(flags: u32, data: Seq<u8>) -> Option<Seq<u8>> {
    if flags == FLAG_COMPRESS_NONE {
        Some(data)
    } else if flags == FLAG_COMPRESS_ZSTD {
        zstd_decoded(data, MAX_UNPACKED as nat).bytes()
    } else if flags == FLAG_COMPRESS_LZ4 {
        if lz4_readable(data) {
            lz4_decoded(data).bytes()
        } else {
            None
        }
    } else if flags == FLAG_COMPRESS_GZIP {
        gzip_decoded(data).bytes()
    } else if flags == FLAG_COMPRESS_XZ {
        xz_decoded(data).bytes()
    } else {
        None
    }
}

/// Whether an error says that data is invalid, in these words.
pub open spec fn is_invalid_data(e: FxcpError, words: Seq<char>) -> bool {
    e matches FxcpError::Io { kind, errno, message } && kind == IoKind::InvalidData && errno is None
        && message@ == words
}

fn invalid_data(prefix: &str, detail: &str) -> (e: FxcpError)
    ensures
        is_invalid_data(e, prefix@ + detail@),
{
    FxcpError::Io {
        kind: IoKind::InvalidData,
        errno: None,
        message: text::concat2(prefix, detail),
    }
}

/// The error that a decoder reported, taken over as it is: its kind and its text.
fn decoder_error(e: (IoKind, String)) -> (out: FxcpError)
    ensures
        out == (FxcpError::Io { kind: e.0, errno: None, message: e.1 }),
{
    FxcpError::Io { kind: e.0, errno: None, message: e.1 }
}

/// Whether an error says that data packed under these flags could not be unpacked:
/// for gzip and xz it is the one that the decoder reports, for Zstandard and LZ4
/// it holds what the decoder says behind the format's name.
pub open spec fn is_unpack_error(e: FxcpError, flags: u32, data: Seq<u8>) -> bool {
    if flags == FLAG_COMPRESS_ZSTD {
        is_invalid_data(e, "zstd: "@ + zstd_decoded(data, MAX_UNPACKED as nat).fault())
    } else if flags == FLAG_COMPRESS_LZ4 {
        if lz4_readable(data) {
            is_invalid_data(e, "lz4: "@ + lz4_decoded(data).fault())
        } else {
            is_invalid_data(e, "lz4: "@ + "a length is too large"@)
        }
    } else if flags == FLAG_COMPRESS_GZIP {
        gzip_decoded(data).reports(e)
    } else if flags == FLAG_COMPRESS_XZ {
        xz_decoded(data).reports(e)
    } else {
        is_invalid_data(e, "unknown compression: "@ + text::decimal(flags as nat))
    }
}

/// Unpacks a stored chunk.
pub fn decompress_chunk(data: &[u8], flags: u32) -> (res: Result<Vec<u8>, FxcpError>)
    ensures
        match unpacked(flags, data@) {
            Some(d) => res is Ok && res->Ok_0@ == d,
            None => res is Err && is_unpack_error(res->Err_0, flags, data@),
        },
{
    if flags == FLAG_COMPRESS_NONE {
        let out = crate::bytes::copy_range(data, 0, data.len());
        assert(out@ =~= data@);
        return Ok(out);
    }
    if flags == FLAG_COMPRESS_ZSTD {
        return match zstd_decompress(data, MAX_UNPACKED) {
            Ok(out) => Ok(out),
            Err(e) => Err(invalid_data("zstd: ", e.as_str())),
        };
    }
    if flags == FLAG_COMPRESS_LZ4 {
        if !is_lz4_readable(data) {
            return Err(invalid_data("lz4: ", "a length is too large"));
        }
        return match lz4_decompress(data) {
            Ok(out) => Ok(out),
            Err(e) => Err(invalid_data("lz4: ", e.as_str())),
        };
    }
    if flags == FLAG_COMPRESS_GZIP {
        return match gzip_decompress(data) {
            Ok(out) => Ok(out),
            Err(e) => Err(decoder_error(e)),
        };
    }
    if flags == FLAG_COMPRESS_XZ {
        return match xz_decompress(data) {
            Ok(out) => Ok(out),
            Err(e) => Err(decoder_error(e)),
        };
    }
    let n = text::decimal_of(flags as u64);
    Err(invalid_data("unknown compression: ", n.as_str()))
}

/// What was packed under a name unpacks to the same bytes under that name's
/// flag: with no compressor, Zstandard (up to the size that is unpacked), LZ4
/// (where the block is one that can be read) and gzip. (`xz` packs with Zstandard
/// and is left out.)
pub proof fn packing_round_trip(name: Seq<char>, data: Seq<u8>, out: Seq<u8>)
    requires
        is_packed(codec_of(name), data, out),
        flag_of(name) != FLAG_COMPRESS_XZ,
        flag_of(name) == FLAG_COMPRESS_ZSTD ==> data.len() <= MAX_UNPACKED,
        flag_of(name) == FLAG_COMPRESS_LZ4 ==> lz4_readable(out),
    ensures
        unpacked(flag_of(name), out) == Some(data),
{
}

/// A frame that Zstandard answers with unpacks to the data, in whatever room holds
/// it.
pub proof fn zstd_frame_unpacks(data: Seq<u8>, level: i32, frame: Seq<u8>, capacity: nat)
    requires
        zstd_answers(data, level, Some(frame)),
        capacity >= data.len(),
    ensures
        zstd_decoded(frame, capacity) == Expanded::Bytes(data),
{
    let (d, v) = answer_was_given(data, level, Some(frame));
}

/// Every answer is one that the encoder gave to these bytes at this level.
proof fn answer_was_given(data: Seq<u8>, level: i32, r: Option<Seq<u8>>) -> (given: (
    &'static [u8],
    Option<Vec<u8>>,
))
    requires
        zstd_answers(data, level, r),
    ensures
        given.0@ == data,
        call_ensures(zstd_compress, (given.0, level), given.1),
        r == (match given.1 {
            Some(p) => Some(p@),
            None => None,
        }),
{
    choose|d: &'static [u8], v: Option<Vec<u8>>|
        d@ == data && #[trigger] call_ensures(zstd_compress, (d, level), v) && r == (match v {
            Some(p) => Some(p@),
            None => None,
        })
}

/// What is stored for a chunk unpacks to the chunk under the flag of the same
/// compressor, whatever the chunk holds, as long as the compressor does not fail on
/// it: the answer of Zstandard is stored where it has one, and plain bytes only
/// where it has none. (The bounds are those of `packing_round_trip`.)
pub proof fn stored_chunk_unpacks(name: Seq<char>, data: Seq<u8>, out: Seq<u8>)
    requires
        is_packed(codec_of(name), data, out) || zstd_fails(codec_of(name), data),
        !zstd_fails(codec_of(name), data),
        flag_of(name) != FLAG_COMPRESS_XZ,
        flag_of(name) == FLAG_COMPRESS_ZSTD ==> data.len() <= 16777216,
        flag_of(name) == FLAG_COMPRESS_LZ4 ==> lz4_readable(out),
    ensures
        unpacked(flag_of(name), out) == Some(data),
{
    packing_round_trip(name, data, out);
}

/// What the first bytes of a stream say of its compression.
pub open spec fn compression_of(h: Seq<u8>) -> Option<Seq<char>> {
    if h.len() < 4 {
        None
    } else if h[0] == 0x28 && h[1] == 0xB5 && h[2] == 0x2F && h[3] == 0xFD {
        Some("zstd"@)
    } else if h[0] == 0x1F && h[1] == 0x8B {
        Some("gzip"@)
    } else if h[0] == 0x04 && h[1] == 0x22 && h[2] == 0x4D && h[3] == 0x18 {
        Some("lz4"@)
    } else if h.len() >= 6 && h[0] == 0xFD && h[1] == 0x37 && h[2] == 0x7A && h[3] == 0x58 && h[4]
        == 0x5A && h[5] == 0x00 {
        Some("xz"@)
    } else {
        None
    }
}

/// The compression of a stream that starts with these bytes, where it has one.
pub fn detect_compression(header: &[u8]) -> (res: Option<&'static str>)
    ensures
        match compression_of(header@) {
            Some(name) => res is Some && res->0@ == name,
            None => res is None,
        },
{
    if header.len() < 4 {
        return None;
    }
    if header[0] == 0x28 && header[1] == 0xB5 && header[2] == 0x2F && header[3] == 0xFD {
        return Some("zstd");
    }
    if header[0] == 0x1F && header[1] == 0x8B {
        return Some("gzip");
    }
    if header[0] == 0x04 && header[1] == 0x22 && header[2] == 0x4D && header[3] == 0x18 {
        return Some("lz4");
    }
    if header.len() >= 6 && header[0] == 0xFD && header[1] == 0x37 && header[2] == 0x7A && header[3]
        == 0x58 && header[4] == 0x5A && header[5] == 0x00 {
        return Some("xz");
    }
    None
}

/// The character for a hexadecimal digit, in lower case.
pub open spec fn hex_digit(d: int) -> char {
    if d < 10 {
        ('0' as u32 + d) as char
    } else {
        ('a' as u32 + (d - 10)) as char
    }
}

/// Bytes as hexadecimal text: two digits for each.
pub open spec fn hex_text(data: Seq<u8>) -> Seq<char> {
    Seq::new(
        data.len() * 2,
        |i: int|
            if i % 2 == 0 {
                hex_digit(data[i / 2] as int / 16)
            } else {
                hex_digit(data[i / 2] as int % 16)
            },
    )
}

/// The value of a hexadecimal digit of either case.
pub open spec fn hex_value(c: char) -> Option<int> {
    if '0' <= c <= '9' {
        Some(c as u32 - '0' as u32)
    } else if 'a' <= c <= 'f' {
        Some(c as u32 - 'a' as u32 + 10)
    } else if 'A' <= c <= 'F' {
        Some(c as u32 - 'A' as u32 + 10)
    } else {
        None
    }
}

/// Whether text is hexadecimal: an even number of digits.
pub open spec fn is_hex(s: Seq<char>) -> bool {
    s.len() % 2 == 0 && forall|i: int| 0 <= i < s.len() ==> hex_value(#[trigger] s[i]) is Some
}

/// The bytes that hexadecimal text stands for.
pub open spec fn unhex(s: Seq<char>) -> Seq<u8> {
    Seq::new(
        s.len() / 2,
        |i: int| (hex_value(s[2 * i])->0 * 16 + hex_value(s[2 * i + 1])->0) as u8,
    )
}

/// `hex::encode`: two lower-case digits for each byte.
#[verifier::external_body]
pub(crate) fn hex_encode(data: &[u8]) -> (s: String)
    ensures
        s@ == hex_text(data@),
{
    hex::encode(data)
}

/// `hex::decode`: the bytes that an even number of digits of either case stand
/// for; nothing for any other text.
#[verifier::external_body]
pub(crate) fn hex_decode(s: &str) -> (res: Option<Vec<u8>>)
    ensures
        res is Some == is_hex(s@),
        res is Some ==> res->0@ == unhex(s@),
{
    hex::decode(s).ok()
}

/// Hexadecimal text stands for the bytes that it was made of.
pub proof fn hex_round_trip(data: Seq<u8>)
    ensures
        is_hex(hex_text(data)),
        unhex(hex_text(data)) == data,
{
    let s = hex_text(data);
    assert forall|i: int| 0 <= i < s.len() implies hex_value(#[trigger] s[i]) is Some by {
        assert(0 <= i / 2 < data.len());
    }
    assert forall|i: int| 0 <= i < data.len() implies #[trigger] unhex(s)[i] == data[i] by {
        assert(s[2 * i] == hex_digit(data[i] as int / 16));
        assert(s[2 * i + 1] == hex_digit(data[i] as int % 16));
    }
    assert(unhex(s) =~= data);
}

/// A name stands for one way to pack: `none`, `lz4` and `gzip` for themselves, and any
/// other for Zstandard, at the level behind `zstd:` where there is one. What is written
/// of it in an archive names the same way.
pub proof fn names_choose_codecs(name: Seq<char>, level: i32)
    ensures
        codec_of(name) == Codec::Plain <==> name == seq!['n', 'o', 'n', 'e'],
        codec_of(name) == Codec::Lz4 <==> name == seq!['l', 'z', '4'],
        codec_of(name) == Codec::Gzip <==> name == seq!['g', 'z', 'i', 'p'],
        codec_of("zstd"@) == Codec::Zstd(3),
        codec_of("zstd:"@ + text::signed_decimal(level as int)) == Codec::Zstd(level),
        codec_of(name) is Zstd && !"zstd:"@.is_prefix_of(name) ==> codec_of(name) == Codec::Zstd(3),
        !"xz"@.is_prefix_of(name) ==> flag_of(name) == (match codec_of(name) {
            Codec::Plain => FLAG_COMPRESS_NONE,
            Codec::Zstd(_) => FLAG_COMPRESS_ZSTD,
            Codec::Lz4 => FLAG_COMPRESS_LZ4,
            Codec::Gzip => FLAG_COMPRESS_GZIP,
        }),
        "xz"@.is_prefix_of(name) ==> flag_of(name) == FLAG_COMPRESS_XZ,
{
    reveal_strlit("none");
    reveal_strlit("lz4");
    reveal_strlit("gzip");
    reveal_strlit("zstd");
    reveal_strlit("zstd:");
    reveal_strlit("xz");
    let none = seq!['n', 'o', 'n', 'e'];
    let lz4 = seq!['l', 'z', '4'];
    let gzip = seq!['g', 'z', 'i', 'p'];
    assert("none"@ =~= none);
    assert("lz4"@ =~= lz4);
    assert("gzip"@ =~= gzip);
    text::prefix_is_start(name, "zstd"@);
    text::prefix_is_start(name, "zstd:"@);
    text::prefix_is_start(name, "xz"@);
    text::prefix_is_start("zstd"@, "zstd"@);
    text::prefix_is_start("zstd"@, "zstd:"@);
    assert("none"@[0] != "zstd"@[0] && "lz4"@[0] != "zstd"@[0] && "gzip"@[0] != "zstd"@[0]
        && "xz"@[0] != "zstd"@[0]);
    assert("none"@[0] != "lz4"@[0] && "none"@[0] != "gzip"@[0] && "none"@[0] != "xz"@[0]);
    assert("lz4"@[0] != "gzip"@[0] && "lz4"@[0] != "xz"@[0] && "gzip"@[0] != "xz"@[0]);
    let number = text::signed_decimal(level as int);
    let full = "zstd:"@ + number;
    text::prefix_is_start(full, "zstd:"@);
    text::prefix_is_start(full, "zstd"@);
    assert(full.subrange(5, full.len() as int) =~= number);
    text::signed_round_trip(level as int);
    assert(full[0] == 'z' && "none"@[0] == 'n');
}

/// What packed a file is told by its first bytes, and nothing is told without them.
pub proof fn magic_tells_compression(h: Seq<u8>)
    ensures
        compression_of(h) == Some("zstd"@) <==> seq![0x28u8, 0xB5u8, 0x2Fu8, 0xFDu8].is_prefix_of(
            h,
        ),
        compression_of(h) == Some("gzip"@) <==> h.len() >= 4 && seq![0x1Fu8, 0x8Bu8].is_prefix_of(
            h,
        ),
        compression_of(h) == Some("lz4"@) <==> seq![0x04u8, 0x22u8, 0x4Du8, 0x18u8].is_prefix_of(h),
        compression_of(h) == Some("xz"@) <==> seq![
            0xFDu8,
            0x37u8,
            0x7Au8,
            0x58u8,
            0x5Au8,
            0x00u8,
        ].is_prefix_of(h),
        compression_of(h) matches Some(name) ==> name == "zstd"@ || name == "gzip"@ || name
            == "lz4"@ || name == "xz"@,
{
    reveal_strlit("zstd");
    reveal_strlit("gzip");
    reveal_strlit("lz4");
    reveal_strlit("xz");
    assert("zstd"@[0] == 'z' && "gzip"@[0] == 'g' && "lz4"@[0] == 'l' && "xz"@[0] == 'x');
    let zstd = seq![0x28u8, 0xB5u8, 0x2Fu8, 0xFDu8];
    let gzip = seq![0x1Fu8, 0x8Bu8];
    let lz4 = seq![0x04u8, 0x22u8, 0x4Du8, 0x18u8];
    let xz = seq![0xFDu8, 0x37u8, 0x7Au8, 0x58u8, 0x5Au8, 0x00u8];
    if h.len() >= 2 {
        let two = h.subrange(0, 2);
        assert(two[0] == h[0] && two[1] == h[1]);
        if h[0] == 0x1F && h[1] == 0x8B {
            assert(two =~= gzip);
        }
    }
    if h.len() >= 4 {
        let four = h.subrange(0, 4);
        assert(four[0] == h[0] && four[1] == h[1] && four[2] == h[2] && four[3] == h[3]);
        if h[0] == 0x28 && h[1] == 0xB5 && h[2] == 0x2F && h[3] == 0xFD {
            assert(four =~= zstd);
        }
        if h[0] == 0x04 && h[1] == 0x22 && h[2] == 0x4D && h[3] == 0x18 {
            assert(four =~= lz4);
        }
    }
    if h.len() >= 6 {
        let six = h.subrange(0, 6);
        assert(six[0] == h[0] && six[1] == h[1] && six[2] == h[2] && six[3] == h[3] && six[4]
            == h[4] && six[5] == h[5]);
        if h[0] == 0xFD && h[1] == 0x37 && h[2] == 0x7A && h[3] == 0x58 && h[4] == 0x5A && h[5]
            == 0x00 {
            assert(six =~= xz);
        }
    }
}

/// A byte is written as two of the sixteen digits, the higher one first.
pub proof fn hex_is_positional(data: Seq<u8>, i: int)
    requires
        0 <= i < data.len(),
    ensures
        hex_text(data).len() == 2 * data.len(),
        hex_text(data)[2 * i] == "0123456789abcdef"@[data[i] as int / 16],
        hex_text(data)[2 * i + 1] == "0123456789abcdef"@[data[i] as int % 16],
{
    reveal_strlit("0123456789abcdef");
    assert((2 * i) / 2 == i && (2 * i + 1) / 2 == i);
}

/// Whatever an unpacker says is handed on: its bytes, or what is wrong.
pub proof fn faults_are_handed_on(e: FxcpError, flags: u32, data: Seq<u8>, n: nat)
    requires
        unpacked(flags, data) is None,
        is_unpack_error(e, flags, data),
    ensures
        e is Io && e->errno is None,
        flags == 1 ==> e->kind == IoKind::InvalidData && e->Io_message@ == "zstd: "@ + zstd_decoded(
            data,
            16777216,
        ).fault(),
        flags == 2 && lz4_readable(data) ==> e->kind == IoKind::InvalidData && e->Io_message@
            == "lz4: "@ + lz4_decoded(data).fault(),
        flags == 3 ==> gzip_decoded(data) == Decoded::Fault(e->kind, e->Io_message@),
        flags == 4 ==> xz_decoded(data) == Decoded::Fault(e->kind, e->Io_message@),
        flags > 4 ==> e->kind == IoKind::InvalidData && e->Io_message@ == "unknown compression: "@
            + text::decimal(flags as nat),
        lz4_takes(n) <==> n <= 0xffff_ffff && n * 110 <= usize::MAX,
{
}

/// What is packed is unpacked by its flag: nothing is done to plain bytes, and an unknown
/// flag unpacks nothing.
pub proof fn flags_choose_unpackers(flags: u32, data: Seq<u8>, kind: IoKind, words: Seq<char>)
    ensures
        unpacked(0, data) == Some(data),
        unpacked(1, data) == zstd_decoded(data, 16777216).bytes(),
        lz4_readable(data) ==> unpacked(2, data) == lz4_decoded(data).bytes(),
        unpacked(3, data) == gzip_decoded(data).bytes(),
        unpacked(4, data) == xz_decoded(data).bytes(),
        flags > 4 ==> unpacked(flags, data) is None,
        Expanded::Bytes(data).bytes() == Some(data),
        Expanded::Fault(words).bytes() is None,
        Expanded::Fault(words).fault() == words,
        Decoded::Bytes(data).bytes() == Some(data),
        Decoded::Fault(kind, words).bytes() is None,
{
}

/// A chunk that was packed under a name and is unpacked under that name's flag comes back as
/// it was, however little it could be packed, unless Zstandard failed on it. (What the
/// name `xz` packs otherwise than it unpacks is left out.)
pub proof fn packed_chunk_comes_back(
    data: &[u8],
    name: &str,
    out: Vec<u8>,
    flag: u32,
    stored: &[u8],
    res: Result<Vec<u8>, FxcpError>,
)
    requires
        call_ensures(compress_chunk, (data, name), out),
        call_ensures(compress_flag, (name,), flag),
        call_ensures(decompress_chunk, (stored, flag), res),
        stored@ == out@,
        !zstd_fails(codec_of(name@), data@),
        !"xz"@.is_prefix_of(name@),
        data@.len() <= 4194304,
    ensures
        res is Ok && res->Ok_0@ == data@,
        codec_of(name@) is Zstd ==> out@ == zstd_encoded(data@, codec_of(name@)->Zstd_0),
{
    names_choose_codecs(name@, 0);
    if codec_of(name@) == Codec::Lz4 {
        small_block_is_readable(data@, out@);
    }
    stored_chunk_unpacks(name@, data@, out@);
}

/// A block is readable where it is too short to say its size, and else where that size can
/// be had and no length in it runs over; a block that ends is.
pub proof fn readable_block_has_fitting_lengths(data: Seq<u8>, pos: int, out: int, cap: int)
    requires
        0 <= pos,
    ensures
        data.len() < 4 ==> lz4_readable(data),
        data.len() >= 4 ==> (lz4_readable(data) <==> crate::bytes::le32_value(data.subrange(0, 4))
            <= isize::MAX && lengths_fit(
            data,
            4,
            0,
            crate::bytes::le32_value(data.subrange(0, 4)) as int,
        )),
        pos >= data.len() ==> lengths_fit(data, pos, out, cap),
{
    reveal_with_fuel(lengths_fit, 1);
}

/// Packing fails only where Zstandard was asked for the chunk at the level and gave no frame;
/// the other ways to pack do not.
pub proof fn failing_is_giving_no_frame(codec: Codec, data: Seq<u8>, level: i32, frame: Seq<u8>)
    ensures
        zstd_fails(Codec::Zstd(level), data) <==> zstd_answers(data, level, None),
        codec !is Zstd ==> !zstd_fails(codec, data),
        zstd_answers(data, level, Some(frame)) ==> frame == zstd_encoded(data, level),
        is_packed(Codec::Plain, data, frame) <==> frame == data,
        is_packed(Codec::Gzip, data, frame) <==> gzip_decoded(frame) == Decoded::Bytes(data),
        is_packed(Codec::Zstd(level), data, frame) ==> frame == zstd_encoded(data, level),
{
    if zstd_answers(data, level, Some(frame)) {
        let given = answer_was_given(data, level, Some(frame));
    }
}

/// Bytes are read from an even number of hexadecimal digits of either case, two for each, the
/// higher one first; anything else is none.
pub proof fn digits_are_read_in_pairs(s: Seq<char>, i: int)
    ensures
        is_hex(s) <==> s.len() % 2 == 0 && forall|k: int|
            0 <= k < s.len() ==> '0' <= #[trigger] s[k] <= '9' || 'a' <= s[k] <= 'f' || 'A' <= s[k]
                <= 'F',
        is_hex(s) ==> unhex(s).len() * 2 == s.len(),
        is_hex(s) && 0 <= 2 * i < s.len() ==> unhex(s)[i] == hex_value(s[2 * i])->0 * 16
            + hex_value(s[2 * i + 1])->0,
{
    if is_hex(s) {
        assert forall|k: int| 0 <= k < s.len() implies '0' <= #[trigger] s[k] <= '9' || 'a' <= s[k]
            <= 'f' || 'A' <= s[k] <= 'F' by {
            assert(hex_value(s[k]) is Some);
        }
        if 0 <= 2 * i < s.len() {
            assert(hex_value(s[2 * i]) is Some);
            assert(hex_value(s[2 * i + 1]) is Some);
        }
    }
}

} // verus!
