//! Primitive field encodings shared by the request and response codecs:
//! big-endian integers, length-prefixed strings and byte blobs, 16-byte
//! client ids, optional integers and string lists.

use vstd::prelude::*;
use vstd::arithmetic::div_mod::lemma_fundamental_div_mod;
use vstd::utf8::{valid_utf8, decode_utf8, encode_utf8, encode_utf8_valid_utf8,
    encode_utf8_decode_utf8};
use vstd::string::StrSliceExecFns;
use crate::topic::ClientId;

verus! {

/// Why a buffer failed to decode. A decode failure is unrecoverable for the
/// connection that produced the bytes: the peer has broken framing.
#[derive(PartialEq, Eq, Structural, Clone, Copy, Debug)]
pub enum DecodeError {
    /// A length prefix exceeds the bytes available, or a fixed-width field
    /// is truncated.
    BufferTooShort,
    /// A string field is not valid UTF-8.
    InvalidUtf8,
    /// The body's type tag is not a known request tag.
    UnknownRequestType,
    /// The body's type tag is not a known response tag.
    UnknownResponseType,
    /// A frame's body did not decode to exactly one item: bytes were left
    /// over after the item.
    TrailingBytes,
}

/// Returned when a value cannot be framed: a string longer than 65,535
/// bytes, a payload longer than 2^32 - 1 bytes, more than 65,535 topic
/// names in one list, or a body longer than 2^32 - 1 bytes. Nothing is
/// written in that case: a frame is never partially emitted.
#[derive(PartialEq, Eq, Structural, Clone, Copy, Debug)]
pub struct EncodeError;

// ---------------------------------------------------------------------------
// Big-endian integer encodings.
// ---------------------------------------------------------------------------

pub open spec fn u16_be(v: u16) -> Seq<u8> {
    seq![(v / 256) as u8, (v % 256) as u8]
}

pub open spec fn u32_be(v: u32) -> Seq<u8> {
    u16_be((v / 0x10000) as u16) + u16_be((v % 0x10000) as u16)
}

pub open spec fn u64_be(v: u64) -> Seq<u8> {
    u32_be((v / 0x100000000) as u32) + u32_be((v % 0x100000000) as u32)
}

/// Parses a big-endian `u16` from the front of `b`, returning the value and
/// the remaining bytes, or `None` when `b` is too short.
pub open spec fn spec_take_u16(b: Seq<u8>) -> Option<(u16, Seq<u8>)> {
    if b.len() < 2 {
        None
    } else {
        Some((((b[0] as int) * 256 + (b[1] as int)) as u16, b.skip(2)))
    }
}

pub open spec fn spec_take_u32(b: Seq<u8>) -> Option<(u32, Seq<u8>)> {
    match spec_take_u16(b) {
        None => None,
        Some((hi, rest)) => match spec_take_u16(rest) {
            None => None,
            Some((lo, rest2)) => Some((((hi as int) * 0x10000 + (lo as int)) as u32, rest2)),
        },
    }
}

pub open spec fn spec_take_u64(b: Seq<u8>) -> Option<(u64, Seq<u8>)> {
    match spec_take_u32(b) {
        None => None,
        Some((hi, rest)) => match spec_take_u32(rest) {
            None => None,
            Some((lo, rest2)) => Some((((hi as int) * 0x100000000 + (lo as int)) as u64, rest2)),
        },
    }
}

pub proof fn lemma_take_u16_be(v: u16, rest: Seq<u8>)
    ensures
        spec_take_u16(u16_be(v) + rest) == Some((v, rest)),
{
    let b = u16_be(v) + rest;
    lemma_fundamental_div_mod(v as int, 256);
    assert(b.skip(2) =~= rest);
}

pub proof fn lemma_take_u32_be(v: u32, rest: Seq<u8>)
    ensures
        spec_take_u32(u32_be(v) + rest) == Some((v, rest)),
{
    let hi = (v / 0x10000) as u16;
    let lo = (v % 0x10000) as u16;
    assert(u32_be(v) + rest =~= u16_be(hi) + (u16_be(lo) + rest));
    lemma_take_u16_be(hi, u16_be(lo) + rest);
    lemma_take_u16_be(lo, rest);
    lemma_fundamental_div_mod(v as int, 0x10000);
}

pub proof fn lemma_take_u64_be(v: u64, rest: Seq<u8>)
    ensures
        spec_take_u64(u64_be(v) + rest) == Some((v, rest)),
{
    let hi = (v / 0x100000000) as u32;
    let lo = (v % 0x100000000) as u32;
    assert(u64_be(v) + rest =~= u32_be(hi) + (u32_be(lo) + rest));
    lemma_take_u32_be(hi, u32_be(lo) + rest);
    lemma_take_u32_be(lo, rest);
    lemma_fundamental_div_mod(v as int, 0x100000000);
}

// ---------------------------------------------------------------------------
// Executable integer getters and putters.
// ---------------------------------------------------------------------------

pub(crate) fn get_u8(src: &Vec<u8>, pos: usize) -> (r: Result<(u8, usize), DecodeError>)
    requires
        pos <= src@.len(),
    ensures
        match r {
            Ok((v, p)) => {
                &&& pos + 1 <= src@.len()
                &&& p == pos + 1
                &&& v == src@[pos as int]
            },
            Err(e) => {
                &&& src@.len() < pos + 1
                &&& e == DecodeError::BufferTooShort
            },
        },
{
    if pos < src.len() {
        Ok((src[pos], pos + 1))
    } else {
        Err(DecodeError::BufferTooShort)
    }
}

pub(crate) fn get_u16(src: &Vec<u8>, pos: usize) -> (r: Result<(u16, usize), DecodeError>)
    requires
        pos <= src@.len(),
    ensures
        match r {
            Ok((v, p)) => {
                &&& pos + 2 <= src@.len()
                &&& p == pos + 2
                &&& spec_take_u16(src@.skip(pos as int)) == Some((v, src@.skip(p as int)))
            },
            Err(e) => {
                &&& src@.len() < pos + 2
                &&& e == DecodeError::BufferTooShort
                &&& spec_take_u16(src@.skip(pos as int)) is None
            },
        },
{
    if src.len() - pos >= 2 {
        let v: u16 = (src[pos] as u16) * 256 + (src[pos + 1] as u16);
        proof {
            assert(src@.skip(pos as int).skip(2) =~= src@.skip(pos as int + 2));
        }
        Ok((v, pos + 2))
    } else {
        Err(DecodeError::BufferTooShort)
    }
}

pub(crate) fn get_u32(src: &Vec<u8>, pos: usize) -> (r: Result<(u32, usize), DecodeError>)
    requires
        pos <= src@.len(),
    ensures
        match r {
            Ok((v, p)) => {
                &&& pos + 4 <= src@.len()
                &&& p == pos + 4
                &&& spec_take_u32(src@.skip(pos as int)) == Some((v, src@.skip(p as int)))
            },
            Err(e) => {
                &&& src@.len() < pos + 4
                &&& e == DecodeError::BufferTooShort
                &&& spec_take_u32(src@.skip(pos as int)) is None
            },
        },
{
    if src.len() - pos >= 4 {
        let hi = match get_u16(src, pos) {
            Ok((v, _)) => v,
            Err(e) => { return Err(e); },
        };
        let lo = match get_u16(src, pos + 2) {
            Ok((v, _)) => v,
            Err(e) => { return Err(e); },
        };
        Ok(((hi as u32) * 0x10000 + (lo as u32), pos + 4))
    } else {
        if src.len() - pos >= 2 {
            proof {
                assert(spec_take_u16(src@.skip(pos as int)) matches Some(p2)
                    && p2.1 =~= src@.skip(pos as int + 2));
            }
        }
        Err(DecodeError::BufferTooShort)
    }
}

pub(crate) fn get_u64(src: &Vec<u8>, pos: usize) -> (r: Result<(u64, usize), DecodeError>)
    requires
        pos <= src@.len(),
    ensures
        match r {
            Ok((v, p)) => {
                &&& pos + 8 <= src@.len()
                &&& p == pos + 8
                &&& spec_take_u64(src@.skip(pos as int)) == Some((v, src@.skip(p as int)))
            },
            Err(e) => {
                &&& src@.len() < pos + 8
                &&& e == DecodeError::BufferTooShort
                &&& spec_take_u64(src@.skip(pos as int)) is None
            },
        },
{
    if src.len() - pos >= 8 {
        let hi = match get_u32(src, pos) {
            Ok((v, _)) => v,
            Err(e) => { return Err(e); },
        };
        let lo = match get_u32(src, pos + 4) {
            Ok((v, _)) => v,
            Err(e) => { return Err(e); },
        };
        Ok(((hi as u64) * 0x100000000 + (lo as u64), pos + 8))
    } else {
        if src.len() - pos >= 4 {
            proof {
                assert(spec_take_u32(src@.skip(pos as int)) matches Some(p2)
                    && p2.1 =~= src@.skip(pos as int + 4));
            }
        }
        Err(DecodeError::BufferTooShort)
    }
}

// ---------------------------------------------------------------------------
// Length-prefixed strings: a big-endian u16 byte count, then that many
// bytes of UTF-8.
// ---------------------------------------------------------------------------

/// A string fits on the wire when its UTF-8 encoding is at most 65,535
/// bytes long.
pub open spec fn str_encodable(s: Seq<char>) -> bool {
    encode_utf8(s).len() <= 0xFFFF
}

pub open spec fn enc_str(s: Seq<char>) -> Seq<u8> {
    u16_be(encode_utf8(s).len() as u16) + encode_utf8(s)
}

pub open spec fn spec_take_string(b: Seq<u8>) -> Option<(Seq<char>, Seq<u8>)> {
    match spec_take_u16(b) {
        None => None,
        Some((n, rest)) => if rest.len() < n {
            None
        } else {
            let sb = rest.take(n as int);
            if valid_utf8(sb) {
                Some((decode_utf8(sb), rest.skip(n as int)))
            } else {
                None
            }
        },
    }
}

/// Which error a failed string parse reports: truncation before malformed
/// UTF-8.
pub open spec fn spec_string_err(b: Seq<u8>) -> DecodeError {
    match spec_take_u16(b) {
        None => DecodeError::BufferTooShort,
        Some((n, rest)) => if rest.len() < n {
            DecodeError::BufferTooShort
        } else {
            DecodeError::InvalidUtf8
        },
    }
}

pub proof fn lemma_take_string_enc(s: Seq<char>, rest: Seq<u8>)
    requires
        str_encodable(s),
    ensures
        spec_take_string(enc_str(s) + rest) == Some((s, rest)),
{
    broadcast use encode_utf8_valid_utf8, encode_utf8_decode_utf8;

    let sb = encode_utf8(s);
    let n = sb.len() as u16;
    assert(enc_str(s) + rest =~= u16_be(n) + (sb + rest));
    lemma_take_u16_be(n, sb + rest);
    assert((sb + rest).take(n as int) =~= sb);
    assert((sb + rest).skip(n as int) =~= rest);
}

/// Relies on String::from_utf8: returns the string decoded from the given
/// bytes exactly when they are valid UTF-8, and nothing otherwise.
#[verifier::external_body]
fn bytes_to_string(v: Vec<u8>) -> (r: Option<String>)
    ensures
        r is Some <==> valid_utf8(v@),
        r matches Some(s) ==> s@ == decode_utf8(v@),
{
    String::from_utf8(v).ok()
}

/// Copies `src[from..to]` into a fresh vector.
pub(crate) fn copy_range(src: &Vec<u8>, from: usize, to: usize) -> (r: Vec<u8>)
    requires
        from <= to <= src@.len(),
    ensures
        r@ == src@.subrange(from as int, to as int),
{
    let mut out: Vec<u8> = Vec::new();
    let mut i: usize = from;
    while i < to
        invariant
            from <= i <= to <= src@.len(),
            out@ == src@.subrange(from as int, i as int),
        decreases to - i,
    {
        out.push(src[i]);
        proof {
            assert(out@ =~= src@.subrange(from as int, i + 1 as int));
        }
        i = i + 1;
    }
    out
}

pub fn get_u16_as_string(src: &Vec<u8>, pos: usize) -> (r: Result<(String, usize), DecodeError>)
    requires
        pos <= src@.len(),
    ensures
        match r {
            Ok((s, p)) => {
                &&& pos <= p <= src@.len()
                &&& spec_take_string(src@.skip(pos as int)) == Some((s@, src@.skip(p as int)))
            },
            Err(e) => {
                &&& spec_take_string(src@.skip(pos as int)) is None
                &&& e == spec_string_err(src@.skip(pos as int))
            },
        },
{
    let ghost rest0 = src@.skip(pos as int);
    let (n, p1) = match get_u16(src, pos) {
        Ok(v) => v,
        Err(e) => { return Err(e); },
    };
    if src.len() - p1 < n as usize {
        return Err(DecodeError::BufferTooShort);
    }
    let end: usize = p1 + n as usize;
    let bytes = copy_range(src, p1, end);
    proof {
        assert(bytes@ =~= src@.skip(p1 as int).take(n as int));
    }
    match bytes_to_string(bytes) {
        Some(s) => {
            proof {
                assert(src@.skip(p1 as int).skip(n as int) =~= src@.skip(end as int));
            }
            Ok((s, end))
        },
        None => Err(DecodeError::InvalidUtf8),
    }
}

pub fn put_u16_len_string(dst: &mut Vec<u8>, value: &str) -> (r: Result<(), EncodeError>)
    ensures
        match r {
            Ok(()) => str_encodable(value@) && final(dst)@ == old(dst)@ + enc_str(value@),
            Err(e) => !str_encodable(value@) && final(dst)@ == old(dst)@,
        },
{
    let mut bytes = value.as_bytes_vec();
    if bytes.len() > 0xFFFF {
        return Err(EncodeError);
    }
    put_u16(dst, bytes.len() as u16);
    dst.append(&mut bytes);
    proof {
        assert(final(dst)@ =~= old(dst)@ + enc_str(value@));
    }
    Ok(())
}

// ---------------------------------------------------------------------------
// Length-prefixed byte blobs: a big-endian u32 byte count, then the bytes.
// ---------------------------------------------------------------------------

/// A payload fits on the wire when it is at most 2^32 - 1 bytes long.
pub open spec fn bytes_encodable(p: Seq<u8>) -> bool {
    p.len() <= 0xFFFFFFFF
}

pub open spec fn enc_bytes(p: Seq<u8>) -> Seq<u8> {
    u32_be(p.len() as u32) + p
}

pub open spec fn spec_take_bytes(b: Seq<u8>) -> Option<(Seq<u8>, Seq<u8>)> {
    match spec_take_u32(b) {
        None => None,
        Some((n, rest)) => if rest.len() < n {
            None
        } else {
            Some((rest.take(n as int), rest.skip(n as int)))
        },
    }
}

pub proof fn lemma_take_bytes_enc(p: Seq<u8>, rest: Seq<u8>)
    requires
        bytes_encodable(p),
    ensures
        spec_take_bytes(enc_bytes(p) + rest) == Some((p, rest)),
{
    let n = p.len() as u32;
    assert(enc_bytes(p) + rest =~= u32_be(n) + (p + rest));
    lemma_take_u32_be(n, p + rest);
    assert((p + rest).take(n as int) =~= p);
    assert((p + rest).skip(n as int) =~= rest);
}

pub fn get_u32_as_vec(src: &Vec<u8>, pos: usize) -> (r: Result<(Vec<u8>, usize), DecodeError>)
    requires
        pos <= src@.len(),
    ensures
        match r {
            Ok((v, p)) => {
                &&& pos <= p <= src@.len()
                &&& spec_take_bytes(src@.skip(pos as int)) == Some((v@, src@.skip(p as int)))
            },
            Err(e) => {
                &&& spec_take_bytes(src@.skip(pos as int)) is None
                &&& e == DecodeError::BufferTooShort
            },
        },
{
    let (n, p1) = match get_u32(src, pos) {
        Ok(v) => v,
        Err(e) => { return Err(e); },
    };
    if ((src.len() - p1) as u64) < n as u64 {
        return Err(DecodeError::BufferTooShort);
    }
    let end: usize = p1 + n as usize;
    let bytes = copy_range(src, p1, end);
    proof {
        assert(bytes@ =~= src@.skip(p1 as int).take(n as int));
        assert(src@.skip(p1 as int).skip(n as int) =~= src@.skip(end as int));
    }
    Ok((bytes, end))
}

pub fn put_u32_len_vec(dst: &mut Vec<u8>, value: &[u8]) -> (r: Result<(), EncodeError>)
    ensures
        match r {
            Ok(()) => bytes_encodable(value@) && final(dst)@ == old(dst)@ + enc_bytes(value@),
            Err(e) => !bytes_encodable(value@) && final(dst)@ == old(dst)@,
        },
{
    if (value.len() as u64) > 0xFFFFFFFF {
        return Err(EncodeError);
    }
    let mut bytes = vstd::slice::slice_to_vec(value);
    put_u32(dst, value.len() as u32);
    dst.append(&mut bytes);
    proof {
        assert(final(dst)@ =~= old(dst)@ + enc_bytes(value@));
    }
    Ok(())
}

// ---------------------------------------------------------------------------
// Client ids: 16 raw bytes, read as two big-endian u64 halves.
// ---------------------------------------------------------------------------

pub open spec fn enc_client_id(c: ClientId) -> Seq<u8> {
    u64_be(c.hi) + u64_be(c.lo)
}

pub open spec fn spec_take_client_id(b: Seq<u8>) -> Option<(ClientId, Seq<u8>)> {
    match spec_take_u64(b) {
        None => None,
        Some((hi, rest)) => match spec_take_u64(rest) {
            None => None,
            Some((lo, rest2)) => Some((ClientId { hi, lo }, rest2)),
        },
    }
}

pub proof fn lemma_take_client_id_enc(c: ClientId, rest: Seq<u8>)
    ensures
        spec_take_client_id(enc_client_id(c) + rest) == Some((c, rest)),
{
    assert(enc_client_id(c) + rest =~= u64_be(c.hi) + (u64_be(c.lo) + rest));
    lemma_take_u64_be(c.hi, u64_be(c.lo) + rest);
    lemma_take_u64_be(c.lo, rest);
}

pub fn get_uuid(src: &Vec<u8>, pos: usize) -> (r: Result<(ClientId, usize), DecodeError>)
    requires
        pos <= src@.len(),
    ensures
        match r {
            Ok((c, p)) => {
                &&& pos <= p <= src@.len()
                &&& spec_take_client_id(src@.skip(pos as int)) == Some((c, src@.skip(p as int)))
            },
            Err(e) => {
                &&& spec_take_client_id(src@.skip(pos as int)) is None
                &&& e == DecodeError::BufferTooShort
            },
        },
{
    let (hi, p1) = match get_u64(src, pos) {
        Ok(v) => v,
        Err(e) => { return Err(e); },
    };
    let (lo, p2) = match get_u64(src, p1) {
        Ok(v) => v,
        Err(e) => { return Err(e); },
    };
    Ok((ClientId { hi, lo }, p2))
}

pub fn put_uuid(dst: &mut Vec<u8>, c: ClientId)
    ensures
        final(dst)@ == old(dst)@ + enc_client_id(c),
{
    put_u64(dst, c.hi);
    put_u64(dst, c.lo);
    proof {
        assert(final(dst)@ =~= old(dst)@ + enc_client_id(c));
    }
}

// ---------------------------------------------------------------------------
// Optional u64: a one-byte presence flag (zero means absent), then the
// value when present. The encoder writes 1 for present; the decoder accepts
// any non-zero flag.
// ---------------------------------------------------------------------------

pub open spec fn enc_u64_option(v: Option<u64>) -> Seq<u8> {
    match v {
        None => seq![0u8],
        Some(x) => seq![1u8] + u64_be(x),
    }
}

pub open spec fn spec_take_u64_option(b: Seq<u8>) -> Option<(Option<u64>, Seq<u8>)> {
    if b.len() < 1 {
        None
    } else if b[0] == 0 {
        Some((None, b.skip(1)))
    } else {
        match spec_take_u64(b.skip(1)) {
            None => None,
            Some((x, rest)) => Some((Some(x), rest)),
        }
    }
}

pub proof fn lemma_take_u64_option_enc(v: Option<u64>, rest: Seq<u8>)
    ensures
        spec_take_u64_option(enc_u64_option(v) + rest) == Some((v, rest)),
{
    match v {
        None => {
            assert((enc_u64_option(v) + rest).skip(1) =~= rest);
        },
        Some(x) => {
            assert((enc_u64_option(v) + rest).skip(1) =~= u64_be(x) + rest);
            lemma_take_u64_be(x, rest);
        },
    }
}

pub fn get_u64_option(src: &Vec<u8>, pos: usize) -> (r: Result<(Option<u64>, usize), DecodeError>)
    requires
        pos <= src@.len(),
    ensures
        match r {
            Ok((v, p)) => {
                &&& pos <= p <= src@.len()
                &&& spec_take_u64_option(src@.skip(pos as int)) == Some((v, src@.skip(p as int)))
            },
            Err(e) => {
                &&& spec_take_u64_option(src@.skip(pos as int)) is None
                &&& e == DecodeError::BufferTooShort
            },
        },
{
    let (flag, p1) = match get_u8(src, pos) {
        Ok(v) => v,
        Err(e) => { return Err(e); },
    };
    proof {
        assert(src@.skip(pos as int).skip(1) =~= src@.skip(p1 as int));
    }
    if flag == 0 {
        Ok((None, p1))
    } else {
        match get_u64(src, p1) {
            Ok((x, p2)) => Ok((Some(x), p2)),
            Err(e) => Err(e),
        }
    }
}

pub fn put_u64_option(dst: &mut Vec<u8>, value: Option<u64>)
    ensures
        final(dst)@ == old(dst)@ + enc_u64_option(value),
{
    match value {
        Some(x) => {
            dst.push(1);
            put_u64(dst, x);
        },
        None => {
            dst.push(0);
        },
    }
    proof {
        assert(final(dst)@ =~= old(dst)@ + enc_u64_option(value));
    }
}

// ---------------------------------------------------------------------------
// Small executable helpers shared by the codecs.
// ---------------------------------------------------------------------------

/// Removes the first `n` bytes of `v`.
pub(crate) fn drop_prefix(v: &mut Vec<u8>, n: usize)
    requires
        n <= old(v)@.len(),
    ensures
        final(v)@ == old(v)@.skip(n as int),
{
    let mut out: Vec<u8> = Vec::new();
    let mut i: usize = n;
    while i < v.len()
        invariant
            n <= i <= v@.len(),
            v@ == old(v)@,
            out@ == v@.subrange(n as int, i as int),
        decreases v@.len() - i,
    {
        out.push(v[i]);
        proof {
            assert(out@ =~= v@.subrange(n as int, i + 1 as int));
        }
        i = i + 1;
    }
    proof {
        assert(out@ =~= old(v)@.skip(n as int));
    }
    *v = out;
}

/// String equality, decided on the character sequences.
pub(crate) fn eq_string(a: &String, b: &String) -> (r: bool)
    ensures
        r == (a@ == b@),
{
    a.eq(b)
}

/// Byte-vector equality.
pub(crate) fn eq_bytes(a: &Vec<u8>, b: &Vec<u8>) -> (r: bool)
    ensures
        r == (a@ == b@),
{
    if a.len() != b.len() {
        return false;
    }
    let mut i: usize = 0;
    while i < a.len()
        invariant
            a@.len() == b@.len(),
            i <= a@.len(),
            forall|j: int| 0 <= j < i ==> a@[j] == b@[j],
        decreases a@.len() - i,
    {
        if a[i] != b[i] {
            return false;
        }
        i = i + 1;
    }
    proof {
        assert(a@ =~= b@);
    }
    true
}

// ---------------------------------------------------------------------------
// String lists: a big-endian u16 count, then that many length-prefixed
// strings.
// ---------------------------------------------------------------------------

/// The views of a vector of strings.
pub open spec fn string_views(v: Seq<String>) -> Seq<Seq<char>> {
    v.map_values(|s: String| s@)
}

pub open spec fn strings_encodable(ts: Seq<Seq<char>>) -> bool {
    &&& ts.len() <= 0xFFFF
    &&& forall|i: int| 0 <= i < ts.len() ==> str_encodable(#[trigger] ts[i])
}

pub open spec fn enc_strings_body(ts: Seq<Seq<char>>) -> Seq<u8>
    decreases ts.len(),
{
    if ts.len() == 0 {
        Seq::<u8>::empty()
    } else {
        enc_str(ts[0]) + enc_strings_body(ts.drop_first())
    }
}

pub open spec fn enc_string_vec(ts: Seq<Seq<char>>) -> Seq<u8> {
    u16_be(ts.len() as u16) + enc_strings_body(ts)
}

pub open spec fn spec_take_n_strings(b: Seq<u8>, n: nat) -> Option<(Seq<Seq<char>>, Seq<u8>)>
    decreases n,
{
    if n == 0 {
        Some((Seq::<Seq<char>>::empty(), b))
    } else {
        match spec_take_string(b) {
            None => None,
            Some((s, rest)) => match spec_take_n_strings(rest, (n - 1) as nat) {
                None => None,
                Some((ss, rest2)) => Some((seq![s] + ss, rest2)),
            },
        }
    }
}

pub open spec fn spec_take_string_vec(b: Seq<u8>) -> Option<(Seq<Seq<char>>, Seq<u8>)> {
    match spec_take_u16(b) {
        None => None,
        Some((n, rest)) => spec_take_n_strings(rest, n as nat),
    }
}

pub proof fn lemma_take_n_strings_enc(ts: Seq<Seq<char>>, rest: Seq<u8>)
    requires
        forall|i: int| 0 <= i < ts.len() ==> str_encodable(#[trigger] ts[i]),
    ensures
        spec_take_n_strings(enc_strings_body(ts) + rest, ts.len()) == Some((ts, rest)),
    decreases ts.len(),
{
    if ts.len() == 0 {
        assert(enc_strings_body(ts) + rest =~= rest);
        assert(Seq::<Seq<char>>::empty() =~= ts);
    } else {
        let tail = ts.drop_first();
        assert(enc_strings_body(ts) + rest =~= enc_str(ts[0]) + (enc_strings_body(tail) + rest));
        lemma_take_string_enc(ts[0], enc_strings_body(tail) + rest);
        lemma_take_n_strings_enc(tail, rest);
        assert(seq![ts[0]] + tail =~= ts);
    }
}

pub proof fn lemma_take_string_vec_enc(ts: Seq<Seq<char>>, rest: Seq<u8>)
    requires
        strings_encodable(ts),
    ensures
        spec_take_string_vec(enc_string_vec(ts) + rest) == Some((ts, rest)),
{
    let n = ts.len() as u16;
    assert(enc_string_vec(ts) + rest =~= u16_be(n) + (enc_strings_body(ts) + rest));
    lemma_take_u16_be(n, enc_strings_body(ts) + rest);
    lemma_take_n_strings_enc(ts, rest);
}

/// One step of `enc_strings_body`, unfolded at the right end; used when a
/// loop emits the strings first to last.
pub proof fn lemma_enc_strings_body_snoc(ts: Seq<Seq<char>>, i: int)
    requires
        0 <= i < ts.len(),
    ensures
        enc_strings_body(ts.take(i + 1)) == enc_strings_body(ts.take(i)) + enc_str(ts[i]),
    decreases i,
{
    if i == 0 {
        assert(ts.take(1).drop_first() =~= Seq::<Seq<char>>::empty());
        assert(ts.take(1)[0] == ts[0]);
        assert(enc_strings_body(ts.take(1))
            == enc_str(ts.take(1)[0]) + enc_strings_body(ts.take(1).drop_first()));
        assert(enc_strings_body(ts.take(1)) =~= enc_str(ts[0]));
        assert(enc_strings_body(ts.take(0)) + enc_str(ts[0]) =~= enc_str(ts[0]));
    } else {
        let t1 = ts.drop_first();
        assert(ts.take(i + 1).drop_first() =~= t1.take(i));
        assert(ts.take(i).drop_first() =~= t1.take(i - 1));
        lemma_enc_strings_body_snoc(t1, i - 1);
        assert(ts.take(i + 1)[0] == ts[0]);
        assert(ts.take(i)[0] == ts[0]);
        assert(enc_strings_body(ts.take(i + 1)) =~= enc_str(ts[0]) + enc_strings_body(t1.take(i)));
        assert(enc_strings_body(ts.take(i)) =~= enc_str(ts[0]) + enc_strings_body(t1.take(i - 1)));
        assert(t1[i - 1] == ts[i]);
        assert(enc_strings_body(ts.take(i + 1)) =~= enc_strings_body(ts.take(i)) + enc_str(ts[i]));
    }
}

pub fn get_vec_of_strings(src: &Vec<u8>, pos: usize) -> (r: Result<(Vec<String>, usize), DecodeError>)
    requires
        pos <= src@.len(),
    ensures
        match r {
            Ok((v, p)) => {
                &&& pos <= p <= src@.len()
                &&& spec_take_string_vec(src@.skip(pos as int))
                    == Some((string_views(v@), src@.skip(p as int)))
            },
            Err(e) => spec_take_string_vec(src@.skip(pos as int)) is None,
        },
{
    let (n, p1) = match get_u16(src, pos) {
        Ok(v) => v,
        Err(e) => { return Err(e); },
    };
    let mut values: Vec<String> = Vec::new();
    let mut p: usize = p1;
    let mut i: usize = 0;
    while i < n as usize
        invariant
            i <= n,
            pos <= p <= src@.len(),
            values@.len() == i,
            spec_take_u16(src@.skip(pos as int)) == Some((n, src@.skip(p1 as int))),
            match spec_take_n_strings(src@.skip(p as int), (n - i) as nat) {
                None => spec_take_n_strings(src@.skip(p1 as int), n as nat) is None,
                Some((ss, r2)) => spec_take_n_strings(src@.skip(p1 as int), n as nat)
                    == Some::<(Seq<Seq<char>>, Seq<u8>)>((string_views(values@) + ss, r2)),
            },
        decreases n - i,
    {
        let ghost pre = src@.skip(p as int);
        let (s, p2) = match get_u16_as_string(src, p) {
            Ok(v) => v,
            Err(e) => { return Err(e); },
        };
        values.push(s);
        proof {
            assert(string_views(values@) =~= string_views(values@.drop_last()) + seq![s@]);
            match spec_take_n_strings(src@.skip(p2 as int), (n - i - 1) as nat) {
                None => {
                    assert(spec_take_n_strings(pre, (n - i) as nat) is None);
                },
                Some((ss, r2)) => {
                    assert(spec_take_n_strings(pre, (n - i) as nat)
                        == Some::<(Seq<Seq<char>>, Seq<u8>)>((seq![s@] + ss, r2)));
                    assert(string_views(values@.drop_last()) + (seq![s@] + ss)
                        =~= string_views(values@) + ss);
                },
            }
        }
        p = p2;
        i = i + 1;
    }
    proof {
        assert(spec_take_n_strings(src@.skip(p as int), 0) ==
            Some::<(Seq<Seq<char>>, Seq<u8>)>((Seq::<Seq<char>>::empty(), src@.skip(p as int))));
        assert(string_views(values@) + Seq::<Seq<char>>::empty() =~= string_views(values@));
    }
    Ok((values, p))
}

pub fn put_vec_of_strings(dst: &mut Vec<u8>, values: &[String]) -> (r: Result<(), EncodeError>)
    ensures
        match r {
            Ok(()) => strings_encodable(string_views(values@))
                && final(dst)@ == old(dst)@ + enc_string_vec(string_views(values@)),
            Err(e) => !strings_encodable(string_views(values@)) && final(dst)@ == old(dst)@,
        },
{
    let ghost ts = string_views(values@);
    if values.len() > 0xFFFF {
        return Err(EncodeError);
    }
    let mut tmp: Vec<u8> = Vec::new();
    put_u16(&mut tmp, values.len() as u16);
    let mut i: usize = 0;
    while i < values.len()
        invariant
            i <= values@.len() <= 0xFFFF,
            ts == string_views(values@),
            tmp@ == u16_be(values@.len() as u16) + enc_strings_body(ts.take(i as int)),
            forall|j: int| 0 <= j < i ==> str_encodable(#[trigger] ts[j]),
        decreases values@.len() - i,
    {
        let s: &String = vstd::slice::slice_index_get(values, i);
        match put_u16_len_string(&mut tmp, s.as_str()) {
            Ok(()) => {},
            Err(e) => {
                proof {
                    assert(!str_encodable(ts[i as int]));
                }
                return Err(EncodeError);
            },
        }
        proof {
            lemma_enc_strings_body_snoc(ts, i as int);
            assert(tmp@ =~= u16_be(values@.len() as u16) + enc_strings_body(ts.take(i + 1 as int)));
        }
        i = i + 1;
    }
    proof {
        assert(ts.take(values@.len() as int) =~= ts);
    }
    dst.append(&mut tmp);
    proof {
        assert(final(dst)@ =~= old(dst)@ + enc_string_vec(ts));
    }
    Ok(())
}

pub(crate) fn put_u16(dst: &mut Vec<u8>, v: u16)
    ensures
        final(dst)@ == old(dst)@ + u16_be(v),
{
    dst.push((v / 256) as u8);
    dst.push((v % 256) as u8);
    proof {
        assert(final(dst)@ =~= old(dst)@ + u16_be(v));
    }
}

pub(crate) fn put_u32(dst: &mut Vec<u8>, v: u32)
    ensures
        final(dst)@ == old(dst)@ + u32_be(v),
{
    put_u16(dst, (v / 0x10000) as u16);
    put_u16(dst, (v % 0x10000) as u16);
    proof {
        assert(final(dst)@ =~= old(dst)@ + u32_be(v));
    }
}

pub(crate) fn put_u64(dst: &mut Vec<u8>, v: u64)
    ensures
        final(dst)@ == old(dst)@ + u64_be(v),
{
    put_u32(dst, (v / 0x100000000) as u32);
    put_u32(dst, (v % 0x100000000) as u32);
    proof {
        assert(final(dst)@ =~= old(dst)@ + u64_be(v));
    }
}

} // verus!
