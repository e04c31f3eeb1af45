//! The primitives of the binary layout: little-endian integers and
//! length-prefixed byte fields.

use vstd::arithmetic::div_mod::{
    lemma_fundamental_div_mod, lemma_fundamental_div_mod_converse, lemma_mod_bound,
};
use vstd::prelude::*;
use vstd::slice::{slice_subrange, slice_to_vec};
use vstd::utf8::{decode_utf8, encode_utf8, valid_utf8};

verus! {

/// The four bytes of `v`, least significant first.
pub open spec fn u32_le(v: u32) -> Seq<u8> {
    seq![
        (v % 256) as u8,
        (v / 256 % 256) as u8,
        (v / 256 / 256 % 256) as u8,
        (v / 256 / 256 / 256) as u8,
    ]
}

/// The number that four little-endian bytes stand for.
pub open spec fn u32_from_le(b: Seq<u8>) -> u32
    recommends
        b.len() == 4,
{
    (b[0] as int + 256 * (b[1] as int + 256 * (b[2] as int + 256 * (b[3] as int)))) as u32
}

/// The eight bytes of `v`, least significant first.
pub open spec fn u64_le(v: u64) -> Seq<u8> {
    u32_le((v % 4294967296) as u32) + u32_le((v / 4294967296) as u32)
}

/// The number that eight little-endian bytes stand for.
pub open spec fn u64_from_le(b: Seq<u8>) -> u64
    recommends
        b.len() == 8,
{
    (u32_from_le(b.subrange(0, 4)) as int + 4294967296 * (u32_from_le(b.subrange(4, 8)) as int))
        as u64
}

/// Reading back what `u32_le` wrote gives the number again.
pub proof fn lemma_u32_round_trip(v: u32)
    ensures
        u32_le(v).len() == 4,
        u32_from_le(u32_le(v)) == v,
{
    let q1 = v as int / 256;
    let q2 = q1 / 256;
    let q3 = q2 / 256;
    lemma_fundamental_div_mod(v as int, 256);
    lemma_fundamental_div_mod(q1, 256);
    lemma_fundamental_div_mod(q2, 256);
    lemma_mod_bound(v as int, 256);
    lemma_mod_bound(q1, 256);
    lemma_mod_bound(q2, 256);
    assert(0 <= q3 < 256);
    let b = u32_le(v);
    assert(b[0] as int == v as int % 256);
    assert(b[1] as int == q1 % 256);
    assert(b[2] as int == q2 % 256);
    assert(b[3] as int == q3);
}

/// Four bytes are the little-endian form of the number they stand for.
pub proof fn lemma_u32_bytes_round_trip(b: Seq<u8>)
    requires
        b.len() == 4,
    ensures
        u32_le(u32_from_le(b)) == b,
{
    let t2 = b[2] as int + 256 * (b[3] as int);
    let t1 = b[1] as int + 256 * t2;
    let t0 = b[0] as int + 256 * t1;
    lemma_fundamental_div_mod_converse(t0, 256, t1, b[0] as int);
    lemma_fundamental_div_mod_converse(t1, 256, t2, b[1] as int);
    lemma_fundamental_div_mod_converse(t2, 256, b[3] as int, b[2] as int);
    let v = u32_from_le(b);
    assert(v as int == t0);
    let w = u32_le(v);
    assert(w[0] == b[0]);
    assert(w[1] == b[1]);
    assert(w[2] == b[2]);
    assert(w[3] == b[3]);
    assert(w =~= b);
}

/// Reading back what `u64_le` wrote gives the number again.
pub proof fn lemma_u64_round_trip(v: u64)
    ensures
        u64_le(v).len() == 8,
        u64_from_le(u64_le(v)) == v,
{
    let lo = (v % 4294967296) as u32;
    let hi = (v / 4294967296) as u32;
    lemma_u32_round_trip(lo);
    lemma_u32_round_trip(hi);
    assert(u64_le(v).subrange(0, 4) =~= u32_le(lo));
    assert(u64_le(v).subrange(4, 8) =~= u32_le(hi));
    lemma_fundamental_div_mod(v as int, 4294967296);
    lemma_mod_bound(v as int, 4294967296);
}

/// Eight bytes are the little-endian form of the number they stand for.
pub proof fn lemma_u64_bytes_round_trip(b: Seq<u8>)
    requires
        b.len() == 8,
    ensures
        u64_le(u64_from_le(b)) == b,
{
    let lo = b.subrange(0, 4);
    let hi = b.subrange(4, 8);
    lemma_u32_bytes_round_trip(lo);
    lemma_u32_bytes_round_trip(hi);
    let l = u32_from_le(lo) as int;
    let h = u32_from_le(hi) as int;
    let v = u64_from_le(b);
    assert(v as int == l + 4294967296 * h);
    lemma_fundamental_div_mod_converse(v as int, 4294967296, h, l);
    assert(u64_le(v) == u32_le(u32_from_le(lo)) + u32_le(u32_from_le(hi)));
    assert(lo + hi =~= b);
}

/// Appends the little-endian form of `v` to `out`.
pub(crate) fn put_u32(out: &mut Vec<u8>, v: u32)
    ensures
        final(out)@ == old(out)@ + u32_le(v),
{
    out.push((v % 256) as u8);
    out.push((v / 256 % 256) as u8);
    out.push((v / 256 / 256 % 256) as u8);
    out.push((v / 256 / 256 / 256) as u8);
    assert(out@ =~= old(out)@ + u32_le(v));
}

/// Appends the little-endian form of `v` to `out`.
pub(crate) fn put_u64(out: &mut Vec<u8>, v: u64)
    ensures
        final(out)@ == old(out)@ + u64_le(v),
{
    put_u32(out, (v % 4294967296) as u32);
    put_u32(out, (v / 4294967296) as u32);
    assert(out@ =~= old(out)@ + u64_le(v));
}

/// Reads the little-endian number in the four bytes of `input` from `at` on.
pub(crate) fn get_u32(input: &[u8], at: usize) -> (v: u32)
    requires
        at + 4 <= input.len(),
    ensures
        v == u32_from_le(input@.subrange(at as int, at + 4)),
{
    let b0: u32 = input[at] as u32;
    let b1: u32 = input[at + 1] as u32;
    let b2: u32 = input[at + 2] as u32;
    let b3: u32 = input[at + 3] as u32;
    b0 + 256 * (b1 + 256 * (b2 + 256 * b3))
}

/// Reads the little-endian number in the eight bytes of `input` from `at` on.
pub(crate) fn get_u64(input: &[u8], at: usize) -> (v: u64)
    requires
        at + 8 <= input.len(),
    ensures
        v == u64_from_le(input@.subrange(at as int, at + 8)),
{
    let lo: u64 = get_u32(input, at) as u64;
    let hi: u64 = get_u32(input, at + 4) as u64;
    proof {
        let b = input@.subrange(at as int, at + 8);
        assert(b.subrange(0, 4) =~= input@.subrange(at as int, at + 4));
        assert(b.subrange(4, 8) =~= input@.subrange(at + 4, at + 8));
    }
    lo + 4294967296 * hi
}

/// Whether a payload is short enough for its length to stand in four bytes.
pub open spec fn fits(payload: Seq<u8>) -> bool {
    payload.len() <= u32::MAX
}

/// A variable-length field: the payload's length in four little-endian
/// bytes, then the payload.
pub open spec fn field(payload: Seq<u8>) -> Seq<u8> {
    u32_le(payload.len() as u32) + payload
}

/// Where the field that starts at `at` ends, if `s` holds a whole field there.
pub open spec fn field_end(s: Seq<u8>, at: int) -> Option<int> {
    if 0 <= at && at + 4 <= s.len() && at + 4 + u32_from_le(s.subrange(at, at + 4)) <= s.len() {
        Some(at + 4 + u32_from_le(s.subrange(at, at + 4)))
    } else {
        None
    }
}

/// A field written at `at` is found again, with its payload and what follows it.
pub proof fn lemma_field_written(s: Seq<u8>, at: int, payload: Seq<u8>, rest: Seq<u8>)
    requires
        0 <= at <= s.len(),
        fits(payload),
        s.skip(at) == field(payload) + rest,
    ensures
        field_end(s, at) == Some(at + 4 + payload.len()),
        s.subrange(at + 4, at + 4 + payload.len()) == payload,
        s.skip(at + 4 + payload.len()) == rest,
{
    let tail = s.skip(at);
    let n = payload.len() as int;
    lemma_u32_round_trip(payload.len() as u32);
    assert(tail.len() == 4 + n + rest.len());
    let head = s.subrange(at, at + 4);
    let body = s.subrange(at + 4, at + 4 + n);
    let after = s.skip(at + 4 + n);
    assert forall|i: int| 0 <= i < 4 implies #[trigger] head[i] == tail[i] by {}
    assert(head =~= u32_le(payload.len() as u32));
    assert forall|i: int| 0 <= i < n implies #[trigger] body[i] == payload[i] by {
        assert(body[i] == tail[4 + i]);
    }
    assert(body =~= payload);
    assert forall|i: int| 0 <= i < rest.len() implies #[trigger] after[i] == rest[i] by {
        assert(after[i] == tail[4 + n + i]);
    }
    assert(after =~= rest);
}

/// A field found at `at` is the written form of the payload that it frames.
pub proof fn lemma_field_found(s: Seq<u8>, at: int)
    requires
        field_end(s, at) is Some,
    ensures
        at + 4 <= field_end(s, at)->0 <= s.len(),
        fits(s.subrange(at + 4, field_end(s, at)->0)),
        s.skip(at) == field(s.subrange(at + 4, field_end(s, at)->0)) + s.skip(field_end(s, at)->0),
{
    let end = field_end(s, at)->0;
    let payload = s.subrange(at + 4, end);
    lemma_u32_bytes_round_trip(s.subrange(at, at + 4));
    assert(s.skip(at) =~= field(payload) + s.skip(end));
}

/// Appends `bytes` to `out` as they are.
pub(crate) fn put_bytes(out: &mut Vec<u8>, bytes: &[u8])
    ensures
        final(out)@ == old(out)@ + bytes@,
{
    let mut i: usize = 0;
    while i < bytes.len()
        invariant
            i <= bytes.len(),
            out@ == old(out)@ + bytes@.subrange(0, i as int),
        decreases bytes.len() - i,
    {
        out.push(bytes[i]);
        i += 1;
        assert(out@ =~= old(out)@ + bytes@.subrange(0, i as int));
    }
    assert(out@ =~= old(out)@ + bytes@);
}

/// Appends `payload` to `out` as a field.
pub(crate) fn put_field(out: &mut Vec<u8>, payload: &[u8])
    requires
        fits(payload@),
    ensures
        final(out)@ == old(out)@ + field(payload@),
{
    put_u32(out, payload.len() as u32);
    put_bytes(out, payload);
    assert(out@ =~= old(out)@ + field(payload@));
}

/// Reads the thirty-two bytes of an address from `at` on.
pub(crate) fn take_address(input: &[u8], at: usize) -> (address: [u8; 32])
    requires
        at + 32 <= input.len(),
    ensures
        address@ == input@.subrange(at as int, at + 32),
{
    let mut address = [0u8; 32];
    let mut i: usize = 0;
    while i < 32
        invariant
            i <= 32,
            at + 32 <= input.len(),
            forall|j: int| 0 <= j < i ==> address@[j] == input@[at + j],
        decreases 32 - i,
    {
        address[i] = input[at + i];
        i += 1;
    }
    assert(address@ =~= input@.subrange(at as int, at + 32));
    address
}

/// Whether two addresses are the same.
pub(crate) fn same_address(a: &[u8; 32], b: &[u8; 32]) -> (same: bool)
    ensures
        same == (a@ == b@),
{
    let mut i: usize = 0;
    while i < 32
        invariant
            i <= 32,
            forall|j: int| 0 <= j < i ==> a@[j] == b@[j],
        decreases 32 - i,
    {
        if a[i] != b[i] {
            return false;
        }
        i += 1;
    }
    assert(a@ =~= b@);
    true
}

/// Finds the end of the field that starts at `at`: `None` where the length
/// prefix is cut short or points past the end of `input`.
pub(crate) fn take_field(input: &[u8], at: usize) -> (end: Option<usize>)
    requires
        at <= input.len(),
    ensures
        match end {
            Some(e) => field_end(input@, at as int) == Some(e as int),
            None => field_end(input@, at as int) is None,
        },
{
    let left = input.len() - at;
    if left < 4 {
        return None;
    }
    let n = get_u32(input, at);
    if (n as u64) > ((left - 4) as u64) {
        return None;
    }
    Some(at + 4 + n as usize)
}

/// The UTF-8 bytes of a text.
pub open spec fn text_bytes(text: Seq<char>) -> Seq<u8> {
    encode_utf8(text)
}

/// Validates `bytes` as UTF-8 with `String::from_utf8` of the standard
/// library. Assumed, not proved: the call gives a string exactly when the
/// bytes are well-formed UTF-8, and the string then holds the characters
/// that the bytes encode.
#[verifier::external_body]
pub(crate) fn string_from_utf8(bytes: Vec<u8>) -> (text: Option<String>)
    ensures
        text is Some <==> valid_utf8(bytes@),
        text matches Some(t) ==> t@ == decode_utf8(bytes@),
{
    match String::from_utf8(bytes) {
        Ok(t) => Some(t),
        Err(_) => None,
    }
}

/// Copies the bytes of `input` from `start` up to `end`.
pub(crate) fn copy_range(input: &[u8], start: usize, end: usize) -> (out: Vec<u8>)
    requires
        start <= end <= input.len(),
    ensures
        out@ == input@.subrange(start as int, end as int),
{
    slice_to_vec(slice_subrange(input, start, end))
}

/// Reads the payload between `start` and `end` as a text: `None` where the
/// bytes are not well-formed UTF-8.
pub(crate) fn take_text(input: &[u8], start: usize, end: usize) -> (text: Option<String>)
    requires
        start <= end <= input.len(),
    ensures
        text is Some <==> valid_utf8(input@.subrange(start as int, end as int)),
        text matches Some(t) ==> t@ == decode_utf8(input@.subrange(start as int, end as int)),
        text matches Some(t) ==> text_bytes(t@) == input@.subrange(start as int, end as int),
{
    let text = string_from_utf8(copy_range(input, start, end));
    proof {
        if text is Some {
            vstd::utf8::decode_utf8_encode_utf8(input@.subrange(start as int, end as int));
        }
    }
    text
}

/// Appends `text` to `out` as a field of its UTF-8 bytes.
pub(crate) fn put_text(out: &mut Vec<u8>, text: &str)
    requires
        fits(text_bytes(text@)),
    ensures
        final(out)@ == old(out)@ + field(text_bytes(text@)),
{
    put_field(out, text.as_bytes());
}

} // verus!
