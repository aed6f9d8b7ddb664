//! The byte strings that signatures cover: the CBOR encoding (RFC 8949) of the
//! signed values, in the shape their wire form takes.
//!
//! A record is a map from field names (text) to field values, in declaration
//! order; an enum variant with fields is a one-entry map from the variant name
//! to such a record; identifiers and hashes are unsigned integers; text is a
//! text string; keys are byte strings; lists are arrays; an absent optional
//! value is `null`; a timestamp is its RFC 3339 text. Every head uses the
//! shortest form for its argument.

use vstd::prelude::*;
use crate::util::{rfc3339_text, spec_rfc3339, Timestamp};

verus! {

/// Byte `shift / 8` (from the least significant end) of `n`.
pub open spec fn be_byte(n: u64, shift: u64) -> u8 {
    ((n >> shift) & 0xff) as u8
}

/// The head of a data item: major type `major` with argument `n`, shortest form.
pub open spec fn cbor_head(major: u8, n: u64) -> Seq<u8> {
    let m = (major as u64) * 32;
    if n <= 23 {
        seq![(m + n) as u8]
    } else if n <= 0xff {
        seq![(m + 24) as u8, n as u8]
    } else if n <= 0xffff {
        seq![(m + 25) as u8, be_byte(n, 8), be_byte(n, 0)]
    } else if n <= 0xffff_ffff {
        seq![(m + 26) as u8, be_byte(n, 24), be_byte(n, 16), be_byte(n, 8), be_byte(n, 0)]
    } else {
        seq![
            (m + 27) as u8,
            be_byte(n, 56),
            be_byte(n, 48),
            be_byte(n, 40),
            be_byte(n, 32),
            be_byte(n, 24),
            be_byte(n, 16),
            be_byte(n, 8),
            be_byte(n, 0),
        ]
    }
}

/// An unsigned integer.
pub open spec fn cbor_uint(n: u64) -> Seq<u8> {
    cbor_head(0, n)
}

/// A byte string.
pub open spec fn cbor_byte_string(b: Seq<u8>) -> Seq<u8> {
    cbor_head(2, b.len() as u64) + b
}

/// A text string: its UTF-8 bytes.
pub open spec fn cbor_text(s: Seq<char>) -> Seq<u8> {
    cbor_head(3, vstd::utf8::encode_utf8(s).len() as u64) + vstd::utf8::encode_utf8(s)
}

/// The head of an array of `n` items.
pub open spec fn cbor_array(n: nat) -> Seq<u8> {
    cbor_head(4, n as u64)
}

/// The head of a map of `n` entries.
pub open spec fn cbor_map(n: nat) -> Seq<u8> {
    cbor_head(5, n as u64)
}

/// `null`.
pub open spec fn cbor_null() -> Seq<u8> {
    seq![0xf6u8]
}

/// An optional unsigned integer: the integer, or `null`.
pub open spec fn cbor_opt_uint(x: Option<u64>) -> Seq<u8> {
    match x {
        Some(v) => cbor_uint(v),
        None => cbor_null(),
    }
}

/// An optional text: the text, or `null`.
pub open spec fn cbor_opt_text(x: Option<Seq<char>>) -> Seq<u8> {
    match x {
        Some(t) => cbor_text(t),
        None => cbor_null(),
    }
}

/// A timestamp: its RFC 3339 text, or `null` for a value that has no calendar form.
pub open spec fn cbor_timestamp(t: Timestamp) -> Seq<u8> {
    match spec_rfc3339(t.secs, t.nanos) {
        Some(s) => cbor_text(s),
        None => cbor_null(),
    }
}

/// Appends the head of a data item.
pub fn push_head(out: &mut Vec<u8>, major: u8, n: u64)
    requires
        major < 8,
    ensures
        final(out)@ == old(out)@ + cbor_head(major, n),
{
    let m: u64 = (major as u64) * 32;
    if n <= 23 {
        out.push((m + n) as u8);
    } else if n <= 0xff {
        out.push((m + 24) as u8);
        out.push(n as u8);
    } else if n <= 0xffff {
        out.push((m + 25) as u8);
        out.push(((n >> 8u64) & 0xff) as u8);
        out.push(((n >> 0u64) & 0xff) as u8);
    } else if n <= 0xffff_ffff {
        out.push((m + 26) as u8);
        out.push(((n >> 24u64) & 0xff) as u8);
        out.push(((n >> 16u64) & 0xff) as u8);
        out.push(((n >> 8u64) & 0xff) as u8);
        out.push(((n >> 0u64) & 0xff) as u8);
    } else {
        out.push((m + 27) as u8);
        out.push(((n >> 56u64) & 0xff) as u8);
        out.push(((n >> 48u64) & 0xff) as u8);
        out.push(((n >> 40u64) & 0xff) as u8);
        out.push(((n >> 32u64) & 0xff) as u8);
        out.push(((n >> 24u64) & 0xff) as u8);
        out.push(((n >> 16u64) & 0xff) as u8);
        out.push(((n >> 8u64) & 0xff) as u8);
        out.push(((n >> 0u64) & 0xff) as u8);
    }
    assert(out@ =~= old(out)@ + cbor_head(major, n));
}

/// Appends an unsigned integer.
pub fn push_uint(out: &mut Vec<u8>, n: u64)
    ensures
        final(out)@ == old(out)@ + cbor_uint(n),
{
    push_head(out, 0, n);
}

/// Appends bytes as they are.
pub fn push_bytes(out: &mut Vec<u8>, b: &[u8])
    ensures
        final(out)@ == old(out)@ + b@,
{
    let mut i: usize = 0;
    while i < b.len()
        invariant
            i <= b@.len(),
            out@ == old(out)@ + b@.take(i as int),
        decreases b@.len() - i,
    {
        out.push(b[i]);
        i = i + 1;
        assert(out@ =~= old(out)@ + b@.take(i as int));
    }
    assert(b@.take(b@.len() as int) == b@);
}

/// Appends a byte string.
pub fn push_byte_string(out: &mut Vec<u8>, b: &[u8])
    ensures
        final(out)@ == old(out)@ + cbor_byte_string(b@),
{
    push_head(out, 2, b.len() as u64);
    push_bytes(out, b);
    assert(out@ =~= old(out)@ + cbor_byte_string(b@));
}

/// Appends a text string.
pub fn push_text(out: &mut Vec<u8>, s: &str)
    ensures
        final(out)@ == old(out)@ + cbor_text(s@),
{
    let b = s.as_bytes();
    push_head(out, 3, b.len() as u64);
    push_bytes(out, b);
    assert(out@ =~= old(out)@ + cbor_text(s@));
}

/// Appends the head of an array of `n` items.
pub fn push_array(out: &mut Vec<u8>, n: usize)
    ensures
        final(out)@ == old(out)@ + cbor_array(n as nat),
{
    push_head(out, 4, n as u64);
}

/// Appends the head of a map of `n` entries.
pub fn push_map(out: &mut Vec<u8>, n: usize)
    ensures
        final(out)@ == old(out)@ + cbor_map(n as nat),
{
    push_head(out, 5, n as u64);
}

/// Appends `null`.
pub fn push_null(out: &mut Vec<u8>)
    ensures
        final(out)@ == old(out)@ + cbor_null(),
{
    out.push(0xf6u8);
    assert(out@ =~= old(out)@ + cbor_null());
}

/// Appends an optional text.
pub fn push_opt_text(out: &mut Vec<u8>, x: &Option<String>)
    ensures
        final(out)@ == old(out)@ + cbor_opt_text(
            match x {
                Some(s) => Some(s@),
                None => None,
            },
        ),
{
    match x {
        Some(s) => push_text(out, s.as_str()),
        None => push_null(out),
    }
}

/// Appends a timestamp.
pub fn push_timestamp(out: &mut Vec<u8>, t: &Timestamp)
    ensures
        final(out)@ == old(out)@ + cbor_timestamp(*t),
{
    match rfc3339_text(t.secs, t.nanos) {
        Some(s) => push_text(out, s.as_str()),
        None => push_null(out),
    }
}

} // verus!
