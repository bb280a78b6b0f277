//! Byte-level primitives shared by the wire protocol and the registry
//! persistence format: fixed-width integers and length-prefixed frames.
//!
//! Length prefixes on the send path are 8-byte little-endian; the response
//! path of the daemon protocol frames with 8-byte big-endian prefixes. The
//! asymmetry is a fixed, bit-exact wire contract.

use vstd::prelude::*;

verus! {

/// The eight little-endian bytes of a 64-bit integer.
pub open spec fn le64(n: u64) -> Seq<u8> {
    seq![
        n as u8,
        (n >> 8) as u8,
        (n >> 16) as u8,
        (n >> 24) as u8,
        (n >> 32) as u8,
        (n >> 40) as u8,
        (n >> 48) as u8,
        (n >> 56) as u8,
    ]
}

/// The eight big-endian bytes of a 64-bit integer.
pub open spec fn be64(n: u64) -> Seq<u8> {
    seq![
        (n >> 56) as u8,
        (n >> 48) as u8,
        (n >> 40) as u8,
        (n >> 32) as u8,
        (n >> 24) as u8,
        (n >> 16) as u8,
        (n >> 8) as u8,
        n as u8,
    ]
}

/// The two little-endian bytes of a 16-bit integer.
pub open spec fn le16(n: u16) -> Seq<u8> {
    seq![n as u8, (n >> 8) as u8]
}

/// The integer read from eight little-endian bytes.
pub open spec fn le64_val(s: Seq<u8>) -> u64
    recommends
        s.len() == 8,
{
    (s[0] as u64) | ((s[1] as u64) << 8) | ((s[2] as u64) << 16) | ((s[3] as u64) << 24)
        | ((s[4] as u64) << 32) | ((s[5] as u64) << 40) | ((s[6] as u64) << 48) | (
    (s[7] as u64) << 56)
}

/// The integer read from eight big-endian bytes.
pub open spec fn be64_val(s: Seq<u8>) -> u64
    recommends
        s.len() == 8,
{
    ((s[0] as u64) << 56) | ((s[1] as u64) << 48) | ((s[2] as u64) << 40) | ((s[3] as u64) << 32)
        | ((s[4] as u64) << 24) | ((s[5] as u64) << 16) | ((s[6] as u64) << 8) | (s[7] as u64)
}

/// The integer read from two little-endian bytes.
pub open spec fn le16_val(s: Seq<u8>) -> u16
    recommends
        s.len() == 2,
{
    (s[0] as u16) | ((s[1] as u16) << 8)
}

/// Reading back the little-endian bytes of `n` gives `n`.
pub proof fn lemma_le64_round_trip(n: u64)
    ensures
        le64_val(le64(n)) == n,
{
    assert((n as u8) as u64 | (((n >> 8) as u8) as u64) << 8 | (((n >> 16) as u8) as u64) << 16
        | (((n >> 24) as u8) as u64) << 24 | (((n >> 32) as u8) as u64) << 32 | (((n
        >> 40) as u8) as u64) << 40 | (((n >> 48) as u8) as u64) << 48 | (((n >> 56) as u8) as u64)
        << 56 == n) by (bit_vector);
}

/// Reading back the big-endian bytes of `n` gives `n`.
pub proof fn lemma_be64_round_trip(n: u64)
    ensures
        be64_val(be64(n)) == n,
{
    assert((((n >> 56) as u8) as u64) << 56 | (((n >> 48) as u8) as u64) << 48 | (((n
        >> 40) as u8) as u64) << 40 | (((n >> 32) as u8) as u64) << 32 | (((n >> 24) as u8) as u64)
        << 24 | (((n >> 16) as u8) as u64) << 16 | (((n >> 8) as u8) as u64) << 8
        | (n as u8) as u64 == n) by (bit_vector);
}

/// Reading back the little-endian bytes of `n` gives `n`.
pub proof fn lemma_le16_round_trip(n: u16)
    ensures
        le16_val(le16(n)) == n,
{
    assert((n as u8) as u16 | (((n >> 8) as u8) as u16) << 8 == n) by (bit_vector);
}

/// Appends the eight little-endian bytes of `n`.
pub fn push_le64(out: &mut Vec<u8>, n: u64)
    ensures
        final(out)@ == old(out)@ + le64(n),
{
    out.push(#[verifier::truncate] (n as u8));
    out.push(#[verifier::truncate] ((n >> 8) as u8));
    out.push(#[verifier::truncate] ((n >> 16) as u8));
    out.push(#[verifier::truncate] ((n >> 24) as u8));
    out.push(#[verifier::truncate] ((n >> 32) as u8));
    out.push(#[verifier::truncate] ((n >> 40) as u8));
    out.push(#[verifier::truncate] ((n >> 48) as u8));
    out.push(#[verifier::truncate] ((n >> 56) as u8));
    proof {
        assert(out@ =~= old(out)@ + le64(n));
    }
}

/// Appends the two little-endian bytes of `n`.
pub fn push_le16(out: &mut Vec<u8>, n: u16)
    ensures
        final(out)@ == old(out)@ + le16(n),
{
    out.push(#[verifier::truncate] (n as u8));
    out.push(#[verifier::truncate] ((n >> 8) as u8));
    proof {
        assert(out@ =~= old(out)@ + le16(n));
    }
}

/// Reads the little-endian 64-bit integer at `i`.
pub fn read_le64(bytes: &Vec<u8>, i: usize) -> (r: u64)
    requires
        i + 8 <= bytes@.len(),
    ensures
        r == le64_val(bytes@.subrange(i as int, i + 8)),
{
    // Pins the view length to usize, so the offset sums below cannot overflow.
    let _n: usize = bytes.len();
    let r = (bytes[i] as u64) | ((bytes[i + 1] as u64) << 8u64) | ((bytes[i + 2] as u64) << 16u64)
        | ((bytes[i + 3] as u64) << 24u64) | ((bytes[i + 4] as u64) << 32u64) | ((bytes[i
        + 5] as u64) << 40u64) | ((bytes[i + 6] as u64) << 48u64) | ((bytes[i + 7] as u64)
        << 56u64);
    proof {
        let s = bytes@.subrange(i as int, i + 8);
        assert(s[0] == bytes@[i as int]);
        assert(s[1] == bytes@[i + 1]);
        assert(s[2] == bytes@[i + 2]);
        assert(s[3] == bytes@[i + 3]);
        assert(s[4] == bytes@[i + 4]);
        assert(s[5] == bytes@[i + 5]);
        assert(s[6] == bytes@[i + 6]);
        assert(s[7] == bytes@[i + 7]);
    }
    r
}

/// Reads the little-endian 16-bit integer at `i`.
pub fn read_le16(bytes: &Vec<u8>, i: usize) -> (r: u16)
    requires
        i + 2 <= bytes@.len(),
    ensures
        r == le16_val(bytes@.subrange(i as int, i + 2)),
{
    // Pins the view length to usize, so the offset sums below cannot overflow.
    let _n: usize = bytes.len();
    let r = (bytes[i] as u16) | ((bytes[i + 1] as u16) << 8u16);
    proof {
        let s = bytes@.subrange(i as int, i + 2);
        assert(s[0] == bytes@[i as int]);
        assert(s[1] == bytes@[i + 1]);
    }
    r
}

/// Reads the big-endian 64-bit integer held in an 8-byte buffer.
pub fn read_be64(bytes: &Vec<u8>) -> (r: u64)
    requires
        bytes@.len() == 8,
    ensures
        r == be64_val(bytes@),
{
    ((bytes[0] as u64) << 56u64) | ((bytes[1] as u64) << 48u64) | ((bytes[2] as u64) << 40u64) | (
    (bytes[3] as u64) << 32u64) | ((bytes[4] as u64) << 24u64) | ((bytes[5] as u64) << 16u64) | (
    (bytes[6] as u64) << 8u64) | (bytes[7] as u64)
}

/// A length-prefixed field on the send path: an 8-byte little-endian length,
/// then the payload bytes.
pub open spec fn framed_le(p: Seq<u8>) -> Seq<u8> {
    le64(p.len() as u64) + p
}

/// Appends a length-prefixed field: the payload's length as 8 little-endian
/// bytes, then the payload.
pub fn push_frame(out: &mut Vec<u8>, payload: &Vec<u8>)
    ensures
        final(out)@ == old(out)@ + framed_le(payload@),
{
    push_le64(out, payload.len() as u64);
    let mut i: usize = 0;
    while i < payload.len()
        invariant
            i <= payload@.len(),
            out@ == old(out)@ + le64(payload@.len() as u64) + payload@.subrange(0, i as int),
        decreases payload@.len() - i,
    {
        out.push(payload[i]);
        proof {
            assert(out@ =~= old(out)@ + le64(payload@.len() as u64) + payload@.subrange(
                0,
                i + 1,
            ));
        }
        i += 1;
    }
    proof {
        assert(payload@.subrange(0, payload@.len() as int) =~= payload@);
        assert(out@ =~= old(out)@ + framed_le(payload@));
    }
}

} // verus!
