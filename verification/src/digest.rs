//! 256-bit digests and the mixing function used for note commitments,
//! nullifiers, key derivation and the accumulator's node hashing.
//!
//! The protocol treats its hash as a fixed black box; the engine only
//! relies on it being a deterministic function of its inputs, which is
//! exactly what these definitions provide.

use vstd::prelude::*;

verus! {

/// A 256-bit value held as four 64-bit words (little-endian word order).
#[derive(Clone, Copy, PartialEq, Eq, Structural, Debug, Hash)]
pub struct Digest {
    pub w0: u64,
    pub w1: u64,
    pub w2: u64,
    pub w3: u64,
}

/// Word-level mixing step: combines two words into one.
pub open spec fn spec_mix64(a: u64, b: u64) -> u64 {
    (a ^ ((b << 19) | (b >> 45))) ^ (((a ^ 0x9e3779b97f4a7c15) << 7) | ((a ^ 0x9e3779b97f4a7c15) >> 57))
}

pub fn mix64(a: u64, b: u64) -> (r: u64)
    ensures
        r == spec_mix64(a, b),
{
    let t: u64 = a ^ 0x9e3779b97f4a7c15;
    (a ^ ((b << 19) | (b >> 45))) ^ ((t << 7) | (t >> 57))
}

/// Two-to-one compression over digests; left and right children are
/// mixed asymmetrically so that order matters.
pub open spec fn spec_combine(l: Digest, r: Digest) -> Digest {
    Digest {
        w0: spec_mix64(l.w0 ^ 0x01, r.w2),
        w1: spec_mix64(l.w1, r.w3 ^ 0x02),
        w2: spec_mix64(l.w2 ^ 0x03, r.w0),
        w3: spec_mix64(l.w3, r.w1 ^ 0x04),
    }
}

pub fn combine(l: &Digest, r: &Digest) -> (d: Digest)
    ensures
        d == spec_combine(*l, *r),
{
    Digest {
        w0: mix64(l.w0 ^ 0x01, r.w2),
        w1: mix64(l.w1, r.w3 ^ 0x02),
        w2: mix64(l.w2 ^ 0x03, r.w0),
        w3: mix64(l.w3, r.w1 ^ 0x04),
    }
}

/// Spreads a single word into a full digest so it can be absorbed.
pub open spec fn spec_word_digest(w: u64) -> Digest {
    Digest { w0: w, w1: w ^ 0x243f6a8885a308d3, w2: w ^ 0x13198a2e03707344, w3: w ^ 0xa4093822299f31d0 }
}

pub fn word_digest(w: u64) -> (d: Digest)
    ensures
        d == spec_word_digest(w),
{
    Digest { w0: w, w1: w ^ 0x243f6a8885a308d3, w2: w ^ 0x13198a2e03707344, w3: w ^ 0xa4093822299f31d0 }
}

/// Absorbs one word into an accumulator digest.
pub open spec fn spec_absorb(acc: Digest, w: u64) -> Digest {
    spec_combine(acc, spec_word_digest(w))
}

pub fn absorb(acc: &Digest, w: u64) -> (d: Digest)
    ensures
        d == spec_absorb(*acc, w),
{
    let wd = word_digest(w);
    combine(acc, &wd)
}

/// The all-zero digest, used as the empty accumulator leaf.
pub open spec fn spec_zero_digest() -> Digest {
    Digest { w0: 0, w1: 0, w2: 0, w3: 0 }
}

pub fn zero_digest() -> (d: Digest)
    ensures
        d == spec_zero_digest(),
{
    Digest { w0: 0, w1: 0, w2: 0, w3: 0 }
}

/// The 64-bit word encoded little-endian at byte offset `off`.
pub open spec fn spec_u64_at(b: Seq<u8>, off: int) -> u64
    recommends
        0 <= off,
        off + 8 <= b.len(),
{
    (b[off] as u64)
        | ((b[off + 1] as u64) << 8)
        | ((b[off + 2] as u64) << 16)
        | ((b[off + 3] as u64) << 24)
        | ((b[off + 4] as u64) << 32)
        | ((b[off + 5] as u64) << 40)
        | ((b[off + 6] as u64) << 48)
        | ((b[off + 7] as u64) << 56)
}

/// The digest encoded little-endian in the 32 bytes at offset `off`.
pub open spec fn spec_digest_at(b: Seq<u8>, off: int) -> Digest
    recommends
        0 <= off,
        off + 32 <= b.len(),
{
    Digest {
        w0: spec_u64_at(b, off),
        w1: spec_u64_at(b, off + 8),
        w2: spec_u64_at(b, off + 16),
        w3: spec_u64_at(b, off + 24),
    }
}

pub fn u64_at(b: &Vec<u8>, off: usize) -> (w: u64)
    requires
        off + 8 <= b@.len(),
    ensures
        w == spec_u64_at(b@, off as int),
{
    let _n: usize = b.len();
    (b[off] as u64)
        | ((b[off + 1] as u64) << 8)
        | ((b[off + 2] as u64) << 16)
        | ((b[off + 3] as u64) << 24)
        | ((b[off + 4] as u64) << 32)
        | ((b[off + 5] as u64) << 40)
        | ((b[off + 6] as u64) << 48)
        | ((b[off + 7] as u64) << 56)
}

pub fn digest_at(b: &Vec<u8>, off: usize) -> (d: Digest)
    requires
        off + 32 <= b@.len(),
    ensures
        d == spec_digest_at(b@, off as int),
{
    let _n: usize = b.len();
    Digest {
        w0: u64_at(b, off),
        w1: u64_at(b, off + 8),
        w2: u64_at(b, off + 16),
        w3: u64_at(b, off + 24),
    }
}

/// The little-endian bytes of a word.
pub open spec fn spec_u64_bytes(w: u64) -> Seq<u8> {
    seq![
        (w & 0xff) as u8,
        ((w >> 8) & 0xff) as u8,
        ((w >> 16) & 0xff) as u8,
        ((w >> 24) & 0xff) as u8,
        ((w >> 32) & 0xff) as u8,
        ((w >> 40) & 0xff) as u8,
        ((w >> 48) & 0xff) as u8,
        ((w >> 56) & 0xff) as u8,
    ]
}

/// The 32-byte little-endian encoding of a digest.
pub open spec fn spec_digest_bytes(d: Digest) -> Seq<u8> {
    spec_u64_bytes(d.w0) + spec_u64_bytes(d.w1) + spec_u64_bytes(d.w2) + spec_u64_bytes(d.w3)
}

/// Reassembling a word from its little-endian bytes yields the word back.
pub proof fn lemma_u64_bytes_roundtrip(w: u64)
    ensures
        spec_u64_at(spec_u64_bytes(w), 0) == w,
{
    assert(((w & 0xff) as u8 as u64)
        | ((((w >> 8) & 0xff) as u8 as u64) << 8)
        | ((((w >> 16) & 0xff) as u8 as u64) << 16)
        | ((((w >> 24) & 0xff) as u8 as u64) << 24)
        | ((((w >> 32) & 0xff) as u8 as u64) << 32)
        | ((((w >> 40) & 0xff) as u8 as u64) << 40)
        | ((((w >> 48) & 0xff) as u8 as u64) << 48)
        | ((((w >> 56) & 0xff) as u8 as u64) << 56) == w) by (bit_vector);
}

pub fn push_u64_bytes(out: &mut Vec<u8>, w: u64)
    ensures
        final(out)@ == old(out)@ + spec_u64_bytes(w),
{
    out.push((w & 0xff) as u8);
    out.push(((w >> 8) & 0xff) as u8);
    out.push(((w >> 16) & 0xff) as u8);
    out.push(((w >> 24) & 0xff) as u8);
    out.push(((w >> 32) & 0xff) as u8);
    out.push(((w >> 40) & 0xff) as u8);
    out.push(((w >> 48) & 0xff) as u8);
    out.push(((w >> 56) & 0xff) as u8);
    proof {
        assert(out@ =~= old(out)@ + spec_u64_bytes(w));
    }
}

pub fn push_digest_bytes(out: &mut Vec<u8>, d: &Digest)
    ensures
        final(out)@ == old(out)@ + spec_digest_bytes(*d),
{
    push_u64_bytes(out, d.w0);
    push_u64_bytes(out, d.w1);
    push_u64_bytes(out, d.w2);
    push_u64_bytes(out, d.w3);
    proof {
        assert(out@ =~= old(out)@ + spec_digest_bytes(*d));
    }
}

/// The 32-byte encoding of a digest, as an owned buffer.
pub fn digest_bytes(d: &Digest) -> (v: Vec<u8>)
    ensures
        v@ == spec_digest_bytes(*d),
{
    let mut out: Vec<u8> = Vec::new();
    push_digest_bytes(&mut out, d);
    proof {
        assert(out@ =~= spec_digest_bytes(*d));
    }
    out
}

/// Parsing the 32-byte encoding of a digest yields the digest back.
pub proof fn lemma_digest_bytes_roundtrip(d: Digest)
    ensures
        spec_digest_bytes(d).len() == 32,
        spec_digest_at(spec_digest_bytes(d), 0) == d,
{
    let b = spec_digest_bytes(d);
    lemma_u64_bytes_roundtrip(d.w0);
    lemma_u64_bytes_roundtrip(d.w1);
    lemma_u64_bytes_roundtrip(d.w2);
    lemma_u64_bytes_roundtrip(d.w3);
    assert(spec_u64_bytes(d.w0) =~= b.subrange(0, 8));
    assert(spec_u64_bytes(d.w1) =~= b.subrange(8, 16));
    assert(spec_u64_bytes(d.w2) =~= b.subrange(16, 24));
    assert(spec_u64_bytes(d.w3) =~= b.subrange(24, 32));
    lemma_u64_at_subrange(b, 0);
    lemma_u64_at_subrange(b, 8);
    lemma_u64_at_subrange(b, 16);
    lemma_u64_at_subrange(b, 24);
}

/// Reading a word at `off` equals reading it at the start of the
/// corresponding 8-byte subrange.
pub proof fn lemma_u64_at_subrange(b: Seq<u8>, off: int)
    requires
        0 <= off,
        off + 8 <= b.len(),
    ensures
        spec_u64_at(b, off) == spec_u64_at(b.subrange(off, off + 8), 0),
{
}

} // verus!
