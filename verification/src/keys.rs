//! Key derivation: seed to viewing and nullifier keys, and
//! deterministic diversified-address derivation.
//!
//! The derivation hierarchy is a fixed deterministic function of the
//! seed, so every key and address is reproducible from the same seed
//! and index, unrelated to note state.

use vstd::prelude::*;
use crate::digest::{Digest, spec_absorb, absorb, spec_word_digest, word_digest, spec_combine, combine};
use crate::note::Address;

verus! {

/// Domain tags separating the derived keys.
pub const KEY_TAG_IVK: u64 = 1;
pub const KEY_TAG_OVK: u64 = 2;
pub const KEY_TAG_NK: u64 = 3;
pub const KEY_TAG_VAULT: u64 = 4;
pub const KEY_TAG_RSEED: u64 = 5;

/// Digest of a byte sequence under a domain tag: the tag word spread
/// into a digest, then each byte absorbed in order.
pub open spec fn spec_absorb_bytes(acc: Digest, s: Seq<u8>) -> Digest
    decreases s.len(),
{
    if s.len() == 0 {
        acc
    } else {
        spec_absorb_bytes(spec_absorb(acc, s[0] as u64), s.skip(1))
    }
}

pub open spec fn spec_derive_key(seed: Seq<u8>, tag: u64) -> Digest {
    spec_absorb_bytes(spec_word_digest(tag), seed)
}

pub fn derive_key(seed: &Vec<u8>, tag: u64) -> (k: Digest)
    ensures
        k == spec_derive_key(seed@, tag),
{
    let mut acc = word_digest(tag);
    let n = seed.len();
    let mut i: usize = 0;
    proof {
        assert(seed@.skip(0) =~= seed@);
    }
    while i < n
        invariant
            n == seed@.len(),
            i <= n,
            spec_absorb_bytes(acc, seed@.skip(i as int)) == spec_derive_key(seed@, tag),
        decreases n - i,
    {
        proof {
            assert(seed@.skip(i as int)[0] == seed@[i as int]);
            assert(seed@.skip(i as int).skip(1) =~= seed@.skip(i as int + 1));
        }
        acc = absorb(&acc, seed[i] as u64);
        i = i + 1;
    }
    proof {
        assert(seed@.skip(n as int) =~= Seq::<u8>::empty());
    }
    acc
}

/// Transmission key of the diversified address at index `d` under
/// incoming viewing key `ivk`.
pub open spec fn spec_address_pk(ivk: Digest, d: u64) -> Digest {
    spec_combine(ivk, spec_word_digest(d ^ 0x5555555555555555))
}

pub open spec fn spec_derive_address(ivk: Digest, d: u64) -> Address {
    Address { diversifier: d, pk: spec_address_pk(ivk, d) }
}

/// Deterministic diversified-address derivation: reproducible from the
/// same viewing key and index.
pub fn derive_address(ivk: &Digest, d: u64) -> (a: Address)
    ensures
        a == spec_derive_address(*ivk, d),
{
    let t = word_digest(d ^ 0x5555555555555555);
    Address { diversifier: d, pk: combine(ivk, &t) }
}

/// Whether `ivk` is the viewing key matching address `a`.
pub open spec fn spec_key_matches_address(ivk: Digest, a: Address) -> bool {
    a.pk == spec_address_pk(ivk, a.diversifier)
}

/// Deterministic per-index vault seed, derived from the wallet seed.
pub open spec fn spec_derive_vault_key(seed: Seq<u8>, index: u32) -> Digest {
    spec_absorb(spec_derive_key(seed, KEY_TAG_VAULT), index as u64)
}

pub fn derive_vault_key(seed: &Vec<u8>, index: u32) -> (k: Digest)
    ensures
        k == spec_derive_vault_key(seed@, index),
{
    let base = derive_key(seed, KEY_TAG_VAULT);
    absorb(&base, index as u64)
}

} // verus!
