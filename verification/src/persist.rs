//! Wallet persistence: a length-prefixed binary record holding the
//! key material, chain and contract identifiers, the accumulator
//! leaves, and the four note collections.
//!
//! `wallet_size` equals the exact length of the buffer `wallet_write`
//! produces, so callers may pre-allocate buffers of exactly that size;
//! both are specified against one serialization function.

use vstd::prelude::*;
use crate::digest::{Digest, spec_u64_bytes, spec_digest_bytes, push_u64_bytes, push_digest_bytes};
use crate::encryption::Ciphertext;
use crate::note::NoteEx;
use crate::wallet::Wallet;

verus! {

/// Little-endian bytes of a 32-bit word.
pub open spec fn spec_u32_bytes(x: u32) -> Seq<u8> {
    seq![(x & 0xff) as u8, ((x >> 8) & 0xff) as u8, ((x >> 16) & 0xff) as u8, ((x >> 24) & 0xff) as u8]
}

fn push_u32_bytes(out: &mut Vec<u8>, x: u32)
    ensures
        final(out)@ == old(out)@ + spec_u32_bytes(x),
{
    out.push((x & 0xff) as u8);
    out.push(((x >> 8) & 0xff) as u8);
    out.push(((x >> 16) & 0xff) as u8);
    out.push(((x >> 24) & 0xff) as u8);
    proof {
        assert(out@ =~= old(out)@ + spec_u32_bytes(x));
    }
}

/// Optional digest: a presence byte, then the digest when present.
pub open spec fn spec_opt_digest_bytes(o: Option<Digest>) -> Seq<u8> {
    match o {
        None => seq![0u8],
        Some(d) => seq![1u8] + spec_digest_bytes(d),
    }
}

fn push_opt_digest(out: &mut Vec<u8>, o: &Option<Digest>)
    ensures
        final(out)@ == old(out)@ + spec_opt_digest_bytes(*o),
{
    match o {
        None => {
            out.push(0);
            proof {
                assert(out@ =~= old(out)@ + spec_opt_digest_bytes(*o));
            }
        },
        Some(d) => {
            out.push(1);
            push_digest_bytes(out, d);
            proof {
                assert(out@ =~= old(out)@ + spec_opt_digest_bytes(*o));
            }
        },
    }
}

/// One tracked note: the note's words, its digests, its optional leaf
/// position (a presence byte and a position word), and its block
/// stamp; 157 bytes.
pub open spec fn spec_note_record(e: NoteEx) -> Seq<u8> {
    spec_u64_bytes(e.note.contract) + spec_u64_bytes(e.note.amount) + spec_u64_bytes(e.note.symbol)
        + spec_u64_bytes(e.note.owner) + spec_u64_bytes(e.note.recipient.diversifier)
        + spec_digest_bytes(e.note.recipient.pk) + spec_digest_bytes(e.note.memo)
        + spec_digest_bytes(e.note.rseed) + (match e.position {
        None => seq![0u8] + spec_u64_bytes(0),
        Some(p) => seq![1u8] + spec_u64_bytes(p),
    }) + spec_u32_bytes(e.block_num) + spec_u64_bytes(e.block_ts)
}

fn push_note_record(out: &mut Vec<u8>, e: &NoteEx)
    ensures
        final(out)@ == old(out)@ + spec_note_record(*e),
{
    push_u64_bytes(out, e.note.contract);
    push_u64_bytes(out, e.note.amount);
    push_u64_bytes(out, e.note.symbol);
    push_u64_bytes(out, e.note.owner);
    push_u64_bytes(out, e.note.recipient.diversifier);
    push_digest_bytes(out, &e.note.recipient.pk);
    push_digest_bytes(out, &e.note.memo);
    push_digest_bytes(out, &e.note.rseed);
    match e.position {
        None => {
            out.push(0);
            push_u64_bytes(out, 0);
        },
        Some(p) => {
            out.push(1);
            push_u64_bytes(out, p);
        },
    }
    push_u32_bytes(out, e.block_num);
    push_u64_bytes(out, e.block_ts);
    proof {
        assert(out@ =~= old(out)@ + spec_note_record(*e));
    }
}

/// A note collection: a count word, then the records in order.
pub open spec fn spec_note_records(s: Seq<NoteEx>) -> Seq<u8>
    decreases s.len(),
{
    if s.len() == 0 {
        Seq::empty()
    } else {
        spec_note_records(s.drop_last()) + spec_note_record(s.last())
    }
}

fn push_note_records(out: &mut Vec<u8>, v: &Vec<NoteEx>)
    ensures
        final(out)@ == old(out)@ + spec_u64_bytes(v@.len() as u64) + spec_note_records(v@),
{
    push_u64_bytes(out, v.len() as u64);
    let n = v.len();
    let mut i: usize = 0;
    while i < n
        invariant
            n == v@.len(),
            i <= n,
            out@ =~= old(out)@ + spec_u64_bytes(v@.len() as u64) + spec_note_records(v@.take(i as int)),
        decreases n - i,
    {
        proof {
            assert(v@.take(i as int + 1).drop_last() =~= v@.take(i as int));
            assert(v@.take(i as int + 1).last() == v@[i as int]);
        }
        push_note_record(out, &v[i]);
        i = i + 1;
    }
    proof {
        assert(v@.take(n as int) =~= v@);
    }
}

/// The leaf list: a count word, then each leaf digest in append order.
pub open spec fn spec_leaf_records(s: Seq<Digest>) -> Seq<u8>
    decreases s.len(),
{
    if s.len() == 0 {
        Seq::empty()
    } else {
        spec_leaf_records(s.drop_last()) + spec_digest_bytes(s.last())
    }
}

fn push_leaf_records(out: &mut Vec<u8>, v: &Vec<Digest>)
    ensures
        final(out)@ == old(out)@ + spec_u64_bytes(v@.len() as u64) + spec_leaf_records(v@),
{
    push_u64_bytes(out, v.len() as u64);
    let n = v.len();
    let mut i: usize = 0;
    while i < n
        invariant
            n == v@.len(),
            i <= n,
            out@ =~= old(out)@ + spec_u64_bytes(v@.len() as u64) + spec_leaf_records(v@.take(i as int)),
        decreases n - i,
    {
        proof {
            assert(v@.take(i as int + 1).drop_last() =~= v@.take(i as int));
            assert(v@.take(i as int + 1).last() == v@[i as int]);
        }
        push_digest_bytes(out, &v[i]);
        i = i + 1;
    }
    proof {
        assert(v@.take(n as int) =~= v@);
    }
}

/// The bytes of a word list, each word little-endian.
pub open spec fn spec_word_records(s: Seq<u64>) -> Seq<u8>
    decreases s.len(),
{
    if s.len() == 0 {
        Seq::empty()
    } else {
        spec_word_records(s.drop_last()) + spec_u64_bytes(s.last())
    }
}

fn push_word_records(out: &mut Vec<u8>, v: &Vec<u64>)
    ensures
        final(out)@ == old(out)@ + spec_u64_bytes(v@.len() as u64) + spec_word_records(v@),
{
    push_u64_bytes(out, v.len() as u64);
    let n = v.len();
    let mut i: usize = 0;
    while i < n
        invariant
            n == v@.len(),
            i <= n,
            out@ =~= old(out)@ + spec_u64_bytes(v@.len() as u64) + spec_word_records(v@.take(i as int)),
        decreases n - i,
    {
        proof {
            assert(v@.take(i as int + 1).drop_last() =~= v@.take(i as int));
            assert(v@.take(i as int + 1).last() == v@[i as int]);
        }
        push_u64_bytes(out, v[i]);
        i = i + 1;
    }
    proof {
        assert(v@.take(n as int) =~= v@);
    }
}

/// One queued ciphertext: diversifier, length-prefixed sealed words
/// and tag, then the optional outgoing seal behind a presence byte.
pub open spec fn spec_ct_record(ct: Ciphertext) -> Seq<u8> {
    spec_u64_bytes(ct.diversifier) + spec_u64_bytes(ct.incoming.body@.len() as u64)
        + spec_word_records(ct.incoming.body@) + spec_digest_bytes(ct.incoming.tag)
        + (match ct.outgoing {
        None => seq![0u8],
        Some(out) => seq![1u8] + spec_u64_bytes(out.body@.len() as u64) + spec_word_records(out.body@)
            + spec_digest_bytes(out.tag),
    })
}

fn push_ct_record(out: &mut Vec<u8>, ct: &Ciphertext)
    ensures
        final(out)@ == old(out)@ + spec_ct_record(*ct),
{
    push_u64_bytes(out, ct.diversifier);
    push_word_records(out, &ct.incoming.body);
    push_digest_bytes(out, &ct.incoming.tag);
    match &ct.outgoing {
        None => {
            out.push(0);
        },
        Some(o) => {
            out.push(1);
            push_word_records(out, &o.body);
            push_digest_bytes(out, &o.tag);
        },
    }
    proof {
        assert(out@ =~= old(out)@ + spec_ct_record(*ct));
    }
}

/// The unpublished pool: a count word, then each ciphertext record.
pub open spec fn spec_ct_records(s: Seq<Ciphertext>) -> Seq<u8>
    decreases s.len(),
{
    if s.len() == 0 {
        Seq::empty()
    } else {
        spec_ct_records(s.drop_last()) + spec_ct_record(s.last())
    }
}

/// The whole persisted record.
pub open spec fn spec_serialized(w: Wallet) -> Seq<u8> {
    spec_u64_bytes(w.spec_seed().len() as u64) + w.spec_seed() + seq![
        if w.spec_view_only() {
            1u8
        } else {
            0u8
        },
    ] + spec_digest_bytes(w.spec_ivk()) + spec_opt_digest_bytes(w.spec_ovk()) + spec_opt_digest_bytes(
        w.spec_nk(),
    ) + spec_digest_bytes(w.spec_chain_id()) + spec_u64_bytes(w.spec_protocol_contract())
        + spec_u64_bytes(w.spec_vault_contract()) + spec_u64_bytes(w.spec_alias().0) + spec_u64_bytes(
        w.spec_alias().1,
    ) + spec_u64_bytes(w.spec_address_index()) + spec_u32_bytes(w.spec_block_num()) + spec_u64_bytes(
        w.spec_block_ts(),
    ) + spec_u64_bytes(w.spec_auth_count()) + spec_u64_bytes(w.spec_leaves().len() as u64)
        + spec_leaf_records(w.spec_leaves()) + spec_u64_bytes(w.spec_unspent().len() as u64)
        + spec_note_records(w.spec_unspent()) + spec_u64_bytes(w.spec_spent().len() as u64)
        + spec_note_records(w.spec_spent()) + spec_u64_bytes(w.spec_outgoing().len() as u64)
        + spec_note_records(w.spec_outgoing())
}

/// Serializes the wallet, minus the unpublished pool, then the pool.
pub open spec fn spec_persisted(w: Wallet, pool: Seq<Ciphertext>) -> Seq<u8> {
    spec_serialized(w) + spec_u64_bytes(pool.len() as u64) + spec_ct_records(pool)
}

/// Writes the wallet's persisted record.
#[verifier::rlimit(100)]
pub fn wallet_write(w: &Wallet) -> (v: Vec<u8>)
    ensures
        v@ == spec_persisted(*w, w.unpublished_view()),
{
    let mut out: Vec<u8> = Vec::new();
    let seed = w.seed();
    push_u64_bytes(&mut out, seed.len() as u64);
    let n_seed = seed.len();
    let mut i: usize = 0;
    while i < n_seed
        invariant
            n_seed == seed@.len(),
            i <= n_seed,
            seed@ == w.spec_seed(),
            out@ =~= spec_u64_bytes(w.spec_seed().len() as u64) + w.spec_seed().take(i as int),
        decreases n_seed - i,
    {
        out.push(seed[i]);
        i = i + 1;
    }
    proof {
        assert(w.spec_seed().take(n_seed as int) =~= w.spec_seed());
    }
    if w.is_ivk() {
        out.push(1);
    } else {
        out.push(0);
    }
    let ivk = w.incoming_key();
    push_digest_bytes(&mut out, &ivk);
    let ovk = w.outgoing_key();
    push_opt_digest(&mut out, &ovk);
    let nk = w.nullifier_key();
    push_opt_digest(&mut out, &nk);
    let cid = w.chain_id();
    push_digest_bytes(&mut out, &cid);
    push_u64_bytes(&mut out, w.protocol_contract());
    push_u64_bytes(&mut out, w.vault_contract());
    let alias = w.alias_authority();
    push_u64_bytes(&mut out, alias.0);
    push_u64_bytes(&mut out, alias.1);
    push_u64_bytes(&mut out, w.address_index());
    push_u32_bytes(&mut out, w.block_num());
    push_u64_bytes(&mut out, w.block_ts());
    push_u64_bytes(&mut out, w.auth_count());
    push_leaf_records(&mut out, w.leaves());
    push_note_records(&mut out, w.unspent_notes());
    push_note_records(&mut out, w.spent_notes());
    push_note_records(&mut out, w.outgoing_notes());
    let pool = w.unpublished_notes();
    push_u64_bytes(&mut out, pool.len() as u64);
    let n_p = pool.len();
    let mut j: usize = 0;
    while j < n_p
        invariant
            n_p == pool@.len(),
            j <= n_p,
            pool@ == w.unpublished_view(),
            out@ =~= spec_serialized(*w) + spec_u64_bytes(pool@.len() as u64) + spec_ct_records(
                pool@.take(j as int),
            ),
        decreases n_p - j,
    {
        proof {
            assert(pool@.take(j as int + 1).drop_last() =~= pool@.take(j as int));
            assert(pool@.take(j as int + 1).last() == pool@[j as int]);
        }
        push_ct_record(&mut out, &pool[j]);
        j = j + 1;
    }
    proof {
        assert(pool@.take(n_p as int) =~= pool@);
    }
    out
}

/// The exact byte length `wallet_write` produces: callers may
/// pre-allocate buffers of exactly this size.
pub fn wallet_size(w: &Wallet) -> (n: usize)
    ensures
        n == spec_persisted(*w, w.unpublished_view()).len(),
{
    wallet_write(w).len()
}

} // verus!
