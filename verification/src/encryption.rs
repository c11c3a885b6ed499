//! Symmetric note encryption.
//!
//! A ciphertext seals the note's words under a keystream derived from
//! the recipient's transmission key, with an authentication tag; an
//! optional second seal under the sender's outgoing viewing key lets
//! the sender recover notes it sent.  Decryption is a filter: wrong
//! keys and malformed ciphertexts yield `None`, never an error.

use vstd::prelude::*;
use crate::digest::{Digest, spec_mix64, mix64, spec_combine, combine, spec_word_digest, word_digest, spec_absorb, absorb};
use crate::note::{Note, Address};
use crate::keys::{spec_address_pk, spec_key_matches_address};

verus! {

/// Number of 64-bit words in a note's wire layout.
pub const NOTE_WORDS: usize = 17;

/// The note's words in wire order.
pub open spec fn spec_note_words(n: Note) -> Seq<u64> {
    seq![
        n.contract,
        n.amount,
        n.symbol,
        n.owner,
        n.recipient.diversifier,
        n.recipient.pk.w0,
        n.recipient.pk.w1,
        n.recipient.pk.w2,
        n.recipient.pk.w3,
        n.memo.w0,
        n.memo.w1,
        n.memo.w2,
        n.memo.w3,
        n.rseed.w0,
        n.rseed.w1,
        n.rseed.w2,
        n.rseed.w3,
    ]
}

/// The note whose wire words are `s` (meaningful when `s` has
/// `NOTE_WORDS` entries).
pub open spec fn spec_words_to_note(s: Seq<u64>) -> Note
    recommends
        s.len() == NOTE_WORDS,
{
    Note {
        contract: s[0],
        amount: s[1],
        symbol: s[2],
        owner: s[3],
        recipient: Address {
            diversifier: s[4],
            pk: Digest { w0: s[5], w1: s[6], w2: s[7], w3: s[8] },
        },
        memo: Digest { w0: s[9], w1: s[10], w2: s[11], w3: s[12] },
        rseed: Digest { w0: s[13], w1: s[14], w2: s[15], w3: s[16] },
    }
}

pub proof fn lemma_note_words_roundtrip(n: Note)
    ensures
        spec_note_words(n).len() == NOTE_WORDS,
        spec_words_to_note(spec_note_words(n)) == n,
{
}

/// Keystream word `j` under key `k`.
pub open spec fn spec_ks(k: Digest, j: u64) -> u64 {
    spec_mix64(k.w0 ^ j, spec_mix64(k.w1 ^ j, spec_mix64(k.w2, k.w3 ^ j)))
}

pub fn ks(k: &Digest, j: u64) -> (r: u64)
    ensures
        r == spec_ks(*k, j),
{
    mix64(k.w0 ^ j, mix64(k.w1 ^ j, mix64(k.w2, k.w3 ^ j)))
}

/// Digest of a word sequence under a key, used as the seal's tag.
pub open spec fn spec_absorb_words(acc: Digest, s: Seq<u64>) -> Digest
    decreases s.len(),
{
    if s.len() == 0 {
        acc
    } else {
        spec_absorb_words(spec_absorb(acc, s[0]), s.skip(1))
    }
}

pub open spec fn spec_tag(k: Digest, body: Seq<u64>) -> Digest {
    spec_absorb_words(spec_combine(k, spec_word_digest(0x746167)), body)
}

pub fn tag_of(k: &Digest, body: &Vec<u64>) -> (t: Digest)
    ensures
        t == spec_tag(*k, body@),
{
    let td = word_digest(0x746167);
    let mut acc = combine(k, &td);
    let n = body.len();
    let mut i: usize = 0;
    proof {
        assert(body@.skip(0) =~= body@);
    }
    while i < n
        invariant
            n == body@.len(),
            i <= n,
            spec_absorb_words(acc, body@.skip(i as int)) == spec_tag(*k, body@),
        decreases n - i,
    {
        proof {
            assert(body@.skip(i as int)[0] == body@[i as int]);
            assert(body@.skip(i as int).skip(1) =~= body@.skip(i as int + 1));
        }
        acc = absorb(&acc, body[i]);
        i = i + 1;
    }
    proof {
        assert(body@.skip(n as int) =~= Seq::<u64>::empty());
    }
    acc
}

/// A note sealed under one key: encrypted words plus tag.
#[derive(Debug)]
pub struct SealedNote {
    pub body: Vec<u64>,
    pub tag: Digest,
}

/// A note ciphertext: the clear diversifier of the destination address,
/// the seal for the recipient, and an optional seal for the sender.
#[derive(Debug)]
pub struct Ciphertext {
    pub diversifier: u64,
    pub incoming: SealedNote,
    pub outgoing: Option<SealedNote>,
}

/// The encrypted words of note `n` under key `k`.
pub open spec fn spec_enc_body(n: Note, k: Digest) -> Seq<u64> {
    Seq::new(NOTE_WORDS as nat, |j: int| spec_note_words(n)[j] ^ spec_ks(k, j as u64))
}

/// The key sealing the outgoing copy: derived from the sender's
/// outgoing viewing key and the destination diversifier.
pub open spec fn spec_out_key(ovk: Digest, diversifier: u64) -> Digest {
    spec_combine(ovk, spec_word_digest(diversifier ^ 0x6f7574))
}

pub fn out_key(ovk: &Digest, diversifier: u64) -> (k: Digest)
    ensures
        k == spec_out_key(*ovk, diversifier),
{
    let t = word_digest(diversifier ^ 0x6f7574);
    combine(ovk, &t)
}

fn seal_under(n: &Note, k: &Digest) -> (s: SealedNote)
    ensures
        s.body@ == spec_enc_body(*n, *k),
        s.tag == spec_tag(*k, spec_enc_body(*n, *k)),
{
    let mut body: Vec<u64> = Vec::new();
    body.push(n.contract ^ ks(k, 0));
    body.push(n.amount ^ ks(k, 1));
    body.push(n.symbol ^ ks(k, 2));
    body.push(n.owner ^ ks(k, 3));
    body.push(n.recipient.diversifier ^ ks(k, 4));
    body.push(n.recipient.pk.w0 ^ ks(k, 5));
    body.push(n.recipient.pk.w1 ^ ks(k, 6));
    body.push(n.recipient.pk.w2 ^ ks(k, 7));
    body.push(n.recipient.pk.w3 ^ ks(k, 8));
    body.push(n.memo.w0 ^ ks(k, 9));
    body.push(n.memo.w1 ^ ks(k, 10));
    body.push(n.memo.w2 ^ ks(k, 11));
    body.push(n.memo.w3 ^ ks(k, 12));
    body.push(n.rseed.w0 ^ ks(k, 13));
    body.push(n.rseed.w1 ^ ks(k, 14));
    body.push(n.rseed.w2 ^ ks(k, 15));
    body.push(n.rseed.w3 ^ ks(k, 16));
    proof {
        assert(body@ =~= spec_enc_body(*n, *k));
    }
    let tag = tag_of(k, &body);
    SealedNote { body, tag }
}

/// Encrypts a note to its recipient address; when the sender's outgoing
/// viewing key is supplied, also seals an outgoing copy under it.
pub fn encrypt_note(n: &Note, ovk: Option<&Digest>) -> (ct: Ciphertext)
    ensures
        ct.diversifier == n.recipient.diversifier,
        ct.incoming.body@ == spec_enc_body(*n, n.recipient.pk),
        ct.incoming.tag == spec_tag(n.recipient.pk, spec_enc_body(*n, n.recipient.pk)),
        match ct.outgoing {
            Some(out) => ovk is Some && out.body@ == spec_enc_body(
                *n,
                spec_out_key(*ovk->Some_0, n.recipient.diversifier),
            ) && out.tag == spec_tag(
                spec_out_key(*ovk->Some_0, n.recipient.diversifier),
                spec_enc_body(*n, spec_out_key(*ovk->Some_0, n.recipient.diversifier)),
            ),
            None => ovk is None,
        },
{
    let incoming = seal_under(n, &n.recipient.pk);
    let outgoing = match ovk {
        Some(k) => {
            let ok = out_key(k, n.recipient.diversifier);
            Some(seal_under(n, &ok))
        },
        None => None,
    };
    Ciphertext { diversifier: n.recipient.diversifier, incoming, outgoing }
}

/// The note recovered by unsealing `body` under `k`.
pub open spec fn spec_unseal_note(body: Seq<u64>, k: Digest) -> Note {
    spec_words_to_note(Seq::new(NOTE_WORDS as nat, |j: int| body[j] ^ spec_ks(k, j as u64)))
}

/// Incoming decryption under viewing key `ivk`: succeeds exactly when
/// the body has the right length, the tag checks under the address key
/// recomputed from `ivk` and the clear diversifier, and the recovered
/// note's recipient is that address.
pub open spec fn spec_decrypt(diversifier: u64, body: Seq<u64>, tag: Digest, ivk: Digest) -> Option<Note> {
    let pk = spec_address_pk(ivk, diversifier);
    if body.len() != NOTE_WORDS {
        None
    } else if tag != spec_tag(pk, body) {
        None
    } else {
        let n = spec_unseal_note(body, pk);
        if n.recipient.diversifier == diversifier && n.recipient.pk == pk {
            Some(n)
        } else {
            None
        }
    }
}

/// Outgoing decryption under outgoing viewing key `ovk`: succeeds
/// exactly when the outgoing seal is present and its tag checks under
/// the key recomputed from `ovk` and the clear diversifier.
pub open spec fn spec_decrypt_outgoing(ct_diversifier: u64, out: Option<(Seq<u64>, Digest)>, ovk: Digest) -> Option<Note> {
    match out {
        None => None,
        Some((body, tag)) => {
            let k = spec_out_key(ovk, ct_diversifier);
            if body.len() != NOTE_WORDS {
                None
            } else if tag != spec_tag(k, body) {
                None
            } else {
                Some(spec_unseal_note(body, k))
            }
        },
    }
}

/// View of a ciphertext's outgoing seal as plain values.
pub open spec fn spec_out_view(ct: Ciphertext) -> Option<(Seq<u64>, Digest)> {
    match ct.outgoing {
        None => None,
        Some(out) => Some((out.body@, out.tag)),
    }
}

fn unseal_note(body: &Vec<u64>, k: &Digest) -> (n: Note)
    requires
        body@.len() == NOTE_WORDS,
    ensures
        n == spec_unseal_note(body@, *k),
{
    Note {
        contract: body[0] ^ ks(k, 0),
        amount: body[1] ^ ks(k, 1),
        symbol: body[2] ^ ks(k, 2),
        owner: body[3] ^ ks(k, 3),
        recipient: Address {
            diversifier: body[4] ^ ks(k, 4),
            pk: Digest {
                w0: body[5] ^ ks(k, 5),
                w1: body[6] ^ ks(k, 6),
                w2: body[7] ^ ks(k, 7),
                w3: body[8] ^ ks(k, 8),
            },
        },
        memo: Digest {
            w0: body[9] ^ ks(k, 9),
            w1: body[10] ^ ks(k, 10),
            w2: body[11] ^ ks(k, 11),
            w3: body[12] ^ ks(k, 12),
        },
        rseed: Digest {
            w0: body[13] ^ ks(k, 13),
            w1: body[14] ^ ks(k, 14),
            w2: body[15] ^ ks(k, 15),
            w3: body[16] ^ ks(k, 16),
        },
    }
}

/// Attempts incoming decryption; `None` on any failure.
pub fn decrypt_note(ct: &Ciphertext, ivk: &Digest) -> (r: Option<Note>)
    ensures
        r == spec_decrypt(ct.diversifier, ct.incoming.body@, ct.incoming.tag, *ivk),
{
    let t = word_digest(ct.diversifier ^ 0x5555555555555555);
    let pk = combine(ivk, &t);
    if ct.incoming.body.len() != NOTE_WORDS {
        return None;
    }
    let expected = tag_of(&pk, &ct.incoming.body);
    if expected != ct.incoming.tag {
        return None;
    }
    let n = unseal_note(&ct.incoming.body, &pk);
    if n.recipient.diversifier == ct.diversifier && n.recipient.pk == pk {
        Some(n)
    } else {
        None
    }
}

/// Attempts outgoing decryption; `None` on any failure.
pub fn decrypt_note_outgoing(ct: &Ciphertext, ovk: &Digest) -> (r: Option<Note>)
    ensures
        r == spec_decrypt_outgoing(ct.diversifier, spec_out_view(*ct), *ovk),
{
    match &ct.outgoing {
        None => None,
        Some(out) => {
            let k = out_key(ovk, ct.diversifier);
            if out.body.len() != NOTE_WORDS {
                return None;
            }
            let expected = tag_of(&k, &out.body);
            if expected != out.tag {
                return None;
            }
            Some(unseal_note(&out.body, &k))
        },
    }
}

pub proof fn lemma_xor_involutive()
    ensures
        forall|x: u64, k: u64| (x ^ k) ^ k == x,
{
    assert(forall|x: u64, k: u64| (x ^ k) ^ k == x) by (bit_vector);
}

/// Unsealing an encrypted body under the sealing key recovers the note.
pub proof fn lemma_unseal_seal(n: Note, k: Digest)
    ensures
        spec_unseal_note(spec_enc_body(n, k), k) == n,
{
    lemma_xor_involutive();
    let w = spec_note_words(n);
    let body = spec_enc_body(n, k);
    let dec = Seq::new(NOTE_WORDS as nat, |j: int| body[j] ^ spec_ks(k, j as u64));
    assert forall|j: int| 0 <= j < NOTE_WORDS implies dec[j] == w[j] by {
        assert(body[j] == w[j] ^ spec_ks(k, j as u64));
    }
    assert(dec =~= w);
    lemma_note_words_roundtrip(n);
}

/// Round trip: for any note, decrypting its encryption with the
/// matching incoming viewing key yields exactly the note back.
pub proof fn lemma_decrypt_encrypt_roundtrip(n: Note, ivk: Digest)
    requires
        spec_key_matches_address(ivk, n.recipient),
    ensures
        spec_decrypt(
            n.recipient.diversifier,
            spec_enc_body(n, n.recipient.pk),
            spec_tag(n.recipient.pk, spec_enc_body(n, n.recipient.pk)),
            ivk,
        ) == Some(n),
{
    lemma_unseal_seal(n, n.recipient.pk);
}

/// Round trip for the sender: decrypting the outgoing seal with the
/// outgoing viewing key that sealed it yields exactly the note back.
pub proof fn lemma_decrypt_outgoing_roundtrip(n: Note, ovk: Digest)
    ensures
        spec_decrypt_outgoing(
            n.recipient.diversifier,
            Some((
                spec_enc_body(n, spec_out_key(ovk, n.recipient.diversifier)),
                spec_tag(
                    spec_out_key(ovk, n.recipient.diversifier),
                    spec_enc_body(n, spec_out_key(ovk, n.recipient.diversifier)),
                ),
            )),
            ovk,
        ) == Some(n),
{
    lemma_unseal_seal(n, spec_out_key(ovk, n.recipient.diversifier));
}

/// Deep copy of a ciphertext (used when retrying unpublished notes).
pub fn clone_ciphertext(ct: &Ciphertext) -> (c: Ciphertext)
    ensures
        c.diversifier == ct.diversifier,
        c.incoming.body@ == ct.incoming.body@,
        c.incoming.tag == ct.incoming.tag,
        spec_out_view(c) == spec_out_view(*ct),
{
    let incoming = SealedNote { body: clone_words(&ct.incoming.body), tag: ct.incoming.tag };
    let outgoing = match &ct.outgoing {
        None => None,
        Some(out) => Some(SealedNote { body: clone_words(&out.body), tag: out.tag }),
    };
    Ciphertext { diversifier: ct.diversifier, incoming, outgoing }
}

fn clone_words(v: &Vec<u64>) -> (c: Vec<u64>)
    ensures
        c@ == v@,
{
    let mut out: Vec<u64> = Vec::new();
    let n = v.len();
    let mut i: usize = 0;
    while i < n
        invariant
            n == v@.len(),
            i <= n,
            out@ =~= v@.take(i as int),
        decreases n - i,
    {
        out.push(v[i]);
        i = i + 1;
    }
    proof {
        assert(v@.take(n as int) =~= v@);
    }
    out
}

} // verus!
