//! Authentication ("vault") tokens: zero-value notes that act as a
//! per-contract authentication credential, and their textual
//! encoding `"<commitment-hex>@<contract-name>"`, optionally suffixed
//! `"|<memo-hex>"` when the caller asks for the memo to be revealed.

use vstd::prelude::*;
use crate::digest::{Digest, spec_digest_bytes, digest_bytes};
use crate::keys::{spec_derive_key, derive_key, KEY_TAG_RSEED};
use crate::note::{Note, NoteKind, Address, spec_note_commitment};
use crate::encryption::{Ciphertext, encrypt_note, spec_enc_body, spec_tag, spec_out_key, spec_out_view};
use crate::hexstr::{spec_hex_ascii, encode_hex};
use crate::names::{spec_name_text, name_to_text};
use crate::wallet::Wallet;

verus! {

/// Memo tag separating an auth token's memo derivation from its
/// randomness derivation.
pub const TOKEN_MEMO_TAG: u64 = 6;

/// The auth-token note created for `contract` from a token seed: zero
/// amount and zero symbol, with memo and randomness derived
/// deterministically from the seed.
pub open spec fn spec_auth_note(token_seed: Seq<u8>, contract: u64, owner: u64, to: Address) -> Note {
    Note {
        contract,
        amount: 0,
        symbol: 0,
        owner,
        recipient: to,
        memo: spec_derive_key(token_seed, TOKEN_MEMO_TAG),
        rseed: spec_derive_key(token_seed, KEY_TAG_RSEED),
    }
}

/// Creates an unpublished auth token bound to `contract`, addressed
/// to `to`, together with its ciphertext for later publication; the
/// caller queues the ciphertext with `Wallet::add_unpublished_notes`.
pub fn create_auth_token(w: &Wallet, token_seed: &Vec<u8>, contract: u64, to: Address) -> (r: (
    Note,
    Ciphertext,
))
    requires
        w.wf(),
        !w.spec_view_only(),
    ensures
        r.0 == spec_auth_note(token_seed@, contract, w.spec_alias().0, to),
        r.0.spec_kind() == NoteKind::AuthToken,
        r.1.diversifier == to.diversifier,
        r.1.incoming.body@ == spec_enc_body(r.0, to.pk),
        r.1.incoming.tag == spec_tag(to.pk, spec_enc_body(r.0, to.pk)),
        (match spec_out_view(r.1) {
            Some(out) => out.0 == spec_enc_body(r.0, spec_out_key(w.spec_ovk()->Some_0, to.diversifier)),
            None => false,
        }),
{
    let memo = derive_key(token_seed, TOKEN_MEMO_TAG);
    let rseed = derive_key(token_seed, KEY_TAG_RSEED);
    let note = Note {
        contract,
        amount: 0,
        symbol: 0,
        owner: w.alias_authority().0,
        recipient: to,
        memo,
        rseed,
    };
    let ovk = match w.outgoing_key() {
        Some(k) => k,
        None => {
            proof {
                assert(false);
            }
            Digest { w0: 0, w1: 0, w2: 0, w3: 0 }
        },
    };
    let ct = encrypt_note(&note, Some(&ovk));
    (note, ct)
}

/// The textual encoding of an auth token: commitment hex, '@', the
/// contract name, and optionally '|' followed by the memo hex.
pub open spec fn spec_auth_token_text(n: Note, reveal_memo: bool) -> Seq<u8> {
    spec_hex_ascii(spec_digest_bytes(spec_note_commitment(n))) + seq![64u8]
        + spec_name_text(n.contract) + if reveal_memo {
        seq![124u8] + spec_hex_ascii(spec_digest_bytes(n.memo))
    } else {
        Seq::empty()
    }
}

/// Renders an auth token's textual encoding.
pub fn encode_auth_token(n: &Note, reveal_memo: bool) -> (r: Vec<u8>)
    ensures
        r@ == spec_auth_token_text(*n, reveal_memo),
{
    let cm = n.commitment();
    let cm_bytes = digest_bytes(&cm);
    let mut out = encode_hex(&cm_bytes);
    out.push(64);
    let mut name = name_to_text(n.contract);
    out.append(&mut name);
    if reveal_memo {
        out.push(124);
        let memo_bytes = digest_bytes(&n.memo);
        let mut memo_hex = encode_hex(&memo_bytes);
        out.append(&mut memo_hex);
        proof {
            assert(out@ =~= spec_auth_token_text(*n, reveal_memo));
        }
    } else {
        proof {
            assert(out@ =~= spec_auth_token_text(*n, reveal_memo));
        }
    }
    out
}

} // verus!
