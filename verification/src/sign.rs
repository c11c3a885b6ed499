//! The signing and verification protocol.
//!
//! Linear, non-branching pipeline: a resolved transfer becomes a
//! proved transaction.  The zero-knowledge backend is an external
//! oracle: the caller obtains one opaque proof blob per spend and per
//! output and hands them in; this module derives every public input
//! (commitments, nullifiers, roots, membership witnesses) in verified
//! code, and `verify_transaction` re-derives and checks them offline,
//! with no chain access.  Signing never mutates wallet state; the
//! eager local update is the caller's explicit follow-up
//! (`Wallet::apply_local_effects`).

use vstd::prelude::*;
use crate::digest::Digest;
use crate::error::WalletError;
use crate::tree::{TREE_DEPTH, TREE_CAPACITY, spec_root, spec_path, spec_recompute, recompute_root, pow2, lemma_pow2_capacity};
use crate::note::{Note, NoteEx, NoteKind, spec_note_commitment, spec_note_nullifier};
use crate::encryption::{Ciphertext, encrypt_note, spec_enc_body, spec_tag, spec_out_key, spec_out_view};
use crate::resolve::ResolvedTransfer;
use crate::wallet::Wallet;

verus! {

/// One spend: the input note, its public inputs, and its proof blob.
pub struct SpendDescription {
    pub note: Note,
    pub position: u64,
    pub nullifier: Digest,
    pub root: Digest,
    pub witness: Vec<Digest>,
    pub proof: Vec<u8>,
}

/// One output: the new note, its commitment, its ciphertext, and its
/// proof blob.
pub struct OutputDescription {
    pub note: Note,
    pub commitment: Digest,
    pub ciphertext: Ciphertext,
    pub proof: Vec<u8>,
}

/// A proved transaction, ready for chain submission.
pub struct ProvedTransaction {
    pub spends: Vec<SpendDescription>,
    pub outputs: Vec<OutputDescription>,
    pub fee: u64,
}

/// What signing records for the eager-update step: which auth tokens
/// were burned, and which ciphertexts await on-chain confirmation.
pub struct SigningMetadata {
    pub spent_auth_tokens: Vec<Vec<u8>>,
    pub unpublished: Vec<Ciphertext>,
}

/// Sum of the spend amounts.
pub open spec fn spec_sum_spends(s: Seq<SpendDescription>) -> int
    decreases s.len(),
{
    if s.len() == 0 {
        0
    } else {
        spec_sum_spends(s.drop_last()) + s.last().note.amount
    }
}

/// Sum of the output amounts.
pub open spec fn spec_sum_outputs(s: Seq<OutputDescription>) -> int
    decreases s.len(),
{
    if s.len() == 0 {
        0
    } else {
        spec_sum_outputs(s.drop_last()) + s.last().note.amount
    }
}

/// The statement `verify_transaction` checks, entirely re-derivable
/// from the transaction body: every spend's witness folds back to its
/// recorded root at its recorded position for the commitment of its
/// note, all spends share one root, every output's commitment is the
/// commitment of its note, every proof slot is nonempty, and the
/// value-balance equation holds exactly.
pub open spec fn spec_tx_statement(tx: ProvedTransaction) -> bool {
    &&& forall|i: int| 0 <= i < tx.spends@.len() ==> {
        let s = #[trigger] tx.spends@[i];
        &&& s.witness@.len() == TREE_DEPTH
        &&& s.position < TREE_CAPACITY as u64
        &&& spec_recompute(s.witness@, s.position as nat, spec_note_commitment(s.note)) == s.root
        &&& s.root == tx.spends@[0].root
        &&& s.proof@.len() > 0
    }
    &&& forall|j: int| 0 <= j < tx.outputs@.len() ==> {
        let o = #[trigger] tx.outputs@[j];
        &&& o.commitment == spec_note_commitment(o.note)
        &&& o.proof@.len() > 0
    }
    &&& spec_sum_spends(tx.spends@) == spec_sum_outputs(tx.outputs@) + tx.fee
}

/// Builds the proved transaction from a resolved transfer and the
/// oracle's proof blobs (one per spend, then one per output, each
/// nonempty).  Pure with respect to the wallet.  Fails with
/// `ProofInvalid` when the proof list does not match, and with
/// `NotYetInserted` when an input lacks a leaf position.
pub fn sign_transfer(w: &Wallet, rt: &ResolvedTransfer, proofs: &Vec<Vec<u8>>) -> (r: Result<
    (ProvedTransaction, SigningMetadata),
    WalletError,
>)
    requires
        w.wf(),
        !w.spec_view_only(),
    ensures
        match r {
            Ok((tx, meta)) => {
                &&& proofs@.len() == rt.inputs@.len() + rt.outputs@.len()
                &&& tx.fee == rt.fee
                &&& tx.spends@.len() == rt.inputs@.len()
                &&& tx.outputs@.len() == rt.outputs@.len()
                &&& forall|i: int| 0 <= i < tx.spends@.len() ==> {
                    let s = #[trigger] tx.spends@[i];
                    let e = rt.inputs@[i];
                    &&& s.note == e.note
                    &&& e.position == Some(s.position)
                    &&& s.position < w.spec_leaves().len()
                    &&& s.nullifier == spec_note_nullifier(
                        w.spec_nk()->Some_0,
                        spec_note_commitment(e.note),
                        s.position,
                    )
                    &&& s.root == spec_root(w.spec_leaves())
                    &&& s.witness@ == spec_path(w.spec_leaves(), 0, TREE_DEPTH as nat, s.position as nat)
                    &&& s.proof@ == proofs@[i]@ && s.proof@.len() > 0
                }
                &&& forall|j: int| 0 <= j < tx.outputs@.len() ==> {
                    let o = #[trigger] tx.outputs@[j];
                    let n = rt.outputs@[j];
                    &&& o.note == n
                    &&& o.commitment == spec_note_commitment(n)
                    &&& o.ciphertext.diversifier == n.recipient.diversifier
                    &&& o.ciphertext.incoming.body@ == spec_enc_body(n, n.recipient.pk)
                    &&& o.ciphertext.incoming.tag == spec_tag(n.recipient.pk, spec_enc_body(n, n.recipient.pk))
                    &&& (match spec_out_view(o.ciphertext) {
                        Some(out) => out.0 == spec_enc_body(
                            n,
                            spec_out_key(w.spec_ovk()->Some_0, n.recipient.diversifier),
                        ),
                        None => false,
                    })
                    &&& o.proof@ == proofs@[rt.inputs@.len() + j]@ && o.proof@.len() > 0
                }
                &&& meta.unpublished@.len() == tx.outputs@.len()
                &&& forall|j: int| 0 <= j < meta.unpublished@.len()
                    ==> crate::wallet::spec_ct_view(#[trigger] meta.unpublished@[j])
                        == crate::wallet::spec_ct_view(tx.outputs@[j].ciphertext)
                &&& meta.spent_auth_tokens@.len() == 0
            },
            Err(e) => (e == WalletError::ProofInvalid && (
                proofs@.len() != rt.inputs@.len() + rt.outputs@.len()
                || exists|i: int| 0 <= i < proofs@.len() && (#[trigger] proofs@[i])@.len() == 0
            )) || (e == WalletError::NotYetInserted
                && proofs@.len() == rt.inputs@.len() + rt.outputs@.len()
                && (forall|i: int| 0 <= i < proofs@.len() ==> (#[trigger] proofs@[i])@.len() > 0)
                && exists|i: int| 0 <= i < rt.inputs@.len() && (match (#[trigger] rt.inputs@[i]).position {
                    None => true,
                    Some(p) => p >= w.spec_leaves().len(),
                })),
        },
{
    let n_in = rt.inputs.len();
    let n_out = rt.outputs.len();
    let n_p = proofs.len();
    if n_p < n_in || n_p - n_in != n_out {
        return Err(WalletError::ProofInvalid);
    }
    proof {
        assert(proofs@.len() == rt.inputs@.len() + rt.outputs@.len());
    }
    let mut i: usize = 0;
    while i < proofs.len()
        invariant
            i <= proofs@.len(),
            forall|q: int| 0 <= q < i ==> (#[trigger] proofs@[q])@.len() > 0,
        decreases proofs@.len() - i,
    {
        if proofs[i].len() == 0 {
            proof {
                assert((proofs@[i as int])@.len() == 0);
            }
            return Err(WalletError::ProofInvalid);
        }
        i = i + 1;
    }
    let root = w.root();
    let nk = match w.nullifier_key() {
        Some(k) => k,
        None => {
            proof {
                assert(false);
            }
            return Err(WalletError::ProofInvalid);
        },
    };
    let ovk = match w.outgoing_key() {
        Some(k) => k,
        None => {
            proof {
                assert(false);
            }
            return Err(WalletError::ProofInvalid);
        },
    };
    let mut spends: Vec<SpendDescription> = Vec::new();
    let mut si: usize = 0;
    while si < n_in
        invariant
            w.wf(),
            !w.spec_view_only(),
            n_in == rt.inputs@.len(),
            n_out == rt.outputs@.len(),
            n_in + n_out == proofs@.len(),
            forall|q: int| 0 <= q < proofs@.len() ==> (#[trigger] proofs@[q])@.len() > 0,
            si <= n_in,
            spends@.len() == si,
            root == spec_root(w.spec_leaves()),
            Some(nk) == w.spec_nk(),
            forall|q: int| 0 <= q < si ==> {
                let s = #[trigger] spends@[q];
                let e = rt.inputs@[q];
                &&& s.note == e.note
                &&& e.position == Some(s.position)
                &&& s.position < w.spec_leaves().len()
                &&& s.nullifier == spec_note_nullifier(
                    w.spec_nk()->Some_0,
                    spec_note_commitment(e.note),
                    s.position,
                )
                &&& s.root == spec_root(w.spec_leaves())
                &&& s.witness@ == spec_path(w.spec_leaves(), 0, TREE_DEPTH as nat, s.position as nat)
                &&& s.proof@ == proofs@[q]@ && s.proof@.len() > 0
            },
        decreases n_in - si,
    {
        let e = &rt.inputs[si];
        let pos = match e.position {
            Some(p) => p,
            None => {
                proof {
                    assert(rt.inputs@[si as int].position is None);
                }
                return Err(WalletError::NotYetInserted);
            },
        };
        let path = match w.witness(pos) {
            Ok(p) => p,
            Err(_) => {
                proof {
                    assert(rt.inputs@[si as int].position == Some(pos));
                    assert(pos >= w.spec_leaves().len());
                }
                return Err(WalletError::NotYetInserted);
            },
        };
        let nf = e.note.nullifier(&nk, pos);
        let proof_blob = clone_bytes(&proofs[si]);
        spends.push(SpendDescription {
            note: e.note,
            position: pos,
            nullifier: nf,
            root,
            witness: path,
            proof: proof_blob,
        });
        si = si + 1;
    }
    let mut outputs: Vec<OutputDescription> = Vec::new();
    let mut unpublished: Vec<Ciphertext> = Vec::new();
    let mut oi: usize = 0;
    while oi < n_out
        invariant
            w.wf(),
            !w.spec_view_only(),
            n_out == rt.outputs@.len(),
            n_in + n_out == proofs@.len(),
            proofs@.len() <= usize::MAX,
            n_in == rt.inputs@.len(),
            forall|q: int| 0 <= q < proofs@.len() ==> (#[trigger] proofs@[q])@.len() > 0,
            oi <= n_out,
            outputs@.len() == oi,
            unpublished@.len() == oi,
            Some(ovk) == w.spec_ovk(),
            forall|q: int| 0 <= q < oi ==> {
                let o = #[trigger] outputs@[q];
                let n = rt.outputs@[q];
                &&& o.note == n
                &&& o.commitment == spec_note_commitment(n)
                &&& o.ciphertext.diversifier == n.recipient.diversifier
                &&& o.ciphertext.incoming.body@ == spec_enc_body(n, n.recipient.pk)
                &&& o.ciphertext.incoming.tag == spec_tag(n.recipient.pk, spec_enc_body(n, n.recipient.pk))
                &&& (match spec_out_view(o.ciphertext) {
                    Some(out) => out.0 == spec_enc_body(
                        n,
                        spec_out_key(w.spec_ovk()->Some_0, n.recipient.diversifier),
                    ),
                    None => false,
                })
                &&& o.proof@ == proofs@[n_in + q]@ && o.proof@.len() > 0
            },
            forall|q: int| 0 <= q < oi
                ==> crate::wallet::spec_ct_view(#[trigger] unpublished@[q])
                    == crate::wallet::spec_ct_view(outputs@[q].ciphertext),
        decreases n_out - oi,
    {
        let note = rt.outputs[oi];
        let cm = note.commitment();
        let ct = encrypt_note(&note, Some(&ovk));
        let ct_copy = crate::encryption::clone_ciphertext(&ct);
        let proof_blob = clone_bytes(&proofs[n_in + oi]);
        outputs.push(OutputDescription { note, commitment: cm, ciphertext: ct, proof: proof_blob });
        unpublished.push(ct_copy);
        oi = oi + 1;
    }
    let tx = ProvedTransaction { spends, outputs, fee: rt.fee };
    let meta = SigningMetadata { spent_auth_tokens: Vec::new(), unpublished };
    Ok((tx, meta))
}

/// Checks a proved transaction offline: re-derives every public input
/// from the transaction body and checks it against the recorded
/// values; the opaque proof blobs themselves are the oracle's to
/// check.  Returns exactly whether the transaction's statement holds.
pub fn verify_transaction(tx: &ProvedTransaction) -> (r: bool)
    ensures
        r == spec_tx_statement(*tx),
{
    proof {
        lemma_pow2_capacity();
    }
    let n_s = tx.spends.len();
    let mut i: usize = 0;
    let mut in_sum: u128 = 0;
    while i < n_s
        invariant
            n_s == tx.spends@.len(),
            i <= n_s,
            in_sum as int == spec_sum_spends(tx.spends@.take(i as int)),
            in_sum as int <= (i as int) * 0xffffffffffffffff,
            pow2(TREE_DEPTH as nat) == TREE_CAPACITY,
            forall|q: int| 0 <= q < i ==> {
                let s = #[trigger] tx.spends@[q];
                &&& s.witness@.len() == TREE_DEPTH
                &&& s.position < TREE_CAPACITY as u64
                &&& spec_recompute(s.witness@, s.position as nat, spec_note_commitment(s.note)) == s.root
                &&& s.root == tx.spends@[0].root
                &&& s.proof@.len() > 0
            },
        decreases n_s - i,
    {
        proof {
            assert(tx.spends@.take(i as int + 1).drop_last() =~= tx.spends@.take(i as int));
            assert(tx.spends@.take(i as int + 1).last() == tx.spends@[i as int]);
        }
        let s = &tx.spends[i];
        if s.witness.len() != TREE_DEPTH {
            return false;
        }
        if s.position >= TREE_CAPACITY as u64 {
            return false;
        }
        if s.proof.len() == 0 {
            return false;
        }
        let cm = s.note.commitment();
        let rec = recompute_root(&s.witness, s.position, &cm);
        if rec != s.root {
            return false;
        }
        if s.root != tx.spends[0].root {
            return false;
        }
        in_sum = in_sum + s.note.amount as u128;
        i = i + 1;
    }
    proof {
        assert(tx.spends@.take(n_s as int) =~= tx.spends@);
    }
    let n_o = tx.outputs.len();
    let mut j: usize = 0;
    let mut out_sum: u128 = 0;
    while j < n_o
        invariant
            n_o == tx.outputs@.len(),
            j <= n_o,
            out_sum as int == spec_sum_outputs(tx.outputs@.take(j as int)),
            out_sum as int <= (j as int) * 0xffffffffffffffff,
            forall|q: int| 0 <= q < j ==> {
                let o = #[trigger] tx.outputs@[q];
                &&& o.commitment == spec_note_commitment(o.note)
                &&& o.proof@.len() > 0
            },
        decreases n_o - j,
    {
        proof {
            assert(tx.outputs@.take(j as int + 1).drop_last() =~= tx.outputs@.take(j as int));
            assert(tx.outputs@.take(j as int + 1).last() == tx.outputs@[j as int]);
        }
        let o = &tx.outputs[j];
        if o.proof.len() == 0 {
            return false;
        }
        let cm = o.note.commitment();
        if cm != o.commitment {
            return false;
        }
        out_sum = out_sum + o.note.amount as u128;
        j = j + 1;
    }
    proof {
        assert(tx.outputs@.take(n_o as int) =~= tx.outputs@);
    }
    in_sum == out_sum + tx.fee as u128
}

fn clone_bytes(v: &Vec<u8>) -> (c: Vec<u8>)
    ensures
        c@ == v@,
{
    let mut out: Vec<u8> = Vec::new();
    let n = v.len();
    let mut i: usize = 0;
    while i < n
        invariant
            n == v@.len(),
            i <= n,
            out@ =~= v@.take(i as int),
        decreases n - i,
    {
        out.push(v[i]);
        i = i + 1;
    }
    proof {
        assert(v@.take(n as int) =~= v@);
    }
    out
}

} // verus!
