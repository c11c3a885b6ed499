use zeos_caterpillar::digest::{digest_bytes, Digest};
use zeos_caterpillar::encryption::encrypt_note;
use zeos_caterpillar::error::WalletError;
use zeos_caterpillar::fees::{FeeSchedule, FEE_OP_BEGIN};
use zeos_caterpillar::note::Note;
use zeos_caterpillar::resolve::{resolve_transfer, TransferIntent};
use zeos_caterpillar::sign::{sign_transfer, verify_transaction};
use zeos_caterpillar::wallet::Wallet;

const EOS: u64 = 0x0004454f53;
const TOKEN_CONTRACT: u64 = 3000;

fn signing_wallet() -> Wallet {
    Wallet::create(
        b"signing test seed".to_vec(),
        Digest { w0: 2, w1: 2, w2: 2, w3: 2 },
        1000,
        2000,
        77,
        88,
    )
}

fn fund_signer(w: &mut Wallet, amount: u64, salt: u64) {
    let note = Note {
        contract: TOKEN_CONTRACT,
        amount,
        symbol: EOS,
        owner: 77,
        recipient: w.default_address(),
        memo: Digest { w0: 0, w1: 0, w2: 0, w3: 0 },
        rseed: Digest { w0: salt, w1: 0, w2: 0, w3: 0 },
    };
    let ct = encrypt_note(&note, None);
    w.add_leaves(&digest_bytes(&note.commitment())).unwrap();
    assert_eq!(w.add_notes(&vec![ct], 1, 1000).fts, 1);
}

fn send_intent(amount: u64) -> TransferIntent {
    TransferIntent {
        contract: TOKEN_CONTRACT,
        symbol: EOS,
        amount,
        to: zeos_caterpillar::keys::derive_address(&Digest { w0: 42, w1: 0, w2: 0, w3: 0 }, 1),
        to_owner: 99,
        memo: Digest { w0: 0, w1: 0, w2: 0, w3: 0 },
    }
}

fn sched10() -> FeeSchedule {
    let mut s = FeeSchedule::new();
    s.set(FEE_OP_BEGIN, 10);
    s
}

fn oracle_proofs(n: usize) -> Vec<Vec<u8>> {
    (0..n).map(|i| vec![0xAB, i as u8, 0xCD]).collect()
}

#[test]
fn signed_transaction_verifies_offline() {
    let mut w = signing_wallet();
    fund_signer(&mut w, 500, 1);
    let rt = resolve_transfer(&w, &send_intent(300), &sched10()).unwrap();
    let n = rt.inputs.len() + rt.outputs.len();
    let (tx, meta) = sign_transfer(&w, &rt, &oracle_proofs(n)).unwrap();
    assert_eq!(tx.fee, 10);
    assert_eq!(tx.spends.len(), 1);
    assert_eq!(tx.outputs.len(), 2);
    assert_eq!(meta.unpublished.len(), 2);
    assert!(verify_transaction(&tx));
    // each spend carries the current root and a full witness
    assert_eq!(tx.spends[0].root, w.root());
    assert_eq!(tx.spends[0].position, 0);
}

#[test]
fn tampered_transaction_fails_verification() {
    let mut w = signing_wallet();
    fund_signer(&mut w, 500, 1);
    let rt = resolve_transfer(&w, &send_intent(300), &sched10()).unwrap();
    let n = rt.inputs.len() + rt.outputs.len();
    let (mut tx, _) = sign_transfer(&w, &rt, &oracle_proofs(n)).unwrap();
    tx.fee += 1;  // break the balance equation
    assert!(!verify_transaction(&tx));
}

#[test]
fn tampered_output_commitment_fails_verification() {
    let mut w = signing_wallet();
    fund_signer(&mut w, 500, 1);
    let rt = resolve_transfer(&w, &send_intent(300), &sched10()).unwrap();
    let n = rt.inputs.len() + rt.outputs.len();
    let (mut tx, _) = sign_transfer(&w, &rt, &oracle_proofs(n)).unwrap();
    tx.outputs[0].commitment.w0 ^= 1;
    assert!(!verify_transaction(&tx));
}

#[test]
fn tampered_witness_fails_verification() {
    let mut w = signing_wallet();
    fund_signer(&mut w, 500, 1);
    let rt = resolve_transfer(&w, &send_intent(300), &sched10()).unwrap();
    let n = rt.inputs.len() + rt.outputs.len();
    let (mut tx, _) = sign_transfer(&w, &rt, &oracle_proofs(n)).unwrap();
    tx.spends[0].witness[0].w1 ^= 1;
    assert!(!verify_transaction(&tx));
}

#[test]
fn wrong_proof_count_is_rejected() {
    let mut w = signing_wallet();
    fund_signer(&mut w, 500, 1);
    let rt = resolve_transfer(&w, &send_intent(300), &sched10()).unwrap();
    let r = sign_transfer(&w, &rt, &oracle_proofs(1));
    assert!(matches!(r, Err(WalletError::ProofInvalid)));
    let empty_slot = vec![vec![1u8], Vec::new(), vec![2u8]];
    let r2 = sign_transfer(&w, &rt, &empty_slot);
    assert!(matches!(r2, Err(WalletError::ProofInvalid)));
}

#[test]
fn signing_does_not_mutate_the_wallet() {
    let mut w = signing_wallet();
    fund_signer(&mut w, 500, 1);
    let rt = resolve_transfer(&w, &send_intent(300), &sched10()).unwrap();
    let before_unspent = w.unspent_notes().len();
    let before_balance = w.balance_of(TOKEN_CONTRACT, EOS);
    let n = rt.inputs.len() + rt.outputs.len();
    let _ = sign_transfer(&w, &rt, &oracle_proofs(n)).unwrap();
    assert_eq!(w.unspent_notes().len(), before_unspent);
    assert_eq!(w.balance_of(TOKEN_CONTRACT, EOS), before_balance);
}

#[test]
fn eager_update_reflects_the_send_immediately() {
    let mut w = signing_wallet();
    fund_signer(&mut w, 500, 1);
    assert_eq!(w.balance_of(TOKEN_CONTRACT, EOS), 500);
    let rt = resolve_transfer(&w, &send_intent(300), &sched10()).unwrap();
    let n = rt.inputs.len() + rt.outputs.len();
    let (tx, meta) = sign_transfer(&w, &rt, &oracle_proofs(n)).unwrap();
    // the caller's explicit follow-up: output commitments as leaves,
    // spent inputs as nullifiers, ciphertexts for re-ingestion
    let mut leaves: Vec<u8> = Vec::new();
    for o in &tx.outputs {
        leaves.extend_from_slice(&digest_bytes(&o.commitment));
    }
    let mut nfs: Vec<u8> = Vec::new();
    for s in &tx.spends {
        nfs.extend_from_slice(&digest_bytes(&s.nullifier));
    }
    let before_ts = w.block_ts();
    let no_extra: Vec<zeos_caterpillar::encryption::Ciphertext> = Vec::new();
    w.apply_local_effects(&leaves, &meta.unpublished, &nfs, &no_extra, 500_000).unwrap();
    // the spent input is gone, the change note is back, at once
    assert_eq!(w.balance_of(TOKEN_CONTRACT, EOS), 190);
    assert_eq!(w.spent_notes().len(), 1);
    // the locally synthesized timestamp is strictly after all
    // previously confirmed state
    assert!(w.block_ts() > before_ts);
    // the recipient's note is not ours: it lands in outgoing only if
    // the outgoing seal decrypts, and never in unspent
    for e in w.unspent_notes() {
        assert_eq!(e.note.contract, TOKEN_CONTRACT);
        assert_ne!(e.note.recipient, send_intent(300).to);
    }
}

#[test]
fn outgoing_note_is_recorded_for_history_on_eager_update() {
    let mut w = signing_wallet();
    fund_signer(&mut w, 500, 1);
    let rt = resolve_transfer(&w, &send_intent(300), &sched10()).unwrap();
    let n = rt.inputs.len() + rt.outputs.len();
    let (tx, meta) = sign_transfer(&w, &rt, &oracle_proofs(n)).unwrap();
    let mut leaves: Vec<u8> = Vec::new();
    for o in &tx.outputs {
        leaves.extend_from_slice(&digest_bytes(&o.commitment));
    }
    let no_nfs: Vec<u8> = Vec::new();
    let no_extra2: Vec<zeos_caterpillar::encryption::Ciphertext> = Vec::new();
    w.apply_local_effects(&leaves, &meta.unpublished, &no_nfs, &no_extra2, 500_000).unwrap();
    // the recipient output decrypts under our outgoing key: history
    assert_eq!(w.outgoing_notes().len(), 1);
    assert_eq!(w.outgoing_notes()[0].note.amount, 300);
    // the change output decrypts under our own viewing key: spendable
    assert_eq!(w.balance_of(TOKEN_CONTRACT, EOS), 500 + 190);
}
