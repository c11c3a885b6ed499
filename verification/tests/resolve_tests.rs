use zeos_caterpillar::digest::{digest_bytes, Digest};
use zeos_caterpillar::encryption::encrypt_note;
use zeos_caterpillar::error::WalletError;
use zeos_caterpillar::fees::{fee_for, FeeSchedule, OpKind, FEE_OP_BEGIN, FEE_OP_SPEND};
use zeos_caterpillar::note::{change_memo, Note};
use zeos_caterpillar::resolve::{estimate_send_fee, resolve_transfer, TransferIntent};
use zeos_caterpillar::wallet::Wallet;

const EOS: u64 = 0x0004454f53;
const TOKEN_CONTRACT: u64 = 3000;

fn fresh_wallet() -> Wallet {
    Wallet::create(
        b"resolution test seed".to_vec(),
        Digest { w0: 1, w1: 2, w2: 3, w3: 4 },
        1000,
        2000,
        77,
        88,
    )
}

fn fund(w: &mut Wallet, amount: u64, salt: u64) {
    let addr = w.default_address();
    let note = Note {
        contract: TOKEN_CONTRACT,
        amount,
        symbol: EOS,
        owner: 77,
        recipient: addr,
        memo: Digest { w0: 0, w1: 0, w2: 0, w3: 0 },
        rseed: Digest { w0: salt, w1: salt ^ 1, w2: salt ^ 2, w3: salt ^ 3 },
    };
    let ct = encrypt_note(&note, None);
    let leaf_bytes = digest_bytes(&note.commitment());
    w.add_leaves(&leaf_bytes).unwrap();
    let counts = w.add_notes(&vec![ct], 1, 1000);
    assert_eq!(counts.fts, 1);
}

fn sched_flat(begin: u64) -> FeeSchedule {
    let mut s = FeeSchedule::new();
    s.set(FEE_OP_BEGIN, begin);
    s
}

fn sched_per_input(begin: u64, per_input: u64) -> FeeSchedule {
    let mut s = FeeSchedule::new();
    s.set(FEE_OP_BEGIN, begin);
    s.set(FEE_OP_SPEND, per_input);
    s
}

fn intent(amount: u64) -> TransferIntent {
    TransferIntent {
        contract: TOKEN_CONTRACT,
        symbol: EOS,
        amount,
        to: zeos_caterpillar::keys::derive_address(&Digest { w0: 5, w1: 6, w2: 7, w3: 8 }, 0),
        to_owner: 99,
        memo: Digest { w0: 0, w1: 0, w2: 0, w3: 0 },
    }
}

#[test]
fn send_from_single_note_produces_recipient_and_change() {
    // One unspent fungible note of amount 500; the schedule charges 10
    // for a one-input, one-output send; sending 300 consumes the note
    // and produces recipient(300) plus change(190), fee 10.
    let mut w = fresh_wallet();
    fund(&mut w, 500, 1);
    let sched = sched_flat(10);
    let rt = resolve_transfer(&w, &intent(300), &sched).unwrap();
    assert_eq!(rt.inputs.len(), 1);
    assert_eq!(rt.inputs[0].note.amount, 500);
    assert_eq!(rt.fee, 10);
    assert_eq!(rt.outputs.len(), 2);
    assert_eq!(rt.outputs[0].amount, 300);
    assert_eq!(rt.outputs[0].recipient, intent(300).to);
    assert_eq!(rt.outputs[1].amount, 190);
    assert_eq!(rt.outputs[1].memo, change_memo());
    assert_eq!(rt.outputs[1].recipient, w.default_address());
    // conservation, exactly
    assert_eq!(500, 300 + 190 + rt.fee);
}

#[test]
fn exact_cover_produces_no_change_output() {
    let mut w = fresh_wallet();
    fund(&mut w, 310, 1);
    let sched = sched_flat(10);
    let rt = resolve_transfer(&w, &intent(300), &sched).unwrap();
    assert_eq!(rt.outputs.len(), 1);
    assert_eq!(rt.outputs[0].amount, 300);
    assert_eq!(rt.fee, 10);
}

#[test]
fn stale_fee_is_never_used_when_second_note_is_added() {
    // Two unspent notes of 100 and 50; base fee 5, plus 10 per input
    // beyond the first: fee(1) = 5, fee(2) = 15.  Sending 140 covers
    // the stale one-input fee (150 >= 140 + 5) but not the
    // re-estimated two-input fee (150 < 140 + 15), so resolution must
    // fail rather than settle on a stale estimate.
    let mut w = fresh_wallet();
    fund(&mut w, 100, 1);
    fund(&mut w, 50, 2);
    let sched = sched_per_input(5, 10);
    let r = resolve_transfer(&w, &intent(140), &sched);
    assert!(matches!(r, Err(WalletError::InsufficientFunds)));
    // Sending 130 covers the re-estimated fee: 150 >= 130 + 15, with
    // both notes selected and the freshly estimated two-input fee.
    let rt = resolve_transfer(&w, &intent(130), &sched).unwrap();
    assert_eq!(rt.inputs.len(), 2);
    assert_eq!(rt.fee, 15);
    assert_eq!(rt.outputs[0].amount, 130);
    assert_eq!(rt.outputs[1].amount, 5);
    assert_eq!(100 + 50, 130 + 5 + rt.fee);
}

#[test]
fn insufficient_funds_returns_no_partial_transaction() {
    let mut w = fresh_wallet();
    fund(&mut w, 100, 1);
    let sched = sched_flat(10);
    let before = w.unspent_notes().len();
    let r = resolve_transfer(&w, &intent(500), &sched);
    assert!(matches!(r, Err(WalletError::InsufficientFunds)));
    assert_eq!(w.unspent_notes().len(), before);
}

#[test]
fn missing_begin_entry_is_a_hard_failure_not_zero() {
    let mut w = fresh_wallet();
    fund(&mut w, 500, 1);
    let empty = FeeSchedule::new();
    let r = resolve_transfer(&w, &intent(1), &empty);
    assert!(matches!(r, Err(WalletError::MissingFeeEntry)));
    assert_eq!(estimate_send_fee(&w, 1, &empty, TOKEN_CONTRACT, EOS), None);
}

#[test]
fn zero_symbol_intent_is_invalid() {
    let w = fresh_wallet();
    let mut bad = intent(10);
    bad.symbol = 0;
    let r = resolve_transfer(&w, &bad, &sched_flat(10));
    assert!(matches!(r, Err(WalletError::InvalidIntent)));
}

#[test]
fn fee_is_monotonic_in_input_and_output_count() {
    let sched = sched_per_input(5, 10);
    let mut prev = 0u64;
    for k in 1..8usize {
        let f = fee_for(OpKind::Transfer, k, 1, &sched).unwrap();
        assert!(f >= prev);
        prev = f;
    }
    let f11 = fee_for(OpKind::Transfer, 1, 1, &sched).unwrap();
    let f12 = fee_for(OpKind::Transfer, 1, 2, &sched).unwrap();
    assert!(f12 >= f11);
}

#[test]
fn fee_formula_exact_values() {
    let mut s = FeeSchedule::new();
    s.set(FEE_OP_BEGIN, 5);
    s.set(FEE_OP_SPEND, 10);
    s.set(zeos_caterpillar::fees::FEE_OP_OUTPUT, 3);
    assert_eq!(fee_for(OpKind::Transfer, 1, 1, &s), Some(5));
    assert_eq!(fee_for(OpKind::Transfer, 2, 1, &s), Some(15));
    assert_eq!(fee_for(OpKind::Transfer, 3, 2, &s), Some(28));
    assert_eq!(fee_for(OpKind::Transfer, 1, 1, &FeeSchedule::new()), None);
}

#[test]
fn burn_and_vault_creation_fees_add_their_entries() {
    let mut s = FeeSchedule::new();
    s.set(FEE_OP_BEGIN, 5);
    s.set(zeos_caterpillar::fees::FEE_OP_AUTHENTICATE, 7);
    s.set(zeos_caterpillar::fees::FEE_OP_WITHDRAW, 11);
    s.set(zeos_caterpillar::fees::FEE_OP_PUBLISHNOTES, 13);
    assert_eq!(fee_for(OpKind::BurnAuth { withdraw: false }, 1, 1, &s), Some(12));
    assert_eq!(fee_for(OpKind::BurnAuth { withdraw: true }, 1, 1, &s), Some(23));
    assert_eq!(fee_for(OpKind::PublishNotes, 1, 1, &s), Some(18));
}

#[test]
fn estimate_send_fee_accounts_for_fragmentation() {
    let mut w = fresh_wallet();
    fund(&mut w, 100, 1);
    fund(&mut w, 100, 2);
    fund(&mut w, 100, 3);
    let sched = sched_per_input(5, 10);
    // 120 needs two notes: fee(2) = 15.
    assert_eq!(estimate_send_fee(&w, 120, &sched, TOKEN_CONTRACT, EOS), Some(15));
    // 60 fits in one note: fee(1) = 5.
    assert_eq!(estimate_send_fee(&w, 60, &sched, TOKEN_CONTRACT, EOS), Some(5));
    // 400 cannot be covered at all.
    assert_eq!(estimate_send_fee(&w, 400, &sched, TOKEN_CONTRACT, EOS), None);
}

#[test]
fn selection_is_deterministic_store_order() {
    let mut w = fresh_wallet();
    fund(&mut w, 30, 1);
    fund(&mut w, 200, 2);
    let sched = sched_flat(0);
    let rt = resolve_transfer(&w, &intent(20), &sched).unwrap();
    // store order: the 30 note is consumed first even though the 200
    // note alone would cover the send
    assert_eq!(rt.inputs.len(), 1);
    assert_eq!(rt.inputs[0].note.amount, 30);
}

#[test]
fn burn_vault_resolution_balances_fee_inputs_exactly() {
    let mut w = fresh_wallet();
    fund(&mut w, 100, 1);
    let auth = zeos_caterpillar::note::Note {
        contract: 2000,
        amount: 0,
        symbol: 0,
        owner: 77,
        recipient: w.default_address(),
        memo: Digest { w0: 0, w1: 0, w2: 0, w3: 0 },
        rseed: Digest { w0: 55, w1: 0, w2: 0, w3: 0 },
    };
    w.add_leaves(&zeos_caterpillar::digest::digest_bytes(&auth.commitment())).unwrap();
    w.add_notes(&vec![zeos_caterpillar::encryption::encrypt_note(&auth, None)], 1, 1000);
    let mut sched = FeeSchedule::new();
    sched.set(FEE_OP_BEGIN, 5);
    sched.set(zeos_caterpillar::fees::FEE_OP_AUTHENTICATE, 7);
    sched.set(zeos_caterpillar::fees::FEE_OP_WITHDRAW, 11);
    let ra = zeos_caterpillar::resolve::resolve_burn(
        &w,
        &auth.commitment(),
        true,
        TOKEN_CONTRACT,
        EOS,
        &sched,
    )
    .unwrap();
    assert!(ra.burn);
    assert_eq!(ra.auth.note, auth);
    // fee = begin 5 + authenticate 7 + withdraw 11 = 23, paid from the
    // single 100 note with 77 change
    assert_eq!(ra.fee, 23);
    assert_eq!(ra.fee_inputs.len(), 1);
    assert_eq!(ra.outputs.len(), 1);
    assert_eq!(ra.outputs[0].amount, 77);
    assert_eq!(100, 77 + ra.fee);
    // an unknown commitment is an invalid intent
    let bogus = Digest { w0: 1, w1: 2, w2: 3, w3: 4 };
    assert!(matches!(
        zeos_caterpillar::resolve::resolve_burn(&w, &bogus, false, TOKEN_CONTRACT, EOS, &sched),
        Err(WalletError::InvalidIntent)
    ));
}
