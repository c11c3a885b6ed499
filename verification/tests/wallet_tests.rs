use zeos_caterpillar::digest::{digest_bytes, Digest};
use zeos_caterpillar::encryption::encrypt_note;
use zeos_caterpillar::error::WalletError;
use zeos_caterpillar::keys::{derive_address, derive_key, KEY_TAG_IVK, KEY_TAG_NK};
use zeos_caterpillar::note::{Note, NoteKind};
use zeos_caterpillar::token::create_auth_token;
use zeos_caterpillar::wallet::Wallet;

const EOS: u64 = 0x0004454f53;
const TOKEN_CONTRACT: u64 = 3000;

fn wallet_a() -> Wallet {
    Wallet::create(
        b"wallet store test seed".to_vec(),
        Digest { w0: 1, w1: 1, w2: 1, w3: 1 },
        1000,
        2000,
        77,
        88,
    )
}

fn note_to(w: &Wallet, amount: u64, symbol: u64, salt: u64) -> Note {
    Note {
        contract: TOKEN_CONTRACT,
        amount,
        symbol,
        owner: 77,
        recipient: w.default_address(),
        memo: Digest { w0: 0, w1: 0, w2: 0, w3: 0 },
        rseed: Digest { w0: salt, w1: salt, w2: salt, w3: salt },
    }
}

#[test]
fn out_of_order_block_leaves_note_absent_until_leaf_arrives() {
    // The ciphertext decrypts but its commitment is not yet a leaf:
    // the note must stay absent from unspent, and a later digestion
    // that first appends the leaf then re-processes the ciphertext
    // inserts it with the correct tree position.
    let mut w = wallet_a();
    let note = note_to(&w, 500, EOS, 1);
    let ct = encrypt_note(&note, None);
    let counts = w.add_notes(&vec![ct], 5, 5000);
    assert_eq!((counts.fts, counts.nfts, counts.ats), (0, 0, 0));
    assert_eq!(w.unspent_notes().len(), 0);
    // pad the tree so the note's position is nonzero, then the leaf
    let pad = Note {
        rseed: Digest { w0: 9999, w1: 0, w2: 0, w3: 0 },
        ..note
    };
    let mut leaves = digest_bytes(&pad.commitment());
    leaves.extend_from_slice(&digest_bytes(&note.commitment()));
    w.add_leaves(&leaves).unwrap();
    let ct2 = encrypt_note(&note, None);
    let counts2 = w.add_notes(&vec![ct2], 6, 6000);
    assert_eq!(counts2.fts, 1);
    assert_eq!(w.unspent_notes().len(), 1);
    assert_eq!(w.unspent_notes()[0].position, Some(1));
    assert_eq!(w.unspent_notes()[0].note, note);
}

#[test]
fn unmatched_nullifier_changes_nothing_and_counts_zero() {
    let mut w = wallet_a();
    let note = note_to(&w, 500, EOS, 1);
    let ct = encrypt_note(&note, None);
    w.add_leaves(&digest_bytes(&note.commitment())).unwrap();
    w.add_notes(&vec![ct], 1, 1000);
    assert_eq!(w.unspent_notes().len(), 1);
    let bogus = Digest { w0: 123, w1: 456, w2: 789, w3: 101112 };
    let moved = w.mark_notes_spent(&digest_bytes(&bogus)).unwrap();
    assert_eq!(moved, 0);
    assert_eq!(w.unspent_notes().len(), 1);
    assert_eq!(w.spent_notes().len(), 0);
    assert_eq!(w.outgoing_notes().len(), 0);
}

#[test]
fn matching_nullifier_moves_note_to_spent() {
    let mut w = wallet_a();
    let note = note_to(&w, 500, EOS, 1);
    let ct = encrypt_note(&note, None);
    w.add_leaves(&digest_bytes(&note.commitment())).unwrap();
    w.add_notes(&vec![ct], 1, 1000);
    let nk = derive_key(&b"wallet store test seed".to_vec(), KEY_TAG_NK);
    let nf = note.nullifier(&nk, 0);
    let moved = w.mark_notes_spent(&digest_bytes(&nf)).unwrap();
    assert_eq!(moved, 1);
    assert_eq!(w.unspent_notes().len(), 0);
    assert_eq!(w.spent_notes().len(), 1);
    assert_eq!(w.balance_of(TOKEN_CONTRACT, EOS), 0);
}

#[test]
fn nullifier_batch_with_bad_length_is_rejected_whole() {
    let mut w = wallet_a();
    let r = w.mark_notes_spent(&vec![1, 2, 3]);
    assert!(matches!(r, Err(WalletError::WrongLength)));
    let r2 = w.add_leaves(&vec![0; 33]);
    assert!(matches!(r2, Err(WalletError::WrongLength)));
}

#[test]
fn auth_token_is_excluded_from_balances_and_selection() {
    let mut w = wallet_a();
    let auth = note_to(&w, 0, 0, 1);
    let ct = encrypt_note(&auth, None);
    w.add_leaves(&digest_bytes(&auth.commitment())).unwrap();
    let counts = w.add_notes(&vec![ct], 1, 1000);
    assert_eq!(counts.ats, 1);
    assert_eq!(w.unspent_notes().len(), 1);
    // never counted in fungible balances
    assert_eq!(w.balance_of(TOKEN_CONTRACT, 0), 0);
    assert_eq!(w.balance_of(TOKEN_CONTRACT, EOS), 0);
    // never selected to pay amounts or fees
    let mut sched = zeos_caterpillar::fees::FeeSchedule::new();
    sched.set(zeos_caterpillar::fees::FEE_OP_BEGIN, 0);
    let r = zeos_caterpillar::resolve::resolve_transfer(
        &w,
        &zeos_caterpillar::resolve::TransferIntent {
            contract: TOKEN_CONTRACT,
            symbol: EOS,
            amount: 0,
            to: w.default_address(),
            to_owner: 77,
            memo: Digest { w0: 0, w1: 0, w2: 0, w3: 0 },
        },
        &sched,
    );
    assert!(matches!(r, Err(WalletError::InsufficientFunds)));
}

#[test]
fn no_note_is_tracked_twice_across_collections() {
    let mut w = wallet_a();
    let note = note_to(&w, 500, EOS, 1);
    w.add_leaves(&digest_bytes(&note.commitment())).unwrap();
    // the same ciphertext delivered twice inserts only once
    let counts = w.add_notes(&vec![encrypt_note(&note, None), encrypt_note(&note, None)], 1, 1000);
    assert_eq!(counts.fts, 1);
    assert_eq!(w.unspent_notes().len(), 1);
    // re-delivery after spending does not resurrect the note
    let nk = derive_key(&b"wallet store test seed".to_vec(), KEY_TAG_NK);
    let nf = note.nullifier(&nk, 0);
    w.mark_notes_spent(&digest_bytes(&nf)).unwrap();
    let counts2 = w.add_notes(&vec![encrypt_note(&note, None)], 2, 2000);
    assert_eq!(counts2.fts, 0);
    assert_eq!(w.unspent_notes().len(), 0);
    assert_eq!(w.spent_notes().len(), 1);
}

#[test]
fn digest_block_applies_leaves_then_notes_then_nullifiers() {
    let mut w = wallet_a();
    let note = note_to(&w, 500, EOS, 1);
    let ct = encrypt_note(&note, None);
    let nk = derive_key(&b"wallet store test seed".to_vec(), KEY_TAG_NK);
    let nf = note.nullifier(&nk, 0);
    // one block carries the leaf, the ciphertext and the nullifier:
    // the mandated order inserts the note and then spends it
    let id = w
        .digest_block(&digest_bytes(&note.commitment()), &vec![ct], &digest_bytes(&nf), 3, 3000)
        .unwrap();
    assert_ne!(id, 0);
    assert_eq!(w.unspent_notes().len(), 0);
    assert_eq!(w.spent_notes().len(), 1);
    assert_eq!(w.block_num(), 3);
    assert_eq!(w.block_ts(), 3000);
}

#[test]
fn unpublished_notes_are_retried_and_pruned_once_absorbed() {
    let mut w = wallet_a();
    let seed = b"vault seed".to_vec();
    let (auth, ct) = create_auth_token(&w, &seed, 2000, w.default_address());
    assert_eq!(auth.kind(), NoteKind::AuthToken);
    w.add_unpublished_notes(&vec![ct]);
    assert_eq!(w.unpublished_notes().len(), 1);
    // a digestion without the leaf keeps retrying
    let no_bytes: Vec<u8> = Vec::new();
    let none: Vec<zeos_caterpillar::encryption::Ciphertext> = Vec::new();
    w.digest_block(&no_bytes, &none, &no_bytes, 1, 1000).unwrap();
    assert_eq!(w.unspent_notes().len(), 0);
    assert_eq!(w.unpublished_notes().len(), 1);
    // once the leaf is observed, the retry inserts the note and the
    // pool drops it
    let none2: Vec<zeos_caterpillar::encryption::Ciphertext> = Vec::new();
    w.digest_block(&digest_bytes(&auth.commitment()), &none2, &no_bytes, 2, 2000).unwrap();
    assert_eq!(w.unspent_notes().len(), 1);
    assert_eq!(w.unspent_notes()[0].note, auth);
    assert_eq!(w.unpublished_notes().len(), 0);
}

#[test]
fn burn_auth_token_moves_it_to_spent() {
    let mut w = wallet_a();
    let auth = note_to(&w, 0, 0, 5);
    w.add_leaves(&digest_bytes(&auth.commitment())).unwrap();
    w.add_notes(&vec![encrypt_note(&auth, None)], 1, 1000);
    assert_eq!(w.unspent_notes().len(), 1);
    assert!(w.burn_auth_token(&auth.commitment(), 9000));
    assert_eq!(w.unspent_notes().len(), 0);
    assert_eq!(w.spent_notes().len(), 1);
    assert_eq!(w.spent_notes()[0].block_ts, 9000);
    // burning again finds nothing
    assert!(!w.burn_auth_token(&auth.commitment(), 9001));
}

#[test]
fn balances_sum_only_matching_fungible_notes() {
    let mut w = wallet_a();
    for (amount, salt) in [(100u64, 1u64), (50, 2)] {
        let n = note_to(&w, amount, EOS, salt);
        w.add_leaves(&digest_bytes(&n.commitment())).unwrap();
        w.add_notes(&vec![encrypt_note(&n, None)], 1, 1000);
    }
    let other_sym = note_to(&w, 9, 0x0002414141, 3);
    w.add_leaves(&digest_bytes(&other_sym.commitment())).unwrap();
    w.add_notes(&vec![encrypt_note(&other_sym, None)], 1, 1000);
    assert_eq!(w.balance_of(TOKEN_CONTRACT, EOS), 150);
    assert_eq!(w.balance_of(TOKEN_CONTRACT, 0x0002414141), 9);
    assert_eq!(w.balance_of(9999, EOS), 0);
    assert_eq!(w.fungible_tokens(EOS, TOKEN_CONTRACT).len(), 2);
}

#[test]
fn view_only_wallet_detects_incoming_but_never_spends() {
    let full_seed = b"full wallet".to_vec();
    let ivk = derive_key(&full_seed, KEY_TAG_IVK);
    let mut w = Wallet::create_view_only(
        ivk,
        Digest { w0: 0, w1: 0, w2: 0, w3: 0 },
        1000,
        2000,
        77,
        88,
    );
    assert!(w.is_ivk());
    let note = Note {
        contract: TOKEN_CONTRACT,
        amount: 44,
        symbol: EOS,
        owner: 77,
        recipient: derive_address(&ivk, 0),
        memo: Digest { w0: 0, w1: 0, w2: 0, w3: 0 },
        rseed: Digest { w0: 4, w1: 4, w2: 4, w3: 4 },
    };
    w.add_leaves(&digest_bytes(&note.commitment())).unwrap();
    let counts = w.add_notes(&vec![encrypt_note(&note, None)], 1, 1000);
    assert_eq!(counts.fts, 1);
    assert_eq!(w.balance_of(TOKEN_CONTRACT, EOS), 44);
    // without a nullifier key, nothing ever matches
    let nk = derive_key(&full_seed, KEY_TAG_NK);
    let nf = note.nullifier(&nk, 0);
    assert_eq!(w.mark_notes_spent(&digest_bytes(&nf)).unwrap(), 0);
}

#[test]
fn reset_chain_state_clears_chain_data_and_keeps_keys() {
    let mut w = wallet_a();
    let note = note_to(&w, 500, EOS, 1);
    w.add_leaves(&digest_bytes(&note.commitment())).unwrap();
    w.add_notes(&vec![encrypt_note(&note, None)], 7, 7000);
    let addr = w.default_address();
    w.reset_chain_state();
    assert_eq!(w.leaf_count(), 0);
    assert_eq!(w.unspent_notes().len(), 0);
    assert_eq!(w.block_num(), 0);
    assert_eq!(w.default_address(), addr);
}

#[test]
fn derive_next_address_advances_and_is_reproducible() {
    let mut w1 = wallet_a();
    let mut w2 = wallet_a();
    let a1 = w1.derive_next_address();
    let b1 = w2.derive_next_address();
    assert_eq!(a1, b1);
    let a2 = w1.derive_next_address();
    assert_ne!(a1, a2);
    assert_ne!(w1.default_address(), a1);
}

#[test]
fn derive_vault_seed_is_deterministic_per_index() {
    let w = wallet_a();
    assert_eq!(w.derive_vault_seed(0), w.derive_vault_seed(0));
    assert_ne!(w.derive_vault_seed(0), w.derive_vault_seed(1));
}

#[test]
fn hex_entry_points_reject_bad_hex_and_accept_good() {
    let mut w = wallet_a();
    let note = note_to(&w, 500, EOS, 1);
    let leaf_hex = zeos_caterpillar::hexstr::encode_hex(&digest_bytes(&note.commitment()));
    assert!(matches!(
        w.add_leaves_hex(&b"not hex!".to_vec()),
        Err(WalletError::InvalidHex)
    ));
    assert_eq!(w.add_leaves_hex(&leaf_hex).unwrap(), 1);
    assert_eq!(w.leaf_count(), 1);
    w.add_notes(&vec![encrypt_note(&note, None)], 1, 1000);
    let nk = derive_key(&b"wallet store test seed".to_vec(), KEY_TAG_NK);
    let nf_hex = zeos_caterpillar::hexstr::encode_hex(&digest_bytes(&note.nullifier(&nk, 0)));
    assert!(matches!(
        w.mark_notes_spent_hex(&b"abc".to_vec()),
        Err(WalletError::InvalidHex)
    ));
    assert_eq!(w.mark_notes_spent_hex(&nf_hex).unwrap(), 1);
    assert_eq!(w.spent_notes().len(), 1);
}

#[test]
fn empty_nullifier_batch_is_success_with_count_zero() {
    let mut w = wallet_a();
    let note = note_to(&w, 500, EOS, 1);
    w.add_leaves(&digest_bytes(&note.commitment())).unwrap();
    w.add_notes(&vec![encrypt_note(&note, None)], 1, 1000);
    assert_eq!(w.mark_notes_spent_hex(&Vec::new()).unwrap(), 0);
    assert_eq!(w.unspent_notes().len(), 1);
    assert_eq!(w.spent_notes().len(), 0);
}
