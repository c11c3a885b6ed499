use zeos_caterpillar::digest::{digest_bytes, Digest};
use zeos_caterpillar::encryption::encrypt_note;
use zeos_caterpillar::note::Note;
use zeos_caterpillar::persist::{wallet_size, wallet_write};
use zeos_caterpillar::token::create_auth_token;
use zeos_caterpillar::wallet::Wallet;

const EOS: u64 = 0x0004454f53;

fn persisted_wallet() -> Wallet {
    let mut w = Wallet::create(
        b"persistence test seed".to_vec(),
        Digest { w0: 3, w1: 3, w2: 3, w3: 3 },
        1000,
        2000,
        77,
        88,
    );
    let note = Note {
        contract: 3000,
        amount: 500,
        symbol: EOS,
        owner: 77,
        recipient: w.default_address(),
        memo: Digest { w0: 0, w1: 0, w2: 0, w3: 0 },
        rseed: Digest { w0: 11, w1: 0, w2: 0, w3: 0 },
    };
    w.add_leaves(&digest_bytes(&note.commitment())).unwrap();
    w.add_notes(&vec![encrypt_note(&note, None)], 1, 1000);
    let (_, ct) = create_auth_token(&w, &b"vault".to_vec(), 2000, w.default_address());
    w.add_unpublished_notes(&vec![ct]);
    w
}

#[test]
fn size_equals_exact_serialized_length() {
    let w = persisted_wallet();
    let bytes = wallet_write(&w);
    assert_eq!(wallet_size(&w), bytes.len());
    assert!(bytes.len() > 0);
}

#[test]
fn serialization_is_deterministic() {
    let a = persisted_wallet();
    let b = persisted_wallet();
    assert_eq!(wallet_write(&a), wallet_write(&b));
}

#[test]
fn serialization_reflects_state_changes() {
    let a = persisted_wallet();
    let mut b = persisted_wallet();
    let extra = Note {
        contract: 3000,
        amount: 7,
        symbol: EOS,
        owner: 77,
        recipient: b.default_address(),
        memo: Digest { w0: 0, w1: 0, w2: 0, w3: 0 },
        rseed: Digest { w0: 22, w1: 0, w2: 0, w3: 0 },
    };
    b.add_leaves(&digest_bytes(&extra.commitment())).unwrap();
    b.add_notes(&vec![encrypt_note(&extra, None)], 2, 2000);
    assert_ne!(wallet_write(&a), wallet_write(&b));
    assert!(wallet_size(&b) > wallet_size(&a));
}

#[test]
fn balances_lists_each_pair_once_with_exact_totals() {
    let mut w = persisted_wallet();
    let other = Note {
        contract: 4000,
        amount: 9,
        symbol: 0x0002414141,
        owner: 77,
        recipient: w.default_address(),
        memo: Digest { w0: 0, w1: 0, w2: 0, w3: 0 },
        rseed: Digest { w0: 33, w1: 0, w2: 0, w3: 0 },
    };
    w.add_leaves(&digest_bytes(&other.commitment())).unwrap();
    w.add_notes(&vec![encrypt_note(&other, None)], 2, 2000);
    let more = Note {
        contract: 3000,
        amount: 250,
        symbol: EOS,
        owner: 77,
        recipient: w.default_address(),
        memo: Digest { w0: 0, w1: 0, w2: 0, w3: 0 },
        rseed: Digest { w0: 44, w1: 0, w2: 0, w3: 0 },
    };
    w.add_leaves(&digest_bytes(&more.commitment())).unwrap();
    w.add_notes(&vec![encrypt_note(&more, None)], 3, 3000);
    let mut b = w.balances();
    b.sort();
    assert_eq!(b, vec![(3000, EOS, 750), (4000, 0x0002414141, 9)]);
}
