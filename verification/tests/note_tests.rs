use zeos_caterpillar::digest::Digest;
use zeos_caterpillar::encryption::{decrypt_note, decrypt_note_outgoing, encrypt_note};
use zeos_caterpillar::keys::{derive_address, derive_key, KEY_TAG_IVK, KEY_TAG_OVK};
use zeos_caterpillar::note::{change_memo, Note, NoteKind};

fn seed_a() -> Vec<u8> {
    b"correct horse battery staple".to_vec()
}

fn demo_note(amount: u64, symbol: u64, ivk: &Digest) -> Note {
    Note {
        contract: 1111,
        amount,
        symbol,
        owner: 42,
        recipient: derive_address(ivk, 3),
        memo: Digest { w0: 9, w1: 8, w2: 7, w3: 6 },
        rseed: Digest { w0: 100, w1: 200, w2: 300, w3: 400 },
    }
}

#[test]
fn decrypt_encrypt_roundtrip_with_matching_key() {
    let seed = seed_a();
    let ivk = derive_key(&seed, KEY_TAG_IVK);
    let note = demo_note(500, 0x0004454f53, &ivk);
    let ct = encrypt_note(&note, None);
    let got = decrypt_note(&ct, &ivk);
    assert_eq!(got, Some(note));
}

#[test]
fn decrypt_with_wrong_key_yields_none() {
    let seed = seed_a();
    let ivk = derive_key(&seed, KEY_TAG_IVK);
    let note = demo_note(500, 0x0004454f53, &ivk);
    let ct = encrypt_note(&note, None);
    let other = derive_key(&b"a different seed".to_vec(), KEY_TAG_IVK);
    assert_eq!(decrypt_note(&ct, &other), None);
}

#[test]
fn outgoing_roundtrip_with_senders_outgoing_key() {
    let recipient_seed = b"the receiving side".to_vec();
    let recipient_ivk = derive_key(&recipient_seed, KEY_TAG_IVK);
    let sender_seed = seed_a();
    let sender_ovk = derive_key(&sender_seed, KEY_TAG_OVK);
    let note = demo_note(77, 0x0004454f53, &recipient_ivk);
    let ct = encrypt_note(&note, Some(&sender_ovk));
    assert_eq!(decrypt_note_outgoing(&ct, &sender_ovk), Some(note));
    let other = derive_key(&b"somebody else".to_vec(), KEY_TAG_OVK);
    assert_eq!(decrypt_note_outgoing(&ct, &other), None);
}

#[test]
fn ciphertext_without_outgoing_seal_never_decrypts_outgoing() {
    let seed = seed_a();
    let ivk = derive_key(&seed, KEY_TAG_IVK);
    let ovk = derive_key(&seed, KEY_TAG_OVK);
    let note = demo_note(1, 0x0004454f53, &ivk);
    let ct = encrypt_note(&note, None);
    assert_eq!(decrypt_note_outgoing(&ct, &ovk), None);
}

#[test]
fn tampered_ciphertext_yields_none() {
    let seed = seed_a();
    let ivk = derive_key(&seed, KEY_TAG_IVK);
    let note = demo_note(500, 0x0004454f53, &ivk);
    let mut ct = encrypt_note(&note, None);
    ct.incoming.body[0] ^= 1;
    assert_eq!(decrypt_note(&ct, &ivk), None);
}

#[test]
fn note_kind_classification_order() {
    let seed = seed_a();
    let ivk = derive_key(&seed, KEY_TAG_IVK);
    // amount == 0 and symbol == 0: auth token
    assert_eq!(demo_note(0, 0, &ivk).kind(), NoteKind::AuthToken);
    // symbol == 0, amount != 0: non-fungible (amount holds the id)
    assert_eq!(demo_note(123456, 0, &ivk).kind(), NoteKind::NonFungible);
    // everything else: fungible
    assert_eq!(demo_note(500, 0x0004454f53, &ivk).kind(), NoteKind::Fungible);
    assert_eq!(demo_note(0, 0x0004454f53, &ivk).kind(), NoteKind::Fungible);
}

#[test]
fn commitment_is_deterministic_and_binds_rseed() {
    let seed = seed_a();
    let ivk = derive_key(&seed, KEY_TAG_IVK);
    let a = demo_note(500, 0x0004454f53, &ivk);
    let mut b = a;
    assert_eq!(a.commitment(), b.commitment());
    b.rseed = Digest { w0: 1, w1: 2, w2: 3, w3: 4 };
    assert_ne!(a.commitment(), b.commitment());
}

#[test]
fn nullifier_depends_on_position_and_key() {
    let seed = seed_a();
    let ivk = derive_key(&seed, KEY_TAG_IVK);
    let nk = derive_key(&seed, zeos_caterpillar::keys::KEY_TAG_NK);
    let n = demo_note(500, 0x0004454f53, &ivk);
    assert_eq!(n.nullifier(&nk, 4), n.nullifier(&nk, 4));
    assert_ne!(n.nullifier(&nk, 4), n.nullifier(&nk, 5));
    let nk2 = derive_key(&b"other".to_vec(), zeos_caterpillar::keys::KEY_TAG_NK);
    assert_ne!(n.nullifier(&nk, 4), n.nullifier(&nk2, 4));
}

#[test]
fn change_memo_marks_change_notes() {
    let seed = seed_a();
    let ivk = derive_key(&seed, KEY_TAG_IVK);
    let mut n = demo_note(500, 0x0004454f53, &ivk);
    assert!(!n.is_change());
    n.memo = change_memo();
    assert!(n.is_change());
}

#[test]
fn addresses_are_deterministic_per_key_and_index() {
    let seed = seed_a();
    let ivk = derive_key(&seed, KEY_TAG_IVK);
    assert_eq!(derive_address(&ivk, 7), derive_address(&ivk, 7));
    assert_ne!(derive_address(&ivk, 7), derive_address(&ivk, 8));
    let other = derive_key(&b"other".to_vec(), KEY_TAG_IVK);
    assert_ne!(derive_address(&ivk, 7).pk, derive_address(&other, 7).pk);
}
