use zeos_caterpillar::digest::{digest_bytes, Digest};
use zeos_caterpillar::error::WalletError;
use zeos_caterpillar::hexstr::{decode_hex, encode_hex};
use zeos_caterpillar::names::{name_to_text, text_to_name};
use zeos_caterpillar::token::encode_auth_token;

#[test]
fn hex_encode_exact_value() {
    let v = vec![0x48u8, 0x65, 0x6c, 0x6c, 0x6f, 0x00, 0xff, 0x0a];
    let s = encode_hex(&v);
    assert_eq!(String::from_utf8(s).unwrap(), "48656c6c6f00ff0a");
}

#[test]
fn hex_decode_exact_value_and_case_insensitive() {
    let got = decode_hex(&b"48656C6c6f00FF0a".to_vec()).unwrap();
    assert_eq!(got, vec![0x48u8, 0x65, 0x6c, 0x6c, 0x6f, 0x00, 0xff, 0x0a]);
}

#[test]
fn hex_roundtrip() {
    let v: Vec<u8> = (0u16..=255).map(|x| x as u8).collect();
    let enc = encode_hex(&v);
    assert_eq!(decode_hex(&enc).unwrap(), v);
}

#[test]
fn hex_decode_rejects_odd_length_and_bad_digits() {
    assert_eq!(decode_hex(&b"abc".to_vec()), Err(WalletError::InvalidHex));
    assert_eq!(decode_hex(&b"zz".to_vec()), Err(WalletError::InvalidHex));
    assert_eq!(decode_hex(&b"".to_vec()).unwrap(), Vec::<u8>::new());
}

#[test]
fn name_renders_known_values() {
    assert_eq!(String::from_utf8(name_to_text(4222381386624925696)).unwrap(), "begin");
    assert_eq!(String::from_utf8(name_to_text(14219329122852667392)).unwrap(), "spend");
    assert_eq!(String::from_utf8(name_to_text(12578297992662373760)).unwrap(), "publishnotes");
    assert_eq!(String::from_utf8(name_to_text(0)).unwrap(), "");
}

#[test]
fn name_parses_known_values() {
    assert_eq!(text_to_name(&b"begin".to_vec()).unwrap(), 4222381386624925696);
    assert_eq!(text_to_name(&b"spend".to_vec()).unwrap(), 14219329122852667392);
    assert_eq!(text_to_name(&b"eosio.token".to_vec()).unwrap(), 6138663591592764928);
}

#[test]
fn name_roundtrips_through_text() {
    for v in [
        4222381386624925696u64,
        14219329122852667392,
        12578297992662373760,
        6138663591592764928,
    ] {
        assert_eq!(text_to_name(&name_to_text(v)).unwrap(), v);
    }
}

#[test]
fn name_rejects_bad_identifiers() {
    assert!(matches!(text_to_name(&b"UPPER".to_vec()), Err(WalletError::BadIdentifier)));
    assert!(matches!(text_to_name(&b"has space".to_vec()), Err(WalletError::BadIdentifier)));
    assert!(matches!(text_to_name(&b"06number".to_vec()), Err(WalletError::BadIdentifier)));
    assert!(matches!(
        text_to_name(&b"aaaaaaaaaaaaaa".to_vec()),
        Err(WalletError::BadIdentifier)
    ));
    // a 13th character must fit in four bits: 'z' does not
    assert!(matches!(
        text_to_name(&b"aaaaaaaaaaaaz".to_vec()),
        Err(WalletError::BadIdentifier)
    ));
    // while 'a'..'j' do
    assert!(text_to_name(&b"aaaaaaaaaaaaj".to_vec()).is_ok());
}

#[test]
fn auth_token_encoding_shape() {
    let note = zeos_caterpillar::note::Note {
        contract: text_to_name(&b"thezeosvault".to_vec()).unwrap(),
        amount: 0,
        symbol: 0,
        owner: 1,
        recipient: zeos_caterpillar::keys::derive_address(&Digest { w0: 1, w1: 2, w2: 3, w3: 4 }, 0),
        memo: Digest { w0: 5, w1: 6, w2: 7, w3: 8 },
        rseed: Digest { w0: 9, w1: 10, w2: 11, w3: 12 },
    };
    let cm_hex = String::from_utf8(encode_hex(&digest_bytes(&note.commitment()))).unwrap();
    let plain = String::from_utf8(encode_auth_token(&note, false)).unwrap();
    assert_eq!(plain, format!("{}@thezeosvault", cm_hex));
    let revealed = String::from_utf8(encode_auth_token(&note, true)).unwrap();
    let memo_hex = String::from_utf8(encode_hex(&digest_bytes(&note.memo))).unwrap();
    assert_eq!(revealed, format!("{}@thezeosvault|{}", cm_hex, memo_hex));
}

#[test]
fn digest_bytes_is_little_endian_and_32_bytes() {
    let d = Digest { w0: 1, w1: 0, w2: 0, w3: 0 };
    let b = digest_bytes(&d);
    assert_eq!(b.len(), 32);
    assert_eq!(b[0], 1);
    assert!(b[1..].iter().all(|&x| x == 0));
}
