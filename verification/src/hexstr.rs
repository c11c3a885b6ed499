//! Hexadecimal text, as ASCII byte strings.
//!
//! Encoding and decoding are delegated to the `hex` crate behind
//! trusted wrappers whose contracts state the encoding exactly; the
//! rest of the library is verified against those contracts.

use vstd::prelude::*;
use crate::error::WalletError;

verus! {

/// ASCII of a nibble, lowercase.
pub open spec fn spec_hex_digit(v: u8) -> u8
    recommends
        v < 16,
{
    if v < 10 {
        (48 + v) as u8
    } else {
        (87 + v) as u8
    }
}

/// The lowercase hex encoding of a byte string: two digits per byte,
/// high nibble first.
pub open spec fn spec_hex_ascii(b: Seq<u8>) -> Seq<u8> {
    Seq::new(
        2 * b.len(),
        |i: int| if i % 2 == 0 {
            spec_hex_digit(b[i / 2] >> 4)
        } else {
            spec_hex_digit(b[i / 2] & 0x0f)
        },
    )
}

pub open spec fn spec_is_hex_digit(c: u8) -> bool {
    (48 <= c <= 57) || (97 <= c <= 102) || (65 <= c <= 70)
}

pub open spec fn spec_hex_val(c: u8) -> u8
    recommends
        spec_is_hex_digit(c),
{
    if 48 <= c <= 57 {
        (c - 48) as u8
    } else if 97 <= c <= 102 {
        (c - 87) as u8
    } else {
        (c - 55) as u8
    }
}

/// Whether `s` is a well-formed hex string: even length, all digits
/// (either case).
pub open spec fn spec_is_hex(s: Seq<u8>) -> bool {
    s.len() % 2 == 0 && forall|i: int| 0 <= i < s.len() ==> spec_is_hex_digit(#[trigger] s[i])
}

/// The bytes a well-formed hex string decodes to.
pub open spec fn spec_hex_bytes(s: Seq<u8>) -> Seq<u8> {
    Seq::new(s.len() / 2, |i: int| ((spec_hex_val(s[2 * i]) << 4) | spec_hex_val(s[2 * i + 1])) as u8)
}

#[verifier::external_type_specification]
#[verifier::external_body]
pub struct ExFromHexError(hex::FromHexError);

/// Relies on hex::encode: lowercase, two digits per byte, high nibble
/// first.
#[verifier::external_body]
fn hex_encode_ascii(b: &Vec<u8>) -> (r: Vec<u8>)
    ensures
        r@ == spec_hex_ascii(b@),
{
    hex::encode(b).into_bytes()
}

/// Relies on hex::decode: succeeds exactly on even-length strings of
/// hex digits of either case, pairing digits high nibble first.
#[verifier::external_body]
fn hex_decode_ascii(s: &Vec<u8>) -> (r: Result<Vec<u8>, hex::FromHexError>)
    ensures
        r is Ok <==> spec_is_hex(s@),
        r matches Ok(v) ==> v@ == spec_hex_bytes(s@),
{
    hex::decode(s)
}

/// Lowercase hex encoding of a byte string.
pub fn encode_hex(b: &Vec<u8>) -> (r: Vec<u8>)
    ensures
        r@ == spec_hex_ascii(b@),
{
    hex_encode_ascii(b)
}

/// Decodes a hex string; `InvalidHex` exactly when the input is not
/// well-formed hexadecimal.
pub fn decode_hex(s: &Vec<u8>) -> (r: Result<Vec<u8>, WalletError>)
    ensures
        match r {
            Ok(v) => spec_is_hex(s@) && v@ == spec_hex_bytes(s@),
            Err(e) => e == WalletError::InvalidHex && !spec_is_hex(s@),
        },
{
    match hex_decode_ascii(s) {
        Ok(v) => Ok(v),
        Err(_) => Err(WalletError::InvalidHex),
    }
}

} // verus!
