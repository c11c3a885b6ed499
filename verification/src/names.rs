//! Chain account names: 64-bit values packing up to 13 characters of
//! the base-32 alphabet `.12345a-z`, five bits per character from the
//! most significant bit, with a four-bit thirteenth character.

use vstd::prelude::*;
use crate::error::WalletError;

verus! {

/// ASCII of a five-bit name symbol.
pub open spec fn spec_name_char(v: u64) -> u8
    recommends
        v < 32,
{
    if v == 0 {
        46
    } else if v <= 5 {
        (48 + v) as u8
    } else {
        (91 + v) as u8
    }
}

/// The `i`-th five-bit symbol of a name value (four bits for the
/// thirteenth character).
pub open spec fn spec_name_sym(value: u64, i: int) -> u64
    recommends
        0 <= i < 13,
{
    if i < 12 {
        (value >> ((59 - 5 * i) as u64)) & 0x1f
    } else {
        value & 0x0f
    }
}

/// All 13 characters of a name, dots included.
pub open spec fn spec_name_full(value: u64) -> Seq<u8> {
    Seq::new(13, |i: int| spec_name_char(spec_name_sym(value, i)))
}

pub open spec fn spec_trim_dots(s: Seq<u8>) -> Seq<u8>
    decreases s.len(),
{
    if s.len() > 0 && s.last() == 46 {
        spec_trim_dots(s.drop_last())
    } else {
        s
    }
}

/// The textual rendering of a name value: its characters with the
/// trailing dots trimmed.
pub open spec fn spec_name_text(value: u64) -> Seq<u8> {
    spec_trim_dots(spec_name_full(value))
}

proof fn lemma_mask5(x: u64)
    ensures
        (x & 0x1f) < 32,
        (x & 0x0f) < 16,
{
    assert((x & 0x1f) < 32 && (x & 0x0f) < 16) by (bit_vector);
}

/// Renders a name value as ASCII text.
pub fn name_to_text(value: u64) -> (r: Vec<u8>)
    ensures
        r@ == spec_name_text(value),
{
    let mut out: Vec<u8> = Vec::new();
    let mut i: usize = 0;
    while i < 13
        invariant
            i <= 13,
            out@ =~= spec_name_full(value).take(i as int),
        decreases 13 - i,
    {
        let sym: u64 = if i < 12 {
            let sh = value >> ((59 - 5 * i) as u64);
            proof {
                lemma_mask5(sh);
            }
            sh & 0x1f
        } else {
            proof {
                lemma_mask5(value);
            }
            value & 0x0f
        };
        let c: u8 = if sym == 0 {
            46
        } else if sym <= 5 {
            (48 + sym) as u8
        } else {
            (91 + sym) as u8
        };
        proof {
            assert(spec_name_full(value).take(i as int + 1)
                =~= spec_name_full(value).take(i as int).push(spec_name_char(spec_name_sym(value, i as int))));
        }
        out.push(c);
        i = i + 1;
    }
    proof {
        assert(spec_name_full(value).take(13) =~= spec_name_full(value));
    }
    while out.len() > 0 && out[out.len() - 1] == 46
        invariant
            spec_trim_dots(out@) == spec_name_text(value),
        decreases out@.len(),
    {
        let _ = out.pop();
    }
    out
}

pub open spec fn spec_is_name_char(c: u8) -> bool {
    c == 46 || (49 <= c <= 53) || (97 <= c <= 122)
}

/// The five-bit symbol of an ASCII name character.
pub open spec fn spec_char_sym(c: u8) -> u64
    recommends
        spec_is_name_char(c),
{
    if c == 46 {
        0
    } else if 49 <= c <= 53 {
        (c - 48) as u64
    } else {
        (c - 91) as u64
    }
}

/// Whether `s` is a well-formed name: at most 13 characters of the
/// name alphabet, with a thirteenth character (if any) small enough
/// for its four bits.
pub open spec fn spec_is_name_text(s: Seq<u8>) -> bool {
    &&& s.len() <= 13
    &&& forall|i: int| 0 <= i < s.len() ==> spec_is_name_char(#[trigger] s[i])
    &&& s.len() == 13 ==> spec_char_sym(s[12]) < 16
}

/// The value a well-formed name text parses to, accumulating symbols
/// from position `i` onto `acc`.
pub open spec fn spec_name_value_from(s: Seq<u8>, i: int, acc: u64) -> u64
    decreases 13 - i when 0 <= i <= 13
{
    if i >= 13 || i >= s.len() {
        acc
    } else if i < 12 {
        spec_name_value_from(s, i + 1, acc | ((spec_char_sym(s[i]) & 0x1f) << ((59 - 5 * i) as u64)))
    } else {
        spec_name_value_from(s, i + 1, acc | (spec_char_sym(s[i]) & 0x0f))
    }
}

pub open spec fn spec_name_value(s: Seq<u8>) -> u64 {
    spec_name_value_from(s, 0, 0)
}

/// Parses ASCII text into a name value; `BadIdentifier` exactly when
/// the text is not a well-formed name.
pub fn text_to_name(s: &Vec<u8>) -> (r: Result<u64, WalletError>)
    ensures
        match r {
            Ok(v) => spec_is_name_text(s@) && v == spec_name_value(s@),
            Err(e) => e == WalletError::BadIdentifier && !spec_is_name_text(s@),
        },
{
    let n = s.len();
    if n > 13 {
        return Err(WalletError::BadIdentifier);
    }
    let mut acc: u64 = 0;
    let mut i: usize = 0;
    while i < n
        invariant
            n == s@.len(),
            n <= 13,
            i <= n,
            forall|j: int| 0 <= j < i ==> spec_is_name_char(#[trigger] s@[j]),
            n == 13 && i == 13 ==> spec_char_sym(s@[12]) < 16,
            spec_name_value_from(s@, 0, 0) == spec_name_value_from(s@, i as int, acc),
        decreases n - i,
    {
        let c = s[i];
        let valid = c == 46 || (49 <= c && c <= 53) || (97 <= c && c <= 122);
        if !valid {
            return Err(WalletError::BadIdentifier);
        }
        let sym: u64 = if c == 46 {
            0
        } else if 49 <= c && c <= 53 {
            (c - 48) as u64
        } else {
            (c - 91) as u64
        };
        if i < 12 {
            acc = acc | ((sym & 0x1f) << ((59 - 5 * i) as u64));
        } else {
            if sym >= 16 {
                return Err(WalletError::BadIdentifier);
            }
            acc = acc | (sym & 0x0f);
        }
        i = i + 1;
    }
    Ok(acc)
}

} // verus!
