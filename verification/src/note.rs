//! The note data model: the value record tracked by the wallet, its
//! kind classification, and its derived commitment and nullifier.

use vstd::prelude::*;
use crate::digest::{Digest, spec_combine, combine, spec_word_digest, word_digest};

verus! {

/// A diversified shielded address: a diversifier index together with
/// the transmission key derived from it and the incoming viewing key.
#[derive(Clone, Copy, PartialEq, Eq, Structural, Debug)]
pub struct Address {
    pub diversifier: u64,
    pub pk: Digest,
}

/// The three disjoint note kinds sharing one wire layout.
#[derive(Clone, Copy, PartialEq, Eq, Structural, Debug)]
pub enum NoteKind {
    Fungible,
    NonFungible,
    AuthToken,
}

/// Memo word marking wallet-internal change notes; used only for
/// display and history, never for spend eligibility.
pub const CHANGE_MEMO_WORD: u64 = 0x65676e616863;

/// A value record: a fungible amount of a token, a non-fungible unit,
/// or a zero-value authentication ("vault") token, all in one layout.
#[derive(Clone, Copy, PartialEq, Eq, Structural, Debug)]
pub struct Note {
    /// Token contract identity (chain account-name value).
    pub contract: u64,
    /// Fungible amount, or the unique unit id of a non-fungible note.
    pub amount: u64,
    /// Symbol (precision and code); zero for non-fungible and auth notes.
    pub symbol: u64,
    /// Chain account authorized to use the note.
    pub owner: u64,
    /// Diversified address the note was sent to.
    pub recipient: Address,
    /// Fixed-size opaque memo field.
    pub memo: Digest,
    /// Randomness committing the note.
    pub rseed: Digest,
}

impl Note {
    /// Kind classification, checked in this order: zero amount and zero
    /// symbol is an auth token; zero symbol with nonzero amount is a
    /// non-fungible unit; everything else is fungible.
    pub open spec fn spec_kind(self) -> NoteKind {
        if self.amount == 0 && self.symbol == 0 {
            NoteKind::AuthToken
        } else if self.symbol == 0 {
            NoteKind::NonFungible
        } else {
            NoteKind::Fungible
        }
    }

    pub fn kind(&self) -> (k: NoteKind)
        ensures
            k == self.spec_kind(),
    {
        if self.amount == 0 && self.symbol == 0 {
            NoteKind::AuthToken
        } else if self.symbol == 0 {
            NoteKind::NonFungible
        } else {
            NoteKind::Fungible
        }
    }

    pub fn is_auth_token(&self) -> (r: bool)
        ensures
            r == (self.spec_kind() == NoteKind::AuthToken),
    {
        self.amount == 0 && self.symbol == 0
    }

    pub fn is_fungible(&self) -> (r: bool)
        ensures
            r == (self.spec_kind() == NoteKind::Fungible),
    {
        self.symbol != 0
    }

    pub open spec fn spec_is_change(self) -> bool {
        self.memo == spec_change_memo()
    }

    /// Whether the memo carries the reserved change sentinel.
    pub fn is_change(&self) -> (r: bool)
        ensures
            r == self.spec_is_change(),
    {
        self.memo == change_memo()
    }

    pub open spec fn spec_commitment(self) -> Digest {
        spec_note_commitment(self)
    }

    /// The note's binding commitment, the accumulator leaf value.
    pub fn commitment(&self) -> (c: Digest)
        ensures
            c == self.spec_commitment(),
    {
        let a = Digest { w0: self.contract, w1: self.amount, w2: self.symbol, w3: self.owner };
        let b = Digest {
            w0: self.recipient.diversifier,
            w1: self.recipient.pk.w0,
            w2: self.recipient.pk.w1,
            w3: self.recipient.pk.w2,
        };
        let c1 = combine(&a, &b);
        let pk3 = word_digest(self.recipient.pk.w3);
        let c2 = combine(&c1, &pk3);
        let c3 = combine(&c2, &self.memo);
        combine(&c3, &self.rseed)
    }

    pub open spec fn spec_nullifier(self, nk: Digest, position: u64) -> Digest {
        spec_note_nullifier(nk, self.spec_commitment(), position)
    }

    /// The nullifier revealed when this note is spent from leaf
    /// `position`, derived with the nullifier key `nk`.
    pub fn nullifier(&self, nk: &Digest, position: u64) -> (n: Digest)
        ensures
            n == self.spec_nullifier(*nk, position),
    {
        let cm = self.commitment();
        nullifier_of(nk, &cm, position)
    }
}

/// Commitment as a function of every note field.
pub open spec fn spec_note_commitment(n: Note) -> Digest {
    spec_combine(
        spec_combine(
            spec_combine(
                spec_combine(
                    Digest { w0: n.contract, w1: n.amount, w2: n.symbol, w3: n.owner },
                    Digest {
                        w0: n.recipient.diversifier,
                        w1: n.recipient.pk.w0,
                        w2: n.recipient.pk.w1,
                        w3: n.recipient.pk.w2,
                    },
                ),
                spec_word_digest(n.recipient.pk.w3),
            ),
            n.memo,
        ),
        n.rseed,
    )
}

pub open spec fn spec_note_nullifier(nk: Digest, cm: Digest, position: u64) -> Digest {
    spec_combine(spec_combine(nk, cm), spec_word_digest(position))
}

/// Nullifier of a commitment at a leaf position under nullifier key `nk`.
pub fn nullifier_of(nk: &Digest, cm: &Digest, position: u64) -> (n: Digest)
    ensures
        n == spec_note_nullifier(*nk, *cm, position),
{
    let inner = combine(nk, cm);
    let pd = word_digest(position);
    combine(&inner, &pd)
}

pub open spec fn spec_change_memo() -> Digest {
    Digest { w0: CHANGE_MEMO_WORD, w1: 0, w2: 0, w3: 0 }
}

/// The reserved memo value marking wallet change.
pub fn change_memo() -> (d: Digest)
    ensures
        d == spec_change_memo(),
{
    Digest { w0: CHANGE_MEMO_WORD, w1: 0, w2: 0, w3: 0 }
}

/// A note plus wallet bookkeeping: the leaf position of its commitment
/// (absent for never-inserted notes) and the block that delivered it.
#[derive(Clone, Copy, PartialEq, Eq, Structural, Debug)]
pub struct NoteEx {
    pub note: Note,
    pub position: Option<u64>,
    pub block_num: u32,
    pub block_ts: u64,
}

impl NoteEx {
    pub fn new(note: Note, position: Option<u64>, block_num: u32, block_ts: u64) -> (n: NoteEx)
        ensures
            n.note == note,
            n.position == position,
            n.block_num == block_num,
            n.block_ts == block_ts,
    {
        NoteEx { note, position, block_num, block_ts }
    }

    pub fn note(&self) -> (n: Note)
        ensures
            n == self.note,
    {
        self.note
    }

    pub fn position(&self) -> (p: Option<u64>)
        ensures
            p == self.position,
    {
        self.position
    }
}

} // verus!
