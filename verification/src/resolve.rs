//! The transaction resolution engine.
//!
//! Turns a transfer intent into a concrete, value-balanced set of
//! input notes, output notes and a fee, such that the protocol's
//! balance equation holds exactly:
//! `sum(inputs) == sum(outputs) + fee`.
//!
//! Note selection consumes eligible unspent notes in store order (the
//! deterministic insertion order of the unspent set; a documented
//! policy choice), re-estimating the fee after every added note and
//! stopping only once the covered amount meets the freshly estimated
//! fee, never a stale one.

use vstd::prelude::*;
use crate::digest::{Digest, spec_absorb, absorb};
use crate::error::WalletError;
use crate::fees::{FeeSchedule, OpKind, spec_fee, spec_lookup, fee_for, FEE_OP_BEGIN};
use crate::keys::{spec_derive_key, derive_key, spec_derive_address, KEY_TAG_RSEED};
use crate::note::{Note, NoteEx, NoteKind, Address, spec_change_memo, change_memo};
use crate::wallet::Wallet;

verus! {

/// A note is eligible for fungible selection of `(contract, symbol)`
/// when it is a fungible note of that asset with a known leaf
/// position (so a witness and nullifier are derivable).  Auth-token
/// and non-fungible notes are never selected to pay amounts or fees.
pub open spec fn spec_is_eligible(e: NoteEx, contract: u64, symbol: u64) -> bool {
    &&& e.note.spec_kind() == NoteKind::Fungible
    &&& e.note.contract == contract
    &&& e.note.symbol == symbol
    &&& e.position is Some
}

/// The eligible entries of the unspent set, in store order.
pub open spec fn spec_elig(s: Seq<NoteEx>, contract: u64, symbol: u64) -> Seq<NoteEx>
    decreases s.len(),
{
    if s.len() == 0 {
        Seq::empty()
    } else {
        spec_elig(s.drop_last(), contract, symbol) + if spec_is_eligible(s.last(), contract, symbol) {
            seq![s.last()]
        } else {
            Seq::empty()
        }
    }
}

/// Sum of the amounts of a note collection.
pub open spec fn spec_sum_amounts(s: Seq<NoteEx>) -> int
    decreases s.len(),
{
    if s.len() == 0 {
        0
    } else {
        spec_sum_amounts(s.drop_last()) + s.last().note.amount
    }
}

/// Sum of the amounts of a list of output notes.
pub open spec fn spec_sum_note_amounts(s: Seq<Note>) -> int
    decreases s.len(),
{
    if s.len() == 0 {
        0
    } else {
        spec_sum_note_amounts(s.drop_last()) + s.last().amount
    }
}

/// The first `k` eligible notes cover the requested amount plus the
/// fee estimated for exactly `k` inputs.
pub open spec fn spec_covered(
    elig: Seq<NoteEx>,
    amount: u64,
    kind: OpKind,
    m: nat,
    sched: Seq<(u64, u64)>,
    k: nat,
) -> bool {
    spec_sum_amounts(elig.take(k as int)) >= amount + spec_fee(kind, k, m, sched)->Some_0
}

/// The least input count at or above `k` that covers amount plus its
/// own re-estimated fee, if any.
pub open spec fn spec_least_cover_from(
    elig: Seq<NoteEx>,
    amount: u64,
    kind: OpKind,
    m: nat,
    sched: Seq<(u64, u64)>,
    k: nat,
) -> Option<nat>
    decreases elig.len() + 1 - k when 1 <= k
{
    if k > elig.len() {
        None
    } else if spec_covered(elig, amount, kind, m, sched, k) {
        Some(k)
    } else {
        spec_least_cover_from(elig, amount, kind, m, sched, k + 1)
    }
}

/// The input count the greedy selection settles on for this store
/// state, asset, amount, operation kind and schedule.
pub open spec fn spec_selection(
    unspent: Seq<NoteEx>,
    contract: u64,
    symbol: u64,
    amount: u64,
    kind: OpKind,
    m: nat,
    sched: Seq<(u64, u64)>,
) -> Option<nat> {
    spec_least_cover_from(spec_elig(unspent, contract, symbol), amount, kind, m, sched, 1)
}

/// The eligible entries of a prefix of the store are a prefix of the
/// eligible entries of the whole store.
proof fn lemma_elig_take_prefix(s: Seq<NoteEx>, contract: u64, symbol: u64, j: int)
    requires
        0 <= j <= s.len(),
    ensures
        spec_elig(s.take(j), contract, symbol).len() <= spec_elig(s, contract, symbol).len(),
        spec_elig(s.take(j), contract, symbol) == spec_elig(s, contract, symbol).take(
            spec_elig(s.take(j), contract, symbol).len() as int,
        ),
    decreases s.len(),
{
    let l = spec_elig(s.take(j), contract, symbol);
    if j == s.len() {
        assert(s.take(j) =~= s);
        assert(spec_elig(s, contract, symbol).take(l.len() as int) =~= l);
    } else {
        assert(s.take(j) =~= s.drop_last().take(j));
        lemma_elig_take_prefix(s.drop_last(), contract, symbol, j);
        let prev = spec_elig(s.drop_last(), contract, symbol);
        assert(spec_elig(s, contract, symbol).take(l.len() as int) =~= prev.take(l.len() as int));
    }
}

/// A fungible-asset selection: the chosen inputs, the fee re-estimated
/// for exactly that input count, and the covered total.
pub struct Selection {
    pub inputs: Vec<NoteEx>,
    pub fee: u64,
    pub total: u128,
}

/// Greedy note selection: consumes eligible unspent notes in store
/// order until the running total covers `amount` plus the fee for the
/// current input count, re-estimating the fee after every added note.
/// Fails with `MissingFeeEntry` when the schedule lacks its base
/// entry, and with `InsufficientFunds` (returning nothing) when even
/// all eligible notes cannot cover amount plus their own fee.
pub fn select_inputs(
    unspent: &Vec<NoteEx>,
    contract: u64,
    symbol: u64,
    amount: u64,
    kind: OpKind,
    outputs: usize,
    sched: &FeeSchedule,
) -> (r: Result<Selection, WalletError>)
    requires
        outputs >= 1,
    ensures
        ({
            let elig = spec_elig(unspent@, contract, symbol);
            match r {
                Ok(sel) => {
                    let k = sel.inputs@.len();
                    &&& spec_lookup(sched.entries@, FEE_OP_BEGIN) is Some
                    &&& spec_selection(unspent@, contract, symbol, amount, kind, outputs as nat, sched.entries@) == Some(k as nat)
                    &&& 1 <= k <= elig.len()
                    &&& sel.inputs@ == elig.take(k as int)
                    &&& Some(sel.fee as int) == spec_fee(kind, k as nat, outputs as nat, sched.entries@)
                    &&& sel.total as int == spec_sum_amounts(elig.take(k as int))
                    &&& spec_covered(elig, amount, kind, outputs as nat, sched.entries@, k as nat)
                    &&& forall|j: nat| 1 <= j < k ==> !spec_covered(elig, amount, kind, outputs as nat, sched.entries@, j)
                },
                Err(e) => (e == WalletError::MissingFeeEntry
                    && spec_lookup(sched.entries@, FEE_OP_BEGIN) is None) || (
                e == WalletError::InsufficientFunds
                    && spec_lookup(sched.entries@, FEE_OP_BEGIN) is Some
                    && spec_selection(unspent@, contract, symbol, amount, kind, outputs as nat, sched.entries@) is None),
            }
        }),
{
    if let None = sched.lookup(FEE_OP_BEGIN) {
        return Err(WalletError::MissingFeeEntry);
    }
    let ghost elig = spec_elig(unspent@, contract, symbol);
    let n = unspent.len();
    let mut j: usize = 0;
    let mut selected: Vec<NoteEx> = Vec::new();
    let mut total: u128 = 0;
    proof {
        assert(unspent@.take(0) =~= Seq::<NoteEx>::empty());
    }
    while j < n
        invariant
            n == unspent@.len(),
            j <= n,
            outputs >= 1,
            elig == spec_elig(unspent@, contract, symbol),
            spec_lookup(sched.entries@, FEE_OP_BEGIN) is Some,
            selected@ == spec_elig(unspent@.take(j as int), contract, symbol),
            selected@.len() <= j,
            selected@.len() <= elig.len(),
            selected@ == elig.take(selected@.len() as int),
            total as int == spec_sum_amounts(selected@),
            total as int <= selected@.len() * 0xffffffffffffffff,
            forall|q: nat| 1 <= q <= selected@.len()
                ==> !spec_covered(elig, amount, kind, outputs as nat, sched.entries@, q),
            spec_least_cover_from(elig, amount, kind, outputs as nat, sched.entries@, 1)
                == spec_least_cover_from(
                elig,
                amount,
                kind,
                outputs as nat,
                sched.entries@,
                (selected@.len() + 1) as nat,
            ),
        decreases n - j,
    {
        let e = unspent[j];
        proof {
            assert(unspent@.take(j as int + 1).drop_last() =~= unspent@.take(j as int));
            assert(unspent@.take(j as int + 1).last() == unspent@[j as int]);
        }
        let eligible = e.note.is_fungible() && e.note.contract == contract && e.note.symbol == symbol
            && e.position.is_some();
        if eligible {
            proof {
                lemma_elig_take_prefix(unspent@, contract, symbol, j as int + 1);
                assert(spec_elig(unspent@.take(j as int + 1), contract, symbol)
                    =~= selected@.push(unspent@[j as int]));
                assert(selected@.push(unspent@[j as int]).drop_last() =~= selected@);
            }
            selected.push(e);
            total = total + e.note.amount as u128;
            let k = selected.len();
            let fee = match fee_for(kind, k, outputs, sched) {
                Some(f) => f,
                None => {
                    proof {
                        assert(false);
                    }
                    return Err(WalletError::MissingFeeEntry);
                },
            };
            if total >= amount as u128 + fee as u128 {
                proof {
                    assert(spec_covered(elig, amount, kind, outputs as nat, sched.entries@, k as nat));
                }
                return Ok(Selection { inputs: selected, fee, total });
            }
            proof {
                assert(!spec_covered(elig, amount, kind, outputs as nat, sched.entries@, k as nat));
            }
        } else {
            proof {
                assert(spec_elig(unspent@.take(j as int + 1), contract, symbol) =~= selected@);
            }
        }
        j = j + 1;
    }
    proof {
        assert(unspent@.take(n as int) =~= unspent@);
        assert(selected@.len() == elig.len());
    }
    Err(WalletError::InsufficientFunds)
}

/// A transfer intent: send `amount` of `(contract, symbol)` to the
/// diversified address `to`, owned by chain account `to_owner`, with
/// the given memo.
#[derive(Clone, Copy, PartialEq, Eq, Structural, Debug)]
pub struct TransferIntent {
    pub contract: u64,
    pub symbol: u64,
    pub amount: u64,
    pub to: Address,
    pub to_owner: u64,
    pub memo: Digest,
}

/// A resolved transfer: concrete inputs, outputs and fee, satisfying
/// the balance equation exactly.
pub struct ResolvedTransfer {
    pub inputs: Vec<NoteEx>,
    pub outputs: Vec<Note>,
    pub fee: u64,
}

/// Deterministic randomness for the `i`-th output note created while
/// the wallet has seen `salt` leaves; reproducible and auditable.
pub open spec fn spec_output_rseed(seed: Seq<u8>, salt: u64, i: u64) -> Digest {
    spec_absorb(spec_absorb(spec_derive_key(seed, KEY_TAG_RSEED), salt), i)
}

fn output_rseed(seed: &Vec<u8>, salt: u64, i: u64) -> (d: Digest)
    ensures
        d == spec_output_rseed(seed@, salt, i),
{
    let base = derive_key(seed, KEY_TAG_RSEED);
    let s = absorb(&base, salt);
    absorb(&s, i)
}

/// The recipient output note a resolution of `intent` produces.
pub open spec fn spec_recipient_note(intent: TransferIntent, seed: Seq<u8>, salt: u64) -> Note {
    Note {
        contract: intent.contract,
        amount: intent.amount,
        symbol: intent.symbol,
        owner: intent.to_owner,
        recipient: intent.to,
        memo: intent.memo,
        rseed: spec_output_rseed(seed, salt, 1),
    }
}

/// The change output note for change amount `change`, addressed back
/// to the wallet's own default address with the reserved change memo.
pub open spec fn spec_change_note(
    intent: TransferIntent,
    change: u64,
    ivk: Digest,
    owner: u64,
    seed: Seq<u8>,
    salt: u64,
) -> Note {
    Note {
        contract: intent.contract,
        amount: change,
        symbol: intent.symbol,
        owner,
        recipient: spec_derive_address(ivk, 0),
        memo: spec_change_memo(),
        rseed: spec_output_rseed(seed, salt, 2),
    }
}

/// Resolves a fungible transfer intent against the wallet's unspent
/// notes: greedy selection with per-count fee re-estimation, a
/// recipient output, and a change output back to the wallet unless the
/// change is exactly zero.  The balance equation
/// `sum(inputs) == sum(outputs) + fee` holds exactly on success, and
/// failure returns no partial transaction.
pub fn resolve_transfer(w: &Wallet, intent: &TransferIntent, sched: &FeeSchedule) -> (r: Result<
    ResolvedTransfer,
    WalletError,
>)
    requires
        w.wf(),
        !w.spec_view_only(),
    ensures
        ({
            let elig = spec_elig(w.spec_unspent(), intent.contract, intent.symbol);
            let salt = w.spec_leaves().len() as u64;
            match r {
                Ok(rt) => {
                    let k = rt.inputs@.len();
                    let change = spec_sum_amounts(elig.take(k as int)) - intent.amount - rt.fee;
                    &&& intent.symbol != 0
                    &&& spec_selection(
                        w.spec_unspent(),
                        intent.contract,
                        intent.symbol,
                        intent.amount,
                        OpKind::Transfer,
                        1,
                        sched.entries@,
                    ) == Some(k as nat)
                    &&& rt.inputs@ == elig.take(k as int)
                    &&& Some(rt.fee as int) == spec_fee(OpKind::Transfer, k as nat, 1, sched.entries@)
                    &&& 0 <= change <= u64::MAX
                    &&& rt.outputs@[0] == spec_recipient_note(*intent, w.spec_seed(), salt)
                    &&& (if change == 0 {
                        rt.outputs@.len() == 1
                    } else {
                        rt.outputs@.len() == 2 && rt.outputs@[1] == spec_change_note(
                            *intent,
                            change as u64,
                            w.spec_ivk(),
                            w.spec_alias().0,
                            w.spec_seed(),
                            salt,
                        )
                    })
                    &&& spec_sum_note_amounts(rt.outputs@) + rt.fee == spec_sum_amounts(rt.inputs@)
                },
                Err(e) => (e == WalletError::InvalidIntent && intent.symbol == 0) || (intent.symbol != 0
                    && ((e == WalletError::MissingFeeEntry
                        && spec_lookup(sched.entries@, FEE_OP_BEGIN) is None) || (
                    e == WalletError::InsufficientFunds
                        && spec_lookup(sched.entries@, FEE_OP_BEGIN) is Some
                        && spec_selection(
                        w.spec_unspent(),
                        intent.contract,
                        intent.symbol,
                        intent.amount,
                        OpKind::Transfer,
                        1,
                        sched.entries@,
                    ) is None))),
            }
        }),
{
    if intent.symbol == 0 {
        return Err(WalletError::InvalidIntent);
    }
    let sel = match select_inputs(
        w.unspent_notes(),
        intent.contract,
        intent.symbol,
        intent.amount,
        OpKind::Transfer,
        1,
        sched,
    ) {
        Ok(s) => s,
        Err(e) => {
            return Err(e);
        },
    };
    let ghost elig = spec_elig(w.spec_unspent(), intent.contract, intent.symbol);
    let k = sel.inputs.len();
    proof {
        // The change fits in an amount word: overshoot past the covered
        // requirement is at most the last selected note's amount, since
        // the previous prefix failed coverage and the fee only grows.
        let ghost ks = sched.entries@;
        let ghost a = elig[k as int - 1].note.amount as int;
        let ghost fee_k = spec_fee(OpKind::Transfer, k as nat, 1, ks)->Some_0;
        assert(elig.take(k as int).drop_last() =~= elig.take(k as int - 1));
        assert(elig.take(k as int).last() == elig[k as int - 1]);
        assert(spec_sum_amounts(elig.take(k as int))
            == spec_sum_amounts(elig.take(k as int - 1)) + a);
        if k >= 2 {
            assert(!spec_covered(elig, intent.amount, OpKind::Transfer, 1, ks, (k - 1) as nat));
            assert(spec_sum_amounts(elig.take(k as int - 1))
                < intent.amount + spec_fee(OpKind::Transfer, (k - 1) as nat, 1, ks)->Some_0);
            crate::fees::lemma_fee_monotonic_inputs(OpKind::Transfer, (k - 1) as nat, 1, ks);
            assert(fee_k >= spec_fee(OpKind::Transfer, (k - 1) as nat, 1, ks)->Some_0);
            assert(spec_sum_amounts(elig.take(k as int)) - intent.amount - fee_k <= a);
        } else {
            assert(elig.take(0) =~= Seq::<NoteEx>::empty());
            assert(spec_sum_amounts(elig.take(k as int)) == a);
            assert(spec_sum_amounts(elig.take(k as int)) - intent.amount - fee_k <= a);
        }
        assert(sel.total as int - intent.amount - sel.fee <= u64::MAX);
    }
    let change128 = sel.total - intent.amount as u128 - sel.fee as u128;
    let change = change128 as u64;
    let salt = w.leaf_count();
    let rseed1 = output_rseed(w.seed(), salt, 1);
    let out_note = Note {
        contract: intent.contract,
        amount: intent.amount,
        symbol: intent.symbol,
        owner: intent.to_owner,
        recipient: intent.to,
        memo: intent.memo,
        rseed: rseed1,
    };
    let mut outputs: Vec<Note> = Vec::new();
    outputs.push(out_note);
    if change > 0 {
        let rseed2 = output_rseed(w.seed(), salt, 2);
        let chg_note = Note {
            contract: intent.contract,
            amount: change,
            symbol: intent.symbol,
            owner: w.alias_authority().0,
            recipient: w.default_address(),
            memo: change_memo(),
            rseed: rseed2,
        };
        outputs.push(chg_note);
        proof {
            assert(outputs@.drop_last() =~= seq![out_note]);
            assert(outputs@.last() == chg_note);
            assert(seq![out_note].drop_last() =~= Seq::<Note>::empty());
            assert(spec_sum_note_amounts(Seq::<Note>::empty()) == 0);
            assert(spec_sum_note_amounts(seq![out_note]) == out_note.amount);
            assert(spec_sum_note_amounts(outputs@) == out_note.amount + chg_note.amount);
        }
    } else {
        proof {
            assert(outputs@.drop_last() =~= Seq::<Note>::empty());
            assert(spec_sum_note_amounts(Seq::<Note>::empty()) == 0);
            assert(spec_sum_note_amounts(outputs@) == out_note.amount);
        }
    }
    Ok(ResolvedTransfer { inputs: sel.inputs, outputs, fee: sel.fee })
}

/// Estimates the total fee of sending `send_amount` of the fee token,
/// accounting for fragmentation of the wallet's notes; `None` when the
/// schedule lacks its base entry or the wallet cannot cover the send.
pub fn estimate_send_fee(
    w: &Wallet,
    send_amount: u64,
    sched: &FeeSchedule,
    fee_contract: u64,
    fee_symbol: u64,
) -> (r: Option<u64>)
    requires
        w.wf(),
    ensures
        ({
            match spec_selection(
                w.spec_unspent(),
                fee_contract,
                fee_symbol,
                send_amount,
                OpKind::Transfer,
                1,
                sched.entries@,
            ) {
                Some(k) => spec_lookup(sched.entries@, FEE_OP_BEGIN) is Some ==> r is Some
                    && r->Some_0 as int == spec_fee(OpKind::Transfer, k, 1, sched.entries@)->Some_0,
                None => r is None,
            }
        }),
        spec_lookup(sched.entries@, FEE_OP_BEGIN) is None ==> r is None,
{
    match select_inputs(w.unspent_notes(), fee_contract, fee_symbol, send_amount, OpKind::Transfer, 1, sched) {
        Ok(sel) => Some(sel.fee),
        Err(_) => None,
    }
}

/// Estimates the fee of burning a vault (auth token); `has_assets`
/// adds the withdraw cost for vaults that still hold assets.
pub fn estimate_burn_fee(
    w: &Wallet,
    has_assets: bool,
    sched: &FeeSchedule,
    fee_contract: u64,
    fee_symbol: u64,
) -> (r: Option<u64>)
    requires
        w.wf(),
    ensures
        ({
            let kind = OpKind::BurnAuth { withdraw: has_assets };
            match spec_selection(w.spec_unspent(), fee_contract, fee_symbol, 0, kind, 1, sched.entries@) {
                Some(k) => spec_lookup(sched.entries@, FEE_OP_BEGIN) is Some ==> r is Some
                    && r->Some_0 as int == spec_fee(kind, k, 1, sched.entries@)->Some_0,
                None => r is None,
            }
        }),
        spec_lookup(sched.entries@, FEE_OP_BEGIN) is None ==> r is None,
{
    let kind = OpKind::BurnAuth { withdraw: has_assets };
    match select_inputs(w.unspent_notes(), fee_contract, fee_symbol, 0, kind, 1, sched) {
        Ok(sel) => Some(sel.fee),
        Err(_) => None,
    }
}

/// Estimates the fee of creating a vault (publishing an auth token).
pub fn estimate_vault_creation_fee(
    w: &Wallet,
    sched: &FeeSchedule,
    fee_contract: u64,
    fee_symbol: u64,
) -> (r: Option<u64>)
    requires
        w.wf(),
    ensures
        ({
            match spec_selection(
                w.spec_unspent(),
                fee_contract,
                fee_symbol,
                0,
                OpKind::PublishNotes,
                1,
                sched.entries@,
            ) {
                Some(k) => spec_lookup(sched.entries@, FEE_OP_BEGIN) is Some ==> r is Some
                    && r->Some_0 as int == spec_fee(OpKind::PublishNotes, k, 1, sched.entries@)->Some_0,
                None => r is None,
            }
        }),
        spec_lookup(sched.entries@, FEE_OP_BEGIN) is None ==> r is None,
{
    match select_inputs(w.unspent_notes(), fee_contract, fee_symbol, 0, OpKind::PublishNotes, 1, sched) {
        Ok(sel) => Some(sel.fee),
        Err(_) => None,
    }
}


/// A resolved authenticate or burn-vault operation: the vault token
/// used, the fee-paying inputs, the change output (if any), and the
/// re-estimated fee.
pub struct ResolvedAuthenticate {
    /// The vault (auth-token) note the operation uses.
    pub auth: NoteEx,
    /// Whether the vault token is consumed (burned) by the operation.
    pub burn: bool,
    pub fee_inputs: Vec<NoteEx>,
    pub outputs: Vec<Note>,
    pub fee: u64,
}

/// The operation kind an authenticate/burn resolution estimates with.
pub open spec fn spec_auth_op_kind(burn: bool, withdraw: bool) -> OpKind {
    OpKind::BurnAuth { withdraw: burn && withdraw }
}

/// Resolves an authenticate or burn-vault intent: identifies the
/// unspent vault token by commitment, then selects fee-paying notes
/// of the fee asset greedily with per-count fee re-estimation, and
/// produces a change output back to the wallet unless the change is
/// exactly zero.  The balance equation
/// `sum(fee inputs) == sum(outputs) + fee` holds exactly on success,
/// and failure returns no partial result.
pub fn resolve_authenticate(
    w: &Wallet,
    auth_cm: &Digest,
    burn: bool,
    withdraw: bool,
    fee_contract: u64,
    fee_symbol: u64,
    sched: &FeeSchedule,
) -> (r: Result<ResolvedAuthenticate, WalletError>)
    requires
        w.wf(),
        !w.spec_view_only(),
    ensures
        ({
            let kind = spec_auth_op_kind(burn, withdraw);
            let elig = spec_elig(w.spec_unspent(), fee_contract, fee_symbol);
            let found = crate::wallet::spec_find_auth_cm(w.spec_unspent(), *auth_cm, 0);
            let salt = w.spec_leaves().len() as u64;
            match r {
                Ok(ra) => {
                    let k = ra.fee_inputs@.len();
                    let change = spec_sum_amounts(elig.take(k as int)) - ra.fee;
                    &&& found is Some && ra.auth == w.spec_unspent()[found->Some_0]
                    &&& ra.burn == burn
                    &&& spec_selection(w.spec_unspent(), fee_contract, fee_symbol, 0, kind, 1, sched.entries@)
                        == Some(k as nat)
                    &&& ra.fee_inputs@ == elig.take(k as int)
                    &&& Some(ra.fee as int) == spec_fee(kind, k as nat, 1, sched.entries@)
                    &&& 0 <= change <= u64::MAX
                    &&& (if change == 0 {
                        ra.outputs@.len() == 0
                    } else {
                        ra.outputs@.len() == 1 && ra.outputs@[0] == spec_fee_change_note(
                            fee_contract,
                            fee_symbol,
                            change as u64,
                            w.spec_ivk(),
                            w.spec_alias().0,
                            w.spec_seed(),
                            salt,
                        )
                    })
                    &&& spec_sum_note_amounts(ra.outputs@) + ra.fee == spec_sum_amounts(ra.fee_inputs@)
                },
                Err(e) => (e == WalletError::InvalidIntent && found is None) || (found is Some && (
                    (e == WalletError::MissingFeeEntry && spec_lookup(sched.entries@, FEE_OP_BEGIN) is None)
                    || (e == WalletError::InsufficientFunds
                        && spec_lookup(sched.entries@, FEE_OP_BEGIN) is Some
                        && spec_selection(
                        w.spec_unspent(),
                        fee_contract,
                        fee_symbol,
                        0,
                        kind,
                        1,
                        sched.entries@,
                    ) is None)
                )),
            }
        }),
{
    let auth = match w.find_auth_token(auth_cm) {
        Some(e) => e,
        None => {
            return Err(WalletError::InvalidIntent);
        },
    };
    let kind = OpKind::BurnAuth { withdraw: burn && withdraw };
    let sel = match select_inputs(w.unspent_notes(), fee_contract, fee_symbol, 0, kind, 1, sched) {
        Ok(s) => s,
        Err(e) => {
            return Err(e);
        },
    };
    let ghost elig = spec_elig(w.spec_unspent(), fee_contract, fee_symbol);
    let k = sel.inputs.len();
    proof {
        // The change fits in an amount word, by the same argument as
        // for transfers: the overshoot past the fee is at most the
        // last selected note's amount, since the previous prefix
        // failed coverage and the fee only grows.
        let ghost ks = sched.entries@;
        let ghost a = elig[k as int - 1].note.amount as int;
        let ghost fee_k = spec_fee(kind, k as nat, 1, ks)->Some_0;
        assert(elig.take(k as int).drop_last() =~= elig.take(k as int - 1));
        assert(elig.take(k as int).last() == elig[k as int - 1]);
        assert(spec_sum_amounts(elig.take(k as int))
            == spec_sum_amounts(elig.take(k as int - 1)) + a);
        if k >= 2 {
            assert(!spec_covered(elig, 0, kind, 1, ks, (k - 1) as nat));
            assert(spec_sum_amounts(elig.take(k as int - 1))
                < spec_fee(kind, (k - 1) as nat, 1, ks)->Some_0);
            crate::fees::lemma_fee_monotonic_inputs(kind, (k - 1) as nat, 1, ks);
            assert(fee_k >= spec_fee(kind, (k - 1) as nat, 1, ks)->Some_0);
            assert(spec_sum_amounts(elig.take(k as int)) - fee_k <= a);
        } else {
            assert(elig.take(0) =~= Seq::<NoteEx>::empty());
            assert(spec_sum_amounts(elig.take(k as int)) == a);
            assert(spec_sum_amounts(elig.take(k as int)) - fee_k <= a);
        }
        assert(sel.total as int - sel.fee <= u64::MAX);
    }
    let change128 = sel.total - sel.fee as u128;
    let change = change128 as u64;
    let mut outputs: Vec<Note> = Vec::new();
    if change > 0 {
        let salt = w.leaf_count();
        let rseed = output_rseed(w.seed(), salt, 1);
        let chg_note = Note {
            contract: fee_contract,
            amount: change,
            symbol: fee_symbol,
            owner: w.alias_authority().0,
            recipient: w.default_address(),
            memo: change_memo(),
            rseed,
        };
        outputs.push(chg_note);
        proof {
            assert(outputs@.drop_last() =~= Seq::<Note>::empty());
            assert(spec_sum_note_amounts(Seq::<Note>::empty()) == 0);
            assert(spec_sum_note_amounts(outputs@) == chg_note.amount);
        }
    } else {
        proof {
            assert(spec_sum_note_amounts(outputs@) == 0);
        }
    }
    Ok(ResolvedAuthenticate { auth, burn, fee_inputs: sel.inputs, outputs, fee: sel.fee })
}

/// The change note an authenticate/burn resolution returns to the
/// wallet, in the fee asset.
pub open spec fn spec_fee_change_note(
    fee_contract: u64,
    fee_symbol: u64,
    change: u64,
    ivk: Digest,
    owner: u64,
    seed: Seq<u8>,
    salt: u64,
) -> Note {
    Note {
        contract: fee_contract,
        amount: change,
        symbol: fee_symbol,
        owner,
        recipient: spec_derive_address(ivk, 0),
        memo: spec_change_memo(),
        rseed: spec_output_rseed(seed, salt, 1),
    }
}

/// Resolves a burn-vault intent: the vault token is consumed, and
/// `has_assets` adds the withdraw cost for vaults that still hold
/// assets.
pub fn resolve_burn(
    w: &Wallet,
    auth_cm: &Digest,
    has_assets: bool,
    fee_contract: u64,
    fee_symbol: u64,
    sched: &FeeSchedule,
) -> (r: Result<ResolvedAuthenticate, WalletError>)
    requires
        w.wf(),
        !w.spec_view_only(),
    ensures
        match r {
            Ok(ra) => ra.burn && crate::wallet::spec_find_auth_cm(w.spec_unspent(), *auth_cm, 0) is Some
                && spec_sum_note_amounts(ra.outputs@) + ra.fee == spec_sum_amounts(ra.fee_inputs@)
                && Some(ra.fee as int) == spec_fee(
                spec_auth_op_kind(true, has_assets),
                ra.fee_inputs@.len() as nat,
                1,
                sched.entries@,
            ),
            Err(e) => e == WalletError::InvalidIntent || e == WalletError::MissingFeeEntry
                || e == WalletError::InsufficientFunds,
        },
{
    resolve_authenticate(w, auth_cm, true, has_assets, fee_contract, fee_symbol, sched)
}

} // verus!
