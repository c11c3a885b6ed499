//! Fee schedules and fee estimation.
//!
//! A fee is a pure function of the operation kind, the number of input
//! and output notes, and the schedule; it is monotonically
//! non-decreasing in both counts, and estimation fails (rather than
//! defaulting to zero) when the schedule lacks its required base entry.

use vstd::prelude::*;
use crate::error::WalletError;

verus! {

/// Account-name value of the "begin" fee entry, the required base fee.
pub const FEE_OP_BEGIN: u64 = 4222381386624925696;

/// Account-name value of the "spend" fee entry, charged per input
/// beyond the first.
pub const FEE_OP_SPEND: u64 = 14219329122852667392;

/// Account-name value of the "output" fee entry, charged per output
/// beyond the first.
pub const FEE_OP_OUTPUT: u64 = 12012047315205357568;

/// Account-name value of the "authenticate" fee entry.
pub const FEE_OP_AUTHENTICATE: u64 = 3941447159957795488;

/// Account-name value of the "withdraw" fee entry.
pub const FEE_OP_WITHDRAW: u64 = 16407410437513019392;

/// Account-name value of the "publishnotes" fee entry.
pub const FEE_OP_PUBLISHNOTES: u64 = 12578297992662373760;

/// The operation whose fee is being estimated.
#[derive(Clone, Copy, PartialEq, Eq, Structural, Debug)]
pub enum OpKind {
    /// A shielded transfer.
    Transfer,
    /// Burning an auth ("vault") token; `withdraw` adds the withdraw
    /// fee for vaults that still hold assets.
    BurnAuth { withdraw: bool },
    /// Publishing a newly created auth token.
    PublishNotes,
}

/// A fee schedule: operation-name values mapped to amounts of the
/// designated fee token.
#[derive(Debug)]
pub struct FeeSchedule {
    pub entries: Vec<(u64, u64)>,
}

/// First-match lookup of an operation name in a schedule.
pub open spec fn spec_lookup(s: Seq<(u64, u64)>, k: u64) -> Option<u64>
    decreases s.len(),
{
    if s.len() == 0 {
        None
    } else if s[0].0 == k {
        Some(s[0].1)
    } else {
        spec_lookup(s.skip(1), k)
    }
}

/// Lookup defaulting to zero, for the optional per-item entries.
pub open spec fn spec_lookup0(s: Seq<(u64, u64)>, k: u64) -> int {
    match spec_lookup(s, k) {
        None => 0,
        Some(v) => v as int,
    }
}

impl FeeSchedule {
    pub fn new() -> (s: Self)
        ensures
            s.entries@ =~= Seq::<(u64, u64)>::empty(),
    {
        FeeSchedule { entries: Vec::new() }
    }

    pub fn set(&mut self, op: u64, amount: u64)
        ensures
            final(self).entries@ == old(self).entries@.push((op, amount)),
    {
        self.entries.push((op, amount));
    }

    pub fn lookup(&self, k: u64) -> (r: Option<u64>)
        ensures
            r == spec_lookup(self.entries@, k),
    {
        let n = self.entries.len();
        let mut i: usize = 0;
        proof {
            assert(self.entries@.skip(0) =~= self.entries@);
        }
        while i < n
            invariant
                n == self.entries@.len(),
                i <= n,
                spec_lookup(self.entries@.skip(i as int), k) == spec_lookup(self.entries@, k),
            decreases n - i,
        {
            proof {
                assert(self.entries@.skip(i as int)[0] == self.entries@[i as int]);
                assert(self.entries@.skip(i as int).skip(1) =~= self.entries@.skip(i as int + 1));
            }
            if self.entries[i].0 == k {
                return Some(self.entries[i].1);
            }
            i = i + 1;
        }
        None
    }

    fn lookup0(&self, k: u64) -> (r: u64)
        ensures
            r as int == spec_lookup0(self.entries@, k),
    {
        match self.lookup(k) {
            None => 0,
            Some(v) => v,
        }
    }
}

/// Clamp of a mathematical amount into a 64-bit amount.
pub open spec fn spec_cl64(x: int) -> int {
    if x > u64::MAX {
        u64::MAX as int
    } else {
        x
    }
}

/// Extra schedule entries owed by the operation kind itself.
pub open spec fn spec_fee_extra(kind: OpKind, s: Seq<(u64, u64)>) -> int {
    match kind {
        OpKind::Transfer => 0,
        OpKind::BurnAuth { withdraw } => spec_lookup0(s, FEE_OP_AUTHENTICATE) + if withdraw {
            spec_lookup0(s, FEE_OP_WITHDRAW)
        } else {
            0
        },
        OpKind::PublishNotes => spec_lookup0(s, FEE_OP_PUBLISHNOTES),
    }
}

/// The fee owed for an operation with `k` inputs and `m` outputs under
/// schedule `s`: the base entry, plus the kind's own entries, plus the
/// per-input and per-output entries for every input and output beyond
/// the first, saturating at the maximum representable amount.  `None`
/// exactly when the base entry is missing.
pub open spec fn spec_fee(kind: OpKind, k: nat, m: nat, s: Seq<(u64, u64)>) -> Option<int>
    recommends
        k >= 1,
        m >= 1,
{
    match spec_lookup(s, FEE_OP_BEGIN) {
        None => None,
        Some(b) => Some(
            spec_cl64(
                b + spec_fee_extra(kind, s) + spec_cl64((k - 1) * spec_lookup0(s, FEE_OP_SPEND))
                    + spec_cl64((m - 1) * spec_lookup0(s, FEE_OP_OUTPUT)),
            ),
        ),
    }
}

/// Computes the fee of the operation; `None` exactly when the schedule
/// lacks its "begin" entry.
pub fn fee_for(kind: OpKind, inputs: usize, outputs: usize, sched: &FeeSchedule) -> (r: Option<u64>)
    requires
        inputs >= 1,
        outputs >= 1,
    ensures
        match r {
            Some(f) => spec_fee(kind, inputs as nat, outputs as nat, sched.entries@) == Some(f as int),
            None => spec_fee(kind, inputs as nat, outputs as nat, sched.entries@) is None,
        },
{
    let b = match sched.lookup(FEE_OP_BEGIN) {
        None => {
            return None;
        },
        Some(v) => v,
    };
    let extra: u128 = match kind {
        OpKind::Transfer => 0u128,
        OpKind::BurnAuth { withdraw } => {
            let a = sched.lookup0(FEE_OP_AUTHENTICATE) as u128;
            if withdraw {
                a + sched.lookup0(FEE_OP_WITHDRAW) as u128
            } else {
                a
            }
        },
        OpKind::PublishNotes => sched.lookup0(FEE_OP_PUBLISHNOTES) as u128,
    };
    let per_in = sched.lookup0(FEE_OP_SPEND) as u128;
    let per_out = sched.lookup0(FEE_OP_OUTPUT) as u128;
    let kx = (inputs - 1) as u128;
    let mx = (outputs - 1) as u128;
    proof {
        let big = 0xffffffffffffffffu128 as int;
        vstd::arithmetic::mul::lemma_mul_upper_bound(kx as int, big, per_in as int, big);
        vstd::arithmetic::mul::lemma_mul_upper_bound(mx as int, big, per_out as int, big);
    }
    let t1 = kx * per_in;
    let t1c: u128 = if t1 > u64::MAX as u128 {
        u64::MAX as u128
    } else {
        t1
    };
    let t2 = mx * per_out;
    let t2c: u128 = if t2 > u64::MAX as u128 {
        u64::MAX as u128
    } else {
        t2
    };
    let total = b as u128 + extra + t1c + t2c;
    if total > u64::MAX as u128 {
        Some(u64::MAX)
    } else {
        Some(total as u64)
    }
}

proof fn lemma_cl64_mono(x: int, y: int)
    requires
        x <= y,
    ensures
        spec_cl64(x) <= spec_cl64(y),
{
}

/// Fee monotonicity in the input count: with the base entry present,
/// one more input never lowers the fee, for a fixed operation kind,
/// output count and schedule.
pub proof fn lemma_fee_monotonic_inputs(kind: OpKind, k: nat, m: nat, s: Seq<(u64, u64)>)
    requires
        k >= 1,
        m >= 1,
        spec_lookup(s, FEE_OP_BEGIN) is Some,
    ensures
        spec_fee(kind, (k + 1) as nat, m, s)->Some_0 >= spec_fee(kind, k, m, s)->Some_0,
{
    let p = spec_lookup0(s, FEE_OP_SPEND);
    assert((k - 1) * p <= k * p) by (nonlinear_arith)
        requires
            p >= 0,
            k >= 1,
    ;
    lemma_cl64_mono((k - 1) * p, k * p);
    let b = spec_lookup(s, FEE_OP_BEGIN)->Some_0 as int;
    let e = spec_fee_extra(kind, s);
    let t2 = spec_cl64((m - 1) * spec_lookup0(s, FEE_OP_OUTPUT));
    lemma_cl64_mono(
        b + e + spec_cl64((k - 1) * p) + t2,
        b + e + spec_cl64(k * p) + t2,
    );
}

/// Fee monotonicity in the output count.
pub proof fn lemma_fee_monotonic_outputs(kind: OpKind, k: nat, m: nat, s: Seq<(u64, u64)>)
    requires
        k >= 1,
        m >= 1,
        spec_lookup(s, FEE_OP_BEGIN) is Some,
    ensures
        spec_fee(kind, k, (m + 1) as nat, s)->Some_0 >= spec_fee(kind, k, m, s)->Some_0,
{
    let p = spec_lookup0(s, FEE_OP_OUTPUT);
    assert((m - 1) * p <= m * p) by (nonlinear_arith)
        requires
            p >= 0,
            m >= 1,
    ;
    lemma_cl64_mono((m - 1) * p, m * p);
    let b = spec_lookup(s, FEE_OP_BEGIN)->Some_0 as int;
    let e = spec_fee_extra(kind, s);
    let t1 = spec_cl64((k - 1) * spec_lookup0(s, FEE_OP_SPEND));
    lemma_cl64_mono(
        b + e + t1 + spec_cl64((m - 1) * p),
        b + e + t1 + spec_cl64(m * p),
    );
}

/// A missing "begin" entry is a hard failure for every fee-estimating
/// operation, reported as this error.
pub fn require_begin_entry(sched: &FeeSchedule) -> (r: Result<u64, WalletError>)
    ensures
        match r {
            Ok(v) => spec_lookup(sched.entries@, FEE_OP_BEGIN) == Some(v),
            Err(e) => e == WalletError::MissingFeeEntry && spec_lookup(sched.entries@, FEE_OP_BEGIN) is None,
        },
{
    match sched.lookup(FEE_OP_BEGIN) {
        Some(v) => Ok(v),
        None => Err(WalletError::MissingFeeEntry),
    }
}

} // verus!
