//! The wallet state store.
//!
//! Owns the commitment accumulator and the four note collections
//! (unspent, spent, outgoing, unpublished), plus key material and
//! address bookkeeping.  The store's invariant: a commitment never
//! appears in more than one of the tracked collections, so a note is
//! never double counted as unspent, spent and outgoing at once.

use vstd::prelude::*;
use vstd::multiset::Multiset;
use crate::digest::{Digest, spec_digest_at, digest_at};
use crate::error::WalletError;
use crate::tree::{MerkleTree, spec_leaf_index, TREE_CAPACITY};
use crate::note::{Note, NoteEx, NoteKind, spec_note_commitment, spec_note_nullifier};
use crate::keys::{spec_derive_key, derive_key, spec_derive_address, derive_address, spec_derive_vault_key, derive_vault_key, KEY_TAG_IVK, KEY_TAG_OVK, KEY_TAG_NK};
use crate::encryption::{Ciphertext, spec_decrypt, spec_decrypt_outgoing, decrypt_note, decrypt_note_outgoing, spec_out_view, clone_ciphertext};

verus! {

/// Ghost view of a ciphertext as plain values.
pub struct CtView {
    pub diversifier: u64,
    pub body: Seq<u64>,
    pub tag: Digest,
    pub out: Option<(Seq<u64>, Digest)>,
}

pub open spec fn spec_ct_view(ct: Ciphertext) -> CtView {
    CtView {
        diversifier: ct.diversifier,
        body: ct.incoming.body@,
        tag: ct.incoming.tag,
        out: spec_out_view(ct),
    }
}

pub open spec fn spec_ct_views(cts: Seq<Ciphertext>) -> Seq<CtView> {
    cts.map_values(|ct: Ciphertext| spec_ct_view(ct))
}

/// Commitments of a note collection, in order.
pub open spec fn spec_cms(s: Seq<NoteEx>) -> Seq<Digest> {
    s.map_values(|e: NoteEx| spec_note_commitment(e.note))
}

/// Every commitment tracked by the three note collections, with
/// multiplicity.
pub open spec fn spec_tracked_ms(un: Seq<NoteEx>, sp: Seq<NoteEx>, og: Seq<NoteEx>) -> Multiset<Digest> {
    spec_cms(un).to_multiset().add(spec_cms(sp).to_multiset()).add(spec_cms(og).to_multiset())
}

/// Whether a commitment is already tracked in any of the three
/// collections.
pub open spec fn spec_cm_tracked(un: Seq<NoteEx>, sp: Seq<NoteEx>, og: Seq<NoteEx>, cm: Digest) -> bool {
    spec_cms(un).contains(cm) || spec_cms(sp).contains(cm) || spec_cms(og).contains(cm)
}

/// No commitment is tracked more than once across unspent, spent and
/// outgoing: the no-double-count store invariant.
pub open spec fn spec_no_double_count(un: Seq<NoteEx>, sp: Seq<NoteEx>, og: Seq<NoteEx>) -> bool {
    forall|d: Digest| #[trigger] spec_tracked_ms(un, sp, og).count(d) <= 1
}

/// Every unspent entry with a recorded position points at the leaf
/// holding its own commitment, so a witness taken at that position is
/// a witness for the note.
pub open spec fn spec_positions_bound(un: Seq<NoteEx>, leaves: Seq<Digest>) -> bool {
    forall|i: int| 0 <= i < un.len() ==> match (#[trigger] un[i]).position {
        Some(p) => p < leaves.len() && leaves[p as int] == spec_note_commitment(un[i].note),
        None => true,
    }
}

proof fn lemma_cms_push(s: Seq<NoteEx>, e: NoteEx)
    ensures
        spec_cms(s.push(e)) =~= spec_cms(s).push(spec_note_commitment(e.note)),
{
}

proof fn lemma_cms_remove(s: Seq<NoteEx>, i: int)
    requires
        0 <= i < s.len(),
    ensures
        spec_cms(s.remove(i)) =~= spec_cms(s).remove(i),
{
}

/// Pushing a commitment that is not yet tracked keeps the store free of
/// double counting.
proof fn lemma_push_unspent_wf(un: Seq<NoteEx>, sp: Seq<NoteEx>, og: Seq<NoteEx>, e: NoteEx)
    requires
        spec_no_double_count(un, sp, og),
        !spec_cm_tracked(un, sp, og, spec_note_commitment(e.note)),
    ensures
        spec_no_double_count(un.push(e), sp, og),
{
    broadcast use vstd::seq_lib::group_to_multiset_ensures;

    let cm = spec_note_commitment(e.note);
    lemma_cms_push(un, e);
    assert(spec_cms(un.push(e)).to_multiset() =~= spec_cms(un).to_multiset().insert(cm));
    assert(spec_cms(un).to_multiset().count(cm) == 0);
    assert forall|d: Digest| #[trigger] spec_tracked_ms(un.push(e), sp, og).count(d) <= 1 by {
        assert(spec_tracked_ms(un, sp, og).count(d) <= 1);
    }
}

proof fn lemma_push_outgoing_wf(un: Seq<NoteEx>, sp: Seq<NoteEx>, og: Seq<NoteEx>, e: NoteEx)
    requires
        spec_no_double_count(un, sp, og),
        !spec_cm_tracked(un, sp, og, spec_note_commitment(e.note)),
    ensures
        spec_no_double_count(un, sp, og.push(e)),
{
    broadcast use vstd::seq_lib::group_to_multiset_ensures;

    let cm = spec_note_commitment(e.note);
    lemma_cms_push(og, e);
    assert(spec_cms(og.push(e)).to_multiset() =~= spec_cms(og).to_multiset().insert(cm));
    assert(spec_cms(og).to_multiset().count(cm) == 0);
    assert forall|d: Digest| #[trigger] spec_tracked_ms(un, sp, og.push(e)).count(d) <= 1 by {
        assert(spec_tracked_ms(un, sp, og).count(d) <= 1);
    }
}

/// Moving an entry from unspent to spent preserves the tracked
/// multiset exactly: removal is always paired with insertion.
proof fn lemma_move_to_spent(un: Seq<NoteEx>, sp: Seq<NoteEx>, og: Seq<NoteEx>, i: int)
    requires
        0 <= i < un.len(),
    ensures
        spec_tracked_ms(un.remove(i), sp.push(un[i]), og) =~= spec_tracked_ms(un, sp, og),
{
    broadcast use vstd::seq_lib::group_to_multiset_ensures;

    let cm = spec_note_commitment(un[i].note);
    lemma_cms_remove(un, i);
    lemma_cms_push(sp, un[i]);
    assert(spec_cms(un)[i] == cm);
    assert(spec_cms(un).to_multiset().count(cm) > 0);
    assert(spec_cms(un.remove(i)).to_multiset() =~= spec_cms(un).to_multiset().remove(cm));
    assert(spec_cms(sp.push(un[i])).to_multiset() =~= spec_cms(sp).to_multiset().insert(cm));
}

proof fn lemma_positions_bound_remove(un: Seq<NoteEx>, leaves: Seq<Digest>, i: int)
    requires
        spec_positions_bound(un, leaves),
        0 <= i < un.len(),
    ensures
        spec_positions_bound(un.remove(i), leaves),
{
    let un2 = un.remove(i);
    assert forall|j: int| 0 <= j < un2.len() implies match (#[trigger] un2[j]).position {
        Some(p) => p < leaves.len() && leaves[p as int] == spec_note_commitment(un2[j].note),
        None => true,
    } by {
        if j < i {
            assert(un2[j] == un[j]);
        } else {
            assert(un2[j] == un[j + 1]);
        }
    }
}

proof fn lemma_positions_bound_push(un: Seq<NoteEx>, leaves: Seq<Digest>, e: NoteEx)
    requires
        spec_positions_bound(un, leaves),
        match e.position {
            Some(p) => p < leaves.len() && leaves[p as int] == spec_note_commitment(e.note),
            None => true,
        },
    ensures
        spec_positions_bound(un.push(e), leaves),
{
    let un2 = un.push(e);
    assert forall|j: int| 0 <= j < un2.len() implies match (#[trigger] un2[j]).position {
        Some(p) => p < leaves.len() && leaves[p as int] == spec_note_commitment(un2[j].note),
        None => true,
    } by {
        if j < un.len() {
            assert(un2[j] == un[j]);
        } else {
            assert(un2[j] == e);
        }
    }
}

/// Appending leaves never invalidates a recorded position: the old
/// prefix of the accumulator is untouched.
proof fn lemma_positions_bound_extend(un: Seq<NoteEx>, leaves: Seq<Digest>, extra: Seq<Digest>)
    requires
        spec_positions_bound(un, leaves),
    ensures
        spec_positions_bound(un, leaves + extra),
{
    let l2 = leaves + extra;
    assert forall|j: int| 0 <= j < un.len() implies match (#[trigger] un[j]).position {
        Some(p) => p < l2.len() && l2[p as int] == spec_note_commitment(un[j].note),
        None => true,
    } by {
        match un[j].position {
            Some(p) => {
                assert(l2[p as int] == leaves[p as int]);
            },
            None => {},
        }
    }
}

/// Outcome of folding `mark_notes_spent` over a nullifier batch.
pub struct MarkOutcome {
    pub un: Seq<NoteEx>,
    pub sp: Seq<NoteEx>,
    pub count: nat,
}

/// Whether unspent entry `e` is spent by on-chain nullifier `nf`: the
/// entry has a leaf position and its recomputed nullifier matches.
pub open spec fn spec_matches_nf(e: NoteEx, nk: Digest, nf: Digest) -> bool {
    &&& e.position is Some
    &&& spec_note_nullifier(nk, spec_note_commitment(e.note), e.position->Some_0) == nf
}

/// Least unspent index matching `nf`, searching from `i`.
pub open spec fn spec_find_nf(un: Seq<NoteEx>, nk: Digest, nf: Digest, i: nat) -> Option<int>
    decreases un.len() - i when i <= un.len()
{
    if i >= un.len() {
        None
    } else if spec_matches_nf(un[i as int], nk, nf) {
        Some(i as int)
    } else {
        spec_find_nf(un, nk, nf, i + 1)
    }
}

/// One nullifier: the first matching unspent entry moves to spent;
/// unmatched nullifiers (or a wallet without a nullifier key) change
/// nothing.
pub open spec fn spec_mark_step(un: Seq<NoteEx>, sp: Seq<NoteEx>, nk: Option<Digest>, nf: Digest) -> MarkOutcome {
    match nk {
        None => MarkOutcome { un, sp, count: 0 },
        Some(k) => match spec_find_nf(un, k, nf, 0) {
            None => MarkOutcome { un, sp, count: 0 },
            Some(i) => MarkOutcome { un: un.remove(i), sp: sp.push(un[i]), count: 1 },
        },
    }
}

/// Folding a whole nullifier batch, in order.
pub open spec fn spec_mark_all(un: Seq<NoteEx>, sp: Seq<NoteEx>, nk: Option<Digest>, nfs: Seq<Digest>) -> MarkOutcome
    decreases nfs.len(),
{
    if nfs.len() == 0 {
        MarkOutcome { un, sp, count: 0 }
    } else {
        let prev = spec_mark_all(un, sp, nk, nfs.drop_last());
        let step = spec_mark_step(prev.un, prev.sp, nk, nfs.last());
        MarkOutcome { un: step.un, sp: step.sp, count: (prev.count + step.count) as nat }
    }
}

/// The digests encoded in consecutive 32-byte chunks of `b`.
pub open spec fn spec_digest_chunks(b: Seq<u8>) -> Seq<Digest> {
    Seq::new((b.len() / 32) as nat, |i: int| spec_digest_at(b, 32 * i))
}

/// Outcome of folding `add_notes` over a ciphertext batch.
pub struct AddOutcome {
    pub un: Seq<NoteEx>,
    pub og: Seq<NoteEx>,
    pub fts: nat,
    pub nfts: nat,
    pub ats: nat,
}

/// One ciphertext.  An incoming decryption whose commitment is a known
/// leaf and not yet tracked is inserted into unspent with that leaf's
/// position; one whose commitment is not yet a leaf is left alone (to
/// be retried later).  Otherwise, an outgoing decryption not yet
/// tracked is inserted into outgoing, for history only.
pub open spec fn spec_add_step(
    un: Seq<NoteEx>,
    sp: Seq<NoteEx>,
    og: Seq<NoteEx>,
    leaves: Seq<Digest>,
    ivk: Digest,
    ovk: Option<Digest>,
    block_num: u32,
    block_ts: u64,
    v: CtView,
) -> AddOutcome {
    let base = AddOutcome { un, og, fts: 0, nfts: 0, ats: 0 };
    match spec_decrypt(v.diversifier, v.body, v.tag, ivk) {
        Some(note) => {
            let cm = spec_note_commitment(note);
            match spec_leaf_index(leaves, cm) {
                Some(pos) => if !spec_cm_tracked(un, sp, og, cm) {
                    let e = NoteEx { note, position: Some(pos), block_num, block_ts };
                    AddOutcome {
                        un: un.push(e),
                        og,
                        fts: if note.spec_kind() == NoteKind::Fungible { 1nat } else { 0nat },
                        nfts: if note.spec_kind() == NoteKind::NonFungible { 1nat } else { 0nat },
                        ats: if note.spec_kind() == NoteKind::AuthToken { 1nat } else { 0nat },
                    }
                } else {
                    base
                },
                None => base,
            }
        },
        None => match ovk {
            Some(k) => match spec_decrypt_outgoing(v.diversifier, v.out, k) {
                Some(note) => {
                    let cm = spec_note_commitment(note);
                    if !spec_cm_tracked(un, sp, og, cm) {
                        let e = NoteEx { note, position: spec_leaf_index(leaves, cm), block_num, block_ts };
                        AddOutcome { un, og: og.push(e), fts: 0, nfts: 0, ats: 0 }
                    } else {
                        base
                    }
                },
                None => base,
            },
            None => base,
        },
    }
}

/// Folding a whole ciphertext batch, in order.
pub open spec fn spec_add_all(
    un: Seq<NoteEx>,
    sp: Seq<NoteEx>,
    og: Seq<NoteEx>,
    leaves: Seq<Digest>,
    ivk: Digest,
    ovk: Option<Digest>,
    block_num: u32,
    block_ts: u64,
    vs: Seq<CtView>,
) -> AddOutcome
    decreases vs.len(),
{
    if vs.len() == 0 {
        AddOutcome { un, og, fts: 0, nfts: 0, ats: 0 }
    } else {
        let prev = spec_add_all(un, sp, og, leaves, ivk, ovk, block_num, block_ts, vs.drop_last());
        let step = spec_add_step(prev.un, sp, prev.og, leaves, ivk, ovk, block_num, block_ts, vs.last());
        AddOutcome {
            un: step.un,
            og: step.og,
            fts: (prev.fts + step.fts) as nat,
            nfts: (prev.nfts + step.nfts) as nat,
            ats: (prev.ats + step.ats) as nat,
        }
    }
}

/// Sum of unspent fungible amounts of one `(contract, symbol)` pair;
/// non-fungible and auth-token notes never contribute.
pub open spec fn spec_balance(s: Seq<NoteEx>, contract: u64, symbol: u64) -> int
    decreases s.len(),
{
    if s.len() == 0 {
        0
    } else {
        spec_balance(s.drop_last(), contract, symbol) + if s.last().note.spec_kind() == NoteKind::Fungible
            && s.last().note.contract == contract && s.last().note.symbol == symbol {
            s.last().note.amount as int
        } else {
            0
        }
    }
}

/// An auth-token note is never included in fungible balances: pushing
/// one leaves every balance unchanged.
pub proof fn lemma_auth_token_excluded_from_balance(s: Seq<NoteEx>, e: NoteEx, contract: u64, symbol: u64)
    requires
        e.note.spec_kind() == NoteKind::AuthToken,
    ensures
        spec_balance(s.push(e), contract, symbol) == spec_balance(s, contract, symbol),
{
    assert(s.push(e).drop_last() =~= s);
}

/// Exec-side counts returned by `add_notes`.
#[derive(Clone, Copy, PartialEq, Eq, Structural, Debug)]
pub struct NoteCounts {
    pub fts: u64,
    pub nfts: u64,
    pub ats: u64,
}

/// The wallet state store.
pub struct Wallet {
    seed: Vec<u8>,
    view_only: bool,
    ivk: Digest,
    ovk: Option<Digest>,
    nk: Option<Digest>,
    chain_id: Digest,
    protocol_contract: u64,
    vault_contract: u64,
    alias_actor: u64,
    alias_permission: u64,
    address_index: u64,
    block_num: u32,
    block_ts: u64,
    auth_count: u64,
    tree: MerkleTree,
    unspent: Vec<NoteEx>,
    spent: Vec<NoteEx>,
    outgoing: Vec<NoteEx>,
    unpublished: Vec<Ciphertext>,
}

impl Wallet {
    pub closed spec fn spec_seed(self) -> Seq<u8> {
        self.seed@
    }

    pub closed spec fn spec_view_only(self) -> bool {
        self.view_only
    }

    pub closed spec fn spec_ivk(self) -> Digest {
        self.ivk
    }

    pub closed spec fn spec_ovk(self) -> Option<Digest> {
        self.ovk
    }

    pub closed spec fn spec_nk(self) -> Option<Digest> {
        self.nk
    }

    pub closed spec fn spec_chain_id(self) -> Digest {
        self.chain_id
    }

    pub closed spec fn spec_protocol_contract(self) -> u64 {
        self.protocol_contract
    }

    pub closed spec fn spec_vault_contract(self) -> u64 {
        self.vault_contract
    }

    pub closed spec fn spec_alias(self) -> (u64, u64) {
        (self.alias_actor, self.alias_permission)
    }

    pub closed spec fn spec_address_index(self) -> u64 {
        self.address_index
    }

    pub closed spec fn spec_block_num(self) -> u32 {
        self.block_num
    }

    pub closed spec fn spec_block_ts(self) -> u64 {
        self.block_ts
    }

    pub closed spec fn spec_auth_count(self) -> u64 {
        self.auth_count
    }

    pub closed spec fn spec_leaves(self) -> Seq<Digest> {
        self.tree@
    }

    pub closed spec fn spec_unspent(self) -> Seq<NoteEx> {
        self.unspent@
    }

    pub closed spec fn spec_spent(self) -> Seq<NoteEx> {
        self.spent@
    }

    pub closed spec fn spec_outgoing(self) -> Seq<NoteEx> {
        self.outgoing@
    }

    pub closed spec fn spec_unpublished(self) -> Seq<CtView> {
        spec_ct_views(self.unpublished@)
    }

    /// The queued ciphertexts themselves (the view behind
    /// `spec_unpublished`).
    pub closed spec fn unpublished_view(self) -> Seq<Ciphertext> {
        self.unpublished@
    }

    /// Well-formedness: the accumulator is within capacity, the key
    /// material is the seed's derivation (for full wallets), and no
    /// commitment is double counted across the tracked collections.
    pub open spec fn wf(self) -> bool {
        &&& self.spec_leaves().len() <= TREE_CAPACITY
        &&& spec_no_double_count(self.spec_unspent(), self.spec_spent(), self.spec_outgoing())
        &&& spec_positions_bound(self.spec_unspent(), self.spec_leaves())
        &&& !self.spec_view_only() ==> {
            &&& self.spec_ivk() == spec_derive_key(self.spec_seed(), KEY_TAG_IVK)
            &&& self.spec_ovk() == Some(spec_derive_key(self.spec_seed(), KEY_TAG_OVK))
            &&& self.spec_nk() == Some(spec_derive_key(self.spec_seed(), KEY_TAG_NK))
        }
        &&& self.spec_view_only() ==> self.spec_ovk() is None && self.spec_nk() is None
    }

    /// The store never holds a note in more than one of unspent, spent
    /// and outgoing at the same time.
    pub proof fn lemma_no_double_count(self)
        requires
            self.wf(),
        ensures
            forall|d: Digest|
                #[trigger] spec_tracked_ms(self.spec_unspent(), self.spec_spent(), self.spec_outgoing()).count(d) <= 1,
    {
    }

    /// Creates a full wallet from a seed; every key is derived from the
    /// seed deterministically.
    pub fn create(
        seed: Vec<u8>,
        chain_id: Digest,
        protocol_contract: u64,
        vault_contract: u64,
        alias_actor: u64,
        alias_permission: u64,
    ) -> (w: Wallet)
        ensures
            w.wf(),
            !w.spec_view_only(),
            w.spec_seed() == seed@,
            w.spec_ivk() == spec_derive_key(seed@, KEY_TAG_IVK),
            w.spec_chain_id() == chain_id,
            w.spec_protocol_contract() == protocol_contract,
            w.spec_vault_contract() == vault_contract,
            w.spec_alias() == (alias_actor, alias_permission),
            w.spec_leaves() =~= Seq::<Digest>::empty(),
            w.spec_unspent() =~= Seq::<NoteEx>::empty(),
            w.spec_spent() =~= Seq::<NoteEx>::empty(),
            w.spec_outgoing() =~= Seq::<NoteEx>::empty(),
            w.spec_unpublished() =~= Seq::<CtView>::empty(),
            w.spec_block_num() == 0,
            w.spec_block_ts() == 0,
            w.spec_address_index() == 0,
            w.spec_auth_count() == 0,
    {
        let ivk = derive_key(&seed, KEY_TAG_IVK);
        let ovk = derive_key(&seed, KEY_TAG_OVK);
        let nk = derive_key(&seed, KEY_TAG_NK);
        let w = Wallet {
            seed,
            view_only: false,
            ivk,
            ovk: Some(ovk),
            nk: Some(nk),
            chain_id,
            protocol_contract,
            vault_contract,
            alias_actor,
            alias_permission,
            address_index: 0,
            block_num: 0,
            block_ts: 0,
            auth_count: 0,
            tree: MerkleTree::new(),
            unspent: Vec::new(),
            spent: Vec::new(),
            outgoing: Vec::new(),
            unpublished: Vec::new(),
        };
        proof {
            assert(spec_cms(w.spec_unspent()) =~= Seq::<Digest>::empty());
            assert(spec_cms(w.spec_spent()) =~= Seq::<Digest>::empty());
            assert(spec_cms(w.spec_outgoing()) =~= Seq::<Digest>::empty());
            assert(w.spec_unpublished() =~= Seq::<CtView>::empty());
            broadcast use vstd::seq_lib::group_to_multiset_ensures;

            assert forall|d: Digest|
                #[trigger] spec_tracked_ms(w.spec_unspent(), w.spec_spent(), w.spec_outgoing()).count(d) <= 1 by {
                assert(Seq::<Digest>::empty().to_multiset().count(d) == 0);
            }
        }
        w
    }

    /// Creates a view-only wallet from an incoming viewing key: it can
    /// decrypt incoming notes but has no outgoing or nullifier key.
    pub fn create_view_only(
        ivk: Digest,
        chain_id: Digest,
        protocol_contract: u64,
        vault_contract: u64,
        alias_actor: u64,
        alias_permission: u64,
    ) -> (w: Wallet)
        ensures
            w.wf(),
            w.spec_view_only(),
            w.spec_ivk() == ivk,
            w.spec_chain_id() == chain_id,
            w.spec_protocol_contract() == protocol_contract,
            w.spec_vault_contract() == vault_contract,
            w.spec_alias() == (alias_actor, alias_permission),
            w.spec_leaves() =~= Seq::<Digest>::empty(),
            w.spec_unspent() =~= Seq::<NoteEx>::empty(),
            w.spec_spent() =~= Seq::<NoteEx>::empty(),
            w.spec_outgoing() =~= Seq::<NoteEx>::empty(),
            w.spec_unpublished() =~= Seq::<CtView>::empty(),
    {
        let w = Wallet {
            seed: Vec::new(),
            view_only: true,
            ivk,
            ovk: None,
            nk: None,
            chain_id,
            protocol_contract,
            vault_contract,
            alias_actor,
            alias_permission,
            address_index: 0,
            block_num: 0,
            block_ts: 0,
            auth_count: 0,
            tree: MerkleTree::new(),
            unspent: Vec::new(),
            spent: Vec::new(),
            outgoing: Vec::new(),
            unpublished: Vec::new(),
        };
        proof {
            assert(spec_cms(w.spec_unspent()) =~= Seq::<Digest>::empty());
            assert(spec_cms(w.spec_spent()) =~= Seq::<Digest>::empty());
            assert(spec_cms(w.spec_outgoing()) =~= Seq::<Digest>::empty());
            assert(w.spec_unpublished() =~= Seq::<CtView>::empty());
            broadcast use vstd::seq_lib::group_to_multiset_ensures;

            assert forall|d: Digest|
                #[trigger] spec_tracked_ms(w.spec_unspent(), w.spec_spent(), w.spec_outgoing()).count(d) <= 1 by {
                assert(Seq::<Digest>::empty().to_multiset().count(d) == 0);
            }
        }
        w
    }

    /// All accumulator leaves, in append order.
    pub fn leaves(&self) -> (v: &Vec<Digest>)
        ensures
            v@ == self.spec_leaves(),
    {
        self.tree.leaves()
    }

    /// The running diversified-address index.
    pub fn address_index(&self) -> (i: u64)
        ensures
            i == self.spec_address_index(),
    {
        self.address_index
    }

    /// The incoming viewing key.
    pub fn incoming_key(&self) -> (r: Digest)
        ensures
            r == self.spec_ivk(),
    {
        self.ivk
    }

    /// The nullifier key, absent for view-only wallets.
    pub fn nullifier_key(&self) -> (r: Option<Digest>)
        ensures
            r == self.spec_nk(),
    {
        self.nk
    }

    /// The outgoing viewing key, absent for view-only wallets.
    pub fn outgoing_key(&self) -> (r: Option<Digest>)
        ensures
            r == self.spec_ovk(),
    {
        self.ovk
    }

    /// Rebuilds a wallet from persisted parts, validating everything
    /// the store invariant needs: accumulator capacity, no commitment
    /// tracked twice, every recorded position pointing at its own
    /// commitment's leaf, and key material consistent with the seed.
    /// Succeeds exactly when the parts are valid.
    pub fn from_parts(
        seed: Vec<u8>,
        view_only: bool,
        ivk: Digest,
        ovk: Option<Digest>,
        nk: Option<Digest>,
        chain_id: Digest,
        protocol_contract: u64,
        vault_contract: u64,
        alias_actor: u64,
        alias_permission: u64,
        address_index: u64,
        block_num: u32,
        block_ts: u64,
        auth_count: u64,
        leaves: Vec<Digest>,
        unspent: Vec<NoteEx>,
        spent: Vec<NoteEx>,
        outgoing: Vec<NoteEx>,
        unpublished: Vec<Ciphertext>,
    ) -> (r: Result<Wallet, WalletError>)
        ensures
            match r {
                Ok(w) => {
                    &&& w.wf()
                    &&& w.spec_seed() == seed@ && w.spec_view_only() == view_only
                    &&& w.spec_ivk() == ivk && w.spec_ovk() == ovk && w.spec_nk() == nk
                    &&& w.spec_chain_id() == chain_id
                    &&& w.spec_protocol_contract() == protocol_contract
                    &&& w.spec_vault_contract() == vault_contract
                    &&& w.spec_alias() == (alias_actor, alias_permission)
                    &&& w.spec_address_index() == address_index
                    &&& w.spec_block_num() == block_num && w.spec_block_ts() == block_ts
                    &&& w.spec_auth_count() == auth_count
                    &&& w.spec_leaves() == leaves@
                    &&& w.spec_unspent() == unspent@ && w.spec_spent() == spent@
                    &&& w.spec_outgoing() == outgoing@
                    &&& w.unpublished_view() == unpublished@
                },
                Err(e) => e.spec_is_fatal() || e == WalletError::CapacityExceeded,
            },
            r is Ok <==> spec_parts_valid(
                seed@,
                view_only,
                ivk,
                ovk,
                nk,
                leaves@,
                unspent@,
                spent@,
                outgoing@,
            ),
    {
        if leaves.len() > TREE_CAPACITY {
            return Err(WalletError::CapacityExceeded);
        }
        if view_only {
            if !(ovk.is_none() && nk.is_none()) {
                return Err(WalletError::SizeMismatch);
            }
        } else {
            let ivk2 = derive_key(&seed, KEY_TAG_IVK);
            let ovk2 = derive_key(&seed, KEY_TAG_OVK);
            let nk2 = derive_key(&seed, KEY_TAG_NK);
            let ovk_ok = match &ovk {
                Some(k) => *k == ovk2,
                None => false,
            };
            let nk_ok = match &nk {
                Some(k) => *k == nk2,
                None => false,
            };
            if !(ivk == ivk2 && ovk_ok && nk_ok) {
                return Err(WalletError::SizeMismatch);
            }
        }
        if !positions_linked(&unspent, &leaves) {
            return Err(WalletError::SizeMismatch);
        }
        if !commitments_distinct(&unspent, &spent, &outgoing) {
            return Err(WalletError::CommitmentCollision);
        }
        let tree = match MerkleTree::from_leaves(leaves) {
            Ok(t) => t,
            Err(e) => {
                proof {
                    assert(false);
                }
                return Err(e);
            },
        };
        proof {
            lemma_distinct_implies_no_double(unspent@, spent@, outgoing@);
        }
        Ok(Wallet {
            seed,
            view_only,
            ivk,
            ovk,
            nk,
            chain_id,
            protocol_contract,
            vault_contract,
            alias_actor,
            alias_permission,
            address_index,
            block_num,
            block_ts,
            auth_count,
            tree,
            unspent,
            spent,
            outgoing,
            unpublished,
        })
    }

    pub fn is_ivk(&self) -> (r: bool)
        ensures
            r == self.spec_view_only(),
    {
        self.view_only
    }

    pub fn seed(&self) -> (s: &Vec<u8>)
        ensures
            s@ == self.spec_seed(),
    {
        &self.seed
    }

    pub fn chain_id(&self) -> (c: Digest)
        ensures
            c == self.spec_chain_id(),
    {
        self.chain_id
    }

    pub fn protocol_contract(&self) -> (c: u64)
        ensures
            c == self.spec_protocol_contract(),
    {
        self.protocol_contract
    }

    pub fn vault_contract(&self) -> (c: u64)
        ensures
            c == self.spec_vault_contract(),
    {
        self.vault_contract
    }

    pub fn alias_authority(&self) -> (a: (u64, u64))
        ensures
            a == self.spec_alias(),
    {
        (self.alias_actor, self.alias_permission)
    }

    pub fn block_num(&self) -> (n: u32)
        ensures
            n == self.spec_block_num(),
    {
        self.block_num
    }

    pub fn block_ts(&self) -> (t: u64)
        ensures
            t == self.spec_block_ts(),
    {
        self.block_ts
    }

    pub fn leaf_count(&self) -> (n: u64)
        ensures
            n == self.spec_leaves().len(),
    {
        self.tree.leaf_count() as u64
    }

    pub fn auth_count(&self) -> (n: u64)
        ensures
            n == self.spec_auth_count(),
    {
        self.auth_count
    }

    pub fn set_auth_count(&mut self, count: u64)
        requires
            old(self).wf(),
        ensures
            final(self).wf(),
            final(self).spec_auth_count() == count,
            final(self).spec_unspent() == old(self).spec_unspent(),
            final(self).spec_spent() == old(self).spec_spent(),
            final(self).spec_outgoing() == old(self).spec_outgoing(),
            final(self).spec_leaves() == old(self).spec_leaves(),
    {
        self.auth_count = count;
    }

    /// The wallet's default address: the diversified address at index 0.
    pub fn default_address(&self) -> (a: crate::note::Address)
        ensures
            a == spec_derive_address(self.spec_ivk(), 0),
    {
        derive_address(&self.ivk, 0)
    }

    /// Derives the next diversified address; deterministic in the key
    /// and the running index, unrelated to note state.
    pub fn derive_next_address(&mut self) -> (a: crate::note::Address)
        requires
            old(self).wf(),
            old(self).spec_address_index() < u64::MAX,
        ensures
            final(self).wf(),
            a == spec_derive_address(old(self).spec_ivk(), (old(self).spec_address_index() + 1) as u64),
            final(self).spec_address_index() == old(self).spec_address_index() + 1,
            final(self).spec_unspent() == old(self).spec_unspent(),
            final(self).spec_spent() == old(self).spec_spent(),
            final(self).spec_outgoing() == old(self).spec_outgoing(),
            final(self).spec_leaves() == old(self).spec_leaves(),
            final(self).spec_ivk() == old(self).spec_ivk(),
    {
        self.address_index = self.address_index + 1;
        derive_address(&self.ivk, self.address_index)
    }

    /// Deterministic per-index vault seed; only a full wallet has one.
    pub fn derive_vault_seed(&self, index: u32) -> (k: Digest)
        requires
            !self.spec_view_only(),
        ensures
            k == spec_derive_vault_key(self.spec_seed(), index),
    {
        derive_vault_key(&self.seed, index)
    }

    /// Appends each 32-byte chunk to the accumulator in chain order.
    /// Rejected whole (no partial mutation) when the buffer is not a
    /// multiple of 32 bytes or would overflow the tree.
    pub fn add_leaves(&mut self, bytes: &Vec<u8>) -> (r: Result<u64, WalletError>)
        requires
            old(self).wf(),
        ensures
            final(self).wf(),
            final(self).spec_unspent() == old(self).spec_unspent(),
            final(self).spec_spent() == old(self).spec_spent(),
            final(self).spec_outgoing() == old(self).spec_outgoing(),
            final(self).spec_unpublished() == old(self).spec_unpublished(),
            final(self).spec_ivk() == old(self).spec_ivk(),
            final(self).spec_ovk() == old(self).spec_ovk(),
            final(self).spec_nk() == old(self).spec_nk(),
            final(self).spec_block_num() == old(self).spec_block_num(),
            final(self).spec_block_ts() == old(self).spec_block_ts(),
            match r {
                Ok(n) => bytes@.len() % 32 == 0
                    && old(self).spec_leaves().len() + bytes@.len() / 32 <= TREE_CAPACITY
                    && n == bytes@.len() / 32
                    && final(self).spec_leaves() == old(self).spec_leaves() + spec_digest_chunks(bytes@),
                Err(e) => final(self).spec_leaves() == old(self).spec_leaves() && (
                    (e == WalletError::WrongLength && bytes@.len() % 32 != 0)
                    || (e == WalletError::CapacityExceeded && bytes@.len() % 32 == 0
                        && old(self).spec_leaves().len() + bytes@.len() / 32 > TREE_CAPACITY)
                ),
            },
    {
        let len = bytes.len();
        if len % 32 != 0 {
            return Err(WalletError::WrongLength);
        }
        let count = len / 32;
        if count > TREE_CAPACITY - self.tree.leaf_count() {
            return Err(WalletError::CapacityExceeded);
        }
        let ghost old_leaves = self.tree@;
        let mut i: usize = 0;
        while i < count
            invariant
                self.wf(),
                count == bytes@.len() / 32,
                bytes@.len() % 32 == 0,
                i <= count,
                old_leaves.len() + count <= TREE_CAPACITY,
                self.tree@ =~= old_leaves + spec_digest_chunks(bytes@).take(i as int),
                self.unspent@ == old(self).spec_unspent(),
                self.spent@ == old(self).spec_spent(),
                self.outgoing@ == old(self).spec_outgoing(),
                self.unpublished@ == old(self).unpublished@,
                self.ivk == old(self).spec_ivk(),
                self.ovk == old(self).spec_ovk(),
                self.nk == old(self).spec_nk(),
                self.block_num == old(self).spec_block_num(),
                self.block_ts == old(self).spec_block_ts(),
            decreases count - i,
        {
            let d = digest_at(bytes, 32 * i);
            proof {
                assert(spec_digest_chunks(bytes@)[i as int] == spec_digest_at(bytes@, 32 * i));
                assert(spec_digest_chunks(bytes@).take(i as int + 1)
                    =~= spec_digest_chunks(bytes@).take(i as int).push(spec_digest_at(bytes@, 32 * i)));
                lemma_positions_bound_extend(self.unspent@, self.tree@, seq![d]);
                assert(self.tree@ + seq![d] =~= self.tree@.push(d));
            }
            if let Err(e) = self.tree.append(d) {
                proof {
                    assert(false);
                }
                return Err(e);
            }
            i = i + 1;
        }
        proof {
            assert(spec_digest_chunks(bytes@).take(count as int) =~= spec_digest_chunks(bytes@));
        }
        Ok(count as u64)
    }

    /// The accumulator root over the current leaves.
    pub fn root(&self) -> (d: Digest)
        requires
            self.wf(),
        ensures
            d == crate::tree::spec_root(self.spec_leaves()),
    {
        self.tree.root()
    }

    /// Membership witness for leaf `i`; fails exactly when that leaf
    /// has not been inserted yet.
    pub fn witness(&self, i: u64) -> (r: Result<Vec<Digest>, WalletError>)
        requires
            self.wf(),
        ensures
            match r {
                Ok(path) => i < self.spec_leaves().len()
                    && path@ == crate::tree::spec_path(self.spec_leaves(), 0, crate::tree::TREE_DEPTH as nat, i as nat),
                Err(e) => e == WalletError::NotYetInserted && i >= self.spec_leaves().len(),
            },
    {
        self.tree.witness(i)
    }

    /// The unspent auth-token note with commitment `cm`, if any.
    pub fn find_auth_token(&self, cm: &Digest) -> (r: Option<NoteEx>)
        ensures
            match spec_find_auth_cm(self.spec_unspent(), *cm, 0) {
                Some(i) => r == Some(self.spec_unspent()[i]),
                None => r is None,
            },
    {
        let n = self.unspent.len();
        let mut i: usize = 0;
        while i < n
            invariant
                n == self.unspent@.len(),
                i <= n,
                spec_find_auth_cm(self.spec_unspent(), *cm, 0) == spec_find_auth_cm(self.spec_unspent(), *cm, i as nat),
            decreases n - i,
        {
            let e = &self.unspent[i];
            if e.note.is_auth_token() {
                let ecm = e.note.commitment();
                if ecm == *cm {
                    return Some(self.unspent[i]);
                }
            }
            i = i + 1;
        }
        None
    }

    /// Moves the unspent auth-token note with commitment `cm` to
    /// spent, stamping it with `block_ts`; returns whether a matching
    /// note was found, and changes nothing otherwise.
    #[verifier::rlimit(60)]
    pub fn burn_auth_token(&mut self, cm: &Digest, block_ts: u64) -> (r: bool)
        requires
            old(self).wf(),
        ensures
            final(self).wf(),
            final(self).spec_outgoing() == old(self).spec_outgoing(),
            final(self).spec_leaves() == old(self).spec_leaves(),
            final(self).spec_unpublished() == old(self).spec_unpublished(),
            final(self).spec_ivk() == old(self).spec_ivk(),
            final(self).spec_ovk() == old(self).spec_ovk(),
            final(self).spec_nk() == old(self).spec_nk(),
            final(self).spec_block_num() == old(self).spec_block_num(),
            final(self).spec_block_ts() == old(self).spec_block_ts(),
            match spec_find_auth_cm(old(self).spec_unspent(), *cm, 0) {
                Some(i) => r && final(self).spec_unspent() == old(self).spec_unspent().remove(i)
                    && ({
                    let e = old(self).spec_unspent()[i];
                    final(self).spec_spent() == old(self).spec_spent().push(
                        NoteEx { note: e.note, position: e.position, block_num: e.block_num, block_ts },
                    )
                }),
                None => !r && final(self).spec_unspent() == old(self).spec_unspent()
                    && final(self).spec_spent() == old(self).spec_spent(),
            },
    {
        let n = self.unspent.len();
        let mut i: usize = 0;
        while i < n
            invariant
                n == self.unspent@.len(),
                i <= n,
                self.wf(),
                self.unspent@ == old(self).spec_unspent(),
                self.spent@ == old(self).spec_spent(),
                self.outgoing@ == old(self).spec_outgoing(),
                self.tree@ == old(self).spec_leaves(),
                self.unpublished@ == old(self).unpublished@,
                self.ivk == old(self).spec_ivk(),
                self.ovk == old(self).spec_ovk(),
                self.nk == old(self).spec_nk(),
                self.block_num == old(self).spec_block_num(),
                self.block_ts == old(self).spec_block_ts(),
                spec_find_auth_cm(self.spec_unspent(), *cm, 0) == spec_find_auth_cm(self.spec_unspent(), *cm, i as nat),
            decreases n - i,
        {
            let e = &self.unspent[i];
            if e.note.is_auth_token() {
                let ecm = e.note.commitment();
                if ecm == *cm {
                    proof {
                        lemma_move_to_spent(self.unspent@, self.spent@, self.outgoing@, i as int);
                        lemma_positions_bound_remove(self.unspent@, self.tree@, i as int);
                        let moved = self.unspent@[i as int];
                        let stamped = NoteEx {
                            note: moved.note,
                            position: moved.position,
                            block_num: moved.block_num,
                            block_ts,
                        };
                        assert(spec_note_commitment(stamped.note) == spec_note_commitment(moved.note));
                        assert(spec_cms(self.spent@.push(stamped)) =~= spec_cms(self.spent@.push(moved)));
                        assert(spec_tracked_ms(self.unspent@.remove(i as int), self.spent@.push(stamped), self.outgoing@)
                            =~= spec_tracked_ms(self.unspent@.remove(i as int), self.spent@.push(moved), self.outgoing@));
                    }
                    let moved = self.unspent.remove(i);
                    let stamped = NoteEx {
                        note: moved.note,
                        position: moved.position,
                        block_num: moved.block_num,
                        block_ts,
                    };
                    self.spent.push(stamped);
                    return true;
                }
            }
            i = i + 1;
        }
        false
    }

    /// `add_leaves` on a hex-encoded batch.  Each error is tied to its
    /// condition, success is owed otherwise, and no error mutates
    /// anything: malformed hex is `InvalidHex`, a decoded length that
    /// is not a multiple of 32 is `WrongLength`, and a batch past the
    /// accumulator's capacity is `CapacityExceeded`.
    pub fn add_leaves_hex(&mut self, hex_text: &Vec<u8>) -> (r: Result<u64, WalletError>)
        requires
            old(self).wf(),
        ensures
            final(self).wf(),
            final(self).spec_unspent() == old(self).spec_unspent(),
            final(self).spec_spent() == old(self).spec_spent(),
            final(self).spec_outgoing() == old(self).spec_outgoing(),
            final(self).spec_unpublished() == old(self).spec_unpublished(),
            final(self).spec_ivk() == old(self).spec_ivk(),
            final(self).spec_ovk() == old(self).spec_ovk(),
            final(self).spec_nk() == old(self).spec_nk(),
            final(self).spec_block_num() == old(self).spec_block_num(),
            final(self).spec_block_ts() == old(self).spec_block_ts(),
            ({
                let hex_ok = crate::hexstr::spec_is_hex(hex_text@);
                let bytes = crate::hexstr::spec_hex_bytes(hex_text@);
                match r {
                    Ok(n) => hex_ok && bytes.len() % 32 == 0
                        && old(self).spec_leaves().len() + bytes.len() / 32 <= TREE_CAPACITY
                        && n == bytes.len() / 32
                        && final(self).spec_leaves() == old(self).spec_leaves() + spec_digest_chunks(bytes),
                    Err(e) => final(self).spec_leaves() == old(self).spec_leaves() && (
                        (e == WalletError::InvalidHex && !hex_ok)
                        || (e == WalletError::WrongLength && hex_ok && bytes.len() % 32 != 0)
                        || (e == WalletError::CapacityExceeded && hex_ok && bytes.len() % 32 == 0
                            && old(self).spec_leaves().len() + bytes.len() / 32 > TREE_CAPACITY)
                    ),
                }
            }),
    {
        let bytes = match crate::hexstr::decode_hex(hex_text) {
            Ok(b) => b,
            Err(e) => {
                return Err(e);
            },
        };
        self.add_leaves(&bytes)
    }

    /// `mark_notes_spent` on a hex-encoded nullifier batch.  Each
    /// error is tied to its condition, success is owed otherwise (an
    /// empty batch succeeds with count zero), and no error mutates
    /// anything: malformed hex is `InvalidHex`, a decoded length that
    /// is not a multiple of 32 is `WrongLength`.
    pub fn mark_notes_spent_hex(&mut self, hex_text: &Vec<u8>) -> (r: Result<u64, WalletError>)
        requires
            old(self).wf(),
        ensures
            final(self).wf(),
            final(self).spec_outgoing() == old(self).spec_outgoing(),
            final(self).spec_leaves() == old(self).spec_leaves(),
            final(self).spec_unpublished() == old(self).spec_unpublished(),
            final(self).spec_ivk() == old(self).spec_ivk(),
            final(self).spec_ovk() == old(self).spec_ovk(),
            final(self).spec_nk() == old(self).spec_nk(),
            final(self).spec_block_num() == old(self).spec_block_num(),
            final(self).spec_block_ts() == old(self).spec_block_ts(),
            ({
                let hex_ok = crate::hexstr::spec_is_hex(hex_text@);
                let bytes = crate::hexstr::spec_hex_bytes(hex_text@);
                match r {
                    Ok(count) => hex_ok && bytes.len() % 32 == 0 && ({
                        let out = spec_mark_all(
                            old(self).spec_unspent(),
                            old(self).spec_spent(),
                            old(self).spec_nk(),
                            spec_digest_chunks(bytes),
                        );
                        &&& final(self).spec_unspent() == out.un
                        &&& final(self).spec_spent() == out.sp
                        &&& count == out.count
                    }),
                    Err(e) => final(self).spec_unspent() == old(self).spec_unspent()
                        && final(self).spec_spent() == old(self).spec_spent() && (
                        (e == WalletError::InvalidHex && !hex_ok)
                        || (e == WalletError::WrongLength && hex_ok && bytes.len() % 32 != 0)
                    ),
                }
            }),
    {
        let bytes = match crate::hexstr::decode_hex(hex_text) {
            Ok(b) => b,
            Err(e) => {
                return Err(e);
            },
        };
        self.mark_notes_spent(&bytes)
    }

    /// Whether a commitment is already tracked by any of the three
    /// note collections.
    fn is_tracked(&self, cm: &Digest) -> (r: bool)
        ensures
            r == spec_cm_tracked(self.spec_unspent(), self.spec_spent(), self.spec_outgoing(), *cm),
    {
        vec_contains_cm(&self.unspent, cm) || vec_contains_cm(&self.spent, cm)
            || vec_contains_cm(&self.outgoing, cm)
    }

    /// Attempts decryption of every ciphertext and folds the outcomes
    /// into the store; see `spec_add_all` for the exact effect.
    #[verifier::rlimit(100)]
    pub fn add_notes(&mut self, cts: &Vec<Ciphertext>, block_num: u32, block_ts: u64) -> (counts: NoteCounts)
        requires
            old(self).wf(),
        ensures
            final(self).wf(),
            ({
                let out = spec_add_all(
                    old(self).spec_unspent(),
                    old(self).spec_spent(),
                    old(self).spec_outgoing(),
                    old(self).spec_leaves(),
                    old(self).spec_ivk(),
                    old(self).spec_ovk(),
                    block_num,
                    block_ts,
                    spec_ct_views(cts@),
                );
                &&& final(self).spec_unspent() == out.un
                &&& final(self).spec_outgoing() == out.og
                &&& counts.fts == out.fts
                &&& counts.nfts == out.nfts
                &&& counts.ats == out.ats
            }),
            final(self).spec_spent() == old(self).spec_spent(),
            final(self).spec_leaves() == old(self).spec_leaves(),
            final(self).spec_unpublished() == old(self).spec_unpublished(),
            final(self).spec_ivk() == old(self).spec_ivk(),
            final(self).spec_ovk() == old(self).spec_ovk(),
            final(self).spec_nk() == old(self).spec_nk(),
            final(self).spec_block_num() == old(self).spec_block_num(),
            final(self).spec_block_ts() == old(self).spec_block_ts(),
    {
        let n = cts.len();
        let mut i: usize = 0;
        let mut counts = NoteCounts { fts: 0, nfts: 0, ats: 0 };
        while i < n
            invariant
                n == cts@.len(),
                i <= n,
                self.wf(),
                counts.fts <= i && counts.nfts <= i && counts.ats <= i,
                ({
                    let out = spec_add_all(
                        old(self).spec_unspent(),
                        old(self).spec_spent(),
                        old(self).spec_outgoing(),
                        old(self).spec_leaves(),
                        old(self).spec_ivk(),
                        old(self).spec_ovk(),
                        block_num,
                        block_ts,
                        spec_ct_views(cts@).take(i as int),
                    );
                    &&& self.unspent@ == out.un
                    &&& self.outgoing@ == out.og
                    &&& counts.fts == out.fts
                    &&& counts.nfts == out.nfts
                    &&& counts.ats == out.ats
                }),
                self.spent@ == old(self).spec_spent(),
                self.tree@ == old(self).spec_leaves(),
                self.unpublished@ == old(self).unpublished@,
                self.ivk == old(self).spec_ivk(),
                self.ovk == old(self).spec_ovk(),
                self.nk == old(self).spec_nk(),
                self.block_num == old(self).spec_block_num(),
                self.block_ts == old(self).spec_block_ts(),
            decreases n - i,
        {
            proof {
                assert(spec_ct_views(cts@).take(i as int + 1).drop_last()
                    =~= spec_ct_views(cts@).take(i as int));
                assert(spec_ct_views(cts@).take(i as int + 1).last() == spec_ct_view(cts@[i as int]));
            }
            let ct = &cts[i];
            let mut handled = false;
            match decrypt_note(ct, &self.ivk) {
                Some(note) => {
                    handled = true;
                    let cm = note.commitment();
                    match self.tree.leaf_index(&cm) {
                        Some(pos) => {
                            if !self.is_tracked(&cm) {
                                let e = NoteEx::new(note, Some(pos), block_num, block_ts);
                                proof {
                                    lemma_push_unspent_wf(
                                        self.unspent@,
                                        self.spent@,
                                        self.outgoing@,
                                        NoteEx { note, position: Some(pos), block_num, block_ts },
                                    );
                                    crate::tree::lemma_leaf_index_found(self.tree@, cm, 0);
                                    lemma_positions_bound_push(
                                        self.unspent@,
                                        self.tree@,
                                        NoteEx { note, position: Some(pos), block_num, block_ts },
                                    );
                                }
                                self.unspent.push(e);
                                match note.kind() {
                                    NoteKind::Fungible => {
                                        counts.fts = counts.fts + 1;
                                    },
                                    NoteKind::NonFungible => {
                                        counts.nfts = counts.nfts + 1;
                                    },
                                    NoteKind::AuthToken => {
                                        counts.ats = counts.ats + 1;
                                    },
                                }
                            }
                        },
                        None => {},
                    }
                },
                None => {},
            }
            if !handled {
                match &self.ovk {
                    Some(k) => {
                        let ovk_copy = *k;
                        match decrypt_note_outgoing(ct, &ovk_copy) {
                            Some(note) => {
                                let cm = note.commitment();
                                if !self.is_tracked(&cm) {
                                    let pos = self.tree.leaf_index(&cm);
                                    let e = NoteEx::new(note, pos, block_num, block_ts);
                                    proof {
                                        lemma_push_outgoing_wf(
                                            self.unspent@,
                                            self.spent@,
                                            self.outgoing@,
                                            NoteEx { note, position: pos, block_num, block_ts },
                                        );
                                    }
                                    self.outgoing.push(e);
                                }
                            },
                            None => {},
                        }
                    },
                    None => {},
                }
            }
            i = i + 1;
        }
        proof {
            assert(spec_ct_views(cts@).take(n as int) =~= spec_ct_views(cts@));
        }
        counts
    }

    /// Least unspent index whose recomputed nullifier is `nf`.
    fn find_unspent_by_nullifier(&self, nk: &Digest, nf: &Digest) -> (r: Option<usize>)
        ensures
            match r {
                Some(i) => Some(i as int) == spec_find_nf(self.spec_unspent(), *nk, *nf, 0) && i < self.spec_unspent().len(),
                None => spec_find_nf(self.spec_unspent(), *nk, *nf, 0) is None,
            },
    {
        let n = self.unspent.len();
        let mut i: usize = 0;
        while i < n
            invariant
                n == self.unspent@.len(),
                i <= n,
                spec_find_nf(self.spec_unspent(), *nk, *nf, 0) == spec_find_nf(self.spec_unspent(), *nk, *nf, i as nat),
            decreases n - i,
        {
            let e = &self.unspent[i];
            match e.position {
                Some(pos) => {
                    let enf = e.note.nullifier(nk, pos);
                    if enf == *nf {
                        return Some(i);
                    }
                },
                None => {},
            }
            i = i + 1;
        }
        None
    }

    /// Marks notes spent from a flat batch of 32-byte nullifiers: each
    /// matching unspent entry moves to spent; unmatched nullifiers are
    /// ignored.  A buffer that is not a multiple of 32 bytes is a
    /// format error and changes nothing.
    #[verifier::rlimit(60)]
    pub fn mark_notes_spent(&mut self, nullifier_bytes: &Vec<u8>) -> (r: Result<u64, WalletError>)
        requires
            old(self).wf(),
        ensures
            final(self).wf(),
            final(self).spec_outgoing() == old(self).spec_outgoing(),
            final(self).spec_leaves() == old(self).spec_leaves(),
            final(self).spec_unpublished() == old(self).spec_unpublished(),
            final(self).spec_ivk() == old(self).spec_ivk(),
            final(self).spec_ovk() == old(self).spec_ovk(),
            final(self).spec_nk() == old(self).spec_nk(),
            final(self).spec_block_num() == old(self).spec_block_num(),
            final(self).spec_block_ts() == old(self).spec_block_ts(),
            match r {
                Ok(count) => nullifier_bytes@.len() % 32 == 0 && ({
                    let out = spec_mark_all(
                        old(self).spec_unspent(),
                        old(self).spec_spent(),
                        old(self).spec_nk(),
                        spec_digest_chunks(nullifier_bytes@),
                    );
                    &&& final(self).spec_unspent() == out.un
                    &&& final(self).spec_spent() == out.sp
                    &&& count == out.count
                }),
                Err(e) => e == WalletError::WrongLength && nullifier_bytes@.len() % 32 != 0
                    && final(self).spec_unspent() == old(self).spec_unspent()
                    && final(self).spec_spent() == old(self).spec_spent(),
            },
    {
        let len = nullifier_bytes.len();
        if len % 32 != 0 {
            return Err(WalletError::WrongLength);
        }
        let count = len / 32;
        let mut i: usize = 0;
        let mut moved: u64 = 0;
        while i < count
            invariant
                count == nullifier_bytes@.len() / 32,
                nullifier_bytes@.len() % 32 == 0,
                32 * (count as int) <= usize::MAX,
                i <= count,
                moved <= i,
                self.wf(),
                ({
                    let out = spec_mark_all(
                        old(self).spec_unspent(),
                        old(self).spec_spent(),
                        old(self).spec_nk(),
                        spec_digest_chunks(nullifier_bytes@).take(i as int),
                    );
                    &&& self.unspent@ == out.un
                    &&& self.spent@ == out.sp
                    &&& moved == out.count
                }),
                self.outgoing@ == old(self).spec_outgoing(),
                self.tree@ == old(self).spec_leaves(),
                self.unpublished@ == old(self).unpublished@,
                self.ivk == old(self).spec_ivk(),
                self.ovk == old(self).spec_ovk(),
                self.nk == old(self).spec_nk(),
                self.block_num == old(self).spec_block_num(),
                self.block_ts == old(self).spec_block_ts(),
            decreases count - i,
        {
            let nf = digest_at(nullifier_bytes, 32 * i);
            proof {
                assert(spec_digest_chunks(nullifier_bytes@).take(i as int + 1).drop_last()
                    =~= spec_digest_chunks(nullifier_bytes@).take(i as int));
                assert(spec_digest_chunks(nullifier_bytes@).take(i as int + 1).last()
                    == spec_digest_at(nullifier_bytes@, 32 * i));
            }
            let nk = match &self.nk {
                Some(k) => Some(*k),
                None => None,
            };
            match nk {
                Some(k) => {
                    match self.find_unspent_by_nullifier(&k, &nf) {
                        Some(idx) => {
                            proof {
                                lemma_move_to_spent(self.unspent@, self.spent@, self.outgoing@, idx as int);
                                lemma_positions_bound_remove(self.unspent@, self.tree@, idx as int);
                            }
                            let e = self.unspent.remove(idx);
                            self.spent.push(e);
                            moved = moved + 1;
                        },
                        None => {},
                    }
                },
                None => {},
            }
            i = i + 1;
        }
        proof {
            assert(spec_digest_chunks(nullifier_bytes@).take(count as int)
                =~= spec_digest_chunks(nullifier_bytes@));
        }
        Ok(moved)
    }

    /// Total unspent fungible amount of one `(contract, symbol)` pair.
    pub fn balance_of(&self, contract: u64, symbol: u64) -> (total: u128)
        ensures
            total as int == spec_balance(self.spec_unspent(), contract, symbol),
    {
        let n = self.unspent.len();
        let mut i: usize = 0;
        let mut total: u128 = 0;
        while i < n
            invariant
                n == self.unspent@.len(),
                i <= n,
                total as int == spec_balance(self.spec_unspent().take(i as int), contract, symbol),
                total as int <= (i as int) * 0xffffffffffffffff,
            decreases n - i,
        {
            proof {
                assert(self.spec_unspent().take(i as int + 1).drop_last() =~= self.spec_unspent().take(i as int));
                assert(self.spec_unspent().take(i as int + 1).last() == self.spec_unspent()[i as int]);
            }
            let e = &self.unspent[i];
            if e.note.is_fungible() && e.note.contract == contract && e.note.symbol == symbol {
                total = total + e.note.amount as u128;
            }
            i = i + 1;
        }
        proof {
            assert(self.spec_unspent().take(n as int) =~= self.spec_unspent());
        }
        total
    }

    /// All unspent notes, for inspection.
    pub fn unspent_notes(&self) -> (v: &Vec<NoteEx>)
        ensures
            v@ == self.spec_unspent(),
    {
        &self.unspent
    }

    pub fn spent_notes(&self) -> (v: &Vec<NoteEx>)
        ensures
            v@ == self.spec_spent(),
    {
        &self.spent
    }

    pub fn outgoing_notes(&self) -> (v: &Vec<NoteEx>)
        ensures
            v@ == self.spec_outgoing(),
    {
        &self.outgoing
    }

    /// Queues ciphertexts of locally created notes for retry on every
    /// later digestion until their commitments are observed as leaves.
    pub fn add_unpublished_notes(&mut self, cts: &Vec<Ciphertext>)
        requires
            old(self).wf(),
        ensures
            final(self).wf(),
            final(self).spec_unpublished() == old(self).spec_unpublished() + spec_ct_views(cts@),
            final(self).spec_unspent() == old(self).spec_unspent(),
            final(self).spec_spent() == old(self).spec_spent(),
            final(self).spec_outgoing() == old(self).spec_outgoing(),
            final(self).spec_leaves() == old(self).spec_leaves(),
            final(self).spec_ivk() == old(self).spec_ivk(),
            final(self).spec_ovk() == old(self).spec_ovk(),
            final(self).spec_nk() == old(self).spec_nk(),
            final(self).spec_block_num() == old(self).spec_block_num(),
            final(self).spec_block_ts() == old(self).spec_block_ts(),
    {
        let n = cts.len();
        let mut i: usize = 0;
        while i < n
            invariant
                n == cts@.len(),
                i <= n,
                self.wf(),
                spec_ct_views(self.unpublished@) =~= old(self).spec_unpublished() + spec_ct_views(cts@).take(i as int),
                self.unspent@ == old(self).spec_unspent(),
                self.spent@ == old(self).spec_spent(),
                self.outgoing@ == old(self).spec_outgoing(),
                self.tree@ == old(self).spec_leaves(),
                self.ivk == old(self).spec_ivk(),
                self.ovk == old(self).spec_ovk(),
                self.nk == old(self).spec_nk(),
                self.block_num == old(self).spec_block_num(),
                self.block_ts == old(self).spec_block_ts(),
            decreases n - i,
        {
            let c = clone_ciphertext(&cts[i]);
            proof {
                assert(spec_ct_view(c) == spec_ct_views(cts@)[i as int]);
                assert(spec_ct_views(self.unpublished@.push(c))
                    =~= spec_ct_views(self.unpublished@).push(spec_ct_view(c)));
                assert(old(self).spec_unpublished() + spec_ct_views(cts@).take(i as int + 1)
                    =~= (old(self).spec_unpublished() + spec_ct_views(cts@).take(i as int)).push(
                    spec_ct_views(cts@)[i as int]));
            }
            self.unpublished.push(c);
            i = i + 1;
        }
        proof {
            assert(spec_ct_views(cts@).take(n as int) =~= spec_ct_views(cts@));
        }
    }

    pub fn clear_unpublished_notes(&mut self)
        requires
            old(self).wf(),
        ensures
            final(self).wf(),
            final(self).spec_unpublished() =~= Seq::<CtView>::empty(),
            final(self).spec_unspent() == old(self).spec_unspent(),
            final(self).spec_spent() == old(self).spec_spent(),
            final(self).spec_outgoing() == old(self).spec_outgoing(),
            final(self).spec_leaves() == old(self).spec_leaves(),
    {
        self.unpublished = Vec::new();
        proof {
            assert(self.spec_unpublished() =~= Seq::<CtView>::empty());
        }
    }

    /// The queued unpublished ciphertexts.
    pub fn unpublished_notes(&self) -> (v: &Vec<Ciphertext>)
        ensures
            v@ == self.unpublished_view(),
            spec_ct_views(v@) == self.spec_unpublished(),
    {
        &self.unpublished
    }

    /// Drops unpublished ciphertexts that have been absorbed: those
    /// whose incoming decryption's commitment is now tracked as
    /// unspent or spent; see `spec_prune`.
    #[verifier::rlimit(60)]
    pub fn prune_unpublished(&mut self)
        requires
            old(self).wf(),
        ensures
            final(self).wf(),
            final(self).spec_unpublished() == spec_prune(
                old(self).spec_unspent(),
                old(self).spec_spent(),
                old(self).spec_ivk(),
                old(self).spec_unpublished(),
            ),
            final(self).spec_unspent() == old(self).spec_unspent(),
            final(self).spec_spent() == old(self).spec_spent(),
            final(self).spec_outgoing() == old(self).spec_outgoing(),
            final(self).spec_leaves() == old(self).spec_leaves(),
            final(self).spec_ivk() == old(self).spec_ivk(),
            final(self).spec_ovk() == old(self).spec_ovk(),
            final(self).spec_nk() == old(self).spec_nk(),
            final(self).spec_block_num() == old(self).spec_block_num(),
            final(self).spec_block_ts() == old(self).spec_block_ts(),
    {
        let n = self.unpublished.len();
        let mut kept: Vec<Ciphertext> = Vec::new();
        let mut i: usize = 0;
        while i < n
            invariant
                n == self.unpublished@.len(),
                i <= n,
                self.wf(),
                spec_ct_views(kept@) =~= spec_prune(
                    self.spec_unspent(),
                    self.spec_spent(),
                    self.spec_ivk(),
                    spec_ct_views(self.unpublished@).take(i as int),
                ),
            decreases n - i,
        {
            proof {
                assert(spec_ct_views(self.unpublished@).take(i as int + 1).drop_last()
                    =~= spec_ct_views(self.unpublished@).take(i as int));
                assert(spec_ct_views(self.unpublished@).take(i as int + 1).last()
                    == spec_ct_view(self.unpublished@[i as int]));
            }
            let ct = &self.unpublished[i];
            let keep = match decrypt_note(ct, &self.ivk) {
                Some(note) => {
                    let cm = note.commitment();
                    !(vec_contains_cm(&self.unspent, &cm) || vec_contains_cm(&self.spent, &cm))
                },
                None => false,
            };
            if keep {
                let c = clone_ciphertext(ct);
                proof {
                    assert(spec_ct_view(c) == spec_ct_view(self.unpublished@[i as int]));
                    assert(spec_ct_views(kept@.push(c))
                        =~= spec_ct_views(kept@).push(spec_ct_view(c)));
                }
                kept.push(c);
            }
            i = i + 1;
        }
        proof {
            assert(spec_ct_views(self.unpublished@).take(n as int) =~= spec_ct_views(self.unpublished@));
        }
        self.unpublished = kept;
    }

    /// Folds one block's chain data into the wallet, in the mandated
    /// order: leaves are appended before ciphertexts are bound to
    /// positions, and nullifier matching runs last; still-unpublished
    /// local notes are retried along with the block's ciphertexts, and
    /// absorbed ones leave the retry pool.  Malformed input is
    /// rejected whole, before any mutation.
    pub fn digest_block(
        &mut self,
        leaves_bytes: &Vec<u8>,
        cts: &Vec<Ciphertext>,
        nullifier_bytes: &Vec<u8>,
        block_num: u32,
        block_ts: u64,
    ) -> (r: Result<u64, WalletError>)
        requires
            old(self).wf(),
        ensures
            final(self).wf(),
            final(self).spec_ivk() == old(self).spec_ivk(),
            final(self).spec_ovk() == old(self).spec_ovk(),
            final(self).spec_nk() == old(self).spec_nk(),
            match r {
                Ok(counts) => leaves_bytes@.len() % 32 == 0 && nullifier_bytes@.len() % 32 == 0
                    && old(self).spec_leaves().len() + leaves_bytes@.len() / 32 <= TREE_CAPACITY
                    && ({
                    let leaves2 = old(self).spec_leaves() + spec_digest_chunks(leaves_bytes@);
                    let all = spec_ct_views(cts@) + old(self).spec_unpublished();
                    let ao = spec_add_all(
                        old(self).spec_unspent(),
                        old(self).spec_spent(),
                        old(self).spec_outgoing(),
                        leaves2,
                        old(self).spec_ivk(),
                        old(self).spec_ovk(),
                        block_num,
                        block_ts,
                        all,
                    );
                    let mo = spec_mark_all(
                        ao.un,
                        old(self).spec_spent(),
                        old(self).spec_nk(),
                        spec_digest_chunks(nullifier_bytes@),
                    );
                    &&& final(self).spec_leaves() == leaves2
                    &&& final(self).spec_unspent() == mo.un
                    &&& final(self).spec_spent() == mo.sp
                    &&& final(self).spec_outgoing() == ao.og
                    &&& final(self).spec_unpublished() == spec_prune(
                        mo.un,
                        mo.sp,
                        old(self).spec_ivk(),
                        old(self).spec_unpublished(),
                    )
                    &&& final(self).spec_block_num() == block_num
                    &&& final(self).spec_block_ts() == if block_ts > old(self).spec_block_ts() {
                        block_ts
                    } else {
                        old(self).spec_block_ts()
                    }
                    &&& counts == crate::digest::spec_mix64(
                        crate::digest::spec_mix64(
                            crate::digest::spec_mix64(ao.fts as u64, ao.nfts as u64),
                            crate::digest::spec_mix64(ao.ats as u64, mo.count as u64),
                        ),
                        leaves2.len() as u64,
                    )
                }),
                Err(e) => *final(self) == *old(self) && (
                    (e == WalletError::WrongLength
                        && (leaves_bytes@.len() % 32 != 0 || nullifier_bytes@.len() % 32 != 0))
                    || (e == WalletError::CapacityExceeded && leaves_bytes@.len() % 32 == 0
                        && nullifier_bytes@.len() % 32 == 0
                        && old(self).spec_leaves().len() + leaves_bytes@.len() / 32 > TREE_CAPACITY)
                ),
            },
    {
        if leaves_bytes.len() % 32 != 0 || nullifier_bytes.len() % 32 != 0 {
            return Err(WalletError::WrongLength);
        }
        if leaves_bytes.len() / 32 > TREE_CAPACITY - self.tree.leaf_count() {
            return Err(WalletError::CapacityExceeded);
        }
        let ghost pre = *self;
        let added = match self.add_leaves(leaves_bytes) {
            Ok(n) => n,
            Err(e) => {
                proof {
                    assert(false);
                }
                return Err(e);
            },
        };
        let all = concat_cts(cts, &self.unpublished);
        let counts = self.add_notes(&all, block_num, block_ts);
        let moved = match self.mark_notes_spent(nullifier_bytes) {
            Ok(m) => m,
            Err(e) => {
                proof {
                    assert(false);
                }
                return Err(e);
            },
        };
        self.prune_unpublished();
        self.block_num = block_num;
        if block_ts > self.block_ts {
            self.block_ts = block_ts;
        }
        let inner1 = crate::digest::mix64(counts.fts, counts.nfts);
        let inner2 = crate::digest::mix64(counts.ats, moved);
        let inner = crate::digest::mix64(inner1, inner2);
        Ok(crate::digest::mix64(inner, self.tree.leaf_count() as u64))
    }

    /// Eager local update after signing, ahead of chain confirmation:
    /// applies the transaction's leaves, ciphertexts and nullifiers at
    /// a locally synthesized timestamp `max(now_ms, last block's
    /// timestamp + 1)`, so locally created notes order after all
    /// confirmed state, then queues the metadata's ciphertexts for
    /// retry.  Signing itself never mutates the wallet; this is the
    /// caller's explicit follow-up step.
    pub fn apply_local_effects(
        &mut self,
        leaves_bytes: &Vec<u8>,
        cts: &Vec<Ciphertext>,
        nullifier_bytes: &Vec<u8>,
        unpublished: &Vec<Ciphertext>,
        now_ms: u64,
    ) -> (r: Result<u64, WalletError>)
        requires
            old(self).wf(),
        ensures
            final(self).wf(),
            ({
                let ts = if now_ms > old(self).spec_block_ts() {
                    now_ms
                } else if old(self).spec_block_ts() == u64::MAX {
                    u64::MAX
                } else {
                    (old(self).spec_block_ts() + 1) as u64
                };
                match r {
                    Ok(counts) => leaves_bytes@.len() % 32 == 0 && nullifier_bytes@.len() % 32 == 0
                        && old(self).spec_leaves().len() + leaves_bytes@.len() / 32 <= TREE_CAPACITY
                        && ({
                        let leaves2 = old(self).spec_leaves() + spec_digest_chunks(leaves_bytes@);
                        let all = spec_ct_views(cts@) + old(self).spec_unpublished();
                        let ao = spec_add_all(
                            old(self).spec_unspent(),
                            old(self).spec_spent(),
                            old(self).spec_outgoing(),
                            leaves2,
                            old(self).spec_ivk(),
                            old(self).spec_ovk(),
                            old(self).spec_block_num(),
                            ts,
                            all,
                        );
                        let mo = spec_mark_all(
                            ao.un,
                            old(self).spec_spent(),
                            old(self).spec_nk(),
                            spec_digest_chunks(nullifier_bytes@),
                        );
                        &&& final(self).spec_leaves() == leaves2
                        &&& final(self).spec_unspent() == mo.un
                        &&& final(self).spec_spent() == mo.sp
                        &&& final(self).spec_outgoing() == ao.og
                        &&& final(self).spec_unpublished() == spec_prune(
                            mo.un,
                            mo.sp,
                            old(self).spec_ivk(),
                            old(self).spec_unpublished(),
                        ) + spec_ct_views(unpublished@)
                        &&& final(self).spec_block_ts() >= old(self).spec_block_ts()
                    }),
                    Err(e) => *final(self) == *old(self) && (
                        (e == WalletError::WrongLength
                            && (leaves_bytes@.len() % 32 != 0 || nullifier_bytes@.len() % 32 != 0))
                        || (e == WalletError::CapacityExceeded && leaves_bytes@.len() % 32 == 0
                            && nullifier_bytes@.len() % 32 == 0
                            && old(self).spec_leaves().len() + leaves_bytes@.len() / 32 > TREE_CAPACITY)
                    ),
                }
            }),
    {
        let bump = if self.block_ts == u64::MAX {
            u64::MAX
        } else {
            self.block_ts + 1
        };
        let ts = if now_ms > bump {
            now_ms
        } else {
            bump
        };
        let bn = self.block_num;
        let r = self.digest_block(leaves_bytes, cts, nullifier_bytes, bn, ts);
        match r {
            Ok(counts) => {
                self.add_unpublished_notes(unpublished);
                Ok(counts)
            },
            Err(e) => Err(e),
        }
    }

    /// Clears all chain-derived state (accumulator, tracked notes,
    /// block counters) so the wallet can resynchronize from scratch;
    /// keys, addresses and the unpublished retry pool are kept.
    pub fn reset_chain_state(&mut self)
        requires
            old(self).wf(),
        ensures
            final(self).wf(),
            final(self).spec_leaves() =~= Seq::<Digest>::empty(),
            final(self).spec_unspent() =~= Seq::<NoteEx>::empty(),
            final(self).spec_spent() =~= Seq::<NoteEx>::empty(),
            final(self).spec_outgoing() =~= Seq::<NoteEx>::empty(),
            final(self).spec_unpublished() == old(self).spec_unpublished(),
            final(self).spec_block_num() == 0,
            final(self).spec_block_ts() == 0,
            final(self).spec_ivk() == old(self).spec_ivk(),
            final(self).spec_ovk() == old(self).spec_ovk(),
            final(self).spec_nk() == old(self).spec_nk(),
            final(self).spec_seed() == old(self).spec_seed(),
            final(self).spec_address_index() == old(self).spec_address_index(),
    {
        self.tree = MerkleTree::new();
        self.unspent = Vec::new();
        self.spent = Vec::new();
        self.outgoing = Vec::new();
        self.block_num = 0;
        self.block_ts = 0;
        proof {
            assert(spec_cms(self.spec_unspent()) =~= Seq::<Digest>::empty());
            assert(spec_cms(self.spec_spent()) =~= Seq::<Digest>::empty());
            assert(spec_cms(self.spec_outgoing()) =~= Seq::<Digest>::empty());
            broadcast use vstd::seq_lib::group_to_multiset_ensures;

            assert forall|d: Digest|
                #[trigger] spec_tracked_ms(self.spec_unspent(), self.spec_spent(), self.spec_outgoing()).count(d) <= 1 by {
                assert(Seq::<Digest>::empty().to_multiset().count(d) == 0);
            }
        }
    }

    /// All fungible balances: one `(contract, symbol, total)` triple
    /// per asset held unspent, each total the exact sum over unspent
    /// fungible notes of that pair, every pair listed once, and every
    /// fungible unspent note's pair listed.
    pub fn balances(&self) -> (v: Vec<(u64, u64, u128)>)
        ensures
            forall|i: int| 0 <= i < v@.len()
                ==> (#[trigger] v@[i]).2 as int == spec_balance(self.spec_unspent(), v@[i].0, v@[i].1),
            forall|i: int, j: int| 0 <= i < j < v@.len()
                ==> !((#[trigger] v@[i]).0 == (#[trigger] v@[j]).0 && v@[i].1 == v@[j].1),
            forall|k: int| 0 <= k < self.spec_unspent().len()
                && (#[trigger] self.spec_unspent()[k]).note.spec_kind() == NoteKind::Fungible
                ==> exists|i: int| 0 <= i < v@.len()
                    && (#[trigger] v@[i]).0 == self.spec_unspent()[k].note.contract
                    && v@[i].1 == self.spec_unspent()[k].note.symbol,
            spec_balances_sound(v@, self.spec_unspent()),
    {
        let n = self.unspent.len();
        let mut out: Vec<(u64, u64, u128)> = Vec::new();
        let ghost mut wit: Seq<int> = Seq::empty();
        let mut k: usize = 0;
        while k < n
            invariant
                n == self.unspent@.len(),
                k <= n,
                forall|i: int| 0 <= i < out@.len()
                    ==> (#[trigger] out@[i]).2 as int == spec_balance(self.spec_unspent(), out@[i].0, out@[i].1),
                forall|i: int, j: int| 0 <= i < j < out@.len()
                    ==> !((#[trigger] out@[i]).0 == (#[trigger] out@[j]).0 && out@[i].1 == out@[j].1),
                forall|q: int| 0 <= q < k
                    && (#[trigger] self.spec_unspent()[q]).note.spec_kind() == NoteKind::Fungible
                    ==> exists|i: int| 0 <= i < out@.len()
                        && (#[trigger] out@[i]).0 == self.spec_unspent()[q].note.contract
                        && out@[i].1 == self.spec_unspent()[q].note.symbol,
                wit.len() == out@.len(),
                forall|i: int| 0 <= i < out@.len() ==> 0 <= #[trigger] wit[i] < self.spec_unspent().len()
                    && self.spec_unspent()[wit[i]].note.spec_kind() == NoteKind::Fungible
                    && self.spec_unspent()[wit[i]].note.contract == out@[i].0
                    && self.spec_unspent()[wit[i]].note.symbol == out@[i].1,
            decreases n - k,
        {
            let e = &self.unspent[k];
            if e.note.is_fungible() {
                let c = e.note.contract;
                let s = e.note.symbol;
                let mut found = false;
                let m = out.len();
                let mut i: usize = 0;
                while i < m
                    invariant
                        m == out@.len(),
                        i <= m,
                        found ==> exists|q: int| 0 <= q < out@.len()
                            && (#[trigger] out@[q]).0 == c && out@[q].1 == s,
                        !found ==> forall|q: int| 0 <= q < i
                            ==> !((#[trigger] out@[q]).0 == c && out@[q].1 == s),
                    decreases m - i,
                {
                    if out[i].0 == c && out[i].1 == s {
                        found = true;
                        proof {
                            assert(out@[i as int].0 == c && out@[i as int].1 == s);
                        }
                    }
                    i = i + 1;
                }
                if !found {
                    let total = self.balance_of(c, s);
                    let ghost before = out@;
                    out.push((c, s, total));
                    proof {
                        assert(out@[before.len() as int] == (c, s, total));
                        assert(self.spec_unspent()[k as int].note.spec_kind() == NoteKind::Fungible
                            && self.spec_unspent()[k as int].note.contract == c
                            && self.spec_unspent()[k as int].note.symbol == s);
                        wit = wit.push(k as int);
                        assert forall|q: int|
                            0 <= q < k + 1
                                && (#[trigger] self.spec_unspent()[q]).note.spec_kind() == NoteKind::Fungible
                                implies exists|i2: int|
                            0 <= i2 < out@.len() && (#[trigger] out@[i2]).0 == self.spec_unspent()[q].note.contract
                                && out@[i2].1 == self.spec_unspent()[q].note.symbol by {
                            if q < k {
                                let w = choose|i2: int|
                                    0 <= i2 < before.len() && (#[trigger] before[i2]).0
                                        == self.spec_unspent()[q].note.contract && before[i2].1
                                        == self.spec_unspent()[q].note.symbol;
                                assert(out@[w].0 == self.spec_unspent()[q].note.contract
                                    && out@[w].1 == self.spec_unspent()[q].note.symbol);
                            } else {
                                assert(out@[before.len() as int].0 == self.spec_unspent()[q].note.contract
                                    && out@[before.len() as int].1 == self.spec_unspent()[q].note.symbol);
                            }
                        }
                    }
                } else {
                    proof {
                        let w = choose|q: int| 0 <= q < out@.len() && (#[trigger] out@[q]).0 == c
                            && out@[q].1 == s;
                        assert(out@[w].0 == self.spec_unspent()[k as int].note.contract
                            && out@[w].1 == self.spec_unspent()[k as int].note.symbol);
                    }
                }
            }
            k = k + 1;
        }
        proof {
            assert(spec_balances_sound(out@, self.spec_unspent())) by {
                assert forall|i2: int| 0 <= i2 < out@.len() implies spec_pair_held(
                    self.spec_unspent(),
                    (#[trigger] out@[i2]).0,
                    out@[i2].1,
                ) by {
                    let q = wit[i2];
                    assert(0 <= q < self.spec_unspent().len()
                        && (#[trigger] self.spec_unspent()[q]).note.spec_kind() == NoteKind::Fungible
                        && self.spec_unspent()[q].note.contract == out@[i2].0
                        && self.spec_unspent()[q].note.symbol == out@[i2].1);
                }
            }
        }
        out
    }

    /// The unspent fungible notes of one `(contract, symbol)` pair.
    pub fn fungible_tokens(&self, symbol: u64, contract: u64) -> (v: Vec<NoteEx>)
        ensures
            v@ == spec_filter_fungible(self.spec_unspent(), contract, symbol),
    {
        let n = self.unspent.len();
        let mut out: Vec<NoteEx> = Vec::new();
        let mut i: usize = 0;
        while i < n
            invariant
                n == self.unspent@.len(),
                i <= n,
                out@ =~= spec_filter_fungible(self.spec_unspent().take(i as int), contract, symbol),
            decreases n - i,
        {
            proof {
                assert(self.spec_unspent().take(i as int + 1).drop_last() =~= self.spec_unspent().take(i as int));
                assert(self.spec_unspent().take(i as int + 1).last() == self.spec_unspent()[i as int]);
            }
            let e = self.unspent[i];
            if e.note.is_fungible() && e.note.contract == contract && e.note.symbol == symbol {
                out.push(e);
            }
            i = i + 1;
        }
        proof {
            assert(self.spec_unspent().take(n as int) =~= self.spec_unspent());
        }
        out
    }

    /// The unspent non-fungible notes of one contract.
    pub fn non_fungible_tokens(&self, contract: u64) -> (v: Vec<NoteEx>)
        ensures
            v@ == spec_filter_nft(self.spec_unspent(), contract),
    {
        let n = self.unspent.len();
        let mut out: Vec<NoteEx> = Vec::new();
        let mut i: usize = 0;
        while i < n
            invariant
                n == self.unspent@.len(),
                i <= n,
                out@ =~= spec_filter_nft(self.spec_unspent().take(i as int), contract),
            decreases n - i,
        {
            proof {
                assert(self.spec_unspent().take(i as int + 1).drop_last() =~= self.spec_unspent().take(i as int));
                assert(self.spec_unspent().take(i as int + 1).last() == self.spec_unspent()[i as int]);
            }
            let e = self.unspent[i];
            let k = e.note.kind();
            if k == NoteKind::NonFungible && e.note.contract == contract {
                out.push(e);
            }
            i = i + 1;
        }
        proof {
            assert(self.spec_unspent().take(n as int) =~= self.spec_unspent());
        }
        out
    }

    /// The auth-token notes of one contract, from the unspent or the
    /// spent collection.
    pub fn authentication_tokens(&self, contract: u64, spent: bool) -> (v: Vec<NoteEx>)
        ensures
            v@ == spec_filter_auth(if spent { self.spec_spent() } else { self.spec_unspent() }, contract),
    {
        let src = if spent {
            &self.spent
        } else {
            &self.unspent
        };
        let n = src.len();
        let mut out: Vec<NoteEx> = Vec::new();
        let mut i: usize = 0;
        while i < n
            invariant
                n == src@.len(),
                i <= n,
                out@ =~= spec_filter_auth(src@.take(i as int), contract),
            decreases n - i,
        {
            proof {
                assert(src@.take(i as int + 1).drop_last() =~= src@.take(i as int));
                assert(src@.take(i as int + 1).last() == src@[i as int]);
            }
            let e = src[i];
            if e.note.is_auth_token() && e.note.contract == contract {
                out.push(e);
            }
            i = i + 1;
        }
        proof {
            assert(src@.take(n as int) =~= src@);
        }
        out
    }
}

/// Concatenates two ciphertext batches by deep copy.
fn concat_cts(a: &Vec<Ciphertext>, b: &Vec<Ciphertext>) -> (v: Vec<Ciphertext>)
    ensures
        spec_ct_views(v@) == spec_ct_views(a@) + spec_ct_views(b@),
{
    let mut out: Vec<Ciphertext> = Vec::new();
    let na = a.len();
    let mut i: usize = 0;
    while i < na
        invariant
            na == a@.len(),
            i <= na,
            spec_ct_views(out@) =~= spec_ct_views(a@).take(i as int),
        decreases na - i,
    {
        let c = clone_ciphertext(&a[i]);
        proof {
            assert(spec_ct_view(c) == spec_ct_views(a@)[i as int]);
            assert(spec_ct_views(out@.push(c)) =~= spec_ct_views(out@).push(spec_ct_view(c)));
        }
        out.push(c);
        i = i + 1;
    }
    proof {
        assert(spec_ct_views(a@).take(na as int) =~= spec_ct_views(a@));
    }
    let nb = b.len();
    let mut j: usize = 0;
    while j < nb
        invariant
            nb == b@.len(),
            j <= nb,
            spec_ct_views(out@) =~= spec_ct_views(a@) + spec_ct_views(b@).take(j as int),
        decreases nb - j,
    {
        let c = clone_ciphertext(&b[j]);
        proof {
            assert(spec_ct_view(c) == spec_ct_views(b@)[j as int]);
            assert(spec_ct_views(out@.push(c)) =~= spec_ct_views(out@).push(spec_ct_view(c)));
            assert(spec_ct_views(a@) + spec_ct_views(b@).take(j as int + 1)
                =~= (spec_ct_views(a@) + spec_ct_views(b@).take(j as int)).push(spec_ct_views(b@)[j as int]));
        }
        out.push(c);
        j = j + 1;
    }
    proof {
        assert(spec_ct_views(b@).take(nb as int) =~= spec_ct_views(b@));
    }
    out
}

/// The unpublished ciphertexts still awaiting absorption: kept exactly
/// when they decrypt under the wallet's own viewing key and their
/// commitment is not yet tracked as unspent or spent.
pub open spec fn spec_keep_unpublished(un: Seq<NoteEx>, sp: Seq<NoteEx>, ivk: Digest, v: CtView) -> bool {
    match spec_decrypt(v.diversifier, v.body, v.tag, ivk) {
        Some(note) => {
            let cm = spec_note_commitment(note);
            !(spec_cms(un).contains(cm) || spec_cms(sp).contains(cm))
        },
        None => false,
    }
}

pub open spec fn spec_prune(un: Seq<NoteEx>, sp: Seq<NoteEx>, ivk: Digest, vs: Seq<CtView>) -> Seq<CtView>
    decreases vs.len(),
{
    if vs.len() == 0 {
        Seq::empty()
    } else {
        spec_prune(un, sp, ivk, vs.drop_last()) + if spec_keep_unpublished(un, sp, ivk, vs.last()) {
            seq![vs.last()]
        } else {
            Seq::empty()
        }
    }
}

/// What a persisted record must satisfy to rebuild a well-formed
/// wallet.
pub open spec fn spec_parts_valid(
    seed: Seq<u8>,
    view_only: bool,
    ivk: Digest,
    ovk: Option<Digest>,
    nk: Option<Digest>,
    leaves: Seq<Digest>,
    un: Seq<NoteEx>,
    sp: Seq<NoteEx>,
    og: Seq<NoteEx>,
) -> bool {
    &&& leaves.len() <= TREE_CAPACITY
    &&& (if view_only {
        ovk is None && nk is None
    } else {
        ivk == spec_derive_key(seed, KEY_TAG_IVK) && ovk == Some(spec_derive_key(seed, KEY_TAG_OVK))
            && nk == Some(spec_derive_key(seed, KEY_TAG_NK))
    })
    &&& spec_positions_bound(un, leaves)
    &&& (spec_cms(un) + spec_cms(sp) + spec_cms(og)).no_duplicates()
}

/// Pairwise-distinct tracked commitments give the no-double-count
/// invariant.
proof fn lemma_distinct_implies_no_double(un: Seq<NoteEx>, sp: Seq<NoteEx>, og: Seq<NoteEx>)
    requires
        (spec_cms(un) + spec_cms(sp) + spec_cms(og)).no_duplicates(),
    ensures
        spec_no_double_count(un, sp, og),
{
    broadcast use vstd::seq_lib::group_to_multiset_ensures;

    let all = spec_cms(un) + spec_cms(sp) + spec_cms(og);
    all.lemma_multiset_has_no_duplicates();
    vstd::seq_lib::lemma_multiset_commutative(spec_cms(un) + spec_cms(sp), spec_cms(og));
    vstd::seq_lib::lemma_multiset_commutative(spec_cms(un), spec_cms(sp));
    assert(spec_tracked_ms(un, sp, og) =~= all.to_multiset());
    assert forall|d: Digest| #[trigger] spec_tracked_ms(un, sp, og).count(d) <= 1 by {
        if all.to_multiset().count(d) > 0 {
            assert(all.to_multiset().contains(d));
        }
    }
}

/// Checks that every recorded unspent position points at the leaf
/// holding the entry's own commitment.
fn positions_linked(un: &Vec<NoteEx>, leaves: &Vec<Digest>) -> (r: bool)
    ensures
        r == spec_positions_bound(un@, leaves@),
{
    let n = un.len();
    let n_l = leaves.len();
    let mut i: usize = 0;
    while i < n
        invariant
            n == un@.len(),
            n_l == leaves@.len(),
            i <= n,
            forall|j: int| 0 <= j < i ==> match (#[trigger] un@[j]).position {
                Some(p) => p < leaves@.len() && leaves@[p as int] == spec_note_commitment(un@[j].note),
                None => true,
            },
        decreases n - i,
    {
        let e = &un[i];
        match e.position {
            Some(p) => {
                if p >= n_l as u64 {
                    return false;
                }
                let cm = e.note.commitment();
                if leaves[p as usize] != cm {
                    return false;
                }
            },
            None => {},
        }
        i = i + 1;
    }
    true
}

/// Checks that no commitment occurs twice across the three tracked
/// collections.
fn commitments_distinct(un: &Vec<NoteEx>, sp: &Vec<NoteEx>, og: &Vec<NoteEx>) -> (r: bool)
    ensures
        r == (spec_cms(un@) + spec_cms(sp@) + spec_cms(og@)).no_duplicates(),
{
    let ghost all = spec_cms(un@) + spec_cms(sp@) + spec_cms(og@);
    let mut cms: Vec<Digest> = Vec::new();
    let n_u = un.len();
    let mut i: usize = 0;
    while i < n_u
        invariant
            n_u == un@.len(),
            i <= n_u,
            cms@ =~= spec_cms(un@.take(i as int)),
        decreases n_u - i,
    {
        proof {
            assert(spec_cms(un@.take(i as int + 1)) =~= spec_cms(un@.take(i as int)).push(
                spec_note_commitment(un@[i as int].note)));
        }
        let c = un[i].note.commitment();
        cms.push(c);
        i = i + 1;
    }
    proof {
        assert(un@.take(n_u as int) =~= un@);
        assert(spec_cms(un@.take(n_u as int)) =~= spec_cms(un@));
    }
    let n_s = sp.len();
    let mut j: usize = 0;
    while j < n_s
        invariant
            n_s == sp@.len(),
            j <= n_s,
            cms@ =~= spec_cms(un@) + spec_cms(sp@.take(j as int)),
        decreases n_s - j,
    {
        proof {
            assert(spec_cms(sp@.take(j as int + 1)) =~= spec_cms(sp@.take(j as int)).push(
                spec_note_commitment(sp@[j as int].note)));
        }
        let c = sp[j].note.commitment();
        cms.push(c);
        j = j + 1;
    }
    proof {
        assert(sp@.take(n_s as int) =~= sp@);
        assert(spec_cms(sp@.take(n_s as int)) =~= spec_cms(sp@));
    }
    let n_o = og.len();
    let mut q: usize = 0;
    while q < n_o
        invariant
            n_o == og@.len(),
            q <= n_o,
            cms@ =~= spec_cms(un@) + spec_cms(sp@) + spec_cms(og@.take(q as int)),
        decreases n_o - q,
    {
        proof {
            assert(spec_cms(og@.take(q as int + 1)) =~= spec_cms(og@.take(q as int)).push(
                spec_note_commitment(og@[q as int].note)));
        }
        let c = og[q].note.commitment();
        cms.push(c);
        q = q + 1;
    }
    proof {
        assert(og@.take(n_o as int) =~= og@);
        assert(spec_cms(og@.take(n_o as int)) =~= spec_cms(og@));
        assert(cms@ =~= all);
    }
    let n = cms.len();
    let mut a: usize = 0;
    while a < n
        invariant
            n == cms@.len(),
            cms@ == all,
            all == spec_cms(un@) + spec_cms(sp@) + spec_cms(og@),
            a <= n,
            forall|x: int, y: int| 0 <= x < y < cms@.len() && x < a ==> cms@[x] != cms@[y],
        decreases n - a,
    {
        let mut b: usize = a + 1;
        while b < n
            invariant
                n == cms@.len(),
                cms@ == all,
                all == spec_cms(un@) + spec_cms(sp@) + spec_cms(og@),
                a < b,
                b <= n,
                a < n,
                forall|y: int| a < y < b ==> cms@[a as int] != cms@[y],
            decreases n - b,
        {
            if cms[a] == cms[b] {
                proof {
                    assert(!all.no_duplicates()) by {
                        assert(0 <= (a as int) && (a as int) < all.len());
                        assert(0 <= (b as int) && (b as int) < all.len());
                        assert(a as int != b as int);
                        assert(all[a as int] == all[b as int]);
                    }
                }
                return false;
            }
            b = b + 1;
        }
        a = a + 1;
    }
    proof {
        assert(all.no_duplicates());
    }
    true
}

/// Some unspent fungible note holds the pair `(contract, symbol)`.
pub open spec fn spec_pair_held(un: Seq<NoteEx>, contract: u64, symbol: u64) -> bool {
    exists|k: int| 0 <= k < un.len() && (#[trigger] un[k]).note.spec_kind() == NoteKind::Fungible
        && un[k].note.contract == contract && un[k].note.symbol == symbol
}

/// Every listed balance triple names a pair some unspent fungible
/// note actually holds: no spurious entries.
pub open spec fn spec_balances_sound(v: Seq<(u64, u64, u128)>, un: Seq<NoteEx>) -> bool {
    forall|i: int| 0 <= i < v.len() ==> spec_pair_held(un, (#[trigger] v[i]).0, v[i].1)
}

/// Least unspent index holding an auth-token note with commitment
/// `cm`, searching from `i`.
pub open spec fn spec_find_auth_cm(un: Seq<NoteEx>, cm: Digest, i: nat) -> Option<int>
    decreases un.len() - i when i <= un.len()
{
    if i >= un.len() {
        None
    } else if un[i as int].note.spec_kind() == NoteKind::AuthToken
        && spec_note_commitment(un[i as int].note) == cm {
        Some(i as int)
    } else {
        spec_find_auth_cm(un, cm, i + 1)
    }
}

/// The unspent fungible notes of one `(contract, symbol)` pair, in
/// store order.
pub open spec fn spec_filter_fungible(s: Seq<NoteEx>, contract: u64, symbol: u64) -> Seq<NoteEx>
    decreases s.len(),
{
    if s.len() == 0 {
        Seq::empty()
    } else {
        spec_filter_fungible(s.drop_last(), contract, symbol) + if s.last().note.spec_kind() == NoteKind::Fungible
            && s.last().note.contract == contract && s.last().note.symbol == symbol {
            seq![s.last()]
        } else {
            Seq::empty()
        }
    }
}

/// The non-fungible notes of one contract, in store order.
pub open spec fn spec_filter_nft(s: Seq<NoteEx>, contract: u64) -> Seq<NoteEx>
    decreases s.len(),
{
    if s.len() == 0 {
        Seq::empty()
    } else {
        spec_filter_nft(s.drop_last(), contract) + if s.last().note.spec_kind() == NoteKind::NonFungible
            && s.last().note.contract == contract {
            seq![s.last()]
        } else {
            Seq::empty()
        }
    }
}

/// The auth-token notes of one contract, in store order.
pub open spec fn spec_filter_auth(s: Seq<NoteEx>, contract: u64) -> Seq<NoteEx>
    decreases s.len(),
{
    if s.len() == 0 {
        Seq::empty()
    } else {
        spec_filter_auth(s.drop_last(), contract) + if s.last().note.spec_kind() == NoteKind::AuthToken
            && s.last().note.contract == contract {
            seq![s.last()]
        } else {
            Seq::empty()
        }
    }
}

/// Whether any entry of `v` has commitment `cm`.
fn vec_contains_cm(v: &Vec<NoteEx>, cm: &Digest) -> (r: bool)
    ensures
        r == spec_cms(v@).contains(*cm),
{
    let n = v.len();
    let mut i: usize = 0;
    while i < n
        invariant
            n == v@.len(),
            i <= n,
            forall|j: int| 0 <= j < i ==> spec_cms(v@)[j] != *cm,
        decreases n - i,
    {
        let c = v[i].note.commitment();
        if c == *cm {
            proof {
                assert(spec_cms(v@)[i as int] == *cm);
            }
            return true;
        }
        i = i + 1;
    }
    proof {
        assert(!spec_cms(v@).contains(*cm)) by {
            if spec_cms(v@).contains(*cm) {
                let j = choose|j: int| 0 <= j < spec_cms(v@).len() && spec_cms(v@)[j] == *cm;
                assert(spec_cms(v@)[j] != *cm);
            }
        }
    }
    false
}

} // verus!
