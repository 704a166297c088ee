//! The registry state and its invariants.
//!
//! All records live in one value of [`Cw721Contract`]: the token records
//! (sorted by token id), the derived owner index (sorted by owner, then
//! token id), the operator approvals (sorted by owner, then operator), the
//! collection metadata with its attribute list, the two ownership slots and
//! the optional withdraw address. The view of a state is a [`StateV`], and
//! [`StateV::wf`] is the invariant every operation preserves: sorted and
//! duplicate-free key spaces, a token count that matches the records, an
//! owner index that mirrors the token records exactly, and ownership slots
//! whose pending owner and pending expiry are set together.

use vstd::prelude::*;

use crate::expiration::{spec_expired, BlockInfo, Expiration};
use crate::keys::{
    key_lt, key_pair_lt, lemma_key_lt_connected, lemma_key_lt_irreflexive, lemma_key_lt_transitive,
    lemma_key_pair_lt_connected, lemma_key_pair_lt_transitive, str_compare, str_eq, str_lt, KeyCmp,
};

verus! {

/// Application-defined on-chain metadata attached to each token; the
/// registry stores it without inspecting it.
#[derive(Clone, Copy, PartialEq, Eq, Structural, Debug, Default)]
pub struct MetadataExt {}

/// One key/value attribute of the collection metadata extension.
pub struct Attribute {
    pub key: String,
    pub value: String,
}

/// One spender granted transfer rights over one token, until `expires`.
pub struct Approval {
    pub spender: String,
    pub expires: Expiration,
}

/// The stored record of one token.
pub struct NftInfo {
    /// The address that may transfer, approve and burn the token.
    pub owner: String,
    /// Spenders granted transfer rights over this token, in insertion
    /// order, at most one entry per spender.
    pub approvals: Vec<Approval>,
    /// Where the token's off-chain metadata lives, if anywhere.
    pub token_uri: Option<String>,
    /// Application-defined payload.
    pub extension: MetadataExt,
}

/// A token record together with its unique id.
pub struct TokenEntry {
    pub token_id: String,
    pub info: NftInfo,
}

/// One entry of the derived owner index.
pub struct IndexEntry {
    pub owner: String,
    pub token_id: String,
}

/// A blanket grant: `operator` may act on all of `owner`'s tokens.
pub struct OperatorApproval {
    pub owner: String,
    pub operator: String,
    pub expires: Expiration,
}

/// Collection-level metadata.
pub struct CollectionMetadata {
    pub name: String,
    pub symbol: String,
    /// When the metadata was last stamped, in nanoseconds of block time.
    pub updated_at: u64,
}

/// One privileged role slot (minter or creator) and its pending transfer.
pub struct Ownership {
    pub owner: Option<String>,
    pub pending_owner: Option<String>,
    pub pending_expiry: Option<Expiration>,
}

// ----- views -----

/// View of an [`Approval`].
pub ghost struct ApprovalV {
    pub spender: Seq<char>,
    pub expires: Expiration,
}

/// View of a [`TokenEntry`].
pub ghost struct TokenV {
    pub token_id: Seq<char>,
    pub owner: Seq<char>,
    pub token_uri: Option<Seq<char>>,
    pub approvals: Seq<ApprovalV>,
}

/// View of an [`OperatorApproval`].
pub ghost struct OperatorV {
    pub owner: Seq<char>,
    pub operator: Seq<char>,
    pub expires: Expiration,
}

/// View of an [`Attribute`].
pub ghost struct AttributeV {
    pub key: Seq<char>,
    pub value: Seq<char>,
}

/// View of a [`CollectionMetadata`].
pub ghost struct CollectionMetadataV {
    pub name: Seq<char>,
    pub symbol: Seq<char>,
    pub updated_at: u64,
}

/// View of an [`Ownership`] slot.
pub ghost struct OwnershipV {
    pub owner: Option<Seq<char>>,
    pub pending_owner: Option<Seq<char>>,
    pub pending_expiry: Option<Expiration>,
}

/// The view of an optional string.
pub open spec fn opt_str_view(o: Option<String>) -> Option<Seq<char>> {
    match o {
        Some(s) => Some(s@),
        None => None,
    }
}

impl View for Approval {
    type V = ApprovalV;

    open spec fn view(&self) -> ApprovalV {
        ApprovalV { spender: self.spender@, expires: self.expires }
    }
}

/// The view of an approval list.
pub open spec fn approvals_view(s: Seq<Approval>) -> Seq<ApprovalV> {
    s.map_values(|a: Approval| a@)
}

impl View for TokenEntry {
    type V = TokenV;

    open spec fn view(&self) -> TokenV {
        TokenV {
            token_id: self.token_id@,
            owner: self.info.owner@,
            token_uri: opt_str_view(self.info.token_uri),
            approvals: approvals_view(self.info.approvals@),
        }
    }
}

impl View for IndexEntry {
    type V = (Seq<char>, Seq<char>);

    open spec fn view(&self) -> (Seq<char>, Seq<char>) {
        (self.owner@, self.token_id@)
    }
}

impl View for OperatorApproval {
    type V = OperatorV;

    open spec fn view(&self) -> OperatorV {
        OperatorV { owner: self.owner@, operator: self.operator@, expires: self.expires }
    }
}

impl View for Attribute {
    type V = AttributeV;

    open spec fn view(&self) -> AttributeV {
        AttributeV { key: self.key@, value: self.value@ }
    }
}

/// The view of an attribute list.
pub open spec fn attributes_view(s: Seq<Attribute>) -> Seq<AttributeV> {
    s.map_values(|a: Attribute| a@)
}

/// Each key appears at most once in an attribute list.
pub open spec fn attribute_keys_unique(s: Seq<AttributeV>) -> bool {
    forall|p: int, q: int|
        0 <= p && p < q && q < s.len() ==> (#[trigger] s[p]).key != (#[trigger] s[q]).key
}

impl View for CollectionMetadata {
    type V = CollectionMetadataV;

    open spec fn view(&self) -> CollectionMetadataV {
        CollectionMetadataV {
            name: self.name@,
            symbol: self.symbol@,
            updated_at: self.updated_at,
        }
    }
}

impl View for Ownership {
    type V = OwnershipV;

    open spec fn view(&self) -> OwnershipV {
        OwnershipV {
            owner: opt_str_view(self.owner),
            pending_owner: opt_str_view(self.pending_owner),
            pending_expiry: self.pending_expiry,
        }
    }
}

/// The view of a whole registry state.
pub ghost struct StateV {
    pub tokens: Seq<TokenV>,
    pub owner_index: Seq<(Seq<char>, Seq<char>)>,
    pub operators: Seq<OperatorV>,
    pub num_tokens: u64,
    pub collection: CollectionMetadataV,
    pub attributes: Seq<AttributeV>,
    pub minter: OwnershipV,
    pub creator: OwnershipV,
    pub withdraw_address: Option<Seq<char>>,
}

// ----- the state itself -----

/// The whole state of the registry.
pub struct Cw721Contract {
    /// Token records, sorted by token id in the key order, one per id.
    pub tokens: Vec<TokenEntry>,
    /// The derived owner index, sorted by (owner, token id).
    pub owner_index: Vec<IndexEntry>,
    /// Operator approvals, sorted by (owner, operator), one per pair.
    pub operators: Vec<OperatorApproval>,
    /// Running token count, kept equal to the number of records.
    pub num_tokens: u64,
    /// Collection metadata.
    pub collection_metadata: CollectionMetadata,
    /// The collection metadata extension, sorted by key, one per key.
    pub collection_attributes: Vec<Attribute>,
    /// The role that may create tokens.
    pub minter_ownership: Ownership,
    /// The role that may curate collection and token metadata.
    pub creator_ownership: Ownership,
    /// Where withdrawn funds are paid out, if set.
    pub withdraw_address: Option<String>,
}

impl View for Cw721Contract {
    type V = StateV;

    open spec fn view(&self) -> StateV {
        StateV {
            tokens: self.tokens@.map_values(|t: TokenEntry| t@),
            owner_index: self.owner_index@.map_values(|e: IndexEntry| e@),
            operators: self.operators@.map_values(|o: OperatorApproval| o@),
            num_tokens: self.num_tokens,
            collection: self.collection_metadata@,
            attributes: attributes_view(self.collection_attributes@),
            minter: self.minter_ownership@,
            creator: self.creator_ownership@,
            withdraw_address: opt_str_view(self.withdraw_address),
        }
    }
}

// ----- orders of the key spaces -----

/// Token records are strictly sorted by token id.
pub open spec fn tokens_sorted(s: Seq<TokenV>) -> bool {
    forall|i: int, j: int|
        0 <= i && i < j && j < s.len() ==> key_lt(
            (#[trigger] s[i]).token_id,
            (#[trigger] s[j]).token_id,
        )
}

/// Owner index entries are strictly sorted by owner, then token id.
pub open spec fn index_sorted(s: Seq<(Seq<char>, Seq<char>)>) -> bool {
    forall|i: int, j: int|
        0 <= i && i < j && j < s.len() ==> key_pair_lt(
            (#[trigger] s[i]).0,
            s[i].1,
            (#[trigger] s[j]).0,
            s[j].1,
        )
}

/// Operator approvals are strictly sorted by owner, then operator.
pub open spec fn operators_sorted(s: Seq<OperatorV>) -> bool {
    forall|i: int, j: int|
        0 <= i && i < j && j < s.len() ==> key_pair_lt(
            (#[trigger] s[i]).owner,
            s[i].operator,
            (#[trigger] s[j]).owner,
            s[j].operator,
        )
}

/// Attributes are strictly sorted by key.
pub open spec fn attributes_sorted(s: Seq<AttributeV>) -> bool {
    forall|i: int, j: int|
        0 <= i && i < j && j < s.len() ==> key_lt((#[trigger] s[i]).key, (#[trigger] s[j]).key)
}

// ----- lookups on the view -----

impl StateV {
    /// Whether a token with the given id is live.
    pub open spec fn has_token(self, id: Seq<char>) -> bool {
        exists|i: int| 0 <= i < self.tokens.len() && (#[trigger] self.tokens[i]).token_id == id
    }

    /// The position of the token with the given id.
    pub open spec fn token_index(self, id: Seq<char>) -> int {
        choose|i: int| 0 <= i < self.tokens.len() && (#[trigger] self.tokens[i]).token_id == id
    }

    /// The record of the token with the given id.
    pub open spec fn token_at(self, id: Seq<char>) -> TokenV {
        self.tokens[self.token_index(id)]
    }

    /// Whether the owner index holds the given entry.
    pub open spec fn index_contains(self, owner: Seq<char>, id: Seq<char>) -> bool {
        exists|k: int|
            0 <= k < self.owner_index.len() && #[trigger] self.owner_index[k] == (owner, id)
    }

    /// The position of the given entry in the owner index.
    pub open spec fn index_position(self, owner: Seq<char>, id: Seq<char>) -> int {
        choose|k: int|
            0 <= k < self.owner_index.len() && #[trigger] self.owner_index[k] == (owner, id)
    }

    /// Whether an operator approval is stored for the pair, expired or not.
    pub open spec fn has_operator(self, owner: Seq<char>, operator: Seq<char>) -> bool {
        exists|i: int|
            0 <= i < self.operators.len() && (#[trigger] self.operators[i]).owner == owner
                && self.operators[i].operator == operator
    }

    /// The position of the operator approval for the pair.
    pub open spec fn operator_index(self, owner: Seq<char>, operator: Seq<char>) -> int {
        choose|i: int|
            0 <= i < self.operators.len() && (#[trigger] self.operators[i]).owner == owner
                && self.operators[i].operator == operator
    }

    /// The stored operator approval for the pair.
    pub open spec fn operator_at(self, owner: Seq<char>, operator: Seq<char>) -> OperatorV {
        self.operators[self.operator_index(owner, operator)]
    }

    /// Whether an operator approval for the pair is stored and not expired.
    pub open spec fn operator_live(
        self,
        owner: Seq<char>,
        operator: Seq<char>,
        b: BlockInfo,
    ) -> bool {
        self.has_operator(owner, operator) && !spec_expired(
            self.operator_at(owner, operator).expires,
            b,
        )
    }

    /// Whether an attribute with the given key is stored.
    pub open spec fn has_attribute(self, key: Seq<char>) -> bool {
        exists|i: int| 0 <= i < self.attributes.len() && (#[trigger] self.attributes[i]).key == key
    }

    // ----- authorization -----

    /// The rule for transfer, send and burn: the caller is the owner, or
    /// holds a live per-token approval, or is a live operator for the
    /// owner. Evaluated against the block of the call.
    pub open spec fn can_send(self, caller: Seq<char>, id: Seq<char>, b: BlockInfo) -> bool {
        let t = self.token_at(id);
        caller == t.owner || token_approved_for(t, caller, b) || self.operator_live(
            t.owner,
            caller,
            b,
        )
    }

    /// The rule for approve and revoke: the caller is the owner or a live
    /// operator for the owner; per-token approvals grant no such right.
    pub open spec fn can_approve(self, caller: Seq<char>, id: Seq<char>, b: BlockInfo) -> bool {
        let t = self.token_at(id);
        caller == t.owner || self.operator_live(t.owner, caller, b)
    }

    // ----- well-formedness -----

    /// The derived owner index holds exactly one entry per live token,
    /// carrying that token's owner, and nothing else.
    pub open spec fn index_consistent(self) -> bool {
        &&& forall|k: int|
            0 <= k < self.owner_index.len() ==> self.has_token(
                (#[trigger] self.owner_index[k]).1,
            ) && self.token_at(self.owner_index[k].1).owner == self.owner_index[k].0
        &&& forall|i: int|
            0 <= i < self.tokens.len() ==> self.index_contains(
                (#[trigger] self.tokens[i]).owner,
                self.tokens[i].token_id,
            )
    }

    /// Each token's approvals name each spender at most once.
    pub open spec fn approvals_unique(self) -> bool {
        forall|i: int|
            0 <= i < self.tokens.len() ==> approvals_unique_in((#[trigger] self.tokens[i]).approvals)
    }

    /// The invariant of the whole state.
    pub open spec fn wf(self) -> bool {
        &&& tokens_sorted(self.tokens)
        &&& index_sorted(self.owner_index)
        &&& operators_sorted(self.operators)
        &&& attributes_sorted(self.attributes)
        &&& self.index_consistent()
        &&& self.approvals_unique()
        &&& self.num_tokens == self.tokens.len()
        &&& slot_wf(self.minter)
        &&& slot_wf(self.creator)
    }
}

/// Whether some spender of `t.approvals` matches `spender` and is not
/// expired in block `b`.
pub open spec fn token_approved_for(t: TokenV, spender: Seq<char>, b: BlockInfo) -> bool {
    exists|i: int|
        0 <= i < t.approvals.len() && (#[trigger] t.approvals[i]).spender == spender
            && !spec_expired(t.approvals[i].expires, b)
}

/// Each spender appears at most once in an approval list.
pub open spec fn approvals_unique_in(s: Seq<ApprovalV>) -> bool {
    forall|p: int, q: int|
        0 <= p && p < q && q < s.len() ==> (#[trigger] s[p]).spender != (#[trigger] s[q]).spender
}

/// A slot's pending owner and pending expiry are set together or not at all.
pub open spec fn slot_wf(o: OwnershipV) -> bool {
    o.pending_owner is Some <==> o.pending_expiry is Some
}

/// An approval list without any entry for `spender`, order kept.
pub open spec fn approvals_without(s: Seq<ApprovalV>, spender: Seq<char>) -> Seq<ApprovalV>
    decreases s.len(),
{
    if s.len() == 0 {
        Seq::empty()
    } else {
        let rest = approvals_without(s.drop_last(), spender);
        if s.last().spender == spender {
            rest
        } else {
            rest.push(s.last())
        }
    }
}

/// What survives the removal: entries of the list, none for `spender`.
pub proof fn lemma_approvals_without_membership(s: Seq<ApprovalV>, spender: Seq<char>)
    ensures
        forall|j: int|
            0 <= j < approvals_without(s, spender).len() ==> (#[trigger] approvals_without(
                s,
                spender,
            )[j]).spender != spender,
        forall|j: int|
            0 <= j < approvals_without(s, spender).len() ==> exists|k: int|
                0 <= k < s.len() && #[trigger] s[k] == (#[trigger] approvals_without(s, spender)[j]),
    decreases s.len(),
{
    if s.len() > 0 {
        lemma_approvals_without_membership(s.drop_last(), spender);
        let w = approvals_without(s, spender);
        assert forall|j: int| 0 <= j < w.len() implies exists|k: int|
            0 <= k < s.len() && #[trigger] s[k] == (#[trigger] w[j]) by {
            let rest = approvals_without(s.drop_last(), spender);
            if j < rest.len() {
                let k = choose|k: int| 0 <= k < s.drop_last().len() && #[trigger] s.drop_last()[k]
                    == rest[j];
                assert(s[k] == w[j]);
            } else {
                assert(s[s.len() - 1] == w[j]);
            }
        }
    }
}

/// The removal keeps each remaining spender at most once.
pub proof fn lemma_approvals_without_unique(s: Seq<ApprovalV>, spender: Seq<char>)
    requires
        approvals_unique_in(s),
    ensures
        approvals_unique_in(approvals_without(s, spender)),
    decreases s.len(),
{
    if s.len() > 0 {
        assert(approvals_unique_in(s.drop_last())) by {
            assert forall|p: int, q: int|
                0 <= p && p < q && q < s.drop_last().len() implies (#[trigger] s.drop_last()[
            p]).spender != (#[trigger] s.drop_last()[q]).spender by {
                assert(s[p] == s.drop_last()[p]);
                assert(s[q] == s.drop_last()[q]);
            }
        }
        lemma_approvals_without_unique(s.drop_last(), spender);
        lemma_approvals_without_membership(s.drop_last(), spender);
        let rest = approvals_without(s.drop_last(), spender);
        let w = approvals_without(s, spender);
        if s.last().spender != spender {
            assert forall|p: int, q: int|
                0 <= p && p < q && q < w.len() implies (#[trigger] w[p]).spender != (
            #[trigger] w[q]).spender by {
                if q == w.len() - 1 {
                    assert(w[q] == s.last());
                    assert(w[p] == rest[p]);
                    let k = choose|k: int|
                        0 <= k < s.drop_last().len() && #[trigger] s.drop_last()[k] == rest[p];
                    assert(s[k] == rest[p]);
                    assert(s[k].spender != s[s.len() - 1].spender);
                } else {
                    assert(w[p] == rest[p] && w[q] == rest[q]);
                }
            }
        }
    }
}

/// Well-formedness carries over to a state with the same records and
/// index, as long as its other key spaces are in shape.
pub proof fn lemma_wf_same_records(s0: StateV, s1: StateV)
    requires
        s0.wf(),
        s1.tokens == s0.tokens,
        s1.owner_index == s0.owner_index,
        s1.num_tokens == s0.num_tokens,
        operators_sorted(s1.operators),
        attributes_sorted(s1.attributes),
        slot_wf(s1.minter),
        slot_wf(s1.creator),
    ensures
        s1.wf(),
{
    assert forall|k: int| 0 <= k < s1.owner_index.len() implies s1.has_token(
        (#[trigger] s1.owner_index[k]).1,
    ) && s1.token_at(s1.owner_index[k].1).owner == s1.owner_index[k].0 by {
        let e = s0.owner_index[k];
        assert(s0.has_token(e.1) && s0.token_at(e.1).owner == e.0);
        let i0 = s0.token_index(e.1);
        assert(s1.tokens[i0] == s0.tokens[i0]);
        lemma_token_at_is(s1, e.1, i0);
    }
    assert forall|i: int| 0 <= i < s1.tokens.len() implies s1.index_contains(
        (#[trigger] s1.tokens[i]).owner,
        s1.tokens[i].token_id,
    ) by {
        assert(s1.tokens[i] == s0.tokens[i]);
        assert(s0.index_contains(s0.tokens[i].owner, s0.tokens[i].token_id));
        let k0 = choose|k: int|
            0 <= k < s0.owner_index.len() && #[trigger] s0.owner_index[k] == (
            s0.tokens[i].owner,
            s0.tokens[i].token_id,
            );
        assert(s1.owner_index[k0] == (s1.tokens[i].owner, s1.tokens[i].token_id));
    }
    assert forall|i: int| 0 <= i < s1.tokens.len() implies approvals_unique_in(
        (#[trigger] s1.tokens[i]).approvals,
    ) by {
        assert(s1.tokens[i] == s0.tokens[i]);
    }
}

/// Replacing a record by one with the same id and owner, and sound
/// approvals, preserves the invariant.
pub proof fn lemma_wf_update_token(s0: StateV, s1: StateV, i: int, t1: TokenV)
    requires
        s0.wf(),
        0 <= i < s0.tokens.len(),
        t1.token_id == s0.tokens[i].token_id,
        t1.owner == s0.tokens[i].owner,
        approvals_unique_in(t1.approvals),
        s1.tokens == s0.tokens.update(i, t1),
        s1.owner_index == s0.owner_index,
        s1.num_tokens == s0.num_tokens,
        operators_sorted(s1.operators),
        attributes_sorted(s1.attributes),
        slot_wf(s1.minter),
        slot_wf(s1.creator),
    ensures
        s1.wf(),
{
    lemma_tokens_sorted_update_same_id(s0.tokens, i, t1);
    assert(tokens_sorted(s1.tokens));
    assert forall|k: int| 0 <= k < s1.owner_index.len() implies s1.has_token(
        (#[trigger] s1.owner_index[k]).1,
    ) && s1.token_at(s1.owner_index[k].1).owner == s1.owner_index[k].0 by {
        let e = s0.owner_index[k];
        assert(s0.has_token(e.1) && s0.token_at(e.1).owner == e.0);
        let i0 = s0.token_index(e.1);
        assert(s1.tokens[i0].token_id == s0.tokens[i0].token_id);
        assert(s1.tokens[i0].owner == s0.tokens[i0].owner);
        lemma_token_at_is(s1, e.1, i0);
    }
    assert forall|i2: int| 0 <= i2 < s1.tokens.len() implies s1.index_contains(
        (#[trigger] s1.tokens[i2]).owner,
        s1.tokens[i2].token_id,
    ) by {
        assert(s1.tokens[i2].owner == s0.tokens[i2].owner);
        assert(s1.tokens[i2].token_id == s0.tokens[i2].token_id);
        assert(s0.index_contains(s0.tokens[i2].owner, s0.tokens[i2].token_id));
        let k0 = choose|k: int|
            0 <= k < s0.owner_index.len() && #[trigger] s0.owner_index[k] == (
            s0.tokens[i2].owner,
            s0.tokens[i2].token_id,
            );
        assert(s1.owner_index[k0] == (s1.tokens[i2].owner, s1.tokens[i2].token_id));
    }
    assert forall|i2: int| 0 <= i2 < s1.tokens.len() implies approvals_unique_in(
        (#[trigger] s1.tokens[i2]).approvals,
    ) by {
        if i2 != i {
            assert(s1.tokens[i2] == s0.tokens[i2]);
        }
    }
}

/// Law: in every well-formed state the owner index is exactly the set of
/// (owner, token id) pairs of the live records.
pub proof fn lemma_owner_index_exact(s: StateV)
    requires
        s.wf(),
    ensures
        forall|ow: Seq<char>, id: Seq<char>|
            #[trigger] s.index_contains(ow, id) <==> (s.has_token(id) && s.token_at(id).owner
                == ow),
{
    assert forall|ow: Seq<char>, id: Seq<char>| #[trigger] s.index_contains(ow, id) <==> (
    s.has_token(id) && s.token_at(id).owner == ow) by {
        if s.index_contains(ow, id) {
            let k = choose|k: int|
                0 <= k < s.owner_index.len() && #[trigger] s.owner_index[k] == (ow, id);
            assert(s.has_token(s.owner_index[k].1));
        }
        if s.has_token(id) && s.token_at(id).owner == ow {
            let i = s.token_index(id);
            assert(s.index_contains(s.tokens[i].owner, s.tokens[i].token_id));
        }
    }
}

// ----- consequences of sortedness -----

/// Sorted token records carry pairwise distinct ids.
pub proof fn lemma_tokens_unique_ids(s: Seq<TokenV>)
    requires
        tokens_sorted(s),
    ensures
        forall|i: int, j: int|
            0 <= i < s.len() && 0 <= j < s.len() && i != j ==> (#[trigger] s[i]).token_id != (
            #[trigger] s[j]).token_id,
{
    assert forall|i: int, j: int|
        0 <= i < s.len() && 0 <= j < s.len() && i != j implies (#[trigger] s[i]).token_id != (
    #[trigger] s[j]).token_id by {
        lemma_key_lt_irreflexive(s[i].token_id);
    }
}

/// A position that holds the id is the position the lookup functions name.
pub proof fn lemma_token_at_is(s: StateV, id: Seq<char>, i: int)
    requires
        tokens_sorted(s.tokens),
        0 <= i < s.tokens.len(),
        s.tokens[i].token_id == id,
    ensures
        s.has_token(id),
        s.token_index(id) == i,
        s.token_at(id) == s.tokens[i],
{
    lemma_tokens_unique_ids(s.tokens);
}

/// Sorted operator approvals carry pairwise distinct (owner, operator) pairs.
pub proof fn lemma_operators_unique(s: Seq<OperatorV>)
    requires
        operators_sorted(s),
    ensures
        forall|i: int, j: int|
            0 <= i < s.len() && 0 <= j < s.len() && i != j ==> ((#[trigger] s[i]).owner != (
            #[trigger] s[j]).owner || s[i].operator != s[j].operator),
{
    assert forall|i: int, j: int|
        0 <= i < s.len() && 0 <= j < s.len() && i != j implies ((#[trigger] s[i]).owner != (
    #[trigger] s[j]).owner || s[i].operator != s[j].operator) by {
        lemma_key_lt_irreflexive(s[i].owner);
        lemma_key_lt_irreflexive(s[i].operator);
    }
}

/// A position that holds the pair is the position the lookup functions name.
pub proof fn lemma_operator_at_is(s: StateV, owner: Seq<char>, operator: Seq<char>, i: int)
    requires
        operators_sorted(s.operators),
        0 <= i < s.operators.len(),
        s.operators[i].owner == owner,
        s.operators[i].operator == operator,
    ensures
        s.has_operator(owner, operator),
        s.operator_index(owner, operator) == i,
        s.operator_at(owner, operator) == s.operators[i],
{
    lemma_operators_unique(s.operators);
}

/// A sorted owner index holds pairwise distinct entries.
pub proof fn lemma_index_unique(s: Seq<(Seq<char>, Seq<char>)>)
    requires
        index_sorted(s),
    ensures
        forall|i: int, j: int|
            0 <= i < s.len() && 0 <= j < s.len() && i != j ==> #[trigger] s[i] != #[trigger] s[j],
{
    assert forall|i: int, j: int|
        0 <= i < s.len() && 0 <= j < s.len() && i != j implies #[trigger] s[i] != #[trigger] s[j] by {
        lemma_key_lt_irreflexive(s[i].0);
        lemma_key_lt_irreflexive(s[i].1);
    }
}

/// A position that holds the entry is the position the lookup functions name.
pub proof fn lemma_index_at_is(s: StateV, owner: Seq<char>, id: Seq<char>, k: int)
    requires
        index_sorted(s.owner_index),
        0 <= k < s.owner_index.len(),
        s.owner_index[k] == (owner, id),
    ensures
        s.index_contains(owner, id),
        s.index_position(owner, id) == k,
{
    lemma_index_unique(s.owner_index);
}

/// Removing an element and inserting another at the same place is an
/// update.
pub proof fn lemma_remove_insert_is_update<A>(s: Seq<A>, i: int, x: A)
    requires
        0 <= i < s.len(),
    ensures
        s.remove(i).insert(i, x) =~= s.update(i, x),
{
    s.remove_ensures(i);
    s.remove(i).insert_ensures(i, x);
    assert forall|j: int| 0 <= j < s.len() implies s.remove(i).insert(i, x)[j] == s.update(
        i,
        x,
    )[j] by {
        if j > i {
            assert(s.remove(i).insert(i, x)[(j - 1) + 1] == s.remove(i)[j - 1]);
            assert(s.remove(i)[j - 1] == s[j]);
        }
    }
}

/// Replacing a record by one with the same id keeps the records sorted.
pub proof fn lemma_tokens_sorted_update_same_id(s: Seq<TokenV>, i: int, x: TokenV)
    requires
        tokens_sorted(s),
        0 <= i < s.len(),
        x.token_id == s[i].token_id,
    ensures
        tokens_sorted(s.update(i, x)),
{
    let t = s.update(i, x);
    assert forall|a: int, b: int|
        0 <= a && a < b && b < t.len() implies key_lt(
        (#[trigger] t[a]).token_id,
        (#[trigger] t[b]).token_id,
    ) by {
        assert(t[a].token_id == s[a].token_id);
        assert(t[b].token_id == s[b].token_id);
    }
}

/// Replacing an operator approval by one for the same pair keeps the
/// approvals sorted.
pub proof fn lemma_operators_sorted_update_same_pair(s: Seq<OperatorV>, i: int, x: OperatorV)
    requires
        operators_sorted(s),
        0 <= i < s.len(),
        x.owner == s[i].owner,
        x.operator == s[i].operator,
    ensures
        operators_sorted(s.update(i, x)),
{
    let t = s.update(i, x);
    assert forall|a: int, b: int|
        0 <= a && a < b && b < t.len() implies key_pair_lt(
        (#[trigger] t[a]).owner,
        t[a].operator,
        (#[trigger] t[b]).owner,
        t[b].operator,
    ) by {
        assert(t[a].owner == s[a].owner && t[a].operator == s[a].operator);
        assert(t[b].owner == s[b].owner && t[b].operator == s[b].operator);
    }
}

// ----- order is preserved by insertion and removal -----

/// Inserting a token at a position that respects the id order keeps the
/// records sorted.
pub proof fn lemma_tokens_sorted_insert(s: Seq<TokenV>, p: int, x: TokenV)
    requires
        tokens_sorted(s),
        0 <= p <= s.len(),
        forall|j: int| 0 <= j < p ==> key_lt((#[trigger] s[j]).token_id, x.token_id),
        forall|j: int| p <= j < s.len() ==> key_lt(x.token_id, (#[trigger] s[j]).token_id),
    ensures
        tokens_sorted(s.insert(p, x)),
{
    let t = s.insert(p, x);
    s.insert_ensures(p, x);
    assert forall|i: int, j: int|
        0 <= i && i < j && j < t.len() implies key_lt(
        (#[trigger] t[i]).token_id,
        (#[trigger] t[j]).token_id,
    ) by {
        if i > p {
            assert(t[(i - 1) + 1] == s[i - 1]);
        }
        if j > p {
            assert(t[(j - 1) + 1] == s[j - 1]);
        }
    }
}

/// Removing a token keeps the records sorted.
pub proof fn lemma_tokens_sorted_remove(s: Seq<TokenV>, p: int)
    requires
        tokens_sorted(s),
        0 <= p < s.len(),
    ensures
        tokens_sorted(s.remove(p)),
{
    let t = s.remove(p);
    s.remove_ensures(p);
    assert forall|i: int, j: int|
        0 <= i && i < j && j < t.len() implies key_lt(
        (#[trigger] t[i]).token_id,
        (#[trigger] t[j]).token_id,
    ) by {
        assert(t[i] == if i < p {
            s[i]
        } else {
            s[i + 1]
        });
        assert(t[j] == if j < p {
            s[j]
        } else {
            s[j + 1]
        });
    }
}

/// Inserting an index entry at a position that respects the pair order
/// keeps the index sorted.
pub proof fn lemma_index_sorted_insert(
    s: Seq<(Seq<char>, Seq<char>)>,
    p: int,
    x: (Seq<char>, Seq<char>),
)
    requires
        index_sorted(s),
        0 <= p <= s.len(),
        forall|j: int| 0 <= j < p ==> key_pair_lt((#[trigger] s[j]).0, s[j].1, x.0, x.1),
        forall|j: int| p <= j < s.len() ==> key_pair_lt(x.0, x.1, (#[trigger] s[j]).0, s[j].1),
    ensures
        index_sorted(s.insert(p, x)),
{
    let t = s.insert(p, x);
    s.insert_ensures(p, x);
    assert forall|i: int, j: int|
        0 <= i && i < j && j < t.len() implies key_pair_lt(
        (#[trigger] t[i]).0,
        t[i].1,
        (#[trigger] t[j]).0,
        t[j].1,
    ) by {
        if i > p {
            assert(t[(i - 1) + 1] == s[i - 1]);
        }
        if j > p {
            assert(t[(j - 1) + 1] == s[j - 1]);
        }
    }
}

/// Removing an index entry keeps the index sorted.
pub proof fn lemma_index_sorted_remove(s: Seq<(Seq<char>, Seq<char>)>, p: int)
    requires
        index_sorted(s),
        0 <= p < s.len(),
    ensures
        index_sorted(s.remove(p)),
{
    let t = s.remove(p);
    s.remove_ensures(p);
    assert forall|i: int, j: int|
        0 <= i && i < j && j < t.len() implies key_pair_lt(
        (#[trigger] t[i]).0,
        t[i].1,
        (#[trigger] t[j]).0,
        t[j].1,
    ) by {
        assert(t[i] == if i < p {
            s[i]
        } else {
            s[i + 1]
        });
        assert(t[j] == if j < p {
            s[j]
        } else {
            s[j + 1]
        });
    }
}

/// Inserting an operator approval at a position that respects the pair
/// order keeps the approvals sorted.
pub proof fn lemma_operators_sorted_insert(s: Seq<OperatorV>, p: int, x: OperatorV)
    requires
        operators_sorted(s),
        0 <= p <= s.len(),
        forall|j: int|
            0 <= j < p ==> key_pair_lt((#[trigger] s[j]).owner, s[j].operator, x.owner, x.operator),
        forall|j: int|
            p <= j < s.len() ==> key_pair_lt(
                x.owner,
                x.operator,
                (#[trigger] s[j]).owner,
                s[j].operator,
            ),
    ensures
        operators_sorted(s.insert(p, x)),
{
    let t = s.insert(p, x);
    s.insert_ensures(p, x);
    assert forall|i: int, j: int|
        0 <= i && i < j && j < t.len() implies key_pair_lt(
        (#[trigger] t[i]).owner,
        t[i].operator,
        (#[trigger] t[j]).owner,
        t[j].operator,
    ) by {
        if i > p {
            assert(t[(i - 1) + 1] == s[i - 1]);
        }
        if j > p {
            assert(t[(j - 1) + 1] == s[j - 1]);
        }
    }
}

/// Removing an operator approval keeps the approvals sorted.
pub proof fn lemma_operators_sorted_remove(s: Seq<OperatorV>, p: int)
    requires
        operators_sorted(s),
        0 <= p < s.len(),
    ensures
        operators_sorted(s.remove(p)),
{
    let t = s.remove(p);
    s.remove_ensures(p);
    assert forall|i: int, j: int|
        0 <= i && i < j && j < t.len() implies key_pair_lt(
        (#[trigger] t[i]).owner,
        t[i].operator,
        (#[trigger] t[j]).owner,
        t[j].operator,
    ) by {
        assert(t[i] == if i < p {
            s[i]
        } else {
            s[i + 1]
        });
        assert(t[j] == if j < p {
            s[j]
        } else {
            s[j + 1]
        });
    }
}

/// Inserting an attribute at a position that respects the key order keeps
/// the attributes sorted.
pub proof fn lemma_attributes_sorted_insert(s: Seq<AttributeV>, p: int, x: AttributeV)
    requires
        attributes_sorted(s),
        0 <= p <= s.len(),
        forall|j: int| 0 <= j < p ==> key_lt((#[trigger] s[j]).key, x.key),
        forall|j: int| p <= j < s.len() ==> key_lt(x.key, (#[trigger] s[j]).key),
    ensures
        attributes_sorted(s.insert(p, x)),
{
    let t = s.insert(p, x);
    s.insert_ensures(p, x);
    assert forall|i: int, j: int|
        0 <= i && i < j && j < t.len() implies key_lt(
        (#[trigger] t[i]).key,
        (#[trigger] t[j]).key,
    ) by {
        if i > p {
            assert(t[(i - 1) + 1] == s[i - 1]);
        }
        if j > p {
            assert(t[(j - 1) + 1] == s[j - 1]);
        }
    }
}

// ----- views of changed vectors -----

/// Mapping the view over an insertion is inserting the inserted value's
/// view. The inserted element is quantified because the caller has moved it
/// into the vector and can no longer name it.
pub proof fn lemma_map_values_insert<A: View>(v0: Seq<A>, v1: Seq<A>, p: int, xv: A::V)
    requires
        0 <= p <= v0.len(),
        exists|x: A| v1 == #[trigger] v0.insert(p, x) && x@ == xv,
    ensures
        v1.map_values(|t: A| t@) =~= v0.map_values(|t: A| t@).insert(p, xv),
{
    let x = choose|x: A| v1 == #[trigger] v0.insert(p, x) && x@ == xv;
    let m0 = v0.map_values(|t: A| t@);
    let m1 = v1.map_values(|t: A| t@);
    v0.insert_ensures(p, x);
    m0.insert_ensures(p, xv);
    assert forall|i: int| 0 <= i < m1.len() implies #[trigger] m1[i] == m0.insert(p, xv)[i] by {
        if i > p {
            assert(v1[(i - 1) + 1] == v0[i - 1]);
            assert(m0.insert(p, xv)[(i - 1) + 1] == m0[i - 1]);
        }
    }
    assert(m1 =~= m0.insert(p, xv));
}

/// Mapping the view over a removal is removing from the mapped view.
pub proof fn lemma_map_values_remove<A: View>(s: Seq<A>, p: int)
    requires
        0 <= p < s.len(),
    ensures
        s.remove(p).map_values(|t: A| t@) =~= s.map_values(|t: A| t@).remove(p),
{
    let m = s.map_values(|t: A| t@);
    let m1 = s.remove(p).map_values(|t: A| t@);
    s.remove_ensures(p);
    m.remove_ensures(p);
    assert forall|i: int| 0 <= i < s.len() - 1 implies #[trigger] m1[i] == m.remove(p)[i] by {
        assert(s.remove(p)[i] == if i < p {
            s[i]
        } else {
            s[i + 1]
        });
        assert(m.remove(p)[i] == if i < p {
            m[i]
        } else {
            m[i + 1]
        });
    }
    assert(m1 =~= m.remove(p));
}

// ----- executable lookups -----

impl Cw721Contract {
    /// Find the position of the record of the given token, if it is live.
    pub fn find_token(&self, token_id: &str) -> (r: Option<usize>)
        ensures
            match r {
                Some(i) => i < self@.tokens.len() && self@.tokens[i as int].token_id == token_id@,
                None => !self@.has_token(token_id@),
            },
    {
        let n = self.tokens.len();
        let mut i: usize = 0;
        while i < n
            invariant
                i <= n,
                n == self@.tokens.len(),
                forall|j: int| 0 <= j < i ==> (#[trigger] self@.tokens[j]).token_id != token_id@,
            decreases n - i,
        {
            if str_eq(self.tokens[i].token_id.as_str(), token_id) {
                return Some(i);
            }
            i = i + 1;
        }
        None
    }

    /// Find the position of the operator approval for the pair, if stored.
    pub fn find_operator(&self, owner: &str, operator: &str) -> (r: Option<usize>)
        ensures
            match r {
                Some(i) => i < self@.operators.len() && self@.operators[i as int].owner == owner@
                    && self@.operators[i as int].operator == operator@,
                None => !self@.has_operator(owner@, operator@),
            },
    {
        let n = self.operators.len();
        let mut i: usize = 0;
        while i < n
            invariant
                i <= n,
                n == self@.operators.len(),
                forall|j: int|
                    0 <= j < i ==> ((#[trigger] self@.operators[j]).owner != owner@
                        || self@.operators[j].operator != operator@),
            decreases n - i,
        {
            if str_eq(self.operators[i].owner.as_str(), owner) && str_eq(
                self.operators[i].operator.as_str(),
                operator,
            ) {
                return Some(i);
            }
            i = i + 1;
        }
        None
    }

    /// Find the position of an owner index entry, if present.
    pub fn find_index_entry(&self, owner: &str, token_id: &str) -> (r: Option<usize>)
        ensures
            match r {
                Some(k) => k < self@.owner_index.len() && self@.owner_index[k as int] == (
                owner@,
                token_id@,
                ),
                None => !self@.index_contains(owner@, token_id@),
            },
    {
        let n = self.owner_index.len();
        let mut i: usize = 0;
        while i < n
            invariant
                i <= n,
                n == self@.owner_index.len(),
                forall|j: int|
                    0 <= j < i ==> #[trigger] self@.owner_index[j] != (owner@, token_id@),
            decreases n - i,
        {
            if str_eq(self.owner_index[i].owner.as_str(), owner) && str_eq(
                self.owner_index[i].token_id.as_str(),
                token_id,
            ) {
                return Some(i);
            }
            i = i + 1;
        }
        None
    }

    /// The position where a record of a token that is not yet live belongs.
    pub fn token_insert_pos(&self, token_id: &str) -> (p: usize)
        requires
            tokens_sorted(self@.tokens),
            !self@.has_token(token_id@),
        ensures
            p <= self@.tokens.len(),
            forall|j: int| 0 <= j < p ==> key_lt((#[trigger] self@.tokens[j]).token_id, token_id@),
            forall|j: int|
                p <= j < self@.tokens.len() ==> key_lt(
                    token_id@,
                    (#[trigger] self@.tokens[j]).token_id,
                ),
    {
        let n = self.tokens.len();
        let mut i: usize = 0;
        while i < n
            invariant
                i <= n,
                n == self@.tokens.len(),
                tokens_sorted(self@.tokens),
                !self@.has_token(token_id@),
                forall|j: int| 0 <= j < i ==> key_lt((#[trigger] self@.tokens[j]).token_id, token_id@),
            decreases n - i,
        {
            if !str_lt(self.tokens[i].token_id.as_str(), token_id) {
                proof {
                    assert(self@.tokens[i as int].token_id != token_id@);
                    lemma_key_lt_connected(token_id@, self@.tokens[i as int].token_id);
                    assert forall|j: int| i <= j < n implies key_lt(
                        token_id@,
                        (#[trigger] self@.tokens[j]).token_id,
                    ) by {
                        if j > i {
                            lemma_key_lt_transitive(
                                token_id@,
                                self@.tokens[i as int].token_id,
                                self@.tokens[j].token_id,
                            );
                        }
                    }
                }
                return i;
            }
            i = i + 1;
        }
        n
    }

    /// The position where a new owner index entry belongs.
    pub fn index_insert_pos(&self, owner: &str, token_id: &str) -> (p: usize)
        requires
            index_sorted(self@.owner_index),
            !self@.index_contains(owner@, token_id@),
        ensures
            p <= self@.owner_index.len(),
            forall|j: int|
                0 <= j < p ==> key_pair_lt(
                    (#[trigger] self@.owner_index[j]).0,
                    self@.owner_index[j].1,
                    owner@,
                    token_id@,
                ),
            forall|j: int|
                p <= j < self@.owner_index.len() ==> key_pair_lt(
                    owner@,
                    token_id@,
                    (#[trigger] self@.owner_index[j]).0,
                    self@.owner_index[j].1,
                ),
    {
        let n = self.owner_index.len();
        let mut i: usize = 0;
        while i < n
            invariant
                i <= n,
                n == self@.owner_index.len(),
                index_sorted(self@.owner_index),
                !self@.index_contains(owner@, token_id@),
                forall|j: int|
                    0 <= j < i ==> key_pair_lt(
                        (#[trigger] self@.owner_index[j]).0,
                        self@.owner_index[j].1,
                        owner@,
                        token_id@,
                    ),
            decreases n - i,
        {
            let e_lt = match str_compare(self.owner_index[i].owner.as_str(), owner) {
                KeyCmp::Less => true,
                KeyCmp::Equal => str_lt(self.owner_index[i].token_id.as_str(), token_id),
                KeyCmp::Greater => false,
            };
            if !e_lt {
                proof {
                    let e = self@.owner_index[i as int];
                    assert(e != (owner@, token_id@));
                    lemma_key_pair_lt_connected(owner@, token_id@, e.0, e.1);
                    assert forall|j: int| i <= j < n implies key_pair_lt(
                        owner@,
                        token_id@,
                        (#[trigger] self@.owner_index[j]).0,
                        self@.owner_index[j].1,
                    ) by {
                        if j > i {
                            lemma_key_pair_lt_transitive(
                                owner@,
                                token_id@,
                                e.0,
                                e.1,
                                self@.owner_index[j].0,
                                self@.owner_index[j].1,
                            );
                        }
                    }
                }
                return i;
            }
            i = i + 1;
        }
        n
    }

    /// The position where a new operator approval belongs.
    pub fn operator_insert_pos(&self, owner: &str, operator: &str) -> (p: usize)
        requires
            operators_sorted(self@.operators),
            !self@.has_operator(owner@, operator@),
        ensures
            p <= self@.operators.len(),
            forall|j: int|
                0 <= j < p ==> key_pair_lt(
                    (#[trigger] self@.operators[j]).owner,
                    self@.operators[j].operator,
                    owner@,
                    operator@,
                ),
            forall|j: int|
                p <= j < self@.operators.len() ==> key_pair_lt(
                    owner@,
                    operator@,
                    (#[trigger] self@.operators[j]).owner,
                    self@.operators[j].operator,
                ),
    {
        let n = self.operators.len();
        let mut i: usize = 0;
        while i < n
            invariant
                i <= n,
                n == self@.operators.len(),
                operators_sorted(self@.operators),
                !self@.has_operator(owner@, operator@),
                forall|j: int|
                    0 <= j < i ==> key_pair_lt(
                        (#[trigger] self@.operators[j]).owner,
                        self@.operators[j].operator,
                        owner@,
                        operator@,
                    ),
            decreases n - i,
        {
            let e_lt = match str_compare(self.operators[i].owner.as_str(), owner) {
                KeyCmp::Less => true,
                KeyCmp::Equal => str_lt(self.operators[i].operator.as_str(), operator),
                KeyCmp::Greater => false,
            };
            if !e_lt {
                proof {
                    let e = self@.operators[i as int];
                    assert(e.owner != owner@ || e.operator != operator@);
                    lemma_key_pair_lt_connected(owner@, operator@, e.owner, e.operator);
                    assert forall|j: int| i <= j < n implies key_pair_lt(
                        owner@,
                        operator@,
                        (#[trigger] self@.operators[j]).owner,
                        self@.operators[j].operator,
                    ) by {
                        if j > i {
                            lemma_key_pair_lt_transitive(
                                owner@,
                                operator@,
                                e.owner,
                                e.operator,
                                self@.operators[j].owner,
                                self@.operators[j].operator,
                            );
                        }
                    }
                }
                return i;
            }
            i = i + 1;
        }
        n
    }
}

} // verus!
