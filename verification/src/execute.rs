//! The mutations of the registry: create, transfer, approve, revoke and
//! destroy token records, under the authorization rules.
//!
//! Every mutation checks its conditions before it writes, so a failed call
//! returns the state exactly as it was. Each `..._post` spec function says
//! how a successful call relates the new state to the old one; the laws
//! about sequences of mutations are stated over these predicates.

use vstd::prelude::*;

use vstd::pervasive::unreached;

use crate::error::Cw721ContractError;
use crate::expiration::{spec_expired, BlockInfo, Expiration};
use crate::msg::{
    Coin, CollectionNftMetadataMsg, Cw721InstantiateMsg, Cw721ReceiveMsg, ResponseMsg,
};
use crate::keys::{key_lt, lemma_key_lt_irreflexive, lemma_key_lt_transitive, str_compare, str_eq, KeyCmp};
use crate::state::{
    approvals_unique_in, approvals_view, approvals_without, index_sorted,
    lemma_approvals_without_membership, lemma_approvals_without_unique, lemma_index_at_is,
    lemma_index_sorted_insert,
    attribute_keys_unique, attributes_sorted, attributes_view, lemma_attributes_sorted_insert,
    lemma_index_sorted_remove, lemma_index_unique, lemma_map_values_insert,
    lemma_map_values_remove, lemma_operator_at_is, lemma_operators_sorted_insert,
    lemma_operators_sorted_remove, lemma_operators_sorted_update_same_pair,
    lemma_remove_insert_is_update, lemma_token_at_is, lemma_tokens_sorted_insert,
    lemma_tokens_sorted_remove, lemma_tokens_sorted_update_same_id, lemma_tokens_unique_ids,
    lemma_wf_same_records, lemma_wf_update_token, opt_str_view, token_approved_for, tokens_sorted,
    Approval, ApprovalV, Attribute, AttributeV, CollectionMetadata, Cw721Contract, IndexEntry,
    MetadataExt, NftInfo, OperatorApproval, OperatorV, Ownership, StateV, TokenEntry, TokenV,
};

verus! {

/// Whether `addr` currently holds the given role slot.
pub fn slot_owner_is(slot: &Ownership, addr: &str) -> (r: bool)
    ensures
        r == (slot@.owner == Some(addr@)),
{
    match &slot.owner {
        Some(o) => str_eq(o.as_str(), addr),
        None => false,
    }
}

/// The parts of the state that minting and burning leave untouched.
pub open spec fn token_frame(s0: StateV, s1: StateV) -> bool {
    &&& s1.operators == s0.operators
    &&& s1.collection == s0.collection
    &&& s1.attributes == s0.attributes
    &&& s1.minter == s0.minter
    &&& s1.creator == s0.creator
    &&& s1.withdraw_address == s0.withdraw_address
}

/// The record a mint creates: owned by `owner`, with no approvals.
pub open spec fn minted_token(id: Seq<char>, owner: Seq<char>, uri: Option<Seq<char>>) -> TokenV {
    TokenV { token_id: id, owner: owner, token_uri: uri, approvals: Seq::empty() }
}

/// How a successful mint changes the state: the fresh record and its index
/// entry are inserted at their sorted positions, the count goes up by one,
/// and nothing else moves.
pub open spec fn mint_post(
    s0: StateV,
    s1: StateV,
    id: Seq<char>,
    owner: Seq<char>,
    uri: Option<Seq<char>>,
) -> bool {
    &&& (exists|p: int|
        0 <= p <= s0.tokens.len() && s1.tokens == #[trigger] s0.tokens.insert(
            p,
            minted_token(id, owner, uri),
        ))
    &&& (exists|q: int|
        0 <= q <= s0.owner_index.len() && s1.owner_index == #[trigger] s0.owner_index.insert(
            q,
            (owner, id),
        ))
    &&& s1.num_tokens == s0.num_tokens + 1
    &&& token_frame(s0, s1)
}

impl Cw721Contract {
    /// Create a token with the given id for `owner`. Only the minter may
    /// mint, and the id must not be in use.
    pub fn mint(
        &mut self,
        sender: &str,
        token_id: String,
        owner: String,
        token_uri: Option<String>,
        extension: MetadataExt,
    ) -> (r: Result<(), Cw721ContractError>)
        requires
            old(self)@.wf(),
        ensures
            final(self)@.wf(),
            r is Ok <==> (old(self)@.minter.owner == Some(sender@) && !old(self)@.has_token(
                token_id@,
            )),
            r is Ok ==> mint_post(
                old(self)@,
                final(self)@,
                token_id@,
                owner@,
                opt_str_view(token_uri),
            ),
            r is Err ==> *final(self) == *old(self),
            r == Err::<(), Cw721ContractError>(Cw721ContractError::Unauthorized) <==> old(
                self,
            )@.minter.owner != Some(sender@),
            r == Err::<(), Cw721ContractError>(Cw721ContractError::AlreadyExists) <==> (old(
                self,
            )@.minter.owner == Some(sender@) && old(self)@.has_token(token_id@)),
    {
        if !slot_owner_is(&self.minter_ownership, sender) {
            return Err(Cw721ContractError::Unauthorized);
        }
        match self.find_token(token_id.as_str()) {
            Some(_) => {
                return Err(Cw721ContractError::AlreadyExists);
            },
            None => {},
        }
        let p = self.token_insert_pos(token_id.as_str());
        proof {
            if self@.index_contains(owner@, token_id@) {
                let k = choose|k: int|
                    0 <= k < self@.owner_index.len() && #[trigger] self@.owner_index[k] == (
                    owner@,
                    token_id@,
                    );
                assert(self@.has_token(self@.owner_index[k].1));
            }
        }
        let q = self.index_insert_pos(owner.as_str(), token_id.as_str());
        let ghost s0 = self@;
        let ghost toks0 = self.tokens@;
        let ghost idx0 = self.owner_index@;
        let ghost idv = token_id@;
        let ghost ownv = owner@;
        let ghost uriv = opt_str_view(token_uri);
        let ghost tv = minted_token(idv, ownv, uriv);
        let index_owner = owner.clone();
        let index_id = token_id.clone();
        let entry = TokenEntry {
            token_id,
            info: NftInfo { owner, approvals: Vec::new(), token_uri, extension },
        };
        let ghost ev = entry@;
        self.tokens.insert(p, entry);
        let ie = IndexEntry { owner: index_owner, token_id: index_id };
        let ghost iev = ie@;
        self.owner_index.insert(q, ie);
        self.num_tokens = self.tokens.len() as u64;
        proof {
            assert(ev.approvals =~= Seq::<crate::state::ApprovalV>::empty());
            assert(ev == tv);
            assert(exists|x: TokenEntry|
                self.tokens@ == #[trigger] toks0.insert(p as int, x) && x@ == ev);
            lemma_map_values_insert::<TokenEntry>(toks0, self.tokens@, p as int, ev);
            s0.tokens.insert_ensures(p as int, tv);
            assert(self@.tokens =~= s0.tokens.insert(p as int, tv));
            assert(iev == (ownv, idv));
            assert(exists|x: IndexEntry|
                self.owner_index@ == #[trigger] idx0.insert(q as int, x) && x@ == iev);
            lemma_map_values_insert::<IndexEntry>(idx0, self.owner_index@, q as int, iev);
            s0.owner_index.insert_ensures(q as int, (ownv, idv));
            assert(self@.owner_index =~= s0.owner_index.insert(q as int, (ownv, idv)));

            lemma_tokens_sorted_insert(s0.tokens, p as int, tv);
            assert(tokens_sorted(self@.tokens));
            lemma_index_sorted_insert(s0.owner_index, q as int, (ownv, idv));
            assert(index_sorted(self@.owner_index));

            let s1 = self@;
            // the owner index still mirrors the records exactly
            assert forall|k: int| 0 <= k < s1.owner_index.len() implies s1.has_token(
                (#[trigger] s1.owner_index[k]).1,
            ) && s1.token_at(s1.owner_index[k].1).owner == s1.owner_index[k].0 by {
                let e = s1.owner_index[k];
                if k == q {
                    assert(e == (ownv, idv));
                    assert(s1.tokens[p as int] == tv);
                    lemma_token_at_is(s1, idv, p as int);
                } else {
                    let k0 = if k < q {
                        k
                    } else {
                        k - 1
                    };
                    if k > q {
                        assert(s1.owner_index[(k - 1) + 1] == s0.owner_index[k - 1]);
                    }
                    assert(e == s0.owner_index[k0]);
                    assert(s0.has_token(e.1) && s0.token_at(e.1).owner == e.0);
                    let i0 = s0.token_index(e.1);
                    let i1 = if i0 < p {
                        i0
                    } else {
                        i0 + 1
                    };
                    if i0 >= p {
                        assert(s1.tokens[i0 + 1] == s0.tokens[i0]);
                    }
                    assert(s1.tokens[i1] == s0.tokens[i0]);
                    lemma_token_at_is(s1, e.1, i1);
                }
            }
            assert forall|i: int| 0 <= i < s1.tokens.len() implies s1.index_contains(
                (#[trigger] s1.tokens[i]).owner,
                s1.tokens[i].token_id,
            ) by {
                if i == p {
                    assert(s1.owner_index[q as int] == (ownv, idv));
                    assert(s1.tokens[i].owner == ownv && s1.tokens[i].token_id == idv);
                } else {
                    let i0 = if i < p {
                        i
                    } else {
                        i - 1
                    };
                    if i > p {
                        assert(s1.tokens[(i - 1) + 1] == s0.tokens[i - 1]);
                    }
                    let e = s0.tokens[i0];
                    assert(s0.index_contains(e.owner, e.token_id));
                    let k0 = choose|k: int|
                        0 <= k < s0.owner_index.len() && #[trigger] s0.owner_index[k] == (
                        e.owner,
                        e.token_id,
                        );
                    let k1 = if k0 < q {
                        k0
                    } else {
                        k0 + 1
                    };
                    if k0 >= q {
                        assert(s1.owner_index[k0 + 1] == s0.owner_index[k0]);
                    }
                    assert(s1.owner_index[k1] == (e.owner, e.token_id));
                }
            }
            // approvals stay one-per-spender
            assert forall|i: int| 0 <= i < s1.tokens.len() implies crate::state::approvals_unique_in(
                (#[trigger] s1.tokens[i]).approvals,
            ) by {
                if i != p {
                    let i0 = if i < p {
                        i
                    } else {
                        i - 1
                    };
                    if i > p {
                        assert(s1.tokens[(i - 1) + 1] == s0.tokens[i - 1]);
                    }
                    assert(s1.tokens[i] == s0.tokens[i0]);
                }
            }
            assert(s1.wf());
            assert(mint_post(s0, s1, idv, ownv, uriv));
        }
        Ok(())
    }

    /// Evaluate the transfer rule for `sender` on the record at position
    /// `i`: owner, live per-token approval, or live operator of the owner.
    fn check_can_send(&self, sender: &str, i: usize, block: &BlockInfo) -> (r: bool)
        requires
            self@.wf(),
            i < self@.tokens.len(),
        ensures
            r == (sender@ == self@.tokens[i as int].owner || token_approved_for(
                self@.tokens[i as int],
                sender@,
                *block,
            ) || self@.operator_live(self@.tokens[i as int].owner, sender@, *block)),
    {
        if str_eq(self.tokens[i].info.owner.as_str(), sender) {
            return true;
        }
        let n = self.tokens[i].info.approvals.len();
        let mut k: usize = 0;
        while k < n
            invariant
                self@.wf(),
                i < self@.tokens.len(),
                n == self@.tokens[i as int].approvals.len(),
                k <= n,
                forall|j: int|
                    0 <= j < k ==> !((#[trigger] self@.tokens[i as int].approvals[j]).spender
                        == sender@ && !spec_expired(
                        self@.tokens[i as int].approvals[j].expires,
                        *block,
                    )),
            decreases n - k,
        {
            let same_spender = str_eq(self.tokens[i].info.approvals[k].spender.as_str(), sender);
            let live = !self.tokens[i].info.approvals[k].expires.is_expired(block);
            if same_spender && live {
                proof {
                    assert((self@.tokens[i as int].approvals[k as int]).spender == sender@);
                    assert(!spec_expired(self@.tokens[i as int].approvals[k as int].expires, *block));
                    assert(token_approved_for(self@.tokens[i as int], sender@, *block));
                }
                return true;
            }
            k = k + 1;
        }
        match self.find_operator(self.tokens[i].info.owner.as_str(), sender) {
            Some(p) => {
                proof {
                    lemma_operator_at_is(self@, self@.tokens[i as int].owner, sender@, p as int);
                }
                !self.operators[p].expires.is_expired(block)
            },
            None => false,
        }
    }

    /// Evaluate the approval rule for `sender` on the record at position
    /// `i`: owner or live operator of the owner.
    fn check_can_approve(&self, sender: &str, i: usize, block: &BlockInfo) -> (r: bool)
        requires
            self@.wf(),
            i < self@.tokens.len(),
        ensures
            r == (sender@ == self@.tokens[i as int].owner || self@.operator_live(
                self@.tokens[i as int].owner,
                sender@,
                *block,
            )),
    {
        if str_eq(self.tokens[i].info.owner.as_str(), sender) {
            return true;
        }
        match self.find_operator(self.tokens[i].info.owner.as_str(), sender) {
            Some(p) => {
                proof {
                    lemma_operator_at_is(self@, self@.tokens[i as int].owner, sender@, p as int);
                }
                !self.operators[p].expires.is_expired(block)
            },
            None => false,
        }
    }

    /// Destroy a token. The caller must pass the same rule as for a
    /// transfer. The record, its approvals and its index entry go away;
    /// operator approvals are owner-scoped and stay.
    pub fn burn(&mut self, sender: &str, token_id: &str, block: &BlockInfo) -> (r: Result<
        (),
        Cw721ContractError,
    >)
        requires
            old(self)@.wf(),
        ensures
            final(self)@.wf(),
            r is Ok <==> (old(self)@.has_token(token_id@) && old(self)@.can_send(
                sender@,
                token_id@,
                *block,
            )),
            r == Err::<(), Cw721ContractError>(Cw721ContractError::NotFound) <==> !old(
                self,
            )@.has_token(token_id@),
            r == Err::<(), Cw721ContractError>(Cw721ContractError::Unauthorized) <==> (old(
                self,
            )@.has_token(token_id@) && !old(self)@.can_send(sender@, token_id@, *block)),
            r is Ok ==> burn_post(old(self)@, final(self)@, token_id@),
            r is Err ==> *final(self) == *old(self),
            r is Ok ==> !final(self)@.has_token(token_id@),
            r is Ok ==> forall|ow: Seq<char>| !#[trigger] final(self)@.index_contains(
                ow,
                token_id@,
            ),
    {
        let i = match self.find_token(token_id) {
            None => {
                return Err(Cw721ContractError::NotFound);
            },
            Some(i) => i,
        };
        proof {
            lemma_token_at_is(self@, token_id@, i as int);
        }
        if !self.check_can_send(sender, i, block) {
            return Err(Cw721ContractError::Unauthorized);
        }
        let k = match self.find_index_entry(self.tokens[i].info.owner.as_str(), token_id) {
            Some(k) => k,
            None => {
                proof {
                    assert(self@.index_contains(
                        self@.tokens[i as int].owner,
                        self@.tokens[i as int].token_id,
                    ));
                }
                unreached()
            },
        };
        proof {
            lemma_index_at_is(self@, self@.tokens[i as int].owner, token_id@, k as int);
        }
        let ghost s0 = self@;
        let ghost toks0 = self.tokens@;
        let ghost idx0 = self.owner_index@;
        let _removed_token = self.tokens.remove(i);
        let _removed_entry = self.owner_index.remove(k);
        self.num_tokens = self.tokens.len() as u64;
        proof {
            lemma_map_values_remove::<TokenEntry>(toks0, i as int);
            assert(self@.tokens =~= s0.tokens.remove(i as int));
            lemma_map_values_remove::<IndexEntry>(idx0, k as int);
            assert(self@.owner_index =~= s0.owner_index.remove(k as int));
            lemma_tokens_sorted_remove(s0.tokens, i as int);
            lemma_index_sorted_remove(s0.owner_index, k as int);
            s0.tokens.remove_ensures(i as int);
            s0.owner_index.remove_ensures(k as int);
            lemma_tokens_unique_ids(s0.tokens);
            lemma_index_unique(s0.owner_index);
            let s1 = self@;
            assert forall|k2: int| 0 <= k2 < s1.owner_index.len() implies s1.has_token(
                (#[trigger] s1.owner_index[k2]).1,
            ) && s1.token_at(s1.owner_index[k2].1).owner == s1.owner_index[k2].0 by {
                let k0 = if k2 < k {
                    k2
                } else {
                    k2 + 1
                };
                let e = s0.owner_index[k0];
                assert(s1.owner_index[k2] == e);
                assert(s0.has_token(e.1) && s0.token_at(e.1).owner == e.0);
                let i0 = s0.token_index(e.1);
                if i0 == i {
                    assert(e.1 == token_id@);
                    assert(e.0 == s0.token_at(token_id@).owner);
                    assert(s0.owner_index[k0] == s0.owner_index[k as int]);
                    assert(false);
                }
                let i1 = if i0 < i {
                    i0
                } else {
                    i0 - 1
                };
                assert(s1.tokens[i1] == s0.tokens[i0]);
                lemma_token_at_is(s1, e.1, i1);
            }
            assert forall|i2: int| 0 <= i2 < s1.tokens.len() implies s1.index_contains(
                (#[trigger] s1.tokens[i2]).owner,
                s1.tokens[i2].token_id,
            ) by {
                let i0 = if i2 < i {
                    i2
                } else {
                    i2 + 1
                };
                assert(s1.tokens[i2] == s0.tokens[i0]);
                let t = s0.tokens[i0];
                assert(s0.index_contains(t.owner, t.token_id));
                let k0 = choose|kk: int|
                    0 <= kk < s0.owner_index.len() && #[trigger] s0.owner_index[kk] == (
                    t.owner,
                    t.token_id,
                    );
                if k0 == k {
                    assert(t.token_id == token_id@);
                    assert(s0.tokens[i0].token_id == s0.tokens[i as int].token_id);
                    assert(false);
                }
                let k1 = if k0 < k {
                    k0
                } else {
                    k0 - 1
                };
                assert(s1.owner_index[k1] == s0.owner_index[k0]);
            }
            assert forall|i2: int| 0 <= i2 < s1.tokens.len() implies approvals_unique_in(
                (#[trigger] s1.tokens[i2]).approvals,
            ) by {
                let i0 = if i2 < i {
                    i2
                } else {
                    i2 + 1
                };
                assert(s1.tokens[i2] == s0.tokens[i0]);
            }
            assert(s1.wf());
            assert(burn_post(s0, s1, token_id@));
            assert(!s1.has_token(token_id@)) by {
                if s1.has_token(token_id@) {
                    let ii = choose|ii: int|
                        0 <= ii < s1.tokens.len() && (#[trigger] s1.tokens[ii]).token_id
                            == token_id@;
                    let i0 = if ii < i {
                        ii
                    } else {
                        ii + 1
                    };
                    assert(s1.tokens[ii] == s0.tokens[i0]);
                    assert(s0.tokens[i0].token_id == s0.tokens[i as int].token_id);
                    assert(false);
                }
            }
            assert forall|ow: Seq<char>| !#[trigger] s1.index_contains(ow, token_id@) by {
                if s1.index_contains(ow, token_id@) {
                    let kk = choose|kk: int|
                        0 <= kk < s1.owner_index.len() && #[trigger] s1.owner_index[kk] == (
                        ow,
                        token_id@,
                        );
                    assert(s1.has_token(s1.owner_index[kk].1));
                    assert(false);
                }
            }
        }
        Ok(())
    }
}

/// How a successful burn changes the state: the record and its index entry
/// are removed, the count goes down by one, and nothing else moves.
pub open spec fn burn_post(s0: StateV, s1: StateV, id: Seq<char>) -> bool {
    &&& s1.tokens == s0.tokens.remove(s0.token_index(id))
    &&& s1.owner_index == s0.owner_index.remove(
        s0.index_position(s0.token_at(id).owner, id),
    )
    &&& s1.num_tokens == s0.num_tokens - 1
    &&& token_frame(s0, s1)
}

/// The record after a transfer: the new owner, with all approvals cleared.
pub open spec fn transferred_token(t: TokenV, recipient: Seq<char>) -> TokenV {
    TokenV {
        token_id: t.token_id,
        owner: recipient,
        token_uri: t.token_uri,
        approvals: Seq::empty(),
    }
}

/// How a successful transfer changes the state: the record keeps its place
/// with a new owner and no approvals, the old index entry is replaced by
/// one under the recipient, and nothing else moves.
pub open spec fn transfer_post(s0: StateV, s1: StateV, id: Seq<char>, recipient: Seq<char>) -> bool {
    &&& s1.tokens == s0.tokens.update(
        s0.token_index(id),
        transferred_token(s0.token_at(id), recipient),
    )
    &&& (exists|q: int|
        0 <= q <= s0.owner_index.len() - 1 && s1.owner_index == #[trigger] s0.owner_index.remove(
            s0.index_position(s0.token_at(id).owner, id),
        ).insert(q, (recipient, id)))
    &&& s1.num_tokens == s0.num_tokens
    &&& token_frame(s0, s1)
}

impl Cw721Contract {
    /// Move a token to `recipient`. The caller must be the owner, hold a
    /// live approval on the token, or be a live operator of the owner; the
    /// token's approvals are cleared.
    pub fn transfer_nft(
        &mut self,
        sender: &str,
        recipient: String,
        token_id: String,
        block: &BlockInfo,
    ) -> (r: Result<(), Cw721ContractError>)
        requires
            old(self)@.wf(),
        ensures
            final(self)@.wf(),
            r is Ok <==> (old(self)@.has_token(token_id@) && old(self)@.can_send(
                sender@,
                token_id@,
                *block,
            )),
            r == Err::<(), Cw721ContractError>(Cw721ContractError::NotFound) <==> !old(
                self,
            )@.has_token(token_id@),
            r == Err::<(), Cw721ContractError>(Cw721ContractError::Unauthorized) <==> (old(
                self,
            )@.has_token(token_id@) && !old(self)@.can_send(sender@, token_id@, *block)),
            r is Ok ==> transfer_post(old(self)@, final(self)@, token_id@, recipient@),
            r is Err ==> *final(self) == *old(self),
            r is Ok ==> final(self)@.has_token(token_id@) && final(self)@.token_at(
                token_id@,
            ).owner == recipient@ && final(self)@.token_at(token_id@).approvals == Seq::<
                ApprovalV,
            >::empty(),
    {
        let ghost recv = recipient@;
        let ghost idv = token_id@;
        let i = match self.find_token(token_id.as_str()) {
            None => {
                return Err(Cw721ContractError::NotFound);
            },
            Some(i) => i,
        };
        proof {
            lemma_token_at_is(self@, idv, i as int);
        }
        if !self.check_can_send(sender, i, block) {
            return Err(Cw721ContractError::Unauthorized);
        }
        let k = match self.find_index_entry(self.tokens[i].info.owner.as_str(), token_id.as_str()) {
            Some(k) => k,
            None => {
                proof {
                    assert(self@.index_contains(
                        self@.tokens[i as int].owner,
                        self@.tokens[i as int].token_id,
                    ));
                }
                unreached()
            },
        };
        proof {
            lemma_index_at_is(self@, self@.tokens[i as int].owner, idv, k as int);
            lemma_tokens_unique_ids(self@.tokens);
            lemma_index_unique(self@.owner_index);
        }
        let ghost s0 = self@;
        let ghost toks0 = self.tokens@;
        let ghost idx0 = self.owner_index@;
        let ghost tv1 = transferred_token(s0.token_at(idv), recv);

        let mut entry = self.tokens.remove(i);
        entry.info.owner = recipient.clone();
        entry.info.approvals = Vec::new();
        let ghost ev = entry@;
        self.tokens.insert(i, entry);
        proof {
            assert(ev.approvals =~= Seq::<ApprovalV>::empty());
            assert(ev == tv1);
            assert(exists|x: TokenEntry|
                self.tokens@ == #[trigger] toks0.remove(i as int).insert(i as int, x) && x@ == ev);
            lemma_map_values_remove::<TokenEntry>(toks0, i as int);
            lemma_map_values_insert::<TokenEntry>(toks0.remove(i as int), self.tokens@, i as int, ev);
            lemma_remove_insert_is_update(s0.tokens, i as int, tv1);
            assert(self@.tokens =~= s0.tokens.update(i as int, tv1));
            lemma_tokens_sorted_update_same_id(s0.tokens, i as int, tv1);
            assert(tokens_sorted(self@.tokens));
        }
        let _old_entry = self.owner_index.remove(k);
        proof {
            lemma_map_values_remove::<IndexEntry>(idx0, k as int);
            assert(self@.owner_index =~= s0.owner_index.remove(k as int));
            lemma_index_sorted_remove(s0.owner_index, k as int);
            s0.owner_index.remove_ensures(k as int);
            assert(!self@.index_contains(recv, idv)) by {
                if self@.index_contains(recv, idv) {
                    let kk = choose|kk: int|
                        0 <= kk < self@.owner_index.len() && #[trigger] self@.owner_index[kk] == (
                        recv,
                        idv,
                        );
                    let k0 = if kk < k {
                        kk
                    } else {
                        kk + 1
                    };
                    assert(s0.owner_index[k0] == (recv, idv));
                    assert(s0.has_token(idv) && s0.token_at(idv).owner == recv);
                    assert(s0.owner_index[k0] == s0.owner_index[k as int]);
                    assert(false);
                }
            }
        }
        let q = self.index_insert_pos(recipient.as_str(), token_id.as_str());
        let ghost mid0 = self@.owner_index;
        let new_entry = IndexEntry { owner: recipient, token_id };
        let ghost iev = new_entry@;
        let ghost idxm = self.owner_index@;
        self.owner_index.insert(q, new_entry);
        self.num_tokens = self.tokens.len() as u64;
        proof {
            assert(iev == (recv, idv));
            assert(exists|x: IndexEntry|
                self.owner_index@ == #[trigger] idxm.insert(q as int, x) && x@ == iev);
            lemma_map_values_insert::<IndexEntry>(idxm, self.owner_index@, q as int, iev);
            mid0.insert_ensures(q as int, (recv, idv));
            assert(self@.owner_index =~= mid0.insert(q as int, (recv, idv)));
            lemma_index_sorted_insert(mid0, q as int, (recv, idv));
            assert(index_sorted(self@.owner_index));

            let s1 = self@;
            assert(s1.tokens[i as int] == tv1);
            assert forall|k2: int| 0 <= k2 < s1.owner_index.len() implies s1.has_token(
                (#[trigger] s1.owner_index[k2]).1,
            ) && s1.token_at(s1.owner_index[k2].1).owner == s1.owner_index[k2].0 by {
                if k2 == q {
                    assert(s1.owner_index[k2] == (recv, idv));
                    lemma_token_at_is(s1, idv, i as int);
                } else {
                    let m = if k2 < q {
                        k2
                    } else {
                        k2 - 1
                    };
                    if k2 > q {
                        assert(s1.owner_index[(k2 - 1) + 1] == mid0[k2 - 1]);
                    }
                    assert(s1.owner_index[k2] == mid0[m]);
                    let k0 = if m < k {
                        m
                    } else {
                        m + 1
                    };
                    let e = s0.owner_index[k0];
                    assert(mid0[m] == e);
                    assert(s0.has_token(e.1) && s0.token_at(e.1).owner == e.0);
                    let i0 = s0.token_index(e.1);
                    if i0 == i {
                        assert(e.1 == idv);
                        assert(e.0 == s0.token_at(idv).owner);
                        assert(s0.owner_index[k0] == s0.owner_index[k as int]);
                        assert(false);
                    }
                    assert(s1.tokens[i0] == s0.tokens[i0]);
                    lemma_token_at_is(s1, e.1, i0);
                }
            }
            assert forall|i2: int| 0 <= i2 < s1.tokens.len() implies s1.index_contains(
                (#[trigger] s1.tokens[i2]).owner,
                s1.tokens[i2].token_id,
            ) by {
                if i2 == i {
                    assert(s1.owner_index[q as int] == (recv, idv));
                } else {
                    let t = s0.tokens[i2];
                    assert(s1.tokens[i2] == t);
                    assert(s0.index_contains(t.owner, t.token_id));
                    let k0 = choose|kk: int|
                        0 <= kk < s0.owner_index.len() && #[trigger] s0.owner_index[kk] == (
                        t.owner,
                        t.token_id,
                        );
                    if k0 == k {
                        assert(t.token_id == idv);
                        assert(s0.tokens[i2].token_id == s0.tokens[i as int].token_id);
                        assert(false);
                    }
                    let m = if k0 < k {
                        k0
                    } else {
                        k0 - 1
                    };
                    assert(mid0[m] == s0.owner_index[k0]);
                    let k1 = if m < q {
                        m
                    } else {
                        m + 1
                    };
                    if m >= q {
                        assert(s1.owner_index[m + 1] == mid0[m]);
                    }
                    assert(s1.owner_index[k1] == (t.owner, t.token_id));
                }
            }
            assert forall|i2: int| 0 <= i2 < s1.tokens.len() implies approvals_unique_in(
                (#[trigger] s1.tokens[i2]).approvals,
            ) by {
                if i2 != i {
                    assert(s1.tokens[i2] == s0.tokens[i2]);
                }
            }
            assert(s1.wf());
            assert(transfer_post(s0, s1, idv, recv));
            lemma_token_at_is(s1, idv, i as int);
        }
        Ok(())
    }

    /// Grant `spender` transfer rights over one token until `expires`
    /// (never, when absent). The caller must be the owner or a live
    /// operator; a grant that would already be expired is refused. A prior
    /// entry for the same spender is replaced.
    pub fn approve(
        &mut self,
        sender: &str,
        spender: String,
        token_id: &str,
        expires: Option<Expiration>,
        block: &BlockInfo,
    ) -> (r: Result<(), Cw721ContractError>)
        requires
            old(self)@.wf(),
        ensures
            final(self)@.wf(),
            r is Ok <==> (old(self)@.has_token(token_id@) && old(self)@.can_approve(
                sender@,
                token_id@,
                *block,
            ) && !spec_expired(expiration_or_never(expires), *block)),
            r == Err::<(), Cw721ContractError>(Cw721ContractError::NotFound) <==> !old(
                self,
            )@.has_token(token_id@),
            r == Err::<(), Cw721ContractError>(Cw721ContractError::Unauthorized) <==> (old(
                self,
            )@.has_token(token_id@) && !old(self)@.can_approve(sender@, token_id@, *block)),
            r == Err::<(), Cw721ContractError>(Cw721ContractError::Expired) <==> (old(
                self,
            )@.has_token(token_id@) && old(self)@.can_approve(sender@, token_id@, *block)
                && spec_expired(expiration_or_never(expires), *block)),
            r is Ok ==> token_update_post(
                old(self)@,
                final(self)@,
                token_id@,
                approved_token(
                    old(self)@.token_at(token_id@),
                    spender@,
                    expiration_or_never(expires),
                ),
            ),
            r is Err ==> *final(self) == *old(self),
    {
        let ghost spv = spender@;
        let ghost idv = token_id@;
        let i = match self.find_token(token_id) {
            None => {
                return Err(Cw721ContractError::NotFound);
            },
            Some(i) => i,
        };
        proof {
            lemma_token_at_is(self@, idv, i as int);
        }
        if !self.check_can_approve(sender, i, block) {
            return Err(Cw721ContractError::Unauthorized);
        }
        let exp = match expires {
            Some(e) => e,
            None => Expiration::Never,
        };
        if exp.is_expired(block) {
            return Err(Cw721ContractError::Expired);
        }
        let ghost s0 = self@;
        let ghost toks0 = self.tokens@;
        let ghost t0 = s0.token_at(idv);
        let ghost t1 = approved_token(t0, spv, exp);
        let mut entry = self.tokens.remove(i);
        let mut filtered = approvals_drop_spender(&entry.info.approvals, spender.as_str());
        let na = Approval { spender, expires: exp };
        let ghost nav = na@;
        let ghost filt0 = filtered@;
        filtered.push(na);
        proof {
            assert(approvals_view(filtered@) =~= approvals_view(filt0).push(nav));
        }
        entry.info.approvals = filtered;
        let ghost ev = entry@;
        self.tokens.insert(i, entry);
        proof {
            assert(ev.approvals =~= t1.approvals);
            assert(ev == t1);
            assert(exists|x: TokenEntry|
                self.tokens@ == #[trigger] toks0.remove(i as int).insert(i as int, x) && x@ == ev);
            lemma_map_values_remove::<TokenEntry>(toks0, i as int);
            lemma_map_values_insert::<TokenEntry>(toks0.remove(i as int), self.tokens@, i as int, ev);
            lemma_remove_insert_is_update(s0.tokens, i as int, t1);
            assert(self@.tokens =~= s0.tokens.update(i as int, t1));
            lemma_approvals_without_unique(t0.approvals, spv);
            lemma_approvals_without_membership(t0.approvals, spv);
            let w = approvals_without(t0.approvals, spv);
            assert(approvals_unique_in(t1.approvals)) by {
                assert forall|p: int, q: int|
                    0 <= p && p < q && q < t1.approvals.len() implies (#[trigger] t1.approvals[
                p]).spender != (#[trigger] t1.approvals[q]).spender by {
                    if q == t1.approvals.len() - 1 {
                        assert(t1.approvals[p] == w[p]);
                        assert(w[p].spender != spv);
                    } else {
                        assert(t1.approvals[p] == w[p] && t1.approvals[q] == w[q]);
                    }
                }
            }
            lemma_wf_update_token(s0, self@, i as int, t1);
            assert(token_update_post(s0, self@, idv, t1));
        }
        Ok(())
    }

    /// Remove any approval for `spender` on one token. The caller must be
    /// the owner or a live operator; revoking an absent approval is not an
    /// error.
    pub fn revoke(
        &mut self,
        sender: &str,
        spender: &str,
        token_id: &str,
        block: &BlockInfo,
    ) -> (r: Result<(), Cw721ContractError>)
        requires
            old(self)@.wf(),
        ensures
            final(self)@.wf(),
            r is Ok <==> (old(self)@.has_token(token_id@) && old(self)@.can_approve(
                sender@,
                token_id@,
                *block,
            )),
            r == Err::<(), Cw721ContractError>(Cw721ContractError::NotFound) <==> !old(
                self,
            )@.has_token(token_id@),
            r == Err::<(), Cw721ContractError>(Cw721ContractError::Unauthorized) <==> (old(
                self,
            )@.has_token(token_id@) && !old(self)@.can_approve(sender@, token_id@, *block)),
            r is Ok ==> token_update_post(
                old(self)@,
                final(self)@,
                token_id@,
                revoked_token(old(self)@.token_at(token_id@), spender@),
            ),
            r is Err ==> *final(self) == *old(self),
    {
        let ghost spv = spender@;
        let ghost idv = token_id@;
        let i = match self.find_token(token_id) {
            None => {
                return Err(Cw721ContractError::NotFound);
            },
            Some(i) => i,
        };
        proof {
            lemma_token_at_is(self@, idv, i as int);
        }
        if !self.check_can_approve(sender, i, block) {
            return Err(Cw721ContractError::Unauthorized);
        }
        let ghost s0 = self@;
        let ghost toks0 = self.tokens@;
        let ghost t0 = s0.token_at(idv);
        let ghost t1 = revoked_token(t0, spv);
        let mut entry = self.tokens.remove(i);
        let filtered = approvals_drop_spender(&entry.info.approvals, spender);
        entry.info.approvals = filtered;
        let ghost ev = entry@;
        self.tokens.insert(i, entry);
        proof {
            assert(ev.approvals =~= t1.approvals);
            assert(ev == t1);
            assert(exists|x: TokenEntry|
                self.tokens@ == #[trigger] toks0.remove(i as int).insert(i as int, x) && x@ == ev);
            lemma_map_values_remove::<TokenEntry>(toks0, i as int);
            lemma_map_values_insert::<TokenEntry>(toks0.remove(i as int), self.tokens@, i as int, ev);
            lemma_remove_insert_is_update(s0.tokens, i as int, t1);
            assert(self@.tokens =~= s0.tokens.update(i as int, t1));
            lemma_approvals_without_unique(t0.approvals, spv);
            lemma_wf_update_token(s0, self@, i as int, t1);
            assert(token_update_post(s0, self@, idv, t1));
        }
        Ok(())
    }
}

/// The effective condition of an optional expiration: never, when absent.
pub open spec fn expiration_or_never(o: Option<Expiration>) -> Expiration {
    match o {
        Some(e) => e,
        None => Expiration::Never,
    }
}

/// The record after an approval: any earlier entry for the spender is
/// gone, and the new grant stands at the end of the list.
pub open spec fn approved_token(t: TokenV, spender: Seq<char>, exp: Expiration) -> TokenV {
    TokenV {
        approvals: approvals_without(t.approvals, spender).push(
            ApprovalV { spender: spender, expires: exp },
        ),
        ..t
    }
}

/// The record after a revocation: any entry for the spender is gone.
pub open spec fn revoked_token(t: TokenV, spender: Seq<char>) -> TokenV {
    TokenV { approvals: approvals_without(t.approvals, spender), ..t }
}

/// How a mutation of one record changes the state: the record is replaced
/// in place and nothing else moves.
pub open spec fn token_update_post(s0: StateV, s1: StateV, id: Seq<char>, t1: TokenV) -> bool {
    &&& s1.tokens == s0.tokens.update(s0.token_index(id), t1)
    &&& s1.owner_index == s0.owner_index
    &&& s1.num_tokens == s0.num_tokens
    &&& token_frame(s0, s1)
}

/// The parts of the state that operator mutations leave untouched.
pub open spec fn operator_frame(s0: StateV, s1: StateV) -> bool {
    &&& s1.tokens == s0.tokens
    &&& s1.owner_index == s0.owner_index
    &&& s1.num_tokens == s0.num_tokens
    &&& s1.collection == s0.collection
    &&& s1.attributes == s0.attributes
    &&& s1.minter == s0.minter
    &&& s1.creator == s0.creator
    &&& s1.withdraw_address == s0.withdraw_address
}

/// How a successful blanket grant changes the state: the pair's entry is
/// replaced, or inserted at its sorted position, and nothing else moves.
pub open spec fn approve_all_post(
    s0: StateV,
    s1: StateV,
    owner: Seq<char>,
    operator: Seq<char>,
    exp: Expiration,
) -> bool {
    &&& (if s0.has_operator(owner, operator) {
        s1.operators == s0.operators.update(
            s0.operator_index(owner, operator),
            OperatorV { owner: owner, operator: operator, expires: exp },
        )
    } else {
        exists|q: int|
            0 <= q <= s0.operators.len() && s1.operators == #[trigger] s0.operators.insert(
                q,
                OperatorV { owner: owner, operator: operator, expires: exp },
            )
    })
    &&& operator_frame(s0, s1)
}

/// How a blanket revocation changes the state: the pair's entry is
/// removed if stored, and nothing else moves.
pub open spec fn revoke_all_post(s0: StateV, s1: StateV, owner: Seq<char>, operator: Seq<char>) -> bool {
    &&& (if s0.has_operator(owner, operator) {
        s1.operators == s0.operators.remove(s0.operator_index(owner, operator))
    } else {
        s1.operators == s0.operators
    })
    &&& operator_frame(s0, s1)
}

impl Cw721Contract {
    /// Grant `operator` rights over all of the caller's tokens until
    /// `expires` (never, when absent). A grant that would already be
    /// expired is refused; a prior grant for the pair is replaced.
    pub fn approve_all(
        &mut self,
        sender: &str,
        operator: String,
        expires: Option<Expiration>,
        block: &BlockInfo,
    ) -> (r: Result<(), Cw721ContractError>)
        requires
            old(self)@.wf(),
        ensures
            final(self)@.wf(),
            r is Ok <==> !spec_expired(expiration_or_never(expires), *block),
            r == Err::<(), Cw721ContractError>(Cw721ContractError::Expired) <==> spec_expired(
                expiration_or_never(expires),
                *block,
            ),
            r is Ok ==> approve_all_post(
                old(self)@,
                final(self)@,
                sender@,
                operator@,
                expiration_or_never(expires),
            ),
            r is Err ==> *final(self) == *old(self),
    {
        let ghost ownv = sender@;
        let ghost opv = operator@;
        let exp = match expires {
            Some(e) => e,
            None => Expiration::Never,
        };
        if exp.is_expired(block) {
            return Err(Cw721ContractError::Expired);
        }
        let ghost s0 = self@;
        let ghost ops0 = self.operators@;
        let ghost nv = OperatorV { owner: ownv, operator: opv, expires: exp };
        match self.find_operator(sender, operator.as_str()) {
            Some(p) => {
                proof {
                    lemma_operator_at_is(s0, ownv, opv, p as int);
                }
                let mut e = self.operators.remove(p);
                e.expires = exp;
                let ghost ev = e@;
                self.operators.insert(p, e);
                proof {
                    assert(ev == nv);
                    assert(exists|x: OperatorApproval|
                        self.operators@ == #[trigger] ops0.remove(p as int).insert(p as int, x)
                            && x@ == ev);
                    lemma_map_values_remove::<OperatorApproval>(ops0, p as int);
                    lemma_map_values_insert::<OperatorApproval>(
                        ops0.remove(p as int),
                        self.operators@,
                        p as int,
                        ev,
                    );
                    lemma_remove_insert_is_update(s0.operators, p as int, nv);
                    assert(self@.operators =~= s0.operators.update(p as int, nv));
                    lemma_operators_sorted_update_same_pair(s0.operators, p as int, nv);
                    lemma_wf_same_records(s0, self@);
                    assert(approve_all_post(s0, self@, ownv, opv, exp));
                }
            },
            None => {
                let q = self.operator_insert_pos(sender, operator.as_str());
                let ne = OperatorApproval { owner: sender.to_owned(), operator, expires: exp };
                let ghost ev = ne@;
                self.operators.insert(q, ne);
                proof {
                    assert(ev == nv);
                    assert(exists|x: OperatorApproval|
                        self.operators@ == #[trigger] ops0.insert(q as int, x) && x@ == ev);
                    lemma_map_values_insert::<OperatorApproval>(
                        ops0,
                        self.operators@,
                        q as int,
                        ev,
                    );
                    s0.operators.insert_ensures(q as int, nv);
                    assert(self@.operators =~= s0.operators.insert(q as int, nv));
                    lemma_operators_sorted_insert(s0.operators, q as int, nv);
                    lemma_wf_same_records(s0, self@);
                    assert(approve_all_post(s0, self@, ownv, opv, exp));
                }
            },
        }
        Ok(())
    }

    /// Remove any blanket grant the caller gave `operator`. Revoking an
    /// absent grant is not an error.
    pub fn revoke_all(&mut self, sender: &str, operator: &str)
        requires
            old(self)@.wf(),
        ensures
            final(self)@.wf(),
            revoke_all_post(old(self)@, final(self)@, sender@, operator@),
    {
        let ghost ownv = sender@;
        let ghost opv = operator@;
        let ghost s0 = self@;
        let ghost ops0 = self.operators@;
        match self.find_operator(sender, operator) {
            Some(p) => {
                proof {
                    lemma_operator_at_is(s0, ownv, opv, p as int);
                }
                let _removed = self.operators.remove(p);
                proof {
                    lemma_map_values_remove::<OperatorApproval>(ops0, p as int);
                    assert(self@.operators =~= s0.operators.remove(p as int));
                    lemma_operators_sorted_remove(s0.operators, p as int);
                    lemma_wf_same_records(s0, self@);
                    assert(revoke_all_post(s0, self@, ownv, opv));
                }
            },
            None => {
                proof {
                    assert(revoke_all_post(s0, self@, ownv, opv));
                }
            },
        }
    }
}

/// The position in a sorted attribute list where `key` belongs, or nothing
/// if the key is already present.
fn attribute_insert_pos(v: &Vec<Attribute>, key: &str) -> (r: Option<usize>)
    requires
        attributes_sorted(attributes_view(v@)),
    ensures
        match r {
            Some(p) => {
                &&& p <= v@.len()
                &&& (forall|j: int|
                    0 <= j < p ==> key_lt((#[trigger] attributes_view(v@)[j]).key, key@))
                &&& (forall|j: int|
                    p <= j < v@.len() ==> key_lt(key@, (#[trigger] attributes_view(v@)[j]).key))
            },
            None => exists|j: int|
                0 <= j < v@.len() && (#[trigger] attributes_view(v@)[j]).key == key@,
        },
{
    let n = v.len();
    let mut i: usize = 0;
    while i < n
        invariant
            i <= n,
            n == v@.len(),
            attributes_sorted(attributes_view(v@)),
            forall|j: int| 0 <= j < i ==> key_lt((#[trigger] attributes_view(v@)[j]).key, key@),
        decreases n - i,
    {
        match str_compare(v[i].key.as_str(), key) {
            KeyCmp::Less => {
                i = i + 1;
            },
            KeyCmp::Equal => {
                proof {
                    assert((attributes_view(v@)[i as int]).key == key@);
                }
                return None;
            },
            KeyCmp::Greater => {
                proof {
                    assert forall|j: int| i <= j < n implies key_lt(
                        key@,
                        (#[trigger] attributes_view(v@)[j]).key,
                    ) by {
                        if j > i {
                            lemma_key_lt_transitive(
                                key@,
                                attributes_view(v@)[i as int].key,
                                attributes_view(v@)[j].key,
                            );
                        }
                    }
                }
                return Some(i);
            },
        }
    }
    Some(n)
}

/// Sort an attribute list by key, refusing duplicate keys.
pub fn build_attributes(attrs: &Vec<Attribute>) -> (r: Result<Vec<Attribute>, Cw721ContractError>)
    ensures
        match r {
            Ok(v) => {
                &&& attributes_sorted(attributes_view(v@))
                &&& attribute_keys_unique(attributes_view(attrs@))
                &&& (forall|x: AttributeV|
                    #[trigger] attributes_view(v@).contains(x) <==> attributes_view(
                        attrs@,
                    ).contains(x))
            },
            Err(e) => {
                &&& e == Cw721ContractError::InvalidInput
                &&& !attribute_keys_unique(attributes_view(attrs@))
            },
        },
{
    let ghost full = attributes_view(attrs@);
    let mut out: Vec<Attribute> = Vec::new();
    let n = attrs.len();
    let mut j: usize = 0;
    proof {
        assert(attributes_view(out@) =~= Seq::<AttributeV>::empty());
        assert(full.subrange(0, 0) =~= Seq::<AttributeV>::empty());
    }
    while j < n
        invariant
            j <= n,
            n == attrs@.len(),
            full == attributes_view(attrs@),
            full.len() == n,
            attributes_sorted(attributes_view(out@)),
            attribute_keys_unique(full.subrange(0, j as int)),
            forall|x: AttributeV|
                #[trigger] attributes_view(out@).contains(x) <==> full.subrange(
                    0,
                    j as int,
                ).contains(x),
        decreases n - j,
    {
        let ghost pre = full.subrange(0, j as int);
        let ghost pre1 = full.subrange(0, j as int + 1);
        let ghost cur = full[j as int];
        proof {
            assert(cur == attrs@[j as int]@);
            assert forall|x: AttributeV| #[trigger] pre1.contains(x) implies (pre.contains(x) || x
                == cur) by {
                let m = choose|m: int| 0 <= m < pre1.len() && pre1[m] == x;
                if m < j {
                    assert(pre[m] == x);
                }
            }
            assert forall|x: AttributeV| pre.contains(x) implies #[trigger] pre1.contains(x) by {
                let m = choose|m: int| 0 <= m < pre.len() && pre[m] == x;
                assert(pre1[m] == x);
            }
            assert(pre1[j as int] == cur);
            assert(pre1.contains(cur));
        }
        match attribute_insert_pos(&out, attrs[j].key.as_str()) {
            None => {
                proof {
                    let ov = attributes_view(out@);
                    let m = choose|m: int| 0 <= m < ov.len() && (#[trigger] ov[m]).key == cur.key;
                    assert(ov.contains(ov[m]));
                    assert(pre.contains(ov[m]));
                    let p = choose|p: int| 0 <= p < pre.len() && pre[p] == ov[m];
                    assert(full[p] == ov[m]);
                    assert(full[p].key == full[j as int].key);
                    assert(!attribute_keys_unique(full));
                }
                return Err(Cw721ContractError::InvalidInput);
            },
            Some(p) => {
                let ghost out0 = out@;
                let ghost ov0 = attributes_view(out@);
                let na = Attribute { key: attrs[j].key.clone(), value: attrs[j].value.clone() };
                let ghost nav = na@;
                out.insert(p, na);
                proof {
                    assert(nav == cur);
                    assert(exists|x: Attribute|
                        out@ == #[trigger] out0.insert(p as int, x) && x@ == nav);
                    lemma_map_values_insert::<Attribute>(out0, out@, p as int, nav);
                    ov0.insert_ensures(p as int, nav);
                    assert(attributes_view(out@) =~= ov0.insert(p as int, nav));
                    lemma_attributes_sorted_insert(ov0, p as int, nav);
                    let ov1 = attributes_view(out@);
                    // membership after the insertion
                    assert forall|x: AttributeV| #[trigger] ov1.contains(x) implies
                        pre1.contains(x) by {
                        let m = choose|m: int| 0 <= m < ov1.len() && ov1[m] == x;
                        if m == p {
                            assert(x == cur);
                        } else {
                            let m0 = if m < p {
                                m
                            } else {
                                m - 1
                            };
                            if m > p {
                                assert(ov1[(m - 1) + 1] == ov0[m - 1]);
                            }
                            assert(ov0[m0] == x);
                            assert(ov0.contains(x));
                            assert(pre.contains(x));
                        }
                    }
                    assert forall|x: AttributeV| #[trigger] pre1.contains(x) implies ov1.contains(
                        x,
                    ) by {
                        if pre.contains(x) {
                            assert(ov0.contains(x));
                            let m = choose|m: int| 0 <= m < ov0.len() && ov0[m] == x;
                            let m1 = if m < p {
                                m
                            } else {
                                m + 1
                            };
                            if m >= p {
                                assert(ov1[m + 1] == ov0[m]);
                            }
                            assert(ov1[m1] == x);
                        } else {
                            assert(x == cur);
                            assert(ov1[p as int] == cur);
                        }
                    }
                    // the prefix keys stay pairwise distinct
                    assert(attribute_keys_unique(pre1)) by {
                        assert forall|a: int, b: int|
                            0 <= a && a < b && b < pre1.len() implies (#[trigger] pre1[a]).key != (
                        #[trigger] pre1[b]).key by {
                            if b == j {
                                assert(pre1[a] == pre[a]);
                                assert(pre.contains(pre[a]));
                                assert(ov0.contains(pre[a]));
                                let m = choose|m: int| 0 <= m < ov0.len() && ov0[m] == pre[a];
                                if pre1[a].key == cur.key {
                                    assert(key_lt(ov0[m].key, cur.key) || key_lt(
                                        cur.key,
                                        ov0[m].key,
                                    ));
                                    lemma_key_lt_irreflexive(cur.key);
                                    assert(false);
                                }
                            } else {
                                assert(pre1[a] == pre[a] && pre1[b] == pre[b]);
                            }
                        }
                    }
                }
            },
        }
        j = j + 1;
    }
    proof {
        assert(full.subrange(0, n as int) =~= full);
    }
    Ok(out)
}

/// The initial owner of a role slot: the given address, or the caller.
pub open spec fn role_or(o: Option<String>, fallback: Seq<char>) -> Option<Seq<char>> {
    match o {
        Some(s) => Some(s@),
        None => Some(fallback),
    }
}

impl Cw721Contract {
    /// Create the initial state: no tokens, no operators, the given
    /// collection metadata and attribute list, the minter and creator
    /// roles filled (with the caller as the default), and the optional
    /// withdraw address. Duplicate attribute keys are refused.
    pub fn instantiate(msg: Cw721InstantiateMsg, sender: &str, block: &BlockInfo) -> (r: Result<
        Cw721Contract,
        Cw721ContractError,
    >)
        ensures
            match r {
                Ok(c) => {
                    &&& c@.wf()
                    &&& c@.tokens == Seq::<TokenV>::empty()
                    &&& c@.operators == Seq::<OperatorV>::empty()
                    &&& c@.num_tokens == 0
                    &&& c@.collection.name == msg.name@
                    &&& c@.collection.symbol == msg.symbol@
                    &&& c@.collection.updated_at == block.time
                    &&& attributes_sorted(c@.attributes)
                    &&& (forall|x: AttributeV|
                        #[trigger] c@.attributes.contains(x) <==> attributes_view(
                            msg.collection_metadata_extension@,
                        ).contains(x))
                    &&& c@.minter.owner == role_or(msg.minter, sender@)
                    &&& c@.minter.pending_owner is None
                    &&& c@.minter.pending_expiry is None
                    &&& c@.creator.owner == role_or(msg.creator, sender@)
                    &&& c@.creator.pending_owner is None
                    &&& c@.creator.pending_expiry is None
                    &&& c@.withdraw_address == opt_str_view(msg.withdraw_address)
                },
                Err(e) => {
                    &&& e == Cw721ContractError::InvalidInput
                    &&& !attribute_keys_unique(attributes_view(msg.collection_metadata_extension@))
                },
            },
    {
        let built = match build_attributes(&msg.collection_metadata_extension) {
            Ok(v) => v,
            Err(e) => {
                return Err(e);
            },
        };
        let minter_owner = match msg.minter {
            Some(m) => m,
            None => sender.to_owned(),
        };
        let creator_owner = match msg.creator {
            Some(c) => c,
            None => sender.to_owned(),
        };
        let c = Cw721Contract {
            tokens: Vec::new(),
            owner_index: Vec::new(),
            operators: Vec::new(),
            num_tokens: 0,
            collection_metadata: CollectionMetadata {
                name: msg.name,
                symbol: msg.symbol,
                updated_at: block.time,
            },
            collection_attributes: built,
            minter_ownership: Ownership {
                owner: Some(minter_owner),
                pending_owner: None,
                pending_expiry: None,
            },
            creator_ownership: Ownership {
                owner: Some(creator_owner),
                pending_owner: None,
                pending_expiry: None,
            },
            withdraw_address: msg.withdraw_address,
        };
        proof {
            assert(c@.tokens =~= Seq::<TokenV>::empty());
            assert(c@.operators =~= Seq::<OperatorV>::empty());
            assert(c@.owner_index =~= Seq::<(Seq<char>, Seq<char>)>::empty());
            assert(c@.wf());
        }
        Ok(c)
    }
}

/// The record after a metadata update: a new uri, everything else kept.
pub open spec fn relabeled_token(t: TokenV, uri: Option<Seq<char>>) -> TokenV {
    TokenV { token_uri: uri, ..t }
}

impl Cw721Contract {
    /// Move a token to a contract and return the receipt to hand it; the
    /// rules and effects are those of a transfer.
    pub fn send_nft(
        &mut self,
        sender: &str,
        contract: String,
        token_id: String,
        msg: Vec<u8>,
        block: &BlockInfo,
    ) -> (r: Result<Cw721ReceiveMsg, Cw721ContractError>)
        requires
            old(self)@.wf(),
        ensures
            final(self)@.wf(),
            r is Ok <==> (old(self)@.has_token(token_id@) && old(self)@.can_send(
                sender@,
                token_id@,
                *block,
            )),
            r == Err::<Cw721ReceiveMsg, Cw721ContractError>(Cw721ContractError::NotFound) <==> !old(
                self,
            )@.has_token(token_id@),
            r == Err::<Cw721ReceiveMsg, Cw721ContractError>(Cw721ContractError::Unauthorized) <==> (
            old(self)@.has_token(token_id@) && !old(self)@.can_send(sender@, token_id@, *block)),
            r matches Ok(m) ==> transfer_post(old(self)@, final(self)@, token_id@, contract@)
                && m.sender@ == sender@ && m.token_id@ == token_id@ && m.msg@ == msg@,
            r is Err ==> *final(self) == *old(self),
    {
        let id_for_receipt = token_id.clone();
        match self.transfer_nft(sender, contract, token_id, block) {
            Ok(()) => Ok(
                Cw721ReceiveMsg { sender: sender.to_owned(), token_id: id_for_receipt, msg },
            ),
            Err(e) => Err(e),
        }
    }

    /// The creator replaces one token's uri and payload; ownership and
    /// approvals stand still.
    pub fn update_nft_info(
        &mut self,
        sender: &str,
        token_id: &str,
        token_uri: Option<String>,
        extension: MetadataExt,
    ) -> (r: Result<(), Cw721ContractError>)
        requires
            old(self)@.wf(),
        ensures
            final(self)@.wf(),
            r is Ok <==> (old(self)@.creator.owner == Some(sender@) && old(self)@.has_token(
                token_id@,
            )),
            r == Err::<(), Cw721ContractError>(Cw721ContractError::Unauthorized) <==> old(
                self,
            )@.creator.owner != Some(sender@),
            r == Err::<(), Cw721ContractError>(Cw721ContractError::NotFound) <==> (old(
                self,
            )@.creator.owner == Some(sender@) && !old(self)@.has_token(token_id@)),
            r is Ok ==> token_update_post(
                old(self)@,
                final(self)@,
                token_id@,
                relabeled_token(old(self)@.token_at(token_id@), opt_str_view(token_uri)),
            ),
            r is Err ==> *final(self) == *old(self),
    {
        if !slot_owner_is(&self.creator_ownership, sender) {
            return Err(Cw721ContractError::Unauthorized);
        }
        let i = match self.find_token(token_id) {
            None => {
                return Err(Cw721ContractError::NotFound);
            },
            Some(i) => i,
        };
        proof {
            lemma_token_at_is(self@, token_id@, i as int);
        }
        let ghost s0 = self@;
        let ghost toks0 = self.tokens@;
        let ghost t0 = s0.token_at(token_id@);
        let ghost t1 = relabeled_token(t0, opt_str_view(token_uri));
        let mut entry = self.tokens.remove(i);
        entry.info.token_uri = token_uri;
        entry.info.extension = extension;
        let ghost ev = entry@;
        self.tokens.insert(i, entry);
        proof {
            assert(ev == t1);
            assert(exists|x: TokenEntry|
                self.tokens@ == #[trigger] toks0.remove(i as int).insert(i as int, x) && x@ == ev);
            lemma_map_values_remove::<TokenEntry>(toks0, i as int);
            lemma_map_values_insert::<TokenEntry>(toks0.remove(i as int), self.tokens@, i as int, ev);
            lemma_remove_insert_is_update(s0.tokens, i as int, t1);
            assert(self@.tokens =~= s0.tokens.update(i as int, t1));
            assert(approvals_unique_in(t1.approvals));
            lemma_wf_update_token(s0, self@, i as int, t1);
            assert(token_update_post(s0, self@, token_id@, t1));
        }
        Ok(())
    }

    /// The creator replaces parts of the collection metadata: a given name
    /// or symbol takes the old one's place, a given extension replaces the
    /// attribute list whole, and the record is stamped with the block
    /// time. Duplicate attribute keys are refused.
    pub fn update_collection_metadata(
        &mut self,
        sender: &str,
        msg: CollectionNftMetadataMsg,
        block: &BlockInfo,
    ) -> (r: Result<(), Cw721ContractError>)
        requires
            old(self)@.wf(),
        ensures
            final(self)@.wf(),
            r is Ok <==> (old(self)@.creator.owner == Some(sender@) && (match msg.extension {
                Some(a) => attribute_keys_unique(attributes_view(a@)),
                None => true,
            })),
            r == Err::<(), Cw721ContractError>(Cw721ContractError::Unauthorized) <==> old(
                self,
            )@.creator.owner != Some(sender@),
            r == Err::<(), Cw721ContractError>(Cw721ContractError::InvalidInput) <==> (old(
                self,
            )@.creator.owner == Some(sender@) && (match msg.extension {
                Some(a) => !attribute_keys_unique(attributes_view(a@)),
                None => false,
            })),
            r is Ok ==> final(self)@.collection.name == (match msg.name {
                Some(nm) => nm@,
                None => old(self)@.collection.name,
            }),
            r is Ok ==> final(self)@.collection.symbol == (match msg.symbol {
                Some(sy) => sy@,
                None => old(self)@.collection.symbol,
            }),
            r is Ok ==> final(self)@.collection.updated_at == block.time,
            r is Ok ==> (match msg.extension {
                Some(a) => attributes_sorted(final(self)@.attributes) && (forall|x: AttributeV|
                    #[trigger] final(self)@.attributes.contains(x) <==> attributes_view(
                        a@,
                    ).contains(x)),
                None => final(self)@.attributes == old(self)@.attributes,
            }),
            r is Ok ==> (final(self)@ == StateV {
                collection: final(self)@.collection,
                attributes: final(self)@.attributes,
                ..old(self)@
            }),
            r is Err ==> *final(self) == *old(self),
    {
        if !slot_owner_is(&self.creator_ownership, sender) {
            return Err(Cw721ContractError::Unauthorized);
        }
        let ghost s0 = self@;
        let new_attrs = match &msg.extension {
            Some(a) => match build_attributes(a) {
                Ok(v) => Some(v),
                Err(e) => {
                    return Err(e);
                },
            },
            None => None,
        };
        match msg.name {
            Some(nm) => {
                self.collection_metadata.name = nm;
            },
            None => {},
        }
        match msg.symbol {
            Some(sy) => {
                self.collection_metadata.symbol = sy;
            },
            None => {},
        }
        self.collection_metadata.updated_at = block.time;
        match new_attrs {
            Some(v) => {
                self.collection_attributes = v;
            },
            None => {},
        }
        proof {
            lemma_wf_same_records(s0, self@);
        }
        Ok(())
    }

    /// The creator sets where withdrawn funds are paid out.
    pub fn set_withdraw_address(&mut self, sender: &str, address: String) -> (r: Result<
        (),
        Cw721ContractError,
    >)
        requires
            old(self)@.wf(),
        ensures
            final(self)@.wf(),
            r is Ok <==> old(self)@.creator.owner == Some(sender@),
            r is Err ==> r == Err::<(), Cw721ContractError>(Cw721ContractError::Unauthorized),
            r is Ok ==> (final(self)@ == StateV {
                withdraw_address: Some(address@),
                ..old(self)@
            }),
            r is Err ==> *final(self) == *old(self),
    {
        if !slot_owner_is(&self.creator_ownership, sender) {
            return Err(Cw721ContractError::Unauthorized);
        }
        let ghost s0 = self@;
        self.withdraw_address = Some(address);
        proof {
            lemma_wf_same_records(s0, self@);
        }
        Ok(())
    }

    /// The creator clears the payout address; an error if none is set.
    pub fn remove_withdraw_address(&mut self, sender: &str) -> (r: Result<(), Cw721ContractError>)
        requires
            old(self)@.wf(),
        ensures
            final(self)@.wf(),
            r is Ok <==> (old(self)@.creator.owner == Some(sender@) && old(
                self,
            )@.withdraw_address is Some),
            r == Err::<(), Cw721ContractError>(Cw721ContractError::Unauthorized) <==> old(
                self,
            )@.creator.owner != Some(sender@),
            r == Err::<(), Cw721ContractError>(Cw721ContractError::NotFound) <==> (old(
                self,
            )@.creator.owner == Some(sender@) && old(self)@.withdraw_address is None),
            r is Ok ==> (final(self)@ == StateV { withdraw_address: None, ..old(self)@ }),
            r is Err ==> *final(self) == *old(self),
    {
        if !slot_owner_is(&self.creator_ownership, sender) {
            return Err(Cw721ContractError::Unauthorized);
        }
        match &self.withdraw_address {
            None => {
                return Err(Cw721ContractError::NotFound);
            },
            Some(_) => {},
        }
        let ghost s0 = self@;
        self.withdraw_address = None;
        proof {
            lemma_wf_same_records(s0, self@);
        }
        Ok(())
    }

    /// Pay the given amount out to the set withdraw address. Anyone may
    /// ask; the funds go to the stored address, never to the caller. The
    /// state does not change.
    pub fn withdraw_funds(&self, amount: Coin) -> (r: Result<ResponseMsg, Cw721ContractError>)
        ensures
            r is Ok <==> self@.withdraw_address is Some,
            r is Err ==> r == Err::<ResponseMsg, Cw721ContractError>(Cw721ContractError::NotFound),
            r matches Ok(m) ==> (m matches ResponseMsg::BankSend { to_address, amount: amt }
                && Some(to_address@) == self@.withdraw_address && amt.denom@ == amount.denom@
                && amt.amount == amount.amount),
    {
        match &self.withdraw_address {
            None => Err(Cw721ContractError::NotFound),
            Some(a) => Ok(ResponseMsg::BankSend { to_address: a.clone(), amount }),
        }
    }
}

/// Law: minting a token and then burning it restores the whole state,
/// the token count included; nothing of the token stays in the records,
/// the owner index or any approval structure.
pub proof fn lemma_mint_burn_round_trip(
    s0: StateV,
    s1: StateV,
    s2: StateV,
    id: Seq<char>,
    owner: Seq<char>,
    uri: Option<Seq<char>>,
)
    requires
        s0.wf(),
        s1.wf(),
        !s0.has_token(id),
        mint_post(s0, s1, id, owner, uri),
        burn_post(s1, s2, id),
    ensures
        s2 == s0,
        s2.num_tokens == s0.num_tokens,
        !s2.has_token(id),
        forall|ow: Seq<char>| !#[trigger] s2.index_contains(ow, id),
{
    let tv = minted_token(id, owner, uri);
    let p = choose|p: int|
        0 <= p <= s0.tokens.len() && s1.tokens == #[trigger] s0.tokens.insert(p, tv);
    let q = choose|q: int|
        0 <= q <= s0.owner_index.len() && s1.owner_index == #[trigger] s0.owner_index.insert(
            q,
            (owner, id),
        );
    s0.tokens.insert_ensures(p, tv);
    s0.owner_index.insert_ensures(q, (owner, id));
    assert(s1.tokens[p] == tv);
    lemma_token_at_is(s1, id, p);
    assert(s1.owner_index[q] == (owner, id));
    lemma_index_at_is(s1, owner, id, q);
    s1.tokens.remove_ensures(p);
    s1.owner_index.remove_ensures(q);
    assert(s2.tokens =~= s0.tokens) by {
        assert forall|i: int| 0 <= i < s0.tokens.len() implies s2.tokens[i] == s0.tokens[i] by {
            if i >= p {
                assert(s2.tokens[i] == s1.tokens[i + 1]);
                assert(s1.tokens[i + 1] == s0.tokens[i]);
            } else {
                assert(s2.tokens[i] == s1.tokens[i]);
            }
        }
    }
    assert(s2.owner_index =~= s0.owner_index) by {
        assert forall|k: int|
            0 <= k < s0.owner_index.len() implies s2.owner_index[k] == s0.owner_index[k] by {
            if k >= q {
                assert(s2.owner_index[k] == s1.owner_index[k + 1]);
                assert(s1.owner_index[k + 1] == s0.owner_index[k]);
            } else {
                assert(s2.owner_index[k] == s1.owner_index[k]);
            }
        }
    }
    assert(s2 == s0);
    assert forall|ow: Seq<char>| !#[trigger] s2.index_contains(ow, id) by {
        if s2.index_contains(ow, id) {
            let k = choose|k: int|
                0 <= k < s2.owner_index.len() && #[trigger] s2.owner_index[k] == (ow, id);
            assert(s0.has_token(s0.owner_index[k].1));
        }
    }
}

/// Law: after any successful transfer or send, the token's stored
/// approval list is empty, so even a query that asks for expired entries
/// answers with none.
pub proof fn lemma_approvals_reset_on_transfer(
    s0: StateV,
    s1: StateV,
    id: Seq<char>,
    recipient: Seq<char>,
    include_expired: bool,
    b: BlockInfo,
)
    requires
        s0.wf(),
        s1.wf(),
        s0.has_token(id),
        transfer_post(s0, s1, id, recipient),
    ensures
        s1.has_token(id),
        s1.token_at(id).approvals == Seq::<ApprovalV>::empty(),
        crate::query::approvals_filtered(s1.token_at(id).approvals, include_expired, b)
            == Seq::<ApprovalV>::empty(),
{
    let i = s0.token_index(id);
    let tv = transferred_token(s0.token_at(id), recipient);
    assert(s1.tokens == s0.tokens.update(i, tv));
    assert(s1.tokens[i] == tv);
    lemma_token_at_is(s1, id, i);
}

/// Build a copy of an approval list without any entry for `spender`.
fn approvals_drop_spender(approvals: &Vec<Approval>, spender: &str) -> (out: Vec<Approval>)
    ensures
        approvals_view(out@) == approvals_without(approvals_view(approvals@), spender@),
{
    let ghost avs = approvals_view(approvals@);
    let mut out: Vec<Approval> = Vec::new();
    let n = approvals.len();
    let mut j: usize = 0;
    proof {
        assert(approvals_view(out@) =~= Seq::<ApprovalV>::empty());
        assert(avs.subrange(0, 0) =~= Seq::<ApprovalV>::empty());
    }
    while j < n
        invariant
            j <= n,
            n == approvals@.len(),
            avs == approvals_view(approvals@),
            avs.len() == n,
            approvals_view(out@) == approvals_without(avs.subrange(0, j as int), spender@),
        decreases n - j,
    {
        let ghost pre = avs.subrange(0, j as int);
        let ghost pre1 = avs.subrange(0, j as int + 1);
        proof {
            assert(pre1.drop_last() =~= pre);
            assert(pre1.last() == avs[j as int]);
        }
        if !str_eq(approvals[j].spender.as_str(), spender) {
            let ghost out0 = out@;
            let na = Approval {
                spender: approvals[j].spender.clone(),
                expires: approvals[j].expires,
            };
            let ghost nav = na@;
            out.push(na);
            proof {
                assert(nav == avs[j as int]);
                assert(approvals_view(out@) =~= approvals_view(out0).push(nav));
            }
        }
        j = j + 1;
    }
    proof {
        assert(avs.subrange(0, n as int) =~= avs);
    }
    out
}

} // verus!
