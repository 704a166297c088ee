//! The read-only operations: single records, filtered approval lists, and
//! lexicographically bounded, limited listings.
//!
//! Every query takes the state and, where expiration matters, the block
//! context; none mutates. Pagination follows one contract: the page size
//! is the default when absent and never above the cap, `start_after` is an
//! exclusive lower bound, and results come in ascending key order.

use vstd::prelude::*;

use crate::error::Cw721ContractError;
use crate::expiration::{spec_expired, BlockInfo, Expiration};
use crate::keys::{key_lt, lemma_key_lt_irreflexive, str_eq, str_lt};
use crate::msg::{
    AllNftInfoResponse, ApprovalResponse, ApprovalsResponse, CollectionMetadataAndExtension,
    MinterResponse, NftInfoResponse, NumTokensResponse, OperatorResponse, OperatorsResponse,
    OwnerOfResponse, TokensResponse,
};
use crate::state::{
    approvals_view, attributes_view, index_sorted, lemma_operator_at_is, lemma_token_at_is,
    opt_str_view, Approval, ApprovalV, Attribute, CollectionMetadata, Cw721Contract, NftInfo,
    OperatorV, Ownership, TokenV,
};

verus! {

/// The page size used when a query names none.
pub const DEFAULT_LIMIT: u32 = 10;

/// The largest page size a query can ask for.
pub const MAX_LIMIT: u32 = 1000;

/// The page size a query runs with: the default when absent, and clamped
/// into `[1, MAX_LIMIT]` otherwise.
pub open spec fn effective_limit(limit: Option<u32>) -> u32 {
    match limit {
        Some(l) => if l < 1 {
            1
        } else if l > MAX_LIMIT {
            MAX_LIMIT
        } else {
            l
        },
        None => DEFAULT_LIMIT,
    }
}

/// Clamp a requested page size.
pub fn effective_limit_exec(limit: Option<u32>) -> (r: u32)
    ensures
        r == effective_limit(limit),
{
    match limit {
        Some(l) => if l < 1 {
            1
        } else if l > MAX_LIMIT {
            MAX_LIMIT
        } else {
            l
        },
        None => DEFAULT_LIMIT,
    }
}

/// Whether `x` lies strictly after the exclusive lower bound.
pub open spec fn after_start(x: Seq<char>, start: Option<Seq<char>>) -> bool {
    match start {
        Some(s) => key_lt(s, x),
        None => true,
    }
}

/// The views of a list of strings.
pub open spec fn strings_view(s: Seq<String>) -> Seq<Seq<char>> {
    s.map_values(|x: String| x@)
}

/// An approval list with the expired entries dropped, unless they are
/// asked for; order kept.
pub open spec fn approvals_filtered(s: Seq<ApprovalV>, include_expired: bool, b: BlockInfo) -> Seq<
    ApprovalV,
>
    decreases s.len(),
{
    if s.len() == 0 {
        Seq::empty()
    } else {
        let rest = approvals_filtered(s.drop_first(), include_expired, b);
        if include_expired || !spec_expired(s[0].expires, b) {
            seq![s[0]] + rest
        } else {
            rest
        }
    }
}

/// The first approval for `spender` that passes the expiration filter.
pub open spec fn find_approval(
    s: Seq<ApprovalV>,
    spender: Seq<char>,
    include_expired: bool,
    b: BlockInfo,
) -> Option<ApprovalV>
    decreases s.len(),
{
    if s.len() == 0 {
        None
    } else if s[0].spender == spender && (include_expired || !spec_expired(s[0].expires, b)) {
        Some(s[0])
    } else {
        find_approval(s.drop_first(), spender, include_expired, b)
    }
}

/// The page of token ids of `owner`: the first `limit` index entries of
/// the owner past the bound, in index (that is, id) order.
pub open spec fn tokens_page(
    s: Seq<(Seq<char>, Seq<char>)>,
    owner: Seq<char>,
    start: Option<Seq<char>>,
    limit: int,
) -> Seq<Seq<char>>
    decreases s.len(),
{
    if s.len() == 0 || limit <= 0 {
        Seq::empty()
    } else if s[0].0 == owner && after_start(s[0].1, start) {
        seq![s[0].1] + tokens_page(s.drop_first(), owner, start, limit - 1)
    } else {
        tokens_page(s.drop_first(), owner, start, limit)
    }
}

/// The page of all token ids: the first `limit` ids past the bound, in id
/// order.
pub open spec fn all_tokens_page(s: Seq<TokenV>, start: Option<Seq<char>>, limit: int) -> Seq<
    Seq<char>,
>
    decreases s.len(),
{
    if s.len() == 0 || limit <= 0 {
        Seq::empty()
    } else if after_start(s[0].token_id, start) {
        seq![s[0].token_id] + all_tokens_page(s.drop_first(), start, limit - 1)
    } else {
        all_tokens_page(s.drop_first(), start, limit)
    }
}

/// The page of an owner's operator grants: the first `limit` grants of the
/// owner past the bound that pass the expiration filter, as approvals, in
/// operator order.
pub open spec fn operators_page(
    s: Seq<OperatorV>,
    owner: Seq<char>,
    start: Option<Seq<char>>,
    include_expired: bool,
    b: BlockInfo,
    limit: int,
) -> Seq<ApprovalV>
    decreases s.len(),
{
    if s.len() == 0 || limit <= 0 {
        Seq::empty()
    } else if s[0].owner == owner && after_start(s[0].operator, start) && (include_expired
        || !spec_expired(s[0].expires, b)) {
        seq![ApprovalV { spender: s[0].operator, expires: s[0].expires }] + operators_page(
            s.drop_first(),
            owner,
            start,
            include_expired,
            b,
            limit - 1,
        )
    } else {
        operators_page(s.drop_first(), owner, start, include_expired, b, limit)
    }
}

/// A copy of one approval, as responses carry it.
pub fn humanize_approval(approval: &Approval) -> (r: Approval)
    ensures
        r@ == approval@,
{
    Approval { spender: approval.spender.clone(), expires: approval.expires }
}

/// The approvals of a record that pass the expiration filter, copied in
/// order.
pub fn humanize_approvals(
    block: &BlockInfo,
    nft_info: &NftInfo,
    include_expired_approval: bool,
) -> (r: Vec<Approval>)
    ensures
        approvals_view(r@) == approvals_filtered(
            approvals_view(nft_info.approvals@),
            include_expired_approval,
            *block,
        ),
{
    let ghost avs = approvals_view(nft_info.approvals@);
    let mut out: Vec<Approval> = Vec::new();
    let n = nft_info.approvals.len();
    let mut j: usize = 0;
    proof {
        assert(approvals_view(out@) =~= Seq::<ApprovalV>::empty());
        assert(avs.subrange(0, n as int) =~= avs);
        assert(Seq::<ApprovalV>::empty() + approvals_filtered(avs, include_expired_approval, *block)
            =~= approvals_filtered(avs, include_expired_approval, *block));
    }
    while j < n
        invariant
            j <= n,
            n == nft_info.approvals@.len(),
            avs == approvals_view(nft_info.approvals@),
            avs.len() == n,
            approvals_view(out@) + approvals_filtered(
                avs.subrange(j as int, n as int),
                include_expired_approval,
                *block,
            ) == approvals_filtered(avs, include_expired_approval, *block),
        decreases n - j,
    {
        let ghost rem = avs.subrange(j as int, n as int);
        proof {
            assert(rem[0] == avs[j as int]);
            assert(rem.drop_first() =~= avs.subrange(j as int + 1, n as int));
        }
        if include_expired_approval || !nft_info.approvals[j].expires.is_expired(block) {
            let ghost out0 = out@;
            out.push(humanize_approval(&nft_info.approvals[j]));
            proof {
                assert(approvals_view(out@) =~= approvals_view(out0).push(avs[j as int]));
                assert(approvals_view(out0).push(avs[j as int]) =~= approvals_view(out0) + seq![
                    avs[j as int],
                ]);
                assert(approvals_view(out@) + approvals_filtered(
                    avs.subrange(j as int + 1, n as int),
                    include_expired_approval,
                    *block,
                ) =~= approvals_filtered(avs, include_expired_approval, *block));
            }
        }
        j = j + 1;
    }
    proof {
        assert(avs.subrange(n as int, n as int) =~= Seq::<ApprovalV>::empty());
        assert(approvals_view(out@) =~= approvals_view(out@) + Seq::<ApprovalV>::empty());
    }
    out
}

/// A copy of one role slot, as responses carry it.
fn clone_slot(o: &Ownership) -> (r: Ownership)
    ensures
        r@ == o@,
{
    Ownership {
        owner: match &o.owner {
            Some(s) => Some(s.clone()),
            None => None,
        },
        pending_owner: match &o.pending_owner {
            Some(s) => Some(s.clone()),
            None => None,
        },
        pending_expiry: o.pending_expiry,
    }
}

/// A copy of an optional string.
fn clone_opt_string(o: &Option<String>) -> (r: Option<String>)
    ensures
        opt_str_view(r) == opt_str_view(*o),
{
    match o {
        Some(s) => Some(s.clone()),
        None => None,
    }
}

impl Cw721Contract {
    /// The owner of a token and its filtered approvals; an error if the
    /// token does not exist.
    pub fn query_owner_of(&self, token_id: &str, include_expired: bool, block: &BlockInfo) -> (r:
        Result<OwnerOfResponse, Cw721ContractError>)
        requires
            self@.wf(),
        ensures
            r is Ok <==> self@.has_token(token_id@),
            r is Err ==> r == Err::<OwnerOfResponse, Cw721ContractError>(
                Cw721ContractError::NotFound,
            ),
            r matches Ok(resp) ==> resp.owner@ == self@.token_at(token_id@).owner
                && approvals_view(resp.approvals@) == approvals_filtered(
                self@.token_at(token_id@).approvals,
                include_expired,
                *block,
            ),
    {
        let i = match self.find_token(token_id) {
            None => {
                return Err(Cw721ContractError::NotFound);
            },
            Some(i) => i,
        };
        proof {
            lemma_token_at_is(self@, token_id@, i as int);
        }
        let approvals = humanize_approvals(block, &self.tokens[i].info, include_expired);
        Ok(OwnerOfResponse { owner: self.tokens[i].info.owner.clone(), approvals })
    }

    /// One token's uri and payload; an error if it does not exist.
    pub fn query_nft_info(&self, token_id: &str) -> (r: Result<NftInfoResponse, Cw721ContractError>)
        requires
            self@.wf(),
        ensures
            r is Ok <==> self@.has_token(token_id@),
            r is Err ==> r == Err::<NftInfoResponse, Cw721ContractError>(
                Cw721ContractError::NotFound,
            ),
            r matches Ok(resp) ==> opt_str_view(resp.token_uri) == self@.token_at(
                token_id@,
            ).token_uri,
    {
        let i = match self.find_token(token_id) {
            None => {
                return Err(Cw721ContractError::NotFound);
            },
            Some(i) => i,
        };
        proof {
            lemma_token_at_is(self@, token_id@, i as int);
        }
        Ok(NftInfoResponse {
            token_uri: clone_opt_string(&self.tokens[i].info.token_uri),
            extension: self.tokens[i].info.extension,
        })
    }

    /// Owner and record of one token in one answer.
    pub fn query_all_nft_info(&self, token_id: &str, include_expired: bool, block: &BlockInfo) -> (r:
        Result<AllNftInfoResponse, Cw721ContractError>)
        requires
            self@.wf(),
        ensures
            r is Ok <==> self@.has_token(token_id@),
            r is Err ==> r == Err::<AllNftInfoResponse, Cw721ContractError>(
                Cw721ContractError::NotFound,
            ),
            r matches Ok(resp) ==> resp.access.owner@ == self@.token_at(token_id@).owner
                && approvals_view(resp.access.approvals@) == approvals_filtered(
                self@.token_at(token_id@).approvals,
                include_expired,
                *block,
            ) && opt_str_view(resp.info.token_uri) == self@.token_at(token_id@).token_uri,
    {
        let access = match self.query_owner_of(token_id, include_expired, block) {
            Ok(a) => a,
            Err(e) => {
                return Err(e);
            },
        };
        let info = match self.query_nft_info(token_id) {
            Ok(i) => i,
            Err(e) => {
                return Err(e);
            },
        };
        Ok(AllNftInfoResponse { access, info })
    }

    /// One spender's approval on a token: the owner counts as permanently
    /// approved; otherwise the stored entry, filtered for expiration.
    pub fn query_approval(
        &self,
        token_id: &str,
        spender: &str,
        include_expired: bool,
        block: &BlockInfo,
    ) -> (r: Result<ApprovalResponse, Cw721ContractError>)
        requires
            self@.wf(),
        ensures
            r is Ok <==> (self@.has_token(token_id@) && (spender@ == self@.token_at(
                token_id@,
            ).owner || find_approval(
                self@.token_at(token_id@).approvals,
                spender@,
                include_expired,
                *block,
            ) is Some)),
            r is Err ==> r == Err::<ApprovalResponse, Cw721ContractError>(
                Cw721ContractError::NotFound,
            ),
            r matches Ok(resp) ==> ((spender@ == self@.token_at(token_id@).owner ==> resp.approval@
                == (ApprovalV { spender: spender@, expires: Expiration::Never })) && (spender@
                != self@.token_at(token_id@).owner ==> Some(resp.approval@) == find_approval(
                self@.token_at(token_id@).approvals,
                spender@,
                include_expired,
                *block,
            ))),
    {
        let i = match self.find_token(token_id) {
            None => {
                return Err(Cw721ContractError::NotFound);
            },
            Some(i) => i,
        };
        proof {
            lemma_token_at_is(self@, token_id@, i as int);
        }
        if str_eq(self.tokens[i].info.owner.as_str(), spender) {
            return Ok(ApprovalResponse {
                approval: Approval {
                    spender: self.tokens[i].info.owner.clone(),
                    expires: Expiration::Never,
                },
            });
        }
        let ghost avs = self@.token_at(token_id@).approvals;
        let n = self.tokens[i].info.approvals.len();
        let mut j: usize = 0;
        proof {
            assert(avs.subrange(0, n as int) =~= avs);
        }
        while j < n
            invariant
                j <= n,
                self@.wf(),
                i < self@.tokens.len(),
                self@.tokens[i as int].token_id == token_id@,
                spender@ != self@.tokens[i as int].owner,
                avs == self@.tokens[i as int].approvals,
                n == avs.len(),
                find_approval(avs, spender@, include_expired, *block) == find_approval(
                    avs.subrange(j as int, n as int),
                    spender@,
                    include_expired,
                    *block,
                ),
            decreases n - j,
        {
            let ghost rem = avs.subrange(j as int, n as int);
            proof {
                assert(rem[0] == avs[j as int]);
                assert(rem.drop_first() =~= avs.subrange(j as int + 1, n as int));
            }
            let matches_spender = str_eq(
                self.tokens[i].info.approvals[j].spender.as_str(),
                spender,
            );
            let passes = include_expired || !self.tokens[i].info.approvals[j].expires.is_expired(
                block,
            );
            if matches_spender && passes {
                let found = humanize_approval(&self.tokens[i].info.approvals[j]);
                proof {
                    lemma_token_at_is(self@, token_id@, i as int);
                    assert(rem[0] == avs[j as int]);
                    assert(rem[0].spender == spender@);
                    assert(find_approval(rem, spender@, include_expired, *block) == Some(rem[0]));
                    assert(find_approval(
                        self@.token_at(token_id@).approvals,
                        spender@,
                        include_expired,
                        *block,
                    ) == Some(avs[j as int]));
                    assert(found@ == avs[j as int]);
                }
                return Ok(ApprovalResponse { approval: found });
            }
            j = j + 1;
        }
        proof {
            assert(avs.subrange(n as int, n as int) =~= Seq::<ApprovalV>::empty());
        }
        Err(Cw721ContractError::NotFound)
    }

    /// All approvals a token has, filtered for expiration.
    pub fn query_approvals(&self, token_id: &str, include_expired: bool, block: &BlockInfo) -> (r:
        Result<ApprovalsResponse, Cw721ContractError>)
        requires
            self@.wf(),
        ensures
            r is Ok <==> self@.has_token(token_id@),
            r is Err ==> r == Err::<ApprovalsResponse, Cw721ContractError>(
                Cw721ContractError::NotFound,
            ),
            r matches Ok(resp) ==> approvals_view(resp.approvals@) == approvals_filtered(
                self@.token_at(token_id@).approvals,
                include_expired,
                *block,
            ),
    {
        let i = match self.find_token(token_id) {
            None => {
                return Err(Cw721ContractError::NotFound);
            },
            Some(i) => i,
        };
        proof {
            lemma_token_at_is(self@, token_id@, i as int);
        }
        Ok(ApprovalsResponse {
            approvals: humanize_approvals(block, &self.tokens[i].info, include_expired),
        })
    }

    /// One operator grant of an owner, filtered for expiration.
    pub fn query_operator(
        &self,
        owner: &str,
        operator: &str,
        include_expired: bool,
        block: &BlockInfo,
    ) -> (r: Result<OperatorResponse, Cw721ContractError>)
        requires
            self@.wf(),
        ensures
            r is Ok <==> (self@.has_operator(owner@, operator@) && (include_expired
                || !spec_expired(self@.operator_at(owner@, operator@).expires, *block))),
            r is Err ==> r == Err::<OperatorResponse, Cw721ContractError>(
                Cw721ContractError::NotFound,
            ),
            r matches Ok(resp) ==> resp.approval@ == (ApprovalV {
                spender: operator@,
                expires: self@.operator_at(owner@, operator@).expires,
            }),
    {
        let p = match self.find_operator(owner, operator) {
            None => {
                return Err(Cw721ContractError::NotFound);
            },
            Some(p) => p,
        };
        proof {
            lemma_operator_at_is(self@, owner@, operator@, p as int);
        }
        if !include_expired && self.operators[p].expires.is_expired(block) {
            return Err(Cw721ContractError::NotFound);
        }
        Ok(OperatorResponse {
            approval: Approval {
                spender: self.operators[p].operator.clone(),
                expires: self.operators[p].expires,
            },
        })
    }

    /// The running token count.
    pub fn query_num_tokens(&self) -> (r: NumTokensResponse)
        ensures
            r.count == self@.num_tokens,
    {
        NumTokensResponse { count: self.num_tokens }
    }

    /// Who holds the minter role.
    pub fn query_minter_ownership(&self) -> (r: Ownership)
        ensures
            r@ == self@.minter,
    {
        clone_slot(&self.minter_ownership)
    }

    /// Who holds the creator role.
    pub fn query_creator_ownership(&self) -> (r: Ownership)
        ensures
            r@ == self@.creator,
    {
        clone_slot(&self.creator_ownership)
    }

    /// The minter as a bare address.
    pub fn query_minter(&self) -> (r: MinterResponse)
        ensures
            opt_str_view(r.minter) == self@.minter.owner,
    {
        MinterResponse { minter: clone_opt_string(&self.minter_ownership.owner) }
    }

    /// The collection metadata record.
    pub fn query_collection_metadata(&self) -> (r: CollectionMetadata)
        ensures
            r@ == self@.collection,
    {
        CollectionMetadata {
            name: self.collection_metadata.name.clone(),
            symbol: self.collection_metadata.symbol.clone(),
            updated_at: self.collection_metadata.updated_at,
        }
    }

    /// The collection metadata extension: the whole attribute list, in key
    /// order.
    pub fn query_collection_metadata_extension(&self) -> (r: Vec<Attribute>)
        ensures
            attributes_view(r@) == self@.attributes,
    {
        let n = self.collection_attributes.len();
        let mut out: Vec<Attribute> = Vec::new();
        let mut j: usize = 0;
        proof {
            assert(attributes_view(out@) =~= self@.attributes.subrange(0, 0));
        }
        while j < n
            invariant
                j <= n,
                n == self@.attributes.len(),
                attributes_view(out@) == self@.attributes.subrange(0, j as int),
            decreases n - j,
        {
            let ghost out0 = out@;
            out.push(
                Attribute {
                    key: self.collection_attributes[j].key.clone(),
                    value: self.collection_attributes[j].value.clone(),
                },
            );
            proof {
                assert(attributes_view(out@) =~= attributes_view(out0).push(
                    self@.attributes[j as int],
                ));
                assert(attributes_view(out@) =~= self@.attributes.subrange(0, j as int + 1));
            }
            j = j + 1;
        }
        proof {
            assert(self@.attributes.subrange(0, n as int) =~= self@.attributes);
        }
        out
    }

    /// The collection metadata and its attribute list in one answer.
    pub fn query_collection_metadata_and_extension(&self) -> (r: CollectionMetadataAndExtension)
        ensures
            r.name@ == self@.collection.name,
            r.symbol@ == self@.collection.symbol,
            r.updated_at == self@.collection.updated_at,
            attributes_view(r.extension@) == self@.attributes,
    {
        CollectionMetadataAndExtension {
            name: self.collection_metadata.name.clone(),
            symbol: self.collection_metadata.symbol.clone(),
            updated_at: self.collection_metadata.updated_at,
            extension: self.query_collection_metadata_extension(),
        }
    }

    /// Where withdrawn funds go, if anywhere.
    pub fn query_withdraw_address(&self) -> (r: Option<String>)
        ensures
            opt_str_view(r) == self@.withdraw_address,
    {
        clone_opt_string(&self.withdraw_address)
    }

    /// A page of the token ids of `owner`, in ascending id order.
    pub fn query_tokens(&self, owner: &str, start_after: Option<String>, limit: Option<u32>) -> (r:
        TokensResponse)
        requires
            self@.wf(),
        ensures
            strings_view(r.tokens@) == tokens_page(
                self@.owner_index,
                owner@,
                opt_str_view(start_after),
                effective_limit(limit) as int,
            ),
    {
        let lim = effective_limit_exec(limit);
        let ghost idx = self@.owner_index;
        let ghost startv = opt_str_view(start_after);
        let n = self.owner_index.len();
        let mut out: Vec<String> = Vec::new();
        let mut count: u32 = 0;
        let mut i: usize = 0;
        proof {
            assert(strings_view(out@) =~= Seq::<Seq<char>>::empty());
            assert(idx.subrange(0, n as int) =~= idx);
            assert(Seq::<Seq<char>>::empty() + tokens_page(idx, owner@, startv, lim as int)
                =~= tokens_page(idx, owner@, startv, lim as int));
        }
        while i < n && count < lim
            invariant
                i <= n,
                n == idx.len(),
                idx == self@.owner_index,
                startv == opt_str_view(start_after),
                count as int == out@.len(),
                count <= lim,
                strings_view(out@) + tokens_page(
                    idx.subrange(i as int, n as int),
                    owner@,
                    startv,
                    lim - count,
                ) == tokens_page(idx, owner@, startv, lim as int),
            decreases n - i,
        {
            let ghost rem = idx.subrange(i as int, n as int);
            proof {
                assert(rem[0] == idx[i as int]);
                assert(rem.drop_first() =~= idx.subrange(i as int + 1, n as int));
            }
            let owner_eq = str_eq(self.owner_index[i].owner.as_str(), owner);
            let after = match &start_after {
                Some(s) => str_lt(s.as_str(), self.owner_index[i].token_id.as_str()),
                None => true,
            };
            if owner_eq && after {
                let ghost out0 = out@;
                out.push(self.owner_index[i].token_id.clone());
                count = count + 1;
                proof {
                    assert(strings_view(out@) =~= strings_view(out0).push(idx[i as int].1));
                    assert(strings_view(out0).push(idx[i as int].1) =~= strings_view(out0) + seq![
                        idx[i as int].1,
                    ]);
                    assert(strings_view(out@) + tokens_page(
                        idx.subrange(i as int + 1, n as int),
                        owner@,
                        startv,
                        lim - count,
                    ) =~= tokens_page(idx, owner@, startv, lim as int));
                }
            }
            i = i + 1;
        }
        proof {
            if i == n {
                assert(idx.subrange(n as int, n as int) =~= Seq::<(Seq<char>, Seq<char>)>::empty());
            }
            assert(tokens_page(idx.subrange(i as int, n as int), owner@, startv, lim - count)
                =~= Seq::<Seq<char>>::empty());
            assert(strings_view(out@) =~= strings_view(out@) + Seq::<Seq<char>>::empty());
        }
        TokensResponse { tokens: out }
    }

    /// A page of all token ids, in ascending id order.
    pub fn query_all_tokens(&self, start_after: Option<String>, limit: Option<u32>) -> (r:
        TokensResponse)
        requires
            self@.wf(),
        ensures
            strings_view(r.tokens@) == all_tokens_page(
                self@.tokens,
                opt_str_view(start_after),
                effective_limit(limit) as int,
            ),
    {
        let lim = effective_limit_exec(limit);
        let ghost toks = self@.tokens;
        let ghost startv = opt_str_view(start_after);
        let n = self.tokens.len();
        let mut out: Vec<String> = Vec::new();
        let mut count: u32 = 0;
        let mut i: usize = 0;
        proof {
            assert(strings_view(out@) =~= Seq::<Seq<char>>::empty());
            assert(toks.subrange(0, n as int) =~= toks);
            assert(Seq::<Seq<char>>::empty() + all_tokens_page(toks, startv, lim as int)
                =~= all_tokens_page(toks, startv, lim as int));
        }
        while i < n && count < lim
            invariant
                i <= n,
                n == toks.len(),
                toks == self@.tokens,
                startv == opt_str_view(start_after),
                count as int == out@.len(),
                count <= lim,
                strings_view(out@) + all_tokens_page(
                    toks.subrange(i as int, n as int),
                    startv,
                    lim - count,
                ) == all_tokens_page(toks, startv, lim as int),
            decreases n - i,
        {
            let ghost rem = toks.subrange(i as int, n as int);
            proof {
                assert(rem[0] == toks[i as int]);
                assert(rem.drop_first() =~= toks.subrange(i as int + 1, n as int));
            }
            let after = match &start_after {
                Some(s) => str_lt(s.as_str(), self.tokens[i].token_id.as_str()),
                None => true,
            };
            if after {
                let ghost out0 = out@;
                out.push(self.tokens[i].token_id.clone());
                count = count + 1;
                proof {
                    assert(strings_view(out@) =~= strings_view(out0).push(
                        toks[i as int].token_id,
                    ));
                    assert(strings_view(out0).push(toks[i as int].token_id) =~= strings_view(out0)
                        + seq![toks[i as int].token_id]);
                    assert(strings_view(out@) + all_tokens_page(
                        toks.subrange(i as int + 1, n as int),
                        startv,
                        lim - count,
                    ) =~= all_tokens_page(toks, startv, lim as int));
                }
            }
            i = i + 1;
        }
        proof {
            if i == n {
                assert(toks.subrange(n as int, n as int) =~= Seq::<TokenV>::empty());
            }
            assert(all_tokens_page(toks.subrange(i as int, n as int), startv, lim - count)
                =~= Seq::<Seq<char>>::empty());
            assert(strings_view(out@) =~= strings_view(out@) + Seq::<Seq<char>>::empty());
        }
        TokensResponse { tokens: out }
    }

    /// A page of the operator grants of `owner`, filtered for expiration,
    /// in ascending operator order.
    pub fn query_operators(
        &self,
        owner: &str,
        include_expired: bool,
        start_after: Option<String>,
        limit: Option<u32>,
        block: &BlockInfo,
    ) -> (r: OperatorsResponse)
        requires
            self@.wf(),
        ensures
            approvals_view(r.operators@) == operators_page(
                self@.operators,
                owner@,
                opt_str_view(start_after),
                include_expired,
                *block,
                effective_limit(limit) as int,
            ),
    {
        let lim = effective_limit_exec(limit);
        let ghost ops = self@.operators;
        let ghost startv = opt_str_view(start_after);
        let n = self.operators.len();
        let mut out: Vec<Approval> = Vec::new();
        let mut count: u32 = 0;
        let mut i: usize = 0;
        proof {
            assert(approvals_view(out@) =~= Seq::<ApprovalV>::empty());
            assert(ops.subrange(0, n as int) =~= ops);
            assert(Seq::<ApprovalV>::empty() + operators_page(
                ops,
                owner@,
                startv,
                include_expired,
                *block,
                lim as int,
            ) =~= operators_page(ops, owner@, startv, include_expired, *block, lim as int));
        }
        while i < n && count < lim
            invariant
                i <= n,
                n == ops.len(),
                ops == self@.operators,
                startv == opt_str_view(start_after),
                count as int == out@.len(),
                count <= lim,
                approvals_view(out@) + operators_page(
                    ops.subrange(i as int, n as int),
                    owner@,
                    startv,
                    include_expired,
                    *block,
                    lim - count,
                ) == operators_page(ops, owner@, startv, include_expired, *block, lim as int),
            decreases n - i,
        {
            let ghost rem = ops.subrange(i as int, n as int);
            proof {
                assert(rem[0] == ops[i as int]);
                assert(rem.drop_first() =~= ops.subrange(i as int + 1, n as int));
            }
            let owner_eq = str_eq(self.operators[i].owner.as_str(), owner);
            let after = match &start_after {
                Some(s) => str_lt(s.as_str(), self.operators[i].operator.as_str()),
                None => true,
            };
            let passes = include_expired || !self.operators[i].expires.is_expired(block);
            if owner_eq && after && passes {
                let ghost out0 = out@;
                out.push(
                    Approval {
                        spender: self.operators[i].operator.clone(),
                        expires: self.operators[i].expires,
                    },
                );
                count = count + 1;
                proof {
                    let ghost av = ApprovalV {
                        spender: ops[i as int].operator,
                        expires: ops[i as int].expires,
                    };
                    assert(approvals_view(out@) =~= approvals_view(out0).push(av));
                    assert(approvals_view(out0).push(av) =~= approvals_view(out0) + seq![av]);
                    assert(approvals_view(out@) + operators_page(
                        ops.subrange(i as int + 1, n as int),
                        owner@,
                        startv,
                        include_expired,
                        *block,
                        lim - count,
                    ) =~= operators_page(ops, owner@, startv, include_expired, *block, lim as int));
                }
            }
            i = i + 1;
        }
        proof {
            if i == n {
                assert(ops.subrange(n as int, n as int) =~= Seq::<OperatorV>::empty());
            }
            assert(operators_page(
                ops.subrange(i as int, n as int),
                owner@,
                startv,
                include_expired,
                *block,
                lim - count,
            ) =~= Seq::<ApprovalV>::empty());
            assert(approvals_view(out@) =~= approvals_view(out@) + Seq::<ApprovalV>::empty());
        }
        OperatorsResponse { operators: out }
    }
}

/// Law: a page of an owner's tokens holds at most `limit` ids, every id
/// lies strictly after the bound (the bound itself is never returned),
/// each id belongs to an index entry of the owner, and the page ascends
/// strictly in the key order.
pub proof fn lemma_tokens_page_bounds(
    s: Seq<(Seq<char>, Seq<char>)>,
    owner: Seq<char>,
    start: Option<Seq<char>>,
    limit: int,
)
    requires
        index_sorted(s),
    ensures
        tokens_page(s, owner, start, limit).len() <= (if limit >= 0 {
            limit
        } else {
            0
        }),
        forall|j: int|
            0 <= j < tokens_page(s, owner, start, limit).len() ==> after_start(
                #[trigger] tokens_page(s, owner, start, limit)[j],
                start,
            ),
        (match start {
            Some(x) => forall|j: int|
                0 <= j < tokens_page(s, owner, start, limit).len()
                    ==> #[trigger] tokens_page(s, owner, start, limit)[j] != x,
            None => true,
        }),
        forall|j: int|
            0 <= j < tokens_page(s, owner, start, limit).len() ==> exists|k: int|
                0 <= k < s.len() && #[trigger] s[k] == (
                owner,
                #[trigger] tokens_page(s, owner, start, limit)[j],
                ),
        forall|j1: int, j2: int|
            0 <= j1 && j1 < j2 && j2 < tokens_page(s, owner, start, limit).len() ==> key_lt(
                #[trigger] tokens_page(s, owner, start, limit)[j1],
                #[trigger] tokens_page(s, owner, start, limit)[j2],
            ),
    decreases s.len(),
{
    let page = tokens_page(s, owner, start, limit);
    if s.len() == 0 || limit <= 0 {
    } else {
        let d = s.drop_first();
        assert(index_sorted(d)) by {
            assert forall|a: int, b: int|
                0 <= a && a < b && b < d.len() implies crate::keys::key_pair_lt(
                (#[trigger] d[a]).0,
                d[a].1,
                (#[trigger] d[b]).0,
                d[b].1,
            ) by {
                assert(d[a] == s[a + 1]);
                assert(d[b] == s[b + 1]);
            }
        }
        if s[0].0 == owner && after_start(s[0].1, start) {
            lemma_tokens_page_bounds(d, owner, start, limit - 1);
            let dpage = tokens_page(d, owner, start, limit - 1);
            assert(page == seq![s[0].1] + dpage);
            assert(page[0] == s[0].1);
            assert forall|j: int| 0 <= j < page.len() implies after_start(
                #[trigger] page[j],
                start,
            ) by {
                if j > 0 {
                    assert(page[j] == dpage[j - 1]);
                }
            }
            assert forall|j: int| 0 <= j < page.len() implies exists|k: int|
                0 <= k < s.len() && #[trigger] s[k] == (owner, #[trigger] page[j]) by {
                if j == 0 {
                    assert(s[0] == (owner, page[0]));
                } else {
                    assert(page[j] == dpage[j - 1]);
                    let k = choose|k: int| 0 <= k < d.len() && #[trigger] d[k] == (owner, dpage[j - 1]);
                    assert(s[k + 1] == (owner, page[j]));
                }
            }
            assert forall|j1: int, j2: int|
                0 <= j1 && j1 < j2 && j2 < page.len() implies key_lt(
                #[trigger] page[j1],
                #[trigger] page[j2],
            ) by {
                if j1 > 0 {
                    assert(page[j1] == dpage[j1 - 1]);
                    assert(page[j2] == dpage[j2 - 1]);
                } else {
                    assert(page[j2] == dpage[j2 - 1]);
                    let k = choose|k: int| 0 <= k < d.len() && #[trigger] d[k] == (owner, dpage[j2 - 1]);
                    assert(d[k] == s[k + 1]);
                    assert(crate::keys::key_pair_lt(s[0].0, s[0].1, s[k + 1].0, s[k + 1].1));
                    lemma_key_lt_irreflexive(owner);
                }
            }
            match start {
                Some(x) => {
                    assert forall|j: int| 0 <= j < page.len() implies #[trigger] page[j] != x by {
                        assert(after_start(page[j], start));
                        lemma_key_lt_irreflexive(x);
                    }
                },
                None => {},
            }
        } else {
            lemma_tokens_page_bounds(d, owner, start, limit);
            let dpage = tokens_page(d, owner, start, limit);
            assert(page == dpage);
            assert forall|j: int| 0 <= j < page.len() implies exists|k: int|
                0 <= k < s.len() && #[trigger] s[k] == (owner, #[trigger] page[j]) by {
                let k = choose|k: int| 0 <= k < d.len() && #[trigger] d[k] == (owner, dpage[j]);
                assert(s[k + 1] == (owner, page[j]));
            }
        }
    }
}

} // verus!
