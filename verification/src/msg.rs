//! The messages the host delivers to the registry and the typed responses
//! queries return.

use vstd::prelude::*;

use crate::error::Cw721ContractError;
use crate::execute::{
    approve_all_post, approved_token, burn_post, expiration_or_never, mint_post, relabeled_token,
    revoke_all_post, revoked_token, token_update_post, transfer_post,
};
use crate::expiration::{spec_expired, BlockInfo, Expiration};
use crate::ownership::{slot_transition, Action};
use crate::query::{
    all_tokens_page, approvals_filtered, effective_limit, find_approval, operators_page,
    strings_view, tokens_page,
};
use crate::state::{
    approvals_view, attribute_keys_unique, attributes_view, opt_str_view, Approval, ApprovalV,
    Attribute, AttributeV, CollectionMetadata, Cw721Contract, MetadataExt, Ownership, StateV,
};

verus! {

/// An amount of one denomination, for withdrawals.
pub struct Coin {
    pub denom: String,
    pub amount: u128,
}

/// The receipt a send hands to the receiving contract.
pub struct Cw721ReceiveMsg {
    /// Who sent the token.
    pub sender: String,
    /// Which token was sent.
    pub token_id: String,
    /// An opaque payload for the receiver.
    pub msg: Vec<u8>,
}

/// A follow-up message a mutation asks the host to deliver.
pub enum ResponseMsg {
    /// Hand the receipt to the receiving contract.
    ReceiveNft { contract: String, receive: Cw721ReceiveMsg },
    /// Pay funds out to an address.
    BankSend { to_address: String, amount: Coin },
}

/// What a successful mutation returns: follow-up messages, if any.
pub struct Cw721Response {
    pub messages: Vec<ResponseMsg>,
}

/// A custom execute extension; this registry defines none, so its only
/// variant asks for nothing.
pub enum ExecuteExt {
    NoOp,
}

/// A custom query extension; this registry defines none, so its only
/// variant asks for nothing.
pub enum QueryExt {
    NoOp,
}

/// What instantiation takes.
pub struct Cw721InstantiateMsg {
    /// Name of the collection metadata.
    pub name: String,
    /// Symbol of the collection metadata.
    pub symbol: String,
    /// The initial collection metadata extension, an attribute list.
    pub collection_metadata_extension: Vec<Attribute>,
    /// The only address that may create tokens; the caller, when absent.
    pub minter: Option<String>,
    /// The only address that may curate metadata; the caller, when absent.
    pub creator: Option<String>,
    /// Where withdrawn funds go, if anywhere yet.
    pub withdraw_address: Option<String>,
}

/// A partial update of the collection metadata: absent fields keep their
/// value, a given extension replaces the attribute list.
pub struct CollectionNftMetadataMsg {
    pub name: Option<String>,
    pub symbol: Option<String>,
    pub extension: Option<Vec<Attribute>>,
}

/// The mutations of the registry.
pub enum Cw721ExecuteMsg {
    /// Run one action against the minter role slot.
    UpdateMinterOwnership(Action),
    /// Run one action against the creator role slot.
    UpdateCreatorOwnership(Action),
    /// The creator replaces parts of the collection metadata.
    UpdateCollectionMetadata { collection_metadata: CollectionNftMetadataMsg },
    /// Move a token to another account.
    TransferNft { recipient: String, token_id: String },
    /// Move a token to a contract and hand it a receipt.
    SendNft { contract: String, token_id: String, msg: Vec<u8> },
    /// Grant a spender transfer rights over one token.
    Approve { spender: String, token_id: String, expires: Option<Expiration> },
    /// Remove a spender's grant on one token.
    Revoke { spender: String, token_id: String },
    /// Grant an operator rights over all of the caller's tokens.
    ApproveAll { operator: String, expires: Option<Expiration> },
    /// Remove an operator's blanket grant.
    RevokeAll { operator: String },
    /// Create a token; only the minter may.
    Mint { token_id: String, owner: String, token_uri: Option<String>, extension: MetadataExt },
    /// Destroy a token the caller has access to.
    Burn { token_id: String },
    /// The creator replaces a token's uri and payload.
    UpdateNftInfo { token_id: String, token_uri: Option<String>, extension: MetadataExt },
    /// The creator sets where withdrawn funds go.
    SetWithdrawAddress { address: String },
    /// The creator clears the payout address.
    RemoveWithdrawAddress {},
    /// Anyone pays the contract's funds out to the set address.
    WithdrawFunds { amount: Coin },
}

/// The read-only operations of the registry.
pub enum Cw721QueryMsg {
    /// The owner of a token and its approvals, error if it does not exist.
    OwnerOf { token_id: String, include_expired: Option<bool> },
    /// One spender's approval on a token.
    Approval { token_id: String, spender: String, include_expired: Option<bool> },
    /// All approvals a token has.
    Approvals { token_id: String, include_expired: Option<bool> },
    /// One operator grant of an owner, error if not set.
    Operator { owner: String, operator: String, include_expired: Option<bool> },
    /// All operators an owner granted access to, paginated.
    AllOperators {
        owner: String,
        include_expired: Option<bool>,
        start_after: Option<String>,
        limit: Option<u32>,
    },
    /// Total number of tokens issued.
    NumTokens {},
    /// The collection metadata and its attribute list.
    GetCollectionMetadata {},
    /// Who holds the minter role.
    GetMinterOwnership {},
    /// Who holds the creator role.
    GetCreatorOwnership {},
    /// The minter as a bare address.
    Minter {},
    /// One token's uri and payload.
    NftInfo { token_id: String },
    /// Owner and record of one token in one answer.
    AllNftInfo { token_id: String, include_expired: Option<bool> },
    /// All tokens owned by an address, paginated.
    Tokens { owner: String, start_after: Option<String>, limit: Option<u32> },
    /// All token ids, paginated.
    AllTokens { start_after: Option<String>, limit: Option<u32> },
    /// Where withdrawn funds go, if anywhere.
    GetWithdrawAddress {},
}

/// What migration takes: new role owners, where given.
pub enum Cw721MigrateMsg {
    WithUpdate { minter: Option<String>, creator: Option<String> },
}

/// The owner of a token, with the approvals that passed the filter.
pub struct OwnerOfResponse {
    pub owner: String,
    pub approvals: Vec<Approval>,
}

/// One approval of a token.
pub struct ApprovalResponse {
    pub approval: Approval,
}

/// The approvals of a token that passed the filter.
pub struct ApprovalsResponse {
    pub approvals: Vec<Approval>,
}

/// One operator grant of an owner.
pub struct OperatorResponse {
    pub approval: Approval,
}

/// A page of an owner's operator grants.
pub struct OperatorsResponse {
    pub operators: Vec<Approval>,
}

/// The running token count.
pub struct NumTokensResponse {
    pub count: u64,
}

/// One token's uri and payload.
pub struct NftInfoResponse {
    pub token_uri: Option<String>,
    pub extension: MetadataExt,
}

/// Owner and record of one token.
pub struct AllNftInfoResponse {
    /// Who can transfer the token.
    pub access: OwnerOfResponse,
    /// Data on the token itself.
    pub info: NftInfoResponse,
}

/// A page of token ids, in ascending key order.
pub struct TokensResponse {
    pub tokens: Vec<String>,
}

/// The minter as a bare address.
pub struct MinterResponse {
    pub minter: Option<String>,
}

/// The collection metadata together with its attribute list.
pub struct CollectionMetadataAndExtension {
    pub name: String,
    pub symbol: String,
    pub updated_at: u64,
    pub extension: Vec<Attribute>,
}

/// The typed answer of one query call.
pub enum Cw721QueryResponse {
    OwnerOf(OwnerOfResponse),
    Approval(ApprovalResponse),
    Approvals(ApprovalsResponse),
    Operator(OperatorResponse),
    Operators(OperatorsResponse),
    NumTokens(NumTokensResponse),
    CollectionMetadata(CollectionMetadataAndExtension),
    Ownership(Ownership),
    Minter(MinterResponse),
    NftInfo(NftInfoResponse),
    AllNftInfo(AllNftInfoResponse),
    Tokens(TokensResponse),
    WithdrawAddress(Option<String>),
}

/// An unset expiration-filter flag means filtering.
pub open spec fn flag_or_false(o: Option<bool>) -> bool {
    match o {
        Some(b) => b,
        None => false,
    }
}

/// A mutation result with its payload dropped, for stating which typed
/// failure came out.
pub open spec fn result_unit<T>(r: Result<T, Cw721ContractError>) -> Result<
    (),
    Cw721ContractError,
> {
    match r {
        Ok(_) => Ok(()),
        Err(e) => Err(e),
    }
}

impl Cw721Contract {
    /// One mutation call: dispatch on the message, under the caller and
    /// block context the host supplies. Each arm's outcome is the
    /// operation's own contract; a failure leaves the state as it was.
    pub fn execute(&mut self, sender: &str, block: &BlockInfo, msg: Cw721ExecuteMsg) -> (r: Result<
        Cw721Response,
        Cw721ContractError,
    >)
        requires
            old(self)@.wf(),
        ensures
            final(self)@.wf(),
            r is Err ==> *final(self) == *old(self),
            match msg {
                Cw721ExecuteMsg::UpdateMinterOwnership(action) => slot_transition(
                    old(self)@.minter,
                    final(self)@.minter,
                    sender@,
                    action,
                    *block,
                    result_unit(r),
                ) && (final(self)@ == StateV { minter: final(self)@.minter, ..old(self)@ }),
                Cw721ExecuteMsg::UpdateCreatorOwnership(action) => slot_transition(
                    old(self)@.creator,
                    final(self)@.creator,
                    sender@,
                    action,
                    *block,
                    result_unit(r),
                ) && (final(self)@ == StateV { creator: final(self)@.creator, ..old(self)@ }),
                Cw721ExecuteMsg::UpdateCollectionMetadata { collection_metadata } => {
                    &&& (r is Ok <==> (old(self)@.creator.owner == Some(sender@) && (
                    match collection_metadata.extension {
                        Some(a) => attribute_keys_unique(attributes_view(a@)),
                        None => true,
                    })))
                    &&& (r is Ok ==> final(self)@.collection.updated_at == block.time)
                    &&& (r is Ok ==> final(self)@.collection.name == (
                    match collection_metadata.name {
                        Some(nm) => nm@,
                        None => old(self)@.collection.name,
                    }))
                    &&& (r is Ok ==> final(self)@.collection.symbol == (
                    match collection_metadata.symbol {
                        Some(sy) => sy@,
                        None => old(self)@.collection.symbol,
                    }))
                    &&& (r is Ok ==> (match collection_metadata.extension {
                        Some(a) => forall|x: AttributeV|
                            #[trigger] final(self)@.attributes.contains(x) <==> attributes_view(
                                a@,
                            ).contains(x),
                        None => final(self)@.attributes == old(self)@.attributes,
                    }))
                    &&& (r is Ok ==> (final(self)@ == StateV {
                        collection: final(self)@.collection,
                        attributes: final(self)@.attributes,
                        ..old(self)@
                    }))
                },
                Cw721ExecuteMsg::TransferNft { recipient, token_id } => {
                    &&& (r is Ok <==> (old(self)@.has_token(token_id@) && old(self)@.can_send(
                        sender@,
                        token_id@,
                        *block,
                    )))
                    &&& (r is Ok ==> transfer_post(old(self)@, final(self)@, token_id@, recipient@))
                },
                Cw721ExecuteMsg::SendNft { contract, token_id, msg: payload } => {
                    &&& (r is Ok <==> (old(self)@.has_token(token_id@) && old(self)@.can_send(
                        sender@,
                        token_id@,
                        *block,
                    )))
                    &&& (r is Ok ==> transfer_post(old(self)@, final(self)@, token_id@, contract@))
                    &&& (r matches Ok(resp) ==> resp.messages@.len() == 1 && (resp.messages@[0]
                        matches ResponseMsg::ReceiveNft { contract: c2, receive } && c2@
                        == contract@ && receive.sender@ == sender@ && receive.token_id@ == token_id@
                        && receive.msg@ == payload@))
                },
                Cw721ExecuteMsg::Approve { spender, token_id, expires } => {
                    &&& (r is Ok <==> (old(self)@.has_token(token_id@) && old(self)@.can_approve(
                        sender@,
                        token_id@,
                        *block,
                    ) && !spec_expired(expiration_or_never(expires), *block)))
                    &&& (r is Ok ==> token_update_post(
                        old(self)@,
                        final(self)@,
                        token_id@,
                        approved_token(
                            old(self)@.token_at(token_id@),
                            spender@,
                            expiration_or_never(expires),
                        ),
                    ))
                },
                Cw721ExecuteMsg::Revoke { spender, token_id } => {
                    &&& (r is Ok <==> (old(self)@.has_token(token_id@) && old(self)@.can_approve(
                        sender@,
                        token_id@,
                        *block,
                    )))
                    &&& (r is Ok ==> token_update_post(
                        old(self)@,
                        final(self)@,
                        token_id@,
                        revoked_token(old(self)@.token_at(token_id@), spender@),
                    ))
                },
                Cw721ExecuteMsg::ApproveAll { operator, expires } => {
                    &&& (r is Ok <==> !spec_expired(expiration_or_never(expires), *block))
                    &&& (r is Ok ==> approve_all_post(
                        old(self)@,
                        final(self)@,
                        sender@,
                        operator@,
                        expiration_or_never(expires),
                    ))
                },
                Cw721ExecuteMsg::RevokeAll { operator } => {
                    &&& r is Ok
                    &&& revoke_all_post(old(self)@, final(self)@, sender@, operator@)
                },
                Cw721ExecuteMsg::Mint { token_id, owner, token_uri, extension } => {
                    &&& (r is Ok <==> (old(self)@.minter.owner == Some(sender@) && !old(
                        self,
                    )@.has_token(token_id@)))
                    &&& (r is Ok ==> mint_post(
                        old(self)@,
                        final(self)@,
                        token_id@,
                        owner@,
                        opt_str_view(token_uri),
                    ))
                },
                Cw721ExecuteMsg::Burn { token_id } => {
                    &&& (r is Ok <==> (old(self)@.has_token(token_id@) && old(self)@.can_send(
                        sender@,
                        token_id@,
                        *block,
                    )))
                    &&& (r is Ok ==> burn_post(old(self)@, final(self)@, token_id@))
                },
                Cw721ExecuteMsg::UpdateNftInfo { token_id, token_uri, extension } => {
                    &&& (r is Ok <==> (old(self)@.creator.owner == Some(sender@) && old(
                        self,
                    )@.has_token(token_id@)))
                    &&& (r is Ok ==> token_update_post(
                        old(self)@,
                        final(self)@,
                        token_id@,
                        relabeled_token(old(self)@.token_at(token_id@), opt_str_view(token_uri)),
                    ))
                },
                Cw721ExecuteMsg::SetWithdrawAddress { address } => {
                    &&& (r is Ok <==> old(self)@.creator.owner == Some(sender@))
                    &&& (r is Ok ==> (final(self)@ == StateV {
                        withdraw_address: Some(address@),
                        ..old(self)@
                    }))
                },
                Cw721ExecuteMsg::RemoveWithdrawAddress {  } => {
                    &&& (r is Ok <==> (old(self)@.creator.owner == Some(sender@) && old(
                        self,
                    )@.withdraw_address is Some))
                    &&& (r is Ok ==> (final(self)@ == StateV {
                        withdraw_address: None,
                        ..old(self)@
                    }))
                },
                Cw721ExecuteMsg::WithdrawFunds { amount } => {
                    &&& (r is Ok <==> old(self)@.withdraw_address is Some)
                    &&& *final(self) == *old(self)
                    &&& (r matches Ok(resp) ==> resp.messages@.len() == 1 && (resp.messages@[0]
                        matches ResponseMsg::BankSend { to_address, amount: amt } && Some(
                        to_address@,
                    ) == old(self)@.withdraw_address && amt.denom@ == amount.denom@ && amt.amount
                        == amount.amount))
                },
            },
    {
        match msg {
            Cw721ExecuteMsg::UpdateMinterOwnership(action) => {
                match self.update_minter_ownership(sender, action, block) {
                    Ok(()) => Ok(Cw721Response { messages: Vec::new() }),
                    Err(e) => Err(e),
                }
            },
            Cw721ExecuteMsg::UpdateCreatorOwnership(action) => {
                match self.update_creator_ownership(sender, action, block) {
                    Ok(()) => Ok(Cw721Response { messages: Vec::new() }),
                    Err(e) => Err(e),
                }
            },
            Cw721ExecuteMsg::UpdateCollectionMetadata { collection_metadata } => {
                match self.update_collection_metadata(sender, collection_metadata, block) {
                    Ok(()) => Ok(Cw721Response { messages: Vec::new() }),
                    Err(e) => Err(e),
                }
            },
            Cw721ExecuteMsg::TransferNft { recipient, token_id } => {
                match self.transfer_nft(sender, recipient, token_id, block) {
                    Ok(()) => Ok(Cw721Response { messages: Vec::new() }),
                    Err(e) => Err(e),
                }
            },
            Cw721ExecuteMsg::SendNft { contract, token_id, msg: payload } => {
                let target = contract.clone();
                match self.send_nft(sender, contract, token_id, payload, block) {
                    Ok(receive) => {
                        let mut messages: Vec<ResponseMsg> = Vec::new();
                        messages.push(ResponseMsg::ReceiveNft { contract: target, receive });
                        Ok(Cw721Response { messages })
                    },
                    Err(e) => Err(e),
                }
            },
            Cw721ExecuteMsg::Approve { spender, token_id, expires } => {
                match self.approve(sender, spender, token_id.as_str(), expires, block) {
                    Ok(()) => Ok(Cw721Response { messages: Vec::new() }),
                    Err(e) => Err(e),
                }
            },
            Cw721ExecuteMsg::Revoke { spender, token_id } => {
                match self.revoke(sender, spender.as_str(), token_id.as_str(), block) {
                    Ok(()) => Ok(Cw721Response { messages: Vec::new() }),
                    Err(e) => Err(e),
                }
            },
            Cw721ExecuteMsg::ApproveAll { operator, expires } => {
                match self.approve_all(sender, operator, expires, block) {
                    Ok(()) => Ok(Cw721Response { messages: Vec::new() }),
                    Err(e) => Err(e),
                }
            },
            Cw721ExecuteMsg::RevokeAll { operator } => {
                self.revoke_all(sender, operator.as_str());
                Ok(Cw721Response { messages: Vec::new() })
            },
            Cw721ExecuteMsg::Mint { token_id, owner, token_uri, extension } => {
                match self.mint(sender, token_id, owner, token_uri, extension) {
                    Ok(()) => Ok(Cw721Response { messages: Vec::new() }),
                    Err(e) => Err(e),
                }
            },
            Cw721ExecuteMsg::Burn { token_id } => {
                match self.burn(sender, token_id.as_str(), block) {
                    Ok(()) => Ok(Cw721Response { messages: Vec::new() }),
                    Err(e) => Err(e),
                }
            },
            Cw721ExecuteMsg::UpdateNftInfo { token_id, token_uri, extension } => {
                match self.update_nft_info(sender, token_id.as_str(), token_uri, extension) {
                    Ok(()) => Ok(Cw721Response { messages: Vec::new() }),
                    Err(e) => Err(e),
                }
            },
            Cw721ExecuteMsg::SetWithdrawAddress { address } => {
                match self.set_withdraw_address(sender, address) {
                    Ok(()) => Ok(Cw721Response { messages: Vec::new() }),
                    Err(e) => Err(e),
                }
            },
            Cw721ExecuteMsg::RemoveWithdrawAddress {  } => {
                match self.remove_withdraw_address(sender) {
                    Ok(()) => Ok(Cw721Response { messages: Vec::new() }),
                    Err(e) => Err(e),
                }
            },
            Cw721ExecuteMsg::WithdrawFunds { amount } => {
                match self.withdraw_funds(amount) {
                    Ok(m) => {
                        let mut messages: Vec<ResponseMsg> = Vec::new();
                        messages.push(m);
                        Ok(Cw721Response { messages })
                    },
                    Err(e) => Err(e),
                }
            },
        }
    }

    /// One query call: dispatch on the message under the block context the
    /// host supplies. Each arm answers with its query's typed response and
    /// keeps that query's contract; nothing mutates.
    pub fn query(&self, block: &BlockInfo, msg: Cw721QueryMsg) -> (r: Result<
        Cw721QueryResponse,
        Cw721ContractError,
    >)
        requires
            self@.wf(),
        ensures
            match msg {
                Cw721QueryMsg::OwnerOf { token_id, include_expired } => {
                    &&& (r is Ok <==> self@.has_token(token_id@))
                    &&& (r matches Ok(q) ==> (q matches Cw721QueryResponse::OwnerOf(resp)
                        && resp.owner@ == self@.token_at(token_id@).owner && approvals_view(
                        resp.approvals@,
                    ) == approvals_filtered(
                        self@.token_at(token_id@).approvals,
                        flag_or_false(include_expired),
                        *block,
                    )))
                },
                Cw721QueryMsg::Approval { token_id, spender, include_expired } => {
                    &&& (r is Ok <==> (self@.has_token(token_id@) && (spender@ == self@.token_at(
                        token_id@,
                    ).owner || find_approval(
                        self@.token_at(token_id@).approvals,
                        spender@,
                        flag_or_false(include_expired),
                        *block,
                    ) is Some)))
                    &&& (r matches Ok(q) ==> (q matches Cw721QueryResponse::Approval(resp) && (
                    spender@ == self@.token_at(token_id@).owner ==> resp.approval@ == (ApprovalV {
                        spender: spender@,
                        expires: Expiration::Never,
                    })) && (spender@ != self@.token_at(token_id@).owner ==> Some(resp.approval@)
                        == find_approval(
                        self@.token_at(token_id@).approvals,
                        spender@,
                        flag_or_false(include_expired),
                        *block,
                    ))))
                },
                Cw721QueryMsg::Approvals { token_id, include_expired } => {
                    &&& (r is Ok <==> self@.has_token(token_id@))
                    &&& (r matches Ok(q) ==> (q matches Cw721QueryResponse::Approvals(resp)
                        && approvals_view(resp.approvals@) == approvals_filtered(
                        self@.token_at(token_id@).approvals,
                        flag_or_false(include_expired),
                        *block,
                    )))
                },
                Cw721QueryMsg::Operator { owner, operator, include_expired } => {
                    &&& (r is Ok <==> (self@.has_operator(owner@, operator@) && (flag_or_false(
                        include_expired,
                    ) || !spec_expired(self@.operator_at(owner@, operator@).expires, *block))))
                    &&& (r matches Ok(q) ==> (q matches Cw721QueryResponse::Operator(resp)
                        && resp.approval@ == (ApprovalV {
                        spender: operator@,
                        expires: self@.operator_at(owner@, operator@).expires,
                    })))
                },
                Cw721QueryMsg::AllOperators { owner, include_expired, start_after, limit } => r
                    matches Ok(q) && (q matches Cw721QueryResponse::Operators(resp)
                    && approvals_view(resp.operators@) == operators_page(
                    self@.operators,
                    owner@,
                    opt_str_view(start_after),
                    flag_or_false(include_expired),
                    *block,
                    effective_limit(limit) as int,
                )),
                Cw721QueryMsg::NumTokens {  } => r matches Ok(q) && (q matches
                    Cw721QueryResponse::NumTokens(resp) && resp.count == self@.num_tokens),
                Cw721QueryMsg::GetCollectionMetadata {  } => r matches Ok(q) && (q matches
                    Cw721QueryResponse::CollectionMetadata(resp) && resp.name@
                    == self@.collection.name && resp.symbol@ == self@.collection.symbol
                    && resp.updated_at == self@.collection.updated_at && attributes_view(
                    resp.extension@,
                ) == self@.attributes),
                Cw721QueryMsg::GetMinterOwnership {  } => r matches Ok(q) && (q matches
                    Cw721QueryResponse::Ownership(o) && o@ == self@.minter),
                Cw721QueryMsg::GetCreatorOwnership {  } => r matches Ok(q) && (q matches
                    Cw721QueryResponse::Ownership(o) && o@ == self@.creator),
                Cw721QueryMsg::Minter {  } => r matches Ok(q) && (q matches
                    Cw721QueryResponse::Minter(resp) && opt_str_view(resp.minter)
                    == self@.minter.owner),
                Cw721QueryMsg::NftInfo { token_id } => {
                    &&& (r is Ok <==> self@.has_token(token_id@))
                    &&& (r matches Ok(q) ==> (q matches Cw721QueryResponse::NftInfo(resp)
                        && opt_str_view(resp.token_uri) == self@.token_at(token_id@).token_uri))
                },
                Cw721QueryMsg::AllNftInfo { token_id, include_expired } => {
                    &&& (r is Ok <==> self@.has_token(token_id@))
                    &&& (r matches Ok(q) ==> (q matches Cw721QueryResponse::AllNftInfo(resp)
                        && resp.access.owner@ == self@.token_at(token_id@).owner && opt_str_view(
                        resp.info.token_uri,
                    ) == self@.token_at(token_id@).token_uri))
                },
                Cw721QueryMsg::Tokens { owner, start_after, limit } => r matches Ok(q) && (q
                    matches Cw721QueryResponse::Tokens(resp) && strings_view(resp.tokens@)
                    == tokens_page(
                    self@.owner_index,
                    owner@,
                    opt_str_view(start_after),
                    effective_limit(limit) as int,
                )),
                Cw721QueryMsg::AllTokens { start_after, limit } => r matches Ok(q) && (q matches
                    Cw721QueryResponse::Tokens(resp) && strings_view(resp.tokens@)
                    == all_tokens_page(
                    self@.tokens,
                    opt_str_view(start_after),
                    effective_limit(limit) as int,
                )),
                Cw721QueryMsg::GetWithdrawAddress {  } => r matches Ok(q) && (q matches
                    Cw721QueryResponse::WithdrawAddress(a) && opt_str_view(a)
                    == self@.withdraw_address),
            },
    {
        match msg {
            Cw721QueryMsg::OwnerOf { token_id, include_expired } => {
                let inc = match include_expired {
                    Some(b) => b,
                    None => false,
                };
                match self.query_owner_of(token_id.as_str(), inc, block) {
                    Ok(resp) => Ok(Cw721QueryResponse::OwnerOf(resp)),
                    Err(e) => Err(e),
                }
            },
            Cw721QueryMsg::Approval { token_id, spender, include_expired } => {
                let inc = match include_expired {
                    Some(b) => b,
                    None => false,
                };
                match self.query_approval(token_id.as_str(), spender.as_str(), inc, block) {
                    Ok(resp) => Ok(Cw721QueryResponse::Approval(resp)),
                    Err(e) => Err(e),
                }
            },
            Cw721QueryMsg::Approvals { token_id, include_expired } => {
                let inc = match include_expired {
                    Some(b) => b,
                    None => false,
                };
                match self.query_approvals(token_id.as_str(), inc, block) {
                    Ok(resp) => Ok(Cw721QueryResponse::Approvals(resp)),
                    Err(e) => Err(e),
                }
            },
            Cw721QueryMsg::Operator { owner, operator, include_expired } => {
                let inc = match include_expired {
                    Some(b) => b,
                    None => false,
                };
                match self.query_operator(owner.as_str(), operator.as_str(), inc, block) {
                    Ok(resp) => Ok(Cw721QueryResponse::Operator(resp)),
                    Err(e) => Err(e),
                }
            },
            Cw721QueryMsg::AllOperators { owner, include_expired, start_after, limit } => {
                let inc = match include_expired {
                    Some(b) => b,
                    None => false,
                };
                Ok(Cw721QueryResponse::Operators(
                    self.query_operators(owner.as_str(), inc, start_after, limit, block),
                ))
            },
            Cw721QueryMsg::NumTokens {  } => Ok(Cw721QueryResponse::NumTokens(
                self.query_num_tokens(),
            )),
            Cw721QueryMsg::GetCollectionMetadata {  } => Ok(
                Cw721QueryResponse::CollectionMetadata(
                    self.query_collection_metadata_and_extension(),
                ),
            ),
            Cw721QueryMsg::GetMinterOwnership {  } => Ok(Cw721QueryResponse::Ownership(
                self.query_minter_ownership(),
            )),
            Cw721QueryMsg::GetCreatorOwnership {  } => Ok(Cw721QueryResponse::Ownership(
                self.query_creator_ownership(),
            )),
            Cw721QueryMsg::Minter {  } => Ok(Cw721QueryResponse::Minter(self.query_minter())),
            Cw721QueryMsg::NftInfo { token_id } => {
                match self.query_nft_info(token_id.as_str()) {
                    Ok(resp) => Ok(Cw721QueryResponse::NftInfo(resp)),
                    Err(e) => Err(e),
                }
            },
            Cw721QueryMsg::AllNftInfo { token_id, include_expired } => {
                let inc = match include_expired {
                    Some(b) => b,
                    None => false,
                };
                match self.query_all_nft_info(token_id.as_str(), inc, block) {
                    Ok(resp) => Ok(Cw721QueryResponse::AllNftInfo(resp)),
                    Err(e) => Err(e),
                }
            },
            Cw721QueryMsg::Tokens { owner, start_after, limit } => Ok(Cw721QueryResponse::Tokens(
                self.query_tokens(owner.as_str(), start_after, limit),
            )),
            Cw721QueryMsg::AllTokens { start_after, limit } => Ok(Cw721QueryResponse::Tokens(
                self.query_all_tokens(start_after, limit),
            )),
            Cw721QueryMsg::GetWithdrawAddress {  } => Ok(Cw721QueryResponse::WithdrawAddress(
                self.query_withdraw_address(),
            )),
        }
    }

    /// One migration call: install the given role owners.
    pub fn migrate_msg(&mut self, msg: Cw721MigrateMsg)
        requires
            old(self)@.wf(),
        ensures
            final(self)@.wf(),
    {
        match msg {
            Cw721MigrateMsg::WithUpdate { minter, creator } => {
                self.migrate(minter, creator);
            },
        }
    }
}

} // verus!
