//! The two-phase transfer protocol of the minter and creator roles.
//!
//! Each role lives in its own [`Ownership`] slot and moves only through
//! this protocol: the current owner proposes a new owner with an expiry,
//! the proposed owner accepts before the expiry, or the current owner
//! renounces the role. A proposal that has lapsed counts as absent. The
//! two slots never share state.

use vstd::prelude::*;

use crate::error::Cw721ContractError;
use crate::execute::{expiration_or_never, slot_owner_is};
use crate::expiration::{spec_expired, BlockInfo, Expiration};
use crate::keys::str_eq;
use crate::state::{lemma_wf_same_records, slot_wf, Cw721Contract, Ownership, OwnershipV, StateV};

verus! {

/// What a caller may ask of a role slot.
pub enum Action {
    /// Propose a new owner; the proposal lapses once `expiry` passes.
    TransferOwnership { new_owner: String, expiry: Option<Expiration> },
    /// Accept a live proposal addressed to the caller.
    AcceptOwnership,
    /// Give the role up for good; only possible with no live proposal.
    RenounceOwnership,
}

/// The slot after a proposal: the owner stands, the proposal is recorded.
pub open spec fn slot_after_transfer(o: OwnershipV, new_owner: Seq<char>, exp: Expiration) -> OwnershipV {
    OwnershipV { owner: o.owner, pending_owner: Some(new_owner), pending_expiry: Some(exp) }
}

/// The slot after an acceptance: the proposed owner holds the role.
pub open spec fn slot_accepted(o: OwnershipV) -> OwnershipV {
    OwnershipV { owner: o.pending_owner, pending_owner: None, pending_expiry: None }
}

/// The slot after a renunciation: nobody holds the role.
pub open spec fn slot_renounced() -> OwnershipV {
    OwnershipV { owner: None, pending_owner: None, pending_expiry: None }
}

/// Whether the slot's proposal, if any, has lapsed.
pub open spec fn pending_expired(o: OwnershipV, b: BlockInfo) -> bool {
    match o.pending_expiry {
        Some(e) => spec_expired(e, b),
        None => false,
    }
}

/// The whole contract of one slot action: which caller succeeds, which
/// typed failure every other caller gets, and the slot each outcome
/// leaves.
pub open spec fn slot_transition(
    o0: OwnershipV,
    o1: OwnershipV,
    sender: Seq<char>,
    action: Action,
    b: BlockInfo,
    r: Result<(), Cw721ContractError>,
) -> bool {
    match action {
        Action::TransferOwnership { new_owner, expiry } => {
            &&& (r is Ok <==> o0.owner == Some(sender))
            &&& (r is Ok ==> o1 == slot_after_transfer(o0, new_owner@, expiration_or_never(expiry)))
            &&& (r is Err ==> r == Err::<(), Cw721ContractError>(Cw721ContractError::Unauthorized))
        },
        Action::AcceptOwnership => {
            &&& (r is Ok <==> (o0.pending_owner == Some(sender) && !pending_expired(o0, b)))
            &&& (r is Ok ==> o1 == slot_accepted(o0))
            &&& (r == Err::<(), Cw721ContractError>(Cw721ContractError::NotFound) <==> o0.pending_owner is None)
            &&& (r == Err::<(), Cw721ContractError>(Cw721ContractError::Unauthorized) <==> (
            o0.pending_owner is Some && o0.pending_owner != Some(sender)))
            &&& (r == Err::<(), Cw721ContractError>(Cw721ContractError::Expired) <==> (
            o0.pending_owner == Some(sender) && pending_expired(o0, b)))
        },
        Action::RenounceOwnership => {
            &&& (r is Ok <==> (o0.owner == Some(sender) && (o0.pending_owner is None
                || pending_expired(o0, b))))
            &&& (r is Ok ==> o1 == slot_renounced())
            &&& (r == Err::<(), Cw721ContractError>(Cw721ContractError::Unauthorized) <==> o0.owner
                != Some(sender))
            &&& (r == Err::<(), Cw721ContractError>(Cw721ContractError::InvalidInput) <==> (
            o0.owner == Some(sender) && o0.pending_owner is Some && !pending_expired(o0, b)))
        },
    }
}

/// Run one action against one slot.
fn update_slot(slot: &mut Ownership, sender: &str, action: Action, block: &BlockInfo) -> (r: Result<
    (),
    Cw721ContractError,
>)
    requires
        slot_wf(old(slot)@),
    ensures
        slot_wf(final(slot)@),
        slot_transition(old(slot)@, final(slot)@, sender@, action, *block, r),
        r is Err ==> *final(slot) == *old(slot),
{
    match action {
        Action::TransferOwnership { new_owner, expiry } => {
            if !slot_owner_is(slot, sender) {
                return Err(Cw721ContractError::Unauthorized);
            }
            let exp = match expiry {
                Some(e) => e,
                None => Expiration::Never,
            };
            slot.pending_owner = Some(new_owner);
            slot.pending_expiry = Some(exp);
            Ok(())
        },
        Action::AcceptOwnership => {
            let pending = match &slot.pending_owner {
                None => {
                    return Err(Cw721ContractError::NotFound);
                },
                Some(p) => p.clone(),
            };
            if !str_eq(pending.as_str(), sender) {
                return Err(Cw721ContractError::Unauthorized);
            }
            let lapsed = match &slot.pending_expiry {
                Some(e) => e.is_expired(block),
                None => false,
            };
            if lapsed {
                return Err(Cw721ContractError::Expired);
            }
            slot.owner = Some(pending);
            slot.pending_owner = None;
            slot.pending_expiry = None;
            Ok(())
        },
        Action::RenounceOwnership => {
            if !slot_owner_is(slot, sender) {
                return Err(Cw721ContractError::Unauthorized);
            }
            let blocked = match &slot.pending_owner {
                None => false,
                Some(_) => match &slot.pending_expiry {
                    Some(e) => !e.is_expired(block),
                    None => true,
                },
            };
            if blocked {
                return Err(Cw721ContractError::InvalidInput);
            }
            slot.owner = None;
            slot.pending_owner = None;
            slot.pending_expiry = None;
            Ok(())
        },
    }
}

impl Cw721Contract {
    /// Run one action against the minter slot. The creator slot and all
    /// other state stand still.
    pub fn update_minter_ownership(
        &mut self,
        sender: &str,
        action: Action,
        block: &BlockInfo,
    ) -> (r: Result<(), Cw721ContractError>)
        requires
            old(self)@.wf(),
        ensures
            final(self)@.wf(),
            slot_transition(old(self)@.minter, final(self)@.minter, sender@, action, *block, r),
            (final(self)@ == StateV { minter: final(self)@.minter, ..old(self)@ }),
            r is Err ==> *final(self) == *old(self),
    {
        let ghost s0 = self@;
        let r = update_slot(&mut self.minter_ownership, sender, action, block);
        proof {
            lemma_wf_same_records(s0, self@);
        }
        r
    }

    /// Run one action against the creator slot. The minter slot and all
    /// other state stand still.
    pub fn update_creator_ownership(
        &mut self,
        sender: &str,
        action: Action,
        block: &BlockInfo,
    ) -> (r: Result<(), Cw721ContractError>)
        requires
            old(self)@.wf(),
        ensures
            final(self)@.wf(),
            slot_transition(old(self)@.creator, final(self)@.creator, sender@, action, *block, r),
            (final(self)@ == StateV { creator: final(self)@.creator, ..old(self)@ }),
            r is Err ==> *final(self) == *old(self),
    {
        let ghost s0 = self@;
        let r = update_slot(&mut self.creator_ownership, sender, action, block);
        proof {
            lemma_wf_same_records(s0, self@);
        }
        r
    }

    /// Install new role owners directly, where given; each slot's pending
    /// proposal is discarded. This is the migration path, not part of the
    /// two-phase protocol.
    pub fn migrate(&mut self, minter: Option<String>, creator: Option<String>)
        requires
            old(self)@.wf(),
        ensures
            final(self)@.wf(),
            final(self)@.minter == (match minter {
                Some(m) => OwnershipV { owner: Some(m@), pending_owner: None, pending_expiry: None },
                None => old(self)@.minter,
            }),
            final(self)@.creator == (match creator {
                Some(c) => OwnershipV { owner: Some(c@), pending_owner: None, pending_expiry: None },
                None => old(self)@.creator,
            }),
            (final(self)@ == StateV {
                minter: final(self)@.minter,
                creator: final(self)@.creator,
                ..old(self)@
            }),
    {
        let ghost s0 = self@;
        match minter {
            Some(m) => {
                self.minter_ownership = Ownership {
                    owner: Some(m),
                    pending_owner: None,
                    pending_expiry: None,
                };
            },
            None => {},
        }
        match creator {
            Some(c) => {
                self.creator_ownership = Ownership {
                    owner: Some(c),
                    pending_owner: None,
                    pending_expiry: None,
                };
            },
            None => {},
        }
        proof {
            lemma_wf_same_records(s0, self@);
        }
    }
}

} // verus!
