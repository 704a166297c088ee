//! The typed failures that operations of the registry return.

use vstd::prelude::*;

verus! {

/// Every operation either succeeds or returns one of these values to the
/// host; a failed mutation leaves the state unchanged.
#[derive(Clone, Copy, PartialEq, Eq, Structural, Debug)]
pub enum Cw721ContractError {
    /// A token, approval or operator lookup missed.
    NotFound,
    /// The caller fails the authorization rule for the requested action.
    Unauthorized,
    /// A mint collided with an already present token id.
    AlreadyExists,
    /// An expiry consulted where a non-expired one is required has passed.
    Expired,
    /// A malformed input, such as duplicate attribute keys.
    InvalidInput,
}

} // verus!
