//! Expiration conditions and the block context they are evaluated against.
//!
//! An approval or a pending ownership transfer carries an [`Expiration`]:
//! it never expires, or it expires once the chain reaches a given height,
//! or once the chain reaches a given timestamp (nanoseconds). Expiration is
//! always evaluated lazily, at read time, against the caller-supplied
//! [`BlockInfo`]; nothing is deleted merely because it expired.

use vstd::prelude::*;

verus! {

/// The height and timestamp (in nanoseconds) of the block a call runs in.
#[derive(Clone, Copy, PartialEq, Eq, Structural, Debug)]
pub struct BlockInfo {
    pub height: u64,
    pub time: u64,
}

/// When an approval or a pending ownership transfer stops being honoured.
#[derive(Clone, Copy, PartialEq, Eq, Structural, Debug)]
pub enum Expiration {
    /// Never expires.
    Never,
    /// Expired once the block height is at or past the given height.
    AtHeight(u64),
    /// Expired once the block time is at or past the given time (nanoseconds).
    AtTime(u64),
}

/// Whether condition `e` counts as expired in block `b`.
pub open spec fn spec_expired(e: Expiration, b: BlockInfo) -> bool {
    match e {
        Expiration::Never => false,
        Expiration::AtHeight(h) => b.height >= h,
        Expiration::AtTime(t) => b.time >= t,
    }
}

impl Expiration {
    /// Evaluate this condition against the given block.
    pub fn is_expired(&self, block: &BlockInfo) -> (r: bool)
        ensures
            r == spec_expired(*self, *block),
    {
        match self {
            Expiration::Never => false,
            Expiration::AtHeight(h) => block.height >= *h,
            Expiration::AtTime(t) => block.time >= *t,
        }
    }
}

impl Default for Expiration {
    /// An absent expiration defaults to never expiring.
    fn default() -> (r: Self)
        ensures
            r == Expiration::Never,
    {
        Expiration::Never
    }
}

/// Law: once a condition is expired in some block, it stays expired in every
/// later block (one whose height and time are at least as large).
pub proof fn lemma_expiration_monotonic(e: Expiration, b1: BlockInfo, b2: BlockInfo)
    requires
        spec_expired(e, b1),
        b1.height <= b2.height,
        b1.time <= b2.time,
    ensures
        spec_expired(e, b2),
{
}

} // verus!
