//! A verified non-fungible-token registry.
//!
//! The crate tracks ownership of uniquely identified tokens, authorizes
//! transfers, and answers paginated queries about ownership and metadata.
//! All state lives in [`state::Cw721Contract`]; the host that persists that
//! state and delivers calls is outside this crate.

pub mod error;
pub mod execute;
pub mod expiration;
pub mod keys;
pub mod msg;
pub mod ownership;
pub mod query;
pub mod royalty;
pub mod state;

pub use error::Cw721ContractError;
pub use expiration::{BlockInfo, Expiration};
