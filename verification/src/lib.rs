//! Core state machine of a non-fungible-token registry: token ownership,
//! per-owner and global enumeration, single-owner access control, and
//! collection metadata (a base URI from which each token's metadata
//! location is derived).
//!
//! The library is a pure state container: every operation is a function of
//! (state, caller, arguments) to (new state, result), with no ambient
//! environment. Hosting glue (persistence, transport, event emission) is
//! expected to live outside and to serialize calls.

pub mod account;
pub mod attributes;
pub mod decimal;
pub mod error;
pub mod laws;
pub mod nft;
pub mod psp34_traits;
pub mod registry;

pub use account::AccountId;
pub use error::Error;
pub use nft::ArtNft;
pub use psp34_traits::Psp34Traits;
pub use registry::Registry;
