//! An asset-ownership registry with delegated approvals, and the settlement
//! engine of a marketplace that lists, sells and pays out registered assets.
//!
//! Every entry point is a total function from the state, the call's context
//! and its arguments to a result: either the state after the call together
//! with the payments and messages to send, or an error that leaves the state
//! as it was.

pub mod approval;
pub mod context;
pub mod enumeration;
pub mod errors;
pub mod events;
pub mod json;
pub mod laws;
pub mod market;
pub mod metadata;
pub mod mint;
pub mod names;
pub mod nft_callbacks;
pub mod nft_core;
pub mod paging;
pub mod payout;
pub mod registry;
pub mod rent;
pub mod royalty;
pub mod sale;
pub mod sale_views;
