//! Weighted-multi-party treasury governance core.
//!
//! A fixed roster of members, each with a numeric voting weight, can propose
//! releasing funds from a shared treasury, vote on proposals, and — once a
//! strict weighted majority approves — trigger a one-time fund release.
//! Everything here is pure logic over plain values: the host that persists
//! the state, validates raw addresses, queries the treasury balance and
//! delivers the emitted transfer instruction lives outside this crate.

pub mod ident;
pub mod state;
pub mod error;
pub mod msg;
pub mod contract;
pub mod laws;

pub use ident::Identity;
