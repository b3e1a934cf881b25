//! A verified auction-and-escrow engine for uniquely identified collectibles.
//!
//! An issuer mints items, exposes them under a pricing policy (fixed price,
//! declining dutch price, or competitive english bidding), accepts payments
//! and bids, and routes funds and items between issuer, buyers and outbid
//! participants. Identity enforcement, asset registration and persistence are
//! external collaborators: the engine works on plain identifiers and
//! fixed-point amounts, and every public operation either fully applies or
//! fully fails with an error and no state change.

pub mod auction;
pub mod errors;
pub mod inventory;
pub mod laws;
pub mod policy;
pub mod table;
pub mod vault;
