//! The failure taxonomy of the engine.
//!
//! Every failure is a local validation error surfaced immediately to the
//! caller; no operation leaves a partial state change behind.

use vstd::prelude::*;

verus! {

/// Why an operation was rejected. Each variant names the single check that
/// failed; the operation that returned it changed nothing.
#[derive(Clone, Copy, Debug, PartialEq, Eq, Structural)]
pub enum Error {
    /// The pricing policy or the whitelist was (re)configured after the
    /// auction started, or the auction was started without a policy.
    Configuration,
    /// The operation needs a running auction but it has not been started.
    NotStarted,
    /// The operation needs a pristine or running auction but it has already
    /// been started or closed.
    AlreadyStartedOrClosed,
    /// The active policy does not allow this path: an immediate purchase
    /// under a bid-only or unset policy, or a bid under a non-bidding policy.
    AuctionNotPurchasable,
    /// The payment does not cover the current price.
    InsufficientPayment,
    /// The requested item is not in custody: unknown or already sold.
    ItemUnavailable,
    /// The bid is below the minimum opening bid, or does not strictly exceed
    /// the live bid it would replace.
    BidTooLow,
    /// The presented whitelist credential has already been used for the
    /// configured maximum number of purchases.
    WhitelistExhausted,
    /// A whitelist is configured and the presented credential is missing or
    /// belongs to another credential class.
    WhitelistCredentialMismatch,
    /// No settlement entry is owed to the presented credential.
    NothingToWithdraw,
    /// The bidding period has not elapsed yet.
    TooEarlyToClose,
    /// An item with this identifier is already registered.
    DuplicateItem,
    /// No registered item carries this identifier, or it is already marked
    /// unavailable.
    UnknownItem,
    /// The payment is denominated in a currency other than the configured
    /// settlement currency.
    CurrencyMismatch,
    /// A balance or identifier counter would leave the representable range.
    Overflow,
}

} // verus!
