//! The pricing policy: a pure function from the active policy variant and the
//! current logical epoch to the price an immediate purchase must pay.
//!
//! A dutch price declines linearly from its initial value once the start
//! epoch has passed, stops declining after the configured duration, and never
//! goes below zero. An unset or bid-only (english) policy yields no price at
//! all: the purchase path is disallowed.

use vstd::arithmetic::div_mod::{lemma_fundamental_div_mod, lemma_mod_bound};
use vstd::arithmetic::mul::lemma_mul_inequality;
use vstd::math::{max, min};
use vstd::prelude::*;

verus! {

/// The pricing policy of one auction instance; exactly one variant is active
/// at a time.
#[derive(Clone, Copy, Debug, PartialEq, Eq, Structural)]
pub enum AuctionType {
    /// No policy configured yet: neither purchase nor bid is permitted.
    Unset,
    /// A constant purchase price.
    Fixed { cost: u128 },
    /// A price that starts at `initial` at epoch `start` and decreases by
    /// `decrease` for each elapsed epoch, for at most `duration` epochs,
    /// flooring at zero.
    Dutch { initial: u128, decrease: u128, start: u64, duration: u64 },
    /// Bid-only mode: no immediate purchase, competitive bids of at least
    /// `min_bid`, to be resolved once `start + duration` has elapsed.
    English { min_bid: u128, start: u64, duration: u64 },
}

/// How many epochs of price decrease have elapsed at `now`: time below the
/// start epoch counts as zero (the subtraction saturates), and the decrease
/// stops after `duration` epochs.
pub open spec fn spec_elapsed(start: int, duration: int, now: int) -> int {
    min(duration, max(now - start, 0))
}

/// The dutch price at `now`: `initial` minus `decrease` per elapsed epoch,
/// floored at zero.
pub open spec fn spec_dutch_price(
    initial: int,
    decrease: int,
    start: int,
    duration: int,
    now: int,
) -> int {
    let e = spec_elapsed(start, duration, now);
    if decrease * e <= initial {
        initial - decrease * e
    } else {
        0
    }
}

/// The price an immediate purchase must pay at `now`, or `None` when the
/// policy disallows immediate purchase (unset or bid-only).
pub open spec fn spec_price(policy: AuctionType, now: u64) -> Option<int> {
    match policy {
        AuctionType::Unset => None,
        AuctionType::Fixed { cost } => Some(cost as int),
        AuctionType::Dutch { initial, decrease, start, duration } => Some(
            spec_dutch_price(initial as int, decrease as int, start as int, duration as int,
                now as int),
        ),
        AuctionType::English { .. } => None,
    }
}

/// Computes the current purchase price. Pure and deterministic: repeated
/// calls with the same policy and epoch return the same result.
pub fn current_price(policy: &AuctionType, now: u64) -> (r: Option<u128>)
    ensures
        match r {
            Some(p) => spec_price(*policy, now) == Some(p as int),
            None => spec_price(*policy, now) is None,
        },
{
    match policy {
        AuctionType::Unset => None,
        AuctionType::Fixed { cost } => Some(*cost),
        AuctionType::Dutch { initial, decrease, start, duration } => {
            let since_start: u64 = if now > *start {
                now - *start
            } else {
                0
            };
            let elapsed: u64 = if since_start > *duration {
                *duration
            } else {
                since_start
            };
            let e: u128 = elapsed as u128;
            assert(e as int == spec_elapsed(*start as int, *duration as int, now as int));
            if *decrease == 0 {
                Some(*initial)
            } else if e <= *initial / *decrease {
                proof {
                    lemma_scaled_decrease_le(*initial as int, *decrease as int, e as int);
                }
                Some(*initial - *decrease * e)
            } else {
                proof {
                    lemma_scaled_decrease_gt(*initial as int, *decrease as int, e as int);
                }
                Some(0)
            }
        },
        AuctionType::English { .. } => None,
    }
}

/// When the elapsed count is at most `initial / decrease`, the total decrease
/// does not exceed `initial`.
proof fn lemma_scaled_decrease_le(initial: int, decrease: int, e: int)
    requires
        initial >= 0,
        decrease > 0,
        0 <= e <= initial / decrease,
    ensures
        decrease * e <= initial,
{
    let q = initial / decrease;
    lemma_fundamental_div_mod(initial, decrease);
    lemma_mod_bound(initial, decrease);
    lemma_mul_inequality(e, q, decrease);
    assert(e * decrease == decrease * e) by (nonlinear_arith);
    assert(q * decrease == decrease * q) by (nonlinear_arith);
}

/// When the elapsed count exceeds `initial / decrease`, the total decrease
/// exceeds `initial`: the price has reached its floor.
proof fn lemma_scaled_decrease_gt(initial: int, decrease: int, e: int)
    requires
        initial >= 0,
        decrease > 0,
        e > initial / decrease,
    ensures
        decrease * e > initial,
{
    let q = initial / decrease;
    lemma_fundamental_div_mod(initial, decrease);
    lemma_mod_bound(initial, decrease);
    lemma_mul_inequality(q + 1, e, decrease);
    assert((q + 1) * decrease == decrease * q + decrease) by (nonlinear_arith);
    assert(e * decrease == decrease * e) by (nonlinear_arith);
}

/// The dutch price is bounded: never below zero, never above the configured
/// initial price, and exactly the initial price at or before the start epoch.
pub proof fn lemma_dutch_price_bounds(
    initial: u128,
    decrease: u128,
    start: u64,
    duration: u64,
    now: u64,
)
    ensures
        0 <= spec_dutch_price(initial as int, decrease as int, start as int, duration as int,
            now as int) <= initial as int,
        now <= start ==> spec_dutch_price(initial as int, decrease as int, start as int,
            duration as int, now as int) == initial as int,
{
    let e = spec_elapsed(start as int, duration as int, now as int);
    if decrease as int * e <= initial as int {
        assert(decrease as int * e >= 0) by (nonlinear_arith)
            requires
                decrease as int >= 0,
                e >= 0,
        ;
    }
    if now <= start {
        assert(e == 0);
        assert(decrease as int * e == 0) by (nonlinear_arith)
            requires
                e == 0,
        ;
    }
}

/// The dutch price is monotonically non-increasing in the current epoch: the
/// later of two reads never sees a higher price.
pub proof fn lemma_dutch_price_monotonic(
    initial: u128,
    decrease: u128,
    start: u64,
    duration: u64,
    earlier: u64,
    later: u64,
)
    requires
        earlier <= later,
    ensures
        spec_dutch_price(initial as int, decrease as int, start as int, duration as int,
            later as int) <= spec_dutch_price(initial as int, decrease as int, start as int,
            duration as int, earlier as int),
{
    let e1 = spec_elapsed(start as int, duration as int, earlier as int);
    let e2 = spec_elapsed(start as int, duration as int, later as int);
    assert(e1 <= e2);
    lemma_mul_inequality(e1, e2, decrease as int);
    assert(e1 * decrease as int == decrease as int * e1) by (nonlinear_arith);
    assert(e2 * decrease as int == decrease as int * e2) by (nonlinear_arith);
    lemma_dutch_price_bounds(initial, decrease, start, duration, earlier);
}

} // verus!
