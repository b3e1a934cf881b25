//! The laws the engine guarantees, proved against the operation models of
//! [`crate::auction`]. Each proof function holds for every well-formed state,
//! not just for chosen values; the pricing laws live in [`crate::policy`]
//! beside the price function itself.

use crate::auction::{
    Badge, Bid, Pending, StateV, Whitelist, Withdrawal, bid_spec, buy_spec, close_spec,
    collect_spec, inv, is_winner, lemma_bid_preserves_inv, lemma_buy_preserves_inv,
    lemma_close_preserves_inv, mint_spec, set_dutch_spec, set_english_spec, set_fixed_spec,
    set_whitelist_spec, start_spec, usage_of, whitelist_error, withdraw_spec,
};
use crate::errors::Error;
use crate::inventory::{ItemV, NftV};
use crate::policy::AuctionType;
use crate::vault::Bucket;
use vstd::prelude::*;

verus! {

/// No item ever returns: an entry never leaves the inventory, and one whose
/// availability flag has dropped to `false` never becomes available again. An
/// operation whose pre- and post-inventories satisfy this relation can
/// therefore flip each item's flag at most once, one way.
pub open spec fn availability_monotone(pre: Map<u64, ItemV>, post: Map<u64, ItemV>) -> bool {
    forall|k: u64| #[trigger]
        pre.contains_key(k) ==> post.contains_key(k) && (!pre[k].available
            ==> !post[k].available)
}

/// A purchase keeps the inventory monotone: it only ever flips the sold
/// item's flag from available to unavailable.
pub proof fn lemma_buy_availability_monotone(
    s: StateV,
    id: u64,
    payment: Bucket,
    badge: Option<Badge>,
    now: u64,
)
    requires
        inv(s),
    ensures
        availability_monotone(s.items, buy_spec(s, id, payment, badge, now).0.items),
{
}

/// Minting keeps the inventory monotone: it only ever adds a fresh entry.
pub proof fn lemma_mint_availability_monotone(s: StateV, nft: NftV)
    requires
        inv(s),
    ensures
        availability_monotone(s.items, mint_spec(s, nft).0.items),
{
}

/// Closing keeps the inventory monotone: it only ever flips flags from
/// available to unavailable, under either closing mode. Together with the
/// purchase and mint lemmas, and with the remaining operations' contracts
/// leaving the inventory untouched, an item's flag transitions from `true` to
/// `false` at most once over its lifetime.
pub proof fn lemma_close_availability_monotone(s: StateV, now: u64)
    requires
        inv(s),
    ensures
        availability_monotone(s.items, close_spec(s, now).0.items),
{
}

/// One call against the controller, with its inputs: the alphabet of a
/// lifetime.
pub enum Op {
    ConfigureFixed { cost: u128 },
    ConfigureDutch { initial: u128, decrease: u128, now: u64, duration: u64 },
    ConfigureEnglish { min_bid: u128, now: u64, duration: u64 },
    ConfigureWhitelist { gate: u64, max_uses: u16 },
    Start,
    Mint { nft: NftV },
    Buy { id: u64, payment: Bucket, badge: Option<Badge>, now: u64 },
    PlaceBid { id: u64, payment: Bucket },
    Close { now: u64 },
    Claim { credential: u64 },
    Collect,
}

/// The state after one call, whether it succeeded or was rejected.
pub open spec fn step(s: StateV, op: Op) -> StateV {
    match op {
        Op::ConfigureFixed { cost } => set_fixed_spec(s, cost).0,
        Op::ConfigureDutch { initial, decrease, now, duration } => set_dutch_spec(
            s,
            initial,
            decrease,
            now,
            duration,
        ).0,
        Op::ConfigureEnglish { min_bid, now, duration } => set_english_spec(
            s,
            min_bid,
            now,
            duration,
        ).0,
        Op::ConfigureWhitelist { gate, max_uses } => set_whitelist_spec(s, gate, max_uses).0,
        Op::Start => start_spec(s).0,
        Op::Mint { nft } => mint_spec(s, nft).0,
        Op::Buy { id, payment, badge, now } => buy_spec(s, id, payment, badge, now).0,
        Op::PlaceBid { id, payment } => bid_spec(s, id, payment).0,
        Op::Close { now } => close_spec(s, now).0,
        Op::Claim { credential } => withdraw_spec(s, credential).0,
        Op::Collect => collect_spec(s).0,
    }
}

/// The state after a whole lifetime of calls.
pub open spec fn run(s: StateV, ops: Seq<Op>) -> StateV
    decreases ops.len(),
{
    if ops.len() == 0 {
        s
    } else {
        step(run(s, ops.drop_last()), ops.last())
    }
}

/// Every call preserves the state invariant.
pub proof fn lemma_step_preserves_inv(s: StateV, op: Op)
    requires
        inv(s),
    ensures
        inv(step(s, op)),
{
    match op {
        Op::Buy { id, payment, badge, now } => lemma_buy_preserves_inv(s, id, payment, badge, now),
        Op::PlaceBid { id, payment } => lemma_bid_preserves_inv(s, id, payment),
        Op::Close { now } => lemma_close_preserves_inv(s, now),
        Op::Mint { nft } => {
            if s.next_item != u64::MAX {
                let s2 = mint_spec(s, nft).0;
                assert forall|k: u64| #[trigger] s2.items.contains_key(k) implies k
                    < s2.next_item by {
                    if k != s.next_item {
                        assert(s.items.contains_key(k));
                    }
                }
                assert forall|k: u64| #[trigger]
                    s2.bids.contains_key(k) implies s2.items.contains_key(k)
                    && s2.items[k].available by {
                    assert(s.items.contains_key(k) && k != s.next_item);
                }
            }
        },
        _ => {},
    }
}

/// Where a lifecycle position stands on the one-way road from not-started
/// through ongoing to closed.
pub open spec fn status_order(st: crate::auction::Status) -> int {
    match st {
        crate::auction::Status::NotStarted => 0,
        crate::auction::Status::Ongoing => 1,
        crate::auction::Status::Closed => 2,
    }
}

/// Any whole lifetime of calls moves the state monotonically: the invariant
/// holds throughout; an inventory entry never leaves, and its availability
/// flag drops from `true` to `false` at most once, never coming back; and the
/// lifecycle position never moves backwards.
pub proof fn lemma_lifetime_monotone(s: StateV, ops: Seq<Op>)
    requires
        inv(s),
    ensures
        inv(run(s, ops)),
        availability_monotone(s.items, run(s, ops).items),
        status_order(s.status) <= status_order(run(s, ops).status),
    decreases ops.len(),
{
    if ops.len() != 0 {
        lemma_lifetime_monotone(s, ops.drop_last());
        let mid = run(s, ops.drop_last());
        lemma_step_preserves_inv(mid, ops.last());
        match ops.last() {
            Op::Buy { id, payment, badge, now } => lemma_buy_availability_monotone(
                mid,
                id,
                payment,
                badge,
                now,
            ),
            Op::Close { now } => lemma_close_availability_monotone(mid, now),
            Op::Mint { nft } => lemma_mint_availability_monotone(mid, nft),
            _ => {},
        }
    }
}

/// A bid that does not strictly exceed the live bid on its item is always
/// rejected, whatever else the call looks like: ties lose, favoring the
/// earlier bidder. The state does not change. The bids ledger is a map keyed
/// by item identifier, so at most one bid is live per item at any time.
pub proof fn lemma_bid_not_exceeding_rejected(s: StateV, id: u64, payment: Bucket)
    requires
        inv(s),
        s.bids.contains_key(id),
        payment.amount <= s.bids[id].amount,
    ensures
        bid_spec(s, id, payment).1 is Err,
        bid_spec(s, id, payment).0 == s,
{
}

/// A bid that strictly exceeds the live bid on its item is always accepted:
/// it replaces the live bid under a freshly issued credential, and it evicts
/// the previous bidder into a settlement entry worth exactly the escrow of
/// the displaced bid, immediately claimable through the credential issued
/// with that bid. Credential issuance is the one capacity bound: the
/// identifier space must not be exhausted.
pub proof fn lemma_bid_improvement_accepted(s: StateV, id: u64, payment: Bucket)
    requires
        inv(s),
        s.bids.contains_key(id),
        payment.resource == s.ccy,
        payment.amount > s.bids[id].amount,
        s.next_cred < u64::MAX,
    ensures
        bid_spec(s, id, payment).1 == Ok::<u64, Error>(s.next_cred),
        bid_spec(s, id, payment).0.bids[id] == (Bid {
            bidder: s.next_cred,
            amount: payment.amount,
        }),
        bid_spec(s, id, payment).0.pending[s.bids[id].bidder] == (Pending {
            item: None,
            amount: s.bids[id].amount,
        }),
        withdraw_spec(bid_spec(s, id, payment).0, s.bids[id].bidder).1 == Ok::<
            Withdrawal,
            Error,
        >(
            Withdrawal {
                item: None,
                funds: Bucket { resource: s.ccy, amount: s.bids[id].amount },
            },
        ),
{
}

/// No double claim: once a claim on a credential has succeeded, a second
/// claim on the same credential fails with nothing to withdraw.
pub proof fn lemma_no_double_claim(s: StateV, cred: u64)
    requires
        withdraw_spec(s, cred).1 is Ok,
    ensures
        withdraw_spec(withdraw_spec(s, cred).0, cred).1 == Err::<Withdrawal, Error>(
            Error::NothingToWithdraw,
        ),
{
}

/// Collecting twice in a row yields nothing the second time: the first
/// collection empties the vault and zeroes the counter, so with no
/// intervening sale the second returns an empty amount.
pub proof fn lemma_collect_twice_empty(s: StateV)
    ensures
        collect_spec(collect_spec(s).0).1 == (Bucket { resource: s.ccy, amount: 0 }),
{
}

/// An exhausted whitelist credential is refused: once its usage counter has
/// reached the configured maximum, a further purchase presenting it fails
/// with the whitelist exhausted and the state does not change.
pub proof fn lemma_whitelist_exhausted(
    s: StateV,
    id: u64,
    payment: Bucket,
    b: Badge,
    now: u64,
    w: Whitelist,
)
    requires
        inv(s),
        s.status is Ongoing,
        s.whitelist == Some(w),
        b.resource == w.gate,
        usage_of(s, b.id) >= w.max_uses as int,
    ensures
        buy_spec(s, id, payment, Some(b), now).1 == Err::<crate::auction::Purchase, Error>(
            Error::WhitelistExhausted,
        ),
        buy_spec(s, id, payment, Some(b), now).0 == s,
{
}

/// Each successful whitelisted purchase moves the presented credential's
/// usage counter up by exactly one; other credentials' counters do not move.
/// Together with [`lemma_whitelist_exhausted`], after the configured maximum
/// number of successful purchases with one credential the next attempt with
/// it fails.
pub proof fn lemma_whitelist_counts(
    s: StateV,
    id: u64,
    payment: Bucket,
    b: Badge,
    now: u64,
)
    requires
        inv(s),
        s.whitelist is Some,
        buy_spec(s, id, payment, Some(b), now).1 is Ok,
    ensures
        usage_of(buy_spec(s, id, payment, Some(b), now).0, b.id) == usage_of(s, b.id) + 1,
        forall|c: u64|
            c != b.id ==> usage_of(buy_spec(s, id, payment, Some(b), now).0, c) == usage_of(s, c),
{
    assert(whitelist_error(s, Some(b)) is None);
    assert(usage_of(s, b.id) + 1 <= u16::MAX);
}

/// In every well-formed state a usage counter stands at most at the
/// configured maximum; the refusal begins exactly at the maximum, never
/// later. Together with [`lemma_whitelist_counts`] and
/// [`lemma_whitelist_exhausted`], a credential covers exactly the configured
/// number of purchases.
pub proof fn lemma_whitelist_usage_bounded(s: StateV, c: u64, w: Whitelist)
    requires
        inv(s),
        s.whitelist == Some(w),
    ensures
        usage_of(s, c) <= w.max_uses as int,
{
}

/// The state after a run of purchases, each presenting the credential `b`.
/// Each element of `reqs` is one purchase call: the requested item, the
/// payment, and the epoch of the call.
pub open spec fn purchases_after(s: StateV, b: Badge, reqs: Seq<(u64, Bucket, u64)>) -> StateV
    decreases reqs.len(),
{
    if reqs.len() == 0 {
        s
    } else {
        buy_spec(
            purchases_after(s, b, reqs.drop_last()),
            reqs.last().0,
            reqs.last().1,
            Some(b),
            reqs.last().2,
        ).0
    }
}

/// Whether every purchase of the run succeeds.
pub open spec fn all_purchases_succeed(s: StateV, b: Badge, reqs: Seq<(u64, Bucket, u64)>) -> bool
    decreases reqs.len(),
{
    if reqs.len() == 0 {
        true
    } else {
        all_purchases_succeed(s, b, reqs.drop_last()) && buy_spec(
            purchases_after(s, b, reqs.drop_last()),
            reqs.last().0,
            reqs.last().1,
            Some(b),
            reqs.last().2,
        ).1 is Ok
    }
}

/// A run of successful purchases with one credential moves its usage counter
/// up by exactly the length of the run, preserves the invariant, and touches
/// neither the lifecycle position nor the whitelist configuration.
pub proof fn lemma_whitelist_usage_counts_run(s: StateV, b: Badge, reqs: Seq<(u64, Bucket, u64)>)
    requires
        inv(s),
        s.whitelist is Some,
        all_purchases_succeed(s, b, reqs),
    ensures
        inv(purchases_after(s, b, reqs)),
        purchases_after(s, b, reqs).whitelist == s.whitelist,
        purchases_after(s, b, reqs).status == s.status,
        usage_of(purchases_after(s, b, reqs), b.id) == usage_of(s, b.id) + reqs.len(),
    decreases reqs.len(),
{
    if reqs.len() != 0 {
        lemma_whitelist_usage_counts_run(s, b, reqs.drop_last());
        let mid = purchases_after(s, b, reqs.drop_last());
        lemma_buy_preserves_inv(mid, reqs.last().0, reqs.last().1, Some(b), reqs.last().2);
        lemma_whitelist_counts(mid, reqs.last().0, reqs.last().1, b, reqs.last().2);
    }
}

/// The whitelist limit holds over a whole lifetime: starting from a state
/// where a credential is unused, after exactly the configured maximum number
/// of successful purchases with it, the next purchase attempt presenting the
/// same credential fails with the whitelist exhausted.
pub proof fn lemma_whitelist_limit(
    s: StateV,
    b: Badge,
    reqs: Seq<(u64, Bucket, u64)>,
    w: Whitelist,
    id: u64,
    payment: Bucket,
    now: u64,
)
    requires
        inv(s),
        s.status is Ongoing,
        s.whitelist == Some(w),
        b.resource == w.gate,
        usage_of(s, b.id) == 0,
        reqs.len() == w.max_uses as int,
        all_purchases_succeed(s, b, reqs),
    ensures
        buy_spec(purchases_after(s, b, reqs), id, payment, Some(b), now).1 == Err::<
            crate::auction::Purchase,
            Error,
        >(Error::WhitelistExhausted),
{
    lemma_whitelist_usage_counts_run(s, b, reqs);
    lemma_whitelist_exhausted(purchases_after(s, b, reqs), id, payment, b, now, w);
}

/// An english close settles every live bid in the winner's favor: the
/// credential issued with a bid still live at the close claims exactly the
/// won item, with zero currency.
pub proof fn lemma_close_settles_winners(s: StateV, now: u64, id: u64)
    requires
        inv(s),
        s.status is Ongoing,
        s.policy is English,
        close_spec(s, now).1 is Ok,
        s.bids.contains_key(id),
    ensures
        withdraw_spec(close_spec(s, now).0, s.bids[id].bidder).1 == Ok::<Withdrawal, Error>(
            Withdrawal {
                item: Some(id),
                funds: Bucket { resource: s.ccy, amount: 0 },
            },
        ),
{
    let s2 = close_spec(s, now).0;
    let c = s.bids[id].bidder;
    assert(s.bids.dom().contains(id));
    assert(is_winner(s.bids, c));
    let kw = crate::auction::item_won(s.bids, c);
    assert(s.bids.dom().contains(kw) && s.bids[kw].bidder == c);
    assert(kw == id);
    assert(s2.pending.contains_key(c));
    assert(s2.pending[c] == (Pending { item: Some(id), amount: 0 }));
}

} // verus!
