//! The auction controller: one pricing policy, the inventory ledger, the live
//! bid ledger, the settlement ledger, and the vaults that hold custody of the
//! items and the collected currency.
//!
//! Every public operation is atomic: it either applies all of its described
//! mutations or fails with an [`Error`] and changes nothing. Each operation's
//! contract equates the controller's new state and result with a functional
//! model of the operation over the abstract state [`StateV`]; the laws the
//! engine guarantees are proved against those models in [`crate::laws`].
//!
//! Identity enforcement is an external collaborator: the operations reserved
//! to the issuer (configuration, minting, starting, closing, collecting) must
//! be gated by an authorization check before they reach this controller.

use crate::errors::Error;
use crate::inventory::{Inventory, ItemV, NFT, NftV, all_unavailable};
use crate::policy::{AuctionType, current_price, spec_price};
use crate::table::{KvTable, as_map, has_key, lemma_as_map_contains, lemma_as_map_index};
use crate::vault::{Bucket, FungibleVault, ItemVault};
use vstd::prelude::*;

verus! {

/// The lifecycle of one auction instance: strictly forward, never re-entered.
#[derive(Clone, Copy, Debug, PartialEq, Eq, Structural)]
pub enum Status {
    /// Configuration is still open; no purchase or bid is accepted.
    NotStarted,
    /// The auction runs: purchases or bids are accepted under the policy.
    Ongoing,
    /// The auction was closed and swept; nothing further is sold.
    Closed,
}

/// The whitelist gate: purchases must present a credential of the gating
/// class, and each credential covers at most `max_uses` purchases.
#[derive(Clone, Copy, Debug, PartialEq, Eq, Structural)]
pub struct Whitelist {
    /// The asset class of accepted credentials.
    pub gate: u64,
    /// How many purchases one credential covers.
    pub max_uses: u16,
}

/// A whitelist credential presented with a purchase. It is returned to the
/// caller unconsumed; only its per-credential usage counter moves.
#[derive(Clone, Copy, Debug, PartialEq, Eq, Structural)]
pub struct Badge {
    /// The asset class the credential belongs to.
    pub resource: u64,
    /// The credential's identifier within its class.
    pub id: u64,
}

/// The live bid on one item: the bidder's single-use credential and the
/// escrowed amount.
#[derive(Clone, Copy, Debug, PartialEq, Eq, Structural)]
pub struct Bid {
    /// The credential issued to the bidder when this bid was placed.
    pub bidder: u64,
    /// The escrowed bid amount, in subunits.
    pub amount: u128,
}

impl View for Bid {
    type V = Bid;

    open spec fn view(&self) -> Bid {
        *self
    }
}

/// Value owed to one credential holder: an item, an amount of currency, or
/// both, claimable exactly once.
#[derive(Clone, Copy, Debug, PartialEq, Eq)]
pub struct Pending {
    /// The item owed, if any.
    pub item: Option<u64>,
    /// The currency owed, in subunits.
    pub amount: u128,
}

impl View for Pending {
    type V = Pending;

    open spec fn view(&self) -> Pending {
        *self
    }
}

/// What a successful purchase hands back: the item, the unconsumed remainder
/// of the payment, and the presented whitelist credential, if any.
#[derive(Clone, Copy, Debug, PartialEq, Eq)]
pub struct Purchase {
    /// The purchased item.
    pub nft_id: u64,
    /// The change: the payment minus the price.
    pub change: Bucket,
    /// The whitelist credential handed back unconsumed.
    pub badge: Option<Badge>,
}

/// What a successful claim hands back: the owed item, if any, and the owed
/// currency.
#[derive(Clone, Copy, Debug, PartialEq, Eq)]
pub struct Withdrawal {
    /// The item owed, if any.
    pub item: Option<u64>,
    /// The currency owed.
    pub funds: Bucket,
}

/// What closing hands back to the issuer: the swept items and the swept
/// proceeds. An english-mode close moves everything through the settlement
/// ledger and the collected vault instead, and returns an empty sweep.
pub struct CloseProceeds {
    /// The identifiers of the swept items.
    pub items: Vec<u64>,
    /// The swept proceeds.
    pub funds: Bucket,
}

/// The abstract close result: the swept items as a set, and the proceeds.
#[verifier::ext_equal]
pub struct CloseV {
    pub items: Set<u64>,
    pub funds: Bucket,
}

/// The abstract state of the controller. Each operation's contract is stated
/// as a function over this state.
#[verifier::ext_equal]
pub struct StateV {
    /// Lifecycle position.
    pub status: Status,
    /// The active pricing policy.
    pub policy: AuctionType,
    /// The asset class of the settlement currency.
    pub ccy: u64,
    /// The display name of the collection; never read by the engine.
    pub collection_name: Seq<char>,
    /// The inventory ledger: every item ever minted.
    pub items: Map<u64, ItemV>,
    /// The next item identifier the registry will assign.
    pub next_item: u64,
    /// The next bidder credential the registry will assign.
    pub next_cred: u64,
    /// The balance of the collected-currency vault, in subunits.
    pub collected: u128,
    /// The running amount-available-to-collect counter.
    pub to_collect: u128,
    /// The whitelist gate, if one is configured.
    pub whitelist: Option<Whitelist>,
    /// Per-credential whitelist usage counters.
    pub usage: Map<u64, u16>,
    /// The live bid per item, english mode only.
    pub bids: Map<u64, Bid>,
    /// The settlement ledger: value owed per credential.
    pub pending: Map<u64, Pending>,
}

/// The state invariant every public operation preserves.
pub open spec fn inv(s: StateV) -> bool {
    &&& s.to_collect == s.collected
    &&& (forall|k: u64| #[trigger] s.items.contains_key(k) ==> k < s.next_item)
    &&& (forall|k: u64| #[trigger]
        s.bids.contains_key(k) ==> s.items.contains_key(k) && s.items[k].available)
    &&& (forall|k: u64| #[trigger] s.bids.contains_key(k) ==> s.bids[k].bidder < s.next_cred)
    &&& (forall|c: u64| #[trigger] s.pending.contains_key(c) ==> c < s.next_cred)
    &&& (forall|k1: u64, k2: u64|
        s.bids.contains_key(k1) && s.bids.contains_key(k2) && k1 != k2
            ==> s.bids[k1].bidder != s.bids[k2].bidder)
    &&& (forall|k: u64| #[trigger]
        s.bids.contains_key(k) ==> !s.pending.contains_key(s.bids[k].bidder))
    &&& (forall|k: u64| #[trigger]
        s.bids.contains_key(k) ==> match s.policy {
            AuctionType::English { min_bid, .. } => s.bids[k].amount >= min_bid,
            _ => true,
        })
    &&& (!(s.policy is English) ==> forall|k: u64| !s.bids.contains_key(k))
    &&& (s.status != Status::Ongoing ==> forall|k: u64| !s.bids.contains_key(k))
    &&& (s.status != Status::NotStarted ==> !(s.policy is Unset))
    &&& (s.status is NotStarted ==> forall|c: u64| !s.usage.contains_key(c))
    &&& (s.whitelist is None ==> forall|c: u64| !s.usage.contains_key(c))
    &&& (s.whitelist is Some ==> forall|c: u64| #[trigger]
        s.usage.contains_key(c) ==> 1 <= s.usage[c] <= s.whitelist.unwrap().max_uses)
}

/// The state of a freshly instantiated controller.
pub open spec fn initial_state(ccy: u64, collection_name: Seq<char>) -> StateV {
    StateV {
        status: Status::NotStarted,
        policy: AuctionType::Unset,
        ccy,
        collection_name,
        items: Map::empty(),
        next_item: 0,
        next_cred: 0,
        collected: 0,
        to_collect: 0,
        whitelist: None,
        usage: Map::empty(),
        bids: Map::empty(),
        pending: Map::empty(),
    }
}

/// Configuring a fixed price: allowed only before the auction starts.
pub open spec fn set_fixed_spec(s: StateV, cost: u128) -> (StateV, Result<(), Error>) {
    if s.status is NotStarted {
        (StateV { policy: AuctionType::Fixed { cost }, ..s }, Ok(()))
    } else {
        (s, Err(Error::Configuration))
    }
}

/// Configuring a dutch price starting at the current epoch: allowed only
/// before the auction starts.
pub open spec fn set_dutch_spec(
    s: StateV,
    initial: u128,
    decrease: u128,
    now: u64,
    duration: u64,
) -> (StateV, Result<(), Error>) {
    if s.status is NotStarted {
        (StateV { policy: AuctionType::Dutch { initial, decrease, start: now, duration }, ..s },
        Ok(()))
    } else {
        (s, Err(Error::Configuration))
    }
}

/// Configuring english bidding starting at the current epoch: allowed only
/// before the auction starts.
pub open spec fn set_english_spec(
    s: StateV,
    min_bid: u128,
    now: u64,
    duration: u64,
) -> (StateV, Result<(), Error>) {
    if s.status is NotStarted {
        (StateV { policy: AuctionType::English { min_bid, start: now, duration }, ..s }, Ok(()))
    } else {
        (s, Err(Error::Configuration))
    }
}

/// Configuring the whitelist gate: allowed only before the auction starts.
pub open spec fn set_whitelist_spec(s: StateV, gate: u64, max_uses: u16) -> (
    StateV,
    Result<(), Error>,
) {
    if s.status is NotStarted {
        (StateV { whitelist: Some(Whitelist { gate, max_uses }), ..s }, Ok(()))
    } else {
        (s, Err(Error::Configuration))
    }
}

/// Starting the auction: needs a pristine instance and a configured policy.
pub open spec fn start_spec(s: StateV) -> (StateV, Result<(), Error>) {
    if !(s.status is NotStarted) {
        (s, Err(Error::AlreadyStartedOrClosed))
    } else if s.policy is Unset {
        (s, Err(Error::Configuration))
    } else {
        (StateV { status: Status::Ongoing, ..s }, Ok(()))
    }
}

/// Minting: the registry assigns the next identifier and the item enters the
/// inventory available, in the item vault's custody.
pub open spec fn mint_spec(s: StateV, nft: NftV) -> (StateV, Result<u64, Error>) {
    if s.next_item == u64::MAX {
        (s, Err(Error::Overflow))
    } else {
        (
            StateV {
                items: s.items.insert(s.next_item, ItemV { available: true, nft }),
                next_item: (s.next_item + 1) as u64,
                ..s
            },
            Ok(s.next_item),
        )
    }
}

/// How often the credential `cred` has been used for a purchase.
pub open spec fn usage_of(s: StateV, cred: u64) -> int {
    if s.usage.contains_key(cred) {
        s.usage[cred] as int
    } else {
        0
    }
}

/// Why the whitelist gate rejects this purchase, if it does: no gate means no
/// objection; a gate demands a credential of the gating class with at least
/// one use left.
pub open spec fn whitelist_error(s: StateV, badge: Option<Badge>) -> Option<Error> {
    match s.whitelist {
        None => None,
        Some(w) => match badge {
            None => Some(Error::WhitelistCredentialMismatch),
            Some(b) => if b.resource != w.gate {
                Some(Error::WhitelistCredentialMismatch)
            } else if usage_of(s, b.id) >= w.max_uses as int {
                Some(Error::WhitelistExhausted)
            } else {
                None
            },
        },
    }
}

/// The usage counters after a successful purchase: the presented credential's
/// counter moves up by one.
pub open spec fn bump_usage(s: StateV, badge: Option<Badge>) -> Map<u64, u16> {
    match (s.whitelist, badge) {
        (Some(w), Some(b)) => s.usage.insert(b.id, (usage_of(s, b.id) + 1) as u16),
        _ => s.usage,
    }
}

/// An immediate purchase. In order, the call must find: a running auction;
/// the whitelist gate passed; a policy that allows immediate purchase; a
/// payment in the settlement currency covering the current price; the item in
/// custody; and room in the collected vault. It then swaps the item against
/// exactly the price, and hands back the item, the change and the credential.
pub open spec fn buy_spec(
    s: StateV,
    id: u64,
    payment: Bucket,
    badge: Option<Badge>,
    now: u64,
) -> (StateV, Result<Purchase, Error>) {
    if s.status is NotStarted {
        (s, Err(Error::NotStarted))
    } else if s.status is Closed {
        (s, Err(Error::AlreadyStartedOrClosed))
    } else if whitelist_error(s, badge) is Some {
        (s, Err(whitelist_error(s, badge).unwrap()))
    } else {
        match spec_price(s.policy, now) {
            None => (s, Err(Error::AuctionNotPurchasable)),
            Some(price) => if payment.resource != s.ccy {
                (s, Err(Error::CurrencyMismatch))
            } else if (payment.amount as int) < price {
                (s, Err(Error::InsufficientPayment))
            } else if !(s.items.contains_key(id) && s.items[id].available) {
                (s, Err(Error::ItemUnavailable))
            } else if s.collected + price > u128::MAX {
                (s, Err(Error::Overflow))
            } else {
                (
                    StateV {
                        items: s.items.insert(
                            id,
                            ItemV { available: false, nft: s.items[id].nft },
                        ),
                        collected: (s.collected + price) as u128,
                        to_collect: (s.collected + price) as u128,
                        usage: bump_usage(s, badge),
                        ..s
                    },
                    Ok(
                        Purchase {
                            nft_id: id,
                            change: Bucket {
                                resource: s.ccy,
                                amount: (payment.amount - price) as u128,
                            },
                            badge,
                        },
                    ),
                )
            },
        }
    }
}

/// A purchase preserves the state invariant.
pub proof fn lemma_buy_preserves_inv(
    s: StateV,
    id: u64,
    payment: Bucket,
    badge: Option<Badge>,
    now: u64,
)
    requires
        inv(s),
    ensures
        inv(buy_spec(s, id, payment, badge, now).0),
{
    let s2 = buy_spec(s, id, payment, badge, now).0;
    if buy_spec(s, id, payment, badge, now).1 is Ok {
        assert(!(s.policy is English) && !(s.policy is Unset));
        assert(forall|k: u64| !s.bids.contains_key(k));
        assert forall|k: u64| #[trigger] s2.items.contains_key(k) implies k < s2.next_item by {
            assert(s.items.contains_key(k));
        }
        match (s.whitelist, badge) {
            (Some(w), Some(b)) => {
                assert(usage_of(s, b.id) < w.max_uses as int);
                assert forall|c: u64| #[trigger] s2.usage.contains_key(c) implies 1 <= s2.usage[c]
                    <= w.max_uses by {
                    if c != b.id {
                        assert(s.usage.contains_key(c));
                    }
                }
            },
            _ => {},
        }
    }
}

/// A competitive bid. The call must find a running english auction, a payment
/// in the settlement currency, the item in custody, and an amount at least
/// the minimum opening bid that strictly exceeds the live bid, if there is
/// one. The whole payment goes into escrow under a freshly issued credential;
/// a displaced bidder's escrow moves to the settlement ledger, claimable by
/// the credential issued with the displaced bid.
pub open spec fn bid_spec(s: StateV, id: u64, payment: Bucket) -> (
    StateV,
    Result<u64, Error>,
) {
    if s.status is NotStarted {
        (s, Err(Error::NotStarted))
    } else if s.status is Closed {
        (s, Err(Error::AlreadyStartedOrClosed))
    } else {
        match s.policy {
            AuctionType::English { min_bid, .. } => if payment.resource != s.ccy {
                (s, Err(Error::CurrencyMismatch))
            } else if !(s.items.contains_key(id) && s.items[id].available) {
                (s, Err(Error::ItemUnavailable))
            } else if payment.amount < min_bid {
                (s, Err(Error::BidTooLow))
            } else if s.bids.contains_key(id) && payment.amount <= s.bids[id].amount {
                (s, Err(Error::BidTooLow))
            } else if s.next_cred == u64::MAX {
                (s, Err(Error::Overflow))
            } else {
                let displaced = if s.bids.contains_key(id) {
                    s.pending.insert(
                        s.bids[id].bidder,
                        Pending { item: None, amount: s.bids[id].amount },
                    )
                } else {
                    s.pending
                };
                (
                    StateV {
                        bids: s.bids.insert(id, Bid { bidder: s.next_cred, amount: payment.amount }),
                        pending: displaced,
                        next_cred: (s.next_cred + 1) as u64,
                        ..s
                    },
                    Ok(s.next_cred),
                )
            },
            _ => (s, Err(Error::AuctionNotPurchasable)),
        }
    }
}

/// A bid preserves the state invariant.
pub proof fn lemma_bid_preserves_inv(s: StateV, id: u64, payment: Bucket)
    requires
        inv(s),
    ensures
        inv(bid_spec(s, id, payment).0),
{
    let s2 = bid_spec(s, id, payment).0;
    if bid_spec(s, id, payment).1 is Ok {
        let fresh = s.next_cred;
        assert forall|k: u64| #[trigger]
            s2.bids.contains_key(k) implies s2.items.contains_key(k)
            && s2.items[k].available by {
            if k != id {
                assert(s.bids.contains_key(k));
            }
        }
        assert forall|k: u64| #[trigger] s2.bids.contains_key(k) implies s2.bids[k].bidder
            < s2.next_cred by {
            if k != id {
                assert(s.bids.contains_key(k));
            }
        }
        assert forall|c: u64| #[trigger] s2.pending.contains_key(c) implies c < s2.next_cred by {
            if !s.pending.contains_key(c) {
                assert(s.bids.contains_key(id) && s.bids[id].bidder == c);
            }
        }
        assert forall|k1: u64, k2: u64|
            s2.bids.contains_key(k1) && s2.bids.contains_key(k2) && k1
                != k2 implies s2.bids[k1].bidder != s2.bids[k2].bidder by {
            if k1 != id && k2 != id {
                assert(s.bids.contains_key(k1) && s.bids.contains_key(k2));
            } else if k1 == id {
                assert(s.bids.contains_key(k2) && s.bids[k2].bidder < fresh);
            } else {
                assert(s.bids.contains_key(k1) && s.bids[k1].bidder < fresh);
            }
        }
        assert forall|k: u64| #[trigger]
            s2.bids.contains_key(k) implies !s2.pending.contains_key(s2.bids[k].bidder) by {
            if k == id {
                assert(s2.bids[k].bidder == fresh);
            } else {
                assert(s.bids.contains_key(k));
                if s.bids.contains_key(id) {
                    assert(s.bids[k].bidder != s.bids[id].bidder);
                }
            }
        }
    }
}

/// A claim against the settlement ledger: the credential is consumed, its
/// entry leaves the ledger, and the owed item and currency are handed over,
/// exactly once.
pub open spec fn withdraw_spec(s: StateV, cred: u64) -> (StateV, Result<Withdrawal, Error>) {
    if s.pending.contains_key(cred) {
        (
            StateV { pending: s.pending.remove(cred), ..s },
            Ok(
                Withdrawal {
                    item: s.pending[cred].item,
                    funds: Bucket { resource: s.ccy, amount: s.pending[cred].amount },
                },
            ),
        )
    } else {
        (s, Err(Error::NothingToWithdraw))
    }
}

/// Collecting the proceeds: the whole collected vault goes to the issuer and
/// the running counter drops to zero. Allowed in every lifecycle position.
pub open spec fn collect_spec(s: StateV) -> (StateV, Bucket) {
    (
        StateV { collected: 0, to_collect: 0, ..s },
        Bucket { resource: s.ccy, amount: s.collected },
    )
}

/// The sum of all escrowed bid amounts.
pub open spec fn sum_escrow(m: Map<u64, Bid>) -> int
    decreases m.dom().len(),
    when m.dom().finite()
{
    if m.dom().len() == 0 {
        0
    } else {
        let k = m.dom().choose();
        m[k].amount + sum_escrow(m.remove(k))
    }
}

/// The sum of the escrow amounts of a bid entry sequence.
pub open spec fn sum_seq(s: Seq<(u64, Bid)>) -> int
    decreases s.len(),
{
    if s.len() == 0 {
        0
    } else {
        sum_seq(s.drop_last()) + s.last().1.amount
    }
}

/// Removing one bid takes exactly its escrow out of the sum.
pub proof fn lemma_sum_escrow_remove(m: Map<u64, Bid>, k: u64)
    requires
        m.dom().finite(),
        m.contains_key(k),
    ensures
        sum_escrow(m) == m[k].amount + sum_escrow(m.remove(k)),
    decreases m.dom().len(),
{
    assert(m.dom().len() != 0) by {
        if m.dom().len() == 0 {
            m.dom().lemma_len0_is_empty();
        }
    }
    let k0 = m.dom().choose();
    assert(m.dom().contains(k0)) by {
        if !(exists|a: u64| m.dom().contains(a)) {
            assert(m.dom() =~= Set::empty());
        }
    }
    if k0 != k {
        lemma_sum_escrow_remove(m.remove(k0), k);
        lemma_sum_escrow_remove(m.remove(k), k0);
        assert(m.remove(k0).remove(k) =~= m.remove(k).remove(k0));
    }
}

/// Inserting one fresh bid adds exactly its escrow to the sum.
pub proof fn lemma_sum_escrow_insert(m: Map<u64, Bid>, k: u64, b: Bid)
    requires
        m.dom().finite(),
        !m.contains_key(k),
    ensures
        sum_escrow(m.insert(k, b)) == b.amount + sum_escrow(m),
{
    lemma_sum_escrow_remove(m.insert(k, b), k);
    assert(m.insert(k, b).remove(k) =~= m);
}

/// Walking one more bid entry extends the prefix sum by exactly its escrow.
pub proof fn lemma_sum_seq_take_step(s: Seq<(u64, Bid)>, i: int)
    requires
        0 <= i < s.len(),
    ensures
        sum_seq(s.take(i + 1)) == sum_seq(s.take(i)) + s[i].1.amount,
{
    assert(s.take(i + 1).drop_last() =~= s.take(i));
    assert(s.take(i + 1).last() == s[i]);
}

/// A prefix sum never exceeds the whole sum.
pub proof fn lemma_sum_seq_take_le(s: Seq<(u64, Bid)>, i: int)
    requires
        0 <= i <= s.len(),
    ensures
        sum_seq(s.take(i)) <= sum_seq(s),
    decreases s.len() - i,
{
    if i == s.len() {
        assert(s.take(i) =~= s);
    } else {
        lemma_sum_seq_take_step(s, i);
        lemma_sum_seq_take_le(s, i + 1);
    }
}

/// On distinct keys, the sum over the entry sequence is the sum over the map.
pub proof fn lemma_sum_seq_as_map(s: Seq<(u64, Bid)>)
    requires
        crate::table::distinct_keys(s),
    ensures
        as_map(s).dom().finite(),
        sum_escrow(as_map(s)) == sum_seq(s),
    decreases s.len(),
{
    crate::table::lemma_as_map_finite(s);
    if s.len() == 0 {
        assert(as_map(s).dom() =~= Set::<u64>::empty());
    } else {
        assert(crate::table::distinct_keys(s.drop_last())) by {
            assert(forall|x: int, y: int|
                0 <= x < y < s.drop_last().len() ==> s.drop_last()[x] == s[x]
                    && s.drop_last()[y] == s[y]);
        }
        lemma_sum_seq_as_map(s.drop_last());
        assert(!has_key(s.drop_last(), s.last().0)) by {
            assert forall|j: int| 0 <= j < s.drop_last().len() implies s.drop_last()[j].0
                != s.last().0 by {
                assert(s.drop_last()[j] == s[j]);
            }
        }
        lemma_as_map_contains(s.drop_last(), s.last().0);
        lemma_sum_escrow_insert(as_map(s.drop_last()), s.last().0, s.last().1);
    }
}

/// Whether some live bid issued the credential `c`.
pub open spec fn is_winner(bids: Map<u64, Bid>, c: u64) -> bool {
    exists|k: u64| #[trigger] bids.dom().contains(k) && bids[k].bidder == c
}

/// The item the credential `c` won. Meaningful only when [`is_winner`] holds;
/// under the state invariant the winning item is unique.
pub open spec fn item_won(bids: Map<u64, Bid>, c: u64) -> u64 {
    choose|k: u64| #[trigger] bids.dom().contains(k) && bids[k].bidder == c
}

/// The inventory after every item under a live bid is sold to its bidder.
pub open spec fn settle_items(items: Map<u64, ItemV>, bids: Map<u64, Bid>) -> Map<u64, ItemV> {
    Map::new(
        |k: u64| items.contains_key(k),
        |k: u64| if bids.contains_key(k) {
            ItemV { available: false, nft: items[k].nft }
        } else {
            items[k]
        },
    )
}

/// The settlement ledger after every winning credential is owed its item.
pub open spec fn settle_pending(pending: Map<u64, Pending>, bids: Map<u64, Bid>) -> Map<
    u64,
    Pending,
> {
    Map::new(
        |c: u64| pending.contains_key(c) || is_winner(bids, c),
        |c: u64| if is_winner(bids, c) {
            Pending { item: Some(item_won(bids, c)), amount: 0 }
        } else {
            pending[c]
        },
    )
}

/// Closing. In english mode, once the bidding period has elapsed, every live
/// bid settles: the item goes to the winning credential's settlement entry,
/// the escrow goes into the collected vault, and the policy converts to a
/// fixed price at the minimum opening bid so unsold items stay purchasable.
/// In every other mode the remaining items and proceeds are swept back to the
/// issuer in one shot and the auction closes for good.
pub open spec fn close_spec(s: StateV, now: u64) -> (StateV, Result<CloseV, Error>) {
    if s.status is NotStarted {
        (s, Err(Error::NotStarted))
    } else if s.status is Closed {
        (s, Err(Error::AlreadyStartedOrClosed))
    } else {
        match s.policy {
            AuctionType::English { min_bid, start, duration } => if (now as int) < start
                + duration {
                (s, Err(Error::TooEarlyToClose))
            } else if s.collected + sum_escrow(s.bids) > u128::MAX {
                (s, Err(Error::Overflow))
            } else {
                (
                    StateV {
                        policy: AuctionType::Fixed { cost: min_bid },
                        items: settle_items(s.items, s.bids),
                        bids: Map::empty(),
                        pending: settle_pending(s.pending, s.bids),
                        collected: (s.collected + sum_escrow(s.bids)) as u128,
                        to_collect: (s.collected + sum_escrow(s.bids)) as u128,
                        ..s
                    },
                    Ok(
                        CloseV {
                            items: Set::empty(),
                            funds: Bucket { resource: s.ccy, amount: 0 },
                        },
                    ),
                )
            },
            _ => (
                StateV {
                    status: Status::Closed,
                    items: all_unavailable(s.items),
                    collected: 0,
                    to_collect: 0,
                    ..s
                },
                Ok(
                    CloseV {
                        items: Set::new(
                            |k: u64| s.items.contains_key(k) && s.items[k].available,
                        ),
                        funds: Bucket { resource: s.ccy, amount: s.collected },
                    },
                ),
            ),
        }
    }
}

/// Closing preserves the state invariant.
pub proof fn lemma_close_preserves_inv(s: StateV, now: u64)
    requires
        inv(s),
    ensures
        inv(close_spec(s, now).0),
{
    let s2 = close_spec(s, now).0;
    if s.status is Ongoing {
        match s.policy {
            AuctionType::English { min_bid, start, duration } => {
                if start + duration <= now as int && s.collected + sum_escrow(s.bids)
                    <= u128::MAX {
                    assert forall|c: u64| #[trigger] s2.pending.contains_key(c) implies c
                        < s2.next_cred by {
                        if is_winner(s.bids, c) {
                            let k = choose|k: u64| #[trigger]
                                s.bids.dom().contains(k) && s.bids[k].bidder == c;
                            assert(s.bids.contains_key(k));
                        }
                    }
                    assert(forall|k: u64| !s2.bids.contains_key(k));
                }
            },
            _ => {},
        }
    }
}

/// The auction controller. One instance runs one collection under one
/// settlement currency.
pub struct NftProject {
    status: Status,
    policy: AuctionType,
    collection_name: String,
    inventory: Inventory,
    nft_vault: ItemVault,
    ccy_vault: FungibleVault,
    amount_to_collect: u128,
    next_item: u64,
    next_cred: u64,
    whitelist: Option<Whitelist>,
    usage: KvTable<u16>,
    bids: KvTable<Bid>,
    pending: KvTable<Pending>,
}

impl View for NftProject {
    type V = StateV;

    closed spec fn view(&self) -> StateV {
        StateV {
            status: self.status,
            policy: self.policy,
            ccy: self.ccy_vault.resource(),
            collection_name: self.collection_name@,
            items: self.inventory@,
            next_item: self.next_item,
            next_cred: self.next_cred,
            collected: self.ccy_vault.amount(),
            to_collect: self.amount_to_collect,
            whitelist: self.whitelist,
            usage: self.usage@,
            bids: self.bids@,
            pending: self.pending@,
        }
    }
}

impl NftProject {
    /// The item vault holds exactly the items the inventory flags available:
    /// custody and bookkeeping agree.
    pub closed spec fn vault_synced(self) -> bool {
        forall|k: u64|
            #![trigger self.nft_vault@.contains(k)]
            #![trigger self.inventory@.contains_key(k)]
            self.nft_vault@.contains(k) <==> (self.inventory@.contains_key(k)
                && self.inventory@[k].available)
    }

    /// Internal well-formedness: the ledgers are well formed, the item vault
    /// holds exactly the available items, and the abstract invariant holds.
    pub closed spec fn wf(self) -> bool {
        &&& self.inventory.wf()
        &&& self.nft_vault.wf()
        &&& self.usage.wf()
        &&& self.bids.wf()
        &&& self.pending.wf()
        &&& self.vault_synced()
        &&& inv(self@)
    }

    /// Creates a fresh controller for one collection, settling in the
    /// currency class `ccy_addr`. Nothing is configured, minted or collected
    /// yet.
    pub fn instantiate_component(ccy_addr: u64, collection_name: String) -> (r: Self)
        ensures
            r.wf(),
            r@ == initial_state(ccy_addr, collection_name@),
    {
        let r = NftProject {
            status: Status::NotStarted,
            policy: AuctionType::Unset,
            collection_name,
            inventory: Inventory::new(),
            nft_vault: ItemVault::new(),
            ccy_vault: FungibleVault::new(ccy_addr),
            amount_to_collect: 0,
            next_item: 0,
            next_cred: 0,
            whitelist: None,
            usage: KvTable::new(),
            bids: KvTable::new(),
            pending: KvTable::new(),
        };
        proof {
            assert(r@ =~~= initial_state(ccy_addr, collection_name@));
        }
        r
    }

    /// Switches the policy to a fixed price; only a not-yet-started auction
    /// may be reconfigured.
    pub fn set_auction_fixed(&mut self, cost: u128) -> (r: Result<(), Error>)
        requires
            old(self).wf(),
        ensures
            final(self).wf(),
            final(self)@ == set_fixed_spec(old(self)@, cost).0,
            r == set_fixed_spec(old(self)@, cost).1,
    {
        match self.status {
            Status::NotStarted => {
                self.policy = AuctionType::Fixed { cost };
                proof {
                    assert(self@ =~~= set_fixed_spec(old(self)@, cost).0);
                }
                Ok(())
            },
            _ => Err(Error::Configuration),
        }
    }

    /// Switches the policy to a dutch price declining from `initial_cost` by
    /// `cost_decrease` per epoch over `length` epochs, starting at the
    /// current epoch `now`; only a not-yet-started auction may be
    /// reconfigured.
    pub fn set_auction_dutch(
        &mut self,
        initial_cost: u128,
        cost_decrease: u128,
        now: u64,
        length: u64,
    ) -> (r: Result<(), Error>)
        requires
            old(self).wf(),
        ensures
            final(self).wf(),
            final(self)@ == set_dutch_spec(old(self)@, initial_cost, cost_decrease, now, length).0,
            r == set_dutch_spec(old(self)@, initial_cost, cost_decrease, now, length).1,
    {
        match self.status {
            Status::NotStarted => {
                self.policy = AuctionType::Dutch {
                    initial: initial_cost,
                    decrease: cost_decrease,
                    start: now,
                    duration: length,
                };
                proof {
                    assert(self@ =~~= set_dutch_spec(
                        old(self)@,
                        initial_cost,
                        cost_decrease,
                        now,
                        length,
                    ).0);
                }
                Ok(())
            },
            _ => Err(Error::Configuration),
        }
    }

    /// Switches the policy to english bidding from `min_bid` over `length`
    /// epochs, starting at the current epoch `now`; only a not-yet-started
    /// auction may be reconfigured.
    pub fn set_auction_english(&mut self, min_bid: u128, now: u64, length: u64) -> (r: Result<
        (),
        Error,
    >)
        requires
            old(self).wf(),
        ensures
            final(self).wf(),
            final(self)@ == set_english_spec(old(self)@, min_bid, now, length).0,
            r == set_english_spec(old(self)@, min_bid, now, length).1,
    {
        match self.status {
            Status::NotStarted => {
                self.policy = AuctionType::English { min_bid, start: now, duration: length };
                proof {
                    assert(self@ =~~= set_english_spec(old(self)@, min_bid, now, length).0);
                }
                Ok(())
            },
            _ => Err(Error::Configuration),
        }
    }

    /// Configures the whitelist gate; only a not-yet-started auction may be
    /// reconfigured.
    pub fn set_whitelist(&mut self, address: u64, max: u16) -> (r: Result<(), Error>)
        requires
            old(self).wf(),
        ensures
            final(self).wf(),
            final(self)@ == set_whitelist_spec(old(self)@, address, max).0,
            r == set_whitelist_spec(old(self)@, address, max).1,
    {
        match self.status {
            Status::NotStarted => {
                self.whitelist = Some(Whitelist { gate: address, max_uses: max });
                proof {
                    assert(self@ =~~= set_whitelist_spec(old(self)@, address, max).0);
                }
                Ok(())
            },
            _ => Err(Error::Configuration),
        }
    }

    /// Starts the auction: needs a configured policy, transitions the
    /// lifecycle to ongoing.
    pub fn start_auction(&mut self) -> (r: Result<(), Error>)
        requires
            old(self).wf(),
        ensures
            final(self).wf(),
            final(self)@ == start_spec(old(self)@).0,
            r == start_spec(old(self)@).1,
    {
        match self.status {
            Status::NotStarted => {
                match self.policy {
                    AuctionType::Unset => Err(Error::Configuration),
                    _ => {
                        self.status = Status::Ongoing;
                        proof {
                            assert(self@ =~~= start_spec(old(self)@).0);
                        }
                        Ok(())
                    },
                }
            },
            _ => Err(Error::AlreadyStartedOrClosed),
        }
    }

    /// Mints one item: the registry assigns the next identifier, the item
    /// enters the inventory available and the item vault's custody, and its
    /// display metadata is recorded.
    pub fn mint_nft(&mut self, name: String, url: String, metadata: String) -> (r: Result<
        u64,
        Error,
    >)
        requires
            old(self).wf(),
        ensures
            final(self).wf(),
            final(self)@ == mint_spec(
                old(self)@,
                NftV { name: name@, key_image_url: url@, metadata: metadata@ },
            ).0,
            r == mint_spec(
                old(self)@,
                NftV { name: name@, key_image_url: url@, metadata: metadata@ },
            ).1,
    {
        if self.next_item == u64::MAX {
            return Err(Error::Overflow);
        }
        let id = self.next_item;
        let nft = NFT::new(name, url, metadata);
        let minted = self.inventory.mint(id, nft);
        proof {
            assert(minted is Ok);
        }
        self.nft_vault.put(id);
        self.next_item = id + 1;
        proof {
            let nv = NftV { name: name@, key_image_url: url@, metadata: metadata@ };
            assert(self@ =~~= mint_spec(old(self)@, nv).0);
            assert forall|k: u64|
                #![trigger self.nft_vault@.contains(k)]
                #![trigger self.inventory@.contains_key(k)]
                self.nft_vault@.contains(k) <==> (self.inventory@.contains_key(k)
                    && self.inventory@[k].available) by {
                if k != id {
                    assert(old(self).nft_vault@.contains(k) <==> (old(
                        self,
                    ).inventory@.contains_key(k) && old(self).inventory@[k].available));
                    assert(old(self).nft_vault@.contains(k) <==> self.nft_vault@.contains(k)) by {
                        if old(self).nft_vault@.contains(k) {
                            let j = choose|j: int|
                                0 <= j < old(self).nft_vault@.len() && old(self).nft_vault@[j]
                                    == k;
                            assert(self.nft_vault@[j] == k);
                        }
                        if self.nft_vault@.contains(k) {
                            let j = choose|j: int|
                                0 <= j < self.nft_vault@.len() && self.nft_vault@[j] == k;
                            if j < old(self).nft_vault@.len() {
                                assert(old(self).nft_vault@[j] == k);
                            }
                        }
                    }
                    assert(self.inventory@.contains_key(k) <==> old(self).inventory@.contains_key(
                        k,
                    ));
                } else {
                    assert(self.nft_vault@[self.nft_vault@.len() - 1] == id);
                    assert(self.nft_vault@.contains(id));
                    assert(self.inventory@[id].available);
                }
            }
        }
        Ok(id)
    }

    /// Buys the item `id` outright at the current price. The whitelist gate
    /// is consulted first; the payment must be in the settlement currency and
    /// cover the price; the item leaves custody against exactly the price,
    /// and the caller receives the item, the change, and the presented
    /// credential back. Any failure leaves the state untouched.
    pub fn buy_nft(&mut self, id: u64, payment: Bucket, badge: Option<Badge>, now: u64) -> (r:
        Result<Purchase, Error>)
        requires
            old(self).wf(),
        ensures
            final(self).wf(),
            final(self)@ == buy_spec(old(self)@, id, payment, badge, now).0,
            r == buy_spec(old(self)@, id, payment, badge, now).1,
    {
        match self.status {
            Status::NotStarted => return Err(Error::NotStarted),
            Status::Closed => return Err(Error::AlreadyStartedOrClosed),
            Status::Ongoing => {},
        }
        let bump: Option<(u64, u16)> = match self.whitelist {
            Some(w) => match badge {
                None => return Err(Error::WhitelistCredentialMismatch),
                Some(b) => {
                    if b.resource != w.gate {
                        return Err(Error::WhitelistCredentialMismatch);
                    }
                    let used: u16 = match self.usage.get(b.id) {
                        Some(u) => *u,
                        None => 0,
                    };
                    if used >= w.max_uses {
                        return Err(Error::WhitelistExhausted);
                    }
                    Some((b.id, used + 1))
                },
            },
            None => None,
        };
        let price: u128 = match current_price(&self.policy, now) {
            Some(p) => p,
            None => return Err(Error::AuctionNotPurchasable),
        };
        if payment.resource != self.ccy_vault.resource_id() {
            return Err(Error::CurrencyMismatch);
        }
        if payment.amount < price {
            return Err(Error::InsufficientPayment);
        }
        proof {
            assert(old(self).nft_vault@.contains(id) <==> (old(self).inventory@.contains_key(id)
                && old(self).inventory@[id].available));
        }
        if !self.nft_vault.has(id) {
            return Err(Error::ItemUnavailable);
        }
        if price > u128::MAX - self.ccy_vault.balance() {
            return Err(Error::Overflow);
        }
        let _ = self.nft_vault.take(id);
        let marked = self.inventory.mark_unavailable(id);
        proof {
            assert(marked is Ok);
        }
        let deposited = self.ccy_vault.put(Bucket { resource: payment.resource, amount: price });
        proof {
            assert(deposited is Ok);
        }
        self.amount_to_collect = self.ccy_vault.balance();
        if let Some((cred, count)) = bump {
            self.usage.insert(cred, count);
        }
        proof {
            assert(self@ =~~= buy_spec(old(self)@, id, payment, badge, now).0);
            assert forall|k: u64|
                #![trigger self.nft_vault@.contains(k)]
                #![trigger self.inventory@.contains_key(k)]
                self.nft_vault@.contains(k) <==> (self.inventory@.contains_key(k)
                    && self.inventory@[k].available) by {
                assert(old(self).nft_vault@.contains(k) <==> (old(self).inventory@.contains_key(k)
                    && old(self).inventory@[k].available));
            }
            assert(forall|k: u64| !self@.bids.contains_key(k));
        }
        Ok(
            Purchase {
                nft_id: id,
                change: Bucket { resource: payment.resource, amount: payment.amount - price },
                badge,
            },
        )
    }

    /// Places a competitive bid of the whole payment on the item `id` under a
    /// running english auction. The bid must reach the minimum opening bid
    /// and strictly exceed the live bid, if there is one; ties lose, favoring
    /// the earlier bidder. The displaced bidder's escrow becomes claimable
    /// through the credential issued with the displaced bid; the caller
    /// receives a freshly issued credential for this bid. Any failure leaves
    /// the state untouched.
    pub fn bid(&mut self, id: u64, payment: Bucket) -> (r: Result<u64, Error>)
        requires
            old(self).wf(),
        ensures
            final(self).wf(),
            final(self)@ == bid_spec(old(self)@, id, payment).0,
            r == bid_spec(old(self)@, id, payment).1,
    {
        match self.status {
            Status::NotStarted => return Err(Error::NotStarted),
            Status::Closed => return Err(Error::AlreadyStartedOrClosed),
            Status::Ongoing => {},
        }
        let min_bid: u128 = match self.policy {
            AuctionType::English { min_bid, .. } => min_bid,
            _ => return Err(Error::AuctionNotPurchasable),
        };
        if payment.resource != self.ccy_vault.resource_id() {
            return Err(Error::CurrencyMismatch);
        }
        proof {
            assert(old(self).nft_vault@.contains(id) <==> (old(self).inventory@.contains_key(id)
                && old(self).inventory@[id].available));
        }
        if !self.nft_vault.has(id) {
            return Err(Error::ItemUnavailable);
        }
        if payment.amount < min_bid {
            return Err(Error::BidTooLow);
        }
        let prev: Option<Bid> = match self.bids.get(id) {
            Some(b) => Some(*b),
            None => None,
        };
        if let Some(pb) = prev {
            if payment.amount <= pb.amount {
                return Err(Error::BidTooLow);
            }
        }
        if self.next_cred == u64::MAX {
            return Err(Error::Overflow);
        }
        let cred = self.next_cred;
        if let Some(pb) = prev {
            self.pending.insert(pb.bidder, Pending { item: None, amount: pb.amount });
        }
        self.bids.insert(id, Bid { bidder: cred, amount: payment.amount });
        self.next_cred = cred + 1;
        proof {
            assert(self@ =~~= bid_spec(old(self)@, id, payment).0);
        }
        Ok(cred)
    }

    /// Claims what the settlement ledger owes the credential `credential`,
    /// consuming it: the entry leaves the ledger, so a second claim finds
    /// nothing.
    pub fn withdraw(&mut self, credential: u64) -> (r: Result<Withdrawal, Error>)
        requires
            old(self).wf(),
        ensures
            final(self).wf(),
            final(self)@ == withdraw_spec(old(self)@, credential).0,
            r == withdraw_spec(old(self)@, credential).1,
    {
        match self.pending.remove(credential) {
            Some(p) => {
                let funds = Bucket { resource: self.ccy_vault.resource_id(), amount: p.amount };
                proof {
                    assert(self@ =~~= withdraw_spec(old(self)@, credential).0);
                }
                Ok(Withdrawal { item: p.item, funds })
            },
            None => Err(Error::NothingToWithdraw),
        }
    }

    /// Closes the auction at epoch `now`. Under an english policy, once the
    /// bidding period has elapsed, every live bid settles: the item moves to
    /// the winner's settlement entry, the escrow moves into the collected
    /// vault, and unsold items stay purchasable at the minimum opening bid.
    /// Under every other policy the remaining items and the collected
    /// currency are swept back to the issuer and the auction closes for good.
    /// Any failure leaves the state untouched.
    pub fn close_auction(&mut self, now: u64) -> (r: Result<CloseProceeds, Error>)
        requires
            old(self).wf(),
        ensures
            final(self).wf(),
            final(self)@ == close_spec(old(self)@, now).0,
            match r {
                Ok(p) => {
                    &&& close_spec(old(self)@, now).1 is Ok
                    &&& p.items@.to_set() == close_spec(old(self)@, now).1.unwrap().items
                    &&& (forall|i: int, j: int|
                        0 <= i < j < p.items@.len() ==> p.items@[i] != p.items@[j])
                    &&& p.funds == close_spec(old(self)@, now).1.unwrap().funds
                },
                Err(e) => close_spec(old(self)@, now).1 == Err::<CloseV, Error>(e),
            },
    {
        match self.status {
            Status::NotStarted => return Err(Error::NotStarted),
            Status::Closed => return Err(Error::AlreadyStartedOrClosed),
            Status::Ongoing => {},
        }
        match self.policy {
            AuctionType::English { min_bid, start, duration } => {
                if (now as u128) < (start as u128) + (duration as u128) {
                    return Err(Error::TooEarlyToClose);
                }
                let ghost kvs = old(self).bids.kvs();
                proof {
                    lemma_sum_seq_as_map(kvs);
                }
                let n = self.bids.len();
                let mut total: u128 = self.ccy_vault.balance();
                let mut i: usize = 0;
                while i < n
                    invariant
                        *self == *old(self),
                        old(self).wf(),
                        old(self)@.status is Ongoing,
                        old(self)@.policy == (AuctionType::English { min_bid, start, duration }),
                        start as int + duration as int <= now as int,
                        kvs == self.bids.kvs(),
                        sum_seq(kvs) == sum_escrow(old(self)@.bids),
                        n == kvs.len(),
                        i <= n,
                        total as int == old(self)@.collected + sum_seq(kvs.take(i as int)),
                    decreases n - i,
                {
                    let b = *self.bids.value_at(i);
                    proof {
                        lemma_sum_seq_take_step(kvs, i as int);
                    }
                    total = match total.checked_add(b.amount) {
                        Some(t) => t,
                        None => {
                            proof {
                                lemma_sum_seq_take_le(kvs, i as int + 1);
                            }
                            return Err(Error::Overflow);
                        },
                    };
                    i += 1;
                }
                proof {
                    assert(kvs.take(n as int) =~= kvs);
                }
                let ccy = self.ccy_vault.resource_id();
                let mut i: usize = 0;
                while i < n
                    invariant
                        old(self).wf(),
                        self.status == old(self).status,
                        self.policy == old(self).policy,
                        self.collection_name == old(self).collection_name,
                        self.whitelist == old(self).whitelist,
                        self.usage == old(self).usage,
                        self.amount_to_collect == old(self).amount_to_collect,
                        self.next_item == old(self).next_item,
                        self.next_cred == old(self).next_cred,
                        self.inventory.wf(),
                        self.nft_vault.wf(),
                        self.pending.wf(),
                        self.bids == old(self).bids,
                        kvs == self.bids.kvs(),
                        crate::table::distinct_keys(kvs),
                        n == kvs.len(),
                        i <= n,
                        self.ccy_vault.resource() == old(self).ccy_vault.resource(),
                        ccy == old(self).ccy_vault.resource(),
                        self.ccy_vault.amount() as int == old(self)@.collected + sum_seq(
                            kvs.take(i as int),
                        ),
                        old(self)@.collected + sum_seq(kvs) <= u128::MAX,
                        forall|k: u64| #[trigger]
                            self.inventory@.contains_key(k) <==> old(
                                self,
                            ).inventory@.contains_key(k),
                        forall|j: int|
                            0 <= j < i ==> self.inventory@[kvs[j].0] == (ItemV {
                                available: false,
                                nft: old(self).inventory@[kvs[j].0].nft,
                            }),
                        forall|k: u64|
                            (#[trigger] old(self).inventory@.contains_key(k) && !(exists|j: int|
                                0 <= j < i && kvs[j].0 == k)) ==> self.inventory@[k] == old(
                                self,
                            ).inventory@[k],
                        forall|x: u64| #[trigger]
                            self.nft_vault@.contains(x) <==> (old(self).nft_vault@.contains(x)
                                && !(exists|j: int| 0 <= j < i && kvs[j].0 == x)),
                        forall|c: u64| #[trigger]
                            self.pending@.contains_key(c) <==> (old(self).pending@.contains_key(c)
                                || (exists|j: int| 0 <= j < i && kvs[j].1.bidder == c)),
                        forall|j: int|
                            0 <= j < i ==> self.pending@[kvs[j].1.bidder] == (Pending {
                                item: Some(kvs[j].0),
                                amount: 0,
                            }),
                        forall|c: u64|
                            (#[trigger] old(self).pending@.contains_key(c) && !(exists|j: int|
                                0 <= j < i && kvs[j].1.bidder == c)) ==> self.pending@[c] == old(
                                self,
                            ).pending@[c],
                    decreases n - i,
                {
                    let k = self.bids.key_at(i);
                    let b = *self.bids.value_at(i);
                    proof {
                        lemma_as_map_index(kvs, i as int);
                        assert(old(self)@.bids.contains_key(k) && old(self)@.bids[k] == b);
                        assert(old(self).inventory@.contains_key(k) && old(
                            self,
                        ).inventory@[k].available);
                        assert(old(self).nft_vault@.contains(k));
                        assert(!(exists|j: int| 0 <= j < i && kvs[j].0 == k)) by {
                            if exists|j: int| 0 <= j < i && kvs[j].0 == k {
                                let j = choose|j: int| 0 <= j < i && kvs[j].0 == k;
                                assert(kvs[j].0 != kvs[i as int].0);
                            }
                        }
                        assert(self.nft_vault@.contains(k));
                        assert(self.inventory@[k] == old(self).inventory@[k]);
                        lemma_sum_seq_take_step(kvs, i as int);
                        lemma_sum_seq_take_le(kvs, i as int + 1);
                    }
                    let found = self.nft_vault.take(k);
                    let marked = self.inventory.mark_unavailable(k);
                    proof {
                        assert(found);
                        assert(marked is Ok);
                    }
                    self.pending.insert(b.bidder, Pending { item: Some(k), amount: 0 });
                    let deposited = self.ccy_vault.put(Bucket { resource: ccy, amount: b.amount });
                    proof {
                        assert(deposited is Ok);
                    }
                    i += 1;
                    proof {
                        assert forall|j: int| 0 <= j < i - 1 implies kvs[j].1.bidder
                            != b.bidder by {
                            lemma_as_map_index(kvs, j);
                            lemma_as_map_index(kvs, i - 1);
                            assert(old(self)@.bids.contains_key(kvs[j].0) && old(
                                self,
                            )@.bids[kvs[j].0] == kvs[j].1);
                            assert(kvs[j].0 != kvs[i - 1].0);
                        }
                        assert forall|c: u64| #[trigger]
                            self.pending@.contains_key(c) <==> (old(self).pending@.contains_key(c)
                                || (exists|j: int| 0 <= j < i && kvs[j].1.bidder == c)) by {
                            if self.pending@.contains_key(c) && c == b.bidder {
                                assert(kvs[i - 1].1.bidder == c);
                            }
                            if exists|j: int| 0 <= j < i && kvs[j].1.bidder == c {
                                let j = choose|j: int| 0 <= j < i && kvs[j].1.bidder == c;
                            }
                        }
                        assert forall|x: u64| #[trigger]
                            self.nft_vault@.contains(x) <==> (old(self).nft_vault@.contains(x)
                                && !(exists|j: int| 0 <= j < i && kvs[j].0 == x)) by {
                            if x == k {
                                assert(kvs[i - 1].0 == x);
                            }
                            if exists|j: int| 0 <= j < i && kvs[j].0 == x {
                                let j = choose|j: int| 0 <= j < i && kvs[j].0 == x;
                                if j < i - 1 {
                                    assert(!self.nft_vault@.contains(x));
                                }
                            }
                        }
                    }
                }
                self.bids = KvTable::new();
                self.policy = AuctionType::Fixed { cost: min_bid };
                self.amount_to_collect = self.ccy_vault.balance();
                proof {
                    let pre = old(self)@;
                    let bids0 = pre.bids;
                    assert(kvs.take(n as int) =~= kvs);
                    assert(self.ccy_vault.amount() as int == pre.collected + sum_escrow(bids0));
                    assert forall|k: u64| #[trigger]
                        self.inventory@.contains_key(k) implies self.inventory@[k] == settle_items(
                        pre.items,
                        bids0,
                    )[k] by {
                        lemma_as_map_contains(kvs, k);
                        if bids0.contains_key(k) {
                            let j = choose|j: int| 0 <= j < kvs.len() && kvs[j].0 == k;
                            assert(self.inventory@[kvs[j].0] == (ItemV {
                                available: false,
                                nft: old(self).inventory@[kvs[j].0].nft,
                            }));
                        } else {
                            assert(!(exists|j: int| 0 <= j < n && kvs[j].0 == k));
                            assert(self.inventory@[k] == old(self).inventory@[k]);
                        }
                    }
                    assert(self.inventory@ =~~= settle_items(pre.items, bids0));
                    assert forall|c: u64|
                        self.pending@.contains_key(c) == settle_pending(
                            pre.pending,
                            bids0,
                        ).contains_key(c) by {
                        if exists|j: int| 0 <= j < n && kvs[j].1.bidder == c {
                            let j = choose|j: int| 0 <= j < n && kvs[j].1.bidder == c;
                            lemma_as_map_index(kvs, j);
                            assert(bids0.dom().contains(kvs[j].0) && bids0[kvs[j].0].bidder == c);
                        }
                        if is_winner(bids0, c) {
                            let kw = choose|k: u64| #[trigger]
                                bids0.dom().contains(k) && bids0[k].bidder == c;
                            lemma_as_map_contains(kvs, kw);
                            let j = choose|j: int| 0 <= j < kvs.len() && kvs[j].0 == kw;
                            lemma_as_map_index(kvs, j);
                            assert(kvs[j].1.bidder == c);
                        }
                    }
                    assert forall|c: u64| #[trigger]
                        self.pending@.contains_key(c) implies self.pending@[c] == settle_pending(
                        pre.pending,
                        bids0,
                    )[c] by {
                        if is_winner(bids0, c) {
                            let kw = item_won(bids0, c);
                            assert(bids0.dom().contains(kw) && bids0[kw].bidder == c);
                            lemma_as_map_contains(kvs, kw);
                            let j = choose|j: int| 0 <= j < kvs.len() && kvs[j].0 == kw;
                            lemma_as_map_index(kvs, j);
                            assert(kvs[j].1.bidder == c);
                            assert(self.pending@[kvs[j].1.bidder] == (Pending {
                                item: Some(kvs[j].0),
                                amount: 0,
                            }));
                        } else {
                            assert(!(exists|j: int| 0 <= j < n && kvs[j].1.bidder == c)) by {
                                if exists|j: int| 0 <= j < n && kvs[j].1.bidder == c {
                                    let j = choose|j: int| 0 <= j < n && kvs[j].1.bidder == c;
                                    lemma_as_map_index(kvs, j);
                                    assert(bids0.dom().contains(kvs[j].0) && bids0[kvs[j].0].bidder
                                        == c);
                                }
                            }
                            assert(self.pending@[c] == pre.pending[c]);
                        }
                    }
                    assert(self.pending@ =~~= settle_pending(pre.pending, bids0));
                    assert(self@.bids =~~= Map::<u64, Bid>::empty());
                    assert(self@ =~~= close_spec(pre, now).0);
                    lemma_close_preserves_inv(pre, now);
                    assert forall|x: u64|
                        #![trigger self.nft_vault@.contains(x)]
                        #![trigger self.inventory@.contains_key(x)]
                        self.nft_vault@.contains(x) <==> (self.inventory@.contains_key(x)
                            && self.inventory@[x].available) by {
                        lemma_as_map_contains(kvs, x);
                        assert(old(self).nft_vault@.contains(x) <==> (old(
                            self,
                        ).inventory@.contains_key(x) && old(self).inventory@[x].available));
                        if old(self).inventory@.contains_key(x) && bids0.contains_key(x) {
                            let j = choose|j: int| 0 <= j < kvs.len() && kvs[j].0 == x;
                            assert(self.inventory@[kvs[j].0] == (ItemV {
                                available: false,
                                nft: old(self).inventory@[kvs[j].0].nft,
                            }));
                        }
                    }
                    assert(Seq::<u64>::empty().to_set() =~= Set::<u64>::empty());
                }
                Ok(CloseProceeds { items: Vec::new(), funds: Bucket { resource: ccy, amount: 0 } })
            },
            _ => {
                let items = self.nft_vault.take_all();
                self.inventory.mark_all_unavailable();
                let funds = self.ccy_vault.take_all();
                self.amount_to_collect = 0;
                self.status = Status::Closed;
                proof {
                    assert(self@ =~~= close_spec(old(self)@, now).0);
                    lemma_close_preserves_inv(old(self)@, now);
                    assert forall|k: u64|
                        items@.to_set().contains(k) == close_spec(
                            old(self)@,
                            now,
                        ).1.unwrap().items.contains(k) by {
                        assert(old(self).nft_vault@.contains(k) <==> (old(
                            self,
                        ).inventory@.contains_key(k) && old(self).inventory@[k].available));
                    }
                    assert(items@.to_set() =~= close_spec(old(self)@, now).1.unwrap().items);
                }
                Ok(CloseProceeds { items, funds })
            },
        }
    }

    /// Withdraws the whole collected vault to the issuer and zeroes the
    /// running counter. Allowed in every lifecycle position.
    pub fn collect_payments(&mut self) -> (r: Bucket)
        requires
            old(self).wf(),
        ensures
            final(self).wf(),
            final(self)@ == collect_spec(old(self)@).0,
            r == collect_spec(old(self)@).1,
    {
        self.amount_to_collect = 0;
        let r = self.ccy_vault.take_all();
        proof {
            assert(self@ =~~= collect_spec(old(self)@).0);
        }
        r
    }

    /// The identifier and availability flag of every item ever minted, in
    /// mint order. Read-only.
    pub fn list_present_nft(&self) -> (r: Vec<(u64, bool)>)
        requires
            self.wf(),
        ensures
            forall|j: int|
                0 <= j < r@.len() ==> self@.items.contains_key(#[trigger] r@[j].0) && r@[j].1
                    == self@.items[r@[j].0].available,
            forall|k: u64| #[trigger]
                self@.items.contains_key(k) ==> exists|j: int| 0 <= j < r@.len() && r@[j].0 == k,
            forall|i: int, j: int| 0 <= i < j < r@.len() ==> r@[i].0 != r@[j].0,
    {
        let r = self.inventory.snapshot();
        proof {
            assert forall|k: u64| #[trigger] self@.items.contains_key(k) implies exists|j: int|
                0 <= j < r@.len() && r@[j].0 == k by {
                lemma_as_map_contains(self.inventory.entries(), k);
                let j = choose|j: int|
                    0 <= j < self.inventory.entries().len() && self.inventory.entries()[j].0 == k;
                assert(r@[j].0 == k);
            }
        }
        r
    }
}

} // verus!
