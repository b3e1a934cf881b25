//! The english bidding path, the settlement ledger, the close-time sweeps,
//! and one input for every error the engine can return.

use nft_auction::auction::{Badge, NftProject, Withdrawal};
use nft_auction::errors::Error;
use nft_auction::vault::{Bucket, ONE};

const XRD: u64 = 1;

fn setup(ccy: u64) -> NftProject {
    NftProject::instantiate_component(ccy, "NFT Collection".to_string())
}

fn mint(c: &mut NftProject) -> u64 {
    c.mint_nft(
        "name".to_string(),
        "url1".to_string(),
        "color,blue;type,image".to_string(),
    )
    .unwrap()
}

fn pay(amount: u128) -> Bucket {
    Bucket { resource: XRD, amount }
}

#[test]
fn test_english_auction_lifecycle() {
    let mut env = setup(XRD);
    let id = mint(&mut env);
    env.set_auction_english(10 * ONE, 0, 10).unwrap();
    env.start_auction().unwrap();

    assert_eq!(env.bid(id, pay(9 * ONE)), Err(Error::BidTooLow));
    let first = env.bid(id, pay(10 * ONE)).unwrap();
    let second = env.bid(id, pay(12 * ONE)).unwrap();
    assert_ne!(first, second);

    // The displaced opening bidder can claim exactly the escrowed ten.
    let refund = env.withdraw(first).unwrap();
    assert_eq!(
        refund,
        Withdrawal { item: None, funds: pay(10 * ONE) }
    );

    // A later bid below the live twelve loses, even though it beats the ten.
    assert_eq!(env.bid(id, pay(11 * ONE)), Err(Error::BidTooLow));

    // Too early to close at epoch five; fine at eleven.
    assert_eq!(env.close_auction(5).map(|p| p.funds), Err(Error::TooEarlyToClose));
    let closed = env.close_auction(11).unwrap();
    assert_eq!(closed.items.len(), 0);
    assert_eq!(closed.funds.amount, 0);

    // The winner claims the item; the issuer collects the twelve.
    let won = env.withdraw(second).unwrap();
    assert_eq!(won, Withdrawal { item: Some(id), funds: pay(0) });
    assert_eq!(env.collect_payments().amount, 12 * ONE);
}

#[test]
fn test_english_unsold_falls_back_to_fixed() {
    let mut env = setup(XRD);
    let with_bid = mint(&mut env);
    let unsold = mint(&mut env);
    env.set_auction_english(10 * ONE, 0, 10).unwrap();
    env.start_auction().unwrap();
    env.bid(with_bid, pay(15 * ONE)).unwrap();
    env.close_auction(10).unwrap();

    // The bid-carrying item is gone; the unsold one is purchasable at the
    // minimum opening bid.
    assert_eq!(env.buy_nft(with_bid, pay(10 * ONE), None, 12), Err(Error::ItemUnavailable));
    let bought = env.buy_nft(unsold, pay(10 * ONE), None, 12).unwrap();
    assert_eq!(bought.change.amount, 0);
    assert_eq!(env.collect_payments().amount, 25 * ONE);
}

#[test]
fn test_withdraw_after_claim_fails() {
    let mut env = setup(XRD);
    let id = mint(&mut env);
    env.set_auction_english(10 * ONE, 0, 10).unwrap();
    env.start_auction().unwrap();
    let first = env.bid(id, pay(10 * ONE)).unwrap();
    env.bid(id, pay(12 * ONE)).unwrap();

    assert!(env.withdraw(first).is_ok());
    assert_eq!(env.withdraw(first), Err(Error::NothingToWithdraw));
}

#[test]
fn test_withdraw_unknown_credential() {
    let mut env = setup(XRD);
    assert_eq!(env.withdraw(999), Err(Error::NothingToWithdraw));
}

#[test]
fn test_collect_twice_returns_empty() {
    let mut env = setup(XRD);
    let id = mint(&mut env);
    env.set_auction_fixed(10 * ONE).unwrap();
    env.start_auction().unwrap();
    env.buy_nft(id, pay(10 * ONE), None, 0).unwrap();

    assert_eq!(env.collect_payments().amount, 10 * ONE);
    assert_eq!(env.collect_payments().amount, 0);
}

#[test]
fn test_close_sweeps_remaining_items() {
    let mut env = setup(XRD);
    let sold = mint(&mut env);
    let kept = mint(&mut env);
    env.set_auction_fixed(10 * ONE).unwrap();
    env.start_auction().unwrap();
    env.buy_nft(sold, pay(10 * ONE), None, 0).unwrap();

    let closed = env.close_auction(3).unwrap();
    assert_eq!(closed.items, vec![kept]);
    assert_eq!(closed.funds.amount, 10 * ONE);

    // Everything is swept: nothing to collect, nothing to buy, no reopening.
    assert_eq!(env.collect_payments().amount, 0);
    assert_eq!(env.buy_nft(kept, pay(10 * ONE), None, 4), Err(Error::AlreadyStartedOrClosed));
    assert_eq!(env.close_auction(5).map(|p| p.funds), Err(Error::AlreadyStartedOrClosed));
    assert_eq!(env.start_auction(), Err(Error::AlreadyStartedOrClosed));
}

#[test]
fn test_availability_flags_follow_sales() {
    let mut env = setup(XRD);
    let id = mint(&mut env);
    let id2 = mint(&mut env);
    env.set_auction_fixed(10 * ONE).unwrap();
    env.start_auction().unwrap();

    let before = env.list_present_nft();
    assert_eq!(before, vec![(id, true), (id2, true)]);

    env.buy_nft(id, pay(10 * ONE), None, 0).unwrap();
    let after = env.list_present_nft();
    assert_eq!(after, vec![(id, false), (id2, true)]);
}

#[test]
fn test_configuration_locked_after_start() {
    let mut env = setup(XRD);
    mint(&mut env);
    env.set_auction_fixed(10 * ONE).unwrap();
    env.start_auction().unwrap();

    assert_eq!(env.set_auction_fixed(5 * ONE), Err(Error::Configuration));
    assert_eq!(env.set_auction_dutch(5 * ONE, ONE, 0, 10), Err(Error::Configuration));
    assert_eq!(env.set_auction_english(5 * ONE, 0, 10), Err(Error::Configuration));
    assert_eq!(env.set_whitelist(7, 1), Err(Error::Configuration));
}

#[test]
fn test_start_without_policy_fails() {
    let mut env = setup(XRD);
    assert_eq!(env.start_auction(), Err(Error::Configuration));
}

#[test]
fn test_not_started_rejects_trade() {
    let mut env = setup(XRD);
    let id = mint(&mut env);
    env.set_auction_english(10 * ONE, 0, 10).unwrap();

    assert_eq!(env.buy_nft(id, pay(10 * ONE), None, 0), Err(Error::NotStarted));
    assert_eq!(env.bid(id, pay(10 * ONE)), Err(Error::NotStarted));
    assert_eq!(env.close_auction(20).map(|p| p.funds), Err(Error::NotStarted));
}

#[test]
fn test_policy_gates_trade_paths() {
    let mut env = setup(XRD);
    let id = mint(&mut env);
    env.set_auction_english(10 * ONE, 0, 10).unwrap();
    env.start_auction().unwrap();
    // No immediate purchase under english bidding.
    assert_eq!(env.buy_nft(id, pay(100 * ONE), None, 0), Err(Error::AuctionNotPurchasable));

    let mut fixed = setup(XRD);
    let id2 = mint(&mut fixed);
    fixed.set_auction_fixed(10 * ONE).unwrap();
    fixed.start_auction().unwrap();
    // No bidding under a fixed price.
    assert_eq!(fixed.bid(id2, pay(100 * ONE)), Err(Error::AuctionNotPurchasable));
}

#[test]
fn test_item_cannot_sell_twice() {
    let mut env = setup(XRD);
    let id = mint(&mut env);
    env.set_auction_fixed(10 * ONE).unwrap();
    env.start_auction().unwrap();

    assert!(env.buy_nft(id, pay(10 * ONE), None, 0).is_ok());
    assert_eq!(env.buy_nft(id, pay(10 * ONE), None, 0), Err(Error::ItemUnavailable));
    assert_eq!(env.buy_nft(42, pay(10 * ONE), None, 0), Err(Error::ItemUnavailable));
}

#[test]
fn test_bid_wrong_currency() {
    let other_ccy: u64 = 1000;
    let mut env = setup(other_ccy);
    let id = mint(&mut env);
    env.set_auction_english(10 * ONE, 0, 10).unwrap();
    env.start_auction().unwrap();

    assert_eq!(env.bid(id, pay(10 * ONE)), Err(Error::CurrencyMismatch));
}

#[test]
fn test_bid_on_missing_item() {
    let mut env = setup(XRD);
    mint(&mut env);
    env.set_auction_english(10 * ONE, 0, 10).unwrap();
    env.start_auction().unwrap();

    assert_eq!(env.bid(42, pay(10 * ONE)), Err(Error::ItemUnavailable));
}

#[test]
fn test_whitelist_wrong_class() {
    let mut env = setup(XRD);
    let id = mint(&mut env);
    env.set_auction_fixed(10 * ONE).unwrap();
    env.set_whitelist(7, 1).unwrap();
    env.start_auction().unwrap();

    let badge = Badge { resource: 8, id: 1 };
    assert_eq!(
        env.buy_nft(id, pay(100 * ONE), Some(badge), 0),
        Err(Error::WhitelistCredentialMismatch)
    );
}

#[test]
fn test_collected_vault_overflow() {
    let mut env = setup(XRD);
    let id = mint(&mut env);
    let id2 = mint(&mut env);
    env.set_auction_fixed(u128::MAX).unwrap();
    env.start_auction().unwrap();

    assert!(env.buy_nft(id, pay(u128::MAX), None, 0).is_ok());
    assert_eq!(env.buy_nft(id2, pay(u128::MAX), None, 0), Err(Error::Overflow));
}

#[test]
fn test_close_escrow_overflow() {
    let mut env = setup(XRD);
    let id = mint(&mut env);
    let id2 = mint(&mut env);
    env.set_auction_english(1, 0, 10).unwrap();
    env.start_auction().unwrap();
    env.bid(id, pay(u128::MAX)).unwrap();
    env.bid(id2, pay(1)).unwrap();

    // The two escrows together do not fit the collected vault: the close is
    // rejected whole, and both bids stay live and claimable later.
    assert_eq!(env.close_auction(11).map(|p| p.funds), Err(Error::Overflow));
    assert_eq!(env.bid(id2, pay(2)).is_ok(), true);
}

#[test]
fn test_mint_while_ongoing() {
    let mut env = setup(XRD);
    env.set_auction_fixed(10 * ONE).unwrap();
    env.start_auction().unwrap();

    let id = mint(&mut env);
    let bought = env.buy_nft(id, pay(10 * ONE), None, 0).unwrap();
    assert_eq!(bought.nft_id, id);
}

#[test]
fn test_dutch_price_floors_at_zero() {
    let mut env = setup(XRD);
    let id = mint(&mut env);
    env.set_auction_dutch(11 * ONE, 4 * ONE, 0, 10).unwrap();
    env.start_auction().unwrap();

    // At epoch three the decrease would pass the initial price: it floors.
    let bought = env.buy_nft(id, pay(0), None, 3).unwrap();
    assert_eq!(bought.change.amount, 0);
    assert_eq!(env.collect_payments().amount, 0);
}
