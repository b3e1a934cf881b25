//! The auction controller through its fixed-price, whitelist and dutch
//! purchase paths.

use nft_auction::auction::{Badge, NftProject, Purchase};
use nft_auction::errors::Error;
use nft_auction::vault::{Bucket, ONE};

const XRD: u64 = 1;

fn setup(ccy: u64) -> NftProject {
    NftProject::instantiate_component(ccy, "NFT Collection".to_string())
}

fn mint(c: &mut NftProject) -> u64 {
    c.mint_nft(
        "name".to_string(),
        "url1".to_string(),
        "color,blue;type,image".to_string(),
    )
    .unwrap()
}

fn pay(amount: u128) -> Bucket {
    Bucket { resource: XRD, amount }
}

#[test]
fn test_creation() {
    let mut env = setup(XRD);
    mint(&mut env);
    assert!(env.set_auction_fixed(10 * ONE).is_ok());
    assert!(env.start_auction().is_ok());
}

#[test]
fn test_withdraw() {
    let mut env = setup(XRD);
    let collected = env.collect_payments();
    assert_eq!(collected, Bucket { resource: XRD, amount: 0 });
}

#[test]
fn test_buy() {
    let mut env = setup(XRD);
    let id = mint(&mut env);
    env.set_auction_fixed(10 * ONE).unwrap();
    env.start_auction().unwrap();

    let bought = env.buy_nft(id, pay(100 * ONE), None, 0).unwrap();
    assert_eq!(
        bought,
        Purchase { nft_id: id, change: pay(90 * ONE), badge: None }
    );

    let collected = env.collect_payments();
    assert_eq!(collected.amount, 10 * ONE);
}

#[test]
fn test_buy_wrong_ccy() {
    let other_ccy: u64 = 1000;
    let mut env = setup(other_ccy);
    let id = mint(&mut env);
    env.set_auction_fixed(10 * ONE).unwrap();
    env.start_auction().unwrap();

    let bought = env.buy_nft(id, pay(100 * ONE), None, 0);
    assert_eq!(bought, Err(Error::CurrencyMismatch));

    let collected = env.collect_payments();
    assert_eq!(collected.amount, 0);
}

#[test]
fn test_buy_whitelist_fail() {
    let mut env = setup(XRD);
    let id = mint(&mut env);
    env.set_auction_fixed(10 * ONE).unwrap();
    let addr: u64 = 7;
    env.set_whitelist(addr, 1).unwrap();
    env.start_auction().unwrap();

    let bought = env.buy_nft(id, pay(100 * ONE), None, 0);
    assert_eq!(bought, Err(Error::WhitelistCredentialMismatch));

    let collected = env.collect_payments();
    assert_eq!(collected.amount, 0);
}

#[test]
fn test_buy_whitelist_succeed() {
    let mut env = setup(XRD);
    let id = mint(&mut env);
    env.set_auction_fixed(10 * ONE).unwrap();
    let addr: u64 = 7;
    env.set_whitelist(addr, 1).unwrap();
    env.start_auction().unwrap();

    let badge = Badge { resource: addr, id: 1 };
    let bought = env.buy_nft(id, pay(100 * ONE), Some(badge), 0).unwrap();
    assert_eq!(bought.change.amount, 90 * ONE);
    assert_eq!(bought.badge, Some(badge));

    let collected = env.collect_payments();
    assert_eq!(collected.amount, 10 * ONE);
}

#[test]
fn test_buy_whitelist_buy_two_succeed() {
    let mut env = setup(XRD);
    let id = mint(&mut env);
    let id2 = mint(&mut env);
    env.set_auction_fixed(10 * ONE).unwrap();
    let addr: u64 = 7;
    env.set_whitelist(addr, 2).unwrap();
    env.start_auction().unwrap();

    let badge = Badge { resource: addr, id: 1 };
    assert!(env.buy_nft(id, pay(100 * ONE), Some(badge), 0).is_ok());
    assert!(env.buy_nft(id2, pay(100 * ONE), Some(badge), 0).is_ok());

    let collected = env.collect_payments();
    assert_eq!(collected.amount, 20 * ONE);
}

#[test]
fn test_buy_whitelist_buy_two_fail() {
    let mut env = setup(XRD);
    let id = mint(&mut env);
    let id2 = mint(&mut env);
    env.set_auction_fixed(10 * ONE).unwrap();
    let addr: u64 = 7;
    env.set_whitelist(addr, 1).unwrap();
    env.start_auction().unwrap();

    let badge = Badge { resource: addr, id: 1 };
    assert!(env.buy_nft(id, pay(100 * ONE), Some(badge), 0).is_ok());
    let again = env.buy_nft(id2, pay(100 * ONE), Some(badge), 0);
    assert_eq!(again, Err(Error::WhitelistExhausted));

    let collected = env.collect_payments();
    assert_eq!(collected.amount, 10 * ONE);
}

#[test]
fn test_buy_fail() {
    let mut env = setup(XRD);
    let id = mint(&mut env);
    env.set_auction_fixed(10 * ONE).unwrap();
    env.start_auction().unwrap();

    let bought = env.buy_nft(id, pay(1 * ONE), None, 0);
    assert_eq!(bought, Err(Error::InsufficientPayment));

    let collected = env.collect_payments();
    assert_eq!(collected.amount, 0);
}

#[test]
fn test_creation_dutch() {
    let mut env = setup(XRD);
    mint(&mut env);
    assert!(env.set_auction_dutch(11 * ONE, 1 * ONE, 0, 10).is_ok());
    assert!(env.start_auction().is_ok());
}

#[test]
fn test_dutch_buy_beginning() {
    let mut env = setup(XRD);
    let id = mint(&mut env);
    env.set_auction_dutch(11 * ONE, 1 * ONE, 0, 10).unwrap();
    env.start_auction().unwrap();

    let low = env.buy_nft(id, pay(10 * ONE), None, 0);
    assert_eq!(low, Err(Error::InsufficientPayment));
    let bought = env.buy_nft(id, pay(11 * ONE), None, 0).unwrap();
    assert_eq!(bought.change.amount, 0);
}

#[test]
fn test_dutch_buy_end() {
    let mut env = setup(XRD);
    let id = mint(&mut env);
    env.set_auction_dutch(11 * ONE, 1 * ONE, 0, 10).unwrap();
    env.start_auction().unwrap();

    let low = env.buy_nft(id, pay(99 * ONE / 100), None, 25);
    assert_eq!(low, Err(Error::InsufficientPayment));
    let bought = env.buy_nft(id, pay(1 * ONE), None, 25).unwrap();
    assert_eq!(bought.change.amount, 0);
}

#[test]
fn test_dutch_buy_middle() {
    let mut env = setup(XRD);
    let id = mint(&mut env);
    env.set_auction_dutch(11 * ONE, 1 * ONE, 0, 10).unwrap();
    env.start_auction().unwrap();

    let low = env.buy_nft(id, pay(5 * ONE), None, 5);
    assert_eq!(low, Err(Error::InsufficientPayment));
    let bought = env.buy_nft(id, pay(6 * ONE), None, 5).unwrap();
    assert_eq!(bought.change.amount, 0);
}
