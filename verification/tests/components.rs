//! The engine's building blocks on their own: pricing, the association
//! table, the custody vaults, and the inventory ledger.

use nft_auction::errors::Error;
use nft_auction::inventory::{Inventory, NFT};
use nft_auction::policy::{AuctionType, current_price};
use nft_auction::table::KvTable;
use nft_auction::vault::{Bucket, FungibleVault, ItemVault, ONE};

#[test]
fn test_price_fixed_and_gated() {
    let fixed = AuctionType::Fixed { cost: 10 * ONE };
    assert_eq!(current_price(&fixed, 0), Some(10 * ONE));
    assert_eq!(current_price(&fixed, 99), Some(10 * ONE));

    assert_eq!(current_price(&AuctionType::Unset, 0), None);
    let english = AuctionType::English { min_bid: 10 * ONE, start: 0, duration: 10 };
    assert_eq!(current_price(&english, 5), None);
}

#[test]
fn test_price_dutch_declines_and_floors() {
    let dutch = AuctionType::Dutch { initial: 11 * ONE, decrease: ONE, start: 3, duration: 10 };
    // Before and at the start epoch the price is the initial price.
    assert_eq!(current_price(&dutch, 0), Some(11 * ONE));
    assert_eq!(current_price(&dutch, 3), Some(11 * ONE));
    // It declines by one unit per epoch, never increasing in `now`.
    assert_eq!(current_price(&dutch, 8), Some(6 * ONE));
    assert_eq!(current_price(&dutch, 13), Some(1 * ONE));
    // After the duration it stops declining.
    assert_eq!(current_price(&dutch, 50), Some(1 * ONE));

    // A steep decrease bottoms out at zero instead of wrapping.
    let steep = AuctionType::Dutch { initial: 11 * ONE, decrease: 4 * ONE, start: 0, duration: 10 };
    assert_eq!(current_price(&steep, 2), Some(3 * ONE));
    assert_eq!(current_price(&steep, 3), Some(0));
    assert_eq!(current_price(&steep, 10), Some(0));
}

#[test]
fn test_table_insert_get_remove() {
    let mut t: KvTable<u16> = KvTable::new();
    assert_eq!(t.len(), 0);
    t.insert(4, 40);
    t.insert(9, 90);
    t.insert(4, 41);
    assert_eq!(t.len(), 2);
    assert_eq!(t.get(4), Some(&41));
    assert_eq!(t.get(9), Some(&90));
    assert_eq!(t.get(5), None);
    assert!(t.contains_key(9));
    assert_eq!(t.remove(9), Some(90));
    assert_eq!(t.remove(9), None);
    assert!(!t.contains_key(9));
    assert_eq!(t.len(), 1);
}

#[test]
fn test_fungible_vault_flow() {
    let mut v = FungibleVault::new(1);
    assert!(v.put(Bucket { resource: 1, amount: 30 }).is_ok());
    let change = v.take(10);
    assert_eq!(change, Bucket { resource: 1, amount: 10 });
    let rest = v.take_all();
    assert_eq!(rest, Bucket { resource: 1, amount: 20 });
    // A deposit past the representable range is rejected and changes nothing.
    v.put(Bucket { resource: 1, amount: u128::MAX }).unwrap();
    assert_eq!(v.put(Bucket { resource: 1, amount: 1 }), Err(Error::Overflow));
    assert_eq!(v.take_all().amount, u128::MAX);
}

#[test]
fn test_item_vault_custody() {
    let mut v = ItemVault::new();
    v.put(3);
    v.put(5);
    assert!(v.has(3));
    assert!(!v.has(4));
    assert!(v.take(3));
    assert!(!v.take(3));
    assert!(!v.has(3));
    assert_eq!(v.take_all(), vec![5]);
    assert!(!v.has(5));
}

#[test]
fn test_inventory_defensive_checks() {
    let mut inv = Inventory::new();
    let nft = NFT::new("a".to_string(), "b".to_string(), "c".to_string());
    assert!(inv.mint(5, nft).is_ok());
    let again = NFT::new("a".to_string(), "b".to_string(), "c".to_string());
    assert_eq!(inv.mint(5, again), Err(Error::DuplicateItem));

    assert_eq!(inv.mark_unavailable(9), Err(Error::UnknownItem));
    assert!(inv.is_available(5));
    assert!(inv.mark_unavailable(5).is_ok());
    assert!(!inv.is_available(5));
    // The flag drops exactly once: a second marking is a stale call.
    assert_eq!(inv.mark_unavailable(5), Err(Error::UnknownItem));
    assert_eq!(inv.snapshot(), vec![(5, false)]);
}

#[test]
fn test_nft_metadata_kept() {
    let nft = NFT::new("name".to_string(), "url1".to_string(), "payload".to_string());
    assert_eq!(nft.name().as_str(), "name");
    assert_eq!(nft.key_image_url().as_str(), "url1");
    assert_eq!(nft.metadata().as_str(), "payload");
}
