//! The inventory ledger: per item identifier, an availability flag and the
//! item's opaque display metadata.
//!
//! Entries are created on mint (available) and flipped on sale or close
//! (unavailable); they are never deleted, so the ledger retains the history
//! of every item ever minted. The flag is bookkeeping: custody of the item
//! itself lives in the controller's item vault.

use crate::errors::Error;
use crate::table::{
    KvTable, as_map, distinct_keys, has_key, lemma_as_map_contains, lemma_as_map_index,
};
use vstd::prelude::*;

verus! {

/// Display metadata of one collectible: a name, an image location, and a
/// free-form payload. The engine stores it and hands it out; it never reads
/// it.
#[derive(Debug)]
pub struct NFT {
    name: String,
    key_image_url: String,
    metadata: String,
}

/// The mathematical content of an [`NFT`].
#[verifier::ext_equal]
pub struct NftV {
    pub name: Seq<char>,
    pub key_image_url: Seq<char>,
    pub metadata: Seq<char>,
}

impl View for NFT {
    type V = NftV;

    closed spec fn view(&self) -> NftV {
        NftV { name: self.name@, key_image_url: self.key_image_url@, metadata: self.metadata@ }
    }
}

impl Clone for NFT {
    /// Cloning keeps the metadata exactly.
    fn clone(&self) -> (r: Self)
        ensures
            r == *self,
    {
        NFT {
            name: self.name.clone(),
            key_image_url: self.key_image_url.clone(),
            metadata: self.metadata.clone(),
        }
    }
}

impl NFT {
    /// Bundles display fields into one metadata record.
    pub fn new(name: String, key_image_url: String, metadata: String) -> (r: Self)
        ensures
            r@ == (NftV { name: name@, key_image_url: key_image_url@, metadata: metadata@ }),
    {
        NFT { name, key_image_url, metadata }
    }

    /// The display name.
    pub fn name(&self) -> (r: &String)
        ensures
            r@ == self@.name,
    {
        &self.name
    }

    /// The image location.
    pub fn key_image_url(&self) -> (r: &String)
        ensures
            r@ == self@.key_image_url,
    {
        &self.key_image_url
    }

    /// The free-form payload.
    pub fn metadata(&self) -> (r: &String)
        ensures
            r@ == self@.metadata,
    {
        &self.metadata
    }
}

/// One inventory entry: whether the item can still be sold, and its metadata.
pub struct ItemEntry {
    pub available: bool,
    pub nft: NFT,
}

/// The mathematical content of an [`ItemEntry`].
#[verifier::ext_equal]
pub struct ItemV {
    pub available: bool,
    pub nft: NftV,
}

impl View for ItemEntry {
    type V = ItemV;

    open spec fn view(&self) -> ItemV {
        ItemV { available: self.available, nft: self.nft@ }
    }
}

/// The inventory after every entry has been marked unavailable: same items,
/// same metadata, nothing left to sell.
pub open spec fn all_unavailable(m: Map<u64, ItemV>) -> Map<u64, ItemV> {
    Map::new(|k: u64| m.contains_key(k), |k: u64| ItemV { available: false, nft: m[k].nft })
}

/// The inventory ledger, viewed as the map from each minted item identifier
/// to its entry.
pub struct Inventory {
    table: KvTable<ItemEntry>,
}

impl View for Inventory {
    type V = Map<u64, ItemV>;

    open spec fn view(&self) -> Map<u64, ItemV> {
        as_map(self.entries())
    }
}

impl Inventory {
    /// The entry sequence behind the ledger, in mint order.
    pub closed spec fn entries(self) -> Seq<(u64, ItemEntry)> {
        self.table.kvs()
    }

    /// A ledger is well formed when no item identifier repeats.
    pub open spec fn wf(self) -> bool {
        distinct_keys(self.entries())
    }

    /// Creates an empty ledger.
    pub fn new() -> (r: Self)
        ensures
            r.wf(),
            r@ == Map::<u64, ItemV>::empty(),
            r.entries() == Seq::<(u64, ItemEntry)>::empty(),
    {
        Inventory { table: KvTable::new() }
    }

    /// How many items were ever minted.
    pub fn len(&self) -> (n: usize)
        ensures
            n == self.entries().len(),
    {
        self.table.len()
    }

    /// Registers a newly minted item as available. Rejects an identifier that
    /// is already registered; the registry guarantees this cannot happen, so
    /// the check is defensive.
    pub fn mint(&mut self, id: u64, nft: NFT) -> (r: Result<(), Error>)
        requires
            old(self).wf(),
        ensures
            final(self).wf(),
            if old(self)@.contains_key(id) {
                r == Err::<(), Error>(Error::DuplicateItem) && *final(self) == *old(self)
            } else {
                r is Ok && final(self)@ == old(self)@.insert(
                    id,
                    ItemV { available: true, nft: nft@ },
                ) && final(self).entries() == old(self).entries().push((
                    id,
                    ItemEntry { available: true, nft },
                ))
            },
    {
        proof {
            lemma_as_map_contains(self.table.kvs(), id);
        }
        if self.table.contains_key(id) {
            Err(Error::DuplicateItem)
        } else {
            self.table.insert(id, ItemEntry { available: true, nft });
            Ok(())
        }
    }

    /// Whether the item exists and can still be sold.
    pub fn is_available(&self, id: u64) -> (r: bool)
        requires
            self.wf(),
        ensures
            r == (self@.contains_key(id) && self@[id].available),
    {
        match self.table.get(id) {
            Some(e) => e.available,
            None => false,
        }
    }

    /// The metadata of the item, if it exists.
    pub fn nft_of(&self, id: u64) -> (r: Option<&NFT>)
        requires
            self.wf(),
        ensures
            match r {
                Some(nft) => self@.contains_key(id) && nft@ == self@[id].nft,
                None => !self@.contains_key(id),
            },
    {
        match self.table.get(id) {
            Some(e) => Some(&e.nft),
            None => None,
        }
    }

    /// Marks a sold or swept item unavailable: the bookkeeping half of a
    /// sale. Rejects an unknown or already unavailable item; a rejected call
    /// changes nothing.
    pub fn mark_unavailable(&mut self, id: u64) -> (r: Result<(), Error>)
        requires
            old(self).wf(),
        ensures
            final(self).wf(),
            if old(self)@.contains_key(id) && old(self)@[id].available {
                r is Ok && final(self)@ == old(self)@.insert(
                    id,
                    ItemV { available: false, nft: old(self)@[id].nft },
                )
            } else {
                r == Err::<(), Error>(Error::UnknownItem) && *final(self) == *old(self)
            },
    {
        let entry = match self.table.get(id) {
            Some(e) => e,
            None => {
                return Err(Error::UnknownItem);
            },
        };
        if !entry.available {
            return Err(Error::UnknownItem);
        }
        let nft = entry.nft.clone();
        self.table.insert(id, ItemEntry { available: false, nft });
        Ok(())
    }

    /// Marks every entry unavailable: the bookkeeping half of a close-time
    /// sweep. Metadata and the set of entries stay as they were.
    pub fn mark_all_unavailable(&mut self)
        requires
            old(self).wf(),
        ensures
            final(self).wf(),
            final(self)@ == all_unavailable(old(self)@),
    {
        let n = self.table.len();
        let mut i: usize = 0;
        while i < n
            invariant
                self.table.wf(),
                n == self.table.kvs().len(),
                i <= n,
                old(self).wf(),
                self.table.kvs().len() == old(self).entries().len(),
                forall|j: int|
                    0 <= j < n ==> self.table.kvs()[j].0 == old(self).entries()[j].0,
                forall|j: int|
                    0 <= j < i ==> self.table.kvs()[j].1 == (ItemEntry {
                        available: false,
                        nft: old(self).entries()[j].1.nft,
                    }),
                forall|j: int| i <= j < n ==> self.table.kvs()[j].1 == old(self).entries()[j].1,
            decreases n - i,
        {
            let nft = self.table.value_at(i).nft.clone();
            self.table.set_value_at(i, ItemEntry { available: false, nft });
            i += 1;
        }
        proof {
            let s0 = old(self).entries();
            let s1 = self.table.kvs();
            assert forall|k: u64| self@.contains_key(k) == all_unavailable(
                old(self)@,
            ).contains_key(k) by {
                lemma_as_map_contains(s0, k);
                lemma_as_map_contains(s1, k);
                if has_key(s0, k) {
                    let j = choose|j: int| 0 <= j < s0.len() && s0[j].0 == k;
                    assert(s1[j].0 == k);
                }
                if has_key(s1, k) {
                    let j = choose|j: int| 0 <= j < s1.len() && s1[j].0 == k;
                    assert(s0[j].0 == k);
                }
            }
            assert forall|k: u64| self@.contains_key(k) implies self@[k] == all_unavailable(
                old(self)@,
            )[k] by {
                lemma_as_map_contains(s1, k);
                let j = choose|j: int| 0 <= j < s1.len() && s1[j].0 == k;
                lemma_as_map_index(s1, j);
                lemma_as_map_index(s0, j);
            }
            assert(self@ =~= all_unavailable(old(self)@));
        }
    }

    /// The identifier and availability flag of every entry, in mint order.
    pub fn snapshot(&self) -> (r: Vec<(u64, bool)>)
        requires
            self.wf(),
        ensures
            r@.len() == self.entries().len(),
            forall|j: int|
                0 <= j < r@.len() ==> r@[j].0 == self.entries()[j].0 && self@.contains_key(
                    r@[j].0,
                ) && r@[j].1 == self@[r@[j].0].available,
    {
        let n = self.table.len();
        let mut r: Vec<(u64, bool)> = Vec::new();
        let mut i: usize = 0;
        while i < n
            invariant
                self.wf(),
                n == self.entries().len(),
                i <= n,
                r@.len() == i,
                forall|j: int|
                    0 <= j < i ==> r@[j].0 == self.entries()[j].0 && self@.contains_key(r@[j].0)
                        && r@[j].1 == self@[r@[j].0].available,
            decreases n - i,
        {
            let k = self.table.key_at(i);
            let available = self.table.value_at(i).available;
            proof {
                lemma_as_map_index(self.table.kvs(), i as int);
            }
            r.push((k, available));
            i += 1;
        }
        r
    }
}

} // verus!
