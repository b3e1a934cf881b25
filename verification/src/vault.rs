//! Asset custody: buckets in flight, and the vaults the engine owns.
//!
//! Currency amounts are fixed-point integers with eighteen decimal places:
//! [`ONE`] subunits make one whole currency unit. A [`Bucket`] is an amount of
//! one currency in flight between a caller and the engine; a
//! [`FungibleVault`] holds a balance of a single currency; an [`ItemVault`]
//! holds custody of uniquely identified items. Withdrawing an item from its
//! vault is the authoritative guard against selling it twice.

use crate::errors::Error;
use vstd::prelude::*;

verus! {

/// Subunits per whole currency unit.
pub const ONE: u128 = 1000000000000000000;

/// An amount of one currency in flight: a payment handed in by a caller, or
/// change, proceeds or a refund handed back out.
#[derive(Clone, Copy, Debug, PartialEq, Eq, Structural)]
pub struct Bucket {
    /// The asset class of the currency, an opaque identifier assigned by the
    /// external asset registry.
    pub resource: u64,
    /// The amount carried, in subunits.
    pub amount: u128,
}

/// A container owned by the engine holding a balance of a single currency.
pub struct FungibleVault {
    resource: u64,
    amount: u128,
}

impl FungibleVault {
    /// The asset class this vault accepts.
    pub closed spec fn resource(self) -> u64 {
        self.resource
    }

    /// The balance held, in subunits.
    pub closed spec fn amount(self) -> u128 {
        self.amount
    }

    /// The asset class this vault accepts.
    pub fn resource_id(&self) -> (r: u64)
        ensures
            r == self.resource(),
    {
        self.resource
    }

    /// The balance held, in subunits.
    pub fn balance(&self) -> (r: u128)
        ensures
            r == self.amount(),
    {
        self.amount
    }

    /// Creates an empty vault for the given currency.
    pub fn new(resource: u64) -> (v: Self)
        ensures
            v.resource() == resource,
            v.amount() == 0,
    {
        FungibleVault { resource, amount: 0 }
    }

    /// Deposits the bucket, or rejects it when the balance would leave the
    /// representable range; a rejected deposit changes nothing.
    pub fn put(&mut self, b: Bucket) -> (r: Result<(), Error>)
        requires
            b.resource == old(self).resource(),
        ensures
            final(self).resource() == old(self).resource(),
            if old(self).amount() + b.amount <= u128::MAX {
                r is Ok && final(self).amount() == old(self).amount() + b.amount
            } else {
                r == Err::<(), Error>(Error::Overflow) && final(self).amount() == old(
                    self,
                ).amount()
            },
    {
        match self.amount.checked_add(b.amount) {
            Some(total) => {
                self.amount = total;
                Ok(())
            },
            None => Err(Error::Overflow),
        }
    }

    /// Withdraws exactly `amount` subunits into a fresh bucket.
    pub fn take(&mut self, amount: u128) -> (b: Bucket)
        requires
            amount <= old(self).amount(),
        ensures
            final(self).resource() == old(self).resource(),
            final(self).amount() == old(self).amount() - amount,
            b == (Bucket { resource: old(self).resource(), amount }),
    {
        self.amount = self.amount - amount;
        Bucket { resource: self.resource, amount }
    }

    /// Withdraws the entire balance into a fresh bucket.
    pub fn take_all(&mut self) -> (b: Bucket)
        ensures
            final(self).resource() == old(self).resource(),
            final(self).amount() == 0,
            b == (Bucket { resource: old(self).resource(), amount: old(self).amount() }),
    {
        let amount = self.amount;
        self.take(amount)
    }
}

/// A container owned by the engine holding custody of uniquely identified
/// items, viewed as the sequence of their identifiers.
pub struct ItemVault {
    ids: Vec<u64>,
}

impl View for ItemVault {
    type V = Seq<u64>;

    closed spec fn view(&self) -> Seq<u64> {
        self.ids@
    }
}

impl ItemVault {
    /// A vault is well formed when it holds each identifier at most once.
    pub open spec fn wf(self) -> bool {
        forall|i: int, j: int| 0 <= i < j < self@.len() ==> self@[i] != self@[j]
    }

    /// Creates an empty item vault.
    pub fn new() -> (v: Self)
        ensures
            v.wf(),
            v@ == Seq::<u64>::empty(),
    {
        ItemVault { ids: Vec::new() }
    }

    /// Whether the vault holds the item `id`.
    pub fn has(&self, id: u64) -> (r: bool)
        ensures
            r == self@.contains(id),
    {
        let mut i: usize = 0;
        while i < self.ids.len()
            invariant
                i <= self.ids.len(),
                forall|j: int| 0 <= j < i ==> self.ids@[j] != id,
            decreases self.ids.len() - i,
        {
            if self.ids[i] == id {
                return true;
            }
            i += 1;
        }
        false
    }

    /// Deposits an item the vault does not already hold.
    pub fn put(&mut self, id: u64)
        requires
            old(self).wf(),
            !old(self)@.contains(id),
        ensures
            final(self).wf(),
            final(self)@ == old(self)@.push(id),
    {
        self.ids.push(id);
        proof {
            assert forall|i: int, j: int| 0 <= i < j < self@.len() implies self@[i]
                != self@[j] by {
                if j == self@.len() - 1 {
                    assert(old(self)@.contains(old(self)@[i])) by {
                        assert(old(self)@[i] == self@[i]);
                    }
                }
            }
        }
    }

    /// Withdraws the item `id` if the vault holds it; reports whether it did.
    /// A failed withdrawal changes nothing.
    pub fn take(&mut self, id: u64) -> (found: bool)
        requires
            old(self).wf(),
        ensures
            final(self).wf(),
            found == old(self)@.contains(id),
            !found ==> final(self)@ == old(self)@,
            found ==> {
                &&& !final(self)@.contains(id)
                &&& final(self)@.len() == old(self)@.len() - 1
                &&& forall|x: u64| x != id ==> final(self)@.contains(x) == old(self)@.contains(x)
            },
    {
        let mut i: usize = 0;
        while i < self.ids.len()
            invariant
                old(self).wf(),
                self@ == old(self)@,
                i <= self.ids.len(),
                forall|j: int| 0 <= j < i ==> self.ids@[j] != id,
            decreases self.ids.len() - i,
        {
            if self.ids[i] == id {
                let _ = self.ids.remove(i);
                proof {
                    let s = old(self)@;
                    let t = self@;
                    s.remove_ensures(i as int);
                    assert(s.contains(id));
                    assert forall|x: int, y: int| 0 <= x < y < t.len() implies t[x] != t[y] by {
                        let x0: int = if x < i { x } else { x + 1 };
                        let y0: int = if y < i { y } else { y + 1 };
                        assert(t[x] == s[x0]);
                        assert(t[y] == s[y0]);
                    }
                    assert(!t.contains(id)) by {
                        assert forall|j: int| 0 <= j < t.len() implies t[j] != id by {
                            let j0: int = if j < i { j } else { j + 1 };
                            assert(t[j] == s[j0]);
                        }
                    }
                    assert forall|x: u64| x != id implies t.contains(x) == s.contains(x) by {
                        if s.contains(x) {
                            let j = choose|j: int| 0 <= j < s.len() && s[j] == x;
                            let j1: int = if j < i { j } else { j - 1 };
                            assert(t[j1] == x);
                        }
                        if t.contains(x) {
                            let j = choose|j: int| 0 <= j < t.len() && t[j] == x;
                            let j0: int = if j < i { j } else { j + 1 };
                            assert(s[j0] == x);
                        }
                    }
                }
                return true;
            }
            i += 1;
        }
        false
    }

    /// Withdraws every item, in storage order, leaving the vault empty.
    pub fn take_all(&mut self) -> (items: Vec<u64>)
        ensures
            final(self).wf(),
            final(self)@ == Seq::<u64>::empty(),
            items@ == old(self)@,
    {
        let mut items: Vec<u64> = Vec::new();
        core::mem::swap(&mut items, &mut self.ids);
        items
    }
}

} // verus!
