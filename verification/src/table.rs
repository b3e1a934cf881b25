//! An association table from `u64` identifiers to values.
//!
//! The ledgers of the engine (inventory, whitelist usage, live bids, pending
//! withdrawals) are all keyed by opaque identifiers. The table stores its
//! entries as a vector of pairs whose keys never repeat, and is specified
//! against a mathematical `Map` view, with the underlying pair sequence also
//! exposed so that callers can walk the entries in a loop.

use vstd::prelude::*;

verus! {

/// The mathematical content of a key/value pair sequence; a later pair would
/// win, though a well-formed table never repeats a key.
pub open spec fn as_map<V: View>(s: Seq<(u64, V)>) -> Map<u64, V::V>
    decreases s.len(),
{
    if s.len() == 0 {
        Map::empty()
    } else {
        as_map(s.drop_last()).insert(s.last().0, s.last().1@)
    }
}

/// Whether some pair of the sequence carries the key `k`.
pub open spec fn has_key<V: View>(s: Seq<(u64, V)>, k: u64) -> bool {
    exists|i: int| 0 <= i < s.len() && s[i].0 == k
}

/// Whether no key occurs twice in the sequence.
pub open spec fn distinct_keys<V: View>(s: Seq<(u64, V)>) -> bool {
    forall|i: int, j: int| 0 <= i < j < s.len() ==> s[i].0 != s[j].0
}

/// A key is in the map exactly when some pair carries it.
pub proof fn lemma_as_map_contains<V: View>(s: Seq<(u64, V)>, k: u64)
    ensures
        as_map(s).contains_key(k) <==> has_key(s, k),
    decreases s.len(),
{
    if s.len() == 0 {
    } else {
        lemma_as_map_contains(s.drop_last(), k);
        if as_map(s).contains_key(k) {
            if s.last().0 == k {
                assert(s[s.len() - 1].0 == k);
            } else {
                let i = choose|i: int|
                    0 <= i < s.drop_last().len() && s.drop_last()[i].0 == k;
                assert(s[i].0 == k);
            }
        }
        if has_key(s, k) {
            let i = choose|i: int| 0 <= i < s.len() && s[i].0 == k;
            if i < s.len() - 1 {
                assert(s.drop_last()[i].0 == k);
            }
        }
    }
}

/// With distinct keys, the map sends the key of each pair to that pair's
/// value.
pub proof fn lemma_as_map_index<V: View>(s: Seq<(u64, V)>, i: int)
    requires
        distinct_keys(s),
        0 <= i < s.len(),
    ensures
        as_map(s).contains_key(s[i].0),
        as_map(s)[s[i].0] == s[i].1@,
    decreases s.len(),
{
    if i == s.len() - 1 {
    } else {
        assert(distinct_keys(s.drop_last())) by {
            assert(forall|x: int, y: int|
                0 <= x < y < s.drop_last().len() ==> s.drop_last()[x] == s[x]
                    && s.drop_last()[y] == s[y]);
        }
        lemma_as_map_index(s.drop_last(), i);
        assert(s.drop_last()[i] == s[i]);
        assert(s.last().0 != s[i].0);
    }
}

/// Removing the pair at `i` removes exactly its key from the map.
pub proof fn lemma_as_map_remove_at<V: View>(s: Seq<(u64, V)>, i: int)
    requires
        distinct_keys(s),
        0 <= i < s.len(),
    ensures
        distinct_keys(s.remove(i)),
        as_map(s.remove(i)) == as_map(s).remove(s[i].0),
    decreases s.len(),
{
    let k = s[i].0;
    assert(distinct_keys(s.remove(i))) by {
        s.remove_ensures(i);
        assert forall|x: int, y: int| 0 <= x < y < s.remove(i).len() implies s.remove(i)[x].0
            != s.remove(i)[y].0 by {
            let x0 = if x < i { x } else { x + 1 };
            let y0 = if y < i { y } else { y + 1 };
            assert(s.remove(i)[x] == s[x0]);
            assert(s.remove(i)[y] == s[y0]);
        }
    }
    assert(distinct_keys(s.drop_last())) by {
        assert(forall|x: int, y: int|
            0 <= x < y < s.drop_last().len() ==> s.drop_last()[x] == s[x]
                && s.drop_last()[y] == s[y]);
    }
    if i == s.len() - 1 {
        assert(s.remove(i) =~= s.drop_last());
        assert(!has_key(s.drop_last(), k)) by {
            assert forall|j: int| 0 <= j < s.drop_last().len() implies s.drop_last()[j].0 != k by {
                assert(s.drop_last()[j] == s[j]);
            }
        }
        lemma_as_map_contains(s.drop_last(), k);
        assert(as_map(s).remove(k) =~= as_map(s.drop_last()));
    } else {
        assert(s.remove(i).drop_last() =~= s.drop_last().remove(i)) by {
            s.remove_ensures(i);
            s.drop_last().remove_ensures(i);
        }
        lemma_as_map_remove_at(s.drop_last(), i);
        assert(s.remove(i).last() == s.last()) by {
            s.remove_ensures(i);
        }
        assert(s.last().0 != k);
        assert(as_map(s.drop_last()).remove(k).insert(s.last().0, s.last().1@) =~= as_map(
            s.drop_last(),
        ).insert(s.last().0, s.last().1@).remove(k));
    }
}

/// Replacing the value of the pair at `i` updates exactly its key in the map.
pub proof fn lemma_as_map_update<V: View>(s: Seq<(u64, V)>, i: int, v: V)
    requires
        distinct_keys(s),
        0 <= i < s.len(),
    ensures
        distinct_keys(s.update(i, (s[i].0, v))),
        as_map(s.update(i, (s[i].0, v))) == as_map(s).insert(s[i].0, v@),
    decreases s.len(),
{
    let k = s[i].0;
    let t = s.update(i, (k, v));
    assert(t.len() == s.len());
    assert(distinct_keys(t)) by {
        assert forall|x: int, y: int| 0 <= x < y < t.len() implies t[x].0 != t[y].0 by {
            assert(t[x].0 == s[x].0);
            assert(t[y].0 == s[y].0);
        }
    }
    assert(distinct_keys(s.drop_last())) by {
        assert(forall|x: int, y: int|
            0 <= x < y < s.drop_last().len() ==> s.drop_last()[x] == s[x]
                && s.drop_last()[y] == s[y]);
    }
    if i == s.len() - 1 {
        assert(t.drop_last() =~= s.drop_last());
        assert(t.last() == (k, v));
        assert(as_map(s.drop_last()).insert(k, v@) =~= as_map(s.drop_last()).insert(
            k,
            s.last().1@,
        ).insert(k, v@));
    } else {
        assert(t.drop_last() =~= s.drop_last().update(i, (k, v)));
        assert(s.drop_last()[i] == s[i]);
        lemma_as_map_update(s.drop_last(), i, v);
        assert(t.last() == s.last());
        assert(s.last().0 != k);
        assert(as_map(s.drop_last()).insert(k, v@).insert(s.last().0, s.last().1@) =~= as_map(
            s.drop_last(),
        ).insert(s.last().0, s.last().1@).insert(k, v@));
    }
}

/// Appending a pair with a fresh key inserts exactly that key.
pub proof fn lemma_as_map_push<V: View>(s: Seq<(u64, V)>, k: u64, v: V)
    requires
        distinct_keys(s),
        !has_key(s, k),
    ensures
        distinct_keys(s.push((k, v))),
        as_map(s.push((k, v))) == as_map(s).insert(k, v@),
{
    let t = s.push((k, v));
    assert(distinct_keys(t)) by {
        assert forall|x: int, y: int| 0 <= x < y < t.len() implies t[x].0 != t[y].0 by {
            if y == t.len() - 1 {
                assert(t[x] == s[x]);
            } else {
                assert(t[x] == s[x]);
                assert(t[y] == s[y]);
            }
        }
    }
    assert(t.drop_last() =~= s);
    assert(t.last() == (k, v));
}

/// The map of a pair sequence has a finite domain.
pub proof fn lemma_as_map_finite<V: View>(s: Seq<(u64, V)>)
    ensures
        as_map(s).dom().finite(),
    decreases s.len(),
{
    if s.len() == 0 {
    } else {
        lemma_as_map_finite(s.drop_last());
    }
}

/// An association table from `u64` keys to values of type `V`, with unique
/// keys, viewed as the `Map` from each key to the view of its value.
pub struct KvTable<V> {
    pairs: Vec<(u64, V)>,
}

impl<V: View> View for KvTable<V> {
    type V = Map<u64, V::V>;

    open spec fn view(&self) -> Map<u64, V::V> {
        as_map(self.kvs())
    }
}

impl<V: View> KvTable<V> {
    /// The pair sequence behind the table, in storage order.
    pub closed spec fn kvs(self) -> Seq<(u64, V)> {
        self.pairs@
    }

    /// A table is well formed when no key repeats.
    pub open spec fn wf(self) -> bool {
        distinct_keys(self.kvs())
    }

    /// Creates an empty table.
    pub fn new() -> (t: Self)
        ensures
            t.wf(),
            t.kvs() == Seq::<(u64, V)>::empty(),
            t@ == Map::<u64, V::V>::empty(),
    {
        let t = KvTable { pairs: Vec::new() };
        proof {
            assert(t@ =~= Map::<u64, V::V>::empty());
        }
        t
    }

    /// How many entries the table holds.
    pub fn len(&self) -> (n: usize)
        ensures
            n == self.kvs().len(),
    {
        self.pairs.len()
    }

    /// The key of the entry at position `i`.
    pub fn key_at(&self, i: usize) -> (k: u64)
        requires
            i < self.kvs().len(),
        ensures
            k == self.kvs()[i as int].0,
    {
        self.pairs[i].0
    }

    /// The value of the entry at position `i`.
    pub fn value_at(&self, i: usize) -> (v: &V)
        requires
            i < self.kvs().len(),
        ensures
            *v == self.kvs()[i as int].1,
    {
        &self.pairs[i].1
    }

    /// Replaces the value of the entry at position `i`, keeping its key and
    /// its position.
    pub fn set_value_at(&mut self, i: usize, v: V)
        requires
            old(self).wf(),
            i < old(self).kvs().len(),
        ensures
            final(self).wf(),
            final(self).kvs() == old(self).kvs().update(
                i as int,
                (old(self).kvs()[i as int].0, v),
            ),
            final(self)@ == old(self)@.insert(old(self).kvs()[i as int].0, v@),
    {
        proof {
            lemma_as_map_update(self.kvs(), i as int, v);
        }
        let k = self.pairs[i].0;
        let _ = self.pairs.remove(i);
        self.pairs.insert(i, (k, v));
        proof {
            assert(self.kvs() =~= old(self).kvs().update(
                i as int,
                (old(self).kvs()[i as int].0, v),
            ));
        }
    }

    /// The position of the entry carrying `k`, if one does.
    pub fn index_of(&self, k: u64) -> (r: Option<usize>)
        ensures
            match r {
                Some(i) => i < self.kvs().len() && self.kvs()[i as int].0 == k,
                None => !has_key(self.kvs(), k),
            },
    {
        let mut i: usize = 0;
        while i < self.pairs.len()
            invariant
                i <= self.pairs.len(),
                forall|j: int| 0 <= j < i ==> self.pairs@[j].0 != k,
            decreases self.pairs.len() - i,
        {
            if self.pairs[i].0 == k {
                return Some(i);
            }
            i += 1;
        }
        None
    }

    /// Whether the table holds an entry for `k`.
    pub fn contains_key(&self, k: u64) -> (r: bool)
        requires
            self.wf(),
        ensures
            r == self@.contains_key(k),
    {
        proof {
            lemma_as_map_contains(self.kvs(), k);
        }
        match self.index_of(k) {
            Some(i) => {
                proof {
                    lemma_as_map_index(self.kvs(), i as int);
                }
                true
            },
            None => false,
        }
    }

    /// The value stored for `k`, if any.
    pub fn get(&self, k: u64) -> (r: Option<&V>)
        requires
            self.wf(),
        ensures
            match r {
                Some(v) => self@.contains_key(k) && v@ == self@[k],
                None => !self@.contains_key(k),
            },
    {
        proof {
            lemma_as_map_contains(self.kvs(), k);
        }
        match self.index_of(k) {
            Some(i) => {
                proof {
                    lemma_as_map_index(self.kvs(), i as int);
                }
                Some(&self.pairs[i].1)
            },
            None => None,
        }
    }

    /// Stores `v` under `k`, replacing any previous value for `k`.
    pub fn insert(&mut self, k: u64, v: V)
        requires
            old(self).wf(),
        ensures
            final(self).wf(),
            final(self)@ == old(self)@.insert(k, v@),
            !old(self)@.contains_key(k) ==> final(self).kvs() == old(self).kvs().push((k, v)),
    {
        proof {
            lemma_as_map_contains(self.kvs(), k);
        }
        match self.index_of(k) {
            Some(i) => {
                self.set_value_at(i, v);
            },
            None => {
                proof {
                    lemma_as_map_push(self.kvs(), k, v);
                }
                self.pairs.push((k, v));
            },
        }
    }

    /// Takes the entry for `k` out of the table and returns its value.
    pub fn remove(&mut self, k: u64) -> (r: Option<V>)
        requires
            old(self).wf(),
        ensures
            final(self).wf(),
            final(self)@ == old(self)@.remove(k),
            match r {
                Some(v) => old(self)@.contains_key(k) && v@ == old(self)@[k],
                None => !old(self)@.contains_key(k) && final(self)@ == old(self)@,
            },
    {
        proof {
            lemma_as_map_contains(self.kvs(), k);
        }
        match self.index_of(k) {
            Some(i) => {
                proof {
                    lemma_as_map_index(self.kvs(), i as int);
                    lemma_as_map_remove_at(self.kvs(), i as int);
                }
                let (_, v) = self.pairs.remove(i);
                Some(v)
            },
            None => {
                proof {
                    assert(old(self)@.remove(k) =~= old(self)@);
                }
                None
            },
        }
    }
}

} // verus!
