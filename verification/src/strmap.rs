//! A map keyed by strings, held as a vector of distinct key/value pairs.
//!
//! The package manager keys almost everything by package names, versions and
//! `name@version` identifiers. The view of a [`StrMap`] is a `Map` from the
//! keys' character sequences to the values; the pairs keep their insertion
//! order, which is how callers walk the map.

use crate::text::str_eq;
use vstd::prelude::*;

verus! {

/// Whether no two pairs share a key.
pub open spec fn keys_distinct<V>(p: Seq<(Seq<char>, V)>) -> bool {
    forall|i: int, j: int|
        0 <= i < p.len() && 0 <= j < p.len() && i != j ==> #[trigger] p[i].0 != #[trigger] p[j].0
}

/// Whether `k` is the key of some pair.
pub open spec fn has_key<V>(p: Seq<(Seq<char>, V)>, k: Seq<char>) -> bool {
    exists|i: int| 0 <= i < p.len() && #[trigger] p[i].0 == k
}

/// The map that a sequence of pairs with distinct keys denotes.
pub open spec fn map_of_pairs<V>(p: Seq<(Seq<char>, V)>) -> Map<Seq<char>, V> {
    Map::new(
        |k: Seq<char>| has_key(p, k),
        |k: Seq<char>| p[choose|i: int| 0 <= i < p.len() && #[trigger] p[i].0 == k].1,
    )
}

/// Looking up the key of pair `i` gives the value of pair `i`.
pub proof fn lemma_map_of_pairs_at<V>(p: Seq<(Seq<char>, V)>, i: int)
    requires
        keys_distinct(p),
        0 <= i < p.len(),
    ensures
        map_of_pairs(p).contains_key(p[i].0),
        map_of_pairs(p)[p[i].0] == p[i].1,
{
    assert(has_key(p, p[i].0));
    let j = choose|j: int| 0 <= j < p.len() && #[trigger] p[j].0 == p[i].0;
    assert(p[j].0 == p[i].0);
}

/// Every pair is found under its key.
pub proof fn lemma_map_of_pairs_all<V>(p: Seq<(Seq<char>, V)>)
    requires
        keys_distinct(p),
    ensures
        forall|i: int|
            0 <= i < p.len() ==> map_of_pairs(p).contains_key(#[trigger] p[i].0) && map_of_pairs(
                p,
            )[p[i].0] == p[i].1,
{
    assert forall|i: int| 0 <= i < p.len() implies map_of_pairs(p).contains_key(
        #[trigger] p[i].0,
    ) && map_of_pairs(p)[p[i].0] == p[i].1 by {
        lemma_map_of_pairs_at(p, i);
    }
}

/// Replacing the value of an existing key updates the map at that key.
proof fn lemma_map_update<V>(p: Seq<(Seq<char>, V)>, i: int, v: V)
    requires
        keys_distinct(p),
        0 <= i < p.len(),
    ensures
        keys_distinct(p.update(i, (p[i].0, v))),
        map_of_pairs(p.update(i, (p[i].0, v))) == map_of_pairs(p).insert(p[i].0, v),
{
    let q = p.update(i, (p[i].0, v));
    assert(keys_distinct(q)) by {
        assert forall|a: int, b: int|
            0 <= a < q.len() && 0 <= b < q.len() && a != b implies #[trigger] q[a].0
            != #[trigger] q[b].0 by {
            assert(q[a].0 == p[a].0);
            assert(q[b].0 == p[b].0);
        }
    }
    let m1 = map_of_pairs(q);
    let m2 = map_of_pairs(p).insert(p[i].0, v);
    assert forall|k: Seq<char>| m1.contains_key(k) <==> m2.contains_key(k) by {
        if has_key(q, k) {
            let j = choose|j: int| 0 <= j < q.len() && #[trigger] q[j].0 == k;
            assert(p[j].0 == k);
        }
        if has_key(p, k) {
            let j = choose|j: int| 0 <= j < p.len() && #[trigger] p[j].0 == k;
            assert(q[j].0 == k);
        }
        if k == p[i].0 {
            assert(q[i].0 == k);
        }
    }
    assert forall|k: Seq<char>| m1.contains_key(k) implies m1[k] == m2[k] by {
        let j = choose|j: int| 0 <= j < q.len() && #[trigger] q[j].0 == k;
        lemma_map_of_pairs_at(q, j);
        if j != i {
            lemma_map_of_pairs_at(p, j);
        }
    }
    assert(m1 =~= m2);
}

/// Appending a pair with a fresh key inserts it into the map.
proof fn lemma_map_push<V>(p: Seq<(Seq<char>, V)>, k: Seq<char>, v: V)
    requires
        keys_distinct(p),
        !has_key(p, k),
    ensures
        keys_distinct(p.push((k, v))),
        map_of_pairs(p.push((k, v))) == map_of_pairs(p).insert(k, v),
{
    let q = p.push((k, v));
    assert(keys_distinct(q)) by {
        assert forall|a: int, b: int|
            0 <= a < q.len() && 0 <= b < q.len() && a != b implies #[trigger] q[a].0
            != #[trigger] q[b].0 by {
            if a < p.len() && b < p.len() {
                assert(q[a].0 == p[a].0);
                assert(q[b].0 == p[b].0);
            } else if a < p.len() {
                assert(q[a].0 == p[a].0);
            } else {
                assert(q[b].0 == p[b].0);
            }
        }
    }
    let m1 = map_of_pairs(q);
    let m2 = map_of_pairs(p).insert(k, v);
    assert forall|x: Seq<char>| m1.contains_key(x) <==> m2.contains_key(x) by {
        if has_key(q, x) {
            let j = choose|j: int| 0 <= j < q.len() && #[trigger] q[j].0 == x;
            if j < p.len() {
                assert(p[j].0 == x);
            }
        }
        if has_key(p, x) {
            let j = choose|j: int| 0 <= j < p.len() && #[trigger] p[j].0 == x;
            assert(q[j].0 == x);
        }
        if x == k {
            assert(q[p.len() as int].0 == k);
        }
    }
    assert forall|x: Seq<char>| m1.contains_key(x) implies m1[x] == m2[x] by {
        let j = choose|j: int| 0 <= j < q.len() && #[trigger] q[j].0 == x;
        lemma_map_of_pairs_at(q, j);
        if j < p.len() {
            assert(q[j] == p[j]);
            lemma_map_of_pairs_at(p, j);
        }
    }
    assert(m1 =~= m2);
}

/// Removing pair `i` removes its key from the map.
proof fn lemma_map_remove<V>(p: Seq<(Seq<char>, V)>, i: int)
    requires
        keys_distinct(p),
        0 <= i < p.len(),
    ensures
        keys_distinct(p.remove(i)),
        map_of_pairs(p.remove(i)) == map_of_pairs(p).remove(p[i].0),
{
    let q = p.remove(i);
    assert forall|a: int| 0 <= a < q.len() implies #[trigger] q[a] == p[if a < i { a } else { a + 1 }] by {}
    assert(keys_distinct(q)) by {
        assert forall|a: int, b: int|
            0 <= a < q.len() && 0 <= b < q.len() && a != b implies #[trigger] q[a].0
            != #[trigger] q[b].0 by {
            assert(q[a] == p[if a < i { a } else { a + 1 }]);
            assert(q[b] == p[if b < i { b } else { b + 1 }]);
        }
    }
    let m1 = map_of_pairs(q);
    let m2 = map_of_pairs(p).remove(p[i].0);
    assert forall|k: Seq<char>| m1.contains_key(k) <==> m2.contains_key(k) by {
        if has_key(q, k) {
            let j = choose|j: int| 0 <= j < q.len() && #[trigger] q[j].0 == k;
            let jj = if j < i { j } else { j + 1 };
            assert(q[j] == p[jj]);
            assert(p[jj].0 == k);
            assert(jj != i);
        }
        if has_key(p, k) && k != p[i].0 {
            let j = choose|j: int| 0 <= j < p.len() && #[trigger] p[j].0 == k;
            assert(j != i);
            let jq = if j < i { j } else { j - 1 };
            assert(q[jq] == p[j]);
        }
    }
    assert forall|k: Seq<char>| m1.contains_key(k) implies m1[k] == m2[k] by {
        let j = choose|j: int| 0 <= j < q.len() && #[trigger] q[j].0 == k;
        let jj = if j < i { j } else { j + 1 };
        assert(q[j] == p[jj]);
        lemma_map_of_pairs_at(q, j);
        lemma_map_of_pairs_at(p, jj);
    }
    assert(m1 =~= m2);
}

/// The keys of a sequence of pairs, in order.
pub open spec fn pair_keys<V>(p: Seq<(Seq<char>, V)>) -> Seq<Seq<char>> {
    p.map_values(|e: (Seq<char>, V)| e.0)
}

/// A sequence of pairs with distinct keys denotes a map with exactly one
/// key per pair: its domain is finite and has as many keys as there are
/// pairs.
pub proof fn lemma_map_of_pairs_dom_len<V>(p: Seq<(Seq<char>, V)>)
    requires
        keys_distinct(p),
    ensures
        map_of_pairs(p).dom().finite(),
        map_of_pairs(p).dom().len() == p.len(),
{
    broadcast use vstd::seq_lib::seq_to_set_is_finite;

    let ks = pair_keys(p);
    assert(ks.no_duplicates()) by {
        assert forall|i: int, j: int| 0 <= i < ks.len() && 0 <= j < ks.len() && i != j implies ks[i]
            != ks[j] by {
            assert(ks[i] == p[i].0 && ks[j] == p[j].0);
        }
    }
    ks.unique_seq_to_set();
    assert(map_of_pairs(p).dom() =~= ks.to_set()) by {
        assert forall|k: Seq<char>| map_of_pairs(p).dom().contains(k) implies ks.to_set().contains(
            k,
        ) by {
            let i = choose|i: int| 0 <= i < p.len() && #[trigger] p[i].0 == k;
            assert(ks[i] == k);
        }
        assert forall|k: Seq<char>| ks.to_set().contains(k) implies map_of_pairs(p).dom().contains(
            k,
        ) by {
            let i = choose|i: int| 0 <= i < ks.len() && ks[i] == k;
            assert(p[i].0 == k);
        }
    }
}

/// A string-keyed map whose pairs keep their insertion order.
pub struct StrMap<V> {
    entries: Vec<(String, V)>,
}

impl<V> View for StrMap<V> {
    type V = Map<Seq<char>, V>;

    open spec fn view(&self) -> Map<Seq<char>, V> {
        map_of_pairs(self.pairs())
    }
}

impl<V> StrMap<V> {
    /// The pairs, in order, with keys taken by their characters.
    pub closed spec fn pairs(&self) -> Seq<(Seq<char>, V)> {
        self.entries@.map_values(|e: (String, V)| (e.0@, e.1))
    }

    #[verifier::type_invariant]
    spec fn distinct_keys(self) -> bool {
        keys_distinct(self.pairs())
    }

    /// An empty map.
    pub fn new() -> (m: Self)
        ensures
            m.pairs() == Seq::<(Seq<char>, V)>::empty(),
            m@ == Map::<Seq<char>, V>::empty(),
    {
        let m = StrMap { entries: Vec::new() };
        assert(m.pairs() =~= Seq::<(Seq<char>, V)>::empty());
        assert(m@ =~= Map::<Seq<char>, V>::empty());
        m
    }

    /// The number of pairs. Also states that the keys are distinct and that
    /// every pair is found in the view under its key.
    pub fn len(&self) -> (n: usize)
        ensures
            n == self.pairs().len(),
            keys_distinct(self.pairs()),
            forall|i: int|
                0 <= i < self.pairs().len() ==> self@.contains_key(#[trigger] self.pairs()[i].0)
                    && self@[self.pairs()[i].0] == self.pairs()[i].1,
            forall|k: Seq<char>| #[trigger] self@.contains_key(k) <==> has_key(self.pairs(), k),
    {
        proof {
            use_type_invariant(self);
            lemma_map_of_pairs_all(self.pairs());
        }
        self.entries.len()
    }

    /// The key of pair `i`.
    pub fn key_at(&self, i: usize) -> (k: &String)
        requires
            i < self.pairs().len(),
        ensures
            k@ == self.pairs()[i as int].0,
    {
        &self.entries[i].0
    }

    /// The value of pair `i`.
    pub fn value_at(&self, i: usize) -> (v: &V)
        requires
            i < self.pairs().len(),
        ensures
            *v == self.pairs()[i as int].1,
    {
        &self.entries[i].1
    }

    /// The position of key `k`, if present.
    pub fn position(&self, k: &str) -> (r: Option<usize>)
        ensures
            match r {
                None => !has_key(self.pairs(), k@),
                Some(i) => i < self.pairs().len() && self.pairs()[i as int].0 == k@,
            },
    {
        let mut i: usize = 0;
        while i < self.entries.len()
            invariant
                i <= self.entries.len(),
                forall|j: int| 0 <= j < i ==> #[trigger] self.pairs()[j].0 != k@,
            decreases self.entries.len() - i,
        {
            if str_eq(self.entries[i].0.as_str(), k) {
                return Some(i);
            }
            i += 1;
        }
        None
    }

    /// The value under key `k`, if present.
    pub fn get(&self, k: &str) -> (r: Option<&V>)
        ensures
            match r {
                None => !self@.contains_key(k@),
                Some(v) => self@.contains_key(k@) && self@[k@] == *v,
            },
    {
        proof {
            use_type_invariant(self);
        }
        match self.position(k) {
            None => None,
            Some(i) => {
                proof {
                    lemma_map_of_pairs_at(self.pairs(), i as int);
                }
                Some(&self.entries[i].1)
            },
        }
    }

    /// Whether key `k` is present.
    pub fn contains_key(&self, k: &str) -> (b: bool)
        ensures
            b == self@.contains_key(k@),
    {
        match self.get(k) {
            None => false,
            Some(_) => true,
        }
    }

    /// Inserts or replaces the value under `k`. A new key goes last; an
    /// existing key keeps its position.
    pub fn insert(&mut self, k: String, v: V)
        ensures
            final(self)@ == old(self)@.insert(k@, v),
            has_key(old(self).pairs(), k@) ==> exists|i: int|
                0 <= i < old(self).pairs().len() && old(self).pairs()[i].0 == k@
                    && final(self).pairs() == old(self).pairs().update(i, (k@, v)),
            !has_key(old(self).pairs(), k@) ==> final(self).pairs() == old(self).pairs().push((k@, v)),
    {
        proof {
            use_type_invariant(&*self);
        }
        let ghost p = self.pairs();
        let pos = self.position(k.as_str());
        let mut entries: Vec<(String, V)> = Vec::new();
        std::mem::swap(&mut entries, &mut self.entries);
        match pos {
            Some(i) => {
                proof {
                    lemma_map_update(p, i as int, v);
                }
                entries.set(i, (k, v));
                let ghost q = entries@.map_values(|e: (String, V)| (e.0@, e.1));
                assert(q =~= p.update(i as int, (p[i as int].0, v)));
            },
            None => {
                proof {
                    lemma_map_push(p, k@, v);
                }
                entries.push((k, v));
                let ghost q = entries@.map_values(|e: (String, V)| (e.0@, e.1));
                assert(q =~= p.push((k@, v)));
            },
        }
        self.entries = entries;
    }

    /// Removes pair `i`, handing back its key and value.
    pub fn remove_at(&mut self, i: usize) -> (r: (String, V))
        requires
            i < old(self).pairs().len(),
        ensures
            r.0@ == old(self).pairs()[i as int].0,
            r.1 == old(self).pairs()[i as int].1,
            final(self).pairs() == old(self).pairs().remove(i as int),
            final(self)@ == old(self)@.remove(r.0@),
    {
        proof {
            use_type_invariant(&*self);
        }
        let ghost p = self.pairs();
        proof {
            lemma_map_remove(p, i as int);
        }
        let mut entries: Vec<(String, V)> = Vec::new();
        std::mem::swap(&mut entries, &mut self.entries);
        let e = entries.remove(i);
        let ghost q = entries@.map_values(|e: (String, V)| (e.0@, e.1));
        assert(q =~= p.remove(i as int));
        self.entries = entries;
        e
    }

    /// Removes the pair with key `k`, handing back its value when present.
    pub fn remove(&mut self, k: &str) -> (r: Option<V>)
        ensures
            final(self)@ == old(self)@.remove(k@),
            match r {
                Some(v) => old(self)@.contains_key(k@) && old(self)@[k@] == v,
                None => !old(self)@.contains_key(k@),
            },
    {
        proof {
            use_type_invariant(&*self);
        }
        match self.position(k) {
            None => {
                assert(self@ =~= old(self)@.remove(k@));
                None
            },
            Some(i) => {
                proof {
                    lemma_map_of_pairs_at(self.pairs(), i as int);
                }
                let (_, v) = self.remove_at(i);
                Some(v)
            },
        }
    }
}

/// The map of the first `n` pairs of a sequence with distinct keys adds pair
/// `n` to the map of the first `n - 1`.
pub proof fn lemma_map_of_prefix<V>(p: Seq<(Seq<char>, V)>, n: int)
    requires
        keys_distinct(p),
        0 <= n < p.len(),
    ensures
        keys_distinct(p.take(n)),
        map_of_pairs(p.take(n + 1)) == map_of_pairs(p.take(n)).insert(p[n].0, p[n].1),
{
    let q = p.take(n);
    assert(keys_distinct(q)) by {
        assert forall|a: int, b: int|
            0 <= a < q.len() && 0 <= b < q.len() && a != b implies #[trigger] q[a].0
            != #[trigger] q[b].0 by {
            assert(q[a] == p[a]);
            assert(q[b] == p[b]);
        }
    }
    assert(!has_key(q, p[n].0)) by {
        if has_key(q, p[n].0) {
            let j = choose|j: int| 0 <= j < q.len() && #[trigger] q[j].0 == p[n].0;
            assert(q[j] == p[j]);
        }
    }
    lemma_map_push(q, p[n].0, p[n].1);
    assert(q.push((p[n].0, p[n].1)) =~= p.take(n + 1));
}

impl StrMap<String> {
    /// A copy of the map, pair for pair.
    pub fn duplicate(&self) -> (r: Self)
        ensures
            r@ == self@,
    {
        proof {
            use_type_invariant(self);
        }
        let ghost p = self.pairs();
        let mut r: StrMap<String> = StrMap::new();
        let mut i: usize = 0;
        assert(p.take(0) =~= Seq::<(Seq<char>, String)>::empty());
        assert(map_of_pairs(p.take(0)) =~= Map::<Seq<char>, String>::empty());
        while i < self.entries.len()
            invariant
                i <= p.len(),
                p == self.pairs(),
                keys_distinct(p),
                r@ == map_of_pairs(p.take(i as int)),
            decreases p.len() - i,
        {
            proof {
                lemma_map_of_prefix(p, i as int);
            }
            let k = self.entries[i].0.clone();
            let v = self.entries[i].1.clone();
            r.insert(k, v);
            i += 1;
        }
        assert(p.take(p.len() as int) =~= p);
        r
    }
}

} // verus!
