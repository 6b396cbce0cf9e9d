//! A map from string keys to values, kept as a list of entries whose keys
//! are pairwise distinct.  Its view is a `Map` from the keys' characters to
//! the values; the order of the entries carries no meaning.  (vstd's
//! `StringHashMap` offers no way to walk its entries, which expiry and
//! saving need, and vstd's model of `HashMap` holds only for key types it
//! knows to hash soundly, which `String` is not among.)

use vstd::prelude::*;

verus! {

/// The map that a list of `(key, value)` pairs denotes when the pairs are
/// inserted one after another: a later pair for a key wins over an earlier one.
pub open spec fn pairs_to_map<V>(s: Seq<(String, V)>) -> Map<Seq<char>, V>
    decreases s.len(),
{
    if s.len() == 0 {
        Map::empty()
    } else {
        pairs_to_map(s.drop_last()).insert(s.last().0@, s.last().1)
    }
}

/// No two pairs of `s` have the same key.
pub open spec fn keys_distinct<V>(s: Seq<(String, V)>) -> bool {
    forall|i: int, j: int|
        0 <= i < s.len() && 0 <= j < s.len() && i != j ==> #[trigger] s[i].0@ != #[trigger] s[j].0@
}

/// The key `k` is the key of some pair of `s`.
pub open spec fn has_key<V>(s: Seq<(String, V)>, k: Seq<char>) -> bool {
    exists|j: int| 0 <= j < s.len() && #[trigger] s[j].0@ == k
}

/// The map of a list holds exactly the keys of its pairs.
pub proof fn lemma_pairs_dom<V>(s: Seq<(String, V)>, k: Seq<char>)
    ensures
        pairs_to_map(s).contains_key(k) <==> has_key(s, k),
    decreases s.len(),
{
    if s.len() > 0 {
        let t = s.drop_last();
        lemma_pairs_dom(t, k);
        if has_key(t, k) {
            let j = choose|j: int| 0 <= j < t.len() && #[trigger] t[j].0@ == k;
            assert(s[j].0@ == k);
        }
        if has_key(s, k) && s.last().0@ != k {
            let j = choose|j: int| 0 <= j < s.len() && #[trigger] s[j].0@ == k;
            assert(j != s.len() - 1);
            assert(t[j].0@ == k);
        }
        if s.last().0@ == k {
            assert(s[s.len() - 1].0@ == k);
        }
    }
}

/// In a list with distinct keys, the map sends the key of each pair to the
/// value of that pair.
pub proof fn lemma_pairs_value<V>(s: Seq<(String, V)>, j: int)
    requires
        keys_distinct(s),
        0 <= j < s.len(),
    ensures
        pairs_to_map(s).contains_key(s[j].0@),
        pairs_to_map(s)[s[j].0@] == s[j].1,
    decreases s.len(),
{
    if j < s.len() - 1 {
        let t = s.drop_last();
        assert(t[j] == s[j]);
        assert forall|a: int, b: int|
            0 <= a < t.len() && 0 <= b < t.len() && a != b implies #[trigger] t[a].0@ != #[trigger] t[b].0@ by {
            assert(t[a] == s[a] && t[b] == s[b]);
        }
        lemma_pairs_value(t, j);
        assert(s[s.len() - 1].0@ != s[j].0@);
    }
}

/// A list with distinct keys: every key of the map is the key of exactly the
/// pair that it names, and the map's value there is that pair's value.
pub proof fn lemma_pairs_lookup<V>(s: Seq<(String, V)>, k: Seq<char>)
    requires
        keys_distinct(s),
        pairs_to_map(s).contains_key(k),
    ensures
        exists|j: int| 0 <= j < s.len() && s[j].0@ == k && #[trigger] pairs_to_map(s)[k] == s[j].1,
{
    lemma_pairs_dom(s, k);
    let j = choose|j: int| 0 <= j < s.len() && #[trigger] s[j].0@ == k;
    lemma_pairs_value(s, j);
}

/// Removing the pair at `i` from a list with distinct keys removes its key
/// from the map and keeps the other keys distinct.
pub proof fn lemma_pairs_remove<V>(s: Seq<(String, V)>, i: int)
    requires
        keys_distinct(s),
        0 <= i < s.len(),
    ensures
        keys_distinct(s.remove(i)),
        pairs_to_map(s.remove(i)) == pairs_to_map(s).remove(s[i].0@),
{
    let r = s.remove(i);
    assert forall|a: int, b: int|
        0 <= a < r.len() && 0 <= b < r.len() && a != b implies #[trigger] r[a].0@ != #[trigger] r[b].0@ by {
        let a2 = if a < i { a } else { a + 1 };
        let b2 = if b < i { b } else { b + 1 };
        assert(r[a] == s[a2] && r[b] == s[b2]);
    }
    let m = pairs_to_map(s).remove(s[i].0@);
    assert forall|k: Seq<char>| #[trigger] pairs_to_map(r).contains_key(k) <==> m.contains_key(k) by {
        lemma_pairs_dom(r, k);
        lemma_pairs_dom(s, k);
        if has_key(r, k) {
            let j = choose|j: int| 0 <= j < r.len() && #[trigger] r[j].0@ == k;
            let j2 = if j < i { j } else { j + 1 };
            assert(r[j] == s[j2]);
            assert(s[j2].0@ == k);
        }
        if m.contains_key(k) {
            let j = choose|j: int| 0 <= j < s.len() && #[trigger] s[j].0@ == k;
            assert(j != i);
            let j2 = if j < i { j } else { j - 1 };
            assert(r[j2] == s[j]);
            assert(r[j2].0@ == k);
        }
    }
    assert forall|k: Seq<char>| #[trigger] pairs_to_map(r).contains_key(k) implies pairs_to_map(r)[k] == m[k] by {
        lemma_pairs_lookup(r, k);
        let j = choose|j: int| 0 <= j < r.len() && r[j].0@ == k && #[trigger] pairs_to_map(r)[k] == r[j].1;
        let j2 = if j < i { j } else { j + 1 };
        assert(r[j] == s[j2]);
        lemma_pairs_value(s, j2);
    }
    assert(pairs_to_map(r) =~= m);
}

/// Replacing the pair at `i` by a pair with the same key sets that key's value.
pub proof fn lemma_pairs_update<V>(s: Seq<(String, V)>, i: int, p: (String, V))
    requires
        keys_distinct(s),
        0 <= i < s.len(),
        p.0@ == s[i].0@,
    ensures
        keys_distinct(s.update(i, p)),
        pairs_to_map(s.update(i, p)) == pairs_to_map(s).insert(p.0@, p.1),
{
    let u = s.update(i, p);
    assert forall|a: int, b: int|
        0 <= a < u.len() && 0 <= b < u.len() && a != b implies #[trigger] u[a].0@ != #[trigger] u[b].0@ by {
        assert(u[a].0@ == s[a].0@ && u[b].0@ == s[b].0@);
    }
    let m = pairs_to_map(s).insert(p.0@, p.1);
    assert forall|k: Seq<char>| #[trigger] pairs_to_map(u).contains_key(k) <==> m.contains_key(k) by {
        lemma_pairs_dom(u, k);
        lemma_pairs_dom(s, k);
        if has_key(u, k) {
            let j = choose|j: int| 0 <= j < u.len() && #[trigger] u[j].0@ == k;
            assert(s[j].0@ == k);
        }
        if has_key(s, k) {
            let j = choose|j: int| 0 <= j < s.len() && #[trigger] s[j].0@ == k;
            assert(u[j].0@ == k);
        }
        if k == p.0@ {
            assert(s[i].0@ == k);
        }
    }
    assert forall|k: Seq<char>| #[trigger] pairs_to_map(u).contains_key(k) implies pairs_to_map(u)[k] == m[k] by {
        lemma_pairs_lookup(u, k);
        let j = choose|j: int| 0 <= j < u.len() && u[j].0@ == k && #[trigger] pairs_to_map(u)[k] == u[j].1;
        if j != i {
            lemma_pairs_value(s, j);
        }
    }
    assert(pairs_to_map(u) =~= m);
}

/// Adding a pair whose key is new keeps the keys distinct.
pub proof fn lemma_pairs_push<V>(s: Seq<(String, V)>, p: (String, V))
    requires
        keys_distinct(s),
        !pairs_to_map(s).contains_key(p.0@),
    ensures
        keys_distinct(s.push(p)),
        pairs_to_map(s.push(p)) == pairs_to_map(s).insert(p.0@, p.1),
{
    let u = s.push(p);
    assert(u.drop_last() =~= s);
    assert forall|a: int, b: int|
        0 <= a < u.len() && 0 <= b < u.len() && a != b implies #[trigger] u[a].0@ != #[trigger] u[b].0@ by {
        if a == s.len() {
            lemma_pairs_dom(s, p.0@);
            assert(u[b] == s[b]);
        } else if b == s.len() {
            lemma_pairs_dom(s, p.0@);
            assert(u[a] == s[a]);
        } else {
            assert(u[a] == s[a] && u[b] == s[b]);
        }
    }
}

/// A map with string keys, held as a list of pairs with distinct keys.
pub struct Table<V> {
    entries: Vec<(String, V)>,
}

impl<V> View for Table<V> {
    type V = Map<Seq<char>, V>;

    open spec fn view(&self) -> Map<Seq<char>, V> {
        pairs_to_map(self.pairs())
    }
}

impl<V> Table<V> {
    /// The pairs, in the order in which they are held.
    pub closed spec fn pairs(&self) -> Seq<(String, V)> {
        self.entries@
    }

    /// Well-formedness: the keys of the pairs are distinct.
    pub open spec fn wf(&self) -> bool {
        keys_distinct(self.pairs())
    }

    /// An empty table.
    pub fn new() -> (t: Self)
        ensures
            t.wf(),
            t@ == Map::<Seq<char>, V>::empty(),
            t.pairs().len() == 0,
    {
        Table { entries: Vec::new() }
    }

    /// The number of keys.
    pub fn len(&self) -> (n: usize)
        requires
            self.wf(),
        ensures
            n == self.pairs().len(),
    {
        self.entries.len()
    }

    /// The pairs of the table, each key once.
    pub fn entries(&self) -> (r: &Vec<(String, V)>)
        ensures
            r@ == self.pairs(),
            keys_distinct(r@) == self.wf(),
            pairs_to_map(r@) == self@,
    {
        &self.entries
    }

    /// The value of the pair at position `i`.
    pub fn value_at(&self, i: usize) -> (v: &V)
        requires
            i < self.pairs().len(),
        ensures
            *v == self.pairs()[i as int].1,
    {
        &self.entries[i].1
    }

    /// The position of the pair with key `k`, if there is one.
    pub fn find(&self, k: &String) -> (r: Option<usize>)
        requires
            self.wf(),
        ensures
            match r {
                Some(i) => i < self.pairs().len() && self.pairs()[i as int].0@ == k@,
                None => !has_key(self.pairs(), k@),
            },
            r is Some <==> self@.contains_key(k@),
    {
        let mut i: usize = 0;
        while i < self.entries.len()
            invariant
                i <= self.entries@.len(),
                forall|j: int| 0 <= j < i ==> #[trigger] self.entries@[j].0@ != k@,
            decreases self.entries@.len() - i,
        {
            if self.entries[i].0 == *k {
                proof {
                    lemma_pairs_dom(self.entries@, k@);
                }
                return Some(i);
            }
            i = i + 1;
        }
        proof {
            lemma_pairs_dom(self.entries@, k@);
        }
        None
    }

    /// Whether `k` is a key of the table.
    pub fn contains_key(&self, k: &String) -> (b: bool)
        requires
            self.wf(),
        ensures
            b == self@.contains_key(k@),
    {
        self.find(k).is_some()
    }

    /// The value of key `k`, if it is a key of the table.
    pub fn get(&self, k: &String) -> (r: Option<&V>)
        requires
            self.wf(),
        ensures
            match r {
                Some(v) => self@.contains_key(k@) && *v == self@[k@],
                None => !self@.contains_key(k@),
            },
    {
        match self.find(k) {
            Some(i) => {
                proof {
                    lemma_pairs_value(self.entries@, i as int);
                }
                Some(&self.entries[i].1)
            },
            None => None,
        }
    }

    /// Sets the value of key `k` to `v`, adding the key if it is new.
    pub fn insert(&mut self, k: String, v: V)
        requires
            old(self).wf(),
        ensures
            final(self).wf(),
            final(self)@ == old(self)@.insert(k@, v),
    {
        match self.find(&k) {
            Some(i) => {
                proof {
                    lemma_pairs_update(self.entries@, i as int, (k, v));
                }
                self.entries.set(i, (k, v));
            },
            None => {
                proof {
                    lemma_pairs_dom(self.entries@, k@);
                    lemma_pairs_push(self.entries@, (k, v));
                }
                self.entries.push((k, v));
            },
        }
    }

    /// Removes the pair at position `i`.
    pub fn remove_at(&mut self, i: usize) -> (p: (String, V))
        requires
            old(self).wf(),
            i < old(self).pairs().len(),
        ensures
            final(self).wf(),
            p == old(self).pairs()[i as int],
            final(self).pairs() == old(self).pairs().remove(i as int),
            final(self)@ == old(self)@.remove(p.0@),
    {
        proof {
            lemma_pairs_remove(self.entries@, i as int);
        }
        self.entries.remove(i)
    }

    /// Removes key `k` and hands back its value, if it was a key.
    pub fn remove(&mut self, k: &String) -> (r: Option<V>)
        requires
            old(self).wf(),
        ensures
            final(self).wf(),
            final(self)@ == old(self)@.remove(k@),
            match r {
                Some(v) => old(self)@.contains_key(k@) && v == old(self)@[k@],
                None => !old(self)@.contains_key(k@),
            },
    {
        match self.find(k) {
            Some(i) => {
                proof {
                    lemma_pairs_value(self.entries@, i as int);
                }
                let p = self.remove_at(i);
                Some(p.1)
            },
            None => {
                assert(self@.remove(k@) =~= self@);
                None
            },
        }
    }

    /// A table from a list of pairs, inserted in order: where a key occurs
    /// more than once, its last pair wins.
    pub fn from_pairs(pairs: Vec<(String, V)>) -> (t: Self)
        ensures
            t.wf(),
            t@ == pairs_to_map(pairs@),
    {
        let ghost all = pairs@;
        let mut rest = pairs;
        let mut rev: Vec<(String, V)> = Vec::new();
        while rest.len() > 0
            invariant
                rest@ + rev@.reverse() == all,
            decreases rest@.len(),
        {
            let ghost before_rest = rest@;
            let ghost before_rev = rev@;
            let p = rest.pop().unwrap();
            rev.push(p);
            proof {
                assert(before_rest =~= rest@.push(p));
                assert(rev@.reverse() =~= seq![p] + before_rev.reverse());
                assert(rest@ + rev@.reverse() =~= before_rest + before_rev.reverse());
            }
        }
        assert(rest@ + rev@.reverse() =~= rev@.reverse());
        let mut t = Table::new();
        let ghost mut taken: Seq<(String, V)> = Seq::empty();
        while rev.len() > 0
            invariant
                t.wf(),
                t@ == pairs_to_map(taken),
                taken + rev@.reverse() == all,
            decreases rev@.len(),
        {
            let ghost before_rev = rev@;
            let p = rev.pop().unwrap();
            proof {
                assert(before_rev =~= rev@.push(p));
                assert(before_rev.reverse() =~= seq![p] + rev@.reverse());
                assert(taken.push(p) + rev@.reverse() =~= taken + before_rev.reverse());
                assert(taken.push(p).drop_last() =~= taken);
                taken = taken.push(p);
            }
            t.insert(p.0, p.1);
        }
        assert(taken + rev@.reverse() =~= taken);
        t
    }
}

} // verus!
