//! The data a server holds: `DB`, the value of each key, and `Tm`, the
//! lifespan and the time of setting of each key that was set with a
//! lifespan.  Times are milliseconds since the Unix epoch.

use vstd::prelude::*;
use crate::text::texts;
use crate::table::{Table, pairs_to_map, keys_distinct, lemma_pairs_value, lemma_pairs_lookup};

verus! {

/// A key's stamp `(life, set_at)` has run out at time `now`: more than
/// `life` milliseconds have passed since `set_at`.
pub open spec fn expired(stamp: (u128, u128), now: u128) -> bool {
    now - stamp.1 > stamp.0
}

/// The keys of `times` whose stamps have run out at `now`.
pub open spec fn expired_keys(times: Map<Seq<char>, (u128, u128)>, now: u128) -> Set<Seq<char>> {
    Set::new(|k: Seq<char>| times.contains_key(k) && expired(times[k], now))
}

/// No stamp of `times` was set after `now`.
pub open spec fn stamps_not_after(times: Map<Seq<char>, (u128, u128)>, now: u128) -> bool {
    forall|k: Seq<char>| #[trigger] times.contains_key(k) ==> times[k].1 <= now
}

/// The value of each key.
pub struct DB {
    kvs: Table<String>,
}

impl View for DB {
    type V = Map<Seq<char>, Seq<char>>;

    closed spec fn view(&self) -> Map<Seq<char>, Seq<char>> {
        self.kvs@.map_values(|v: String| v@)
    }
}

impl DB {
    /// Well-formedness: each key is held once.
    pub closed spec fn wf(&self) -> bool {
        self.kvs.wf()
    }

    /// An empty store.
    pub fn new() -> (db: Self)
        ensures
            db.wf(),
            db@ == Map::<Seq<char>, Seq<char>>::empty(),
    {
        let db = DB { kvs: Table::new() };
        assert(db@ =~= Map::<Seq<char>, Seq<char>>::empty());
        db
    }

    /// A store from `(key, value)` pairs, taken in order: where a key occurs
    /// more than once, its last pair wins.
    pub fn from_pairs(pairs: Vec<(String, String)>) -> (db: Self)
        ensures
            db.wf(),
            db@ == pairs_to_map(pairs@).map_values(|v: String| v@),
    {
        DB { kvs: Table::from_pairs(pairs) }
    }

    /// The `(key, value)` pairs of the store, each key once.
    pub fn pairs(&self) -> (r: &Vec<(String, String)>)
        requires
            self.wf(),
        ensures
            keys_distinct(r@),
            pairs_to_map(r@).map_values(|v: String| v@) == self@,
    {
        self.kvs.entries()
    }

    /// The number of keys.
    pub fn len(&self) -> (n: usize)
        requires
            self.wf(),
        ensures
            n == self@.len(),
    {
        let n = self.kvs.len();
        proof {
            let s = self.kvs.pairs();
            assert(self@.dom() =~= pairs_to_map(s).dom());
            vstd::seq_lib::seq_to_set_is_finite(s);
            lemma_len_of_distinct(s);
        }
        n
    }

    /// Whether `k` is a key of the store.
    pub fn contains_key(&self, k: &String) -> (b: bool)
        requires
            self.wf(),
        ensures
            b == self@.contains_key(k@),
    {
        self.kvs.contains_key(k)
    }

    /// The value of key `k`, if it is a key of the store.
    pub fn get(&self, k: &String) -> (r: Option<String>)
        requires
            self.wf(),
        ensures
            match r {
                Some(v) => self@.contains_key(k@) && v@ == self@[k@],
                None => !self@.contains_key(k@),
            },
    {
        match self.kvs.get(k) {
            Some(v) => Some(v.clone()),
            None => None,
        }
    }

    /// Sets the value of key `k` to `v`.
    pub fn insert(&mut self, k: String, v: String)
        requires
            old(self).wf(),
        ensures
            final(self).wf(),
            final(self)@ == old(self)@.insert(k@, v@),
    {
        self.kvs.insert(k, v);
        assert(self@ =~= old(self)@.insert(k@, v@));
    }

    /// Removes key `k`; reports whether it was a key.
    pub fn remove(&mut self, k: &String) -> (b: bool)
        requires
            old(self).wf(),
        ensures
            final(self).wf(),
            final(self)@ == old(self)@.remove(k@),
            b == old(self)@.contains_key(k@),
    {
        let r = self.kvs.remove(k);
        assert(self@ =~= old(self)@.remove(k@));
        r.is_some()
    }

    /// Removes every key of `keys`.
    pub fn remove_all(&mut self, keys: &Vec<String>)
        requires
            old(self).wf(),
        ensures
            final(self).wf(),
            final(self)@ == old(self)@.remove_keys(texts(keys@).to_set()),
    {
        let mut i: usize = 0;
        while i < keys.len()
            invariant
                i <= keys@.len(),
                self.wf(),
                self@ == old(self)@.remove_keys(texts(keys@.subrange(0, i as int)).to_set()),
            decreases keys@.len() - i,
        {
            let ghost before = self@;
            self.remove(&keys[i]);
            proof {
                let done = texts(keys@.subrange(0, i as int));
                let now_done = texts(keys@.subrange(0, i + 1));
                assert(now_done =~= done.push(keys@[i as int]@));
                assert(now_done.to_set() =~= done.to_set().insert(keys@[i as int]@)) by {
                    assert forall|x: Seq<char>| now_done.to_set().contains(x)
                        <==> done.to_set().contains(x) || x == keys@[i as int]@ by {
                        if now_done.contains(x) {
                            let j = choose|j: int| 0 <= j < now_done.len() && now_done[j] == x;
                            if j < done.len() {
                                assert(done[j] == x);
                            }
                        }
                        if done.contains(x) {
                            let j = choose|j: int| 0 <= j < done.len() && done[j] == x;
                            assert(now_done[j] == x);
                        }
                        if x == keys@[i as int]@ {
                            assert(now_done[i as int] == x);
                        }
                    }
                }
                assert(self@ =~= old(self)@.remove_keys(now_done.to_set()));
            }
            i = i + 1;
        }
        assert(keys@.subrange(0, keys@.len() as int) =~= keys@);
    }
}

/// The number of pairs of a list with distinct keys is the size of its map.
pub proof fn lemma_len_of_distinct<V>(s: Seq<(String, V)>)
    requires
        keys_distinct(s),
    ensures
        pairs_to_map(s).len() == s.len(),
        pairs_to_map(s).dom().finite(),
    decreases s.len(),
{
    if s.len() > 0 {
        let t = s.drop_last();
        assert forall|a: int, b: int|
            0 <= a < t.len() && 0 <= b < t.len() && a != b implies #[trigger] t[a].0@ != #[trigger] t[b].0@ by {
            assert(t[a] == s[a] && t[b] == s[b]);
        }
        lemma_len_of_distinct(t);
        crate::table::lemma_pairs_dom(t, s.last().0@);
        if crate::table::has_key(t, s.last().0@) {
            let j = choose|j: int| 0 <= j < t.len() && #[trigger] t[j].0@ == s.last().0@;
            assert(s[j].0@ == s[s.len() - 1].0@);
        }
    }
}

/// The stamp `(life, set_at)` of each key that was set with a lifespan.
pub struct Tm {
    kts: Table<(u128, u128)>,
}

impl View for Tm {
    type V = Map<Seq<char>, (u128, u128)>;

    closed spec fn view(&self) -> Map<Seq<char>, (u128, u128)> {
        self.kts@
    }
}

impl Tm {
    /// Well-formedness: each key is held once.
    pub closed spec fn wf(&self) -> bool {
        self.kts.wf()
    }

    /// No stamps.
    pub fn new() -> (tm: Self)
        ensures
            tm.wf(),
            tm@ == Map::<Seq<char>, (u128, u128)>::empty(),
    {
        Tm { kts: Table::new() }
    }

    /// Stamps from `(key, stamp)` pairs, taken in order: where a key occurs
    /// more than once, its last pair wins.
    pub fn from_pairs(pairs: Vec<(String, (u128, u128))>) -> (tm: Self)
        ensures
            tm.wf(),
            tm@ == pairs_to_map(pairs@),
    {
        Tm { kts: Table::from_pairs(pairs) }
    }

    /// The `(key, stamp)` pairs, each key once.
    pub fn pairs(&self) -> (r: &Vec<(String, (u128, u128))>)
        requires
            self.wf(),
        ensures
            keys_distinct(r@),
            pairs_to_map(r@) == self@,
    {
        self.kts.entries()
    }

    /// Whether `k` has a stamp.
    pub fn contains_key(&self, k: &String) -> (b: bool)
        requires
            self.wf(),
        ensures
            b == self@.contains_key(k@),
    {
        self.kts.contains_key(k)
    }

    /// The stamp of `k`, if it has one.
    pub fn get(&self, k: &String) -> (r: Option<(u128, u128)>)
        requires
            self.wf(),
        ensures
            match r {
                Some(t) => self@.contains_key(k@) && t == self@[k@],
                None => !self@.contains_key(k@),
            },
    {
        match self.kts.get(k) {
            Some(t) => Some(*t),
            None => None,
        }
    }

    /// Gives key `k` the stamp `t`.
    pub fn insert(&mut self, k: String, t: (u128, u128))
        requires
            old(self).wf(),
        ensures
            final(self).wf(),
            final(self)@ == old(self)@.insert(k@, t),
    {
        self.kts.insert(k, t);
    }

    /// Whether no stamp was set after `now`.
    pub fn stamps_not_after(&self, now: u128) -> (b: bool)
        requires
            self.wf(),
        ensures
            b == stamps_not_after(self@, now),
    {
        let mut i: usize = 0;
        while i < self.kts.len()
            invariant
                self.kts.wf(),
                i <= self.kts.pairs().len(),
                forall|j: int| 0 <= j < i ==> (#[trigger] self.kts.pairs()[j]).1 .1 <= now,
            decreases self.kts.pairs().len() - i,
        {
            let t = *self.kts.value_at(i);
            if t.1 > now {
                proof {
                    lemma_pairs_value(self.kts.pairs(), i as int);
                    assert(self@.contains_key(self.kts.pairs()[i as int].0@));
                }
                return false;
            }
            i = i + 1;
        }
        proof {
            assert forall|k: Seq<char>| #[trigger] self@.contains_key(k) implies self@[k].1 <= now by {
                lemma_pairs_lookup(self.kts.pairs(), k);
            }
        }
        true
    }

    /// Drops the stamps that have run out at `now` and hands back their keys.
    pub fn expire(&mut self, now: u128) -> (gone: Vec<String>)
        requires
            old(self).wf(),
            stamps_not_after(old(self)@, now),
        ensures
            final(self).wf(),
            final(self)@ == old(self)@.remove_keys(expired_keys(old(self)@, now)),
            texts(gone@).to_set() == expired_keys(old(self)@, now),
    {
        let ghost start = self@;
        let mut gone: Vec<String> = Vec::new();
        let mut i: usize = 0;
        while i < self.kts.len()
            invariant
                self.kts.wf(),
                i <= self.kts.pairs().len(),
                stamps_not_after(start, now),
                forall|j: int| 0 <= j < i ==> !expired((#[trigger] self.kts.pairs()[j]).1, now),
                forall|k: Seq<char>| #[trigger] self@.contains_key(k) ==> start.contains_key(k) && self@[k] == start[k],
                forall|k: Seq<char>|
                    start.contains_key(k) && !texts(gone@).contains(k) ==> #[trigger] self@.contains_key(k),
                forall|k: Seq<char>|
                    #[trigger] texts(gone@).contains(k) ==> start.contains_key(k) && expired(start[k], now),
            decreases self.kts.pairs().len() - i,
        {
            let t = *self.kts.value_at(i);
            proof {
                lemma_pairs_value(self.kts.pairs(), i as int);
                assert(self@.contains_key(self.kts.pairs()[i as int].0@));
            }
            if now - t.1 > t.0 {
                let ghost before = self@;
                let ghost before_pairs = self.kts.pairs();
                let ghost before_gone = texts(gone@);
                let p = self.kts.remove_at(i);
                gone.push(p.0);
                proof {
                    assert(texts(gone@) =~= before_gone.push(p.0@));
                    assert forall|j: int| 0 <= j < i implies !expired((#[trigger] self.kts.pairs()[j]).1, now) by {
                        assert(self.kts.pairs()[j] == before_pairs[j]);
                    }
                    assert forall|k: Seq<char>| #[trigger] texts(gone@).contains(k)
                        implies start.contains_key(k) && expired(start[k], now) by {
                        if k == p.0@ {
                            assert(before.contains_key(k) && before[k] == t);
                        } else {
                            let j = choose|j: int| 0 <= j < texts(gone@).len() && texts(gone@)[j] == k;
                            assert(before_gone[j] == k);
                            assert(before_gone.contains(k));
                        }
                    }
                    assert forall|k: Seq<char>| start.contains_key(k) && !texts(gone@).contains(k)
                        implies #[trigger] self@.contains_key(k) by {
                        if before_gone.contains(k) {
                            let j = choose|j: int| 0 <= j < before_gone.len() && before_gone[j] == k;
                            assert(texts(gone@)[j] == k);
                        }
                        assert(texts(gone@)[texts(gone@).len() - 1] == p.0@);
                    }
                }
            } else {
                i = i + 1;
            }
        }
        proof {
            let e = expired_keys(start, now);
            assert forall|k: Seq<char>| #[trigger] self@.contains_key(k) <==> start.remove_keys(e).contains_key(k) by {
                if self@.contains_key(k) {
                    lemma_pairs_lookup(self.kts.pairs(), k);
                }
            }
            assert(self@ =~= start.remove_keys(e));
            assert(texts(gone@).to_set() =~= e) by {
                assert forall|k: Seq<char>| texts(gone@).to_set().contains(k) <==> #[trigger] e.contains(k) by {
                    if e.contains(k) && !texts(gone@).contains(k) {
                        assert(self@.contains_key(k));
                        lemma_pairs_lookup(self.kts.pairs(), k);
                    }
                }
            }
        }
        gone
    }
}

} // verus!
