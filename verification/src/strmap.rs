//! A map keyed by strings, stored as a vector of pairs with distinct keys.
//!
//! It stands for the `HashMap<String, _>` and `HashSet<String>` of the store:
//! the iteration order of those is unspecified, so nothing here depends on it,
//! and every contract speaks of the map view only.
use vstd::prelude::*;
use crate::seqs::{lemma_string_seq_push, string_seq};

verus! {

/// A property that every value held in a map keeps.
pub trait Inv {
    spec fn inv(&self) -> bool;
}

impl Inv for String {
    open spec fn inv(&self) -> bool {
        true
    }
}

impl Inv for () {
    open spec fn inv(&self) -> bool {
        true
    }
}

/// Values that can be checked against their property and copied.
pub trait Value: View + Inv + Sized {
    /// Whether the value keeps its property.
    fn check(&self) -> (r: bool)
        ensures
            r == self.inv(),
    ;

    /// A copy of the value.
    fn dup(&self) -> (r: Self)
        ensures
            r@ == self@,
            r.inv() == self.inv(),
    ;
}

impl Value for String {
    fn check(&self) -> (r: bool) {
        true
    }

    fn dup(&self) -> (r: String) {
        self.clone()
    }
}

impl Value for () {
    fn check(&self) -> (r: bool) {
        true
    }

    fn dup(&self) -> (r: ()) {
        ()
    }
}

/// A finite map from strings to values of type `V`.
pub struct StrMap<V> {
    items: Vec<(String, V)>,
}

impl<V: View> StrMap<V> {
    /// The keys, in storage order.
    pub closed spec fn key_seq(&self) -> Seq<Seq<char>> {
        Seq::new(self.items@.len(), |i: int| self.items@[i].0@)
    }

    /// The values, in storage order.
    pub closed spec fn val_seq(&self) -> Seq<V::V> {
        Seq::new(self.items@.len(), |i: int| self.items@[i].1@)
    }

}

impl<V: View + Inv> StrMap<V> {
    /// Well-formedness: no key is stored twice and every value keeps its
    /// invariant.
    pub closed spec fn wf(&self) -> bool {
        &&& self.key_seq().no_duplicates()
        &&& forall|i: int| 0 <= i < self.items@.len() ==> (#[trigger] self.items@[i]).1.inv()
    }
}

impl<V: View> View for StrMap<V> {
    type V = Map<Seq<char>, V::V>;

    closed spec fn view(&self) -> Map<Seq<char>, V::V> {
        Map::new(
            |k: Seq<char>| self.key_seq().contains(k),
            |k: Seq<char>| self.val_seq()[self.key_seq().index_of(k)],
        )
    }
}

impl<V: View + Inv> StrMap<V> {
    /// The pair stored at position `i` is an entry of the map, and the map
    /// holds exactly the stored keys, as many as there are positions.
    pub proof fn lemma_storage(&self)
        requires
            self.wf(),
        ensures
            self.key_seq().len() == self.val_seq().len(),
            self.key_seq().no_duplicates(),
            self@.dom() == self.key_seq().to_set(),
            self@.dom().finite(),
            self@.len() == self.key_seq().len(),
            forall|i: int|
                0 <= i < self.key_seq().len() ==> #[trigger] self@.contains_key(self.key_seq()[i])
                    && self@[self.key_seq()[i]] == self.val_seq()[i],
            forall|k: Seq<char>|
                #[trigger] self@.contains_key(k) ==> exists|i: int|
                    0 <= i < self.key_seq().len() && self.key_seq()[i] == k,
    {
        assert(self@.dom() =~= self.key_seq().to_set());
        self.key_seq().unique_seq_to_set();
        assert forall|i: int| 0 <= i < self.key_seq().len() implies #[trigger] self@.contains_key(
            self.key_seq()[i],
        ) && self@[self.key_seq()[i]] == self.val_seq()[i] by {
            self.lemma_value_at(i);
        }
    }

    proof fn lemma_value_at(&self, i: int)
        requires
            self.wf(),
            0 <= i < self.key_seq().len(),
        ensures
            self@.contains_key(self.key_seq()[i]),
            self@[self.key_seq()[i]] == self.val_seq()[i],
    {
        let k = self.key_seq()[i];
        assert(self.key_seq().contains(k));
        let j = self.key_seq().index_of(k);
        assert(self.key_seq()[j] == k);
        assert(j == i);
    }

    /// An empty map.
    pub fn new() -> (m: Self)
        ensures
            m.wf(),
            m@ == Map::<Seq<char>, V::V>::empty(),
    {
        let m = StrMap { items: Vec::new() };
        assert(m@ =~= Map::<Seq<char>, V::V>::empty());
        m
    }

    /// Number of stored positions (equal to the number of keys).
    pub fn len(&self) -> (n: usize)
        requires
            self.wf(),
        ensures
            n == self@.len(),
            n == self.key_seq().len(),
    {
        proof {
            self.lemma_storage();
        }
        self.items.len()
    }

    /// The key stored at position `i`.
    pub fn key_at(&self, i: usize) -> (k: &String)
        requires
            i < self.key_seq().len(),
        ensures
            k@ == self.key_seq()[i as int],
    {
        &self.items[i].0
    }

    /// The value stored at position `i`.
    pub fn value_at(&self, i: usize) -> (v: &V)
        requires
            self.wf(),
            i < self.key_seq().len(),
        ensures
            v@ == self.val_seq()[i as int],
            v.inv(),
    {
        &self.items[i].1
    }

    fn find(&self, k: &String) -> (r: Option<usize>)
        ensures
            match r {
                Some(i) => i < self.key_seq().len() && self.key_seq()[i as int] == k@,
                None => !self.key_seq().contains(k@),
            },
    {
        let mut i: usize = 0;
        while i < self.items.len()
            invariant
                i <= self.items@.len(),
                forall|j: int| 0 <= j < i ==> self.key_seq()[j] != k@,
            decreases self.items@.len() - i,
        {
            if self.items[i].0 == *k {
                return Some(i);
            }
            i = i + 1;
        }
        None
    }

    /// Whether `k` is a key of the map.
    pub fn contains_key(&self, k: &String) -> (b: bool)
        requires
            self.wf(),
        ensures
            b == self@.contains_key(k@),
    {
        self.find(k).is_some()
    }

    /// The value stored under `k`, if any.
    pub fn get(&self, k: &String) -> (r: Option<&V>)
        requires
            self.wf(),
        ensures
            match r {
                Some(v) => self@.contains_key(k@) && v@ == self@[k@] && v.inv(),
                None => !self@.contains_key(k@),
            },
    {
        match self.find(k) {
            Some(i) => {
                proof {
                    self.lemma_value_at(i as int);
                }
                Some(&self.items[i].1)
            },
            None => None,
        }
    }

    /// Stores `v` under `k`, replacing what was there.
    pub fn insert(&mut self, k: String, v: V)
        requires
            old(self).wf(),
            v.inv(),
        ensures
            final(self).wf(),
            final(self)@ == old(self)@.insert(k@, v@),
    {
        let ghost pre = *self;
        let ghost kv = k@;
        let ghost vv = v@;
        proof {
            pre.lemma_storage();
        }
        match self.find(&k) {
            Some(i) => {
                self.items.set(i, (k, v));
                assert(self.key_seq() =~= pre.key_seq());
                assert(self.val_seq() =~= pre.val_seq().update(i as int, vv));
                proof {
                    self.lemma_storage();
                }
                assert forall|kk: Seq<char>| #[trigger] self@.contains_key(kk) implies self@[kk]
                    == pre@.insert(kv, vv)[kk] by {
                    let j = choose|j: int| 0 <= j < self.key_seq().len() && self.key_seq()[j] == kk;
                    pre.lemma_value_at(j);
                }
                assert(self@ =~= pre@.insert(kv, vv));
            },
            None => {
                self.items.push((k, v));
                assert(self.key_seq() =~= pre.key_seq().push(kv));
                assert(self.val_seq() =~= pre.val_seq().push(vv));
                assert(self.wf());
                proof {
                    self.lemma_storage();
                }
                assert forall|kk: Seq<char>| #[trigger] self@.contains_key(kk) implies self@[kk]
                    == pre@.insert(kv, vv)[kk] by {
                    let j = choose|j: int| 0 <= j < self.key_seq().len() && self.key_seq()[j] == kk;
                    if j < pre.key_seq().len() {
                        pre.lemma_value_at(j);
                    }
                }
                assert forall|kk: Seq<char>| #[trigger] pre@.insert(kv, vv).contains_key(kk)
                    implies self@.contains_key(kk) by {
                    if kk != kv {
                        let j = choose|j: int|
                            0 <= j < pre.key_seq().len() && pre.key_seq()[j] == kk;
                        assert(self.key_seq()[j] == kk);
                    } else {
                        assert(self.key_seq()[pre.key_seq().len() as int] == kk);
                    }
                }
                assert(self@ =~= pre@.insert(kv, vv));
            },
        }
    }

    /// Removes `k`, handing back its value.
    pub fn remove(&mut self, k: &String) -> (r: Option<V>)
        requires
            old(self).wf(),
        ensures
            final(self).wf(),
            final(self)@ == old(self)@.remove(k@),
            match r {
                Some(v) => old(self)@.contains_key(k@) && v@ == old(self)@[k@] && v.inv(),
                None => !old(self)@.contains_key(k@),
            },
    {
        let ghost pre = *self;
        proof {
            pre.lemma_storage();
        }
        match self.find(k) {
            Some(i) => {
                proof {
                    pre.lemma_value_at(i as int);
                }
                let (_key, v) = self.items.remove(i);
                assert(self.key_seq() =~= pre.key_seq().remove(i as int));
                assert(self.val_seq() =~= pre.val_seq().remove(i as int));
                assert(self.wf());
                proof {
                    self.lemma_storage();
                }
                assert forall|kk: Seq<char>| #[trigger] self@.contains_key(kk) implies self@[kk]
                    == pre@.remove(k@)[kk] && pre@.remove(k@).contains_key(kk) by {
                    let j = choose|j: int| 0 <= j < self.key_seq().len() && self.key_seq()[j] == kk;
                    if j < i {
                        pre.lemma_value_at(j);
                    } else {
                        pre.lemma_value_at(j + 1);
                    }
                }
                assert forall|kk: Seq<char>| #[trigger] pre@.remove(k@).contains_key(kk)
                    implies self@.contains_key(kk) by {
                    let j = choose|j: int|
                        0 <= j < pre.key_seq().len() && pre.key_seq()[j] == kk;
                    if j < i {
                        assert(self.key_seq()[j] == kk);
                    } else {
                        assert(self.key_seq()[j - 1] == kk);
                    }
                }
                assert(self@ =~= pre@.remove(k@));
                Some(v)
            },
            None => {
                assert(pre@.remove(k@) =~= pre@);
                None
            },
        }
    }

    /// Removes the entry stored last, handing it back.
    pub fn pop(&mut self) -> (r: Option<(String, V)>)
        requires
            old(self).wf(),
        ensures
            final(self).wf(),
            match r {
                Some((k, v)) => {
                    &&& old(self)@.contains_key(k@)
                    &&& v@ == old(self)@[k@]
                    &&& v.inv()
                    &&& final(self)@ == old(self)@.remove(k@)
                },
                None => old(self)@ == Map::<Seq<char>, V::V>::empty() && final(self)@ == old(self)@,
            },
    {
        let ghost pre = *self;
        proof {
            pre.lemma_storage();
        }
        match self.items.pop() {
            Some((k, v)) => {
                let ghost i = pre.key_seq().len() - 1;
                proof {
                    pre.lemma_value_at(i);
                }
                assert(self.key_seq() =~= pre.key_seq().drop_last());
                assert(self.val_seq() =~= pre.val_seq().drop_last());
                assert(self.wf());
                proof {
                    self.lemma_storage();
                }
                assert forall|kk: Seq<char>| #[trigger] self@.contains_key(kk) implies self@[kk]
                    == pre@.remove(k@)[kk] && pre@.remove(k@).contains_key(kk) by {
                    let j = choose|j: int| 0 <= j < self.key_seq().len() && self.key_seq()[j] == kk;
                    pre.lemma_value_at(j);
                }
                assert forall|kk: Seq<char>| #[trigger] pre@.remove(k@).contains_key(kk)
                    implies self@.contains_key(kk) by {
                    let j = choose|j: int|
                        0 <= j < pre.key_seq().len() && pre.key_seq()[j] == kk;
                    assert(self.key_seq()[j] == kk);
                }
                assert(self@ =~= pre@.remove(k@));
                Some((k, v))
            },
            None => {
                assert(pre@ =~= Map::<Seq<char>, V::V>::empty());
                None
            },
        }
    }

    /// The keys, in storage order.
    pub fn keys_vec(&self) -> (out: Vec<String>)
        requires
            self.wf(),
        ensures
            string_seq(out@) == self.key_seq(),
    {
        let mut out: Vec<String> = Vec::new();
        let mut i: usize = 0;
        while i < self.items.len()
            invariant
                i <= self.items@.len(),
                string_seq(out@) == self.key_seq().take(i as int),
            decreases self.items@.len() - i,
        {
            let ghost pre = out@;
            let k = self.items[i].0.clone();
            proof {
                lemma_string_seq_push(pre, k);
            }
            out.push(k);
            assert(self.key_seq().take(i + 1) =~= self.key_seq().take(i as int).push(k@));
            i = i + 1;
        }
        assert(self.key_seq().take(self.items@.len() as int) =~= self.key_seq());
        out
    }

    /// Removes every entry.
    pub fn clear(&mut self)
        ensures
            final(self).wf(),
            final(self)@ == Map::<Seq<char>, V::V>::empty(),
    {
        self.items.clear();
        assert(self@ =~= Map::<Seq<char>, V::V>::empty());
    }
}

impl StrMap<String> {
    /// The values, in storage order.
    pub fn values_vec(&self) -> (out: Vec<String>)
        requires
            self.wf(),
        ensures
            string_seq(out@) == self.val_seq(),
    {
        let mut out: Vec<String> = Vec::new();
        let mut i: usize = 0;
        while i < self.items.len()
            invariant
                i <= self.items@.len(),
                string_seq(out@) == self.val_seq().take(i as int),
            decreases self.items@.len() - i,
        {
            let ghost pre = out@;
            let v = self.items[i].1.clone();
            proof {
                lemma_string_seq_push(pre, v);
            }
            out.push(v);
            assert(self.val_seq().take(i + 1) =~= self.val_seq().take(i as int).push(v@));
            i = i + 1;
        }
        assert(self.val_seq().take(self.items@.len() as int) =~= self.val_seq());
        out
    }

    /// The pairs, in storage order.
    pub fn pairs_vec(&self) -> (out: Vec<(String, String)>)
        requires
            self.wf(),
        ensures
            out@.len() == self.key_seq().len(),
            forall|i: int| 0 <= i < out@.len() ==> (#[trigger] out@[i]).0@ == self.key_seq()[i] && out@[i].1@ == self.val_seq()[i],
    {
        let mut out: Vec<(String, String)> = Vec::new();
        let mut i: usize = 0;
        while i < self.items.len()
            invariant
                i <= self.items@.len(),
                out@.len() == i,
                forall|j: int| 0 <= j < i ==> (#[trigger] out@[j]).0@ == self.key_seq()[j] && out@[j].1@ == self.val_seq()[j],
            decreases self.items@.len() - i,
        {
            let k = self.items[i].0.clone();
            let v = self.items[i].1.clone();
            out.push((k, v));
            i = i + 1;
        }
        out
    }
}

impl<V: Value> StrMap<V> {
    /// Whether the map is well formed: no key stored twice, every value
    /// keeping its property.
    pub fn check_wf(&self) -> (r: bool)
        ensures
            r == self.wf(),
    {
        let n = self.items.len();
        let mut i: usize = 0;
        while i < n
            invariant
                n == self.items@.len(),
                i <= n,
                forall|a: int| 0 <= a < i ==> (#[trigger] self.items@[a]).1.inv(),
                forall|a: int, b: int| 0 <= a < b < n && a < i ==> self.key_seq()[a] != self.key_seq()[b],
            decreases n - i,
        {
            if !self.items[i].1.check() {
                return false;
            }
            let mut j: usize = i + 1;
            while j < n
                invariant
                    n == self.items@.len(),
                    i < j <= n,
                    forall|b: int| i < b < j ==> self.key_seq()[i as int] != self.key_seq()[b],
                decreases n - j,
            {
                if self.items[i].0 == self.items[j].0 {
                    assert(self.key_seq()[i as int] == self.key_seq()[j as int]);
                    return false;
                }
                j = j + 1;
            }
            i = i + 1;
        }
        assert(self.key_seq().no_duplicates()) by {
            assert forall|a: int, b: int| 0 <= a < self.key_seq().len() && 0 <= b < self.key_seq().len() && a != b
                implies self.key_seq()[a] != self.key_seq()[b] by {
                if a > b {
                    assert(self.key_seq()[b] != self.key_seq()[a]);
                }
            }
        }
        true
    }

    /// A copy of the map, stored in the same order.
    pub fn duplicate(&self) -> (r: Self)
        ensures
            r.key_seq() == self.key_seq(),
            r.val_seq() == self.val_seq(),
            r@ == self@,
            r.wf() == self.wf(),
    {
        let mut items: Vec<(String, V)> = Vec::new();
        let mut i: usize = 0;
        while i < self.items.len()
            invariant
                i <= self.items@.len(),
                items@.len() == i,
                forall|a: int| 0 <= a < i ==> (#[trigger] items@[a]).0@ == self.items@[a].0@
                    && items@[a].1@ == self.items@[a].1@ && items@[a].1.inv() == self.items@[a].1.inv(),
            decreases self.items@.len() - i,
        {
            let k = self.items[i].0.clone();
            let v = self.items[i].1.dup();
            items.push((k, v));
            i = i + 1;
        }
        let r = StrMap { items };
        assert(r.key_seq() =~= self.key_seq());
        assert(r.val_seq() =~= self.val_seq());
        assert(r@ =~= self@);
        proof {
            if self.wf() {
                assert forall|a: int| 0 <= a < r.items@.len() implies (#[trigger] r.items@[a]).1.inv() by {
                    assert(self.items@[a].1.inv());
                }
            }
            if r.wf() {
                assert forall|a: int| 0 <= a < self.items@.len() implies (#[trigger] self.items@[a]).1.inv() by {
                    assert(r.items@[a].1.inv());
                }
            }
        }
        r
    }
}

} // verus!
