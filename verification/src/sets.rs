//! Set commands: SADD, SREM, SMEMBERS, SCARD, SISMEMBER, SPOP, SRANDMEMBER,
//! SMOVE, SUNION, SINTER, SDIFF and their STORE forms.
use vstd::prelude::*;
use crate::entry::{DataType, Entry, EntryView, ValueView};
use crate::error::{KvError, KvResult};
use crate::seqs::{lemma_take_step_contains, lemma_take_step_to_set, string_seq};
use crate::store::{KvStore, StoreView, entry_for_write, entry_of, lemma_entry_of_with_entry, lemma_put_back, lemma_take_dead, lemma_take_then_put, lemma_written, live_entry, purge_key, with_entry, written};
use crate::strmap::StrMap;

verus! {

/// `ks` lists each member of `s` once.
pub open spec fn lists_set(ks: Seq<Seq<char>>, s: Set<Seq<char>>) -> bool {
    ks.no_duplicates() && ks.to_set() == s
}

/// The set a command reads under `k` at `now`: empty when the key is not
/// live, the error when it holds another type.
pub open spec fn set_of(v: StoreView, k: Seq<char>, now: int) -> KvResult<Set<Seq<char>>> {
    match live_entry(v, k, now) {
        None => Ok(Set::empty()),
        Some(e) => match e.value {
            ValueView::StrSet(s) => Ok(s),
            _ => Err(KvError::WrongType),
        },
    }
}

/// Whether `m` is a member of the set under `k` (false for another type).
pub open spec fn member_of(v: StoreView, k: Seq<char>, now: int, m: Seq<char>) -> bool {
    set_of(v, k, now) matches Ok(s) && s.contains(m)
}

/// Some key of `keys` holds another type than a set.
pub open spec fn some_not_set(v: StoreView, keys: Seq<Seq<char>>, now: int) -> bool {
    exists|i: int| 0 <= i < keys.len() && (#[trigger] set_of(v, keys[i], now)) is Err
}

/// The union of the sets under `keys`.
pub open spec fn union_of(v: StoreView, keys: Seq<Seq<char>>, now: int) -> Set<Seq<char>> {
    Set::new(|m: Seq<char>| exists|i: int| 0 <= i < keys.len() && #[trigger] member_of(v, keys[i], now, m))
}

/// The intersection of the sets under `keys` (empty for no keys).
pub open spec fn inter_of(v: StoreView, keys: Seq<Seq<char>>, now: int) -> Set<Seq<char>> {
    Set::new(|m: Seq<char>| keys.len() > 0 && forall|i: int| 0 <= i < keys.len() ==> #[trigger] member_of(v, keys[i], now, m))
}

/// The members of the first set under `keys` found in none of the others
/// (empty for no keys).
pub open spec fn diff_of(v: StoreView, keys: Seq<Seq<char>>, now: int) -> Set<Seq<char>> {
    Set::new(|m: Seq<char>| keys.len() > 0 && member_of(v, keys[0], now, m) && forall|i: int| 1 <= i < keys.len() ==> !#[trigger] member_of(v, keys[i], now, m))
}

/// SADD at `now`: the members join the set; the result is how many were
/// new. A fresh key starts as an empty set.
pub open spec fn sadd_post(
    old: StoreView,
    new: StoreView,
    k: Seq<char>,
    members: Seq<Seq<char>>,
    now: int,
    r: KvResult<i64>,
) -> bool {
    let b = entry_for_write(old, k, now, ValueView::StrSet(Set::empty()));
    match b.value {
        ValueView::StrSet(s) => {
            &&& r == Ok::<i64, KvError>(members.to_set().difference(s).len() as i64)
            &&& written(old, k, now, EntryView { value: ValueView::StrSet(s + members.to_set()), ..b }, new)
        },
        _ => r == Err::<i64, KvError>(KvError::WrongType) && new == with_entry(old, k, Some(b)),
    }
}

/// SREM at `now`: the members leave the set; the result is how many were
/// there.
pub open spec fn srem_post(
    old: StoreView,
    new: StoreView,
    k: Seq<char>,
    members: Seq<Seq<char>>,
    now: int,
    r: KvResult<i64>,
) -> bool {
    match live_entry(old, k, now) {
        None => r == Ok::<i64, KvError>(0) && new == purge_key(old, k, now),
        Some(e) => match e.value {
            ValueView::StrSet(s) => {
                &&& r == Ok::<i64, KvError>(members.to_set().intersect(s).len() as i64)
                &&& new == with_entry(old, k, Some(EntryView { value: ValueView::StrSet(s.difference(members.to_set())), ..e }))
            },
            _ => r == Err::<i64, KvError>(KvError::WrongType) && new == old,
        },
    }
}

/// SPOP at `now`: some member leaves the set and is handed back; which one
/// is left open.
pub open spec fn spop_post(old: StoreView, new: StoreView, k: Seq<char>, now: int, r: KvResult<Option<String>>) -> bool {
    match live_entry(old, k, now) {
        None => r == Ok::<Option<String>, KvError>(None) && new == purge_key(old, k, now),
        Some(e) => match e.value {
            ValueView::StrSet(s) => if s.len() == 0 {
                r == Ok::<Option<String>, KvError>(None) && new == old
            } else {
                r matches Ok(Some(m)) && s.contains(m@) && new == with_entry(
                    old,
                    k,
                    Some(EntryView { value: ValueView::StrSet(s.remove(m@)), ..e }),
                )
            },
            _ => r == Err::<Option<String>, KvError>(KvError::WrongType) && new == old,
        },
    }
}

/// The reply of SRANDMEMBER at `now`: some member, which one left open.
pub open spec fn srandmember_reply(v: StoreView, k: Seq<char>, now: int, r: KvResult<Option<String>>) -> bool {
    match set_of(v, k, now) {
        Ok(s) => if s.len() == 0 {
            r == Ok::<Option<String>, KvError>(None)
        } else {
            r matches Ok(Some(m)) && s.contains(m@)
        },
        Err(e) => r == Err::<Option<String>, KvError>(e),
    }
}

/// Whether `k` holds a live value other than a set at `now`.
pub open spec fn holds_non_set(v: StoreView, k: Seq<char>, now: int) -> bool {
    live_entry(v, k, now) matches Some(e) && !(e.value is StrSet)
}

/// SMOVE at `now`: the member leaves the source set and is added to the
/// destination as by SADD. When either key holds another type, nothing
/// changes and the error is returned.
pub open spec fn smove_post(
    old: StoreView,
    new: StoreView,
    src: Seq<char>,
    dst: Seq<char>,
    m: Seq<char>,
    now: int,
    r: KvResult<bool>,
) -> bool {
    match live_entry(old, src, now) {
        None => r == Ok::<bool, KvError>(false) && new == purge_key(old, src, now),
        Some(e) => match e.value {
            ValueView::StrSet(s) => if holds_non_set(old, dst, now) {
                r == Err::<bool, KvError>(KvError::WrongType) && new == old
            } else if !s.contains(m) {
                r == Ok::<bool, KvError>(false) && new == old
            } else {
                let mid = with_entry(old, src, Some(EntryView { value: ValueView::StrSet(s.remove(m)), ..e }));
                r == Ok::<bool, KvError>(true) && exists|r2: KvResult<i64>| #[trigger] sadd_post(mid, new, dst, seq![m], now, r2)
            },
            _ => r == Err::<bool, KvError>(KvError::WrongType) && new == old,
        },
    }
}

/// The reply of SUNION, SINTER or SDIFF: the error when a key holds another
/// type, else each member of `expected` once.
pub open spec fn combine_reply(v: StoreView, keys: Seq<Seq<char>>, now: int, expected: Set<Seq<char>>, r: KvResult<Vec<String>>) -> bool {
    if some_not_set(v, keys, now) {
        r == Err::<Vec<String>, KvError>(KvError::WrongType)
    } else {
        r matches Ok(out) && lists_set(string_seq(out@), expected)
    }
}

/// The STORE forms: the destination is replaced by a fresh set of the
/// result (no expiry, used at `now`), making room for it when it is a new
/// key; the result is its size.
pub open spec fn store_post(
    old: StoreView,
    new: StoreView,
    keys: Seq<Seq<char>>,
    dst: Seq<char>,
    now: int,
    expected: Set<Seq<char>>,
    r: KvResult<usize>,
) -> bool {
    if some_not_set(old, keys, now) {
        r == Err::<usize, KvError>(KvError::WrongType) && new == old
    } else {
        &&& r == Ok::<usize, KvError>(expected.len() as usize)
        &&& written(old, dst, now, EntryView {
            value: ValueView::StrSet(expected),
            expires_at_ms: None,
            last_accessed_ms: now as i64,
        }, new)
    }
}

/// The reply of SMEMBERS at `now`.
pub open spec fn smembers_reply(v: StoreView, k: Seq<char>, now: int, r: KvResult<Vec<String>>) -> bool {
    match set_of(v, k, now) {
        Ok(s) => r matches Ok(out) && lists_set(string_seq(out@), s),
        Err(e) => r == Err::<Vec<String>, KvError>(e),
    }
}

/// The reply of SCARD at `now`.
pub open spec fn scard_reply(v: StoreView, k: Seq<char>, now: int, r: KvResult<usize>) -> bool {
    match set_of(v, k, now) {
        Ok(s) => r == Ok::<usize, KvError>(s.len() as usize),
        Err(e) => r == Err::<usize, KvError>(e),
    }
}

/// The reply of SISMEMBER at `now`.
pub open spec fn sismember_reply(v: StoreView, k: Seq<char>, m: Seq<char>, now: int, r: KvResult<bool>) -> bool {
    match set_of(v, k, now) {
        Ok(s) => r == Ok::<bool, KvError>(s.contains(m)),
        Err(e) => r == Err::<bool, KvError>(e),
    }
}

/// The members of a set map, each once.
fn members_vec(s: &StrMap<()>) -> (out: Vec<String>)
    requires
        s.wf(),
    ensures
        lists_set(string_seq(out@), s@.dom()),
{
    let out = s.keys_vec();
    proof {
        s.lemma_storage();
    }
    out
}

/// A copy of a set map.
fn copy_set(s: &StrMap<()>) -> (out: StrMap<()>)
    requires
        s.wf(),
    ensures
        out.wf(),
        out@.dom() == s@.dom(),
{
    let n = s.len();
    proof {
        s.lemma_storage();
    }
    let mut out: StrMap<()> = StrMap::new();
    let mut j: usize = 0;
    let ghost ks = s.key_seq();
    assert(out@.dom() =~= ks.take(0).to_set());
    while j < n
        invariant
            s.wf(),
            ks == s.key_seq(),
            n == ks.len(),
            j <= n,
            out.wf(),
            out@.dom() == ks.take(j as int).to_set(),
        decreases n - j,
    {
        let k = s.key_at(j).clone();
        proof {
            lemma_take_step_to_set(ks, j as int);
        }
        let ghost pre = out@.dom();
        assert(k@ == ks[j as int]);
        out.insert(k, ());
        assert(out@.dom() =~= pre.insert(ks[j as int]));
        assert(out@.dom() =~= ks.take(j + 1).to_set());
        j = j + 1;
    }
    assert(ks.take(n as int) =~= ks);
    out
}

/// The members of `acc` whose membership in `s` (an absent set counting as
/// empty) is `keep_members`.
fn filter_set(acc: &StrMap<()>, s: Option<&StrMap<()>>, keep_members: bool) -> (out: StrMap<()>)
    requires
        acc.wf(),
        s matches Some(s) ==> s.wf(),
    ensures
        out.wf(),
        out@.dom() == acc@.dom().filter(|m: Seq<char>| (match s {
            Some(s) => s@.contains_key(m),
            None => false,
        }) == keep_members),
{
    let n = acc.len();
    proof {
        acc.lemma_storage();
    }
    let ghost pred = |m: Seq<char>| (match s {
        Some(s) => s@.contains_key(m),
        None => false,
    }) == keep_members;
    let mut out: StrMap<()> = StrMap::new();
    let mut j: usize = 0;
    let ghost ks = acc.key_seq();
    assert(out@.dom() =~= ks.take(0).to_set().filter(pred));
    while j < n
        invariant
            acc.wf(),
            s matches Some(s) ==> s.wf(),
            ks == acc.key_seq(),
            n == ks.len(),
            j <= n,
            out.wf(),
            out@.dom() == ks.take(j as int).to_set().filter(pred),
            pred == (|m: Seq<char>| (match s {
                Some(s) => s@.contains_key(m),
                None => false,
            }) == keep_members),
        decreases n - j,
    {
        let k = acc.key_at(j);
        let inside = match s {
            Some(s) => s.contains_key(k),
            None => false,
        };
        proof {
            lemma_take_step_to_set(ks, j as int);
        }
        if inside == keep_members {
            out.insert(k.clone(), ());
        }
        assert(out@.dom() =~= ks.take(j + 1).to_set().filter(pred));
        j = j + 1;
    }
    assert(ks.take(n as int) =~= ks);
    assert(acc@.dom() =~= ks.to_set());
    out
}

impl KvStore {
    /// The set under `key` at `now`: `None` when the key is not live.
    fn set_snapshot(&self, key: &String, now: i64) -> (r: KvResult<Option<&StrMap<()>>>)
        requires
            self.wf(),
        ensures
            match r {
                Ok(Some(s)) => s.wf() && set_of(self@, key@, now as int) == Ok::<Set<Seq<char>>, KvError>(s@.dom()),
                Ok(None) => set_of(self@, key@, now as int) == Ok::<Set<Seq<char>>, KvError>(Set::empty()),
                Err(e) => set_of(self@, key@, now as int) == Err::<Set<Seq<char>>, KvError>(e),
            },
    {
        match self.peek(key, now) {
            None => Ok(None),
            Some(e) => match &e.value {
                DataType::StrSet(s) => Ok(Some(s)),
                _ => Err(KvError::WrongType),
            },
        }
    }

    /// SADD at `now`.
    pub fn sadd_at(&mut self, key: String, members: &[String], now: i64) -> (r: KvResult<i64>)
        requires
            old(self).wf(),
        ensures
            final(self).wf(),
            sadd_post(old(self)@, final(self)@, key@, string_seq(members@), now as int, r),
    {
        proof {
            old(self).lemma_well_placed();
        }
        let taken = self.take_for_write(&key, now);
        let was_live = taken.is_some();
        let ghost after = self@;
        let mut e = match taken {
            Some(e) => e,
            None => {
                let fresh = Entry::new_at(DataType::StrSet(StrMap::new()), now);
                assert(Map::<Seq<char>, ()>::empty().dom() =~= Set::<Seq<char>>::empty());
                fresh
            },
        };
        e.last_accessed_ms = now;
        let ghost ms = string_seq(members@);
        let r = match &mut e.value {
            DataType::StrSet(set) => {
                let ghost s0 = set@.dom();
                let mut added: usize = 0;
                let mut i: usize = 0;
                proof {
                    set.lemma_storage();
                }
                assert(ms.take(0).to_set() =~= Set::<Seq<char>>::empty());
                assert(ms.take(0).to_set().difference(s0) =~= Set::<Seq<char>>::empty());
                while i < members.len()
                    invariant
                        set.wf(),
                        set@.dom().finite(),
                        ms == string_seq(members@),
                        i <= members@.len(),
                        set@.dom() == s0 + ms.take(i as int).to_set(),
                        added == ms.take(i as int).to_set().difference(s0).len(),
                        ms.take(i as int).to_set().difference(s0).finite(),
                        added <= i,
                    decreases members@.len() - i,
                {
                    let ghost m = ms[i as int];
                    assert(members@[i as int]@ == m);
                    assert forall|x: Seq<char>| ms.take(i + 1).contains(x) <==> (ms.take(i as int).contains(x) || x == m) by {
                        lemma_take_step_contains(ms, i as int, x);
                    }
                    let is_new = !set.contains_key(&members[i]);
                    set.insert(members[i].clone(), ());
                    proof {
                        set.lemma_storage();
                    }
                    if is_new {
                        assert(!ms.take(i as int).to_set().difference(s0).contains(m));
                        assert(ms.take(i + 1).to_set().difference(s0) =~= ms.take(i as int).to_set().difference(s0).insert(m));
                        added = added + 1;
                    } else {
                        assert(ms.take(i + 1).to_set().difference(s0) =~= ms.take(i as int).to_set().difference(s0));
                    }
                    assert(set@.dom() =~= s0 + ms.take(i + 1).to_set());
                    i = i + 1;
                }
                assert(ms.take(members@.len() as int) =~= ms);
                Ok(added as i64)
            },
            _ => Err(KvError::WrongType),
        };
        let ghost ev = e@;
        self.put(key, e);
        proof {
            lemma_written(old(self)@, after, key@, now as int, was_live, ev);
        }
        r
    }

    /// Adds members to a set; how many were new.
    pub fn sadd(&mut self, key: String, members: &[String]) -> (r: KvResult<i64>)
        requires
            old(self).wf(),
        ensures
            final(self).wf(),
            final(self).clock() >= old(self).clock(),
            sadd_post(old(self)@, final(self)@, key@, string_seq(members@), final(self).clock() as int, r),
    {
        let now = self.next_time();
        let r = self.sadd_at(key, members, now);
        self.set_clock(now);
        r
    }

    /// SREM at `now`.
    pub fn srem_at(&mut self, key: &str, members: &[String], now: i64) -> (r: KvResult<i64>)
        requires
            old(self).wf(),
        ensures
            final(self).wf(),
            srem_post(old(self)@, final(self)@, key@, string_seq(members@), now as int, r),
    {
        let k = key.to_owned();
        proof {
            old(self).lemma_well_placed();
        }
        match self.take(&k, now) {
            None => {
                proof {
                    lemma_take_dead(old(self)@, k@, now as int);
                }
                Ok(0)
            },
            Some(mut e) => {
                let ghost e0 = e@;
                let ghost ms = string_seq(members@);
                let r = match &mut e.value {
                    DataType::StrSet(set) => {
                        let ghost s0 = set@.dom();
                        let mut removed: usize = 0;
                        let mut i: usize = 0;
                        proof {
                            set.lemma_storage();
                        }
                        assert(ms.take(0).to_set() =~= Set::<Seq<char>>::empty());
                        assert(ms.take(0).to_set().intersect(s0) =~= Set::<Seq<char>>::empty());
                        assert(s0.difference(ms.take(0).to_set()) =~= s0);
                        while i < members.len()
                            invariant
                                set.wf(),
                                set@.dom().finite(),
                                s0.finite(),
                                ms == string_seq(members@),
                                        i <= members@.len(),
                                set@.dom() == s0.difference(ms.take(i as int).to_set()),
                                removed == ms.take(i as int).to_set().intersect(s0).len(),
                                removed <= i,
                            decreases members@.len() - i,
                        {
                            let ghost m = ms[i as int];
                            assert(members@[i as int]@ == m);
                            assert forall|x: Seq<char>| ms.take(i + 1).contains(x) <==> (ms.take(i as int).contains(x) || x == m) by {
                                lemma_take_step_contains(ms, i as int, x);
                            }
                            let was = set.remove(&members[i]);
                            proof {
                                set.lemma_storage();
                                vstd::set::axiom_set_intersect_finite(ms.take(i as int).to_set(), s0);
                            }
                            if was.is_some() {
                                assert(!ms.take(i as int).to_set().intersect(s0).contains(m));
                                assert(ms.take(i + 1).to_set().intersect(s0) =~= ms.take(i as int).to_set().intersect(s0).insert(m));
                                removed = removed + 1;
                            } else {
                                assert(ms.take(i + 1).to_set().intersect(s0) =~= ms.take(i as int).to_set().intersect(s0));
                            }
                            assert(set@.dom() =~= s0.difference(ms.take(i + 1).to_set()));
                            i = i + 1;
                        }
                        assert(ms.take(members@.len() as int) =~= ms);
                        Ok(removed as i64)
                    },
                    _ => Err(KvError::WrongType),
                };
                let ghost ev = e@;
                self.put(k, e);
                proof {
                    lemma_take_then_put(old(self)@, key@, ev);
                    if r.is_err() {
                        lemma_put_back(old(self)@, key@, e0);
                    }
                }
                r
            },
        }
    }

    /// Removes members from a set; how many were there.
    pub fn srem(&mut self, key: &str, members: &[String]) -> (r: KvResult<i64>)
        requires
            old(self).wf(),
        ensures
            final(self).wf(),
            final(self).clock() >= old(self).clock(),
            srem_post(old(self)@, final(self)@, key@, string_seq(members@), final(self).clock() as int, r),
    {
        let now = self.next_time();
        let r = self.srem_at(key, members, now);
        self.set_clock(now);
        r
    }

    /// SMEMBERS at `now`.
    pub fn smembers_at(&self, key: &str, now: i64) -> (r: KvResult<Vec<String>>)
        requires
            self.wf(),
        ensures
            smembers_reply(self@, key@, now as int, r),
    {
        let k = key.to_owned();
        match self.set_snapshot(&k, now) {
            Ok(None) => {
                let out: Vec<String> = Vec::new();
                assert(string_seq(out@).to_set() =~= Set::<Seq<char>>::empty());
                Ok(out)
            },
            Ok(Some(s)) => Ok(members_vec(s)),
            Err(e) => Err(e),
        }
    }

    /// All members of a set.
    pub fn smembers(&self, key: &str) -> (r: KvResult<Vec<String>>)
        requires
            self.wf(),
        ensures
            exists|t: i64| t >= self.clock() && smembers_reply(self@, key@, t as int, r),
    {
        let now = self.next_time();
        self.smembers_at(key, now)
    }

    /// SCARD at `now`.
    pub fn scard_at(&self, key: &str, now: i64) -> (r: KvResult<usize>)
        requires
            self.wf(),
        ensures
            scard_reply(self@, key@, now as int, r),
    {
        let k = key.to_owned();
        match self.set_snapshot(&k, now) {
            Ok(None) => Ok(0),
            Ok(Some(s)) => {
                proof {
                    s.lemma_storage();
                }
                Ok(s.len())
            },
            Err(e) => Err(e),
        }
    }

    /// Number of members of a set.
    pub fn scard(&self, key: &str) -> (r: KvResult<usize>)
        requires
            self.wf(),
        ensures
            exists|t: i64| t >= self.clock() && scard_reply(self@, key@, t as int, r),
    {
        let now = self.next_time();
        self.scard_at(key, now)
    }

    /// SISMEMBER at `now`.
    pub fn sismember_at(&self, key: &str, member: &str, now: i64) -> (r: KvResult<bool>)
        requires
            self.wf(),
        ensures
            sismember_reply(self@, key@, member@, now as int, r),
    {
        let k = key.to_owned();
        let m = member.to_owned();
        match self.set_snapshot(&k, now) {
            Ok(None) => Ok(false),
            Ok(Some(s)) => Ok(s.contains_key(&m)),
            Err(e) => Err(e),
        }
    }

    /// Whether a set has a member.
    pub fn sismember(&self, key: &str, member: &str) -> (r: KvResult<bool>)
        requires
            self.wf(),
        ensures
            exists|t: i64| t >= self.clock() && sismember_reply(self@, key@, member@, t as int, r),
    {
        let now = self.next_time();
        self.sismember_at(key, member, now)
    }

    /// SPOP at `now`.
    pub fn spop_at(&mut self, key: &str, now: i64) -> (r: KvResult<Option<String>>)
        requires
            old(self).wf(),
        ensures
            final(self).wf(),
            spop_post(old(self)@, final(self)@, key@, now as int, r),
    {
        let k = key.to_owned();
        proof {
            old(self).lemma_well_placed();
        }
        match self.take(&k, now) {
            None => {
                proof {
                    lemma_take_dead(old(self)@, k@, now as int);
                }
                Ok(None)
            },
            Some(mut e) => {
                let ghost e0 = e@;
                let r = match &mut e.value {
                    DataType::StrSet(set) => {
                        let n = set.len();
                        proof {
                            set.lemma_storage();
                        }
                        if n == 0 {
                            Ok(None)
                        } else {
                            let pick = (now as usize) % n;
                            let m = set.key_at(pick).clone();
                            assert(set@.contains_key(m@));
                            set.remove(&m);
                            Ok(Some(m))
                        }
                    },
                    _ => Err(KvError::WrongType),
                };
                let ghost ev = e@;
                self.put(k, e);
                proof {
                    lemma_take_then_put(old(self)@, key@, ev);
                    if r.is_err() || r == Ok::<Option<String>, KvError>(None) {
                        lemma_put_back(old(self)@, key@, e0);
                    }
                }
                r
            },
        }
    }

    /// Removes and returns some member of a set.
    pub fn spop(&mut self, key: &str) -> (r: KvResult<Option<String>>)
        requires
            old(self).wf(),
        ensures
            final(self).wf(),
            final(self).clock() >= old(self).clock(),
            spop_post(old(self)@, final(self)@, key@, final(self).clock() as int, r),
    {
        let now = self.next_time();
        let r = self.spop_at(key, now);
        self.set_clock(now);
        r
    }

    /// SRANDMEMBER at `now`.
    pub fn srandmember_at(&self, key: &str, now: i64) -> (r: KvResult<Option<String>>)
        requires
            self.wf(),
        ensures
            srandmember_reply(self@, key@, now as int, r),
    {
        let k = key.to_owned();
        match self.set_snapshot(&k, now) {
            Ok(None) => Ok(None),
            Ok(Some(s)) => {
                let n = s.len();
                proof {
                    s.lemma_storage();
                }
                if n == 0 {
                    Ok(None)
                } else {
                    let pick = (now as usize) % n;
                    let m = s.key_at(pick).clone();
                    assert(s@.contains_key(m@));
                    Ok(Some(m))
                }
            },
            Err(e) => Err(e),
        }
    }

    /// Some member of a set.
    pub fn srandmember(&self, key: &str) -> (r: KvResult<Option<String>>)
        requires
            self.wf(),
        ensures
            exists|t: i64| t >= self.clock() && srandmember_reply(self@, key@, t as int, r),
    {
        let now = self.next_time();
        self.srandmember_at(key, now)
    }

    /// SMOVE at `now`.
    pub fn smove_at(&mut self, src: &str, dst: String, member: String, now: i64) -> (r: KvResult<bool>)
        requires
            old(self).wf(),
        ensures
            final(self).wf(),
            smove_post(old(self)@, final(self)@, src@, dst@, member@, now as int, r),
    {
        let k = src.to_owned();
        proof {
            old(self).lemma_well_placed();
        }
        let dst_bad = match self.peek(&dst, now) {
            Some(d) => match &d.value {
                DataType::StrSet(_) => false,
                _ => true,
            },
            None => false,
        };
        let removed = match self.take(&k, now) {
            None => {
                proof {
                    lemma_take_dead(old(self)@, k@, now as int);
                }
                return Ok(false);
            },
            Some(mut e) => {
                let ghost e0 = e@;
                let r = match &mut e.value {
                    DataType::StrSet(set) => {
                        proof {
                            set.lemma_storage();
                        }
                        if dst_bad {
                            Err(KvError::WrongType)
                        } else {
                            let ghost before = set@;
                            let was = set.remove(&member).is_some();
                            proof {
                                if !was {
                                    assert(set@ =~= before);
                                }
                            }
                            Ok(was)
                        }
                    },
                    _ => Err(KvError::WrongType),
                };
                let ghost ev = e@;
                self.put(k, e);
                proof {
                    lemma_take_then_put(old(self)@, src@, ev);
                    if r.is_err() || r == Ok::<bool, KvError>(false) {
                        assert(ev == e0);
                        lemma_put_back(old(self)@, src@, e0);
                    }
                }
                match r {
                    Ok(was) => was,
                    Err(err) => return Err(err),
                }
            },
        };
        if !removed {
            return Ok(false);
        }
        let ghost mid = self@;
        proof {
            lemma_entry_of_with_entry(old(self)@, src@, entry_of(mid, src@), dst@);
            assert(!holds_non_set(old(self)@, dst@, now as int));
        }
        let ms: Vec<String> = vec![member];
        assert(string_seq(ms@) =~= seq![ms@[0]@]);
        let r2 = self.sadd_at(dst, ms.as_slice(), now);
        match r2 {
            Ok(_) => Ok(true),
            Err(err) => Err(err),
        }
    }

    /// Moves a member from one set to another.
    pub fn smove(&mut self, src: &str, dst: String, member: String) -> (r: KvResult<bool>)
        requires
            old(self).wf(),
        ensures
            final(self).wf(),
            final(self).clock() >= old(self).clock(),
            smove_post(old(self)@, final(self)@, src@, dst@, member@, final(self).clock() as int, r),
    {
        let now = self.next_time();
        let r = self.smove_at(src, dst, member, now);
        self.set_clock(now);
        r
    }

    /// The union of the sets under `keys` at `now`.
    fn union_map(&self, keys: &[String], now: i64) -> (r: KvResult<StrMap<()>>)
        requires
            self.wf(),
        ensures
            match r {
                Ok(acc) => acc.wf() && !some_not_set(self@, string_seq(keys@), now as int)
                    && acc@.dom() == union_of(self@, string_seq(keys@), now as int),
                Err(e) => e == KvError::WrongType && some_not_set(self@, string_seq(keys@), now as int),
            },
    {
        let ghost ks = string_seq(keys@);
        let ghost v = self@;
        let mut acc: StrMap<()> = StrMap::new();
        let mut i: usize = 0;
        assert(acc@.dom() =~= union_of(v, ks.take(0), now as int));
        while i < keys.len()
            invariant
                self.wf(),
                v == self@,
                ks == string_seq(keys@),
                i <= keys@.len(),
                acc.wf(),
                acc@.dom() == union_of(v, ks.take(i as int), now as int),
                forall|ii: int| 0 <= ii < i ==> (#[trigger] set_of(v, ks[ii], now as int)) is Ok,
            decreases keys@.len() - i,
        {
            assert(keys@[i as int]@ == ks[i as int]);
            let ghost before = acc@.dom();
            match self.set_snapshot(&keys[i], now) {
                Err(e) => {
                    assert(set_of(v, ks[i as int], now as int) is Err);
                    return Err(e);
                },
                Ok(None) => {
                    assert(before + Set::<Seq<char>>::empty() =~= before);
                },
                Ok(Some(s)) => {
                    let n = s.len();
                    proof {
                        s.lemma_storage();
                    }
                    let ghost sk = s.key_seq();
                    let ghost base = acc@.dom();
                    let mut j: usize = 0;
                    assert(acc@.dom() =~= base + sk.take(0).to_set());
                    while j < n
                        invariant
                            s.wf(),
                            sk == s.key_seq(),
                            n == sk.len(),
                            j <= n,
                            acc.wf(),
                            acc@.dom() == base + sk.take(j as int).to_set(),
                        decreases n - j,
                    {
                        proof {
                            lemma_take_step_to_set(sk, j as int);
                        }
                        acc.insert(s.key_at(j).clone(), ());
                        assert(acc@.dom() =~= base + sk.take(j + 1).to_set());
                        j = j + 1;
                    }
                    assert(sk.take(n as int) =~= sk);
                },
            }
            assert(set_of(v, ks[i as int], now as int) is Ok);
            assert(acc@.dom() == before + set_of(v, ks[i as int], now as int)->Ok_0);
            assert forall|m: Seq<char>| #[trigger] acc@.dom().contains(m) <==> union_of(v, ks.take(i + 1), now as int).contains(m) by {
                if union_of(v, ks.take(i + 1), now as int).contains(m) {
                    let ii = choose|ii: int| 0 <= ii < i + 1 && #[trigger] member_of(v, ks.take(i + 1)[ii], now as int, m);
                    if ii < i {
                        assert(member_of(v, ks.take(i as int)[ii], now as int, m));
                    }
                }
                if union_of(v, ks.take(i as int), now as int).contains(m) {
                    let ii = choose|ii: int| 0 <= ii < i && #[trigger] member_of(v, ks.take(i as int)[ii], now as int, m);
                    assert(member_of(v, ks.take(i + 1)[ii], now as int, m));
                }
                if member_of(v, ks[i as int], now as int, m) {
                    assert(member_of(v, ks.take(i + 1)[i as int], now as int, m));
                }
            }
            assert(acc@.dom() =~= union_of(v, ks.take(i + 1), now as int));
            i = i + 1;
        }
        assert(ks.take(keys@.len() as int) =~= ks);
        assert(!some_not_set(v, ks, now as int));
        Ok(acc)
    }

    /// The intersection (`inter`) or the difference (otherwise) of the sets
    /// under `keys` at `now`.
    fn combine_map(&self, keys: &[String], now: i64, inter: bool) -> (r: KvResult<StrMap<()>>)
        requires
            self.wf(),
        ensures
            match r {
                Ok(acc) => acc.wf() && !some_not_set(self@, string_seq(keys@), now as int)
                    && acc@.dom() == if inter {
                        inter_of(self@, string_seq(keys@), now as int)
                    } else {
                        diff_of(self@, string_seq(keys@), now as int)
                    },
                Err(e) => e == KvError::WrongType && some_not_set(self@, string_seq(keys@), now as int),
            },
    {
        let ghost ks = string_seq(keys@);
        let ghost v = self@;
        if keys.len() == 0 {
            let acc: StrMap<()> = StrMap::new();
            assert(acc@.dom() =~= inter_of(v, ks, now as int));
            assert(acc@.dom() =~= diff_of(v, ks, now as int));
            return Ok(acc);
        }
        assert(keys@[0]@ == ks[0]);
        let mut acc: StrMap<()> = match self.set_snapshot(&keys[0], now) {
            Err(e) => {
                assert(set_of(v, ks[0], now as int) is Err);
                return Err(e);
            },
            Ok(None) => StrMap::new(),
            Ok(Some(s0)) => copy_set(s0),
        };
        let ghost spec_of = |ks2: Seq<Seq<char>>| if inter { inter_of(v, ks2, now as int) } else { diff_of(v, ks2, now as int) };
        assert(ks.take(1)[0] == ks[0]);
        assert forall|m: Seq<char>| #[trigger] acc@.dom().contains(m) <==> spec_of(ks.take(1)).contains(m) by {
            let t1 = ks.take(1);
            if member_of(v, t1[0], now as int, m) {
                assert forall|ii: int| 0 <= ii < t1.len() implies #[trigger] member_of(v, t1[ii], now as int, m) by {}
            }
            if spec_of(t1).contains(m) {
                assert(member_of(v, t1[0], now as int, m));
            }
        }
        assert(acc@.dom() =~= spec_of(ks.take(1)));
        let mut i: usize = 1;
        while i < keys.len()
            invariant
                self.wf(),
                v == self@,
                ks == string_seq(keys@),
                1 <= i <= keys@.len(),
                acc.wf(),
                acc@.dom() == spec_of(ks.take(i as int)),
                spec_of == (|ks2: Seq<Seq<char>>| if inter { inter_of(v, ks2, now as int) } else { diff_of(v, ks2, now as int) }),
                forall|ii: int| 0 <= ii < i ==> (#[trigger] set_of(v, ks[ii], now as int)) is Ok,
            decreases keys@.len() - i,
        {
            assert(keys@[i as int]@ == ks[i as int]);
            let snap = self.set_snapshot(&keys[i], now);
            let s = match snap {
                Err(e) => {
                    assert(set_of(v, ks[i as int], now as int) is Err);
                    return Err(e);
                },
                Ok(s) => s,
            };
            let next = filter_set(&acc, s, inter);
            let ghost a = ks.take(i as int);
            let ghost b = ks.take(i + 1);
            assert(b.drop_last() =~= a);
            assert forall|ii: int| 0 <= ii < i implies #[trigger] b[ii] == a[ii] by {}
            assert(b[i as int] == ks[i as int]);
            assert(b[0] == ks[0]);
            assert forall|m: Seq<char>| #[trigger] next@.dom().contains(m) <==> spec_of(b).contains(m) by {
                let inside = member_of(v, ks[i as int], now as int, m);
                assert(inside == match s {
                    Some(s) => s@.contains_key(m),
                    None => false,
                });
                if inter {
                    if spec_of(b).contains(m) {
                        assert forall|ii: int| 0 <= ii < a.len() implies #[trigger] member_of(v, a[ii], now as int, m) by {
                            assert(member_of(v, b[ii], now as int, m));
                        }
                        assert(member_of(v, b[i as int], now as int, m));
                    }
                    if next@.dom().contains(m) {
                        assert forall|ii: int| 0 <= ii < b.len() implies #[trigger] member_of(v, b[ii], now as int, m) by {
                            if ii < i {
                                assert(member_of(v, a[ii], now as int, m));
                            }
                        }
                    }
                } else {
                    if spec_of(b).contains(m) {
                        assert forall|ii: int| 1 <= ii < a.len() implies !#[trigger] member_of(v, a[ii], now as int, m) by {
                            assert(!member_of(v, b[ii], now as int, m));
                        }
                        assert(!member_of(v, b[i as int], now as int, m));
                    }
                    if next@.dom().contains(m) {
                        assert forall|ii: int| 1 <= ii < b.len() implies !#[trigger] member_of(v, b[ii], now as int, m) by {
                            if ii < i {
                                assert(!member_of(v, a[ii], now as int, m));
                            }
                        }
                    }
                }
            }
            assert(next@.dom() =~= spec_of(b));
            acc = next;
            i = i + 1;
        }
        assert(ks.take(keys@.len() as int) =~= ks);
        assert(!some_not_set(v, ks, now as int));
        Ok(acc)
    }

    /// SUNION at `now`.
    pub fn sunion_at(&self, keys: &[String], now: i64) -> (r: KvResult<Vec<String>>)
        requires
            self.wf(),
        ensures
            combine_reply(self@, string_seq(keys@), now as int, union_of(self@, string_seq(keys@), now as int), r),
    {
        match self.union_map(keys, now) {
            Ok(acc) => Ok(members_vec(&acc)),
            Err(e) => Err(e),
        }
    }

    /// The union of several sets.
    pub fn sunion(&self, keys: &[String]) -> (r: KvResult<Vec<String>>)
        requires
            self.wf(),
        ensures
            exists|t: i64| t >= self.clock() && combine_reply(self@, string_seq(keys@), t as int, union_of(self@, string_seq(keys@), t as int), r),
    {
        let now = self.next_time();
        self.sunion_at(keys, now)
    }

    /// SINTER at `now`.
    pub fn sinter_at(&self, keys: &[String], now: i64) -> (r: KvResult<Vec<String>>)
        requires
            self.wf(),
        ensures
            combine_reply(self@, string_seq(keys@), now as int, inter_of(self@, string_seq(keys@), now as int), r),
    {
        match self.combine_map(keys, now, true) {
            Ok(acc) => Ok(members_vec(&acc)),
            Err(e) => Err(e),
        }
    }

    /// The intersection of several sets.
    pub fn sinter(&self, keys: &[String]) -> (r: KvResult<Vec<String>>)
        requires
            self.wf(),
        ensures
            exists|t: i64| t >= self.clock() && combine_reply(self@, string_seq(keys@), t as int, inter_of(self@, string_seq(keys@), t as int), r),
    {
        let now = self.next_time();
        self.sinter_at(keys, now)
    }

    /// SDIFF at `now`.
    pub fn sdiff_at(&self, keys: &[String], now: i64) -> (r: KvResult<Vec<String>>)
        requires
            self.wf(),
        ensures
            combine_reply(self@, string_seq(keys@), now as int, diff_of(self@, string_seq(keys@), now as int), r),
    {
        match self.combine_map(keys, now, false) {
            Ok(acc) => Ok(members_vec(&acc)),
            Err(e) => Err(e),
        }
    }

    /// The members of the first set found in none of the others.
    pub fn sdiff(&self, keys: &[String]) -> (r: KvResult<Vec<String>>)
        requires
            self.wf(),
        ensures
            exists|t: i64| t >= self.clock() && combine_reply(self@, string_seq(keys@), t as int, diff_of(self@, string_seq(keys@), t as int), r),
    {
        let now = self.next_time();
        self.sdiff_at(keys, now)
    }

    fn store_set(&mut self, dst: String, acc: StrMap<()>, now: i64) -> (n: usize)
        requires
            old(self).wf(),
            acc.wf(),
        ensures
            final(self).wf(),
            n == acc@.dom().len(),
            written(old(self)@, dst@, now as int, EntryView {
                value: ValueView::StrSet(acc@.dom()),
                expires_at_ms: None,
                last_accessed_ms: now,
            }, final(self)@),
    {
        let n = acc.len();
        proof {
            acc.lemma_storage();
        }
        let taken = self.take_for_write(&dst, now);
        let was_live = taken.is_some();
        let ghost after = self@;
        let e = Entry::new_at(DataType::StrSet(acc), now);
        let ghost ev = e@;
        self.put(dst, e);
        proof {
            old(self).lemma_well_placed();
            lemma_written(old(self)@, after, dst@, now as int, was_live, ev);
        }
        n
    }

    /// SUNIONSTORE at `now`.
    pub fn sunionstore_at(&mut self, dst: String, keys: &[String], now: i64) -> (r: KvResult<usize>)
        requires
            old(self).wf(),
        ensures
            final(self).wf(),
            store_post(old(self)@, final(self)@, string_seq(keys@), dst@, now as int, union_of(old(self)@, string_seq(keys@), now as int), r),
    {
        match self.union_map(keys, now) {
            Ok(acc) => Ok(self.store_set(dst, acc, now)),
            Err(e) => Err(e),
        }
    }

    /// Stores the union of several sets; its size.
    pub fn sunionstore(&mut self, dst: String, keys: &[String]) -> (r: KvResult<usize>)
        requires
            old(self).wf(),
        ensures
            final(self).wf(),
            final(self).clock() >= old(self).clock(),
            store_post(old(self)@, final(self)@, string_seq(keys@), dst@, final(self).clock() as int, union_of(old(self)@, string_seq(keys@), final(self).clock() as int), r),
    {
        let now = self.next_time();
        let r = self.sunionstore_at(dst, keys, now);
        self.set_clock(now);
        r
    }

    /// SINTERSTORE at `now`.
    pub fn sinterstore_at(&mut self, dst: String, keys: &[String], now: i64) -> (r: KvResult<usize>)
        requires
            old(self).wf(),
        ensures
            final(self).wf(),
            store_post(old(self)@, final(self)@, string_seq(keys@), dst@, now as int, inter_of(old(self)@, string_seq(keys@), now as int), r),
    {
        match self.combine_map(keys, now, true) {
            Ok(acc) => Ok(self.store_set(dst, acc, now)),
            Err(e) => Err(e),
        }
    }

    /// Stores the intersection of several sets; its size.
    pub fn sinterstore(&mut self, dst: String, keys: &[String]) -> (r: KvResult<usize>)
        requires
            old(self).wf(),
        ensures
            final(self).wf(),
            final(self).clock() >= old(self).clock(),
            store_post(old(self)@, final(self)@, string_seq(keys@), dst@, final(self).clock() as int, inter_of(old(self)@, string_seq(keys@), final(self).clock() as int), r),
    {
        let now = self.next_time();
        let r = self.sinterstore_at(dst, keys, now);
        self.set_clock(now);
        r
    }

    /// SDIFFSTORE at `now`.
    pub fn sdiffstore_at(&mut self, dst: String, keys: &[String], now: i64) -> (r: KvResult<usize>)
        requires
            old(self).wf(),
        ensures
            final(self).wf(),
            store_post(old(self)@, final(self)@, string_seq(keys@), dst@, now as int, diff_of(old(self)@, string_seq(keys@), now as int), r),
    {
        match self.combine_map(keys, now, false) {
            Ok(acc) => Ok(self.store_set(dst, acc, now)),
            Err(e) => Err(e),
        }
    }

    /// Stores the difference of several sets; its size.
    pub fn sdiffstore(&mut self, dst: String, keys: &[String]) -> (r: KvResult<usize>)
        requires
            old(self).wf(),
        ensures
            final(self).wf(),
            final(self).clock() >= old(self).clock(),
            store_post(old(self)@, final(self)@, string_seq(keys@), dst@, final(self).clock() as int, diff_of(old(self)@, string_seq(keys@), final(self).clock() as int), r),
    {
        let now = self.next_time();
        let r = self.sdiffstore_at(dst, keys, now);
        self.set_clock(now);
        r
    }
}

} // verus!
