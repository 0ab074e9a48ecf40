//! Hash commands: HSET, HGET, HDEL, HGETALL, HKEYS, HVALS, HLEN, HEXISTS,
//! HMGET.
use vstd::prelude::*;
use crate::entry::{DataType, Entry, EntryView, ValueView};
use crate::error::{KvError, KvResult};
use crate::seqs::string_seq;
use crate::store::{
    KvStore, StoreView, entry_for_write, enumerates, lemma_take_dead, lemma_take_then_put, live_entry,
    lemma_written, purge_key, with_entry, written,
};
use crate::strings::opt_strings;
use crate::strmap::StrMap;

verus! {

/// HSET at `now`: the field holds the value; the result is 1 for a new
/// field, 0 otherwise. A fresh key starts as an empty hash.
pub open spec fn hset_post(
    old: StoreView,
    new: StoreView,
    k: Seq<char>,
    f: Seq<char>,
    val: Seq<char>,
    now: int,
    r: KvResult<i64>,
) -> bool {
    let b = entry_for_write(old, k, now, ValueView::Hash(Map::empty()));
    match b.value {
        ValueView::Hash(h) => {
            &&& r == Ok::<i64, KvError>(if h.contains_key(f) { 0 } else { 1 })
            &&& written(old, k, now, EntryView { value: ValueView::Hash(h.insert(f, val)), ..b }, new)
        },
        _ => r == Err::<i64, KvError>(KvError::WrongType) && new == with_entry(old, k, Some(b)),
    }
}

/// The hash a read command sees at `now`: `None` when the key is not live,
/// the error when it holds another type.
pub open spec fn hash_at(v: StoreView, k: Seq<char>, now: int) -> KvResult<Option<Map<Seq<char>, Seq<char>>>> {
    match live_entry(v, k, now) {
        None => Ok(None),
        Some(e) => match e.value {
            ValueView::Hash(h) => Ok(Some(h)),
            _ => Err(KvError::WrongType),
        },
    }
}

/// HDEL at `now`: the field is gone; the result says whether it was there.
/// The key stays, even with an empty hash.
pub open spec fn hdel_post(
    old: StoreView,
    new: StoreView,
    k: Seq<char>,
    f: Seq<char>,
    now: int,
    r: KvResult<bool>,
) -> bool {
    match live_entry(old, k, now) {
        None => r == Ok::<bool, KvError>(false) && new == purge_key(old, k, now),
        Some(e) => match e.value {
            ValueView::Hash(h) => r == Ok::<bool, KvError>(h.contains_key(f)) && new == with_entry(
                old,
                k,
                Some(EntryView { value: ValueView::Hash(h.remove(f)), ..e }),
            ),
            _ => r == Err::<bool, KvError>(KvError::WrongType) && new == old,
        },
    }
}

/// `out` lists every pair of `h` once.
pub open spec fn lists_pairs(out: Seq<(String, String)>, h: Map<Seq<char>, Seq<char>>) -> bool {
    exists|ks: Seq<Seq<char>>|
        #[trigger] enumerates(ks, h) && ks.len() == out.len() && forall|i: int|
            0 <= i < ks.len() ==> (#[trigger] out[i]).0@ == ks[i] && out[i].1@ == h[ks[i]]
}

/// `out` lists the values of `h` along some enumeration of its keys.
pub open spec fn lists_values(out: Seq<Seq<char>>, h: Map<Seq<char>, Seq<char>>) -> bool {
    exists|ks: Seq<Seq<char>>| #[trigger] enumerates(ks, h) && out == ks.map_values(|f: Seq<char>| h[f])
}

/// The reply of HGET at `now`.
pub open spec fn hget_reply(v: StoreView, k: Seq<char>, field: Seq<char>, now: int, r: KvResult<Option<String>>) -> bool {
    match hash_at(v, k, now) {
        Ok(None) => r == Ok::<Option<String>, KvError>(None),
        Ok(Some(h)) => match r {
            Ok(Some(x)) => h.contains_key(field) && x@ == h[field],
            Ok(None) => !h.contains_key(field),
            Err(_) => false,
        },
        Err(e) => r == Err::<Option<String>, KvError>(e),
    }
}

/// The reply of HGETALL at `now`: every field with its value, each field once.
pub open spec fn hgetall_reply(v: StoreView, k: Seq<char>, now: int, r: KvResult<Vec<(String, String)>>) -> bool {
    match hash_at(v, k, now) {
        Ok(None) => r matches Ok(out) && out@.len() == 0,
        Ok(Some(h)) => r matches Ok(out) && lists_pairs(out@, h),
        Err(e) => r matches Err(x) && x == e,
    }
}

/// The reply of HKEYS at `now`: every field once.
pub open spec fn hkeys_reply(v: StoreView, k: Seq<char>, now: int, r: KvResult<Vec<String>>) -> bool {
    match hash_at(v, k, now) {
        Ok(None) => r matches Ok(out) && out@.len() == 0,
        Ok(Some(h)) => r matches Ok(out) && enumerates(string_seq(out@), h),
        Err(e) => r matches Err(x) && x == e,
    }
}

/// The reply of HVALS at `now`: the values, along some enumeration of the fields.
pub open spec fn hvals_reply(v: StoreView, k: Seq<char>, now: int, r: KvResult<Vec<String>>) -> bool {
    match hash_at(v, k, now) {
        Ok(None) => r matches Ok(out) && out@.len() == 0,
        Ok(Some(h)) => r matches Ok(out) && lists_values(string_seq(out@), h),
        Err(e) => r matches Err(x) && x == e,
    }
}

/// The reply of HLEN at `now`.
pub open spec fn hlen_reply(v: StoreView, k: Seq<char>, now: int, r: KvResult<usize>) -> bool {
    match hash_at(v, k, now) {
        Ok(None) => r == Ok::<usize, KvError>(0),
        Ok(Some(h)) => r == Ok::<usize, KvError>(h.len() as usize),
        Err(e) => r == Err::<usize, KvError>(e),
    }
}

/// The reply of HEXISTS at `now`.
pub open spec fn hexists_reply(v: StoreView, k: Seq<char>, field: Seq<char>, now: int, r: KvResult<bool>) -> bool {
    match hash_at(v, k, now) {
        Ok(None) => r == Ok::<bool, KvError>(false),
        Ok(Some(h)) => r == Ok::<bool, KvError>(h.contains_key(field)),
        Err(e) => r == Err::<bool, KvError>(e),
    }
}

/// The reply of HMGET at `now`: the value of each field asked, in order.
pub open spec fn hmget_reply(v: StoreView, k: Seq<char>, fields: Seq<Seq<char>>, now: int, r: KvResult<Vec<Option<String>>>) -> bool {
    match hash_at(v, k, now) {
        Ok(None) => r matches Ok(out) && opt_strings(out@) == Seq::new(fields.len(), |i: int| None::<Seq<char>>),
        Ok(Some(h)) => r matches Ok(out) && opt_strings(out@) == Seq::new(
            fields.len(),
            |i: int| if h.contains_key(fields[i]) { Some(h[fields[i]]) } else { None },
        ),
        Err(e) => r matches Err(x) && x == e,
    }
}

impl KvStore {
    /// HSET at `now`.
    pub fn hset_at(&mut self, key: String, field: String, val: String, now: i64) -> (r: KvResult<i64>)
        requires
            old(self).wf(),
        ensures
            final(self).wf(),
            hset_post(old(self)@, final(self)@, key@, field@, val@, now as int, r),
    {
        proof {
            old(self).lemma_well_placed();
        }
        let taken = self.take_for_write(&key, now);
        let was_live = taken.is_some();
        let ghost after = self@;
        let mut e = match taken {
            Some(e) => e,
            None => Entry::new_at(DataType::Hash(StrMap::new()), now),
        };
        e.last_accessed_ms = now;
        let r = match &mut e.value {
            DataType::Hash(h) => {
                let is_new = !h.contains_key(&field);
                h.insert(field, val);
                Ok(if is_new { 1i64 } else { 0i64 })
            },
            _ => Err(KvError::WrongType),
        };
        let ghost ev = e@;
        self.put(key, e);
        proof {
            lemma_written(old(self)@, after, key@, now as int, was_live, ev);
        }
        r
    }

    /// Sets a field of a hash; 1 if the field is new, else 0.
    pub fn hset(&mut self, key: String, field: String, val: String) -> (r: KvResult<i64>)
        requires
            old(self).wf(),
        ensures
            final(self).wf(),
            final(self).clock() >= old(self).clock(),
            hset_post(old(self)@, final(self)@, key@, field@, val@, final(self).clock() as int, r),
    {
        let now = self.next_time();
        let r = self.hset_at(key, field, val, now);
        self.set_clock(now);
        r
    }

    /// HGET at `now`.
    pub fn hget_at(&self, key: &str, field: &str, now: i64) -> (r: KvResult<Option<String>>)
        requires
            self.wf(),
        ensures
            hget_reply(self@, key@, field@, now as int, r),
    {
        let k = key.to_owned();
        let f = field.to_owned();
        match self.peek(&k, now) {
            None => Ok(None),
            Some(e) => match &e.value {
                DataType::Hash(h) => match h.get(&f) {
                    Some(v) => Ok(Some(v.clone())),
                    None => Ok(None),
                },
                _ => Err(KvError::WrongType),
            },
        }
    }

    /// Gets a field of a hash.
    pub fn hget(&self, key: &str, field: &str) -> (r: KvResult<Option<String>>)
        requires
            self.wf(),
        ensures
            exists|t: i64| t >= self.clock() && hget_reply(self@, key@, field@, t as int, r),
    {
        let now = self.next_time();
        self.hget_at(key, field, now)
    }

    /// HDEL at `now`.
    pub fn hdel_at(&mut self, key: &str, field: &str, now: i64) -> (r: KvResult<bool>)
        requires
            old(self).wf(),
        ensures
            final(self).wf(),
            hdel_post(old(self)@, final(self)@, key@, field@, now as int, r),
    {
        let k = key.to_owned();
        let f = field.to_owned();
        proof {
            old(self).lemma_well_placed();
        }
        match self.take(&k, now) {
            None => {
                proof {
                    lemma_take_dead(old(self)@, k@, now as int);
                }
                Ok(false)
            },
            Some(mut e) => {
                let ghost e0 = e@;
                let r = match &mut e.value {
                    DataType::Hash(h) => Ok(h.remove(&f).is_some()),
                    _ => Err(KvError::WrongType),
                };
                let ghost ev = e@;
                self.put(k, e);
                proof {
                    lemma_take_then_put(old(self)@, key@, ev);
                    if r.is_err() {
                        crate::store::lemma_put_back(old(self)@, key@, e0);
                    }
                }
                r
            },
        }
    }

    /// Deletes a field of a hash; whether it was there.
    pub fn hdel(&mut self, key: &str, field: &str) -> (r: KvResult<bool>)
        requires
            old(self).wf(),
        ensures
            final(self).wf(),
            final(self).clock() >= old(self).clock(),
            hdel_post(old(self)@, final(self)@, key@, field@, final(self).clock() as int, r),
    {
        let now = self.next_time();
        let r = self.hdel_at(key, field, now);
        self.set_clock(now);
        r
    }

    /// HGETALL at `now`: every field with its value, each field once.
    pub fn hgetall_at(&self, key: &str, now: i64) -> (r: KvResult<Vec<(String, String)>>)
        requires
            self.wf(),
        ensures
            hgetall_reply(self@, key@, now as int, r),
    {
        let k = key.to_owned();
        match self.peek(&k, now) {
            None => Ok(Vec::new()),
            Some(e) => match &e.value {
                DataType::Hash(h) => {
                    let out = h.pairs_vec();
                    proof {
                        h.lemma_storage();
                        let ks = h.key_seq();
                        assert(enumerates(ks, h@));
                        assert forall|i: int| 0 <= i < ks.len() implies (#[trigger] out@[i]).0@ == ks[i] && out@[i].1@ == h@[ks[i]] by {
                            assert(h@.contains_key(ks[i]));
                        }
                        assert(lists_pairs(out@, h@));
                    }
                    Ok(out)
                },
                _ => Err(KvError::WrongType),
            },
        }
    }

    /// All field-value pairs of a hash.
    pub fn hgetall(&self, key: &str) -> (r: KvResult<Vec<(String, String)>>)
        requires
            self.wf(),
        ensures
            exists|t: i64| t >= self.clock() && hgetall_reply(self@, key@, t as int, r),
    {
        let now = self.next_time();
        self.hgetall_at(key, now)
    }

    /// HKEYS at `now`: every field once.
    pub fn hkeys_at(&self, key: &str, now: i64) -> (r: KvResult<Vec<String>>)
        requires
            self.wf(),
        ensures
            hkeys_reply(self@, key@, now as int, r),
    {
        let k = key.to_owned();
        match self.peek(&k, now) {
            None => Ok(Vec::new()),
            Some(e) => match &e.value {
                DataType::Hash(h) => {
                    let out = h.keys_vec();
                    proof {
                        h.lemma_storage();
                    }
                    Ok(out)
                },
                _ => Err(KvError::WrongType),
            },
        }
    }

    /// All field names of a hash.
    pub fn hkeys(&self, key: &str) -> (r: KvResult<Vec<String>>)
        requires
            self.wf(),
        ensures
            exists|t: i64| t >= self.clock() && hkeys_reply(self@, key@, t as int, r),
    {
        let now = self.next_time();
        self.hkeys_at(key, now)
    }

    /// HVALS at `now`: the values, listed along some enumeration of the
    /// fields.
    pub fn hvals_at(&self, key: &str, now: i64) -> (r: KvResult<Vec<String>>)
        requires
            self.wf(),
        ensures
            hvals_reply(self@, key@, now as int, r),
    {
        let k = key.to_owned();
        match self.peek(&k, now) {
            None => Ok(Vec::new()),
            Some(e) => match &e.value {
                DataType::Hash(h) => {
                    let out = h.values_vec();
                    proof {
                        h.lemma_storage();
                        let ks = h.key_seq();
                        assert forall|i: int| 0 <= i < ks.len() implies string_seq(out@)[i] == h@[ks[i]] by {
                            assert(h@.contains_key(ks[i]));
                        }
                        assert(string_seq(out@) =~= ks.map_values(|f: Seq<char>| h@[f]));
                        assert(enumerates(ks, h@));
                        assert(lists_values(string_seq(out@), h@));
                    }
                    Ok(out)
                },
                _ => Err(KvError::WrongType),
            },
        }
    }

    /// All values of a hash.
    pub fn hvals(&self, key: &str) -> (r: KvResult<Vec<String>>)
        requires
            self.wf(),
        ensures
            exists|t: i64| t >= self.clock() && hvals_reply(self@, key@, t as int, r),
    {
        let now = self.next_time();
        self.hvals_at(key, now)
    }

    /// HLEN at `now`.
    pub fn hlen_at(&self, key: &str, now: i64) -> (r: KvResult<usize>)
        requires
            self.wf(),
        ensures
            hlen_reply(self@, key@, now as int, r),
    {
        let k = key.to_owned();
        match self.peek(&k, now) {
            None => Ok(0),
            Some(e) => match &e.value {
                DataType::Hash(h) => Ok(h.len()),
                _ => Err(KvError::WrongType),
            },
        }
    }

    /// Number of fields of a hash.
    pub fn hlen(&self, key: &str) -> (r: KvResult<usize>)
        requires
            self.wf(),
        ensures
            exists|t: i64| t >= self.clock() && hlen_reply(self@, key@, t as int, r),
    {
        let now = self.next_time();
        self.hlen_at(key, now)
    }

    /// HEXISTS at `now`.
    pub fn hexists_at(&self, key: &str, field: &str, now: i64) -> (r: KvResult<bool>)
        requires
            self.wf(),
        ensures
            hexists_reply(self@, key@, field@, now as int, r),
    {
        let k = key.to_owned();
        let f = field.to_owned();
        match self.peek(&k, now) {
            None => Ok(false),
            Some(e) => match &e.value {
                DataType::Hash(h) => Ok(h.contains_key(&f)),
                _ => Err(KvError::WrongType),
            },
        }
    }

    /// Whether a hash has a field.
    pub fn hexists(&self, key: &str, field: &str) -> (r: KvResult<bool>)
        requires
            self.wf(),
        ensures
            exists|t: i64| t >= self.clock() && hexists_reply(self@, key@, field@, t as int, r),
    {
        let now = self.next_time();
        self.hexists_at(key, field, now)
    }

    /// HMGET at `now`: the value of each field, in the order asked.
    pub fn hmget_at(&self, key: &str, fields: &[String], now: i64) -> (r: KvResult<Vec<Option<String>>>)
        requires
            self.wf(),
        ensures
            hmget_reply(self@, key@, string_seq(fields@), now as int, r),
    {
        let k = key.to_owned();
        let hm: Option<&StrMap<String>> = match self.peek(&k, now) {
            None => None,
            Some(e) => match &e.value {
                DataType::Hash(h) => Some(h),
                _ => return Err(KvError::WrongType),
            },
        };
        let ghost fs = string_seq(fields@);
        let mut out: Vec<Option<String>> = Vec::new();
        let mut i: usize = 0;
        while i < fields.len()
            invariant
                i <= fields@.len(),
                fs == string_seq(fields@),
                match hm {
                    None => opt_strings(out@) == Seq::new(i as nat, |j: int| None::<Seq<char>>),
                    Some(h) => h.wf() && opt_strings(out@) == Seq::new(
                        i as nat,
                        |j: int| if h@.contains_key(fs[j]) { Some(h@[fs[j]]) } else { None },
                    ),
                },
            decreases fields@.len() - i,
        {
            let ghost pre = out@;
            let v = match hm {
                None => None,
                Some(h) => match h.get(&fields[i]) {
                    Some(s) => Some(s.clone()),
                    None => None,
                },
            };
            out.push(v);
            assert(opt_strings(out@) =~= opt_strings(pre).push(match v {
                Some(s) => Some(s@),
                None => None,
            }));
            proof {
                match hm {
                    None => {
                        assert(opt_strings(out@) =~= Seq::new((i + 1) as nat, |j: int| None::<Seq<char>>));
                    },
                    Some(h) => {
                        assert(fs[i as int] == fields@[i as int]@);
                        assert(opt_strings(out@) =~= Seq::new(
                            (i + 1) as nat,
                            |j: int| if h@.contains_key(fs[j]) { Some(h@[fs[j]]) } else { None },
                        ));
                    },
                }
            }
            i = i + 1;
        }
        Ok(out)
    }

    /// Values of several fields of a hash.
    pub fn hmget(&self, key: &str, fields: &[String]) -> (r: KvResult<Vec<Option<String>>>)
        requires
            self.wf(),
        ensures
            exists|t: i64| t >= self.clock() && hmget_reply(self@, key@, string_seq(fields@), t as int, r),
    {
        let now = self.next_time();
        self.hmget_at(key, fields, now)
    }
}

} // verus!
