//! String commands: SET, SETNX, GET, GETSET, INCRBY, APPEND, MSET, MGET.
use vstd::prelude::*;
use vstd::string::StringSliceAdditionalSpecFns;
use crate::entry::{DataType, Entry, EntryView, ValueView};
use crate::error::{KvError, KvResult};
use crate::store::{KvStore, StoreView, evicted, lemma_put_back, lemma_take_dead, lemma_take_then_put, lemma_with_entry_placed, lemma_written, live_entry, purge_key, shard_of, touched, with_entry, written};
use crate::seqs::string_seq;
use crate::text::{decimal, i64_to_string, parse_i64, parse_i64_spec, push_str};

verus! {

/// A fresh string entry.
pub open spec fn string_entry(s: Seq<char>, expires: Option<i64>, now: int) -> EntryView {
    EntryView { value: ValueView::Str(s), expires_at_ms: expires, last_accessed_ms: now as i64 }
}

/// Whether an expiry request is refused at `now`: a time to live that is
/// not positive, or whose deadline does not fit in an `i64`.
pub open spec fn bad_expiry(expire_ms: Option<i64>, now: int) -> bool {
    match expire_ms {
        Some(ms) => ms <= 0 || now + ms > i64::MAX,
        None => false,
    }
}

/// The deadline of an accepted expiry request.
pub open spec fn deadline(expire_ms: Option<i64>, now: int) -> Option<i64> {
    match expire_ms {
        Some(ms) => Some((now + ms) as i64),
        None => None,
    }
}

/// SET at time `now`: the eviction check runs on the key's shard, then the
/// key holds the string with the requested expiry.
pub open spec fn set_post(
    old: StoreView,
    new: StoreView,
    k: Seq<char>,
    val: Seq<char>,
    expire_ms: Option<i64>,
    now: int,
    r: KvResult<()>,
) -> bool {
    if bad_expiry(expire_ms, now) {
        r == Err::<(), KvError>(KvError::InvalidExpiry) && new == old
    } else {
        &&& r == Ok::<(), KvError>(())
        &&& exists|mid: StoreView|
            evicted(old, shard_of(k), mid) && new == with_entry(
                mid,
                k,
                Some(string_entry(val, deadline(expire_ms, now), now)),
            )
    }
}

/// GET at time `now`: a live key is marked used (even when it holds another
/// type); an expired one is dropped.
pub open spec fn get_post(
    old: StoreView,
    new: StoreView,
    k: Seq<char>,
    now: int,
    r: KvResult<Option<String>>,
) -> bool {
    match live_entry(old, k, now) {
        None => new == purge_key(old, k, now) && r == Ok::<Option<String>, KvError>(None),
        Some(e) => {
            &&& new == with_entry(old, k, Some(touched(e, now)))
            &&& match e.value {
                ValueView::Str(s) => r matches Ok(Some(v)) && v@ == s,
                _ => r == Err::<Option<String>, KvError>(KvError::WrongType),
            }
        },
    }
}

/// SETNX at time `now`: stores the string only if the key is not live.
pub open spec fn setnx_post(
    old: StoreView,
    new: StoreView,
    k: Seq<char>,
    val: Seq<char>,
    now: int,
    r: bool,
) -> bool {
    if live_entry(old, k, now).is_some() {
        !r && new == old
    } else {
        r && exists|mid: StoreView|
            evicted(old, shard_of(k), mid) && new == with_entry(
                mid,
                k,
                Some(string_entry(val, None, now)),
            )
    }
}

/// GETSET at time `now`: hands back the old string and stores the new one
/// without expiry.
pub open spec fn getset_post(
    old: StoreView,
    new: StoreView,
    k: Seq<char>,
    val: Seq<char>,
    now: int,
    r: KvResult<Option<String>>,
) -> bool {
    let base = purge_key(old, k, now);
    match live_entry(old, k, now) {
        Some(e) if !(e.value is Str) => r == Err::<Option<String>, KvError>(KvError::WrongType)
            && new == old,
        _ => {
            &&& match live_entry(old, k, now) {
                Some(e) => r matches Ok(Some(v)) && ValueView::Str(v@) == e.value,
                None => r == Ok::<Option<String>, KvError>(None),
            }
            &&& exists|mid: StoreView|
                evicted(base, shard_of(k), mid) && new == with_entry(
                    mid,
                    k,
                    Some(string_entry(val, None, now)),
                )
        },
    }
}

/// INCRBY at time `now`: the key's integer (0 when absent) plus `delta`,
/// stored back as decimal text with the old expiry kept.
pub open spec fn incr_by_post(
    old: StoreView,
    new: StoreView,
    k: Seq<char>,
    delta: i64,
    now: int,
    r: KvResult<i64>,
) -> bool {
    match live_entry(old, k, now) {
        None => if 0 + delta < i64::MIN || 0 + delta > i64::MAX {
            r == Err::<i64, KvError>(KvError::Overflow) && new == purge_key(old, k, now)
        } else {
            r == Ok::<i64, KvError>(delta) && written(old, k, now, string_entry(decimal(delta as int), None, now), new)
        },
        Some(e) => match e.value {
            ValueView::Str(s) => match parse_i64_spec(s) {
                None => r == Err::<i64, KvError>(KvError::NotInteger) && new == old,
                Some(c) => if c + delta < i64::MIN || c + delta > i64::MAX {
                    r == Err::<i64, KvError>(KvError::Overflow) && new == old
                } else {
                    r == Ok::<i64, KvError>((c + delta) as i64) && new == with_entry(
                        old,
                        k,
                        Some(string_entry(decimal(c + delta), e.expires_at_ms, now)),
                    )
                },
            },
            _ => r == Err::<i64, KvError>(KvError::WrongType) && new == old,
        },
    }
}

/// APPEND at time `now`: the string grows by `suffix` (a missing key starts
/// empty); the result is its new length in bytes.
pub open spec fn append_post(
    old: StoreView,
    new: StoreView,
    k: Seq<char>,
    suffix: Seq<char>,
    now: int,
    r: KvResult<usize>,
) -> bool {
    match live_entry(old, k, now) {
        None => {
            &&& r == Ok::<usize, KvError>(vstd::utf8::encode_utf8(suffix).len() as usize)
            &&& exists|mid: StoreView|
                evicted(purge_key(old, k, now), shard_of(k), mid) && new == with_entry(
                    mid,
                    k,
                    Some(string_entry(suffix, None, now)),
                )
        },
        Some(e) => match e.value {
            ValueView::Str(s) => {
                &&& r == Ok::<usize, KvError>(vstd::utf8::encode_utf8(s + suffix).len() as usize)
                &&& new == with_entry(
                    old,
                    k,
                    Some(string_entry(s + suffix, e.expires_at_ms, now)),
                )
            },
            _ => r == Err::<usize, KvError>(KvError::WrongType) && new == with_entry(
                old,
                k,
                Some(touched(e, now)),
            ),
        },
    }
}

/// MSET at time `now`: each pair is SET in turn, without expiry, through a
/// chain of states from `old` to `new`.
pub open spec fn mset_post(old: StoreView, new: StoreView, pairs: Seq<(Seq<char>, Seq<char>)>, now: int) -> bool {
    exists|states: Seq<StoreView>| mset_chain(states, old, new, pairs, now)
}

/// `states` leads from `old` to `new`, one SET per pair.
pub open spec fn mset_chain(
    states: Seq<StoreView>,
    old: StoreView,
    new: StoreView,
    pairs: Seq<(Seq<char>, Seq<char>)>,
    now: int,
) -> bool {
    &&& states.len() == pairs.len() + 1
    &&& states[0] == old
    &&& states.last() == new
    &&& forall|i: int|
        0 <= i < pairs.len() ==> set_post(
            #[trigger] states[i],
            states[i + 1],
            pairs[i].0,
            pairs[i].1,
            None,
            now,
            Ok(()),
        )
}

/// MGET at time `now`: each key is read in turn by GET; a key that holds
/// another type reads as absent.
pub open spec fn mget_post(
    old: StoreView,
    new: StoreView,
    keys: Seq<Seq<char>>,
    now: int,
    out: Seq<Option<Seq<char>>>,
) -> bool
    decreases keys.len(),
{
    if keys.len() == 0 {
        new == old && out.len() == 0
    } else {
        out.len() == keys.len() && exists|mid: StoreView, r: KvResult<Option<String>>|
            mget_post(old, mid, keys.drop_last(), now, out.drop_last()) && get_post(
                mid,
                new,
                keys.last(),
                now,
                r,
            ) && out.last() == match r {
                Ok(Some(v)) => Some(v@),
                _ => None,
            }
    }
}

/// The strings of a vector of optional strings.
pub open spec fn opt_strings(v: Seq<Option<String>>) -> Seq<Option<Seq<char>>> {
    v.map_values(|o: Option<String>| match o {
        Some(s) => Some(s@),
        None => None,
    })
}

/// The strings of pairs of strings.
pub open spec fn string_pairs(v: Seq<(String, String)>) -> Seq<(Seq<char>, Seq<char>)> {
    v.map_values(|p: (String, String)| (p.0@, p.1@))
}

impl KvStore {
    /// SET at time `now`.
    pub fn set_at(&mut self, key: String, val: String, expire_ms: Option<i64>, now: i64) -> (r: KvResult<()>)
        requires
            old(self).wf(),
            now >= 0,
        ensures
            final(self).wf(),
            set_post(old(self)@, final(self)@, key@, val@, expire_ms, now as int, r),
    {
        let exp = match expire_ms {
            Some(ms) => {
                if ms <= 0 || now > i64::MAX - ms {
                    return Err(KvError::InvalidExpiry);
                }
                Some(now + ms)
            },
            None => None,
        };
        let ghost pre = self@;
        self.evict_for(&key);
        let ghost mid = self@;
        let e = Entry { value: DataType::String(val), expires_at_ms: exp, last_accessed_ms: now };
        self.put(key, e);
        Ok(())
    }

    /// Sets a string value with an optional expiry in milliseconds.
    pub fn set(&mut self, key: String, val: String, expire_ms: Option<i64>) -> (r: KvResult<()>)
        requires
            old(self).wf(),
        ensures
            final(self).wf(),
            final(self).clock() >= old(self).clock(),
            set_post(old(self)@, final(self)@, key@, val@, expire_ms, final(self).clock() as int, r),
    {
        let now = self.next_time();
        let r = self.set_at(key, val, expire_ms, now);
        self.set_clock(now);
        r
    }

    /// SETNX at time `now`.
    pub fn setnx_at(&mut self, key: String, val: String, now: i64) -> (r: bool)
        requires
            old(self).wf(),
        ensures
            final(self).wf(),
            setnx_post(old(self)@, final(self)@, key@, val@, now as int, r),
    {
        if self.peek(&key, now).is_some() {
            return false;
        }
        self.evict_for(&key);
        let e = Entry::new_at(DataType::String(val), now);
        self.put(key, e);
        true
    }

    /// Sets a string only if the key does not exist.
    pub fn setnx(&mut self, key: String, val: String) -> (r: bool)
        requires
            old(self).wf(),
        ensures
            final(self).wf(),
            final(self).clock() >= old(self).clock(),
            setnx_post(old(self)@, final(self)@, key@, val@, final(self).clock() as int, r),
    {
        let now = self.next_time();
        let r = self.setnx_at(key, val, now);
        self.set_clock(now);
        r
    }

    /// GET at time `now`.
    pub fn get_at(&mut self, key: &str, now: i64) -> (r: KvResult<Option<String>>)
        requires
            old(self).wf(),
        ensures
            final(self).wf(),
            get_post(old(self)@, final(self)@, key@, now as int, r),
    {
        let k = key.to_owned();
        proof {
            old(self).lemma_well_placed();
        }
        match self.take(&k, now) {
            None => {
                proof {
                    lemma_take_dead(old(self)@, k@, now as int);
                }
                Ok(None)
            },
            Some(mut e) => {
                e.last_accessed_ms = now;
                let r = match &e.value {
                    DataType::String(v) => Ok(Some(v.clone())),
                    _ => Err(KvError::WrongType),
                };
                self.put(k, e);
                proof {
                    lemma_take_then_put(old(self)@, key@, e@);
                }
                r
            },
        }
    }

    /// Gets a string value.
    pub fn get(&mut self, key: &str) -> (r: KvResult<Option<String>>)
        requires
            old(self).wf(),
        ensures
            final(self).wf(),
            final(self).clock() >= old(self).clock(),
            get_post(old(self)@, final(self)@, key@, final(self).clock() as int, r),
    {
        let now = self.next_time();
        let r = self.get_at(key, now);
        self.set_clock(now);
        r
    }

    /// GETSET at time `now`.
    pub fn getset_at(&mut self, key: String, new_val: String, now: i64) -> (r: KvResult<Option<String>>)
        requires
            old(self).wf(),
        ensures
            final(self).wf(),
            getset_post(old(self)@, final(self)@, key@, new_val@, now as int, r),
    {
        proof {
            old(self).lemma_well_placed();
        }
        let old_val = match self.take(&key, now) {
            None => {
                proof {
                    lemma_take_dead(old(self)@, key@, now as int);
                }
                None
            },
            Some(e) => {
                let ghost ev = e@;
                match &e.value {
                    DataType::String(v) => {
                        let v2 = v.clone();
                        self.put(key.clone(), e);
                        proof {
                            lemma_take_then_put(old(self)@, key@, ev);
                            lemma_put_back(old(self)@, key@, ev);
                        }
                        Some(v2)
                    },
                    _ => {
                        self.put(key.clone(), e);
                        proof {
                            lemma_take_then_put(old(self)@, key@, ev);
                            lemma_put_back(old(self)@, key@, ev);
                        }
                        return Err(KvError::WrongType);
                    },
                }
            },
        };
        assert(self@ == purge_key(old(self)@, key@, now as int));
        self.evict_for(&key);
        let e = Entry::new_at(DataType::String(new_val), now);
        self.put(key, e);
        Ok(old_val)
    }

    /// Atomically sets a string and returns the old one.
    pub fn getset(&mut self, key: String, new_val: String) -> (r: KvResult<Option<String>>)
        requires
            old(self).wf(),
        ensures
            final(self).wf(),
            final(self).clock() >= old(self).clock(),
            getset_post(old(self)@, final(self)@, key@, new_val@, final(self).clock() as int, r),
    {
        let now = self.next_time();
        let r = self.getset_at(key, new_val, now);
        self.set_clock(now);
        r
    }

    /// INCRBY at time `now`.
    pub fn incr_by_at(&mut self, key: &str, delta: i64, now: i64) -> (r: KvResult<i64>)
        requires
            old(self).wf(),
        ensures
            final(self).wf(),
            incr_by_post(old(self)@, final(self)@, key@, delta, now as int, r),
    {
        let k = key.to_owned();
        proof {
            old(self).lemma_well_placed();
        }
        let (cur, exp, was_live) = match self.take(&k, now) {
            None => {
                proof {
                    lemma_take_dead(old(self)@, k@, now as int);
                }
                (0i64, None, false)
            },
            Some(e) => {
                let ghost ev = e@;
                let exp = e.expires_at_ms;
                let parsed = match &e.value {
                    DataType::String(v) => Ok(parse_i64(v.as_str())),
                    _ => Err(KvError::WrongType),
                };
                self.put(k.clone(), e);
                proof {
                    lemma_take_then_put(old(self)@, k@, ev);
                    lemma_put_back(old(self)@, k@, ev);
                }
                match parsed {
                    Ok(Some(c)) => (c, exp, true),
                    Ok(None) => return Err(KvError::NotInteger),
                    Err(err) => return Err(err),
                }
            },
        };
        let new_val = match cur.checked_add(delta) {
            Some(n) => n,
            None => return Err(KvError::Overflow),
        };
        let text = i64_to_string(new_val);
        let e = Entry { value: DataType::String(text), expires_at_ms: exp, last_accessed_ms: now };
        if was_live {
            self.put(k, e);
            proof {
                lemma_take_then_put(old(self)@, key@, e@);
            }
        } else {
            proof {
                lemma_with_entry_placed(old(self)@, key@, None);
            }
            self.evict_for(&k);
            let ghost after = self@;
            self.put(k, e);
            proof {
                lemma_written(old(self)@, after, key@, now as int, false, e@);
            }
        }
        Ok(new_val)
    }

    /// Adds `delta` to the integer stored at a key.
    pub fn incr_by(&mut self, key: &str, delta: i64) -> (r: KvResult<i64>)
        requires
            old(self).wf(),
        ensures
            final(self).wf(),
            final(self).clock() >= old(self).clock(),
            incr_by_post(old(self)@, final(self)@, key@, delta, final(self).clock() as int, r),
    {
        let now = self.next_time();
        let r = self.incr_by_at(key, delta, now);
        self.set_clock(now);
        r
    }

    /// APPEND at time `now`.
    pub fn append_at(&mut self, key: String, suffix: String, now: i64) -> (r: KvResult<usize>)
        requires
            old(self).wf(),
        ensures
            final(self).wf(),
            append_post(old(self)@, final(self)@, key@, suffix@, now as int, r),
    {
        proof {
            old(self).lemma_well_placed();
        }
        match self.take(&key, now) {
            None => {
                proof {
                    lemma_take_dead(old(self)@, key@, now as int);
                }
                let len = suffix.as_str().len();
                self.evict_for(&key);
                let e = Entry::new_at(DataType::String(suffix), now);
                self.put(key, e);
                Ok(len)
            },
            Some(mut e) => {
                let ghost ev = e@;
                e.last_accessed_ms = now;
                let r = match &mut e.value {
                    DataType::String(v) => {
                        push_str(v, suffix.as_str());
                        Ok(v.as_str().len())
                    },
                    _ => Err(KvError::WrongType),
                };
                self.put(key.clone(), e);
                proof {
                    lemma_take_then_put(old(self)@, key@, e@);
                }
                r
            },
        }
    }

    /// Appends to a string; returns the new length in bytes.
    pub fn append(&mut self, key: String, suffix: String) -> (r: KvResult<usize>)
        requires
            old(self).wf(),
        ensures
            final(self).wf(),
            final(self).clock() >= old(self).clock(),
            append_post(old(self)@, final(self)@, key@, suffix@, final(self).clock() as int, r),
    {
        let now = self.next_time();
        let r = self.append_at(key, suffix, now);
        self.set_clock(now);
        r
    }

    /// MSET at time `now`.
    pub fn mset_at(&mut self, pairs: Vec<(String, String)>, now: i64)
        requires
            old(self).wf(),
            now >= 0,
        ensures
            final(self).wf(),
            mset_post(old(self)@, final(self)@, string_pairs(pairs@), now as int),
    {
        let ghost ps = string_pairs(pairs@);
        let ghost mut states: Seq<StoreView> = seq![self@];
        let mut i: usize = 0;
        while i < pairs.len()
            invariant
                self.wf(),
                now >= 0,
                i <= pairs@.len(),
                ps == string_pairs(pairs@),
                mset_chain(states, old(self)@, self@, ps.take(i as int), now as int),
            decreases pairs@.len() - i,
        {
            let ghost mid = self@;
            let k = pairs[i].0.clone();
            let v = pairs[i].1.clone();
            let ghost kv = k@;
            let ghost vv = v@;
            let r = self.set_at(k, v, None, now);
            assert(r == Ok::<(), KvError>(()));
            assert(ps[i as int] == (kv, vv));
            proof {
                let ghost prev = states;
                states = states.push(self@);
                assert forall|j: int| 0 <= j < i + 1 implies set_post(
                    #[trigger] states[j],
                    states[j + 1],
                    ps.take(i + 1)[j].0,
                    ps.take(i + 1)[j].1,
                    None,
                    now as int,
                    Ok(()),
                ) by {
                    if j < i {
                        assert(states[j] == prev[j] && states[j + 1] == prev[j + 1]);
                        assert(ps.take(i + 1)[j] == ps.take(i as int)[j]);
                    }
                }
            }
            i = i + 1;
        }
        assert(ps.take(pairs@.len() as int) =~= ps);
    }

    /// Sets several string values.
    pub fn mset(&mut self, pairs: Vec<(String, String)>)
        requires
            old(self).wf(),
        ensures
            final(self).wf(),
            final(self).clock() >= old(self).clock(),
            mset_post(old(self)@, final(self)@, string_pairs(pairs@), final(self).clock() as int),
    {
        let now = self.next_time();
        let r = self.mset_at(pairs, now);
        self.set_clock(now);
        r
    }

    /// MGET at time `now`.
    pub fn mget_at(&mut self, keys: &[String], now: i64) -> (out: Vec<Option<String>>)
        requires
            old(self).wf(),
        ensures
            final(self).wf(),
            mget_post(old(self)@, final(self)@, string_seq(keys@), now as int, opt_strings(out@)),
    {
        let ghost ks = string_seq(keys@);
        let mut out: Vec<Option<String>> = Vec::new();
        let mut i: usize = 0;
        assert(ks.take(0) =~= Seq::<Seq<char>>::empty());
        assert(opt_strings(out@) =~= Seq::<Option<Seq<char>>>::empty());
        while i < keys.len()
            invariant
                self.wf(),
                i <= keys@.len(),
                out@.len() == i,
                ks == string_seq(keys@),
                mget_post(old(self)@, self@, ks.take(i as int), now as int, opt_strings(out@)),
            decreases keys@.len() - i,
        {
            let ghost pre_out = opt_strings(out@);
            let r = self.get_at(keys[i].as_str(), now);
            let ghost rr = r;
            let v = match r {
                Ok(v) => v,
                Err(_) => None,
            };
            out.push(v);
            assert(ks.take(i + 1).drop_last() =~= ks.take(i as int));
            assert(ks.take(i + 1).last() == ks[i as int]);
            assert(opt_strings(out@).drop_last() =~= pre_out);
            i = i + 1;
        }
        assert(ks.take(keys@.len() as int) =~= ks);
        out
    }

    /// Gets several string values; a key of another type reads as absent.
    pub fn mget(&mut self, keys: &[String]) -> (out: Vec<Option<String>>)
        requires
            old(self).wf(),
        ensures
            final(self).wf(),
            final(self).clock() >= old(self).clock(),
            mget_post(old(self)@, final(self)@, string_seq(keys@), final(self).clock() as int, opt_strings(out@)),
    {
        let now = self.next_time();
        let r = self.mget_at(keys, now);
        self.set_clock(now);
        r
    }
}

} // verus!
