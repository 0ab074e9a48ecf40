//! Commands on keys of any type: DEL, EXISTS, TYPE, EXPIRE, PERSIST, TTL,
//! PTTL, RENAME.
use vstd::prelude::*;
use crate::entry::{EntryView, kind_name_of, pttl_at};
use crate::error::{KvError, KvResult};
use crate::seqs::{lemma_take_step_contains, string_seq};
use crate::store::{KvStore, StoreView, entry_of, lemma_entry_of_with_entry, lemma_take_dead, lemma_take_then_put, lemma_with_entry_placed, live_entry, purge_key, well_placed, with_entry};

verus! {

/// The store after removing each of `keys`.
pub open spec fn removed_keys(v: StoreView, keys: Seq<Seq<char>>) -> StoreView
    decreases keys.len(),
{
    if keys.len() == 0 {
        v
    } else {
        with_entry(removed_keys(v, keys.drop_last()), keys.last(), None)
    }
}

/// The distinct keys among `keys` that are live in `v` at `now`.
pub open spec fn live_among(v: StoreView, keys: Seq<Seq<char>>, now: int) -> Set<Seq<char>> {
    keys.to_set().filter(|k: Seq<char>| live_entry(v, k, now).is_some())
}

/// The reply of TYPE at `now`.
pub open spec fn type_reply(v: StoreView, k: Seq<char>, now: int) -> Seq<char> {
    match live_entry(v, k, now) {
        None => "none"@,
        Some(e) => kind_name_of(e.value),
    }
}

/// EXPIRE at `now`: a time to live that is not positive, or whose deadline
/// does not fit in an `i64`, is refused; a live key gets the deadline
/// `now + ttl`.
pub open spec fn expire_post(
    old: StoreView,
    new: StoreView,
    k: Seq<char>,
    ttl_ms: i64,
    now: int,
    r: KvResult<bool>,
) -> bool {
    if ttl_ms <= 0 || now + ttl_ms > i64::MAX {
        r == Err::<bool, KvError>(KvError::InvalidExpiry) && new == old
    } else {
        match live_entry(old, k, now) {
            None => r == Ok::<bool, KvError>(false) && new == purge_key(old, k, now),
            Some(e) => r == Ok::<bool, KvError>(true) && new == with_entry(
                old,
                k,
                Some(EntryView { expires_at_ms: Some((now + ttl_ms) as i64), ..e }),
            ),
        }
    }
}

/// PERSIST at `now`: a live key loses its expiry.
pub open spec fn persist_post(old: StoreView, new: StoreView, k: Seq<char>, now: int, r: bool) -> bool {
    match live_entry(old, k, now) {
        None => !r && new == purge_key(old, k, now),
        Some(e) => r && new == with_entry(old, k, Some(EntryView { expires_at_ms: None, ..e })),
    }
}

/// The reply of PTTL at `now`: -2 for a key that is not live.
pub open spec fn pttl_reply(v: StoreView, k: Seq<char>, now: int) -> int {
    match live_entry(v, k, now) {
        None => -2,
        Some(e) => pttl_at(e, now),
    }
}

/// The reply of TTL at `now`: PTTL in whole seconds (rounded toward zero),
/// -1 and -2 kept.
pub open spec fn ttl_reply(v: StoreView, k: Seq<char>, now: int) -> int {
    match live_entry(v, k, now) {
        None => -2,
        Some(e) => {
            let p = pttl_at(e, now);
            if p == -1 {
                -1
            } else {
                p / 1000
            }
        },
    }
}

/// RENAME at `now`: a live `from` moves, with its expiry and last use, to
/// `to` (replacing what `to` held).
pub open spec fn rename_post(
    old: StoreView,
    new: StoreView,
    from: Seq<char>,
    to: Seq<char>,
    now: int,
    r: KvResult<()>,
) -> bool {
    match live_entry(old, from, now) {
        None => r == Err::<(), KvError>(KvError::NotFound) && new == purge_key(old, from, now),
        Some(e) => r == Ok::<(), KvError>(()) && new == with_entry(with_entry(old, from, None), to, Some(e)),
    }
}

impl KvStore {
    /// DEL at `now`: removes the keys, expired ones included; the result is
    /// how many distinct keys among them were live.
    pub fn del_at(&mut self, keys: &[String], now: i64) -> (n: i64)
        requires
            old(self).wf(),
        ensures
            final(self).wf(),
            final(self)@ == removed_keys(old(self)@, string_seq(keys@)),
            n == live_among(old(self)@, string_seq(keys@), now as int).len() as i64,
    {
        let ghost ks = string_seq(keys@);
        let ghost v0 = self@;
        let mut count: usize = 0;
        let ghost mut acc: Set<Seq<char>> = Set::empty();
        let mut i: usize = 0;
        proof {
            old(self).lemma_well_placed();
        }
        assert(acc =~= ks.take(0).to_set().filter(|k: Seq<char>| live_entry(v0, k, now as int).is_some()));
        while i < keys.len()
            invariant
                self.wf(),
                well_placed(self@),
                ks == string_seq(keys@),
                i <= keys@.len(),
                self@ == removed_keys(v0, ks.take(i as int)),
                forall|k: Seq<char>| #[trigger] entry_of(self@, k) == if ks.take(i as int).contains(k) {
                    None
                } else {
                    entry_of(v0, k)
                },
                acc == ks.take(i as int).to_set().filter(|k: Seq<char>| live_entry(v0, k, now as int).is_some()),
                acc.finite(),
                count == acc.len(),
                count <= i,
            decreases keys@.len() - i,
        {
            let ghost pre = self@;
            let ghost k = ks[i as int];
            let r = self.take_any(&keys[i]);
            assert(keys[i as int]@ == k);
            proof {
                lemma_with_entry_placed(pre, k, None);
                assert forall|x: Seq<char>| ks.take(i + 1).contains(x) <==> (ks.take(i as int).contains(x) || x == k) by {
                    lemma_take_step_contains(ks, i as int, x);
                }
                assert(ks.take(i + 1).drop_last() =~= ks.take(i as int));
                assert forall|x: Seq<char>| #[trigger] entry_of(self@, x) == if ks.take(i + 1).contains(x) {
                    None
                } else {
                    entry_of(v0, x)
                } by {
                    lemma_entry_of_with_entry(pre, k, None, x);
                }
            }
            let live = match &r {
                Some(e) => !e.is_expired_at(now),
                None => false,
            };
            if live {
                proof {
                    assert(!acc.contains(k));
                    acc = acc.insert(k);
                }
                count = count + 1;
            }
            assert(acc =~= ks.take(i + 1).to_set().filter(|x: Seq<char>| live_entry(v0, x, now as int).is_some()));
            i = i + 1;
        }
        assert(ks.take(keys@.len() as int) =~= ks);
        count as i64
    }

    /// Removes the keys, expired ones included; the result is how many
    /// distinct keys among them were live.
    pub fn del(&mut self, keys: &[String]) -> (n: i64)
        requires
            old(self).wf(),
        ensures
            final(self).wf(),
            final(self)@ == removed_keys(old(self)@, string_seq(keys@)),
            final(self).clock() >= old(self).clock(),
            n == live_among(old(self)@, string_seq(keys@), final(self).clock() as int).len() as i64,
    {
        let now = self.next_time();
        let r = self.del_at(keys, now);
        self.set_clock(now);
        r
    }

    /// EXISTS at `now`: whether the key is live.
    pub fn key_exists_at(&self, key: &str, now: i64) -> (b: bool)
        requires
            self.wf(),
        ensures
            b == live_entry(self@, key@, now as int).is_some(),
    {
        let k = key.to_owned();
        self.peek(&k, now).is_some()
    }

    /// Whether a key exists.
    pub fn key_exists(&self, key: &str) -> (b: bool)
        requires
            self.wf(),
        ensures
            exists|t: i64| t >= self.clock() && b == live_entry(self@, key@, t as int).is_some(),
    {
        let now = self.next_time();
        self.key_exists_at(key, now)
    }

    /// TYPE at `now`.
    pub fn type_of_at(&self, key: &str, now: i64) -> (r: &'static str)
        requires
            self.wf(),
        ensures
            r@ == type_reply(self@, key@, now as int),
    {
        let k = key.to_owned();
        match self.peek(&k, now) {
            None => "none",
            Some(e) => e.value.kind_name(),
        }
    }

    /// The type of a key: `string`, `list`, `hash`, `set`, `zset` or `none`.
    pub fn type_of(&self, key: &str) -> (r: &'static str)
        requires
            self.wf(),
        ensures
            exists|t: i64| t >= self.clock() && r@ == type_reply(self@, key@, t as int),
    {
        let now = self.next_time();
        self.type_of_at(key, now)
    }

    /// EXPIRE at `now`.
    pub fn expire_at(&mut self, key: &str, ttl_ms: i64, now: i64) -> (r: KvResult<bool>)
        requires
            old(self).wf(),
            now >= 0,
        ensures
            final(self).wf(),
            expire_post(old(self)@, final(self)@, key@, ttl_ms, now as int, r),
    {
        if ttl_ms <= 0 || now > i64::MAX - ttl_ms {
            return Err(KvError::InvalidExpiry);
        }
        let k = key.to_owned();
        proof {
            old(self).lemma_well_placed();
        }
        match self.take(&k, now) {
            None => {
                proof {
                    lemma_take_dead(old(self)@, k@, now as int);
                }
                Ok(false)
            },
            Some(mut e) => {
                e.expires_at_ms = Some(now + ttl_ms);
                self.put(k, e);
                proof {
                    lemma_take_then_put(old(self)@, key@, e@);
                }
                Ok(true)
            },
        }
    }

    /// Sets a time to live in milliseconds on a key.
    pub fn expire(&mut self, key: &str, ttl_ms: i64) -> (r: KvResult<bool>)
        requires
            old(self).wf(),
        ensures
            final(self).wf(),
            final(self).clock() >= old(self).clock(),
            expire_post(old(self)@, final(self)@, key@, ttl_ms, final(self).clock() as int, r),
    {
        let now = self.next_time();
        let r = self.expire_at(key, ttl_ms, now);
        self.set_clock(now);
        r
    }

    /// PERSIST at `now`.
    pub fn persist_at(&mut self, key: &str, now: i64) -> (r: bool)
        requires
            old(self).wf(),
        ensures
            final(self).wf(),
            persist_post(old(self)@, final(self)@, key@, now as int, r),
    {
        let k = key.to_owned();
        proof {
            old(self).lemma_well_placed();
        }
        match self.take(&k, now) {
            None => {
                proof {
                    lemma_take_dead(old(self)@, k@, now as int);
                }
                false
            },
            Some(mut e) => {
                e.expires_at_ms = None;
                self.put(k, e);
                proof {
                    lemma_take_then_put(old(self)@, key@, e@);
                }
                true
            },
        }
    }

    /// Removes the time to live of a key.
    pub fn persist(&mut self, key: &str) -> (r: bool)
        requires
            old(self).wf(),
        ensures
            final(self).wf(),
            final(self).clock() >= old(self).clock(),
            persist_post(old(self)@, final(self)@, key@, final(self).clock() as int, r),
    {
        let now = self.next_time();
        let r = self.persist_at(key, now);
        self.set_clock(now);
        r
    }

    /// TTL at `now`.
    pub fn ttl_at(&self, key: &str, now: i64) -> (r: i64)
        requires
            self.wf(),
            now >= 0,
        ensures
            r == ttl_reply(self@, key@, now as int),
    {
        let k = key.to_owned();
        match self.peek(&k, now) {
            None => -2,
            Some(e) => {
                let p = e.pttl_at(now);
                if p == -1 {
                    -1
                } else {
                    p / 1000
                }
            },
        }
    }

    /// Remaining time to live in seconds (-1 without expiry, -2 if missing).
    pub fn ttl(&self, key: &str) -> (r: i64)
        requires
            self.wf(),
        ensures
            exists|t: i64| t >= self.clock() && r == ttl_reply(self@, key@, t as int),
    {
        let now = self.next_time();
        self.ttl_at(key, now)
    }

    /// PTTL at `now`.
    pub fn pttl_at(&self, key: &str, now: i64) -> (r: i64)
        requires
            self.wf(),
            now >= 0,
        ensures
            r == pttl_reply(self@, key@, now as int),
    {
        let k = key.to_owned();
        match self.peek(&k, now) {
            None => -2,
            Some(e) => e.pttl_at(now),
        }
    }

    /// Remaining time to live in milliseconds (-1 without expiry, -2 if
    /// missing).
    pub fn pttl(&self, key: &str) -> (r: i64)
        requires
            self.wf(),
        ensures
            exists|t: i64| t >= self.clock() && r == pttl_reply(self@, key@, t as int),
    {
        let now = self.next_time();
        self.pttl_at(key, now)
    }

    /// RENAME at `now`.
    pub fn rename_at(&mut self, from: &str, to: String, now: i64) -> (r: KvResult<()>)
        requires
            old(self).wf(),
        ensures
            final(self).wf(),
            rename_post(old(self)@, final(self)@, from@, to@, now as int, r),
    {
        let k = from.to_owned();
        proof {
            old(self).lemma_well_placed();
        }
        match self.take(&k, now) {
            None => {
                proof {
                    lemma_take_dead(old(self)@, k@, now as int);
                }
                Err(KvError::NotFound)
            },
            Some(e) => {
                self.put(to, e);
                Ok(())
            },
        }
    }

    /// Renames a key.
    pub fn rename(&mut self, from: &str, to: String) -> (r: KvResult<()>)
        requires
            old(self).wf(),
        ensures
            final(self).wf(),
            final(self).clock() >= old(self).clock(),
            rename_post(old(self)@, final(self)@, from@, to@, final(self).clock() as int, r),
    {
        let now = self.next_time();
        let r = self.rename_at(from, to, now);
        self.set_clock(now);
        r
    }
}

} // verus!
