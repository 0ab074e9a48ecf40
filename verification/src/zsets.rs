//! Sorted-set commands: ZADD, ZREM, ZSCORE, ZCARD, ZRANK, ZRANGE,
//! ZRANGEBYSCORE, ZCOUNT, ZPOPMIN, ZPOPMAX, and the score store that
//! ZINCRBY ends with. Scores are `f64` bit patterns (see `crate::zorder`);
//! turning text into scores and scores into text is left to the caller.
use vstd::prelude::*;
use crate::entry::{DataType, Entry, EntryView, ValueView};
use crate::error::{KvError, KvResult};
use crate::lists::{norm_index, range_end};
use crate::seqs::{lemma_take_step_contains, string_seq};
use crate::store::{KvStore, StoreView, entry_for_write, lemma_put_back, lemma_take_dead, lemma_take_then_put, lemma_written, live_entry, purge_key, with_entry, written};
use crate::strmap::StrMap;
use crate::text::str_eq;
use crate::zorder::{Score, is_listing, is_nan_bits, key_of, lemma_listing_covers, lemma_listing_rank, lemma_zlt_order, pairs_view, rank, score_key, sorted_entries, zlt};

verus! {

/// The sorted set a read command sees at `now`: `None` when the key is not
/// live, the error when it holds another type.
pub open spec fn zset_at(v: StoreView, k: Seq<char>, now: int) -> KvResult<Option<Map<Seq<char>, u64>>> {
    match live_entry(v, k, now) {
        None => Ok(None),
        Some(e) => match e.value {
            ValueView::ZSet(z) => Ok(Some(z)),
            _ => Err(KvError::WrongType),
        },
    }
}

/// The score and member pairs of a slice, as bits and texts.
pub open spec fn score_pairs(v: Seq<(u64, String)>) -> Seq<(u64, Seq<char>)> {
    v.map_values(|p: (u64, String)| (p.0, p.1@))
}

/// `z` after setting each pair in turn.
pub open spec fn zinsert_all(z: Map<Seq<char>, u64>, pairs: Seq<(u64, Seq<char>)>) -> Map<Seq<char>, u64>
    decreases pairs.len(),
{
    if pairs.len() == 0 {
        z
    } else {
        zinsert_all(z, pairs.drop_last()).insert(pairs.last().1, pairs.last().0)
    }
}

/// ZADD at `now`: each pair sets its member's score, later pairs winning;
/// the result is how many members the set gained (a member named twice
/// counts once). A key
/// that is not live starts as an empty sorted set; the entry is marked used.
pub open spec fn zadd_post(
    old: StoreView,
    new: StoreView,
    k: Seq<char>,
    pairs: Seq<(u64, Seq<char>)>,
    now: int,
    r: KvResult<i64>,
) -> bool {
    let b = entry_for_write(old, k, now, ValueView::ZSet(Map::empty()));
    match b.value {
        ValueView::ZSet(z) => {
            &&& r == Ok::<i64, KvError>((zinsert_all(z, pairs).len() - z.len()) as i64)
            &&& written(old, k, now, EntryView { value: ValueView::ZSet(zinsert_all(z, pairs)), ..b }, new)
        },
        _ => r == Err::<i64, KvError>(KvError::WrongType) && new == with_entry(old, k, Some(b)),
    }
}

/// ZREM at `now`: the members leave the set; the result is how many of
/// them were there.
pub open spec fn zrem_post(
    old: StoreView,
    new: StoreView,
    k: Seq<char>,
    members: Seq<Seq<char>>,
    now: int,
    r: KvResult<i64>,
) -> bool {
    match live_entry(old, k, now) {
        None => r == Ok::<i64, KvError>(0) && new == purge_key(old, k, now),
        Some(e) => match e.value {
            ValueView::ZSet(z) => {
                &&& r == Ok::<i64, KvError>(members.to_set().intersect(z.dom()).len() as i64)
                &&& new == with_entry(old, k, Some(EntryView { value: ValueView::ZSet(z.remove_keys(members.to_set())), ..e }))
            },
            _ => r == Err::<i64, KvError>(KvError::WrongType) && new == old,
        },
    }
}

/// Storing a score at `now`: the member gets the score; a key that is not
/// live starts as an empty sorted set. A live entry is not marked used.
pub open spec fn zput_post(
    old: StoreView,
    new: StoreView,
    k: Seq<char>,
    m: Seq<char>,
    score: u64,
    now: int,
    r: KvResult<()>,
) -> bool {
    let b = match live_entry(old, k, now) {
        Some(e) => e,
        None => EntryView { value: ValueView::ZSet(Map::empty()), expires_at_ms: None, last_accessed_ms: now as i64 },
    };
    match b.value {
        ValueView::ZSet(z) => {
            &&& r == Ok::<(), KvError>(())
            &&& written(old, k, now, EntryView { value: ValueView::ZSet(z.insert(m, score)), ..b }, new)
        },
        _ => r == Err::<(), KvError>(KvError::WrongType) && new == with_entry(old, k, Some(b)),
    }
}

/// The reply of ZSCORE at `now`.
pub open spec fn zscore_reply(v: StoreView, k: Seq<char>, m: Seq<char>, now: int, r: KvResult<Option<u64>>) -> bool {
    match zset_at(v, k, now) {
        Ok(None) => r == Ok::<Option<u64>, KvError>(None),
        Ok(Some(z)) => r == Ok::<Option<u64>, KvError>(if z.contains_key(m) { Some(z[m]) } else { None }),
        Err(e) => r == Err::<Option<u64>, KvError>(e),
    }
}

/// The reply of ZCARD at `now`.
pub open spec fn zcard_reply(v: StoreView, k: Seq<char>, now: int, r: KvResult<usize>) -> bool {
    match zset_at(v, k, now) {
        Ok(None) => r == Ok::<usize, KvError>(0),
        Ok(Some(z)) => r == Ok::<usize, KvError>(z.len() as usize),
        Err(e) => r == Err::<usize, KvError>(e),
    }
}

/// The reply of ZRANK (of ZREVRANK when `reverse`) at `now`: the member's
/// position in increasing (decreasing) order.
pub open spec fn zrank_reply(v: StoreView, k: Seq<char>, m: Seq<char>, reverse: bool, now: int, r: KvResult<Option<i64>>) -> bool {
    match zset_at(v, k, now) {
        Ok(None) => r == Ok::<Option<i64>, KvError>(None),
        Ok(Some(z)) => r == Ok::<Option<i64>, KvError>(
            if !z.contains_key(m) {
                None
            } else if reverse {
                Some((z.len() - 1 - rank(z, m)) as i64)
            } else {
                Some(rank(z, m) as i64)
            },
        ),
        Err(e) => r == Err::<Option<i64>, KvError>(e),
    }
}

/// The first position of a Redis-style range over `n` items.
pub open spec fn range_start(start: int, n: int) -> int {
    norm_index(start, n)
}

/// Member `m` of `z` has score `sc` and stands at position `pos` of the
/// increasing order.
pub open spec fn placed(z: Map<Seq<char>, u64>, m: Seq<char>, sc: u64, pos: int) -> bool {
    &&& z.contains_key(m)
    &&& z[m] == sc
    &&& rank(z, m) == pos
}

/// The position in increasing order of the `j`-th item of a range that
/// starts at `s`, over `n` items, read backwards when `rev`.
pub open spec fn range_pos(n: int, s: int, j: int, rev: bool) -> int {
    if rev {
        n - 1 - (s + j)
    } else {
        s + j
    }
}

/// `out` holds the entries of `z` at positions `start..=stop` of the
/// increasing order (of the decreasing one when `rev`), negative positions
/// counting from the end.
pub open spec fn zrange_ok(out: Seq<(Seq<char>, u64)>, z: Map<Seq<char>, u64>, start: int, stop: int, rev: bool) -> bool {
    let n = z.len() as int;
    let s = range_start(start, n);
    let e = range_end(stop, n);
    &&& out.len() == if s >= e { 0 } else { e - s }
    &&& forall|i: int| 0 <= i < out.len() ==> placed(z, #[trigger] out[i].0, out[i].1, range_pos(n, s, i, rev))
}

/// The reply of ZRANGE (of ZREVRANGE when `rev`) at `now`.
pub open spec fn zrange_reply(v: StoreView, k: Seq<char>, start: int, stop: int, rev: bool, now: int, r: KvResult<Vec<(String, u64)>>) -> bool {
    match zset_at(v, k, now) {
        Ok(None) => r matches Ok(out) && out@.len() == 0,
        Ok(Some(z)) => r matches Ok(out) && zrange_ok(pairs_view(out@), z, start, stop, rev),
        Err(e) => r matches Err(x) && x == e,
    }
}

/// Whether a score lies between `min` and `max`, both included, as the
/// floats compare: a NaN bound admits nothing.
pub open spec fn in_score_range(s: u64, min: u64, max: u64) -> bool {
    &&& !is_nan_bits(min)
    &&& !is_nan_bits(max)
    &&& score_key(min) <= score_key(s)
    &&& score_key(s) <= score_key(max)
}

/// The members of `z` whose score lies between `min` and `max`.
pub open spec fn members_in_range(z: Map<Seq<char>, u64>, min: u64, max: u64) -> Set<Seq<char>> {
    z.dom().filter(|m: Seq<char>| in_score_range(z[m], min, max))
}

/// `out` lists, in increasing order, exactly the entries of `z` scored
/// between `min` and `max`.
pub open spec fn zbyscore_ok(out: Seq<(Seq<char>, u64)>, z: Map<Seq<char>, u64>, min: u64, max: u64) -> bool {
    &&& out.len() == members_in_range(z, min, max).len()
    &&& forall|i: int| 0 <= i < out.len() ==> #[trigger] z.contains_key(out[i].0) && z[out[i].0] == out[i].1
        && in_score_range(out[i].1, min, max)
    &&& forall|i: int, j: int| 0 <= i < j < out.len() ==> zlt(#[trigger] out[i].1, out[i].0, #[trigger] out[j].1, out[j].0)
    &&& forall|m: Seq<char>| #[trigger] members_in_range(z, min, max).contains(m) ==> exists|i: int| 0 <= i < out.len() && out[i].0 == m
}

/// The reply of ZRANGEBYSCORE at `now`.
pub open spec fn zrangebyscore_reply(v: StoreView, k: Seq<char>, min: u64, max: u64, now: int, r: KvResult<Vec<(String, u64)>>) -> bool {
    match zset_at(v, k, now) {
        Ok(None) => r matches Ok(out) && out@.len() == 0,
        Ok(Some(z)) => r matches Ok(out) && zbyscore_ok(pairs_view(out@), z, min, max),
        Err(e) => r matches Err(x) && x == e,
    }
}

/// The reply of ZCOUNT at `now`.
pub open spec fn zcount_reply(v: StoreView, k: Seq<char>, min: u64, max: u64, now: int, r: KvResult<i64>) -> bool {
    match zset_at(v, k, now) {
        Ok(None) => r == Ok::<i64, KvError>(0),
        Ok(Some(z)) => r == Ok::<i64, KvError>(members_in_range(z, min, max).len() as i64),
        Err(e) => r == Err::<i64, KvError>(e),
    }
}

/// ZPOPMIN (ZPOPMAX when `max`) at `now`: the first (last) entry in order
/// leaves the set and is handed back.
pub open spec fn zpop_post(old: StoreView, new: StoreView, k: Seq<char>, max: bool, now: int, r: KvResult<Option<(String, u64)>>) -> bool {
    match live_entry(old, k, now) {
        None => r == Ok::<Option<(String, u64)>, KvError>(None) && new == purge_key(old, k, now),
        Some(e) => match e.value {
            ValueView::ZSet(z) => if z.len() == 0 {
                r == Ok::<Option<(String, u64)>, KvError>(None) && new == old
            } else {
                r matches Ok(Some(p)) && {
                    &&& z.contains_key(p.0@)
                    &&& z[p.0@] == p.1
                    &&& rank(z, p.0@) == if max { z.len() - 1 } else { 0 }
                    &&& new == with_entry(old, k, Some(EntryView { value: ValueView::ZSet(z.remove(p.0@)), ..e }))
                }
            },
            _ => r == Err::<Option<(String, u64)>, KvError>(KvError::WrongType) && new == old,
        },
    }
}

/// Whether a score lies between two bounds, as the floats compare.
pub fn score_in_range(s: u64, min: u64, max: u64) -> (r: bool)
    ensures
        r == in_score_range(s, min, max),
{
    if crate::zorder::is_nan(min) || crate::zorder::is_nan(max) {
        false
    } else {
        let k = key_of(s);
        key_of(min) <= k && k <= key_of(max)
    }
}

/// The bounds of the slice `start..=stop` over `n` items: empty when the
/// range is.
fn range_bounds(start: i64, stop: i64, n: usize) -> (r: (usize, usize))
    ensures
        r.0 <= r.1 <= n,
        range_start(start as int, n as int) < range_end(stop as int, n as int) ==> r.0 == range_start(start as int, n as int)
            && r.1 == range_end(stop as int, n as int),
        range_start(start as int, n as int) >= range_end(stop as int, n as int) ==> r.0 == r.1,
{
    let len = n as i128;
    let s: i128 = if start < 0 {
        let t = len + start as i128;
        if t >= 0 {
            t
        } else {
            0
        }
    } else {
        start as i128
    };
    let e0: i128 = if stop < 0 {
        len + stop as i128
    } else {
        stop as i128
    };
    let e: i128 = if e0 + 1 < len {
        e0 + 1
    } else {
        len
    };
    if s < e {
        (s as usize, e as usize)
    } else {
        (0, 0)
    }
}

/// The entries of a listing whose scores lie between `min` and `max`.
fn select_by_score(sorted: &Vec<(String, u64)>, z: Ghost<Map<Seq<char>, u64>>, min: u64, max: u64) -> (out: Vec<(String, u64)>)
    requires
        is_listing(pairs_view(sorted@), z@),
        z@.dom().finite(),
    ensures
        zbyscore_ok(pairs_view(out@), z@, min, max),
{
    let ghost sv = pairs_view(sorted@);
    let ghost zz = z@;
    let n = sorted.len();
    let mut out: Vec<(String, u64)> = Vec::new();
    let mut p: usize = 0;
    while p < n
        invariant
            n == sorted@.len(),
            sv == pairs_view(sorted@),
            zz == z@,
            is_listing(sv, zz),
            p <= n,
            forall|i: int| 0 <= i < out@.len() ==> #[trigger] zz.contains_key(out@[i].0@) && zz[out@[i].0@] == out@[i].1
                && in_score_range(out@[i].1, min, max),
            forall|i: int, j: int| 0 <= i < j < out@.len() ==> zlt(#[trigger] out@[i].1, out@[i].0@, #[trigger] out@[j].1, out@[j].0@),
            forall|i: int, q: int| 0 <= i < out@.len() && p <= q < n ==> zlt(#[trigger] out@[i].1, out@[i].0@, #[trigger] sv[q].1, sv[q].0),
            forall|q: int| 0 <= q < p && in_score_range(#[trigger] sv[q].1, min, max) ==> exists|i: int| 0 <= i < out@.len() && out@[i].0@ == sv[q].0,
        decreases n - p,
    {
        let sc = sorted[p].1;
        if score_in_range(sc, min, max) {
            let ghost pre = out@;
            out.push((sorted[p].0.clone(), sc));
            proof {
                assert(out@[pre.len() as int].0@ == sv[p as int].0);
                assert forall|i: int, q: int| 0 <= i < out@.len() && p + 1 <= q < n implies zlt(#[trigger] out@[i].1, out@[i].0@, #[trigger] sv[q].1, sv[q].0) by {
                    if i < pre.len() {
                        assert(out@[i] == pre[i]);
                    } else {
                        assert(zlt(sv[p as int].1, sv[p as int].0, sv[q].1, sv[q].0));
                    }
                }
                assert forall|i: int, j: int| 0 <= i < j < out@.len() implies zlt(#[trigger] out@[i].1, out@[i].0@, #[trigger] out@[j].1, out@[j].0@) by {
                    if j < pre.len() {
                        assert(out@[i] == pre[i] && out@[j] == pre[j]);
                    } else {
                        assert(out@[i] == pre[i]);
                        assert(zlt(pre[i].1, pre[i].0@, sv[p as int].1, sv[p as int].0));
                        assert(out@[j].1 == sv[p as int].1 && out@[j].0@ == sv[p as int].0);
                    }
                }
                assert forall|q: int| 0 <= q < p + 1 && in_score_range(#[trigger] sv[q].1, min, max) implies exists|i: int| 0 <= i < out@.len() && out@[i].0@ == sv[q].0 by {
                    if q < p {
                        let i = choose|i: int| 0 <= i < pre.len() && pre[i].0@ == sv[q].0;
                        assert(out@[i] == pre[i]);
                    } else {
                        assert(out@[pre.len() as int].0@ == sv[q].0);
                    }
                }
            }
        }
        p = p + 1;
    }
    proof {
        let ov = pairs_view(out@);
        let rng = members_in_range(zz, min, max);
        lemma_listing_covers(sv, zz);
        assert forall|m: Seq<char>| #[trigger] rng.contains(m) implies exists|i: int| 0 <= i < ov.len() && ov[i].0 == m by {
            assert(zz.contains_key(m));
            let q = choose|q: int| 0 <= q < sv.len() && sv[q].0 == m;
            assert(zz[sv[q].0] == sv[q].1);
            let i = choose|i: int| 0 <= i < out@.len() && out@[i].0@ == sv[q].0;
            assert(ov[i].0 == m);
        }
        let ms = ov.map_values(|e: (Seq<char>, u64)| e.0);
        assert forall|a: int, b: int| 0 <= a < b < ms.len() implies ms[a] != ms[b] by {
            assert(zlt(ov[a].1, ov[a].0, ov[b].1, ov[b].0));
            if ms[a] == ms[b] {
                assert(ov[a] == (out@[a].0@, out@[a].1) && ov[b] == (out@[b].0@, out@[b].1));
                assert(zz.contains_key(out@[a].0@) && zz.contains_key(out@[b].0@));
                lemma_zlt_order(ov[a].1, ov[a].0, ov[a].1, ov[a].0, ov[a].1, ov[a].0);
            }
        }
        assert(ms.no_duplicates());
        assert forall|m: Seq<char>| ms.to_set().contains(m) <==> rng.contains(m) by {
            if ms.to_set().contains(m) {
                let i = choose|i: int| 0 <= i < ms.len() && ms[i] == m;
                assert(ov[i].0 == m);
            }
            if rng.contains(m) {
                let i = choose|i: int| 0 <= i < ov.len() && ov[i].0 == m;
                assert(ms[i] == m);
            }
        }
        assert(ms.to_set() =~= rng);
        ms.unique_seq_to_set();
    }
    out
}

impl KvStore {
    /// The sorted set under `key` at `now`, or the reason there is none.
    fn zset_snapshot(&self, key: &String, now: i64) -> (r: KvResult<Option<&StrMap<Score>>>)
        requires
            self.wf(),
        ensures
            match r {
                Ok(Some(z)) => z.wf() && zset_at(self@, key@, now as int) == Ok::<Option<Map<Seq<char>, u64>>, KvError>(Some(z@)),
                Ok(None) => zset_at(self@, key@, now as int) == Ok::<Option<Map<Seq<char>, u64>>, KvError>(None),
                Err(e) => zset_at(self@, key@, now as int) == Err::<Option<Map<Seq<char>, u64>>, KvError>(e),
            },
    {
        match self.peek(key, now) {
            None => Ok(None),
            Some(e) => match &e.value {
                DataType::ZSet(z) => Ok(Some(z)),
                _ => Err(KvError::WrongType),
            },
        }
    }

    /// ZADD at `now`.
    pub fn zadd_at(&mut self, key: String, pairs: &[(u64, String)], now: i64) -> (r: KvResult<i64>)
        requires
            old(self).wf(),
            forall|i: int| 0 <= i < pairs@.len() ==> !is_nan_bits(#[trigger] pairs@[i].0),
        ensures
            final(self).wf(),
            zadd_post(old(self)@, final(self)@, key@, score_pairs(pairs@), now as int, r),
    {
        proof {
            old(self).lemma_well_placed();
        }
        let taken = self.take_for_write(&key, now);
        let was_live = taken.is_some();
        let ghost after = self@;
        let mut e = match taken {
            Some(e) => e,
            None => Entry::new_at(DataType::ZSet(StrMap::new()), now),
        };
        e.last_accessed_ms = now;
        let ghost ps = score_pairs(pairs@);
        let r = match &mut e.value {
            DataType::ZSet(map) => {
                let ghost z0 = map@;
                let mut added: usize = 0;
                let mut j: usize = 0;
                assert(ps.take(0) =~= Seq::<(u64, Seq<char>)>::empty());
                proof {
                    map.lemma_storage();
                }
                while j < pairs.len()
                    invariant
                        map.wf(),
                        ps == score_pairs(pairs@),
                        j <= pairs@.len(),
                        forall|q: int| 0 <= q < pairs@.len() ==> !is_nan_bits(#[trigger] pairs@[q].0),
                        map@ == zinsert_all(z0, ps.take(j as int)),
                        z0.dom().finite(),
                        added == map@.len() - z0.len(),
                        added <= j,
                    decreases pairs@.len() - j,
                {
                    assert(ps.take(j + 1).drop_last() =~= ps.take(j as int));
                    assert(pairs@[j as int].1@ == ps[j as int].1 && pairs@[j as int].0 == ps[j as int].0);
                    proof {
                        map.lemma_storage();
                    }
                    let fresh = !map.contains_key(&pairs[j].1);
                    map.insert(pairs[j].1.clone(), Score { bits: pairs[j].0 });
                    if fresh {
                        added = added + 1;
                    }
                    j = j + 1;
                }
                assert(ps.take(pairs@.len() as int) =~= ps);
                Ok(added as i64)
            },
            _ => Err(KvError::WrongType),
        };
        let ghost ev = e@;
        self.put(key, e);
        proof {
            lemma_written(old(self)@, after, key@, now as int, was_live, ev);
        }
        r
    }

    /// Sets the scores of members of a sorted set; how many members were new.
    pub fn zadd(&mut self, key: String, pairs: &[(u64, String)]) -> (r: KvResult<i64>)
        requires
            old(self).wf(),
            forall|i: int| 0 <= i < pairs@.len() ==> !is_nan_bits(#[trigger] pairs@[i].0),
        ensures
            final(self).wf(),
            final(self).clock() >= old(self).clock(),
            zadd_post(old(self)@, final(self)@, key@, score_pairs(pairs@), final(self).clock() as int, r),
    {
        let now = self.next_time();
        let r = self.zadd_at(key, pairs, now);
        self.set_clock(now);
        r
    }

    /// ZREM at `now`.
    pub fn zrem_at(&mut self, key: &str, members: &[String], now: i64) -> (r: KvResult<i64>)
        requires
            old(self).wf(),
        ensures
            final(self).wf(),
            zrem_post(old(self)@, final(self)@, key@, string_seq(members@), now as int, r),
    {
        let k = key.to_owned();
        proof {
            old(self).lemma_well_placed();
        }
        match self.take(&k, now) {
            None => {
                proof {
                    lemma_take_dead(old(self)@, k@, now as int);
                }
                Ok(0)
            },
            Some(mut e) => {
                let ghost e0 = e@;
                let ghost ms = string_seq(members@);
                let r = match &mut e.value {
                    DataType::ZSet(map) => {
                        let ghost z0 = map@;
                        let mut removed: usize = 0;
                        let mut i: usize = 0;
                        proof {
                            map.lemma_storage();
                        }
                        assert(ms.take(0).to_set() =~= Set::<Seq<char>>::empty());
                        assert(ms.take(0).to_set().intersect(z0.dom()) =~= Set::<Seq<char>>::empty());
                        assert(z0.remove_keys(ms.take(0).to_set()) =~= z0);
                        while i < members.len()
                            invariant
                                map.wf(),
                                z0.dom().finite(),
                                ms == string_seq(members@),
                                i <= members@.len(),
                                map@ == z0.remove_keys(ms.take(i as int).to_set()),
                                removed == ms.take(i as int).to_set().intersect(z0.dom()).len(),
                                removed <= i,
                            decreases members@.len() - i,
                        {
                            let ghost m = ms[i as int];
                            assert(members@[i as int]@ == m);
                            assert forall|x: Seq<char>| ms.take(i + 1).contains(x) <==> (ms.take(i as int).contains(x) || x == m) by {
                                lemma_take_step_contains(ms, i as int, x);
                            }
                            let was = map.remove(&members[i]);
                            proof {
                                vstd::set::axiom_set_intersect_finite(ms.take(i as int).to_set(), z0.dom());
                            }
                            if was.is_some() {
                                assert(!ms.take(i as int).to_set().intersect(z0.dom()).contains(m));
                                assert(ms.take(i + 1).to_set().intersect(z0.dom()) =~= ms.take(i as int).to_set().intersect(z0.dom()).insert(m));
                                removed = removed + 1;
                            } else {
                                assert(ms.take(i + 1).to_set().intersect(z0.dom()) =~= ms.take(i as int).to_set().intersect(z0.dom()));
                            }
                            assert(map@ =~= z0.remove_keys(ms.take(i + 1).to_set()));
                            i = i + 1;
                        }
                        assert(ms.take(members@.len() as int) =~= ms);
                        Ok(removed as i64)
                    },
                    _ => Err(KvError::WrongType),
                };
                let ghost ev = e@;
                self.put(k, e);
                proof {
                    lemma_take_then_put(old(self)@, key@, ev);
                    if r.is_err() {
                        lemma_put_back(old(self)@, key@, e0);
                    }
                }
                r
            },
        }
    }

    /// Removes members from a sorted set; how many were there.
    pub fn zrem(&mut self, key: &str, members: &[String]) -> (r: KvResult<i64>)
        requires
            old(self).wf(),
        ensures
            final(self).wf(),
            final(self).clock() >= old(self).clock(),
            zrem_post(old(self)@, final(self)@, key@, string_seq(members@), final(self).clock() as int, r),
    {
        let now = self.next_time();
        let r = self.zrem_at(key, members, now);
        self.set_clock(now);
        r
    }

    /// Stores a member's score at `now`.
    pub fn zset_put_score_at(&mut self, key: String, member: String, score: u64, now: i64) -> (r: KvResult<()>)
        requires
            old(self).wf(),
            !is_nan_bits(score),
        ensures
            final(self).wf(),
            zput_post(old(self)@, final(self)@, key@, member@, score, now as int, r),
    {
        proof {
            old(self).lemma_well_placed();
        }
        let taken = self.take_for_write(&key, now);
        let was_live = taken.is_some();
        let ghost after = self@;
        let mut e = match taken {
            Some(e) => e,
            None => Entry::new_at(DataType::ZSet(StrMap::new()), now),
        };
        let r = match &mut e.value {
            DataType::ZSet(map) => {
                map.insert(member, Score { bits: score });
                Ok(())
            },
            _ => Err(KvError::WrongType),
        };
        let ghost ev = e@;
        self.put(key, e);
        proof {
            lemma_written(old(self)@, after, key@, now as int, was_live, ev);
        }
        r
    }

    /// Stores a member's score, the last step of ZINCRBY.
    pub fn zset_put_score(&mut self, key: String, member: String, score: u64) -> (r: KvResult<()>)
        requires
            old(self).wf(),
            !is_nan_bits(score),
        ensures
            final(self).wf(),
            final(self).clock() >= old(self).clock(),
            zput_post(old(self)@, final(self)@, key@, member@, score, final(self).clock() as int, r),
    {
        let now = self.next_time();
        let r = self.zset_put_score_at(key, member, score, now);
        self.set_clock(now);
        r
    }
    /// ZSCORE at `now`.
    pub fn zscore_at(&self, key: &str, member: &str, now: i64) -> (r: KvResult<Option<u64>>)
        requires
            self.wf(),
        ensures
            zscore_reply(self@, key@, member@, now as int, r),
    {
        let k = key.to_owned();
        let m = member.to_owned();
        match self.zset_snapshot(&k, now) {
            Ok(None) => Ok(None),
            Ok(Some(z)) => match z.get(&m) {
                Some(sc) => Ok(Some(sc.bits)),
                None => Ok(None),
            },
            Err(e) => Err(e),
        }
    }

    /// The score of a member of a sorted set.
    pub fn zscore(&self, key: &str, member: &str) -> (r: KvResult<Option<u64>>)
        requires
            self.wf(),
        ensures
            exists|t: i64| t >= self.clock() && zscore_reply(self@, key@, member@, t as int, r),
    {
        let now = self.next_time();
        self.zscore_at(key, member, now)
    }

    /// ZCARD at `now`.
    pub fn zcard_at(&self, key: &str, now: i64) -> (r: KvResult<usize>)
        requires
            self.wf(),
        ensures
            zcard_reply(self@, key@, now as int, r),
    {
        let k = key.to_owned();
        match self.zset_snapshot(&k, now) {
            Ok(None) => Ok(0),
            Ok(Some(z)) => Ok(z.len()),
            Err(e) => Err(e),
        }
    }

    /// Number of members of a sorted set.
    pub fn zcard(&self, key: &str) -> (r: KvResult<usize>)
        requires
            self.wf(),
        ensures
            exists|t: i64| t >= self.clock() && zcard_reply(self@, key@, t as int, r),
    {
        let now = self.next_time();
        self.zcard_at(key, now)
    }

    /// ZRANK (ZREVRANK when `reverse`) at `now`.
    pub fn zrank_at(&self, key: &str, member: &str, reverse: bool, now: i64) -> (r: KvResult<Option<i64>>)
        requires
            self.wf(),
        ensures
            zrank_reply(self@, key@, member@, reverse, now as int, r),
    {
        let k = key.to_owned();
        match self.zset_snapshot(&k, now) {
            Ok(None) => Ok(None),
            Ok(Some(z)) => {
                proof {
                    z.lemma_storage();
                }
                let sorted = sorted_entries(z);
                let ghost sv = pairs_view(sorted@);
                let n = sorted.len();
                let mut p: usize = 0;
                while p < n && !str_eq(sorted[p].0.as_str(), member)
                    invariant
                        n == sorted@.len(),
                        sv == pairs_view(sorted@),
                        p <= n,
                        forall|q: int| 0 <= q < p ==> (#[trigger] sv[q]).0 != member@,
                    decreases n - p,
                {
                    p = p + 1;
                }
                if p == n {
                    proof {
                        lemma_listing_covers(sv, z@);
                        if z@.contains_key(member@) {
                            let q = choose|q: int| 0 <= q < sv.len() && sv[q].0 == member@;
                            assert(sv[q].0 != member@);
                        }
                    }
                    Ok(None)
                } else {
                    proof {
                        lemma_listing_rank(sv, z@, p as int);
                        assert(sv[p as int].0 == member@);
                        assert(z@.contains_key(sv[p as int].0));
                    }
                    if reverse {
                        Ok(Some((n - 1 - p) as i64))
                    } else {
                        Ok(Some(p as i64))
                    }
                }
            },
            Err(e) => Err(e),
        }
    }

    /// The position of a member in a sorted set, counted from the lowest
    /// score (from the highest when `reverse`).
    pub fn zrank(&self, key: &str, member: &str, reverse: bool) -> (r: KvResult<Option<i64>>)
        requires
            self.wf(),
        ensures
            exists|t: i64| t >= self.clock() && zrank_reply(self@, key@, member@, reverse, t as int, r),
    {
        let now = self.next_time();
        self.zrank_at(key, member, reverse, now)
    }

    /// ZRANGE (ZREVRANGE when `rev`) at `now`.
    pub fn zrange_at(&self, key: &str, start: i64, stop: i64, rev: bool, now: i64) -> (r: KvResult<Vec<(String, u64)>>)
        requires
            self.wf(),
        ensures
            zrange_reply(self@, key@, start as int, stop as int, rev, now as int, r),
    {
        let k = key.to_owned();
        match self.zset_snapshot(&k, now) {
            Ok(None) => Ok(Vec::new()),
            Ok(Some(z)) => {
                proof {
                    z.lemma_storage();
                }
                let sorted = sorted_entries(z);
                let ghost sv = pairs_view(sorted@);
                let ghost zz = z@;
                let n = sorted.len();
                let (s, e) = range_bounds(start, stop, n);
                let mut out: Vec<(String, u64)> = Vec::new();
                let mut i: usize = s;
                while i < e
                    invariant
                        s <= i <= e <= n,
                        n == sorted@.len(),
                        n == zz.len(),
                        sv == pairs_view(sorted@),
                        is_listing(sv, zz),
                        zz.dom().finite(),
                        out@.len() == i - s,
                        forall|j: int| 0 <= j < out@.len() ==> placed(zz, #[trigger] out@[j].0@, out@[j].1, range_pos(n as int, s as int, j, rev)),
                    decreases e - i,
                {
                    let idx: usize = if rev {
                        n - 1 - i
                    } else {
                        i
                    };
                    proof {
                        lemma_listing_rank(sv, zz, idx as int);
                        assert(zz.contains_key(sv[idx as int].0));
                        assert(sv[idx as int] == (sorted@[idx as int].0@, sorted@[idx as int].1));
                    }
                    let ghost pre = out@;
                    out.push((sorted[idx].0.clone(), sorted[idx].1));
                    assert forall|j: int| 0 <= j < out@.len() implies placed(zz, #[trigger] out@[j].0@, out@[j].1, range_pos(n as int, s as int, j, rev)) by {
                        if j < pre.len() {
                            assert(out@[j] == pre[j]);
                        } else {
                            assert(out@[j].0@ == sv[idx as int].0 && out@[j].1 == sv[idx as int].1);
                            assert(j == i - s);
                        }
                    }
                    i = i + 1;
                }
                assert forall|j: int| 0 <= j < pairs_view(out@).len() implies placed(zz, #[trigger] pairs_view(out@)[j].0, pairs_view(out@)[j].1, range_pos(n as int, s as int, j, rev)) by {
                    assert(placed(zz, out@[j].0@, out@[j].1, range_pos(n as int, s as int, j, rev)));
                }
                Ok(out)
            },
            Err(e) => Err(e),
        }
    }

    /// The entries of a sorted set at positions `start..=stop`, in
    /// increasing order (decreasing when `rev`).
    pub fn zrange(&self, key: &str, start: i64, stop: i64, rev: bool) -> (r: KvResult<Vec<(String, u64)>>)
        requires
            self.wf(),
        ensures
            exists|t: i64| t >= self.clock() && zrange_reply(self@, key@, start as int, stop as int, rev, t as int, r),
    {
        let now = self.next_time();
        self.zrange_at(key, start, stop, rev, now)
    }

    /// ZRANGEBYSCORE at `now`.
    pub fn zrangebyscore_at(&self, key: &str, min: u64, max: u64, now: i64) -> (r: KvResult<Vec<(String, u64)>>)
        requires
            self.wf(),
        ensures
            zrangebyscore_reply(self@, key@, min, max, now as int, r),
    {
        let k = key.to_owned();
        match self.zset_snapshot(&k, now) {
            Ok(None) => Ok(Vec::new()),
            Ok(Some(z)) => {
                proof {
                    z.lemma_storage();
                }
                let sorted = sorted_entries(z);
                Ok(select_by_score(&sorted, Ghost(z@), min, max))
            },
            Err(e) => Err(e),
        }
    }

    /// The entries of a sorted set scored between `min` and `max`, both
    /// included, in increasing order.
    pub fn zrangebyscore(&self, key: &str, min: u64, max: u64) -> (r: KvResult<Vec<(String, u64)>>)
        requires
            self.wf(),
        ensures
            exists|t: i64| t >= self.clock() && zrangebyscore_reply(self@, key@, min, max, t as int, r),
    {
        let now = self.next_time();
        self.zrangebyscore_at(key, min, max, now)
    }

    /// ZCOUNT at `now`.
    pub fn zcount_at(&self, key: &str, min: u64, max: u64, now: i64) -> (r: KvResult<i64>)
        requires
            self.wf(),
        ensures
            zcount_reply(self@, key@, min, max, now as int, r),
    {
        let k = key.to_owned();
        match self.zset_snapshot(&k, now) {
            Ok(None) => Ok(0),
            Ok(Some(z)) => {
                proof {
                    z.lemma_storage();
                }
                let sorted = sorted_entries(z);
                let sel = select_by_score(&sorted, Ghost(z@), min, max);
                Ok(sel.len() as i64)
            },
            Err(e) => Err(e),
        }
    }

    /// How many members of a sorted set are scored between `min` and `max`.
    pub fn zcount(&self, key: &str, min: u64, max: u64) -> (r: KvResult<i64>)
        requires
            self.wf(),
        ensures
            exists|t: i64| t >= self.clock() && zcount_reply(self@, key@, min, max, t as int, r),
    {
        let now = self.next_time();
        self.zcount_at(key, min, max, now)
    }

    /// ZPOPMIN (ZPOPMAX when `max`) at `now`.
    fn zpop_at(&mut self, key: &str, max: bool, now: i64) -> (r: KvResult<Option<(String, u64)>>)
        requires
            old(self).wf(),
        ensures
            final(self).wf(),
            zpop_post(old(self)@, final(self)@, key@, max, now as int, r),
    {
        let k = key.to_owned();
        proof {
            old(self).lemma_well_placed();
        }
        match self.take(&k, now) {
            None => {
                proof {
                    lemma_take_dead(old(self)@, k@, now as int);
                }
                Ok(None)
            },
            Some(mut e) => {
                let ghost e0 = e@;
                let r = match &mut e.value {
                    DataType::ZSet(map) => {
                        let n = map.len();
                        proof {
                            map.lemma_storage();
                        }
                        if n == 0 {
                            Ok(None)
                        } else {
                            let sorted = sorted_entries(map);
                            let ghost sv = pairs_view(sorted@);
                            let idx: usize = if max {
                                n - 1
                            } else {
                                0
                            };
                            proof {
                                lemma_listing_rank(sv, map@, idx as int);
                                assert(map@.contains_key(sv[idx as int].0));
                            }
                            let m = sorted[idx].0.clone();
                            let sc = sorted[idx].1;
                            assert(m@ == sv[idx as int].0 && sc == sv[idx as int].1);
                            map.remove(&m);
                            Ok(Some((m, sc)))
                        }
                    },
                    _ => Err(KvError::WrongType),
                };
                let ghost ev = e@;
                self.put(k, e);
                proof {
                    lemma_take_then_put(old(self)@, key@, ev);
                    if r.is_err() || r == Ok::<Option<(String, u64)>, KvError>(None) {
                        lemma_put_back(old(self)@, key@, e0);
                    }
                }
                r
            },
        }
    }

    /// ZPOPMIN at `now`.
    pub fn zpopmin_at(&mut self, key: &str, now: i64) -> (r: KvResult<Option<(String, u64)>>)
        requires
            old(self).wf(),
        ensures
            final(self).wf(),
            zpop_post(old(self)@, final(self)@, key@, false, now as int, r),
    {
        self.zpop_at(key, false, now)
    }

    /// Removes and returns the entry with the lowest score.
    pub fn zpopmin(&mut self, key: &str) -> (r: KvResult<Option<(String, u64)>>)
        requires
            old(self).wf(),
        ensures
            final(self).wf(),
            final(self).clock() >= old(self).clock(),
            zpop_post(old(self)@, final(self)@, key@, false, final(self).clock() as int, r),
    {
        let now = self.next_time();
        let r = self.zpop_at(key, false, now);
        self.set_clock(now);
        r
    }

    /// ZPOPMAX at `now`.
    pub fn zpopmax_at(&mut self, key: &str, now: i64) -> (r: KvResult<Option<(String, u64)>>)
        requires
            old(self).wf(),
        ensures
            final(self).wf(),
            zpop_post(old(self)@, final(self)@, key@, true, now as int, r),
    {
        self.zpop_at(key, true, now)
    }

    /// Removes and returns the entry with the highest score.
    pub fn zpopmax(&mut self, key: &str) -> (r: KvResult<Option<(String, u64)>>)
        requires
            old(self).wf(),
        ensures
            final(self).wf(),
            final(self).clock() >= old(self).clock(),
            zpop_post(old(self)@, final(self)@, key@, true, final(self).clock() as int, r),
    {
        let now = self.next_time();
        let r = self.zpop_at(key, true, now);
        self.set_clock(now);
        r
    }
}

} // verus!
