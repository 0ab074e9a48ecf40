//! List commands: LPUSH, RPUSH, LPOP, RPOP, LLEN, LRANGE, LINDEX, LSET,
//! LREM, LTRIM.
use vstd::prelude::*;
use std::collections::VecDeque;
use crate::entry::{DataType, Entry, EntryView, ValueView, strings_view};
use crate::error::{KvError, KvResult};
use crate::seqs::{lemma_string_seq_push, string_seq};
use crate::store::{
    KvStore, StoreView, entry_for_write, lemma_put_back, lemma_take_dead, lemma_take_then_put,
    lemma_written, live_entry, purge_key, touched, with_entry, written,
};

verus! {

broadcast use vstd::std_specs::vecdeque::group_vec_dequeue_axioms;

/// A Redis-style index: a negative one counts from the end (clamped at 0).
pub open spec fn norm_index(idx: int, len: int) -> int {
    if idx < 0 {
        if len + idx >= 0 {
            len + idx
        } else {
            0
        }
    } else {
        idx
    }
}

/// Converts a Redis-style negative index to an absolute index.
pub fn normalize_index(idx: i64, len: i64) -> (r: i64)
    requires
        len >= 0,
    ensures
        r == norm_index(idx as int, len as int),
{
    if idx < 0 {
        let s = len + idx;
        if s >= 0 {
            s
        } else {
            0
        }
    } else {
        idx
    }
}

/// A Redis-style index without clamping: a negative one counts from the
/// end, and may still lie before the start.
pub open spec fn abs_index(idx: int, len: int) -> int {
    if idx < 0 {
        len + idx
    } else {
        idx
    }
}

/// `abs_index` in executable form.
pub(crate) fn absolute_index(idx: i64, len: i64) -> (r: i64)
    requires
        len >= 0,
    ensures
        r == abs_index(idx as int, len as int),
{
    if idx < 0 {
        len + idx
    } else {
        idx
    }
}

/// The end (exclusive) of the inclusive range up to `stop`, within `len`: a
/// stop before the start of the list gives an end at or before 0.
pub open spec fn range_end(stop: int, len: int) -> int {
    let e = abs_index(stop, len);
    if e + 1 < len {
        e + 1
    } else {
        len
    }
}

/// The elements of `l` from `start` to `stop`, both inclusive, negative
/// indices counting from the end; empty when the stop comes before the
/// start.
pub open spec fn list_range(l: Seq<Seq<char>>, start: int, stop: int) -> Seq<Seq<char>> {
    let s = norm_index(start, l.len() as int);
    let e = range_end(stop, l.len() as int);
    if s >= e {
        Seq::empty()
    } else {
        l.subrange(s, e)
    }
}

/// The elements that LTRIM keeps: those LRANGE would list.
pub open spec fn trimmed(l: Seq<Seq<char>>, start: int, stop: int) -> Seq<Seq<char>> {
    list_range(l, start, stop)
}

/// `l` without its first `n` elements equal to `v`.
pub open spec fn drop_matching(l: Seq<Seq<char>>, v: Seq<char>, n: int) -> Seq<Seq<char>>
    decreases l.len(),
{
    if l.len() == 0 {
        l
    } else if l[0] == v && n > 0 {
        drop_matching(l.drop_first(), v, n - 1)
    } else {
        seq![l[0]] + drop_matching(l.drop_first(), v, n)
    }
}

/// `l` after LREM of `v` with `count`: for 0 every match goes; for a
/// positive count the first `count` matches from the head; for a negative
/// one the first `|count|` matches from the tail.
pub open spec fn lrem_result(l: Seq<Seq<char>>, v: Seq<char>, count: int) -> Seq<Seq<char>> {
    if count == 0 {
        drop_matching(l, v, l.len() as int)
    } else if count > 0 {
        drop_matching(l, v, count)
    } else {
        drop_matching(l.reverse(), v, -count).reverse()
    }
}

/// `l` after a push at the front or the back.
pub open spec fn pushed(l: Seq<Seq<char>>, v: Seq<char>, front: bool) -> Seq<Seq<char>> {
    if front {
        seq![v] + l
    } else {
        l.push(v)
    }
}

/// The list a read command sees at `now`: `None` when the key is not live,
/// the error when it holds another type.
pub open spec fn list_at(v: StoreView, k: Seq<char>, now: int) -> KvResult<Option<Seq<Seq<char>>>> {
    match live_entry(v, k, now) {
        None => Ok(None),
        Some(e) => match e.value {
            ValueView::List(l) => Ok(Some(l)),
            _ => Err(KvError::WrongType),
        },
    }
}

/// LPUSH/RPUSH at `now`: the value joins the list at the front or the back;
/// the result is the new length. A fresh key starts as an empty list. A list
/// already `i64::MAX` long refuses with `Overflow`.
pub open spec fn list_push_post(
    old: StoreView,
    new: StoreView,
    k: Seq<char>,
    val: Seq<char>,
    front: bool,
    now: int,
    r: KvResult<usize>,
) -> bool {
    let b = entry_for_write(old, k, now, ValueView::List(Seq::empty()));
    match b.value {
        ValueView::List(l) => if l.len() >= i64::MAX {
            r == Err::<usize, KvError>(KvError::Overflow) && new == with_entry(old, k, Some(b))
        } else {
            &&& r == Ok::<usize, KvError>((l.len() + 1) as usize)
            &&& written(old, k, now, EntryView { value: ValueView::List(pushed(l, val, front)), ..b }, new)
        },
        _ => r == Err::<usize, KvError>(KvError::WrongType) && new == with_entry(old, k, Some(b)),
    }
}

/// LPOP/RPOP at `now`: the first or last element leaves the list (the key
/// stays, even when the list is left empty); the entry is marked used.
pub open spec fn list_pop_post(
    old: StoreView,
    new: StoreView,
    k: Seq<char>,
    front: bool,
    now: int,
    r: KvResult<Option<String>>,
) -> bool {
    match live_entry(old, k, now) {
        None => r == Ok::<Option<String>, KvError>(None) && new == purge_key(old, k, now),
        Some(e) => {
            let b = touched(e, now);
            match b.value {
                ValueView::List(l) => if l.len() == 0 {
                    r == Ok::<Option<String>, KvError>(None) && new == with_entry(old, k, Some(b))
                } else {
                    &&& r matches Ok(Some(x)) && x@ == (if front { l[0] } else { l.last() })
                    &&& new == with_entry(
                        old,
                        k,
                        Some(EntryView {
                            value: ValueView::List(if front { l.drop_first() } else { l.drop_last() }),
                            ..b
                        }),
                    )
                },
                _ => r == Err::<Option<String>, KvError>(KvError::WrongType) && new == with_entry(
                    old,
                    k,
                    Some(b),
                ),
            }
        },
    }
}

/// A live list entry of `old` with its elements replaced, or the error and
/// purge outcome shared by LSET, LREM and LTRIM.
pub open spec fn with_list(old: StoreView, k: Seq<char>, e: EntryView, l: Seq<Seq<char>>) -> StoreView {
    with_entry(old, k, Some(EntryView { value: ValueView::List(l), ..e }))
}

/// LSET at `now`.
pub open spec fn lset_post(
    old: StoreView,
    new: StoreView,
    k: Seq<char>,
    index: int,
    val: Seq<char>,
    now: int,
    r: KvResult<()>,
) -> bool {
    match live_entry(old, k, now) {
        None => r == Err::<(), KvError>(KvError::NotFound) && new == purge_key(old, k, now),
        Some(e) => match e.value {
            ValueView::List(l) => {
                let idx = abs_index(index, l.len() as int);
                if idx < 0 || idx >= l.len() {
                    r == Err::<(), KvError>(KvError::NotFound) && new == old
                } else {
                    r == Ok::<(), KvError>(()) && new == with_list(old, k, e, l.update(idx, val))
                }
            },
            _ => r == Err::<(), KvError>(KvError::WrongType) && new == old,
        },
    }
}

/// LREM at `now`: removes matching elements as `lrem_result` says (from the
/// head for a positive count, from the tail for a negative one, all for 0);
/// the result is how many.
pub open spec fn lrem_post(
    old: StoreView,
    new: StoreView,
    k: Seq<char>,
    count: int,
    val: Seq<char>,
    now: int,
    r: KvResult<i64>,
) -> bool {
    match live_entry(old, k, now) {
        None => r == Ok::<i64, KvError>(0) && new == purge_key(old, k, now),
        Some(e) => match e.value {
            ValueView::List(l) => {
                let l2 = lrem_result(l, val, count);
                r == Ok::<i64, KvError>((l.len() - l2.len()) as i64) && new == with_list(old, k, e, l2)
            },
            _ => r == Err::<i64, KvError>(KvError::WrongType) && new == old,
        },
    }
}

/// LTRIM at `now`.
pub open spec fn ltrim_post(
    old: StoreView,
    new: StoreView,
    k: Seq<char>,
    start: int,
    stop: int,
    now: int,
    r: KvResult<()>,
) -> bool {
    match live_entry(old, k, now) {
        None => r == Ok::<(), KvError>(()) && new == purge_key(old, k, now),
        Some(e) => match e.value {
            ValueView::List(l) => r == Ok::<(), KvError>(()) && new == with_list(old, k, e, trimmed(l, start, stop)),
            _ => r == Err::<(), KvError>(KvError::WrongType) && new == old,
        },
    }
}

/// The reply of LLEN at `now`.
pub open spec fn llen_reply(v: StoreView, k: Seq<char>, now: int, r: KvResult<usize>) -> bool {
    match list_at(v, k, now) {
        Ok(None) => r == Ok::<usize, KvError>(0),
        Ok(Some(l)) => r == Ok::<usize, KvError>(l.len() as usize),
        Err(e) => r == Err::<usize, KvError>(e),
    }
}

/// The reply of LRANGE at `now`.
pub open spec fn lrange_reply(v: StoreView, k: Seq<char>, start: int, stop: int, now: int, r: KvResult<Vec<String>>) -> bool {
    match list_at(v, k, now) {
        Ok(None) => r matches Ok(out) && out@.len() == 0,
        Ok(Some(l)) => r matches Ok(out) && string_seq(out@) == list_range(l, start, stop),
        Err(e) => r matches Err(x) && x == e,
    }
}

/// The reply of LINDEX at `now`.
pub open spec fn lindex_reply(v: StoreView, k: Seq<char>, index: int, now: int, r: KvResult<Option<String>>) -> bool {
    match list_at(v, k, now) {
        Ok(None) => r == Ok::<Option<String>, KvError>(None),
        Ok(Some(l)) => {
            let idx = abs_index(index, l.len() as int);
            if idx < 0 || idx >= l.len() {
                r == Ok::<Option<String>, KvError>(None)
            } else {
                r matches Ok(Some(x)) && x@ == l[idx]
            }
        },
        Err(e) => r == Err::<Option<String>, KvError>(e),
    }
}

proof fn lemma_drop_matching_len(l: Seq<Seq<char>>, v: Seq<char>, n: int)
    ensures
        drop_matching(l, v, n).len() <= l.len(),
    decreases l.len(),
{
    if l.len() > 0 {
        lemma_drop_matching_len(l.drop_first(), v, n);
        lemma_drop_matching_len(l.drop_first(), v, n - 1);
    }
}

/// Any allowance that covers the whole list removes every match.
proof fn lemma_drop_matching_all(l: Seq<Seq<char>>, v: Seq<char>, n: int, m: int)
    requires
        n >= l.len(),
        m >= l.len(),
    ensures
        drop_matching(l, v, n) == drop_matching(l, v, m),
    decreases l.len(),
{
    if l.len() > 0 {
        lemma_drop_matching_all(l.drop_first(), v, n - 1, m - 1);
        lemma_drop_matching_all(l.drop_first(), v, n, m);
        lemma_drop_matching_all(l.drop_first(), v, n - 1, m);
        lemma_drop_matching_all(l.drop_first(), v, n, m - 1);
    }
}

impl KvStore {
    /// LPUSH/RPUSH at `now`.
    pub fn list_push_at(&mut self, key: String, val: String, front: bool, now: i64) -> (r: KvResult<usize>)
        requires
            old(self).wf(),
        ensures
            final(self).wf(),
            list_push_post(old(self)@, final(self)@, key@, val@, front, now as int, r),
    {
        proof {
            old(self).lemma_well_placed();
        }
        let taken = self.take_for_write(&key, now);
        let was_live = taken.is_some();
        let ghost after = self@;
        let mut e = match taken {
            Some(e) => e,
            None => {
                let fresh = Entry::new_at(DataType::List(VecDeque::new()), now);
                assert(strings_view(Seq::<String>::empty()) =~= Seq::<Seq<char>>::empty());
                fresh
            },
        };
        e.last_accessed_ms = now;
        let ghost vv = val@;
        let r = match &mut e.value {
            DataType::List(l) => {
                if l.len() as u64 >= 0x7fff_ffff_ffff_ffffu64 {
                    Err(KvError::Overflow)
                } else {
                    let ghost l0 = l@;
                    if front {
                        l.push_front(val);
                    } else {
                        l.push_back(val);
                    }
                    assert(strings_view(l@) =~= pushed(strings_view(l0), vv, front));
                    Ok(l.len())
                }
            },
            _ => Err(KvError::WrongType),
        };
        let ghost ev = e@;
        self.put(key, e);
        proof {
            lemma_written(old(self)@, after, key@, now as int, was_live, ev);
        }
        r
    }

    /// Prepends a value to a list; the new length.
    pub fn lpush(&mut self, key: String, val: String) -> (r: KvResult<usize>)
        requires
            old(self).wf(),
        ensures
            final(self).wf(),
            final(self).clock() >= old(self).clock(),
            list_push_post(old(self)@, final(self)@, key@, val@, true, final(self).clock() as int, r),
    {
        let now = self.next_time();
        let r = self.list_push_at(key, val, true, now);
        self.set_clock(now);
        r
    }

    /// Appends a value to a list; the new length.
    pub fn rpush(&mut self, key: String, val: String) -> (r: KvResult<usize>)
        requires
            old(self).wf(),
        ensures
            final(self).wf(),
            final(self).clock() >= old(self).clock(),
            list_push_post(old(self)@, final(self)@, key@, val@, false, final(self).clock() as int, r),
    {
        let now = self.next_time();
        let r = self.list_push_at(key, val, false, now);
        self.set_clock(now);
        r
    }

    /// LPOP/RPOP at `now`.
    pub fn list_pop_at(&mut self, key: &str, front: bool, now: i64) -> (r: KvResult<Option<String>>)
        requires
            old(self).wf(),
        ensures
            final(self).wf(),
            list_pop_post(old(self)@, final(self)@, key@, front, now as int, r),
    {
        let k = key.to_owned();
        proof {
            old(self).lemma_well_placed();
        }
        match self.take(&k, now) {
            None => {
                proof {
                    lemma_take_dead(old(self)@, k@, now as int);
                }
                Ok(None)
            },
            Some(mut e) => {
                e.last_accessed_ms = now;
                let r = match &mut e.value {
                    DataType::List(l) => {
                        let ghost l0 = l@;
                        let x = if front {
                            l.pop_front()
                        } else {
                            l.pop_back()
                        };
                        proof {
                            if l0.len() > 0 {
                                if front {
                                    assert(strings_view(l@) =~= strings_view(l0).drop_first());
                                } else {
                                    assert(strings_view(l@) =~= strings_view(l0).drop_last());
                                }
                            }
                        }
                        Ok(x)
                    },
                    _ => Err(KvError::WrongType),
                };
                let ghost ev = e@;
                self.put(k, e);
                proof {
                    lemma_take_then_put(old(self)@, key@, ev);
                }
                r
            },
        }
    }

    /// Removes and returns the first element of a list.
    pub fn lpop(&mut self, key: &str) -> (r: KvResult<Option<String>>)
        requires
            old(self).wf(),
        ensures
            final(self).wf(),
            final(self).clock() >= old(self).clock(),
            list_pop_post(old(self)@, final(self)@, key@, true, final(self).clock() as int, r),
    {
        let now = self.next_time();
        let r = self.list_pop_at(key, true, now);
        self.set_clock(now);
        r
    }

    /// Removes and returns the last element of a list.
    pub fn rpop(&mut self, key: &str) -> (r: KvResult<Option<String>>)
        requires
            old(self).wf(),
        ensures
            final(self).wf(),
            final(self).clock() >= old(self).clock(),
            list_pop_post(old(self)@, final(self)@, key@, false, final(self).clock() as int, r),
    {
        let now = self.next_time();
        let r = self.list_pop_at(key, false, now);
        self.set_clock(now);
        r
    }

    /// LLEN at `now`.
    pub fn llen_at(&self, key: &str, now: i64) -> (r: KvResult<usize>)
        requires
            self.wf(),
        ensures
            llen_reply(self@, key@, now as int, r),
    {
        let k = key.to_owned();
        match self.peek(&k, now) {
            None => Ok(0),
            Some(e) => match &e.value {
                DataType::List(l) => Ok(l.len()),
                _ => Err(KvError::WrongType),
            },
        }
    }

    /// Length of a list.
    pub fn llen(&self, key: &str) -> (r: KvResult<usize>)
        requires
            self.wf(),
        ensures
            exists|t: i64| t >= self.clock() && llen_reply(self@, key@, t as int, r),
    {
        let now = self.next_time();
        self.llen_at(key, now)
    }

    /// LRANGE at `now`.
    pub fn lrange_at(&self, key: &str, start: i64, stop: i64, now: i64) -> (r: KvResult<Vec<String>>)
        requires
            self.wf(),
        ensures
            lrange_reply(self@, key@, start as int, stop as int, now as int, r),
    {
        let k = key.to_owned();
        match self.peek(&k, now) {
            None => Ok(Vec::new()),
            Some(e) => match &e.value {
                DataType::List(l) => {
                    let len = l.len() as i64;
                    let s = normalize_index(start, len);
                    let e = absolute_index(stop, len);
                    let mut out: Vec<String> = Vec::new();
                    let end: i64 = if e < len - 1 {
                        e + 1
                    } else {
                        len
                    };
                    if s >= end {
                        assert(string_seq(out@) =~= Seq::<Seq<char>>::empty());
                        return Ok(out);
                    }
                    let ghost lv = strings_view(l@);
                    let mut i: i64 = s;
                    while i < end
                        invariant
                            0 <= s <= i <= end <= len,
                            len == l@.len(),
                            l@.len() == l.len(),
                            lv == strings_view(l@),
                            string_seq(out@) == lv.subrange(s as int, i as int),
                        decreases end - i,
                    {
                        let x = l[i as usize].clone();
                        let ghost pre = out@;
                        proof {
                            lemma_string_seq_push(pre, x);
                        }
                        out.push(x);
                        assert(x@ == lv[i as int]);
                        assert(lv.subrange(s as int, i + 1) =~= lv.subrange(s as int, i as int).push(lv[i as int]));
                        assert(string_seq(out@) =~= lv.subrange(s as int, i + 1));
                        i = i + 1;
                    }
                    Ok(out)
                },
                _ => Err(KvError::WrongType),
            },
        }
    }

    /// The elements of a list from `start` to `stop` (inclusive; negative
    /// indices count from the end).
    pub fn lrange(&self, key: &str, start: i64, stop: i64) -> (r: KvResult<Vec<String>>)
        requires
            self.wf(),
        ensures
            exists|t: i64| t >= self.clock() && lrange_reply(self@, key@, start as int, stop as int, t as int, r),
    {
        let now = self.next_time();
        self.lrange_at(key, start, stop, now)
    }

    /// LINDEX at `now`.
    pub fn lindex_at(&self, key: &str, index: i64, now: i64) -> (r: KvResult<Option<String>>)
        requires
            self.wf(),
        ensures
            lindex_reply(self@, key@, index as int, now as int, r),
    {
        let k = key.to_owned();
        match self.peek(&k, now) {
            None => Ok(None),
            Some(e) => match &e.value {
                DataType::List(l) => {
                    let len = l.len() as i64;
                    let idx = absolute_index(index, len);
                    if idx < 0 || idx >= len {
                        Ok(None)
                    } else {
                        let xr = &l[idx as usize];
                        assert(*xr == l@[idx as int]);
                        Ok(Some(xr.clone()))
                    }
                },
                _ => Err(KvError::WrongType),
            },
        }
    }

    /// The element at an index of a list.
    pub fn lindex(&self, key: &str, index: i64) -> (r: KvResult<Option<String>>)
        requires
            self.wf(),
        ensures
            exists|t: i64| t >= self.clock() && lindex_reply(self@, key@, index as int, t as int, r),
    {
        let now = self.next_time();
        self.lindex_at(key, index, now)
    }

    /// LSET at `now`.
    pub fn lset_at(&mut self, key: &str, index: i64, val: String, now: i64) -> (r: KvResult<()>)
        requires
            old(self).wf(),
        ensures
            final(self).wf(),
            lset_post(old(self)@, final(self)@, key@, index as int, val@, now as int, r),
    {
        let k = key.to_owned();
        proof {
            old(self).lemma_well_placed();
        }
        match self.take(&k, now) {
            None => {
                proof {
                    lemma_take_dead(old(self)@, k@, now as int);
                }
                Err(KvError::NotFound)
            },
            Some(mut e) => {
                let ghost e0 = e@;
                let ghost vv = val@;
                let r = match &mut e.value {
                    DataType::List(l) => {
                        let len = l.len() as i64;
                        let idx = absolute_index(index, len);
                        if idx < 0 || idx >= len {
                            Err(KvError::NotFound)
                        } else {
                            let ghost l0 = l@;
                            let _ = l.remove(idx as usize);
                            l.insert(idx as usize, val);
                            assert(strings_view(l@) =~= strings_view(l0).update(idx as int, vv));
                            Ok(())
                        }
                    },
                    _ => Err(KvError::WrongType),
                };
                let ghost ev = e@;
                self.put(k, e);
                proof {
                    lemma_take_then_put(old(self)@, key@, ev);
                    if r.is_err() {
                        lemma_put_back(old(self)@, key@, e0);
                    }
                }
                r
            },
        }
    }

    /// Replaces the element at an index of a list.
    pub fn lset(&mut self, key: &str, index: i64, val: String) -> (r: KvResult<()>)
        requires
            old(self).wf(),
        ensures
            final(self).wf(),
            final(self).clock() >= old(self).clock(),
            lset_post(old(self)@, final(self)@, key@, index as int, val@, final(self).clock() as int, r),
    {
        let now = self.next_time();
        let r = self.lset_at(key, index, val, now);
        self.set_clock(now);
        r
    }

    /// LREM at `now`.
    pub fn lrem_at(&mut self, key: &str, count: i64, val: &str, now: i64) -> (r: KvResult<i64>)
        requires
            old(self).wf(),
        ensures
            final(self).wf(),
            lrem_post(old(self)@, final(self)@, key@, count as int, val@, now as int, r),
    {
        let k = key.to_owned();
        let target = val.to_owned();
        proof {
            old(self).lemma_well_placed();
        }
        match self.take(&k, now) {
            None => {
                proof {
                    lemma_take_dead(old(self)@, k@, now as int);
                }
                Ok(0)
            },
            Some(mut e) => {
                let ghost e0 = e@;
                let r = match &mut e.value {
                    DataType::List(l) => {
                        let ghost l0 = strings_view(l@);
                        let limit: i64 = if count == 0 {
                            l.len() as i64
                        } else if count > 0 {
                            count
                        } else if count > i64::MIN {
                            -count
                        } else {
                            i64::MAX
                        };
                        let mut kept: VecDeque<String> = VecDeque::new();
                        let mut removed: i64 = 0;
                        if count >= 0 {
                            proof {
                                lemma_drop_matching_len(l0, target@, limit as int);
                            }
                            while l.len() > 0
                                invariant
                                    0 <= removed <= limit,
                                    strings_view(kept@) + drop_matching(strings_view(l@), target@, limit - removed)
                                        == drop_matching(l0, target@, limit as int),
                                    kept@.len() + removed + l@.len() == l0.len(),
                                    l0.len() <= i64::MAX,
                                decreases l@.len(),
                            {
                                let ghost rest = strings_view(l@);
                                let x = l.pop_front().unwrap();
                                let ghost rest2 = strings_view(l@);
                                assert(rest2 =~= rest.drop_first());
                                assert(rest[0] == x@);
                                if x == target && removed < limit {
                                    removed = removed + 1;
                                } else {
                                    let ghost kv = strings_view(kept@);
                                    kept.push_back(x);
                                    assert(strings_view(kept@) =~= kv.push(x@));
                                    assert(strings_view(kept@) + drop_matching(rest2, target@, limit - removed)
                                        =~= kv + (seq![x@] + drop_matching(rest2, target@, limit - removed)));
                                }
                            }
                            assert(drop_matching(strings_view(l@), target@, limit - removed) =~= Seq::<Seq<char>>::empty());
                            assert(strings_view(kept@) =~= drop_matching(l0, target@, limit as int));
                            assert(strings_view(kept@) == lrem_result(l0, target@, count as int));
                        } else {
                            let ghost r0 = l0.reverse();
                            proof {
                                lemma_drop_matching_len(r0, target@, limit as int);
                            }
                            assert(drop_matching(r0, target@, limit as int) == drop_matching(r0, target@, -(count as int)))
                                by {
                                if count > i64::MIN {
                                } else {
                                    lemma_drop_matching_all(r0, target@, limit as int, -(count as int));
                                }
                            };
                            assert(Seq::<Seq<char>>::empty().reverse() =~= Seq::<Seq<char>>::empty());
                            while l.len() > 0
                                invariant
                                    0 <= removed <= limit,
                                    strings_view(kept@).reverse() + drop_matching(strings_view(l@).reverse(), target@, limit - removed)
                                        == drop_matching(r0, target@, limit as int),
                                    kept@.len() + removed + l@.len() == l0.len(),
                                    l0.len() <= i64::MAX,
                                decreases l@.len(),
                            {
                                let ghost rest = strings_view(l@);
                                let x = l.pop_back().unwrap();
                                let ghost rest2 = strings_view(l@);
                                assert(rest2 =~= rest.drop_last());
                                assert(rest.last() == x@);
                                assert(rest.reverse()[0] == x@);
                                assert(rest.reverse().drop_first() =~= rest2.reverse());
                                if x == target && removed < limit {
                                    removed = removed + 1;
                                } else {
                                    let ghost kv = strings_view(kept@);
                                    kept.push_front(x);
                                    assert(strings_view(kept@) =~= seq![x@] + kv);
                                    assert(strings_view(kept@).reverse() =~= kv.reverse().push(x@));
                                    assert(strings_view(kept@).reverse() + drop_matching(rest2.reverse(), target@, limit - removed)
                                        =~= kv.reverse() + (seq![x@] + drop_matching(rest2.reverse(), target@, limit - removed)));
                                }
                            }
                            assert(strings_view(l@).reverse() =~= Seq::<Seq<char>>::empty());
                            assert(drop_matching(strings_view(l@).reverse(), target@, limit - removed) =~= Seq::<Seq<char>>::empty());
                            assert(strings_view(kept@).reverse() =~= drop_matching(r0, target@, limit as int));
                            assert(strings_view(kept@).reverse().reverse() =~= strings_view(kept@));
                            assert(strings_view(kept@) =~= lrem_result(l0, target@, count as int));
                        }
                        *l = kept;
                        Ok(removed)
                    },
                    _ => Err(KvError::WrongType),
                };
                let ghost ev = e@;
                self.put(k, e);
                proof {
                    lemma_take_then_put(old(self)@, key@, ev);
                    if r.is_err() {
                        lemma_put_back(old(self)@, key@, e0);
                    }
                }
                r
            },
        }
    }

    /// Removes matching elements from a list; how many.
    pub fn lrem(&mut self, key: &str, count: i64, val: &str) -> (r: KvResult<i64>)
        requires
            old(self).wf(),
        ensures
            final(self).wf(),
            final(self).clock() >= old(self).clock(),
            lrem_post(old(self)@, final(self)@, key@, count as int, val@, final(self).clock() as int, r),
    {
        let now = self.next_time();
        let r = self.lrem_at(key, count, val, now);
        self.set_clock(now);
        r
    }

    /// LTRIM at `now`.
    pub fn ltrim_at(&mut self, key: &str, start: i64, stop: i64, now: i64) -> (r: KvResult<()>)
        requires
            old(self).wf(),
        ensures
            final(self).wf(),
            ltrim_post(old(self)@, final(self)@, key@, start as int, stop as int, now as int, r),
    {
        let k = key.to_owned();
        proof {
            old(self).lemma_well_placed();
        }
        match self.take(&k, now) {
            None => {
                proof {
                    lemma_take_dead(old(self)@, k@, now as int);
                }
                Ok(())
            },
            Some(mut e) => {
                let ghost e0 = e@;
                let r = match &mut e.value {
                    DataType::List(l) => {
                        let ghost l0 = strings_view(l@);
                        let len = l.len() as i64;
                        let s = normalize_index(start, len);
                        let en = absolute_index(stop, len);
                        let end: i64 = if en < len - 1 {
                            en + 1
                        } else {
                            len
                        };
                        if s >= end {
                            l.clear();
                            assert(strings_view(l@) =~= Seq::<Seq<char>>::empty());
                        } else {
                            let tail = l.split_off(s as usize);
                            *l = tail;
                            l.truncate((end - s) as usize);
                            assert(strings_view(l@) =~= l0.subrange(s as int, end as int));
                        }
                        Ok(())
                    },
                    _ => Err(KvError::WrongType),
                };
                let ghost ev = e@;
                self.put(k, e);
                proof {
                    lemma_take_then_put(old(self)@, key@, ev);
                    if r.is_err() {
                        lemma_put_back(old(self)@, key@, e0);
                    }
                }
                r
            },
        }
    }

    /// Keeps only the elements from `start` to `stop` of a list.
    pub fn ltrim(&mut self, key: &str, start: i64, stop: i64) -> (r: KvResult<()>)
        requires
            old(self).wf(),
        ensures
            final(self).wf(),
            final(self).clock() >= old(self).clock(),
            ltrim_post(old(self)@, final(self)@, key@, start as int, stop as int, final(self).clock() as int, r),
    {
        let now = self.next_time();
        let r = self.ltrim_at(key, start, stop, now);
        self.set_clock(now);
        r
    }
}

} // verus!
