//! Properties of the store that relate several operations: what a read
//! gives back after a write, what a delete leaves, and so on. Each is stated
//! over the models of the operations' contracts and proved from them.
use vstd::prelude::*;
use crate::entry::{EntryView, ValueView, expired_at};
use crate::keyspace::{expire_post, persist_post, pttl_reply, removed_keys, rename_post, ttl_reply};
use crate::error::{KvError, KvResult, error_reply};
use crate::store::{NUM_SHARDS, StoreView, entry_of, evicted, lemma_entry_of_with_entry, live_entry, shard_of, well_placed, with_entry};
use crate::hashes::{hget_reply, hset_post};
use crate::lists::{list_pop_post, list_push_post};
use crate::sets::{sadd_post, sismember_reply};
use crate::store::entry_for_write;
use crate::strings::{deadline, get_post, incr_by_post, set_post, string_entry};
use crate::text::{decimal, lemma_decimal_roundtrip};
use crate::zsets::{placed, range_pos, zadd_post, zinsert_all, zput_post, zrange_ok, zscore_reply};
use crate::zorder::{is_listing, lemma_listing_covers, lemma_rank_reflects_order, zlt};
use crate::cmd_keys::flushed;
use crate::store::{live_keys, purge_key, purged_all, room_for, written};
use crate::snapshot::{is_snapshot, restored};
use crate::store::entry_keys;
use crate::entry::Entry;
use crate::resp::{err_reply, ok_reply};
use crate::session::{SessionView, StepView, named_batch, noauth_reply, session_next};
use crate::text::upper_case;
use crate::resp::crlf;
use crate::frame::{FrameStartView, bulk_len_spec, frame_start_spec, parse_usize_spec, trim_newlines};
use crate::text::{digits, lemma_digits_roundtrip};

verus! {

/// Reading a key right after storing an entry under it.
proof fn lemma_read_back(v: StoreView, k: Seq<char>, e: EntryView, now: int)
    requires
        v.shards.len() == NUM_SHARDS,
    ensures
        entry_of(with_entry(v, k, Some(e)), k) == Some(e),
        live_entry(with_entry(v, k, Some(e)), k, now) == if expired_at(e, now) { None } else { Some(e) },
        with_entry(v, k, Some(e)).shards.len() == NUM_SHARDS,
{
    lemma_entry_of_with_entry(v, k, Some(e), k);
}

/// What SET stores: after `SET k s` at `now` (with an optional time to
/// live), the key holds `s` until the deadline, and nothing from then on.
pub proof fn law_set_then_read(v0: StoreView, v1: StoreView, k: Seq<char>, s: Seq<char>, expire_ms: Option<i64>, now: int, later: int)
    requires
        well_placed(v0),
        set_post(v0, v1, k, s, expire_ms, now, Ok(())),
        0 <= now <= later,
    ensures
        live_entry(v1, k, later) == match expire_ms {
            Some(ms) => if later < now + ms { Some(string_entry(s, deadline(expire_ms, now), now)) } else { None },
            None => Some(string_entry(s, None, now)),
        },
{
    let mid = choose|mid: StoreView|
        evicted(v0, shard_of(k), mid) && v1 == with_entry(mid, k, Some(string_entry(s, deadline(expire_ms, now), now)));
    lemma_read_back(mid, k, string_entry(s, deadline(expire_ms, now), now), later);
}

/// Read after write: a GET at any time after `SET k s` (and before its
/// deadline, if it has one) answers `s`; after the deadline it answers nil.
pub proof fn law_set_then_get(
    v0: StoreView,
    v1: StoreView,
    v2: StoreView,
    k: Seq<char>,
    s: Seq<char>,
    expire_ms: Option<i64>,
    now: int,
    later: int,
    r: KvResult<Option<String>>,
)
    requires
        well_placed(v0),
        set_post(v0, v1, k, s, expire_ms, now, Ok(())),
        0 <= now <= later,
        get_post(v1, v2, k, later, r),
    ensures
        match expire_ms {
            Some(ms) if later >= now + ms => r == Ok::<Option<String>, KvError>(None),
            _ => r matches Ok(Some(x)) && x@ == s,
        },
{
    law_set_then_read(v0, v1, k, s, expire_ms, now, later);
}

/// A deleted key is gone, and the keys not named are untouched.
pub proof fn law_del_removes(v: StoreView, keys: Seq<Seq<char>>, k: Seq<char>, now: int)
    requires
        well_placed(v),
    ensures
        keys.contains(k) ==> entry_of(removed_keys(v, keys), k).is_none() && live_entry(removed_keys(v, keys), k, now).is_none(),
        !keys.contains(k) ==> entry_of(removed_keys(v, keys), k) == entry_of(v, k),
        removed_keys(v, keys).shards.len() == NUM_SHARDS,
    decreases keys.len(),
{
    if keys.len() > 0 {
        let rest = keys.drop_last();
        law_del_removes(v, rest, k, now);
        lemma_entry_of_with_entry(removed_keys(v, rest), keys.last(), None, k);
        if keys.contains(k) && k != keys.last() {
            let i = choose|i: int| 0 <= i < keys.len() && keys[i] == k;
            assert(rest[i] == k);
        }
        if rest.contains(k) {
            let i = choose|i: int| 0 <= i < rest.len() && rest[i] == k;
            assert(keys[i] == k);
        }
    }
}

/// Counting: after `SET k n` (the decimal text of `n`), `INCRBY k d` at the
/// same time answers `n + d` and leaves its decimal text, as long as the sum
/// fits in an `i64`; otherwise it is refused and the value stays.
pub proof fn law_set_then_incr(
    v0: StoreView,
    v1: StoreView,
    v2: StoreView,
    k: Seq<char>,
    n: i64,
    d: i64,
    now: int,
    r: KvResult<i64>,
)
    requires
        well_placed(v0),
        set_post(v0, v1, k, decimal(n as int), None, now, Ok(())),
        incr_by_post(v1, v2, k, d, now, r),
        now >= 0,
    ensures
        i64::MIN <= n + d <= i64::MAX ==> r == Ok::<i64, KvError>((n + d) as i64)
            && live_entry(v2, k, now) == Some(string_entry(decimal(n + d), None, now)),
        !(i64::MIN <= n + d <= i64::MAX) ==> r == Err::<i64, KvError>(KvError::Overflow) && v2 == v1,
{
    law_set_then_read(v0, v1, k, decimal(n as int), None, now, now);
    lemma_decimal_roundtrip(n);
    let mid = choose|mid: StoreView|
        evicted(v0, shard_of(k), mid) && v1 == with_entry(mid, k, Some(string_entry(decimal(n as int), None, now)));
    assert(v1.shards.len() == NUM_SHARDS);
    if i64::MIN <= n + d <= i64::MAX {
        lemma_read_back(v1, k, string_entry(decimal(n + d), None, now), now);
    }
}

/// After PERSIST on a live key, TTL answers -1: the key no longer expires.
pub proof fn law_persist_then_ttl(v0: StoreView, v1: StoreView, k: Seq<char>, now: int, later: int)
    requires
        well_placed(v0),
        persist_post(v0, v1, k, now, true),
        now <= later,
    ensures
        ttl_reply(v1, k, later) == -1,
        pttl_reply(v1, k, later) == -1,
{
    let e = live_entry(v0, k, now)->0;
    lemma_read_back(v0, k, EntryView { expires_at_ms: None, ..e }, later);
}

/// After `PEXPIRE k t` succeeds, PTTL at a later time answers the time
/// left (`t` at once), and the key is gone once `t` has passed.
pub proof fn law_expire_then_pttl(v0: StoreView, v1: StoreView, k: Seq<char>, t: i64, now: int, later: int)
    requires
        well_placed(v0),
        expire_post(v0, v1, k, t, now, Ok(true)),
        0 <= now <= later,
    ensures
        later < now + t ==> pttl_reply(v1, k, later) == now + t - later,
        later >= now + t ==> live_entry(v1, k, later).is_none() && pttl_reply(v1, k, later) == -2 && ttl_reply(v1, k, later) == -2,
{
    let e = live_entry(v0, k, now)->0;
    lemma_read_back(v0, k, EntryView { expires_at_ms: Some((now + t) as i64), ..e }, later);
}

/// RENAME moves the live entry, expiry included, to the new name; the old
/// name is gone unless the two names are the same.
pub proof fn law_rename_moves(v0: StoreView, v1: StoreView, from: Seq<char>, to: Seq<char>, now: int)
    requires
        well_placed(v0),
        rename_post(v0, v1, from, to, now, Ok(())),
    ensures
        live_entry(v1, to, now) == live_entry(v0, from, now),
        from != to ==> entry_of(v1, from).is_none(),
        forall|x: Seq<char>| x != from && x != to ==> #[trigger] entry_of(v1, x) == entry_of(v0, x),
{
    let e = live_entry(v0, from, now)->0;
    let mid = with_entry(v0, from, None);
    lemma_read_back(mid, to, e, now);
    lemma_entry_of_with_entry(mid, to, Some(e), from);
    lemma_entry_of_with_entry(v0, from, None, from);
    assert forall|x: Seq<char>| x != from && x != to implies #[trigger] entry_of(v1, x) == entry_of(v0, x) by {
        lemma_entry_of_with_entry(mid, to, Some(e), x);
        lemma_entry_of_with_entry(v0, from, None, x);
    }
}

/// A push then a pop at the same end, at the same or a later time, hands
/// back the pushed value and leaves the list as it was before the push, as
/// long as the key has not expired in between.
pub proof fn law_push_then_pop(
    v0: StoreView,
    v1: StoreView,
    v2: StoreView,
    k: Seq<char>,
    x: Seq<char>,
    front: bool,
    pushed_at: int,
    popped_at: int,
    n: usize,
    r: KvResult<Option<String>>,
)
    requires
        well_placed(v0),
        list_push_post(v0, v1, k, x, front, pushed_at, Ok(n)),
        list_pop_post(v1, v2, k, front, popped_at, r),
        0 <= pushed_at <= popped_at,
        !expired_at(entry_for_write(v0, k, pushed_at, ValueView::List(Seq::empty())), popped_at),
    ensures
        r matches Ok(Some(y)) && y@ == x,
        live_entry(v2, k, popped_at) == Some(
            crate::store::touched(entry_for_write(v0, k, pushed_at, ValueView::List(Seq::empty())), popped_at),
        ),
{
    let b = entry_for_write(v0, k, pushed_at, ValueView::List(Seq::empty()));
    let l = b.value->List_0;
    let l1 = crate::lists::pushed(l, x, front);
    let e1 = EntryView { value: ValueView::List(l1), ..b };
    let mid = choose|mid: StoreView| #[trigger] room_for(v0, k, pushed_at, mid) && v1 == with_entry(mid, k, Some(e1));
    assert(mid.shards.len() == NUM_SHARDS);
    lemma_entry_of_with_entry(mid, k, Some(e1), k);
    assert(live_entry(v1, k, popped_at) == Some(e1));
    if front {
        assert(l1.drop_first() =~= l);
        assert(l1[0] == x);
    } else {
        assert(l1.drop_last() =~= l);
        assert(l1.last() == x);
    }
    let e2 = crate::store::touched(b, popped_at);
    assert(v2 == with_entry(v1, k, Some(e2)));
    lemma_entry_of_with_entry(v1, k, Some(e2), k);
}

/// HGET reads back what HSET wrote.
pub proof fn law_hset_then_hget(
    v0: StoreView,
    v1: StoreView,
    k: Seq<char>,
    f: Seq<char>,
    x: Seq<char>,
    now: int,
    n: i64,
    r: KvResult<Option<String>>,
)
    requires
        well_placed(v0),
        hset_post(v0, v1, k, f, x, now, Ok(n)),
        hget_reply(v1, k, f, now, r),
        now >= 0,
    ensures
        r matches Ok(Some(y)) && y@ == x,
{
    let b = entry_for_write(v0, k, now, ValueView::Hash(Map::empty()));
    let h = b.value->Hash_0;
    assert(!expired_at(b, now));
    lemma_read_back(v0, k, EntryView { value: ValueView::Hash(h.insert(f, x)), ..b }, now);
}

/// Every member SADD adds is then a member.
pub proof fn law_sadd_then_sismember(
    v0: StoreView,
    v1: StoreView,
    k: Seq<char>,
    members: Seq<Seq<char>>,
    m: Seq<char>,
    now: int,
    n: i64,
    r: KvResult<bool>,
)
    requires
        well_placed(v0),
        sadd_post(v0, v1, k, members, now, Ok(n)),
        members.contains(m),
        sismember_reply(v1, k, m, now, r),
        now >= 0,
    ensures
        r == Ok::<bool, KvError>(true),
{
    let b = entry_for_write(v0, k, now, ValueView::StrSet(Set::empty()));
    let st = b.value->StrSet_0;
    assert(!expired_at(b, now));
    lemma_read_back(v0, k, EntryView { value: ValueView::StrSet(st + members.to_set()), ..b }, now);
    assert(members.to_set().contains(m));
}

/// The score a sorted set ends with for `m` after setting pairs in turn:
/// that of the last pair naming `m`.
proof fn lemma_zinsert_last(z: Map<Seq<char>, u64>, pairs: Seq<(u64, Seq<char>)>, i: int)
    requires
        0 <= i < pairs.len(),
        forall|j: int| i < j < pairs.len() ==> (#[trigger] pairs[j]).1 != pairs[i].1,
    ensures
        zinsert_all(z, pairs).contains_key(pairs[i].1),
        zinsert_all(z, pairs)[pairs[i].1] == pairs[i].0,
    decreases pairs.len(),
{
    if i < pairs.len() - 1 {
        let rest = pairs.drop_last();
        assert forall|j: int| i < j < rest.len() implies (#[trigger] rest[j]).1 != rest[i].1 by {
            assert(rest[j] == pairs[j]);
        }
        lemma_zinsert_last(z, rest, i);
        assert(pairs.last() == pairs[pairs.len() - 1]);
    }
}

/// After ZADD, ZSCORE of a member answers the score of the last pair that
/// named it.
pub proof fn law_zadd_then_zscore(
    v0: StoreView,
    v1: StoreView,
    k: Seq<char>,
    pairs: Seq<(u64, Seq<char>)>,
    i: int,
    now: int,
    n: i64,
    r: KvResult<Option<u64>>,
)
    requires
        well_placed(v0),
        zadd_post(v0, v1, k, pairs, now, Ok(n)),
        0 <= i < pairs.len(),
        forall|j: int| i < j < pairs.len() ==> (#[trigger] pairs[j]).1 != pairs[i].1,
        zscore_reply(v1, k, pairs[i].1, now, r),
        now >= 0,
    ensures
        r == Ok::<Option<u64>, KvError>(Some(pairs[i].0)),
{
    let b = entry_for_write(v0, k, now, ValueView::ZSet(Map::empty()));
    let z = b.value->ZSet_0;
    assert(!expired_at(b, now));
    lemma_read_back(v0, k, EntryView { value: ValueView::ZSet(zinsert_all(z, pairs)), ..b }, now);
    lemma_zinsert_last(z, pairs, i);
}

/// ZSCORE reads back the score ZINCRBY stored.
pub proof fn law_zput_then_zscore(
    v0: StoreView,
    v1: StoreView,
    k: Seq<char>,
    m: Seq<char>,
    score: u64,
    now: int,
    r: KvResult<Option<u64>>,
)
    requires
        well_placed(v0),
        zput_post(v0, v1, k, m, score, now, Ok(())),
        zscore_reply(v1, k, m, now, r),
        now >= 0,
    ensures
        r == Ok::<Option<u64>, KvError>(Some(score)),
{
    let b = match live_entry(v0, k, now) {
        Some(e) => e,
        None => EntryView { value: ValueView::ZSet(Map::empty()), expires_at_ms: None, last_accessed_ms: now as i64 },
    };
    let z = b.value->ZSet_0;
    assert(!expired_at(b, now));
    lemma_read_back(v0, k, EntryView { value: ValueView::ZSet(z.insert(m, score)), ..b }, now);
}

/// ZRANGE 0 -1 lists every member once, in increasing order of score and
/// then of member.
pub proof fn law_zrange_all_sorted(out: Seq<(Seq<char>, u64)>, z: Map<Seq<char>, u64>)
    requires
        z.dom().finite(),
        zrange_ok(out, z, 0, -1, false),
    ensures
        out.len() == z.len(),
        forall|i: int, j: int| 0 <= i < j < out.len() ==> zlt(#[trigger] out[i].1, out[i].0, #[trigger] out[j].1, out[j].0),
        forall|m: Seq<char>| #[trigger] z.contains_key(m) ==> exists|i: int| 0 <= i < out.len() && out[i].0 == m,
{
    let n = z.len() as int;
    assert forall|i: int| 0 <= i < out.len() implies #[trigger] z.contains_key(out[i].0) && z[out[i].0] == out[i].1
        && crate::zorder::rank(z, out[i].0) == i by {
        assert(placed(z, out[i].0, out[i].1, range_pos(n, 0, i, false)));
    }
    assert forall|i: int, j: int| 0 <= i < j < out.len() implies zlt(#[trigger] out[i].1, out[i].0, #[trigger] out[j].1, out[j].0) by {
        assert(z.contains_key(out[i].0) && z.contains_key(out[j].0));
        lemma_rank_reflects_order(z, out[i].0, out[j].0);
    }
    assert(is_listing(out, z));
    lemma_listing_covers(out, z);
}

/// After FLUSHALL there are no keys at all.
pub proof fn law_flush_empties(v0: StoreView, v1: StoreView, k: Seq<char>, now: int)
    requires
        flushed(v0, v1),
    ensures
        entry_of(v1, k).is_none(),
        live_keys(v1, now) == Set::<Seq<char>>::empty(),
        live_keys(v1, now).len() == 0,
{
    assert(v1.shards[shard_of(k)] == Map::<Seq<char>, EntryView>::empty());
    assert forall|x: Seq<char>| !live_keys(v1, now).contains(x) by {
        assert(v1.shards[shard_of(x)] == Map::<Seq<char>, EntryView>::empty());
    }
    assert(live_keys(v1, now) =~= Set::<Seq<char>>::empty());
}

/// Purging drops exactly the expired entries: every live key reads the
/// same, and no expired entry is left.
pub proof fn law_purge_keeps_live(v: StoreView, k: Seq<char>, now: int)
    requires
        well_placed(v),
    ensures
        live_entry(purged_all(v, now), k, now) == live_entry(v, k, now),
        entry_of(purged_all(v, now), k) matches Some(e) ==> !expired_at(e, now),
{
}

/// The LRU check keeps a shard within its key limit: after a SET, the
/// key's shard holds no more keys than before or than the limit.
pub proof fn law_set_bounded(v0: StoreView, v1: StoreView, k: Seq<char>, s: Seq<char>, expire_ms: Option<i64>, now: int)
    requires
        well_placed(v0),
        set_post(v0, v1, k, s, expire_ms, now, Ok(())),
    ensures
        v1.shards[shard_of(k)].len() <= v0.shards[shard_of(k)].len() || v1.shards[shard_of(k)].len() <= v0.cap,
{
    let i = shard_of(k);
    let e = string_entry(s, deadline(expire_ms, now), now);
    let mid = choose|mid: StoreView| evicted(v0, i, mid) && v1 == with_entry(mid, k, Some(e));
    let m = v0.shards[i];
    let m2 = mid.shards[i];
    assert(m.dom().finite());
    if m.len() >= v0.cap {
        let victim = choose|x: Seq<char>| crate::store::lru_victim(m, x) && m2 == m.remove(x);
        assert(m2.dom() =~= m.dom().remove(victim));
        assert(m2.len() == m.len() - 1);
    }
    assert(m2.dom().finite());
    assert(v1.shards[i] == m2.insert(k, e));
    assert(m2.insert(k, e).dom() =~= m2.dom().insert(k));
}

/// Every write that may create a key (LPUSH/RPUSH, HSET, SADD, ZADD, the
/// score store of ZINCRBY, INCRBY on a new key) keeps the key's shard within
/// its limit: afterwards it holds no more keys than before or than the limit.
pub proof fn law_write_bounded(v0: StoreView, v1: StoreView, k: Seq<char>, now: int, e: EntryView)
    requires
        well_placed(v0),
        written(v0, k, now, e, v1),
    ensures
        v1.shards[shard_of(k)].len() <= v0.shards[shard_of(k)].len() || v1.shards[shard_of(k)].len() <= v0.cap,
{
    let i = shard_of(k);
    let mid = choose|mid: StoreView| #[trigger] room_for(v0, k, now, mid) && v1 == with_entry(mid, k, Some(e));
    let m = v0.shards[i];
    assert(m.dom().finite());
    if live_entry(v0, k, now).is_some() {
        assert(m.contains_key(k));
        assert(v1.shards[i] == m.insert(k, e));
        assert(m.insert(k, e).dom() =~= m.dom());
    } else {
        let p = purge_key(v0, k, now);
        let pm = p.shards[i];
        assert(!pm.contains_key(k)) by {
            if m.contains_key(k) {
                assert(pm =~= m.remove(k));
            }
        }
        assert(pm.len() <= m.len()) by {
            if m.contains_key(k) && pm != m {
                assert(pm.dom() =~= m.dom().remove(k));
            }
        }
        assert(pm.dom().finite());
        let m2 = mid.shards[i];
        if pm.len() >= v0.cap {
            let victim = choose|x: Seq<char>| crate::store::lru_victim(pm, x) && m2 == pm.remove(x);
            assert(m2.dom() =~= pm.dom().remove(victim));
        }
        assert(m2.dom().finite());
        assert(!m2.contains_key(k));
        assert(v1.shards[i] == m2.insert(k, e));
        assert(m2.insert(k, e).dom() =~= m2.dom().insert(k));
    }
}

/// Loading a list of entries with distinct keys: each entry not expired at
/// `now` is stored under its key; the other keys keep what they had.
proof fn lemma_restored_entries(v: StoreView, es: Seq<(String, Entry)>, now: int, k: Seq<char>)
    requires
        v.shards.len() == NUM_SHARDS,
        entry_keys(es).no_duplicates(),
        forall|j: int| 0 <= j < es.len() ==> (#[trigger] es[j]).1.wf(),
    ensures
        restored(v, es, now).shards.len() == NUM_SHARDS,
        forall|j: int| 0 <= j < es.len() ==> entry_of(restored(v, es, now), #[trigger] es[j].0@) == if expired_at(es[j].1@, now) {
            entry_of(v, es[j].0@)
        } else {
            Some(es[j].1@)
        },
        !entry_keys(es).contains(k) ==> entry_of(restored(v, es, now), k) == entry_of(v, k),
    decreases es.len(),
{
    if es.len() > 0 {
        let rest = es.drop_last();
        let last = es.last();
        assert(entry_keys(rest) =~= entry_keys(es).drop_last());
        assert forall|j: int| 0 <= j < rest.len() implies (#[trigger] rest[j]).1.wf() by {
            assert(rest[j] == es[j]);
        }
        lemma_restored_entries(v, rest, now, k);
        lemma_restored_entries(v, rest, now, last.0@);
        let w = restored(v, rest, now);
        assert(es[es.len() - 1] == last);
        let kept = !expired_at(last.1@, now);
        assert(restored(v, es, now) == if kept { with_entry(w, last.0@, Some(last.1@)) } else { w });
        assert(!entry_keys(rest).contains(last.0@)) by {
            if entry_keys(rest).contains(last.0@) {
                let j = choose|j: int| 0 <= j < entry_keys(rest).len() && entry_keys(rest)[j] == last.0@;
                assert(entry_keys(es)[j] == entry_keys(es)[es.len() - 1]);
            }
        }
        assert forall|j: int| 0 <= j < es.len() implies entry_of(restored(v, es, now), #[trigger] es[j].0@) == if expired_at(es[j].1@, now) {
            entry_of(v, es[j].0@)
        } else {
            Some(es[j].1@)
        } by {
            lemma_entry_of_with_entry(w, last.0@, Some(last.1@), es[j].0@);
            if j < es.len() - 1 {
                assert(rest[j] == es[j]);
                assert(entry_keys(es)[j] != entry_keys(es)[es.len() - 1]);
            }
        }
        lemma_entry_of_with_entry(w, last.0@, Some(last.1@), k);
        if !entry_keys(es).contains(k) {
            assert(entry_keys(es)[es.len() - 1] == last.0@);
            if entry_keys(rest).contains(k) {
                let j = choose|j: int| 0 <= j < entry_keys(rest).len() && entry_keys(rest)[j] == k;
                assert(entry_keys(es)[j] == k);
            }
        }
    }
}

/// Saving then loading: a snapshot of a store taken at `saved`, loaded at a
/// later time `loaded` into a store without keys, gives every key the entry
/// it has at `loaded`: what had expired meanwhile is left out, the rest is
/// all there.
pub proof fn law_snapshot_roundtrip(
    v: StoreView,
    empty: StoreView,
    es: Seq<(String, Entry)>,
    k: Seq<char>,
    saved: int,
    loaded: int,
)
    requires
        well_placed(v),
        is_snapshot(v, saved, es),
        saved <= loaded,
        empty.shards.len() == NUM_SHARDS,
        forall|i: int| 0 <= i < NUM_SHARDS ==> (#[trigger] empty.shards[i]) == Map::<Seq<char>, EntryView>::empty(),
    ensures
        live_entry(restored(empty, es, loaded), k, loaded) == live_entry(v, k, loaded),
{
    assert forall|j: int| 0 <= j < es.len() implies (#[trigger] es[j]).1.wf() by {
        assert(live_entry(v, es[j].0@, saved) == Some(es[j].1@));
    }
    lemma_restored_entries(empty, es, loaded, k);
    assert(empty.shards[shard_of(k)] == Map::<Seq<char>, EntryView>::empty());
    if live_entry(v, k, loaded).is_some() {
        assert(live_entry(v, k, saved).is_some());
        let j = choose|j: int| 0 <= j < es.len() && es[j].0@ == k;
        assert(live_entry(v, es[j].0@, saved) == Some(es[j].1@));
        assert(entry_of(restored(empty, es, loaded), es[j].0@) == Some(es[j].1@));
    } else {
        if entry_keys(es).contains(k) {
            let j = choose|j: int| 0 <= j < entry_keys(es).len() && entry_keys(es)[j] == k;
            assert(es[j].0@ == k);
            assert(live_entry(v, es[j].0@, saved) == Some(es[j].1@));
            assert(entry_of(restored(empty, es, loaded), es[j].0@) == entry_of(empty, k));
        }
    }
}

/// A session after taking `inputs` in turn, with the steps it took.
pub open spec fn run_session(s: SessionView, inputs: Seq<Seq<Seq<char>>>, password: Seq<char>) -> (SessionView, Seq<StepView>)
    decreases inputs.len(),
{
    if inputs.len() == 0 {
        (s, Seq::empty())
    } else {
        let (mid, steps) = run_session(s, inputs.drop_last(), password);
        let (next, step) = session_next(mid, inputs.last(), password);
        (next, steps.push(step))
    }
}

/// `n` QUEUED replies.
pub open spec fn queued_replies(n: nat) -> Seq<StepView> {
    Seq::new(n, |i: int| StepView::Reply("+QUEUED\r\n"@))
}

/// Whether an upper-cased command name ends or opens a transaction, or
/// closes the connection.
pub open spec fn tx_control(cmd: Seq<char>) -> bool {
    cmd == "EXEC"@ || cmd == "DISCARD"@ || cmd == "MULTI"@ || cmd == "QUIT"@
}

/// The names of the connection commands differ from each other.
proof fn lemma_session_names()
    ensures
        "AUTH"@ != "QUIT"@,
        "MULTI"@ != "AUTH"@ && "MULTI"@ != "QUIT"@,
        "DISCARD"@ != "AUTH"@ && "DISCARD"@ != "QUIT"@ && "DISCARD"@ != "MULTI"@,
        "EXEC"@ != "AUTH"@ && "EXEC"@ != "QUIT"@ && "EXEC"@ != "MULTI"@ && "EXEC"@ != "DISCARD"@,
{
    reveal_strlit("AUTH");
    reveal_strlit("QUIT");
    reveal_strlit("MULTI");
    reveal_strlit("DISCARD");
    reveal_strlit("EXEC");
    assert("AUTH"@[0] != "QUIT"@[0]);
    assert("MULTI"@[0] != "AUTH"@[0] && "MULTI"@[0] != "QUIT"@[0]);
    assert("DISCARD"@[0] != "AUTH"@[0] && "DISCARD"@[0] != "QUIT"@[0] && "DISCARD"@[0] != "MULTI"@[0]);
    assert("EXEC"@[0] != "AUTH"@[0] && "EXEC"@[0] != "QUIT"@[0] && "EXEC"@[0] != "MULTI"@[0] && "EXEC"@[0] != "DISCARD"@[0]);
}

/// Inside a transaction, commands are queued in order, each answered
/// QUEUED.
proof fn lemma_queueing(s: SessionView, multi: Seq<Seq<char>>, cmds: Seq<Seq<Seq<char>>>, password: Seq<char>)
    requires
        s.authenticated,
        !s.in_tx,
        multi.len() >= 1,
        upper_case(multi[0]) == "MULTI"@,
        forall|i: int| 0 <= i < cmds.len() ==> (#[trigger] cmds[i]).len() >= 1 && !tx_control(upper_case(cmds[i][0])),
    ensures
        run_session(s, seq![multi] + cmds, password) == (
            SessionView { in_tx: true, queue: cmds, ..s },
            seq![StepView::Reply(ok_reply())] + queued_replies(cmds.len()),
        ),
    decreases cmds.len(),
{
    let inputs = seq![multi] + cmds;
    lemma_session_names();
    if cmds.len() == 0 {
        assert(inputs.drop_last() =~= Seq::<Seq<Seq<char>>>::empty());
        assert(inputs.last() == multi);
        assert(seq![StepView::Reply(ok_reply())] + queued_replies(0)
            =~= Seq::<StepView>::empty().push(StepView::Reply(ok_reply())));
        assert(Seq::<Seq<Seq<char>>>::empty() =~= cmds);
        assert(run_session(s, inputs.drop_last(), password) == (s, Seq::<StepView>::empty()));
        assert(session_next(s, multi, password) == (
            SessionView { in_tx: true, queue: Seq::empty(), ..s },
            StepView::Reply(ok_reply()),
        ));
        assert(run_session(s, inputs, password) == (
            SessionView { in_tx: true, queue: Seq::empty(), ..s },
            Seq::<StepView>::empty().push(StepView::Reply(ok_reply())),
        ));
    } else {
        let rest = cmds.drop_last();
        assert forall|i: int| 0 <= i < rest.len() implies (#[trigger] rest[i]).len() >= 1 && !tx_control(upper_case(rest[i][0])) by {
            assert(rest[i] == cmds[i]);
        }
        lemma_queueing(s, multi, rest, password);
        assert(inputs.drop_last() =~= seq![multi] + rest);
        assert(inputs.last() == cmds[cmds.len() - 1]);
        assert(rest.push(cmds.last()) =~= cmds);
        let mid = SessionView { in_tx: true, queue: rest, ..s };
        assert(cmds.last().len() >= 1 && !tx_control(upper_case(cmds.last()[0])));
        assert(session_next(mid, cmds.last(), password) == (
            SessionView { queue: rest.push(cmds.last()), ..mid },
            StepView::Reply("+QUEUED\r\n"@),
        ));
        assert((seq![StepView::Reply(ok_reply())] + queued_replies(rest.len())).push(
            StepView::Reply("+QUEUED\r\n"@),
        ) =~= seq![StepView::Reply(ok_reply())] + queued_replies(cmds.len()));
        assert(run_session(s, inputs.drop_last(), password) == (
            mid,
            seq![StepView::Reply(ok_reply())] + queued_replies(rest.len()),
        ));
        assert(run_session(s, inputs, password) == (
            SessionView { queue: rest.push(cmds.last()), ..mid },
            (seq![StepView::Reply(ok_reply())] + queued_replies(rest.len())).push(StepView::Reply("+QUEUED\r\n"@)),
        ));
    }
}

/// A transaction: after MULTI, every command up to EXEC is queued (and
/// answered QUEUED); EXEC then runs them all, in the order they came,
/// under a header that counts them, and the session leaves the transaction.
pub proof fn law_multi_exec(s: SessionView, multi: Seq<Seq<char>>, cmds: Seq<Seq<Seq<char>>>, exec: Seq<Seq<char>>, password: Seq<char>)
    requires
        s.authenticated,
        !s.in_tx,
        multi.len() >= 1,
        upper_case(multi[0]) == "MULTI"@,
        exec.len() >= 1,
        upper_case(exec[0]) == "EXEC"@,
        forall|i: int| 0 <= i < cmds.len() ==> (#[trigger] cmds[i]).len() >= 1 && !tx_control(upper_case(cmds[i][0])),
    ensures
        run_session(s, seq![multi] + cmds + seq![exec], password) == (
            SessionView { in_tx: false, queue: Seq::empty(), ..s },
            seq![StepView::Reply(ok_reply())] + queued_replies(cmds.len()).push(
                StepView::RunAll(seq!['*'] + decimal(cmds.len() as int) + crlf(), named_batch(cmds)),
            ),
        ),
{
    lemma_queueing(s, multi, cmds, password);
    lemma_session_names();
    let inputs = seq![multi] + cmds + seq![exec];
    assert(inputs.drop_last() =~= seq![multi] + cmds);
    assert(inputs.last() == exec);
    let mid = SessionView { in_tx: true, queue: cmds, ..s };
    assert(session_next(mid, exec, password) == (
        SessionView { in_tx: false, queue: Seq::empty(), ..s },
        StepView::RunAll(seq!['*'] + decimal(cmds.len() as int) + crlf(), named_batch(cmds)),
    ));
}

/// A transaction given up: after MULTI, commands up to DISCARD are queued
/// and then dropped; none runs, and the session leaves the transaction.
pub proof fn law_multi_discard(s: SessionView, multi: Seq<Seq<char>>, cmds: Seq<Seq<Seq<char>>>, discard: Seq<Seq<char>>, password: Seq<char>)
    requires
        s.authenticated,
        !s.in_tx,
        multi.len() >= 1,
        upper_case(multi[0]) == "MULTI"@,
        discard.len() >= 1,
        upper_case(discard[0]) == "DISCARD"@,
        forall|i: int| 0 <= i < cmds.len() ==> (#[trigger] cmds[i]).len() >= 1 && !tx_control(upper_case(cmds[i][0])),
    ensures
        run_session(s, seq![multi] + cmds + seq![discard], password) == (
            SessionView { in_tx: false, queue: Seq::empty(), ..s },
            seq![StepView::Reply(ok_reply())] + queued_replies(cmds.len()).push(
                StepView::Reply(ok_reply()),
            ),
        ),
{
    lemma_queueing(s, multi, cmds, password);
    lemma_session_names();
    let inputs = seq![multi] + cmds + seq![discard];
    assert(inputs.drop_last() =~= seq![multi] + cmds);
    assert(inputs.last() == discard);
    let mid = SessionView { in_tx: true, queue: cmds, ..s };
    assert(session_next(mid, discard, password) == (
        SessionView { in_tx: false, queue: Seq::empty(), ..s },
        StepView::Reply(ok_reply()),
    ));
}

/// Outside a transaction, EXEC and DISCARD are refused with their errors,
/// run nothing and leave the session as it was. After a DISCARD
/// (`law_multi_discard`) the session is outside a transaction, so the
/// discarded commands never run, not even on a later EXEC.
pub proof fn law_exec_discard_without_multi(s: SessionView, ps: Seq<Seq<char>>, password: Seq<char>)
    requires
        s.authenticated,
        !s.in_tx,
        ps.len() >= 1,
        upper_case(ps[0]) == "EXEC"@ || upper_case(ps[0]) == "DISCARD"@,
    ensures
        session_next(s, ps, password) == (
            s,
            StepView::Reply(
                if upper_case(ps[0]) == "EXEC"@ { err_reply("EXEC without MULTI"@) } else { err_reply("DISCARD without MULTI"@) },
            ),
        ),
{
    lemma_session_names();
}

/// The authentication gate: before a successful AUTH, every command but
/// AUTH and QUIT is refused with NOAUTH and changes nothing; AUTH with the
/// password opens the session.
pub proof fn law_auth_gate(s: SessionView, ps: Seq<Seq<char>>, password: Seq<char>)
    requires
        !s.authenticated,
        ps.len() >= 1,
    ensures
        upper_case(ps[0]) != "AUTH"@ && upper_case(ps[0]) != "QUIT"@ ==> session_next(s, ps, password) == (s, StepView::Reply(noauth_reply())),
        upper_case(ps[0]) == "AUTH"@ && ps.len() == 2 && ps[1] == password && !s.in_tx ==> session_next(s, ps, password).0
            == (SessionView { authenticated: true, ..s }),
{
    lemma_session_names();
}

/// A line made of a marker and the decimal text of a count, ended by CRLF,
/// loses only its line end and reads back the count after the marker.
proof fn lemma_count_line(marker: char, n: usize)
    ensures
        trim_newlines(seq![marker] + decimal(n as int) + crlf()) == seq![marker] + digits(n as nat),
        (seq![marker] + digits(n as nat))[0] == marker,
        parse_usize_spec((seq![marker] + digits(n as nat)).drop_first()) == Some(n),
{
    let body = seq![marker] + digits(n as nat);
    let line = seq![marker] + decimal(n as int) + crlf();
    lemma_digits_roundtrip(n as nat);
    assert(decimal(n as int) == digits(n as nat));
    assert(line.drop_last() =~= body.push('\r'));
    assert(line.drop_last().drop_last() =~= body);
    assert(body.last() == digits(n as nat).last());
    assert(digits(n as nat).len() > 0);
    assert(crate::text::is_digit(digits(n as nat)[digits(n as nat).len() - 1]));
    assert(trim_newlines(body) == body);
    assert(trim_newlines(line.drop_last()) == trim_newlines(body));
    assert(body.drop_first() =~= digits(n as nat));
}

/// An array header as a client writes it (`*n` and CRLF) announces an array
/// of `n` bulk strings.
pub proof fn law_array_header(n: usize)
    ensures
        frame_start_spec(seq!['*'] + decimal(n as int) + crlf()) == FrameStartView::Array(n),
{
    lemma_count_line('*', n);
}

/// A bulk header as the server writes it for a reply (`$n` and CRLF) reads
/// back as `n` bytes to follow.
pub proof fn law_bulk_header(n: usize)
    ensures
        bulk_len_spec(seq!['$'] + decimal(n as int) + crlf()) == Ok::<usize, Seq<char>>(n),
{
    lemma_count_line('$', n);
}

/// Whether `r` is one line: a first character, then characters that are
/// not line breaks, then CRLF.
pub open spec fn one_line(r: Seq<char>) -> bool {
    &&& r.len() >= 3
    &&& r.subrange(r.len() - 2, r.len() as int) == crlf()
    &&& forall|i: int| 0 <= i < r.len() - 2 ==> #[trigger] r[i] != '\r' && r[i] != '\n'
}

proof fn lemma_error_line(e: KvError)
    ensures
        one_line(error_reply(e)),
        error_reply(e)[0] == '-',
{
    match e {
        KvError::WrongType => reveal_strlit("-WRONGTYPE Operation against a key holding the wrong kind of value\r\n"),
        KvError::NotInteger => reveal_strlit("-ERR value is not an integer or out of range\r\n"),
        KvError::Overflow => reveal_strlit("-ERR increment or decrement would overflow\r\n"),
        KvError::NotFound => reveal_strlit("-ERR no such key\r\n"),
        KvError::SyntaxError => reveal_strlit("-ERR syntax error\r\n"),
        KvError::InvalidExpiry => reveal_strlit("-ERR invalid expire time in command\r\n"),
    }
    assert(error_reply(e).subrange(error_reply(e).len() - 2, error_reply(e).len() as int) =~= crlf());
}

/// The error replies are single lines starting with `-`, and different
/// errors are answered with different lines.
pub proof fn law_error_lines(e1: KvError, e2: KvError)
    ensures
        one_line(error_reply(e1)),
        error_reply(e1)[0] == '-',
        e1 != e2 ==> error_reply(e1) != error_reply(e2),
{
    lemma_error_line(e1);
    reveal_strlit("-WRONGTYPE Operation against a key holding the wrong kind of value\r\n");
    reveal_strlit("-ERR value is not an integer or out of range\r\n");
    reveal_strlit("-ERR increment or decrement would overflow\r\n");
    reveal_strlit("-ERR no such key\r\n");
    reveal_strlit("-ERR syntax error\r\n");
    reveal_strlit("-ERR invalid expire time in command\r\n");
}

} // verus!
