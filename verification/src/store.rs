//! The sharded store: its state, its model and the generic key operations.
//!
//! Keys are spread over 16 shards by their hash; each shard is a map from
//! keys to entries. The model (`StoreView`) is the sequence of the shard maps
//! and the per-shard key limit. Operations that take a time `now` are exact;
//! the ones without it read the clock once and then do the same.
use vstd::prelude::*;
use std::hash::{BuildHasher, BuildHasherDefault, DefaultHasher};
use crate::clock::now_ms;
use crate::entry::{Entry, EntryView, ValueView, expired_at};

use crate::glob::{glob, glob_match};
use crate::seqs::{lemma_string_seq_append, lemma_string_seq_push, lemma_take_step_contains, string_seq};
use vstd::string::StringSliceAdditionalSpecFns;
use crate::strmap::{StrMap, Value};

verus! {

/// Number of shards.
pub const NUM_SHARDS: usize = 16;

/// The value of `DefaultHasher` on a key: what `hash_key` returns.
pub uninterp spec fn default_hash(key: Seq<char>) -> u64;

/// Hashes a key with `std::hash::DefaultHasher`: `BuildHasher::hash_one` on
/// a `BuildHasherDefault<DefaultHasher>`, which builds a hasher with
/// `DefaultHasher::new`, feeds it the key and finishes it. Such a hasher
/// always starts from the same keys, so the result is a function of the key
/// alone; the contract names it and claims nothing else.
#[verifier::external_body]
fn hash_key(key: &str) -> (h: u64)
    ensures
        h == default_hash(key@),
{
    BuildHasherDefault::<DefaultHasher>::default().hash_one(key)
}

/// The shard that holds a key.
pub open spec fn shard_of(k: Seq<char>) -> int {
    (default_hash(k) % 16) as int
}

/// The shard index of a key.
fn shard_idx(key: &str) -> (i: usize)
    ensures
        i == shard_of(key@),
        i < NUM_SHARDS,
{
    let h = hash_key(key);
    (h % 16) as usize
}

/// The model of the store: one map per shard, and how many keys a shard
/// holds before the least recently used one is evicted.
pub struct StoreView {
    pub shards: Seq<Map<Seq<char>, EntryView>>,
    pub cap: int,
}

/// Every key stands in the shard its hash selects.
pub open spec fn well_placed(v: StoreView) -> bool {
    &&& v.shards.len() == NUM_SHARDS
    &&& v.cap >= 1
    &&& forall|i: int, k: Seq<char>|
        0 <= i < NUM_SHARDS && #[trigger] v.shards[i].contains_key(k) ==> shard_of(k) == i
    &&& forall|i: int| 0 <= i < NUM_SHARDS ==> (#[trigger] v.shards[i]).dom().finite()
}

/// The entry stored under `k`, expired or not.
pub open spec fn entry_of(v: StoreView, k: Seq<char>) -> Option<EntryView> {
    let m = v.shards[shard_of(k)];
    if m.contains_key(k) {
        Some(m[k])
    } else {
        None
    }
}

/// The entry stored under `k` if it has not expired at `now`.
pub open spec fn live_entry(v: StoreView, k: Seq<char>, now: int) -> Option<EntryView> {
    match entry_of(v, k) {
        Some(e) => if expired_at(e, now) {
            None
        } else {
            Some(e)
        },
        None => None,
    }
}

/// The store with the entry of `k` set to `e` (removed when `None`).
pub open spec fn with_entry(v: StoreView, k: Seq<char>, e: Option<EntryView>) -> StoreView {
    let i = shard_of(k);
    let m = v.shards[i];
    StoreView {
        shards: v.shards.update(
            i,
            match e {
                Some(e) => m.insert(k, e),
                None => m.remove(k),
            },
        ),
        cap: v.cap,
    }
}

/// The store after dropping `k` if it has expired at `now`.
pub open spec fn purge_key(v: StoreView, k: Seq<char>, now: int) -> StoreView {
    match entry_of(v, k) {
        Some(e) => if expired_at(e, now) {
            with_entry(v, k, None)
        } else {
            v
        },
        None => v,
    }
}

/// The entry `e` with its last use set to `now`.
pub open spec fn touched(e: EntryView, now: int) -> EntryView {
    EntryView { last_accessed_ms: now as i64, ..e }
}

/// The entry a write command works on: the live entry, marked used at
/// `now`, or else a fresh entry holding `empty`.
pub open spec fn entry_for_write(v: StoreView, k: Seq<char>, now: int, empty: ValueView) -> EntryView {
    match live_entry(v, k, now) {
        Some(e) => touched(e, now),
        None => EntryView { value: empty, expires_at_ms: None, last_accessed_ms: now as i64 },
    }
}

/// `ks` lists each key of `m` once.
pub open spec fn enumerates<V>(ks: Seq<Seq<char>>, m: Map<Seq<char>, V>) -> bool {
    ks.no_duplicates() && ks.to_set() == m.dom()
}

/// `k` is an entry of `m` used no later than any other.
pub open spec fn lru_victim(m: Map<Seq<char>, EntryView>, k: Seq<char>) -> bool {
    &&& m.contains_key(k)
    &&& forall|j: Seq<char>|
        #[trigger] m.contains_key(j) ==> m[k].last_accessed_ms <= m[j].last_accessed_ms
}

/// `m2` is `m` after the eviction check for a shard limit of `cap`: when `m`
/// holds `cap` keys or more, one least recently used key is gone.
pub open spec fn evicts(m: Map<Seq<char>, EntryView>, m2: Map<Seq<char>, EntryView>, cap: int) -> bool {
    if m.len() >= cap {
        exists|k: Seq<char>| lru_victim(m, k) && m2 == m.remove(k)
    } else {
        m2 == m
    }
}

/// `v2` is `v` after the eviction check on shard `i`.
pub open spec fn evicted(v: StoreView, i: int, v2: StoreView) -> bool {
    &&& v2.cap == v.cap
    &&& v2.shards.len() == v.shards.len()
    &&& evicts(v.shards[i], v2.shards[i], v.cap)
    &&& forall|j: int| 0 <= j < v.shards.len() && j != i ==> v2.shards[j] == v.shards[j]
}

/// `mid` is `v` made ready for a write to `k` at `now`: unchanged when `k`
/// is live; otherwise `k`'s expired entry, if any, is dropped and the
/// eviction check runs on `k`'s shard, so that a new key never takes a full
/// shard past its limit.
pub open spec fn room_for(v: StoreView, k: Seq<char>, now: int, mid: StoreView) -> bool {
    if live_entry(v, k, now).is_some() {
        mid == v
    } else {
        evicted(purge_key(v, k, now), shard_of(k), mid)
    }
}

/// `new` is `v` after writing `e` under `k` at `now`, making room first.
pub open spec fn written(v: StoreView, k: Seq<char>, now: int, e: EntryView, new: StoreView) -> bool {
    exists|mid: StoreView| #[trigger] room_for(v, k, now, mid) && new == with_entry(mid, k, Some(e))
}

/// A write after `take_for_write` lands as `written` says; when the key was
/// live, it simply replaces the key's entry.
pub proof fn lemma_written(v: StoreView, after: StoreView, k: Seq<char>, now: int, taken: bool, e: EntryView)
    requires
        well_placed(v),
        taken ==> live_entry(v, k, now).is_some() && after == with_entry(v, k, None),
        !taken ==> live_entry(v, k, now).is_none() && room_for(v, k, now, after),
    ensures
        written(v, k, now, e, with_entry(after, k, Some(e))),
        taken ==> with_entry(after, k, Some(e)) == with_entry(v, k, Some(e)),
{
    if taken {
        lemma_take_then_put(v, k, e);
        assert(room_for(v, k, now, v));
    } else {
        assert(room_for(v, k, now, after));
    }
}

/// Taking an entry out and putting one back under the same key is the same
/// as putting it there.
pub proof fn lemma_take_then_put(v: StoreView, k: Seq<char>, e: EntryView)
    requires
        well_placed(v),
    ensures
        with_entry(with_entry(v, k, None), k, Some(e)) == with_entry(v, k, Some(e)),
{
    let i = shard_of(k);
    assert(v.shards[i].remove(k).insert(k, e) =~= v.shards[i].insert(k, e));
    assert(with_entry(with_entry(v, k, None), k, Some(e)).shards =~= with_entry(v, k, Some(e)).shards);
}

/// Setting the entry of a key twice leaves the second setting.
pub proof fn lemma_with_entry_twice(v: StoreView, k: Seq<char>, a: Option<EntryView>, b: Option<EntryView>)
    requires
        v.shards.len() == NUM_SHARDS,
    ensures
        with_entry(with_entry(v, k, a), k, b) == with_entry(v, k, b),
{
    let i = shard_of(k);
    let m = v.shards[i];
    let m1 = match a {
        Some(e) => m.insert(k, e),
        None => m.remove(k),
    };
    match b {
        Some(e) => assert(m1.insert(k, e) =~= m.insert(k, e)),
        None => assert(m1.remove(k) =~= m.remove(k)),
    }
    assert(with_entry(with_entry(v, k, a), k, b).shards =~= with_entry(v, k, b).shards);
}

/// Removing a key that is not live is what purging it does.
pub proof fn lemma_take_dead(v: StoreView, k: Seq<char>, now: int)
    requires
        well_placed(v),
        live_entry(v, k, now).is_none(),
    ensures
        with_entry(v, k, None) == purge_key(v, k, now),
{
    let i = shard_of(k);
    if entry_of(v, k).is_none() {
        assert(v.shards[i].remove(k) =~= v.shards[i]);
        assert(with_entry(v, k, None).shards =~= v.shards);
    }
}

/// Putting back the entry a key already holds changes nothing.
pub proof fn lemma_put_back(v: StoreView, k: Seq<char>, e: EntryView)
    requires
        well_placed(v),
        entry_of(v, k) == Some(e),
    ensures
        with_entry(v, k, Some(e)) == v,
{
    let i = shard_of(k);
    assert(v.shards[i].insert(k, e) =~= v.shards[i]);
    assert(with_entry(v, k, Some(e)).shards =~= v.shards);
}

/// Reading a key after changing one entry.
pub proof fn lemma_entry_of_with_entry(v: StoreView, k: Seq<char>, e: Option<EntryView>, x: Seq<char>)
    requires
        v.shards.len() == NUM_SHARDS,
    ensures
        entry_of(with_entry(v, k, e), x) == if x == k {
            e
        } else {
            entry_of(v, x)
        },
{
}

/// Changing one entry keeps every key in its shard.
pub proof fn lemma_with_entry_placed(v: StoreView, k: Seq<char>, e: Option<EntryView>)
    requires
        well_placed(v),
    ensures
        well_placed(with_entry(v, k, e)),
{
    let w = with_entry(v, k, e);
    assert forall|i: int, kk: Seq<char>|
        0 <= i < NUM_SHARDS && #[trigger] w.shards[i].contains_key(kk) implies shard_of(kk) == i by {
        if i != shard_of(k) {
            assert(w.shards[i] == v.shards[i]);
        }
    }
    assert forall|i: int| 0 <= i < NUM_SHARDS implies (#[trigger] w.shards[i]).dom().finite() by {
        if i != shard_of(k) {
            assert(w.shards[i] == v.shards[i]);
        }
    }
}

/// The keys of a shard whose entries are live at `now`.
pub open spec fn live_dom(m: Map<Seq<char>, EntryView>, now: int) -> Set<Seq<char>> {
    m.dom().filter(|k: Seq<char>| !expired_at(m[k], now))
}

/// The keys of the store that are live at `now`.
pub open spec fn live_keys(v: StoreView, now: int) -> Set<Seq<char>> {
    Set::new(|k: Seq<char>| live_entry(v, k, now).is_some())
}

/// The live keys of the shards before shard `i`.
pub open spec fn live_below(v: StoreView, now: int, i: int) -> Set<Seq<char>> {
    Set::new(|k: Seq<char>| shard_of(k) < i && live_entry(v, k, now).is_some())
}

/// How many entries, expired or not, the shards before shard `i` hold.
pub open spec fn stored_upto(v: StoreView, i: int) -> int
    decreases i,
{
    if i <= 0 {
        0
    } else {
        stored_upto(v, i - 1) + v.shards[i - 1].len()
    }
}

/// How many entries, expired or not, the store holds.
pub open spec fn stored_total(v: StoreView) -> int {
    stored_upto(v, NUM_SHARDS as int)
}

/// The store with every expired entry dropped.
pub open spec fn purged_all(v: StoreView, now: int) -> StoreView {
    StoreView {
        shards: Seq::new(v.shards.len(), |i: int| v.shards[i].restrict(live_dom(v.shards[i], now))),
        cap: v.cap,
    }
}

/// The pair is an entry of `m` live at `now`, copied with its key.
pub open spec fn listed_live(m: Map<Seq<char>, EntryView>, p: (String, Entry), now: int) -> bool {
    &&& m.contains_key(p.0@)
    &&& m[p.0@] == p.1@
    &&& !expired_at(p.1@, now)
    &&& p.1.wf()
}

/// The keys of a list of keyed entries.
pub open spec fn entry_keys(es: Seq<(String, Entry)>) -> Seq<Seq<char>> {
    es.map_values(|p: (String, Entry)| p.0@)
}

/// Whether glob `pattern` matches key `k`.
pub open spec fn key_matches(pattern: Seq<char>, k: Seq<char>) -> bool {
    glob(pattern, k)
}

/// The keys of a shard live at `now` that `pattern` matches.
pub open spec fn matching_dom(m: Map<Seq<char>, EntryView>, pattern: Seq<char>, now: int) -> Set<Seq<char>> {
    live_dom(m, now).filter(|k: Seq<char>| key_matches(pattern, k))
}

/// The keys of the store live at `now` that `pattern` matches.
pub open spec fn matching_keys(v: StoreView, pattern: Seq<char>, now: int) -> Set<Seq<char>> {
    Set::new(|k: Seq<char>| live_entry(v, k, now).is_some() && key_matches(pattern, k))
}

/// The live keys below shard `i + 1` are those below `i` and those of shard `i`.
proof fn lemma_live_below_step(v: StoreView, now: int, i: int)
    requires
        well_placed(v),
        0 <= i < NUM_SHARDS,
    ensures
        live_below(v, now, i + 1) == live_below(v, now, i) + live_dom(v.shards[i], now),
        live_below(v, now, i).disjoint(live_dom(v.shards[i], now)),
{
    assert(live_below(v, now, i + 1) =~= live_below(v, now, i) + live_dom(v.shards[i], now));
}

/// The matching live keys of the shards before shard `i`.
pub open spec fn matching_below(v: StoreView, pattern: Seq<char>, now: int, i: int) -> Set<Seq<char>> {
    Set::new(|k: Seq<char>| shard_of(k) < i && live_entry(v, k, now).is_some() && key_matches(pattern, k))
}

proof fn lemma_matching_below_step(v: StoreView, pattern: Seq<char>, now: int, i: int)
    requires
        well_placed(v),
        0 <= i < NUM_SHARDS,
    ensures
        matching_below(v, pattern, now, i + 1) == matching_below(v, pattern, now, i) + matching_dom(v.shards[i], pattern, now),
        matching_below(v, pattern, now, i).disjoint(matching_dom(v.shards[i], pattern, now)),
{
    assert(matching_below(v, pattern, now, i + 1) =~= matching_below(v, pattern, now, i) + matching_dom(v.shards[i], pattern, now));
}

proof fn lemma_stored_upto_same(v: StoreView, w: StoreView, i: int)
    requires
        0 <= i <= v.shards.len(),
        v.shards.len() == w.shards.len(),
        forall|j: int| 0 <= j < i ==> #[trigger] v.shards[j] == w.shards[j],
    ensures
        stored_upto(v, i) == stored_upto(w, i),
    decreases i,
{
    if i > 0 {
        lemma_stored_upto_same(v, w, i - 1);
    }
}

proof fn lemma_stored_upto_mono(v: StoreView, i: int, j: int)
    requires
        0 <= i <= j,
    ensures
        stored_upto(v, i) <= stored_upto(v, j),
    decreases j - i,
{
    if i < j {
        lemma_stored_upto_mono(v, i, j - 1);
    }
}

/// A key's shard.
pub struct Shard {
    entries: StrMap<Entry>,
}

impl Shard {
    pub closed spec fn wf(&self) -> bool {
        self.entries.wf()
    }

    fn new() -> (s: Shard)
        ensures
            s.wf(),
            s.entries@ == Map::<Seq<char>, EntryView>::empty(),
    {
        Shard { entries: StrMap::new() }
    }

    /// Removes `key` and hands back its entry if that entry is live at `now`
    /// (an expired one is dropped).
    fn take_live(&mut self, key: &String, now: i64) -> (r: Option<Entry>)
        requires
            old(self).wf(),
        ensures
            final(self).wf(),
            final(self).entries@ == old(self).entries@.remove(key@),
            match r {
                Some(e) => {
                    &&& old(self).entries@.contains_key(key@)
                    &&& e@ == old(self).entries@[key@]
                    &&& !expired_at(e@, now as int)
                    &&& e.wf()
                },
                None => !old(self).entries@.contains_key(key@) || expired_at(
                    old(self).entries@[key@],
                    now as int,
                ),
            },
    {
        match self.entries.remove(key) {
            Some(e) => {
                if e.is_expired_at(now) {
                    None
                } else {
                    Some(e)
                }
            },
            None => None,
        }
    }

    /// The live entry under `key` at `now`, if any.
    fn get_live(&self, key: &String, now: i64) -> (r: Option<&Entry>)
        requires
            self.wf(),
        ensures
            match r {
                Some(e) => {
                    &&& self.entries@.contains_key(key@)
                    &&& e@ == self.entries@[key@]
                    &&& !expired_at(e@, now as int)
                    &&& e.wf()
                },
                None => !self.entries@.contains_key(key@) || expired_at(
                    self.entries@[key@],
                    now as int,
                ),
            },
    {
        match self.entries.get(key) {
            Some(e) => {
                if e.is_expired_at(now) {
                    None
                } else {
                    Some(e)
                }
            },
            None => None,
        }
    }

    /// How many entries are live at `now`.
    fn count_live(&self, now: i64) -> (n: usize)
        requires
            self.wf(),
        ensures
            n == live_dom(self.entries@, now as int).len(),
            live_dom(self.entries@, now as int).finite(),
    {
        let len = self.entries.len();
        proof {
            self.entries.lemma_storage();
        }
        let ghost m = self.entries@;
        let ghost ks = self.entries.key_seq();
        let mut n: usize = 0;
        let ghost mut acc: Set<Seq<char>> = Set::empty();
        let mut j: usize = 0;
        assert(acc =~= Set::new(|k: Seq<char>| ks.take(0).contains(k) && !expired_at(m[k], now as int)));
        while j < len
            invariant
                self.wf(),
                m == self.entries@,
                ks == self.entries.key_seq(),
                len == ks.len(),
                len == self.entries.val_seq().len(),
                ks.no_duplicates(),
                forall|i: int| 0 <= i < ks.len() ==> #[trigger] m.contains_key(ks[i]) && m[ks[i]] == self.entries.val_seq()[i],
                j <= len,
                acc == Set::new(|k: Seq<char>| ks.take(j as int).contains(k) && !expired_at(m[k], now as int)),
                acc.finite(),
                n == acc.len(),
                n <= j,
            decreases len - j,
        {
            let ghost kj = ks[j as int];
            assert(m.contains_key(kj));
            assert(ks.take(j + 1) =~= ks.take(j as int).push(kj));
            assert forall|k: Seq<char>| ks.take(j + 1).contains(k) <==> (ks.take(j as int).contains(k) || k == kj) by {
                lemma_take_step_contains(ks, j as int, k);
            }
            if !self.entries.value_at(j).is_expired_at(now) {
                assert(!ks.take(j as int).contains(kj));
                proof {
                    acc = acc.insert(kj);
                }
                n = n + 1;
            }
            assert(acc =~= Set::new(|k: Seq<char>| ks.take(j + 1).contains(k) && !expired_at(m[k], now as int)));
            j = j + 1;
        }
        assert(ks.take(len as int) =~= ks);
        assert(acc =~= live_dom(m, now as int));
        n
    }

    /// Copies of the entries live at `now`, each with its key, each key once.
    #[verifier::spinoff_prover]
    fn live_entries(&self, now: i64) -> (out: Vec<(String, Entry)>)
        requires
            self.wf(),
        ensures
            entry_keys(out@).no_duplicates(),
            forall|j: int| 0 <= j < out@.len() ==> listed_live(self.entries@, #[trigger] out@[j], now as int),
            forall|k: Seq<char>| #[trigger] self.entries@.contains_key(k) && !expired_at(self.entries@[k], now as int)
                ==> exists|j: int| 0 <= j < out@.len() && out@[j].0@ == k,
    {
        let len = self.entries.len();
        proof {
            self.entries.lemma_storage();
        }
        let ghost m = self.entries@;
        let ghost ks = self.entries.key_seq();
        let mut out: Vec<(String, Entry)> = Vec::new();
        let mut j: usize = 0;
        while j < len
            invariant
                self.wf(),
                m == self.entries@,
                ks == self.entries.key_seq(),
                len == ks.len(),
                len == self.entries.val_seq().len(),
                ks.no_duplicates(),
                j <= len,
                entry_keys(out@).no_duplicates(),
                forall|a: int| 0 <= a < out@.len() ==> listed_live(m, #[trigger] out@[a], now as int)
                    && ks.take(j as int).contains(out@[a].0@),
                forall|i: int| 0 <= i < j && !expired_at(m[ks[i]], now as int)
                    ==> exists|a: int| 0 <= a < out@.len() && out@[a].0@ == #[trigger] ks[i],
            decreases len - j,
        {
            proof {
                self.entries.lemma_storage();
            }
            let ghost kj = ks[j as int];
            assert(m.contains_key(kj));
            assert forall|k: Seq<char>| ks.take(j + 1).contains(k) <==> (ks.take(j as int).contains(k) || k == kj) by {
                lemma_take_step_contains(ks, j as int, k);
            }
            assert(!ks.take(j as int).contains(kj));
            let key = self.entries.key_at(j);
            let e = self.entries.value_at(j);
            let ghost pre = out@;
            if !e.is_expired_at(now) {
                let item = (key.clone(), e.dup());
                out.push(item);
                assert(listed_live(m, out@[pre.len() as int], now as int));
                assert(entry_keys(out@) =~= entry_keys(pre).push(kj));
                assert forall|a: int, b: int| 0 <= a < b < entry_keys(out@).len() implies entry_keys(out@)[a] != entry_keys(out@)[b] by {
                    if b == pre.len() {
                        assert(out@[a] == pre[a]);
                        assert(ks.take(j as int).contains(pre[a].0@));
                    } else {
                        assert(entry_keys(pre)[a] != entry_keys(pre)[b]);
                    }
                }
                assert forall|i: int| 0 <= i < j + 1 && !expired_at(m[ks[i]], now as int)
                    implies exists|a: int| 0 <= a < out@.len() && out@[a].0@ == #[trigger] ks[i] by {
                    if i < j {
                        let a = choose|a: int| 0 <= a < pre.len() && pre[a].0@ == ks[i];
                        assert(out@[a] == pre[a]);
                    } else {
                        assert(out@[pre.len() as int].0@ == ks[i]);
                    }
                }
            }
            assert forall|a: int| 0 <= a < out@.len() implies listed_live(m, #[trigger] out@[a], now as int)
                && ks.take(j + 1).contains(out@[a].0@) by {
                if a < pre.len() {
                    assert(out@[a] == pre[a]);
                    assert(listed_live(m, pre[a], now as int) && ks.take(j as int).contains(pre[a].0@));
                }
            }
            j = j + 1;
        }
        assert forall|k: Seq<char>| #[trigger] m.contains_key(k) && !expired_at(m[k], now as int)
            implies exists|a: int| 0 <= a < out@.len() && out@[a].0@ == k by {
            let i = choose|i: int| 0 <= i < ks.len() && ks[i] == k;
            assert(ks[i] == k);
        }
        out
    }

    /// The live keys at `now` that `pattern` matches, each once.
    fn matching(&self, pattern: &str, now: i64) -> (out: Vec<String>)
        requires
            self.wf(),
        ensures
            string_seq(out@).to_set() == matching_dom(self.entries@, pattern@, now as int),
            string_seq(out@).no_duplicates(),
    {
        let len = self.entries.len();
        proof {
            self.entries.lemma_storage();
        }
        let ghost m = self.entries@;
        let ghost ks = self.entries.key_seq();
        let ghost p = pattern@;
        let mut out: Vec<String> = Vec::new();
        let mut j: usize = 0;
        assert(string_seq(out@).to_set() =~= Set::new(|k: Seq<char>| ks.take(0).contains(k) && !expired_at(m[k], now as int) && key_matches(p, k)));
        while j < len
            invariant
                self.wf(),
                m == self.entries@,
                ks == self.entries.key_seq(),
                p == pattern@,
                len == ks.len(),
                len == self.entries.val_seq().len(),
                ks.no_duplicates(),
                forall|i: int| 0 <= i < ks.len() ==> #[trigger] m.contains_key(ks[i]) && m[ks[i]] == self.entries.val_seq()[i],
                j <= len,
                string_seq(out@).to_set() == Set::new(|k: Seq<char>| ks.take(j as int).contains(k) && !expired_at(m[k], now as int) && key_matches(p, k)),
                string_seq(out@).no_duplicates(),
                forall|x: Seq<char>| string_seq(out@).contains(x) ==> ks.take(j as int).contains(x),
            decreases len - j,
        {
            let ghost kj = ks[j as int];
            assert(m.contains_key(kj));
            assert forall|k: Seq<char>| ks.take(j + 1).contains(k) <==> (ks.take(j as int).contains(k) || k == kj) by {
                lemma_take_step_contains(ks, j as int, k);
            }
            assert(!ks.take(j as int).contains(kj));
            let key = self.entries.key_at(j);
            if !self.entries.value_at(j).is_expired_at(now) && glob_match(pattern, key.as_str()) {
                let ghost pre = out@;
                let kc = key.clone();
                proof {
                    lemma_string_seq_push(pre, kc);
                }
                out.push(kc);
                assert forall|x: Seq<char>| string_seq(out@).contains(x) implies ks.take(j + 1).contains(x) by {
                    assert(string_seq(out@).to_set().contains(x));
                    if x != kj {
                        assert(string_seq(pre).to_set().contains(x));
                    }
                }
            }
            assert(string_seq(out@).to_set() =~= Set::new(|k: Seq<char>| ks.take(j + 1).contains(k) && !expired_at(m[k], now as int) && key_matches(p, k)));
            j = j + 1;
        }
        assert(ks.take(len as int) =~= ks);
        assert(string_seq(out@).to_set() =~= matching_dom(m, p, now as int));
        out
    }

    /// Drops every entry expired at `now`; the result is how many.
    fn purge(&mut self, now: i64) -> (n: usize)
        requires
            old(self).wf(),
        ensures
            final(self).wf(),
            final(self).entries@ == old(self).entries@.restrict(live_dom(old(self).entries@, now as int)),
            n == old(self).entries@.len() - final(self).entries@.len(),
    {
        let ghost m = self.entries@;
        let total = self.entries.len();
        proof {
            self.entries.lemma_storage();
        }
        let mut kept: StrMap<Entry> = StrMap::new();
        let mut n: usize = 0;
        let ghost mut gone: Set<Seq<char>> = Set::empty();
        loop
            invariant_except_break
                self.entries.wf(),
                kept.wf(),
                self.entries@.dom().finite(),
                forall|k: Seq<char>| #[trigger] self.entries@.contains_key(k) ==> m.contains_key(k) && self.entries@[k] == m[k],
                kept@ == m.restrict(Set::new(|k: Seq<char>| m.contains_key(k) && !self.entries@.contains_key(k) && !expired_at(m[k], now as int))),
                gone == Set::new(|k: Seq<char>| m.contains_key(k) && !self.entries@.contains_key(k) && expired_at(m[k], now as int)),
                gone.finite(),
                n == gone.len(),
                m.dom().finite(),
                total == m.len(),
                m.len() == self.entries@.len() + kept@.len() + gone.len(),
            ensures
                kept.wf(),
                kept@ == m.restrict(live_dom(m, now as int)),
                n == m.len() - kept@.len(),
            decreases self.entries@.len(),
        {
            let ghost rest = self.entries@;
            match self.entries.pop() {
                None => {
                    assert(kept@ =~= m.restrict(live_dom(m, now as int)));
                    break;
                },
                Some((k, e)) => {
                    proof {
                        self.entries.lemma_storage();
                        kept.lemma_storage();
                    }
                    assert(rest.contains_key(k@));
                    assert(!kept@.contains_key(k@));
                    assert(!gone.contains(k@));
                    if e.is_expired_at(now) {
                        proof {
                            assert(!gone.contains(k@));
                            gone = gone.insert(k@);
                        }
                        n = n + 1;
                    } else {
                        kept.insert(k, e);
                    }
                    assert(gone =~= Set::new(|kk: Seq<char>| m.contains_key(kk) && !self.entries@.contains_key(kk) && expired_at(m[kk], now as int)));
                    assert(kept@ =~= m.restrict(Set::new(|kk: Seq<char>| m.contains_key(kk) && !self.entries@.contains_key(kk) && !expired_at(m[kk], now as int))));
                },
            }
        }
        self.entries = kept;
        proof {
            self.entries.lemma_storage();
        }
        n
    }

    /// When the shard holds `max_keys` keys or more, removes one that was
    /// used least recently.
    fn evict_lru_if_needed(&mut self, max_keys: usize)
        requires
            old(self).wf(),
            max_keys >= 1,
        ensures
            final(self).wf(),
            evicts(old(self).entries@, final(self).entries@, max_keys as int),
    {
        let n = self.entries.len();
        if n >= max_keys {
            proof {
                self.entries.lemma_storage();
            }
            let mut best: usize = 0;
            let mut i: usize = 1;
            while i < n
                invariant
                    self.entries.wf(),
                    n == self.entries.key_seq().len(),
                    n == self.entries.val_seq().len(),
                    1 <= i <= n,
                    best < i,
                    forall|j: int|
                        0 <= j < i ==> self.entries.val_seq()[best as int].last_accessed_ms
                            <= #[trigger] self.entries.val_seq()[j].last_accessed_ms,
                decreases n - i,
            {
                let a = self.entries.value_at(i).last_accessed_ms;
                let b = self.entries.value_at(best).last_accessed_ms;
                if a < b {
                    best = i;
                }
                i = i + 1;
            }
            let victim = self.entries.key_at(best).clone();
            let ghost m = self.entries@;
            proof {
                self.entries.lemma_storage();
                assert forall|j: Seq<char>| #[trigger] m.contains_key(j) implies m[victim@].last_accessed_ms
                    <= m[j].last_accessed_ms by {
                    let ji = choose|ji: int|
                        0 <= ji < self.entries.key_seq().len() && self.entries.key_seq()[ji] == j;
                    assert(m.contains_key(self.entries.key_seq()[ji]));
                    assert(m.contains_key(self.entries.key_seq()[best as int]));
                    assert(self.entries.val_seq()[best as int].last_accessed_ms
                        <= self.entries.val_seq()[ji].last_accessed_ms);
                }
                assert(lru_victim(m, victim@));
            }
            self.entries.remove(&victim);
        }
    }
}

/// The key-value store.
pub struct KvStore {
    shards: Vec<Shard>,
    max_keys_per_shard: usize,
    /// The latest time at which an operation that reads the clock ran.
    latest: i64,
}

impl View for KvStore {
    type V = StoreView;

    closed spec fn view(&self) -> StoreView {
        StoreView {
            shards: Seq::new(self.shards@.len(), |i: int| self.shards@[i].entries@),
            cap: self.max_keys_per_shard as int,
        }
    }
}

impl KvStore {
    /// The store is well formed: 16 well-formed shards, a positive limit,
    /// and every key in the shard its hash selects.
    pub closed spec fn wf(&self) -> bool {
        &&& self.shards@.len() == NUM_SHARDS
        &&& self.max_keys_per_shard >= 1
        &&& self.latest >= 0
        &&& forall|i: int| 0 <= i < NUM_SHARDS ==> (#[trigger] self.shards@[i]).wf()
        &&& forall|i: int, k: Seq<char>|
            0 <= i < NUM_SHARDS && #[trigger] self.shards@[i].entries@.contains_key(k)
                ==> shard_of(k) == i
    }

    /// A well-formed store has a well-placed model.
    pub proof fn lemma_well_placed(&self)
        requires
            self.wf(),
        ensures
            well_placed(self@),
    {
        assert forall|i: int| 0 <= i < NUM_SHARDS implies (#[trigger] self@.shards[i]).dom().finite() by {
            self.shards@[i].entries.lemma_storage();
        }
    }

    /// Removes `key`, handing back its entry when it is live at `now`.
    pub(crate) fn take(&mut self, key: &String, now: i64) -> (r: Option<Entry>)
        requires
            old(self).wf(),
        ensures
            final(self).wf(),
            final(self)@ == with_entry(old(self)@, key@, None),
            match r {
                Some(e) => live_entry(old(self)@, key@, now as int) == Some(e@) && e.wf(),
                None => live_entry(old(self)@, key@, now as int).is_none(),
            },
    {
        let i = shard_idx(key.as_str());
        let r = self.shards[i].take_live(key, now);
        proof {
            self.lemma_view_after_shard_change(*old(self), i as int);
        }
        r
    }

    /// Removes `key` for a write at `now`, handing back its entry when it is
    /// live; when it is not, makes room for it in its shard.
    pub(crate) fn take_for_write(&mut self, key: &String, now: i64) -> (r: Option<Entry>)
        requires
            old(self).wf(),
        ensures
            final(self).wf(),
            well_placed(final(self)@),
            match r {
                Some(e) => live_entry(old(self)@, key@, now as int) == Some(e@) && e.wf()
                    && final(self)@ == with_entry(old(self)@, key@, None),
                None => live_entry(old(self)@, key@, now as int).is_none() && room_for(old(self)@, key@, now as int, final(self)@),
            },
    {
        proof {
            old(self).lemma_well_placed();
        }
        let r = self.take(key, now);
        if r.is_none() {
            proof {
                lemma_take_dead(old(self)@, key@, now as int);
            }
            self.evict_for(key);
        }
        proof {
            self.lemma_well_placed();
        }
        r
    }

    /// Removes `key` whether or not it has expired, handing back its entry.
    pub(crate) fn take_any(&mut self, key: &String) -> (r: Option<Entry>)
        requires
            old(self).wf(),
        ensures
            final(self).wf(),
            final(self)@ == with_entry(old(self)@, key@, None),
            match r {
                Some(e) => entry_of(old(self)@, key@) == Some(e@) && e.wf(),
                None => entry_of(old(self)@, key@).is_none(),
            },
    {
        let i = shard_idx(key.as_str());
        let r = self.shards[i].entries.remove(key);
        proof {
            self.lemma_view_after_shard_change(*old(self), i as int);
        }
        r
    }

    /// Stores `e` under `key`.
    pub(crate) fn put(&mut self, key: String, e: Entry)
        requires
            old(self).wf(),
            e.wf(),
        ensures
            final(self).wf(),
            final(self)@ == with_entry(old(self)@, key@, Some(e@)),
    {
        let i = shard_idx(key.as_str());
        self.shards[i].entries.insert(key, e);
        proof {
            self.lemma_view_after_shard_change(*old(self), i as int);
        }
    }

    /// The entry under `key` if it is live at `now`.
    pub(crate) fn peek(&self, key: &String, now: i64) -> (r: Option<&Entry>)
        requires
            self.wf(),
        ensures
            match r {
                Some(e) => live_entry(self@, key@, now as int) == Some(e@) && e.wf(),
                None => live_entry(self@, key@, now as int).is_none(),
            },
    {
        let i = shard_idx(key.as_str());
        self.shards[i].get_live(key, now)
    }

    /// Copies of the entries of shard `i` live at `now`, each key once.
    pub(crate) fn shard_live_entries(&self, i: usize, now: i64) -> (out: Vec<(String, Entry)>)
        requires
            self.wf(),
            i < NUM_SHARDS,
        ensures
            entry_keys(out@).no_duplicates(),
            forall|j: int| 0 <= j < out@.len() ==> {
                &&& shard_of(#[trigger] out@[j].0@) == i
                &&& live_entry(self@, out@[j].0@, now as int) == Some(out@[j].1@)
                &&& out@[j].1.wf()
            },
            forall|k: Seq<char>| shard_of(k) == i && #[trigger] live_entry(self@, k, now as int).is_some()
                ==> exists|j: int| 0 <= j < out@.len() && out@[j].0@ == k,
    {
        let out = self.shards[i].live_entries(now);
        assert forall|j: int| 0 <= j < out@.len() implies {
            &&& shard_of(#[trigger] out@[j].0@) == i
            &&& live_entry(self@, out@[j].0@, now as int) == Some(out@[j].1@)
            &&& out@[j].1.wf()
        } by {
            assert(listed_live(self.shards@[i as int].entries@, out@[j], now as int));
            assert(self.shards@[i as int].entries@.contains_key(out@[j].0@));
            assert(self@.shards[i as int] == self.shards@[i as int].entries@);
        }
        assert forall|k: Seq<char>| shard_of(k) == i && #[trigger] live_entry(self@, k, now as int).is_some()
            implies exists|j: int| 0 <= j < out@.len() && out@[j].0@ == k by {
            assert(self.shards@[i as int].entries@.contains_key(k));
        }
        out
    }

    /// Runs the eviction check on the shard of `key`.
    pub(crate) fn evict_for(&mut self, key: &String)
        requires
            old(self).wf(),
        ensures
            final(self).wf(),
            evicted(old(self)@, shard_of(key@), final(self)@),
    {
        let i = shard_idx(key.as_str());
        let cap = self.max_keys_per_shard;
        self.shards[i].evict_lru_if_needed(cap);
        proof {
            self.lemma_view_after_shard_change(*old(self), i as int);
        }
    }

    /// After a change to shard `i` alone, the model changes in that shard
    /// alone.
    proof fn lemma_view_after_shard_change(&self, pre: KvStore, i: int)
        requires
            pre.wf(),
            0 <= i < NUM_SHARDS,
            self.shards@.len() == NUM_SHARDS,
            self.max_keys_per_shard == pre.max_keys_per_shard,
            self.latest == pre.latest,
            self.shards@[i].wf(),
            forall|k: Seq<char>| #[trigger] self.shards@[i].entries@.contains_key(k) ==> shard_of(k) == i,
            forall|j: int| 0 <= j < NUM_SHARDS && j != i ==> self.shards@[j] == pre.shards@[j],
        ensures
            self.wf(),
            self@ == (StoreView { shards: pre@.shards.update(i, self.shards@[i].entries@), cap: pre@.cap }),
    {
        assert forall|j: int| 0 <= j < NUM_SHARDS implies (#[trigger] self.shards@[j]).wf() by {
            if j != i {
                assert(self.shards@[j] == pre.shards@[j]);
            }
        }
        assert forall|j: int, k: Seq<char>|
            0 <= j < NUM_SHARDS && #[trigger] self.shards@[j].entries@.contains_key(k) implies shard_of(k) == j by {
            if j != i {
                assert(self.shards@[j] == pre.shards@[j]);
                assert(pre.shards@[j].entries@.contains_key(k));
            }
        }
        assert(self@.shards =~= pre@.shards.update(i, self.shards@[i].entries@));
    }

    /// How many entries the store holds, expired ones included, when that
    /// number fits in a `usize`.
    pub fn stored_len(&self) -> (r: Option<usize>)
        requires
            self.wf(),
        ensures
            match r {
                Some(n) => n == stored_total(self@),
                None => stored_total(self@) > usize::MAX,
            },
    {
        let mut total: usize = 0;
        let mut i: usize = 0;
        while i < NUM_SHARDS
            invariant
                self.wf(),
                i <= NUM_SHARDS,
                total == stored_upto(self@, i as int),
            decreases NUM_SHARDS - i,
        {
            let n = self.shards[i].entries.len();
            if total > usize::MAX - n {
                proof {
                    lemma_stored_upto_mono(self@, i + 1, NUM_SHARDS as int);
                }
                return None;
            }
            total = total + n;
            i = i + 1;
        }
        Some(total)
    }

    /// DBSIZE at time `now`: the number of live keys.
    pub fn db_size_at(&self, now: i64) -> (n: usize)
        requires
            self.wf(),
            stored_total(self@) <= usize::MAX,
        ensures
            n == live_keys(self@, now as int).len(),
            live_keys(self@, now as int).finite(),
    {
        proof {
            self.lemma_well_placed();
        }
        let mut total: usize = 0;
        let mut i: usize = 0;
        assert(live_below(self@, now as int, 0) =~= Set::<Seq<char>>::empty());
        while i < NUM_SHARDS
            invariant
                self.wf(),
                well_placed(self@),
                stored_total(self@) <= usize::MAX,
                i <= NUM_SHARDS,
                total == live_below(self@, now as int, i as int).len(),
                live_below(self@, now as int, i as int).finite(),
                total <= stored_upto(self@, i as int),
            decreases NUM_SHARDS - i,
        {
            let c = self.shards[i].count_live(now);
            proof {
                lemma_live_below_step(self@, now as int, i as int);
                vstd::set_lib::lemma_set_disjoint_lens(
                    live_below(self@, now as int, i as int),
                    live_dom(self@.shards[i as int], now as int),
                );
                vstd::set_lib::lemma_len_subset(live_dom(self@.shards[i as int], now as int), self@.shards[i as int].dom());
                lemma_stored_upto_mono(self@, i + 1, NUM_SHARDS as int);
            }
            total = total + c;
            i = i + 1;
        }
        assert(live_below(self@, now as int, NUM_SHARDS as int) =~= live_keys(self@, now as int));
        total
    }

    /// The number of live keys.
    pub fn db_size(&self) -> (n: usize)
        requires
            self.wf(),
            stored_total(self@) <= usize::MAX,
        ensures
            exists|t: i64| t >= self.clock() && n == live_keys(self@, t as int).len(),
    {
        let now = self.next_time();
        self.db_size_at(now)
    }

    /// KEYS at time `now`: the live keys that `pattern` matches, each once,
    /// in no particular order.
    pub fn keys_at(&self, pattern: &str, now: i64) -> (out: Vec<String>)
        requires
            self.wf(),
        ensures
            string_seq(out@).to_set() == matching_keys(self@, pattern@, now as int),
            string_seq(out@).no_duplicates(),
    {
        proof {
            self.lemma_well_placed();
        }
        let ghost p = pattern@;
        let mut out: Vec<String> = Vec::new();
        let mut i: usize = 0;
        assert(string_seq(out@).to_set() =~= matching_below(self@, p, now as int, 0));
        while i < NUM_SHARDS
            invariant
                self.wf(),
                well_placed(self@),
                p == pattern@,
                i <= NUM_SHARDS,
                string_seq(out@).to_set() == matching_below(self@, p, now as int, i as int),
                string_seq(out@).no_duplicates(),
            decreases NUM_SHARDS - i,
        {
            let mut part = self.shards[i].matching(pattern, now);
            let ghost a = out@;
            let ghost b = part@;
            proof {
                lemma_matching_below_step(self@, p, now as int, i as int);
                lemma_string_seq_append(a, b);
            }
            out.append(&mut part);
            i = i + 1;
        }
        assert(matching_below(self@, p, now as int, NUM_SHARDS as int) =~= matching_keys(self@, p, now as int));
        out
    }

    /// The live keys that `pattern` matches, each once.
    pub fn keys(&self, pattern: &str) -> (out: Vec<String>)
        requires
            self.wf(),
        ensures
            exists|t: i64| t >= self.clock() && string_seq(out@).to_set() == matching_keys(self@, pattern@, t as int),
            string_seq(out@).no_duplicates(),
    {
        let now = self.next_time();
        self.keys_at(pattern, now)
    }

    /// Deletes every key.
    pub fn flush_all(&mut self)
        requires
            old(self).wf(),
        ensures
            final(self).wf(),
            final(self)@.cap == old(self)@.cap,
            final(self)@.shards.len() == NUM_SHARDS,
            forall|i: int| 0 <= i < NUM_SHARDS ==> (#[trigger] final(self)@.shards[i]) == Map::<Seq<char>, EntryView>::empty(),
    {
        let mut i: usize = 0;
        while i < NUM_SHARDS
            invariant
                self.wf(),
                self@.cap == old(self)@.cap,
                i <= NUM_SHARDS,
                forall|j: int| 0 <= j < i ==> (#[trigger] self@.shards[j]) == Map::<Seq<char>, EntryView>::empty(),
            decreases NUM_SHARDS - i,
        {
            let ghost pre = *self;
            self.shards[i].entries.clear();
            proof {
                self.lemma_view_after_shard_change(pre, i as int);
            }
            i = i + 1;
        }
    }

    /// Drops every key expired at `now`; the result is how many.
    pub fn purge_expired_at(&mut self, now: i64) -> (n: usize)
        requires
            old(self).wf(),
            stored_total(old(self)@) <= usize::MAX,
        ensures
            final(self).wf(),
            final(self)@ == purged_all(old(self)@, now as int),
            n == stored_total(old(self)@) - stored_total(final(self)@),
    {
        let ghost v0 = self@;
        let mut total: usize = 0;
        let mut i: usize = 0;
        while i < NUM_SHARDS
            invariant
                self.wf(),
                v0.shards.len() == NUM_SHARDS,
                self@.cap == v0.cap,
                self@.shards.len() == NUM_SHARDS,
                i <= NUM_SHARDS,
                forall|j: int| 0 <= j < i ==> #[trigger] self@.shards[j] == v0.shards[j].restrict(live_dom(v0.shards[j], now as int)),
                forall|j: int| i <= j < NUM_SHARDS ==> #[trigger] self@.shards[j] == v0.shards[j],
                total == stored_upto(v0, i as int) - stored_upto(self@, i as int),
                total <= stored_upto(v0, i as int),
                stored_total(v0) <= usize::MAX,
            decreases NUM_SHARDS - i,
        {
            let ghost pre = *self;
            assert(pre@.shards[i as int] == v0.shards[i as int]);
            let c = self.shards[i].purge(now);
            proof {
                self.lemma_view_after_shard_change(pre, i as int);
                lemma_stored_upto_same(pre@, self@, i as int);
                self.shards@[i as int].entries.lemma_storage();
            }
            assert(c <= v0.shards[i as int].len());
            proof {
                lemma_stored_upto_mono(v0, i + 1, NUM_SHARDS as int);
            }
            total = total + c;
            i = i + 1;
        }
        assert(self@.shards =~= purged_all(v0, now as int).shards);
        total
    }

    /// Drops every key that has expired; the result is how many.
    pub fn purge_expired(&mut self) -> (n: usize)
        requires
            old(self).wf(),
            stored_total(old(self)@) <= usize::MAX,
        ensures
            final(self).wf(),
            final(self).clock() >= old(self).clock(),
            final(self)@ == purged_all(old(self)@, final(self).clock() as int),
            n == stored_total(old(self)@) - stored_total(final(self)@),
    {
        let now = self.next_time();
        let r = self.purge_expired_at(now);
        self.set_clock(now);
        r
    }

    /// An empty store for at most `max_keys` keys, shared evenly by the shards
    /// (at least one per shard).
    pub fn new(max_keys: usize) -> (s: KvStore)
        ensures
            s.wf(),
            s@.cap == if max_keys / 16 >= 1 { max_keys / 16 } else { 1 },
            forall|i: int| 0 <= i < NUM_SHARDS ==> (#[trigger] s@.shards[i]) == Map::<Seq<char>, EntryView>::empty(),
            s@.shards.len() == NUM_SHARDS,
            s.clock() == 0,
    {
        let per = max_keys / 16;
        let per_shard = if per >= 1 { per } else { 1 };
        let mut shards: Vec<Shard> = Vec::new();
        let mut i: usize = 0;
        while i < NUM_SHARDS
            invariant
                i <= NUM_SHARDS,
                shards@.len() == i,
                forall|j: int| 0 <= j < i ==> (#[trigger] shards@[j]).wf(),
                forall|j: int| 0 <= j < i ==> (#[trigger] shards@[j]).entries@ == Map::<Seq<char>, EntryView>::empty(),
            decreases NUM_SHARDS - i,
        {
            shards.push(Shard::new());
            i = i + 1;
        }
        KvStore { shards, max_keys_per_shard: per_shard, latest: 0 }
    }

    /// The latest time at which an operation of this store that reads the
    /// clock ran (0 before the first). Such operations run at the current
    /// clock time, and never before this time: a clock that steps back does
    /// not take the store back with it.
    pub closed spec fn clock(&self) -> i64 {
        self.latest
    }

    /// The clock of a well-formed store is not negative.
    pub proof fn lemma_clock(&self)
        requires
            self.wf(),
        ensures
            self.clock() >= 0,
    {
    }

    /// The time for an operation that reads the clock: the current clock
    /// time, or the latest time an operation ran if the clock has fallen
    /// behind it.
    pub(crate) fn next_time(&self) -> (t: i64)
        ensures
            t >= self.clock(),
            t >= 0,
    {
        let c = now_ms();
        if c > self.latest {
            c
        } else {
            self.latest
        }
    }

    /// Records `t` as the latest time an operation ran.
    pub(crate) fn set_clock(&mut self, t: i64)
        requires
            t >= 0,
        ensures
            final(self)@ == old(self)@,
            final(self).clock() == t,
            old(self).wf() ==> final(self).wf(),
    {
        self.latest = t;
    }
}

} // verus!
