//! Snapshots of the store: the live entries with their keys, as the
//! persistence file holds them, and loading them back.
use vstd::prelude::*;
use crate::entry::{Entry, expired_at};
use crate::store::{KvStore, NUM_SHARDS, StoreView, entry_keys, live_entry, shard_of, with_entry};
use crate::strmap::Value;

verus! {

/// The live entries of a store, each with its key, as the persistence file
/// holds them.
pub struct Snapshot {
    pub entries: Vec<(String, Entry)>,
}

/// `es` holds each entry of `v` live at `now` once, with its key.
pub open spec fn is_snapshot(v: StoreView, now: int, es: Seq<(String, Entry)>) -> bool {
    &&& entry_keys(es).no_duplicates()
    &&& forall|j: int| 0 <= j < es.len() ==> live_entry(v, #[trigger] es[j].0@, now) == Some(es[j].1@) && es[j].1.wf()
    &&& forall|k: Seq<char>| #[trigger] live_entry(v, k, now).is_some() ==> exists|j: int| 0 <= j < es.len() && es[j].0@ == k
}

/// `v` after loading `es` in order at `now`: an entry that is well formed
/// and not expired at `now` is stored under its key (a later one replacing
/// an earlier one); the others are skipped.
pub open spec fn restored(v: StoreView, es: Seq<(String, Entry)>, now: int) -> StoreView
    decreases es.len(),
{
    if es.len() == 0 {
        v
    } else {
        let w = restored(v, es.drop_last(), now);
        let p = es.last();
        if p.1.wf() && !expired_at(p.1@, now) {
            with_entry(w, p.0@, Some(p.1@))
        } else {
            w
        }
    }
}

impl KvStore {
    /// A snapshot of the entries live at `now`.
    pub fn snapshot_at(&self, now: i64) -> (snap: Snapshot)
        requires
            self.wf(),
        ensures
            is_snapshot(self@, now as int, snap.entries@),
    {
        let mut out: Vec<(String, Entry)> = Vec::new();
        let mut i: usize = 0;
        while i < NUM_SHARDS
            invariant
                self.wf(),
                i <= NUM_SHARDS,
                entry_keys(out@).no_duplicates(),
                forall|j: int| 0 <= j < out@.len() ==> {
                    &&& shard_of(#[trigger] out@[j].0@) < i
                    &&& live_entry(self@, out@[j].0@, now as int) == Some(out@[j].1@)
                    &&& out@[j].1.wf()
                },
                forall|k: Seq<char>| shard_of(k) < i && #[trigger] live_entry(self@, k, now as int).is_some()
                    ==> exists|j: int| 0 <= j < out@.len() && out@[j].0@ == k,
            decreases NUM_SHARDS - i,
        {
            let mut part = self.shard_live_entries(i, now);
            let ghost a = out@;
            let ghost b = part@;
            out.append(&mut part);
            assert(out@ == a + b);
            assert(entry_keys(out@) =~= entry_keys(a) + entry_keys(b));
            assert forall|x: int, y: int| 0 <= x < y < entry_keys(out@).len() implies entry_keys(out@)[x] != entry_keys(out@)[y] by {
                if y < a.len() {
                    assert(entry_keys(a)[x] != entry_keys(a)[y]);
                } else if x >= a.len() {
                    assert(entry_keys(b)[x - a.len()] != entry_keys(b)[y - a.len()]);
                } else {
                    assert(out@[x] == a[x] && out@[y] == b[y - a.len()]);
                    assert(shard_of(a[x].0@) < i);
                    assert(shard_of(b[y - a.len()].0@) == i);
                }
            }
            assert forall|j: int| 0 <= j < out@.len() implies {
                &&& shard_of(#[trigger] out@[j].0@) < i + 1
                &&& live_entry(self@, out@[j].0@, now as int) == Some(out@[j].1@)
                &&& out@[j].1.wf()
            } by {
                if j < a.len() {
                    assert(out@[j] == a[j]);
                } else {
                    assert(out@[j] == b[j - a.len()]);
                }
            }
            assert forall|k: Seq<char>| shard_of(k) < i + 1 && #[trigger] live_entry(self@, k, now as int).is_some()
                implies exists|j: int| 0 <= j < out@.len() && out@[j].0@ == k by {
                if shard_of(k) < i {
                    let j = choose|j: int| 0 <= j < a.len() && a[j].0@ == k;
                    assert(out@[j] == a[j]);
                } else {
                    let j = choose|j: int| 0 <= j < b.len() && b[j].0@ == k;
                    assert(out@[j + a.len()] == b[j]);
                }
            }
            i = i + 1;
        }
        assert forall|j: int| 0 <= j < out@.len() implies live_entry(self@, #[trigger] out@[j].0@, now as int) == Some(out@[j].1@)
            && out@[j].1.wf() by {
            assert(shard_of(out@[j].0@) < NUM_SHARDS);
        }
        assert forall|k: Seq<char>| #[trigger] live_entry(self@, k, now as int).is_some()
            implies exists|j: int| 0 <= j < out@.len() && out@[j].0@ == k by {
            assert(shard_of(k) < NUM_SHARDS);
        }
        Snapshot { entries: out }
    }

    /// A snapshot of the entries live now.
    pub fn snapshot(&self) -> (snap: Snapshot)
        requires
            self.wf(),
        ensures
            exists|t: i64| t >= self.clock() && is_snapshot(self@, t as int, snap.entries@),
    {
        let now = self.next_time();
        self.snapshot_at(now)
    }

    /// Loads the entries of a snapshot at `now`, skipping those that have
    /// expired or are not well formed.
    pub fn restore_at(&mut self, snap: &Snapshot, now: i64)
        requires
            old(self).wf(),
        ensures
            final(self).wf(),
            final(self)@ == restored(old(self)@, snap.entries@, now as int),
    {
        let entries = &snap.entries;
        let mut i: usize = 0;
        assert(entries@.take(0) =~= Seq::<(String, Entry)>::empty());
        while i < entries.len()
            invariant
                self.wf(),
                i <= entries@.len(),
                self@ == restored(old(self)@, entries@.take(i as int), now as int),
            decreases entries@.len() - i,
        {
            assert(entries@.take(i + 1).drop_last() =~= entries@.take(i as int));
            assert(entries@.take(i + 1).last() == entries@[i as int]);
            let e = &entries[i].1;
            if e.check() && !e.is_expired_at(now) {
                self.put(entries[i].0.clone(), e.dup());
            }
            i = i + 1;
        }
        assert(entries@.take(entries@.len() as int) =~= entries@);
    }

    /// Loads the entries of a snapshot, skipping those that have expired or
    /// are not well formed.
    pub fn restore(&mut self, snap: &Snapshot)
        requires
            old(self).wf(),
        ensures
            final(self).wf(),
            final(self).clock() >= old(self).clock(),
            final(self)@ == restored(old(self)@, snap.entries@, final(self).clock() as int),
    {
        let now = self.next_time();
        let r = self.restore_at(snap, now);
        self.set_clock(now);
        r
    }
}

} // verus!
