//! The hash commands of the protocol: HSET, HMSET, HGET, HDEL, HGETALL,
//! HKEYS, HVALS, HLEN, HEXISTS, HMGET and HSCAN.
use vstd::prelude::*;
use crate::cmd_keys::{resp_scan, scan_reply};
use crate::cmd_strings::arg_pairs;
use crate::entry::{EntryView, ValueView};
use crate::error::{KvError, KvResult, error_reply};
use crate::hashes::{hdel_post, hget_reply, hgetall_reply, hexists_reply, hkeys_reply, hlen_reply, hmget_reply, hvals_reply};
use crate::resp::{array_reply, err_reply, int_reply, kv_array, kv_array_reply, kv_bool, kv_bool_reply, kv_count, kv_count_reply, kv_opt, kv_opt_reply, ok_reply, ok_string, opt_array_reply, resp_array, resp_err, resp_int, resp_opt_array, wrong_args, wrong_args_reply};
use crate::seqs::string_seq;
use crate::store::{KvStore, StoreView, entry_for_write, lemma_entry_of_with_entry, lemma_with_entry_twice, room_for, with_entry, written};
use crate::strings::{opt_strings, string_pairs};

verus! {

/// `h` after setting each field and value in turn.
pub open spec fn hinsert_all(h: Map<Seq<char>, Seq<char>>, fvs: Seq<(Seq<char>, Seq<char>)>) -> Map<Seq<char>, Seq<char>>
    decreases fvs.len(),
{
    if fvs.len() == 0 {
        h
    } else {
        hinsert_all(h, fvs.drop_last()).insert(fvs.last().0, fvs.last().1)
    }
}

/// How many of the fields are new when they are set in turn: a field not in
/// `h` counts once, at its first setting.
pub open spec fn new_field_count(h: Map<Seq<char>, Seq<char>>, fvs: Seq<(Seq<char>, Seq<char>)>) -> nat
    decreases fvs.len(),
{
    if fvs.len() == 0 {
        0
    } else {
        new_field_count(h, fvs.drop_last()) + if hinsert_all(h, fvs.drop_last()).contains_key(fvs.last().0) {
            0nat
        } else {
            1nat
        }
    }
}

/// The map of a hash value (empty for any other value).
pub open spec fn hash_of(v: ValueView) -> Map<Seq<char>, Seq<char>> {
    match v {
        ValueView::Hash(h) => h,
        _ => Map::empty(),
    }
}

/// HSET key field value [field value ...] (HMSET when `hm`, which answers
/// OK): every field is set, in order; HSET answers how many were new. A key
/// of another type is refused, marked used.
pub open spec fn hset_cmd(old: StoreView, new: StoreView, ps: Seq<Seq<char>>, hm: bool, now: int, rep: Seq<char>) -> bool {
    if ps.len() < 4 || (ps.len() - 2) % 2 != 0 {
        new == old && rep == err_reply(
            if hm { "wrong number of arguments for 'hmset' command"@ } else { "wrong number of arguments for 'hset' command"@ },
        )
    } else {
        let b = entry_for_write(old, ps[1], now, ValueView::Hash(Map::empty()));
        let fvs = arg_pairs(ps.skip(2));
        match b.value {
            ValueView::Hash(h) => {
                &&& written(old, ps[1], now, EntryView { value: ValueView::Hash(hinsert_all(h, fvs)), ..b }, new)
                &&& rep == if hm { ok_reply() } else { int_reply((new_field_count(h, fvs) as i64) as int) }
            },
            _ => new == with_entry(old, ps[1], Some(b)) && rep == error_reply(KvError::WrongType),
        }
    }
}

/// HGET key field.
pub open spec fn hget_cmd(v: StoreView, cmd: Seq<char>, ps: Seq<Seq<char>>, now: int, rep: Seq<char>) -> bool {
    if ps.len() != 3 {
        rep == wrong_args(cmd)
    } else {
        exists|r: KvResult<Option<String>>| #[trigger] hget_reply(v, ps[1], ps[2], now, r) && rep == kv_opt_reply(r)
    }
}

/// HDEL key field: 1 when the field was there.
pub open spec fn hdel_cmd(old: StoreView, new: StoreView, cmd: Seq<char>, ps: Seq<Seq<char>>, now: int, rep: Seq<char>) -> bool {
    if ps.len() != 3 {
        rep == wrong_args(cmd) && new == old
    } else {
        exists|r: KvResult<bool>| #[trigger] hdel_post(old, new, ps[1], ps[2], now, r) && rep == kv_bool_reply(r)
    }
}

/// The fields and values of pairs, one after the other.
pub open spec fn flatten_pairs(ps: Seq<(Seq<char>, Seq<char>)>) -> Seq<Seq<char>>
    decreases ps.len(),
{
    if ps.len() == 0 {
        Seq::empty()
    } else {
        flatten_pairs(ps.drop_last()) + seq![ps.last().0, ps.last().1]
    }
}

/// The reply for a list of pairs: an array of each field and its value.
pub open spec fn kv_pairs_reply(r: KvResult<Vec<(String, String)>>) -> Seq<char> {
    match r {
        Ok(v) => array_reply(flatten_pairs(string_pairs(v@))),
        Err(e) => error_reply(e),
    }
}

/// HGETALL key.
pub open spec fn hgetall_cmd(v: StoreView, cmd: Seq<char>, ps: Seq<Seq<char>>, now: int, rep: Seq<char>) -> bool {
    if ps.len() != 2 {
        rep == wrong_args(cmd)
    } else {
        exists|r: KvResult<Vec<(String, String)>>| #[trigger] hgetall_reply(v, ps[1], now, r) && rep == kv_pairs_reply(r)
    }
}

/// HKEYS key (HVALS when `vals`).
pub open spec fn hkeys_cmd(v: StoreView, cmd: Seq<char>, ps: Seq<Seq<char>>, vals: bool, now: int, rep: Seq<char>) -> bool {
    if ps.len() != 2 {
        rep == wrong_args(cmd)
    } else if vals {
        exists|r: KvResult<Vec<String>>| #[trigger] hvals_reply(v, ps[1], now, r) && rep == kv_array_reply(r)
    } else {
        exists|r: KvResult<Vec<String>>| #[trigger] hkeys_reply(v, ps[1], now, r) && rep == kv_array_reply(r)
    }
}

/// HLEN key.
pub open spec fn hlen_cmd(v: StoreView, cmd: Seq<char>, ps: Seq<Seq<char>>, now: int, rep: Seq<char>) -> bool {
    if ps.len() != 2 {
        rep == wrong_args(cmd)
    } else {
        exists|r: KvResult<usize>| #[trigger] hlen_reply(v, ps[1], now, r) && rep == kv_count_reply(r)
    }
}

/// HEXISTS key field.
pub open spec fn hexists_cmd(v: StoreView, cmd: Seq<char>, ps: Seq<Seq<char>>, now: int, rep: Seq<char>) -> bool {
    if ps.len() != 3 {
        rep == wrong_args(cmd)
    } else {
        exists|r: KvResult<bool>| #[trigger] hexists_reply(v, ps[1], ps[2], now, r) && rep == kv_bool_reply(r)
    }
}

/// The reply for a list of optional values.
pub open spec fn kv_opts_reply(r: KvResult<Vec<Option<String>>>) -> Seq<char> {
    match r {
        Ok(v) => opt_array_reply(opt_strings(v@)),
        Err(e) => error_reply(e),
    }
}

/// HMGET key field [field ...].
pub open spec fn hmget_cmd(v: StoreView, cmd: Seq<char>, ps: Seq<Seq<char>>, now: int, rep: Seq<char>) -> bool {
    if ps.len() < 3 {
        rep == wrong_args(cmd)
    } else {
        exists|r: KvResult<Vec<Option<String>>>| #[trigger] hmget_reply(v, ps[1], ps.skip(2), now, r) && rep == kv_opts_reply(r)
    }
}

/// HSCAN key ...: every field and value at once, with cursor 0; nothing
/// for a key of another type.
pub open spec fn hscan_cmd(v: StoreView, cmd: Seq<char>, ps: Seq<Seq<char>>, now: int, rep: Seq<char>) -> bool {
    if ps.len() < 2 {
        rep == wrong_args(cmd)
    } else {
        exists|r: KvResult<Vec<(String, String)>>| #[trigger] hgetall_reply(v, ps[1], now, r) && rep == scan_reply(
            match r {
                Ok(pairs) => flatten_pairs(string_pairs(pairs@)),
                Err(_) => Seq::empty(),
            },
        )
    }
}

/// Each field followed by its value.
fn flatten(pairs: Vec<(String, String)>) -> (out: Vec<String>)
    ensures
        string_seq(out@) == flatten_pairs(string_pairs(pairs@)),
{
    let ghost sp = string_pairs(pairs@);
    let mut out: Vec<String> = Vec::new();
    let mut i: usize = 0;
    assert(sp.take(0) =~= Seq::<(Seq<char>, Seq<char>)>::empty());
    assert(string_seq(out@) =~= flatten_pairs(sp.take(0)));
    while i < pairs.len()
        invariant
            i <= pairs@.len(),
            sp == string_pairs(pairs@),
            string_seq(out@) == flatten_pairs(sp.take(i as int)),
        decreases pairs@.len() - i,
    {
        let ghost pre = out@;
        out.push(pairs[i].0.clone());
        out.push(pairs[i].1.clone());
        assert(sp.take(i + 1).drop_last() =~= sp.take(i as int));
        assert(sp.take(i + 1).last() == sp[i as int]);
        assert(string_seq(out@) =~= string_seq(pre) + seq![sp[i as int].0, sp[i as int].1]);
        i = i + 1;
    }
    assert(sp.take(pairs@.len() as int) =~= sp);
    out
}

/// Renders a list of pairs.
fn kv_pairs(r: KvResult<Vec<(String, String)>>) -> (s: String)
    ensures
        s@ == kv_pairs_reply(r),
{
    match r {
        Ok(v) => {
            let flat = flatten(v);
            resp_array(flat.as_slice())
        },
        Err(e) => e.to_resp(),
    }
}

impl KvStore {
    /// Runs HSET, or HMSET when `hm`.
    pub fn cmd_hset(&mut self, parts: &[String], hm: bool, now: i64) -> (rep: String)
        requires
            old(self).wf(),
        ensures
            final(self).wf(),
            hset_cmd(old(self)@, final(self)@, string_seq(parts@), hm, now as int, rep@),
    {
        let ghost ps = string_seq(parts@);
        if parts.len() < 4 || (parts.len() - 2) % 2 != 0 {
            return resp_err(if hm {
                "wrong number of arguments for 'hmset' command"
            } else {
                "wrong number of arguments for 'hset' command"
            });
        }
        proof {
            old(self).lemma_well_placed();
        }
        let ghost k = ps[1];
        let ghost b = entry_for_write(old(self)@, k, now as int, ValueView::Hash(Map::empty()));
        let ghost h = hash_of(b.value);
        let ghost fvs = arg_pairs(ps.skip(2));
        assert(parts@[1]@ == k);
        let mut count: usize = 0;
        let mut i: usize = 2;
        let ghost mut mid: StoreView = old(self)@;
        while i < parts.len()
            invariant
                self.wf(),
                ps == string_seq(parts@),
                k == ps[1],
                parts@.len() >= 4,
                parts@.len() % 2 == 0,
                2 <= i <= parts@.len(),
                i % 2 == 0,
                b == entry_for_write(old(self)@, k, now as int, ValueView::Hash(Map::empty())),
                h == hash_of(b.value),
                fvs == arg_pairs(ps.skip(2)),
                old(self)@.shards.len() == crate::store::NUM_SHARDS,
                i == 2 ==> self@ == old(self)@,
                i > 2 ==> b.value is Hash && room_for(old(self)@, k, now as int, mid) && self@ == with_entry(
                    mid,
                    k,
                    Some(EntryView { value: ValueView::Hash(hinsert_all(h, fvs.take((i - 2) / 2))), ..b }),
                ),
                mid.shards.len() == crate::store::NUM_SHARDS,
                count == new_field_count(h, fvs.take((i - 2) / 2)),
                count <= i,
            decreases parts@.len() - i,
        {
            let ghost j = (i - 2) / 2;
            let ghost prev = self@;
            assert(fvs[j] == (ps[i as int], ps[i + 1]));
            assert(parts@[i as int]@ == ps[i as int] && parts@[i + 1]@ == ps[i + 1]);
            if i > 2 {
                proof {
                    let e = EntryView { value: ValueView::Hash(hinsert_all(h, fvs.take(j))), ..b };
                    lemma_entry_of_with_entry(mid, k, Some(e), k);
                    assert(entry_for_write(prev, k, now as int, ValueView::Hash(Map::empty())) == e);
                }
            }
            let r = self.hset_at(parts[1].clone(), parts[i].clone(), parts[i + 1].clone(), now);
            match r {
                Err(e) => {
                    return e.to_resp();
                },
                Ok(n) => {
                    proof {
                        let e1 = EntryView { value: ValueView::Hash(hinsert_all(h, fvs.take(j + 1))), ..b };
                        assert(fvs.take(j + 1).drop_last() =~= fvs.take(j));
                        assert(fvs.take(j + 1).last() == fvs[j]);
                        let m2 = choose|m: StoreView| #[trigger] room_for(prev, k, now as int, m) && self@ == with_entry(m, k, Some(e1));
                        if i > 2 {
                            let e0 = EntryView { value: ValueView::Hash(hinsert_all(h, fvs.take(j))), ..b };
                            assert(m2 == prev);
                            lemma_with_entry_twice(mid, k, Some(e0), Some(e1));
                        } else {
                            mid = m2;
                        }
                        assert(self@ == with_entry(mid, k, Some(e1)));
                        assert(room_for(old(self)@, k, now as int, mid));
                    }
                    if n > 0 {
                        count = count + 1;
                    }
                },
            }
            i = i + 2;
        }
        assert(fvs.take(fvs.len() as int) =~= fvs);
        assert((parts@.len() - 2) / 2 == fvs.len());
        if hm {
            ok_string()
        } else {
            resp_int(count as i64)
        }
    }

    /// Runs HGET.
    pub fn cmd_hget(&self, cmd: &str, parts: &[String], now: i64) -> (rep: String)
        requires
            self.wf(),
        ensures
            hget_cmd(self@, cmd@, string_seq(parts@), now as int, rep@),
    {
        if parts.len() != 3 {
            return wrong_args_reply(cmd);
        }
        let r = self.hget_at(parts[1].as_str(), parts[2].as_str(), now);
        assert(hget_reply(self@, string_seq(parts@)[1], string_seq(parts@)[2], now as int, r));
        kv_opt(r)
    }

    /// Runs HDEL.
    pub fn cmd_hdel(&mut self, cmd: &str, parts: &[String], now: i64) -> (rep: String)
        requires
            old(self).wf(),
        ensures
            final(self).wf(),
            hdel_cmd(old(self)@, final(self)@, cmd@, string_seq(parts@), now as int, rep@),
    {
        if parts.len() != 3 {
            return wrong_args_reply(cmd);
        }
        let r = self.hdel_at(parts[1].as_str(), parts[2].as_str(), now);
        assert(hdel_post(old(self)@, self@, string_seq(parts@)[1], string_seq(parts@)[2], now as int, r));
        kv_bool(r)
    }

    /// Runs HGETALL.
    pub fn cmd_hgetall(&self, cmd: &str, parts: &[String], now: i64) -> (rep: String)
        requires
            self.wf(),
        ensures
            hgetall_cmd(self@, cmd@, string_seq(parts@), now as int, rep@),
    {
        if parts.len() != 2 {
            return wrong_args_reply(cmd);
        }
        let r = self.hgetall_at(parts[1].as_str(), now);
        assert(hgetall_reply(self@, string_seq(parts@)[1], now as int, r));
        kv_pairs(r)
    }

    /// Runs HKEYS, or HVALS when `vals`.
    pub fn cmd_hkeys(&self, cmd: &str, parts: &[String], vals: bool, now: i64) -> (rep: String)
        requires
            self.wf(),
        ensures
            hkeys_cmd(self@, cmd@, string_seq(parts@), vals, now as int, rep@),
    {
        if parts.len() != 2 {
            return wrong_args_reply(cmd);
        }
        if vals {
            let r = self.hvals_at(parts[1].as_str(), now);
            assert(hvals_reply(self@, string_seq(parts@)[1], now as int, r));
            kv_array(r)
        } else {
            let r = self.hkeys_at(parts[1].as_str(), now);
            assert(hkeys_reply(self@, string_seq(parts@)[1], now as int, r));
            kv_array(r)
        }
    }

    /// Runs HLEN.
    pub fn cmd_hlen(&self, cmd: &str, parts: &[String], now: i64) -> (rep: String)
        requires
            self.wf(),
        ensures
            hlen_cmd(self@, cmd@, string_seq(parts@), now as int, rep@),
    {
        if parts.len() != 2 {
            return wrong_args_reply(cmd);
        }
        let r = self.hlen_at(parts[1].as_str(), now);
        assert(hlen_reply(self@, string_seq(parts@)[1], now as int, r));
        kv_count(r)
    }

    /// Runs HEXISTS.
    pub fn cmd_hexists(&self, cmd: &str, parts: &[String], now: i64) -> (rep: String)
        requires
            self.wf(),
        ensures
            hexists_cmd(self@, cmd@, string_seq(parts@), now as int, rep@),
    {
        if parts.len() != 3 {
            return wrong_args_reply(cmd);
        }
        let r = self.hexists_at(parts[1].as_str(), parts[2].as_str(), now);
        assert(hexists_reply(self@, string_seq(parts@)[1], string_seq(parts@)[2], now as int, r));
        kv_bool(r)
    }

    /// Runs HMGET.
    pub fn cmd_hmget(&self, cmd: &str, parts: &[String], now: i64) -> (rep: String)
        requires
            self.wf(),
        ensures
            hmget_cmd(self@, cmd@, string_seq(parts@), now as int, rep@),
    {
        if parts.len() < 3 {
            return wrong_args_reply(cmd);
        }
        let fields = vstd::slice::slice_subrange(parts, 2, parts.len());
        assert(string_seq(fields@) =~= string_seq(parts@).skip(2));
        let r = self.hmget_at(parts[1].as_str(), fields, now);
        assert(hmget_reply(self@, string_seq(parts@)[1], string_seq(parts@).skip(2), now as int, r));
        match r {
            Ok(vals) => resp_opt_array(&vals),
            Err(e) => e.to_resp(),
        }
    }

    /// Runs HSCAN.
    pub fn cmd_hscan(&self, cmd: &str, parts: &[String], now: i64) -> (rep: String)
        requires
            self.wf(),
        ensures
            hscan_cmd(self@, cmd@, string_seq(parts@), now as int, rep@),
    {
        if parts.len() < 2 {
            return wrong_args_reply(cmd);
        }
        let r = self.hgetall_at(parts[1].as_str(), now);
        assert(hgetall_reply(self@, string_seq(parts@)[1], now as int, r));
        let flat = match r {
            Ok(pairs) => flatten(pairs),
            Err(_) => Vec::new(),
        };
        resp_scan(flat.as_slice())
    }
}

} // verus!
