//! The list commands of the protocol: LPUSH, RPUSH, LPOP, RPOP, LLEN,
//! LINDEX, LRANGE, LSET, LREM and LTRIM.
use vstd::prelude::*;
use crate::error::{KvError, KvResult, error_reply};
use crate::lists::{
    list_pop_post, list_push_post, llen_reply, lindex_reply, lrange_reply, lrem_post, lset_post, ltrim_post,
};
use crate::resp::{
    kv_array, kv_array_reply, kv_count, kv_count_reply, kv_int, kv_int_reply, kv_ok, kv_ok_reply, kv_opt,
    kv_opt_reply, wrong_args, wrong_args_reply,
};
use crate::seqs::string_seq;
use crate::store::{KvStore, StoreView};
use crate::text::{parse_i64, parse_i64_spec};

verus! {

/// LPUSH key value (RPUSH when `!front`): the new length.
pub open spec fn push_cmd(old: StoreView, new: StoreView, cmd: Seq<char>, ps: Seq<Seq<char>>, front: bool, now: int, rep: Seq<char>) -> bool {
    if ps.len() != 3 {
        rep == wrong_args(cmd) && new == old
    } else {
        exists|r: KvResult<usize>| #[trigger] list_push_post(old, new, ps[1], ps[2], front, now, r) && rep == kv_count_reply(r)
    }
}

/// LPOP key (RPOP when `!front`).
pub open spec fn pop_cmd(old: StoreView, new: StoreView, cmd: Seq<char>, ps: Seq<Seq<char>>, front: bool, now: int, rep: Seq<char>) -> bool {
    if ps.len() != 2 {
        rep == wrong_args(cmd) && new == old
    } else {
        exists|r: KvResult<Option<String>>| #[trigger] list_pop_post(old, new, ps[1], front, now, r) && rep == kv_opt_reply(r)
    }
}

/// LLEN key.
pub open spec fn llen_cmd(v: StoreView, cmd: Seq<char>, ps: Seq<Seq<char>>, now: int, rep: Seq<char>) -> bool {
    if ps.len() != 2 {
        rep == wrong_args(cmd)
    } else {
        exists|r: KvResult<usize>| #[trigger] llen_reply(v, ps[1], now, r) && rep == kv_count_reply(r)
    }
}

/// LINDEX key index.
pub open spec fn lindex_cmd(v: StoreView, cmd: Seq<char>, ps: Seq<Seq<char>>, now: int, rep: Seq<char>) -> bool {
    if ps.len() != 3 {
        rep == wrong_args(cmd)
    } else {
        match parse_i64_spec(ps[2]) {
            None => rep == error_reply(KvError::NotInteger),
            Some(i) => exists|r: KvResult<Option<String>>| #[trigger] lindex_reply(v, ps[1], i as int, now, r) && rep == kv_opt_reply(r),
        }
    }
}

/// LRANGE key start stop.
pub open spec fn lrange_cmd(v: StoreView, cmd: Seq<char>, ps: Seq<Seq<char>>, now: int, rep: Seq<char>) -> bool {
    if ps.len() != 4 {
        rep == wrong_args(cmd)
    } else {
        match (parse_i64_spec(ps[2]), parse_i64_spec(ps[3])) {
            (Some(a), Some(b)) => exists|r: KvResult<Vec<String>>|
                #[trigger] lrange_reply(v, ps[1], a as int, b as int, now, r) && rep == kv_array_reply(r),
            _ => rep == error_reply(KvError::NotInteger),
        }
    }
}

/// LSET key index value.
pub open spec fn lset_cmd(old: StoreView, new: StoreView, cmd: Seq<char>, ps: Seq<Seq<char>>, now: int, rep: Seq<char>) -> bool {
    if ps.len() != 4 {
        rep == wrong_args(cmd) && new == old
    } else {
        match parse_i64_spec(ps[2]) {
            None => rep == error_reply(KvError::NotInteger) && new == old,
            Some(i) => exists|r: KvResult<()>| #[trigger] lset_post(old, new, ps[1], i as int, ps[3], now, r) && rep == kv_ok_reply(r),
        }
    }
}

/// LREM key count value.
pub open spec fn lrem_cmd(old: StoreView, new: StoreView, cmd: Seq<char>, ps: Seq<Seq<char>>, now: int, rep: Seq<char>) -> bool {
    if ps.len() != 4 {
        rep == wrong_args(cmd) && new == old
    } else {
        match parse_i64_spec(ps[2]) {
            None => rep == error_reply(KvError::NotInteger) && new == old,
            Some(c) => exists|r: KvResult<i64>| #[trigger] lrem_post(old, new, ps[1], c as int, ps[3], now, r) && rep == kv_int_reply(r),
        }
    }
}

/// LTRIM key start stop.
pub open spec fn ltrim_cmd(old: StoreView, new: StoreView, cmd: Seq<char>, ps: Seq<Seq<char>>, now: int, rep: Seq<char>) -> bool {
    if ps.len() != 4 {
        rep == wrong_args(cmd) && new == old
    } else {
        match (parse_i64_spec(ps[2]), parse_i64_spec(ps[3])) {
            (Some(a), Some(b)) => exists|r: KvResult<()>|
                #[trigger] ltrim_post(old, new, ps[1], a as int, b as int, now, r) && rep == kv_ok_reply(r),
            _ => rep == error_reply(KvError::NotInteger) && new == old,
        }
    }
}

impl KvStore {
    /// Runs LPUSH, or RPUSH when `!front`.
    pub fn cmd_push(&mut self, cmd: &str, parts: &[String], front: bool, now: i64) -> (rep: String)
        requires
            old(self).wf(),
        ensures
            final(self).wf(),
            push_cmd(old(self)@, final(self)@, cmd@, string_seq(parts@), front, now as int, rep@),
    {
        if parts.len() != 3 {
            return wrong_args_reply(cmd);
        }
        let r = self.list_push_at(parts[1].clone(), parts[2].clone(), front, now);
        assert(list_push_post(old(self)@, self@, string_seq(parts@)[1], string_seq(parts@)[2], front, now as int, r));
        kv_count(r)
    }

    /// Runs LPOP, or RPOP when `!front`.
    pub fn cmd_pop(&mut self, cmd: &str, parts: &[String], front: bool, now: i64) -> (rep: String)
        requires
            old(self).wf(),
        ensures
            final(self).wf(),
            pop_cmd(old(self)@, final(self)@, cmd@, string_seq(parts@), front, now as int, rep@),
    {
        if parts.len() != 2 {
            return wrong_args_reply(cmd);
        }
        let r = self.list_pop_at(parts[1].as_str(), front, now);
        assert(list_pop_post(old(self)@, self@, string_seq(parts@)[1], front, now as int, r));
        kv_opt(r)
    }

    /// Runs LLEN.
    pub fn cmd_llen(&self, cmd: &str, parts: &[String], now: i64) -> (rep: String)
        requires
            self.wf(),
        ensures
            llen_cmd(self@, cmd@, string_seq(parts@), now as int, rep@),
    {
        if parts.len() != 2 {
            return wrong_args_reply(cmd);
        }
        let r = self.llen_at(parts[1].as_str(), now);
        assert(llen_reply(self@, string_seq(parts@)[1], now as int, r));
        kv_count(r)
    }

    /// Runs LINDEX.
    pub fn cmd_lindex(&self, cmd: &str, parts: &[String], now: i64) -> (rep: String)
        requires
            self.wf(),
        ensures
            lindex_cmd(self@, cmd@, string_seq(parts@), now as int, rep@),
    {
        if parts.len() != 3 {
            return wrong_args_reply(cmd);
        }
        assert(string_seq(parts@)[2] == parts@[2]@);
        match parse_i64(parts[2].as_str()) {
            None => KvError::NotInteger.to_resp(),
            Some(i) => {
                let r = self.lindex_at(parts[1].as_str(), i, now);
                assert(lindex_reply(self@, string_seq(parts@)[1], i as int, now as int, r));
                kv_opt(r)
            },
        }
    }

    /// Runs LRANGE.
    pub fn cmd_lrange(&self, cmd: &str, parts: &[String], now: i64) -> (rep: String)
        requires
            self.wf(),
        ensures
            lrange_cmd(self@, cmd@, string_seq(parts@), now as int, rep@),
    {
        if parts.len() != 4 {
            return wrong_args_reply(cmd);
        }
        assert(string_seq(parts@)[2] == parts@[2]@ && string_seq(parts@)[3] == parts@[3]@);
        let start = match parse_i64(parts[2].as_str()) {
            None => {
                return KvError::NotInteger.to_resp();
            },
            Some(v) => v,
        };
        let stop = match parse_i64(parts[3].as_str()) {
            None => {
                return KvError::NotInteger.to_resp();
            },
            Some(v) => v,
        };
        let r = self.lrange_at(parts[1].as_str(), start, stop, now);
        assert(lrange_reply(self@, string_seq(parts@)[1], start as int, stop as int, now as int, r));
        kv_array(r)
    }

    /// Runs LSET.
    pub fn cmd_lset(&mut self, cmd: &str, parts: &[String], now: i64) -> (rep: String)
        requires
            old(self).wf(),
        ensures
            final(self).wf(),
            lset_cmd(old(self)@, final(self)@, cmd@, string_seq(parts@), now as int, rep@),
    {
        if parts.len() != 4 {
            return wrong_args_reply(cmd);
        }
        assert(string_seq(parts@)[2] == parts@[2]@);
        match parse_i64(parts[2].as_str()) {
            None => KvError::NotInteger.to_resp(),
            Some(i) => {
                let r = self.lset_at(parts[1].as_str(), i, parts[3].clone(), now);
                assert(lset_post(old(self)@, self@, string_seq(parts@)[1], i as int, string_seq(parts@)[3], now as int, r));
                kv_ok(r)
            },
        }
    }

    /// Runs LREM.
    pub fn cmd_lrem(&mut self, cmd: &str, parts: &[String], now: i64) -> (rep: String)
        requires
            old(self).wf(),
        ensures
            final(self).wf(),
            lrem_cmd(old(self)@, final(self)@, cmd@, string_seq(parts@), now as int, rep@),
    {
        if parts.len() != 4 {
            return wrong_args_reply(cmd);
        }
        assert(string_seq(parts@)[2] == parts@[2]@);
        match parse_i64(parts[2].as_str()) {
            None => KvError::NotInteger.to_resp(),
            Some(c) => {
                let r = self.lrem_at(parts[1].as_str(), c, parts[3].as_str(), now);
                assert(lrem_post(old(self)@, self@, string_seq(parts@)[1], c as int, string_seq(parts@)[3], now as int, r));
                kv_int(r)
            },
        }
    }

    /// Runs LTRIM.
    pub fn cmd_ltrim(&mut self, cmd: &str, parts: &[String], now: i64) -> (rep: String)
        requires
            old(self).wf(),
        ensures
            final(self).wf(),
            ltrim_cmd(old(self)@, final(self)@, cmd@, string_seq(parts@), now as int, rep@),
    {
        if parts.len() != 4 {
            return wrong_args_reply(cmd);
        }
        assert(string_seq(parts@)[2] == parts@[2]@ && string_seq(parts@)[3] == parts@[3]@);
        let start = match parse_i64(parts[2].as_str()) {
            None => {
                return KvError::NotInteger.to_resp();
            },
            Some(v) => v,
        };
        let stop = match parse_i64(parts[3].as_str()) {
            None => {
                return KvError::NotInteger.to_resp();
            },
            Some(v) => v,
        };
        let r = self.ltrim_at(parts[1].as_str(), start, stop, now);
        assert(ltrim_post(old(self)@, self@, string_seq(parts@)[1], start as int, stop as int, now as int, r));
        kv_ok(r)
    }
}

} // verus!
