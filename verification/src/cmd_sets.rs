//! The set commands of the protocol (SADD, SREM, SMEMBERS, SCARD,
//! SISMEMBER, SPOP, SRANDMEMBER, SMOVE, SUNION, SINTER, SDIFF, their STORE
//! forms and SSCAN) and the sorted-set commands that involve no score text
//! (ZREM, ZCARD, ZRANK and ZREVRANK).
use vstd::prelude::*;
use crate::cmd_keys::{resp_scan, scan_reply};
use crate::error::{KvResult, error_reply};
use crate::resp::{int_reply, kv_array, kv_array_reply, kv_bool, kv_bool_reply, kv_count, kv_count_reply, kv_int, kv_int_reply, kv_opt, kv_opt_reply, nil_reply, resp_int, resp_nil, wrong_args, wrong_args_reply};
use crate::seqs::string_seq;
use crate::sets::{combine_reply, diff_of, inter_of, sadd_post, scard_reply, sismember_reply, smembers_reply, smove_post, spop_post, srandmember_reply, srem_post, store_post, union_of};
use crate::store::{KvStore, StoreView};
use crate::zsets::{zcard_reply, zrank_reply, zrem_post};

verus! {

/// How SUNION, SINTER and SDIFF combine their sets.
#[derive(PartialEq, Eq, Clone, Copy, Structural)]
pub enum SetOp {
    Union,
    Inter,
    Diff,
}

/// The members the combination of the sets of `keys` holds at `now`.
pub open spec fn combined(v: StoreView, keys: Seq<Seq<char>>, now: int, op: SetOp) -> Set<Seq<char>> {
    match op {
        SetOp::Union => union_of(v, keys, now),
        SetOp::Inter => inter_of(v, keys, now),
        SetOp::Diff => diff_of(v, keys, now),
    }
}

/// SADD key member [member ...] (SREM when `remove`): how many members
/// were added (removed).
pub open spec fn sadd_cmd(old: StoreView, new: StoreView, cmd: Seq<char>, ps: Seq<Seq<char>>, remove: bool, now: int, rep: Seq<char>) -> bool {
    if ps.len() < 3 {
        rep == wrong_args(cmd) && new == old
    } else if remove {
        exists|r: KvResult<i64>| #[trigger] srem_post(old, new, ps[1], ps.skip(2), now, r) && rep == kv_int_reply(r)
    } else {
        exists|r: KvResult<i64>| #[trigger] sadd_post(old, new, ps[1], ps.skip(2), now, r) && rep == kv_int_reply(r)
    }
}

/// SMEMBERS key.
pub open spec fn smembers_cmd(v: StoreView, cmd: Seq<char>, ps: Seq<Seq<char>>, now: int, rep: Seq<char>) -> bool {
    if ps.len() != 2 {
        rep == wrong_args(cmd)
    } else {
        exists|r: KvResult<Vec<String>>| #[trigger] smembers_reply(v, ps[1], now, r) && rep == kv_array_reply(r)
    }
}

/// SCARD key.
pub open spec fn scard_cmd(v: StoreView, cmd: Seq<char>, ps: Seq<Seq<char>>, now: int, rep: Seq<char>) -> bool {
    if ps.len() != 2 {
        rep == wrong_args(cmd)
    } else {
        exists|r: KvResult<usize>| #[trigger] scard_reply(v, ps[1], now, r) && rep == kv_count_reply(r)
    }
}

/// SISMEMBER key member.
pub open spec fn sismember_cmd(v: StoreView, cmd: Seq<char>, ps: Seq<Seq<char>>, now: int, rep: Seq<char>) -> bool {
    if ps.len() != 3 {
        rep == wrong_args(cmd)
    } else {
        exists|r: KvResult<bool>| #[trigger] sismember_reply(v, ps[1], ps[2], now, r) && rep == kv_bool_reply(r)
    }
}

/// SPOP key.
pub open spec fn spop_cmd(old: StoreView, new: StoreView, cmd: Seq<char>, ps: Seq<Seq<char>>, now: int, rep: Seq<char>) -> bool {
    if ps.len() != 2 {
        rep == wrong_args(cmd) && new == old
    } else {
        exists|r: KvResult<Option<String>>| #[trigger] spop_post(old, new, ps[1], now, r) && rep == kv_opt_reply(r)
    }
}

/// SRANDMEMBER key.
pub open spec fn srandmember_cmd(v: StoreView, cmd: Seq<char>, ps: Seq<Seq<char>>, now: int, rep: Seq<char>) -> bool {
    if ps.len() != 2 {
        rep == wrong_args(cmd)
    } else {
        exists|r: KvResult<Option<String>>| #[trigger] srandmember_reply(v, ps[1], now, r) && rep == kv_opt_reply(r)
    }
}

/// SMOVE source destination member.
pub open spec fn smove_cmd(old: StoreView, new: StoreView, cmd: Seq<char>, ps: Seq<Seq<char>>, now: int, rep: Seq<char>) -> bool {
    if ps.len() != 4 {
        rep == wrong_args(cmd) && new == old
    } else {
        exists|r: KvResult<bool>| #[trigger] smove_post(old, new, ps[1], ps[2], ps[3], now, r) && rep == kv_bool_reply(r)
    }
}

/// SUNION, SINTER or SDIFF key [key ...].
pub open spec fn combine_cmd(v: StoreView, cmd: Seq<char>, ps: Seq<Seq<char>>, op: SetOp, now: int, rep: Seq<char>) -> bool {
    if ps.len() < 2 {
        rep == wrong_args(cmd)
    } else {
        exists|r: KvResult<Vec<String>>|
            #[trigger] combine_reply(v, ps.skip(1), now, combined(v, ps.skip(1), now, op), r) && rep == kv_array_reply(r)
    }
}

/// SUNIONSTORE, SINTERSTORE or SDIFFSTORE destination key [key ...].
pub open spec fn combine_store_cmd(old: StoreView, new: StoreView, cmd: Seq<char>, ps: Seq<Seq<char>>, op: SetOp, now: int, rep: Seq<char>) -> bool {
    if ps.len() < 3 {
        rep == wrong_args(cmd) && new == old
    } else {
        exists|r: KvResult<usize>|
            #[trigger] store_post(old, new, ps.skip(2), ps[1], now, combined(old, ps.skip(2), now, op), r) && rep == kv_count_reply(r)
    }
}

/// SSCAN key ...: every member at once, with cursor 0; nothing for a key
/// of another type.
pub open spec fn sscan_cmd(v: StoreView, cmd: Seq<char>, ps: Seq<Seq<char>>, now: int, rep: Seq<char>) -> bool {
    if ps.len() < 2 {
        rep == wrong_args(cmd)
    } else {
        exists|r: KvResult<Vec<String>>| #[trigger] smembers_reply(v, ps[1], now, r) && rep == scan_reply(
            match r {
                Ok(ms) => string_seq(ms@),
                Err(_) => Seq::empty(),
            },
        )
    }
}

/// ZREM key member [member ...].
pub open spec fn zrem_cmd(old: StoreView, new: StoreView, cmd: Seq<char>, ps: Seq<Seq<char>>, now: int, rep: Seq<char>) -> bool {
    if ps.len() < 3 {
        rep == wrong_args(cmd) && new == old
    } else {
        exists|r: KvResult<i64>| #[trigger] zrem_post(old, new, ps[1], ps.skip(2), now, r) && rep == kv_int_reply(r)
    }
}

/// ZCARD key.
pub open spec fn zcard_cmd(v: StoreView, cmd: Seq<char>, ps: Seq<Seq<char>>, now: int, rep: Seq<char>) -> bool {
    if ps.len() != 2 {
        rep == wrong_args(cmd)
    } else {
        exists|r: KvResult<usize>| #[trigger] zcard_reply(v, ps[1], now, r) && rep == kv_count_reply(r)
    }
}

/// The reply for an optional position.
pub open spec fn kv_rank_reply(r: KvResult<Option<i64>>) -> Seq<char> {
    match r {
        Ok(Some(n)) => int_reply(n as int),
        Ok(None) => nil_reply(),
        Err(e) => error_reply(e),
    }
}

/// ZRANK key member (ZREVRANK when `reverse`).
pub open spec fn zrank_cmd(v: StoreView, cmd: Seq<char>, ps: Seq<Seq<char>>, reverse: bool, now: int, rep: Seq<char>) -> bool {
    if ps.len() != 3 {
        rep == wrong_args(cmd)
    } else {
        exists|r: KvResult<Option<i64>>| #[trigger] zrank_reply(v, ps[1], ps[2], reverse, now, r) && rep == kv_rank_reply(r)
    }
}

impl KvStore {
    /// Runs SADD, or SREM when `remove`.
    pub fn cmd_sadd(&mut self, cmd: &str, parts: &[String], remove: bool, now: i64) -> (rep: String)
        requires
            old(self).wf(),
        ensures
            final(self).wf(),
            sadd_cmd(old(self)@, final(self)@, cmd@, string_seq(parts@), remove, now as int, rep@),
    {
        if parts.len() < 3 {
            return wrong_args_reply(cmd);
        }
        let members = vstd::slice::slice_subrange(parts, 2, parts.len());
        assert(string_seq(members@) =~= string_seq(parts@).skip(2));
        if remove {
            let r = self.srem_at(parts[1].as_str(), members, now);
            assert(srem_post(old(self)@, self@, string_seq(parts@)[1], string_seq(parts@).skip(2), now as int, r));
            kv_int(r)
        } else {
            let r = self.sadd_at(parts[1].clone(), members, now);
            assert(sadd_post(old(self)@, self@, string_seq(parts@)[1], string_seq(parts@).skip(2), now as int, r));
            kv_int(r)
        }
    }

    /// Runs SMEMBERS.
    pub fn cmd_smembers(&self, cmd: &str, parts: &[String], now: i64) -> (rep: String)
        requires
            self.wf(),
        ensures
            smembers_cmd(self@, cmd@, string_seq(parts@), now as int, rep@),
    {
        if parts.len() != 2 {
            return wrong_args_reply(cmd);
        }
        let r = self.smembers_at(parts[1].as_str(), now);
        assert(smembers_reply(self@, string_seq(parts@)[1], now as int, r));
        kv_array(r)
    }

    /// Runs SCARD.
    pub fn cmd_scard(&self, cmd: &str, parts: &[String], now: i64) -> (rep: String)
        requires
            self.wf(),
        ensures
            scard_cmd(self@, cmd@, string_seq(parts@), now as int, rep@),
    {
        if parts.len() != 2 {
            return wrong_args_reply(cmd);
        }
        let r = self.scard_at(parts[1].as_str(), now);
        assert(scard_reply(self@, string_seq(parts@)[1], now as int, r));
        kv_count(r)
    }

    /// Runs SISMEMBER.
    pub fn cmd_sismember(&self, cmd: &str, parts: &[String], now: i64) -> (rep: String)
        requires
            self.wf(),
        ensures
            sismember_cmd(self@, cmd@, string_seq(parts@), now as int, rep@),
    {
        if parts.len() != 3 {
            return wrong_args_reply(cmd);
        }
        let r = self.sismember_at(parts[1].as_str(), parts[2].as_str(), now);
        assert(sismember_reply(self@, string_seq(parts@)[1], string_seq(parts@)[2], now as int, r));
        kv_bool(r)
    }

    /// Runs SPOP.
    pub fn cmd_spop(&mut self, cmd: &str, parts: &[String], now: i64) -> (rep: String)
        requires
            old(self).wf(),
        ensures
            final(self).wf(),
            spop_cmd(old(self)@, final(self)@, cmd@, string_seq(parts@), now as int, rep@),
    {
        if parts.len() != 2 {
            return wrong_args_reply(cmd);
        }
        let r = self.spop_at(parts[1].as_str(), now);
        assert(spop_post(old(self)@, self@, string_seq(parts@)[1], now as int, r));
        kv_opt(r)
    }

    /// Runs SRANDMEMBER.
    pub fn cmd_srandmember(&self, cmd: &str, parts: &[String], now: i64) -> (rep: String)
        requires
            self.wf(),
        ensures
            srandmember_cmd(self@, cmd@, string_seq(parts@), now as int, rep@),
    {
        if parts.len() != 2 {
            return wrong_args_reply(cmd);
        }
        let r = self.srandmember_at(parts[1].as_str(), now);
        assert(srandmember_reply(self@, string_seq(parts@)[1], now as int, r));
        kv_opt(r)
    }

    /// Runs SMOVE.
    pub fn cmd_smove(&mut self, cmd: &str, parts: &[String], now: i64) -> (rep: String)
        requires
            old(self).wf(),
        ensures
            final(self).wf(),
            smove_cmd(old(self)@, final(self)@, cmd@, string_seq(parts@), now as int, rep@),
    {
        if parts.len() != 4 {
            return wrong_args_reply(cmd);
        }
        let r = self.smove_at(parts[1].as_str(), parts[2].clone(), parts[3].clone(), now);
        assert(smove_post(old(self)@, self@, string_seq(parts@)[1], string_seq(parts@)[2], string_seq(parts@)[3], now as int, r));
        kv_bool(r)
    }

    /// Runs SUNION, SINTER or SDIFF.
    pub fn cmd_combine(&self, cmd: &str, parts: &[String], op: SetOp, now: i64) -> (rep: String)
        requires
            self.wf(),
        ensures
            combine_cmd(self@, cmd@, string_seq(parts@), op, now as int, rep@),
    {
        if parts.len() < 2 {
            return wrong_args_reply(cmd);
        }
        let keys = vstd::slice::slice_subrange(parts, 1, parts.len());
        let ghost ks = string_seq(parts@).skip(1);
        assert(string_seq(keys@) =~= ks);
        let r = match op {
            SetOp::Union => self.sunion_at(keys, now),
            SetOp::Inter => self.sinter_at(keys, now),
            SetOp::Diff => self.sdiff_at(keys, now),
        };
        assert(combine_reply(self@, ks, now as int, combined(self@, ks, now as int, op), r));
        kv_array(r)
    }

    /// Runs SUNIONSTORE, SINTERSTORE or SDIFFSTORE.
    pub fn cmd_combine_store(&mut self, cmd: &str, parts: &[String], op: SetOp, now: i64) -> (rep: String)
        requires
            old(self).wf(),
        ensures
            final(self).wf(),
            combine_store_cmd(old(self)@, final(self)@, cmd@, string_seq(parts@), op, now as int, rep@),
    {
        if parts.len() < 3 {
            return wrong_args_reply(cmd);
        }
        let keys = vstd::slice::slice_subrange(parts, 2, parts.len());
        let ghost ks = string_seq(parts@).skip(2);
        assert(string_seq(keys@) =~= ks);
        assert(string_seq(parts@)[1] == parts@[1]@);
        let r = match op {
            SetOp::Union => self.sunionstore_at(parts[1].clone(), keys, now),
            SetOp::Inter => self.sinterstore_at(parts[1].clone(), keys, now),
            SetOp::Diff => self.sdiffstore_at(parts[1].clone(), keys, now),
        };
        assert(store_post(old(self)@, self@, ks, string_seq(parts@)[1], now as int, combined(old(self)@, ks, now as int, op), r));
        kv_count(r)
    }

    /// Runs SSCAN.
    pub fn cmd_sscan(&self, cmd: &str, parts: &[String], now: i64) -> (rep: String)
        requires
            self.wf(),
        ensures
            sscan_cmd(self@, cmd@, string_seq(parts@), now as int, rep@),
    {
        if parts.len() < 2 {
            return wrong_args_reply(cmd);
        }
        let r = self.smembers_at(parts[1].as_str(), now);
        assert(smembers_reply(self@, string_seq(parts@)[1], now as int, r));
        let members = match r {
            Ok(ms) => ms,
            Err(_) => Vec::new(),
        };
        resp_scan(members.as_slice())
    }

    /// Runs ZREM.
    pub fn cmd_zrem(&mut self, cmd: &str, parts: &[String], now: i64) -> (rep: String)
        requires
            old(self).wf(),
        ensures
            final(self).wf(),
            zrem_cmd(old(self)@, final(self)@, cmd@, string_seq(parts@), now as int, rep@),
    {
        if parts.len() < 3 {
            return wrong_args_reply(cmd);
        }
        let members = vstd::slice::slice_subrange(parts, 2, parts.len());
        assert(string_seq(members@) =~= string_seq(parts@).skip(2));
        let r = self.zrem_at(parts[1].as_str(), members, now);
        assert(zrem_post(old(self)@, self@, string_seq(parts@)[1], string_seq(parts@).skip(2), now as int, r));
        kv_int(r)
    }

    /// Runs ZCARD.
    pub fn cmd_zcard(&self, cmd: &str, parts: &[String], now: i64) -> (rep: String)
        requires
            self.wf(),
        ensures
            zcard_cmd(self@, cmd@, string_seq(parts@), now as int, rep@),
    {
        if parts.len() != 2 {
            return wrong_args_reply(cmd);
        }
        let r = self.zcard_at(parts[1].as_str(), now);
        assert(zcard_reply(self@, string_seq(parts@)[1], now as int, r));
        kv_count(r)
    }

    /// Runs ZRANK, or ZREVRANK when `reverse`.
    pub fn cmd_zrank(&self, cmd: &str, parts: &[String], reverse: bool, now: i64) -> (rep: String)
        requires
            self.wf(),
        ensures
            zrank_cmd(self@, cmd@, string_seq(parts@), reverse, now as int, rep@),
    {
        if parts.len() != 3 {
            return wrong_args_reply(cmd);
        }
        let r = self.zrank_at(parts[1].as_str(), parts[2].as_str(), reverse, now);
        assert(zrank_reply(self@, string_seq(parts@)[1], string_seq(parts@)[2], reverse, now as int, r));
        match r {
            Ok(Some(n)) => resp_int(n),
            Ok(None) => resp_nil().to_owned(),
            Err(e) => e.to_resp(),
        }
    }
}

} // verus!
