//! Running one protocol command against the store.
//!
//! `execute_command` takes the upper-cased command name and the command's
//! words (`parts[0]` is the name as sent) and answers with the reply text.
//! The sorted-set commands that read or write score text (ZADD, ZSCORE,
//! ZINCRBY, ZRANGE, ZREVRANGE, ZRANGEBYSCORE, ZREVRANGEBYSCORE, ZCOUNT,
//! ZPOPMIN, ZPOPMAX and ZSCAN) are not run here: for them the result is
//! `None` and the store is untouched, and the caller runs them with
//! `KvStore::run_score_command` of `crate::cmd_zsets`, handing in the scores
//! that their words write.
use vstd::prelude::*;
use crate::cmd_hashes::{
    hdel_cmd, hexists_cmd, hget_cmd, hgetall_cmd, hkeys_cmd, hlen_cmd, hmget_cmd, hscan_cmd, hset_cmd,
};
use crate::cmd_keys::{
    dbsize_cmd, del_cmd, exists_cmd, expire_cmd, flushed, keys_cmd, persist_cmd, rename_cmd, scan_cmd, ttl_cmd,
    type_cmd,
};
use crate::cmd_lists::{
    lindex_cmd, llen_cmd, lrange_cmd, lrem_cmd, lset_cmd, ltrim_cmd, pop_cmd, push_cmd,
};
use crate::cmd_sets::{
    SetOp, combine_cmd, combine_store_cmd, sadd_cmd, scard_cmd, sismember_cmd, smembers_cmd, smove_cmd,
    spop_cmd, srandmember_cmd, sscan_cmd, zcard_cmd, zrank_cmd, zrem_cmd,
};
use crate::cmd_strings::{
    append_cmd, get_cmd, getset_cmd, incr_cmd, incrby_cmd, mget_cmd, mset_cmd, set_cmd, setex_cmd,
    setnx_cmd,
};
use crate::resp::{err_reply, ok_reply, resp_err};
use crate::seqs::string_seq;
use crate::store::{KvStore, StoreView, stored_total};
use crate::text::{lower_case, push_str, str_eq, to_lowercase};

verus! {

/// The sorted-set commands that read or write score text.
pub open spec fn score_command(cmd: Seq<char>) -> bool {
    ||| cmd == "ZADD"@
    ||| cmd == "ZSCORE"@
    ||| cmd == "ZINCRBY"@
    ||| cmd == "ZRANGE"@
    ||| cmd == "ZREVRANGE"@
    ||| cmd == "ZRANGEBYSCORE"@
    ||| cmd == "ZREVRANGEBYSCORE"@
    ||| cmd == "ZCOUNT"@
    ||| cmd == "ZPOPMIN"@
    ||| cmd == "ZPOPMAX"@
    ||| cmd == "ZSCAN"@
}

/// What a string command does.
pub open spec fn string_command(old: StoreView, new: StoreView, cmd: Seq<char>, ps: Seq<Seq<char>>, now: int, rep: Option<Seq<char>>) -> bool {
    if cmd == "SET"@ {
        rep matches Some(r) && set_cmd(old, new, cmd, ps, now, r)
    } else if cmd == "SETEX"@ {
        rep matches Some(r) && setex_cmd(old, new, cmd, ps, false, now, r)
    } else if cmd == "PSETEX"@ {
        rep matches Some(r) && setex_cmd(old, new, cmd, ps, true, now, r)
    } else if cmd == "SETNX"@ {
        rep matches Some(r) && setnx_cmd(old, new, cmd, ps, now, r)
    } else if cmd == "GET"@ {
        rep matches Some(r) && get_cmd(old, new, cmd, ps, now, r)
    } else if cmd == "GETSET"@ {
        rep matches Some(r) && getset_cmd(old, new, cmd, ps, now, r)
    } else if cmd == "MSET"@ {
        rep matches Some(r) && mset_cmd(old, new, ps, now, r)
    } else if cmd == "MGET"@ {
        rep matches Some(r) && mget_cmd(old, new, cmd, ps, now, r)
    } else if cmd == "INCR"@ {
        rep matches Some(r) && incr_cmd(old, new, cmd, ps, false, now, r)
    } else if cmd == "DECR"@ {
        rep matches Some(r) && incr_cmd(old, new, cmd, ps, true, now, r)
    } else if cmd == "INCRBY"@ {
        rep matches Some(r) && incrby_cmd(old, new, cmd, ps, false, now, r)
    } else if cmd == "DECRBY"@ {
        rep matches Some(r) && incrby_cmd(old, new, cmd, ps, true, now, r)
    } else if cmd == "APPEND"@ {
        rep matches Some(r) && append_cmd(old, new, cmd, ps, now, r)
    } else {
        rep is None && new == old
    }
}

/// What a key-space command does.
pub open spec fn key_command(old: StoreView, new: StoreView, cmd: Seq<char>, ps: Seq<Seq<char>>, now: int, rep: Option<Seq<char>>) -> bool {
    if cmd == "DEL"@ || cmd == "UNLINK"@ {
        rep matches Some(r) && del_cmd(old, new, cmd, ps, now, r)
    } else if cmd == "EXISTS"@ {
        rep matches Some(r) && exists_cmd(old, new, cmd, ps, now, r)
    } else if cmd == "TYPE"@ {
        rep matches Some(r) && type_cmd(old, new, cmd, ps, now, r)
    } else if cmd == "RENAME"@ {
        rep matches Some(r) && rename_cmd(old, new, cmd, ps, now, r)
    } else if cmd == "EXPIRE"@ {
        rep matches Some(r) && expire_cmd(old, new, cmd, ps, false, now, r)
    } else if cmd == "PEXPIRE"@ {
        rep matches Some(r) && expire_cmd(old, new, cmd, ps, true, now, r)
    } else if cmd == "TTL"@ {
        rep matches Some(r) && ttl_cmd(old, new, cmd, ps, false, now, r)
    } else if cmd == "PTTL"@ {
        rep matches Some(r) && ttl_cmd(old, new, cmd, ps, true, now, r)
    } else if cmd == "PERSIST"@ {
        rep matches Some(r) && persist_cmd(old, new, cmd, ps, now, r)
    } else if cmd == "KEYS"@ {
        rep matches Some(r) && keys_cmd(old, new, cmd, ps, now, r)
    } else if cmd == "DBSIZE"@ {
        rep matches Some(r) && dbsize_cmd(old, new, now, r)
    } else if cmd == "FLUSHALL"@ || cmd == "FLUSHDB"@ {
        rep matches Some(r) && flushed(old, new) && r == ok_reply()
    } else if cmd == "SCAN"@ {
        rep matches Some(r) && scan_cmd(old, new, ps, now, r)
    } else {
        rep is None && new == old
    }
}

/// What a hash command does.
pub open spec fn hash_command(old: StoreView, new: StoreView, cmd: Seq<char>, ps: Seq<Seq<char>>, now: int, rep: Option<Seq<char>>) -> bool {
    if cmd == "HSET"@ {
        rep matches Some(r) && hset_cmd(old, new, ps, false, now, r)
    } else if cmd == "HGET"@ {
        rep matches Some(r) && hget_cmd(old, cmd, ps, now, r) && new == old
    } else if cmd == "HDEL"@ {
        rep matches Some(r) && hdel_cmd(old, new, cmd, ps, now, r)
    } else if cmd == "HGETALL"@ {
        rep matches Some(r) && hgetall_cmd(old, cmd, ps, now, r) && new == old
    } else if cmd == "HKEYS"@ {
        rep matches Some(r) && hkeys_cmd(old, cmd, ps, false, now, r) && new == old
    } else if cmd == "HVALS"@ {
        rep matches Some(r) && hkeys_cmd(old, cmd, ps, true, now, r) && new == old
    } else if cmd == "HLEN"@ {
        rep matches Some(r) && hlen_cmd(old, cmd, ps, now, r) && new == old
    } else if cmd == "HEXISTS"@ {
        rep matches Some(r) && hexists_cmd(old, cmd, ps, now, r) && new == old
    } else if cmd == "HMGET"@ {
        rep matches Some(r) && hmget_cmd(old, cmd, ps, now, r) && new == old
    } else if cmd == "HMSET"@ {
        rep matches Some(r) && hset_cmd(old, new, ps, true, now, r)
    } else if cmd == "HSCAN"@ {
        rep matches Some(r) && hscan_cmd(old, cmd, ps, now, r) && new == old
    } else {
        rep is None && new == old
    }
}

/// What a list command does.
pub open spec fn list_command(old: StoreView, new: StoreView, cmd: Seq<char>, ps: Seq<Seq<char>>, now: int, rep: Option<Seq<char>>) -> bool {
    if cmd == "LPUSH"@ {
        rep matches Some(r) && push_cmd(old, new, cmd, ps, true, now, r)
    } else if cmd == "RPUSH"@ {
        rep matches Some(r) && push_cmd(old, new, cmd, ps, false, now, r)
    } else if cmd == "LPOP"@ {
        rep matches Some(r) && pop_cmd(old, new, cmd, ps, true, now, r)
    } else if cmd == "RPOP"@ {
        rep matches Some(r) && pop_cmd(old, new, cmd, ps, false, now, r)
    } else if cmd == "LLEN"@ {
        rep matches Some(r) && llen_cmd(old, cmd, ps, now, r) && new == old
    } else if cmd == "LINDEX"@ {
        rep matches Some(r) && lindex_cmd(old, cmd, ps, now, r) && new == old
    } else if cmd == "LRANGE"@ {
        rep matches Some(r) && lrange_cmd(old, cmd, ps, now, r) && new == old
    } else if cmd == "LSET"@ {
        rep matches Some(r) && lset_cmd(old, new, cmd, ps, now, r)
    } else if cmd == "LREM"@ {
        rep matches Some(r) && lrem_cmd(old, new, cmd, ps, now, r)
    } else if cmd == "LTRIM"@ {
        rep matches Some(r) && ltrim_cmd(old, new, cmd, ps, now, r)
    } else {
        rep is None && new == old
    }
}

/// What a set command, or a sorted-set command without score text, does.
pub open spec fn set_command(old: StoreView, new: StoreView, cmd: Seq<char>, ps: Seq<Seq<char>>, now: int, rep: Option<Seq<char>>) -> bool {
    if cmd == "SADD"@ {
        rep matches Some(r) && sadd_cmd(old, new, cmd, ps, false, now, r)
    } else if cmd == "SREM"@ {
        rep matches Some(r) && sadd_cmd(old, new, cmd, ps, true, now, r)
    } else if cmd == "SMEMBERS"@ {
        rep matches Some(r) && smembers_cmd(old, cmd, ps, now, r) && new == old
    } else if cmd == "SCARD"@ {
        rep matches Some(r) && scard_cmd(old, cmd, ps, now, r) && new == old
    } else if cmd == "SISMEMBER"@ {
        rep matches Some(r) && sismember_cmd(old, cmd, ps, now, r) && new == old
    } else if cmd == "SPOP"@ {
        rep matches Some(r) && spop_cmd(old, new, cmd, ps, now, r)
    } else if cmd == "SRANDMEMBER"@ {
        rep matches Some(r) && srandmember_cmd(old, cmd, ps, now, r) && new == old
    } else if cmd == "SMOVE"@ {
        rep matches Some(r) && smove_cmd(old, new, cmd, ps, now, r)
    } else if cmd == "SUNION"@ {
        rep matches Some(r) && combine_cmd(old, cmd, ps, SetOp::Union, now, r) && new == old
    } else if cmd == "SINTER"@ {
        rep matches Some(r) && combine_cmd(old, cmd, ps, SetOp::Inter, now, r) && new == old
    } else if cmd == "SDIFF"@ {
        rep matches Some(r) && combine_cmd(old, cmd, ps, SetOp::Diff, now, r) && new == old
    } else if cmd == "SUNIONSTORE"@ {
        rep matches Some(r) && combine_store_cmd(old, new, cmd, ps, SetOp::Union, now, r)
    } else if cmd == "SINTERSTORE"@ {
        rep matches Some(r) && combine_store_cmd(old, new, cmd, ps, SetOp::Inter, now, r)
    } else if cmd == "SDIFFSTORE"@ {
        rep matches Some(r) && combine_store_cmd(old, new, cmd, ps, SetOp::Diff, now, r)
    } else if cmd == "SSCAN"@ {
        rep matches Some(r) && sscan_cmd(old, cmd, ps, now, r) && new == old
    } else if cmd == "ZREM"@ {
        rep matches Some(r) && zrem_cmd(old, new, cmd, ps, now, r)
    } else if cmd == "ZCARD"@ {
        rep matches Some(r) && zcard_cmd(old, cmd, ps, now, r) && new == old
    } else if cmd == "ZRANK"@ {
        rep matches Some(r) && zrank_cmd(old, cmd, ps, false, now, r) && new == old
    } else if cmd == "ZREVRANK"@ {
        rep matches Some(r) && zrank_cmd(old, cmd, ps, true, now, r) && new == old
    } else {
        rep is None && new == old
    }
}

/// The first arguments in back quotes, separated by `, `.
pub open spec fn quoted_args(args: Seq<Seq<char>>) -> Seq<char>
    decreases args.len(),
{
    if args.len() == 0 {
        Seq::empty()
    } else {
        let head = quoted_args(args.drop_last());
        let sep = if args.len() > 1 { ", "@ } else { Seq::empty() };
        head + sep + "`"@ + args.last() + "`"@
    }
}

/// The reply to a command the server does not know: its name in lower
/// case and at most three of its arguments.
pub open spec fn unknown_reply(cmd: Seq<char>, ps: Seq<Seq<char>>) -> Seq<char> {
    let args = ps.skip(1);
    let shown = if args.len() > 3 { args.take(3) } else { args };
    err_reply("unknown command `"@ + lower_case(cmd) + "`, with args beginning with: "@ + quoted_args(shown))
}

/// The text of an optional reply.
pub open spec fn opt_reply(rep: Option<String>) -> Option<Seq<char>> {
    match rep {
        Some(r) => Some(r@),
        None => None,
    }
}

/// The string commands.
pub open spec fn is_string_command(cmd: Seq<char>) -> bool {
    ||| cmd == "SET"@ || cmd == "SETEX"@ || cmd == "PSETEX"@ || cmd == "SETNX"@ || cmd == "GET"@
    ||| cmd == "GETSET"@ || cmd == "MSET"@ || cmd == "MGET"@ || cmd == "INCR"@ || cmd == "DECR"@
    ||| cmd == "INCRBY"@ || cmd == "DECRBY"@ || cmd == "APPEND"@
}

/// The key-space commands.
pub open spec fn is_key_command(cmd: Seq<char>) -> bool {
    ||| cmd == "DEL"@ || cmd == "UNLINK"@ || cmd == "EXISTS"@ || cmd == "TYPE"@ || cmd == "RENAME"@
    ||| cmd == "EXPIRE"@ || cmd == "PEXPIRE"@ || cmd == "TTL"@ || cmd == "PTTL"@ || cmd == "PERSIST"@
    ||| cmd == "KEYS"@ || cmd == "DBSIZE"@ || cmd == "FLUSHALL"@ || cmd == "FLUSHDB"@ || cmd == "SCAN"@
}

/// The hash commands.
pub open spec fn is_hash_command(cmd: Seq<char>) -> bool {
    ||| cmd == "HSET"@ || cmd == "HGET"@ || cmd == "HDEL"@ || cmd == "HGETALL"@ || cmd == "HKEYS"@
    ||| cmd == "HVALS"@ || cmd == "HLEN"@ || cmd == "HEXISTS"@ || cmd == "HMGET"@ || cmd == "HMSET"@
    ||| cmd == "HSCAN"@
}

/// The list commands.
pub open spec fn is_list_command(cmd: Seq<char>) -> bool {
    ||| cmd == "LPUSH"@ || cmd == "RPUSH"@ || cmd == "LPOP"@ || cmd == "RPOP"@ || cmd == "LLEN"@
    ||| cmd == "LINDEX"@ || cmd == "LRANGE"@ || cmd == "LSET"@ || cmd == "LREM"@ || cmd == "LTRIM"@
}

/// The set commands and the sorted-set commands without score text.
pub open spec fn is_set_command(cmd: Seq<char>) -> bool {
    ||| cmd == "SADD"@ || cmd == "SREM"@ || cmd == "SMEMBERS"@ || cmd == "SCARD"@ || cmd == "SISMEMBER"@
    ||| cmd == "SPOP"@ || cmd == "SRANDMEMBER"@ || cmd == "SMOVE"@ || cmd == "SUNION"@ || cmd == "SINTER"@
    ||| cmd == "SDIFF"@ || cmd == "SUNIONSTORE"@ || cmd == "SINTERSTORE"@ || cmd == "SDIFFSTORE"@
    ||| cmd == "SSCAN"@ || cmd == "ZREM"@ || cmd == "ZCARD"@ || cmd == "ZRANK"@ || cmd == "ZREVRANK"@
}

/// The reply a command gets and the store it leaves, or `None` (with the
/// store untouched) for a command with score text.
pub open spec fn command_post(old: StoreView, new: StoreView, cmd: Seq<char>, ps: Seq<Seq<char>>, now: int, rep: Option<Seq<char>>) -> bool {
    if score_command(cmd) {
        rep is None && new == old
    } else if is_string_command(cmd) {
        string_command(old, new, cmd, ps, now, rep)
    } else if is_key_command(cmd) {
        key_command(old, new, cmd, ps, now, rep)
    } else if is_hash_command(cmd) {
        hash_command(old, new, cmd, ps, now, rep)
    } else if is_list_command(cmd) {
        list_command(old, new, cmd, ps, now, rep)
    } else if is_set_command(cmd) {
        set_command(old, new, cmd, ps, now, rep)
    } else {
        rep == Some(unknown_reply(cmd, ps)) && new == old
    }
}

/// Renders the unknown-command reply.
pub(crate) fn unknown_command(cmd: &str, parts: &[String]) -> (r: String)
    requires
        parts@.len() >= 1,
    ensures
        r@ == unknown_reply(cmd@, string_seq(parts@)),
{
    let ghost ps = string_seq(parts@);
    let ghost args = ps.skip(1);
    let n = if parts.len() - 1 > 3 {
        3
    } else {
        parts.len() - 1
    };
    let ghost shown = if args.len() > 3 { args.take(3) } else { args };
    assert(shown.len() == n);
    let mut list = String::new();
    let mut i: usize = 0;
    assert(shown.take(0) =~= Seq::<Seq<char>>::empty());
    assert(list@ =~= quoted_args(shown.take(0)));
    while i < n
        invariant
            n == shown.len(),
            n <= parts@.len() - 1,
            i <= n,
            ps == string_seq(parts@),
            args == ps.skip(1),
            forall|j: int| 0 <= j < n ==> #[trigger] shown[j] == args[j],
            list@ == quoted_args(shown.take(i as int)),
        decreases n - i,
    {
        if i > 0 {
            push_str(&mut list, ", ");
        }
        push_str(&mut list, "`");
        push_str(&mut list, parts[i + 1].as_str());
        push_str(&mut list, "`");
        proof {
            assert(shown.take(i + 1).drop_last() =~= shown.take(i as int));
            assert(shown.take(i + 1).last() == shown[i as int]);
            assert(shown[i as int] == args[i as int]);
            assert(args[i as int] == parts@[i + 1]@);
        }
        assert(list@ =~= quoted_args(shown.take(i + 1)));
        i = i + 1;
    }
    assert(shown.take(n as int) =~= shown);
    let lc = to_lowercase(cmd);
    let mut msg = "unknown command `".to_owned();
    push_str(&mut msg, lc.as_str());
    push_str(&mut msg, "`, with args beginning with: ");
    push_str(&mut msg, list.as_str());
    resp_err(msg.as_str())
}

impl KvStore {
    /// Runs a string command; `None` when `cmd` is not one.
    fn run_string_command(&mut self, cmd: &str, parts: &[String], now: i64) -> (rep: Option<String>)
        requires
            old(self).wf(),
            now >= 0,
        ensures
            final(self).wf(),
            string_command(old(self)@, final(self)@, cmd@, string_seq(parts@), now as int, opt_reply(rep)),
    {
        if str_eq(cmd, "SET") {
            Some(self.cmd_set(cmd, parts, now))
        } else if str_eq(cmd, "SETEX") {
            Some(self.cmd_setex(cmd, parts, false, now))
        } else if str_eq(cmd, "PSETEX") {
            Some(self.cmd_setex(cmd, parts, true, now))
        } else if str_eq(cmd, "SETNX") {
            Some(self.cmd_setnx(cmd, parts, now))
        } else if str_eq(cmd, "GET") {
            Some(self.cmd_get(cmd, parts, now))
        } else if str_eq(cmd, "GETSET") {
            Some(self.cmd_getset(cmd, parts, now))
        } else if str_eq(cmd, "MSET") {
            Some(self.cmd_mset(parts, now))
        } else if str_eq(cmd, "MGET") {
            Some(self.cmd_mget(cmd, parts, now))
        } else if str_eq(cmd, "INCR") {
            Some(self.cmd_incr(cmd, parts, false, now))
        } else if str_eq(cmd, "DECR") {
            Some(self.cmd_incr(cmd, parts, true, now))
        } else if str_eq(cmd, "INCRBY") {
            Some(self.cmd_incrby(cmd, parts, false, now))
        } else if str_eq(cmd, "DECRBY") {
            Some(self.cmd_incrby(cmd, parts, true, now))
        } else if str_eq(cmd, "APPEND") {
            Some(self.cmd_append(cmd, parts, now))
        } else {
            None
        }
    }

    /// Runs a key-space command; `None` when `cmd` is not one.
    fn run_key_command(&mut self, cmd: &str, parts: &[String], now: i64) -> (rep: Option<String>)
        requires
            old(self).wf(),
            now >= 0,
            stored_total(old(self)@) <= usize::MAX,
        ensures
            final(self).wf(),
            key_command(old(self)@, final(self)@, cmd@, string_seq(parts@), now as int, opt_reply(rep)),
    {
        if str_eq(cmd, "DEL") || str_eq(cmd, "UNLINK") {
            Some(self.cmd_del(cmd, parts, now))
        } else if str_eq(cmd, "EXISTS") {
            Some(self.cmd_exists(cmd, parts, now))
        } else if str_eq(cmd, "TYPE") {
            Some(self.cmd_type(cmd, parts, now))
        } else if str_eq(cmd, "RENAME") {
            Some(self.cmd_rename(cmd, parts, now))
        } else if str_eq(cmd, "EXPIRE") {
            Some(self.cmd_expire(cmd, parts, false, now))
        } else if str_eq(cmd, "PEXPIRE") {
            Some(self.cmd_expire(cmd, parts, true, now))
        } else if str_eq(cmd, "TTL") {
            Some(self.cmd_ttl(cmd, parts, false, now))
        } else if str_eq(cmd, "PTTL") {
            Some(self.cmd_ttl(cmd, parts, true, now))
        } else if str_eq(cmd, "PERSIST") {
            Some(self.cmd_persist(cmd, parts, now))
        } else if str_eq(cmd, "KEYS") {
            Some(self.cmd_keys(cmd, parts, now))
        } else if str_eq(cmd, "DBSIZE") {
            Some(self.cmd_dbsize(now))
        } else if str_eq(cmd, "FLUSHALL") || str_eq(cmd, "FLUSHDB") {
            Some(self.cmd_flush())
        } else if str_eq(cmd, "SCAN") {
            Some(self.cmd_scan(parts, now))
        } else {
            None
        }
    }

    /// Runs a hash command; `None` when `cmd` is not one.
    fn run_hash_command(&mut self, cmd: &str, parts: &[String], now: i64) -> (rep: Option<String>)
        requires
            old(self).wf(),
        ensures
            final(self).wf(),
            hash_command(old(self)@, final(self)@, cmd@, string_seq(parts@), now as int, opt_reply(rep)),
    {
        if str_eq(cmd, "HSET") {
            Some(self.cmd_hset(parts, false, now))
        } else if str_eq(cmd, "HGET") {
            Some(self.cmd_hget(cmd, parts, now))
        } else if str_eq(cmd, "HDEL") {
            Some(self.cmd_hdel(cmd, parts, now))
        } else if str_eq(cmd, "HGETALL") {
            Some(self.cmd_hgetall(cmd, parts, now))
        } else if str_eq(cmd, "HKEYS") {
            Some(self.cmd_hkeys(cmd, parts, false, now))
        } else if str_eq(cmd, "HVALS") {
            Some(self.cmd_hkeys(cmd, parts, true, now))
        } else if str_eq(cmd, "HLEN") {
            Some(self.cmd_hlen(cmd, parts, now))
        } else if str_eq(cmd, "HEXISTS") {
            Some(self.cmd_hexists(cmd, parts, now))
        } else if str_eq(cmd, "HMGET") {
            Some(self.cmd_hmget(cmd, parts, now))
        } else if str_eq(cmd, "HMSET") {
            Some(self.cmd_hset(parts, true, now))
        } else if str_eq(cmd, "HSCAN") {
            Some(self.cmd_hscan(cmd, parts, now))
        } else {
            None
        }
    }

    /// Runs a list command; `None` when `cmd` is not one.
    fn run_list_command(&mut self, cmd: &str, parts: &[String], now: i64) -> (rep: Option<String>)
        requires
            old(self).wf(),
        ensures
            final(self).wf(),
            list_command(old(self)@, final(self)@, cmd@, string_seq(parts@), now as int, opt_reply(rep)),
    {
        if str_eq(cmd, "LPUSH") {
            Some(self.cmd_push(cmd, parts, true, now))
        } else if str_eq(cmd, "RPUSH") {
            Some(self.cmd_push(cmd, parts, false, now))
        } else if str_eq(cmd, "LPOP") {
            Some(self.cmd_pop(cmd, parts, true, now))
        } else if str_eq(cmd, "RPOP") {
            Some(self.cmd_pop(cmd, parts, false, now))
        } else if str_eq(cmd, "LLEN") {
            Some(self.cmd_llen(cmd, parts, now))
        } else if str_eq(cmd, "LINDEX") {
            Some(self.cmd_lindex(cmd, parts, now))
        } else if str_eq(cmd, "LRANGE") {
            Some(self.cmd_lrange(cmd, parts, now))
        } else if str_eq(cmd, "LSET") {
            Some(self.cmd_lset(cmd, parts, now))
        } else if str_eq(cmd, "LREM") {
            Some(self.cmd_lrem(cmd, parts, now))
        } else if str_eq(cmd, "LTRIM") {
            Some(self.cmd_ltrim(cmd, parts, now))
        } else {
            None
        }
    }

    /// Runs a set command, or a sorted-set command without score text;
    /// `None` when `cmd` is not one.
    fn run_set_command(&mut self, cmd: &str, parts: &[String], now: i64) -> (rep: Option<String>)
        requires
            old(self).wf(),
        ensures
            final(self).wf(),
            set_command(old(self)@, final(self)@, cmd@, string_seq(parts@), now as int, opt_reply(rep)),
    {
        if str_eq(cmd, "SADD") {
            Some(self.cmd_sadd(cmd, parts, false, now))
        } else if str_eq(cmd, "SREM") {
            Some(self.cmd_sadd(cmd, parts, true, now))
        } else if str_eq(cmd, "SMEMBERS") {
            Some(self.cmd_smembers(cmd, parts, now))
        } else if str_eq(cmd, "SCARD") {
            Some(self.cmd_scard(cmd, parts, now))
        } else if str_eq(cmd, "SISMEMBER") {
            Some(self.cmd_sismember(cmd, parts, now))
        } else if str_eq(cmd, "SPOP") {
            Some(self.cmd_spop(cmd, parts, now))
        } else if str_eq(cmd, "SRANDMEMBER") {
            Some(self.cmd_srandmember(cmd, parts, now))
        } else if str_eq(cmd, "SMOVE") {
            Some(self.cmd_smove(cmd, parts, now))
        } else if str_eq(cmd, "SUNION") {
            Some(self.cmd_combine(cmd, parts, SetOp::Union, now))
        } else if str_eq(cmd, "SINTER") {
            Some(self.cmd_combine(cmd, parts, SetOp::Inter, now))
        } else if str_eq(cmd, "SDIFF") {
            Some(self.cmd_combine(cmd, parts, SetOp::Diff, now))
        } else if str_eq(cmd, "SUNIONSTORE") {
            Some(self.cmd_combine_store(cmd, parts, SetOp::Union, now))
        } else if str_eq(cmd, "SINTERSTORE") {
            Some(self.cmd_combine_store(cmd, parts, SetOp::Inter, now))
        } else if str_eq(cmd, "SDIFFSTORE") {
            Some(self.cmd_combine_store(cmd, parts, SetOp::Diff, now))
        } else if str_eq(cmd, "SSCAN") {
            Some(self.cmd_sscan(cmd, parts, now))
        } else if str_eq(cmd, "ZREM") {
            Some(self.cmd_zrem(cmd, parts, now))
        } else if str_eq(cmd, "ZCARD") {
            Some(self.cmd_zcard(cmd, parts, now))
        } else if str_eq(cmd, "ZRANK") {
            Some(self.cmd_zrank(cmd, parts, false, now))
        } else if str_eq(cmd, "ZREVRANK") {
            Some(self.cmd_zrank(cmd, parts, true, now))
        } else {
            None
        }
    }
}

/// Whether `cmd` is one of the sorted-set commands with score text.
pub fn is_score_command(cmd: &str) -> (b: bool)
    ensures
        b == score_command(cmd@),
{
    str_eq(cmd, "ZADD") || str_eq(cmd, "ZSCORE") || str_eq(cmd, "ZINCRBY") || str_eq(cmd, "ZRANGE")
        || str_eq(cmd, "ZREVRANGE") || str_eq(cmd, "ZRANGEBYSCORE") || str_eq(cmd, "ZREVRANGEBYSCORE")
        || str_eq(cmd, "ZCOUNT") || str_eq(cmd, "ZPOPMIN") || str_eq(cmd, "ZPOPMAX") || str_eq(cmd, "ZSCAN")
}

/// Runs one command at time `now`.
pub fn execute_command_at(store: &mut KvStore, cmd: &str, parts: &[String], now: i64) -> (rep: Option<String>)
    requires
        old(store).wf(),
        now >= 0,
        parts@.len() >= 1,
        stored_total(old(store)@) <= usize::MAX,
    ensures
        final(store).wf(),
        command_post(old(store)@, final(store)@, cmd@, string_seq(parts@), now as int, opt_reply(rep)),
{
    if is_score_command(cmd) {
        return None;
    }
    if let Some(r) = store.run_string_command(cmd, parts, now) {
        return Some(r);
    }
    if let Some(r) = store.run_key_command(cmd, parts, now) {
        return Some(r);
    }
    if let Some(r) = store.run_hash_command(cmd, parts, now) {
        return Some(r);
    }
    if let Some(r) = store.run_list_command(cmd, parts, now) {
        return Some(r);
    }
    if let Some(r) = store.run_set_command(cmd, parts, now) {
        return Some(r);
    }
    Some(unknown_command(cmd, parts))
}

/// Runs one command now.
pub fn execute_command(store: &mut KvStore, cmd: &str, parts: &[String]) -> (rep: Option<String>)
    requires
        old(store).wf(),
        parts@.len() >= 1,
        stored_total(old(store)@) <= usize::MAX,
    ensures
        final(store).wf(),
        final(store).clock() >= old(store).clock(),
        command_post(old(store)@, final(store)@, cmd@, string_seq(parts@), final(store).clock() as int, opt_reply(rep)),
{
    let now = store.next_time();
    let r = execute_command_at(store, cmd, parts, now);
    store.set_clock(now);
    r
}

} // verus!
