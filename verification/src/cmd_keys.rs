//! The key-space commands of the protocol: DEL, UNLINK, EXISTS, TYPE,
//! RENAME, EXPIRE, PEXPIRE, TTL, PTTL, PERSIST, KEYS, DBSIZE, FLUSHALL,
//! FLUSHDB and SCAN.
use vstd::prelude::*;
use crate::cmd_strings::{expiry_ms, to_expiry_ms};
use crate::error::{KvError, KvResult, error_reply};
use crate::keyspace::{expire_post, persist_post, pttl_reply, removed_keys, rename_post, live_among, ttl_reply, type_reply};
use crate::resp::{
    array_reply, int_reply, kv_bool, kv_bool_reply, kv_ok, kv_ok_reply, ok_reply, ok_string, concat_str,
    resp_array, resp_int, resp_simple, simple_reply, wrong_args, wrong_args_reply,
};
use crate::seqs::{lemma_string_seq_push, lemma_take_step_to_set, string_seq};
use crate::store::{KvStore, NUM_SHARDS, StoreView, live_entry, live_keys, matching_keys, stored_total};
use crate::text::{lower_case, parse_i64, parse_i64_spec, str_eq, to_lowercase, to_uppercase, upper_case};

verus! {

/// DEL key [key ...] (and UNLINK): how many of the keys were stored.
pub open spec fn del_cmd(old: StoreView, new: StoreView, cmd: Seq<char>, ps: Seq<Seq<char>>, now: int, rep: Seq<char>) -> bool {
    if ps.len() < 2 {
        rep == wrong_args(cmd) && new == old
    } else {
        new == removed_keys(old, ps.skip(1)) && rep == int_reply((live_among(old, ps.skip(1), now).len() as i64) as int)
    }
}

/// EXISTS key: 1 when the key is live.
pub open spec fn exists_cmd(old: StoreView, new: StoreView, cmd: Seq<char>, ps: Seq<Seq<char>>, now: int, rep: Seq<char>) -> bool {
    new == old && if ps.len() != 2 {
        rep == wrong_args(cmd)
    } else {
        rep == int_reply(if live_entry(old, ps[1], now).is_some() { 1 } else { 0 })
    }
}

/// TYPE key.
pub open spec fn type_cmd(old: StoreView, new: StoreView, cmd: Seq<char>, ps: Seq<Seq<char>>, now: int, rep: Seq<char>) -> bool {
    new == old && if ps.len() != 2 {
        rep == wrong_args(cmd)
    } else {
        rep == simple_reply(type_reply(old, ps[1], now))
    }
}

/// RENAME from to.
pub open spec fn rename_cmd(old: StoreView, new: StoreView, cmd: Seq<char>, ps: Seq<Seq<char>>, now: int, rep: Seq<char>) -> bool {
    if ps.len() != 3 {
        rep == wrong_args(cmd) && new == old
    } else {
        exists|r: KvResult<()>| #[trigger] rename_post(old, new, ps[1], ps[2], now, r) && rep == kv_ok_reply(r)
    }
}

/// EXPIRE key seconds (PEXPIRE with milliseconds when `millis`).
pub open spec fn expire_cmd(old: StoreView, new: StoreView, cmd: Seq<char>, ps: Seq<Seq<char>>, millis: bool, now: int, rep: Seq<char>) -> bool {
    if ps.len() != 3 {
        rep == wrong_args(cmd) && new == old
    } else {
        match parse_i64_spec(ps[2]) {
            None => rep == error_reply(KvError::NotInteger) && new == old,
            Some(t) => match expiry_ms(t, millis) {
                None => rep == error_reply(KvError::InvalidExpiry) && new == old,
                Some(ms) => exists|r: KvResult<bool>|
                    #[trigger] expire_post(old, new, ps[1], ms, now, r) && rep == kv_bool_reply(r),
            },
        }
    }
}

/// TTL key (PTTL when `millis`).
pub open spec fn ttl_cmd(old: StoreView, new: StoreView, cmd: Seq<char>, ps: Seq<Seq<char>>, millis: bool, now: int, rep: Seq<char>) -> bool {
    new == old && if ps.len() != 2 {
        rep == wrong_args(cmd)
    } else if millis {
        rep == int_reply(pttl_reply(old, ps[1], now))
    } else {
        rep == int_reply(ttl_reply(old, ps[1], now))
    }
}

/// PERSIST key: 1 when the key was live.
pub open spec fn persist_cmd(old: StoreView, new: StoreView, cmd: Seq<char>, ps: Seq<Seq<char>>, now: int, rep: Seq<char>) -> bool {
    if ps.len() != 2 {
        rep == wrong_args(cmd) && new == old
    } else {
        exists|b: bool| #[trigger] persist_post(old, new, ps[1], now, b) && rep == int_reply(if b { 1 } else { 0 })
    }
}

/// `ks` names each key of `s` once.
pub open spec fn lists_keys(ks: Seq<Seq<char>>, s: Set<Seq<char>>) -> bool {
    ks.no_duplicates() && ks.to_set() == s
}

/// KEYS pattern: the live keys the pattern matches, in some order.
pub open spec fn keys_cmd(old: StoreView, new: StoreView, cmd: Seq<char>, ps: Seq<Seq<char>>, now: int, rep: Seq<char>) -> bool {
    new == old && if ps.len() != 2 {
        rep == wrong_args(cmd)
    } else {
        exists|ks: Seq<Seq<char>>|
            #[trigger] lists_keys(ks, matching_keys(old, ps[1], now)) && rep == array_reply(ks)
    }
}

/// DBSIZE: the number of live keys.
pub open spec fn dbsize_cmd(old: StoreView, new: StoreView, now: int, rep: Seq<char>) -> bool {
    new == old && rep == int_reply((live_keys(old, now).len() as i64) as int)
}

/// `new` is `old` with every key gone.
pub open spec fn flushed(old: StoreView, new: StoreView) -> bool {
    &&& new.cap == old.cap
    &&& new.shards.len() == NUM_SHARDS
    &&& forall|i: int| 0 <= i < NUM_SHARDS ==> (#[trigger] new.shards[i]) == Map::<Seq<char>, crate::entry::EntryView>::empty()
}

/// The SCAN options read from position `i`: the last `MATCH` pattern and the
/// last `TYPE` name (lower-cased); `COUNT` and its value are skipped, and so
/// is any other word.
pub open spec fn scan_options(ps: Seq<Seq<char>>, i: int, pattern: Seq<char>, tf: Option<Seq<char>>) -> (Seq<char>, Option<Seq<char>>)
    decreases ps.len() - i,
{
    if i < 0 || i + 1 >= ps.len() {
        (pattern, tf)
    } else {
        let w = upper_case(ps[i]);
        if w == "MATCH"@ {
            scan_options(ps, i + 2, ps[i + 1], tf)
        } else if w == "COUNT"@ {
            scan_options(ps, i + 2, pattern, tf)
        } else if w == "TYPE"@ {
            scan_options(ps, i + 2, pattern, Some(lower_case(ps[i + 1])))
        } else {
            scan_options(ps, i + 1, pattern, tf)
        }
    }
}

/// The keys a SCAN answers with: the live keys the pattern matches, of the
/// given type when one is named.
pub open spec fn scanned_keys(v: StoreView, pattern: Seq<char>, tf: Option<Seq<char>>, now: int) -> Set<Seq<char>> {
    let all = matching_keys(v, pattern, now);
    match tf {
        None => all,
        Some(t) => all.filter(|k: Seq<char>| type_reply(v, k, now) == t),
    }
}

/// A finished SCAN reply: cursor 0, then the items.
pub open spec fn scan_reply(items: Seq<Seq<char>>) -> Seq<char> {
    "*2\r\n$1\r\n0\r\n"@ + array_reply(items)
}

/// SCAN cursor [MATCH pattern] [COUNT n] [TYPE type]: every matching key
/// at once, with cursor 0.
pub open spec fn scan_cmd(old: StoreView, new: StoreView, ps: Seq<Seq<char>>, now: int, rep: Seq<char>) -> bool {
    new == old && exists|ks: Seq<Seq<char>>| #[trigger] lists_keys(ks, scan_set(old, ps, now)) && rep == scan_reply(ks)
}

/// The keys a SCAN with arguments `ps` answers with.
pub open spec fn scan_set(v: StoreView, ps: Seq<Seq<char>>, now: int) -> Set<Seq<char>> {
    let o = scan_options(ps, 2, "*"@, None);
    scanned_keys(v, o.0, o.1, now)
}

/// The text of an optional string.
pub open spec fn opt_text(o: &Option<String>) -> Option<Seq<char>> {
    match o {
        Some(t) => Some(t@),
        None => None,
    }
}

/// Renders a finished SCAN reply.
pub fn resp_scan(items: &[String]) -> (r: String)
    ensures
        r@ == scan_reply(string_seq(items@)),
{
    let arr = resp_array(items);
    concat_str("*2\r\n$1\r\n0\r\n", arr.as_str())
}

impl KvStore {
    /// Runs DEL or UNLINK.
    pub fn cmd_del(&mut self, cmd: &str, parts: &[String], now: i64) -> (rep: String)
        requires
            old(self).wf(),
        ensures
            final(self).wf(),
            del_cmd(old(self)@, final(self)@, cmd@, string_seq(parts@), now as int, rep@),
    {
        if parts.len() < 2 {
            return wrong_args_reply(cmd);
        }
        let keys = vstd::slice::slice_subrange(parts, 1, parts.len());
        assert(string_seq(keys@) =~= string_seq(parts@).skip(1));
        let n = self.del_at(keys, now);
        resp_int(n)
    }

    /// Runs EXISTS.
    pub fn cmd_exists(&self, cmd: &str, parts: &[String], now: i64) -> (rep: String)
        requires
            self.wf(),
        ensures
            exists_cmd(self@, self@, cmd@, string_seq(parts@), now as int, rep@),
    {
        if parts.len() != 2 {
            return wrong_args_reply(cmd);
        }
        assert(string_seq(parts@)[1] == parts@[1]@);
        let b = self.key_exists_at(parts[1].as_str(), now);
        resp_int(if b {
            1
        } else {
            0
        })
    }

    /// Runs TYPE.
    pub fn cmd_type(&self, cmd: &str, parts: &[String], now: i64) -> (rep: String)
        requires
            self.wf(),
        ensures
            type_cmd(self@, self@, cmd@, string_seq(parts@), now as int, rep@),
    {
        if parts.len() != 2 {
            return wrong_args_reply(cmd);
        }
        assert(string_seq(parts@)[1] == parts@[1]@);
        resp_simple(self.type_of_at(parts[1].as_str(), now))
    }

    /// Runs RENAME.
    pub fn cmd_rename(&mut self, cmd: &str, parts: &[String], now: i64) -> (rep: String)
        requires
            old(self).wf(),
        ensures
            final(self).wf(),
            rename_cmd(old(self)@, final(self)@, cmd@, string_seq(parts@), now as int, rep@),
    {
        if parts.len() != 3 {
            return wrong_args_reply(cmd);
        }
        let r = self.rename_at(parts[1].as_str(), parts[2].clone(), now);
        assert(rename_post(old(self)@, self@, string_seq(parts@)[1], string_seq(parts@)[2], now as int, r));
        kv_ok(r)
    }

    /// Runs EXPIRE, or PEXPIRE when `millis`.
    pub fn cmd_expire(&mut self, cmd: &str, parts: &[String], millis: bool, now: i64) -> (rep: String)
        requires
            old(self).wf(),
            now >= 0,
        ensures
            final(self).wf(),
            expire_cmd(old(self)@, final(self)@, cmd@, string_seq(parts@), millis, now as int, rep@),
    {
        if parts.len() != 3 {
            return wrong_args_reply(cmd);
        }
        assert(string_seq(parts@)[2] == parts@[2]@);
        match parse_i64(parts[2].as_str()) {
            None => KvError::NotInteger.to_resp(),
            Some(t) => match to_expiry_ms(t, millis) {
                None => KvError::InvalidExpiry.to_resp(),
                Some(ms) => {
                    let r = self.expire_at(parts[1].as_str(), ms, now);
                    assert(expire_post(old(self)@, self@, string_seq(parts@)[1], ms, now as int, r));
                    kv_bool(r)
                },
            },
        }
    }

    /// Runs TTL, or PTTL when `millis`.
    pub fn cmd_ttl(&self, cmd: &str, parts: &[String], millis: bool, now: i64) -> (rep: String)
        requires
            self.wf(),
            now >= 0,
        ensures
            ttl_cmd(self@, self@, cmd@, string_seq(parts@), millis, now as int, rep@),
    {
        if parts.len() != 2 {
            return wrong_args_reply(cmd);
        }
        assert(string_seq(parts@)[1] == parts@[1]@);
        if millis {
            resp_int(self.pttl_at(parts[1].as_str(), now))
        } else {
            resp_int(self.ttl_at(parts[1].as_str(), now))
        }
    }

    /// Runs PERSIST.
    pub fn cmd_persist(&mut self, cmd: &str, parts: &[String], now: i64) -> (rep: String)
        requires
            old(self).wf(),
        ensures
            final(self).wf(),
            persist_cmd(old(self)@, final(self)@, cmd@, string_seq(parts@), now as int, rep@),
    {
        if parts.len() != 2 {
            return wrong_args_reply(cmd);
        }
        let b = self.persist_at(parts[1].as_str(), now);
        assert(persist_post(old(self)@, self@, string_seq(parts@)[1], now as int, b));
        resp_int(if b {
            1
        } else {
            0
        })
    }

    /// Runs KEYS.
    pub fn cmd_keys(&self, cmd: &str, parts: &[String], now: i64) -> (rep: String)
        requires
            self.wf(),
        ensures
            keys_cmd(self@, self@, cmd@, string_seq(parts@), now as int, rep@),
    {
        if parts.len() != 2 {
            return wrong_args_reply(cmd);
        }
        assert(string_seq(parts@)[1] == parts@[1]@);
        let ks = self.keys_at(parts[1].as_str(), now);
        assert(lists_keys(string_seq(ks@), matching_keys(self@, string_seq(parts@)[1], now as int)));
        resp_array(ks.as_slice())
    }

    /// Runs DBSIZE.
    pub fn cmd_dbsize(&self, now: i64) -> (rep: String)
        requires
            self.wf(),
            stored_total(self@) <= usize::MAX,
        ensures
            dbsize_cmd(self@, self@, now as int, rep@),
    {
        let n = self.db_size_at(now);
        resp_int(n as i64)
    }

    /// Runs FLUSHALL or FLUSHDB.
    pub fn cmd_flush(&mut self) -> (rep: String)
        requires
            old(self).wf(),
        ensures
            final(self).wf(),
            flushed(old(self)@, final(self)@),
            rep@ == ok_reply(),
    {
        self.flush_all();
        ok_string()
    }

    /// Runs SCAN.
    pub fn cmd_scan(&self, parts: &[String], now: i64) -> (rep: String)
        requires
            self.wf(),
        ensures
            scan_cmd(self@, self@, string_seq(parts@), now as int, rep@),
    {
        let ghost ps = string_seq(parts@);
        let mut pattern: String = "*".to_owned();
        let mut type_filter: Option<String> = None;
        let mut i: usize = 2;
        while i < parts.len() && i + 1 < parts.len()
            invariant
                2 <= i,
                ps == string_seq(parts@),
                scan_options(ps, 2, "*"@, None) == scan_options(ps, i as int, pattern@, opt_text(&type_filter)),
            decreases parts@.len() - i,
        {
            assert(ps[i as int] == parts@[i as int]@ && ps[i + 1] == parts@[i + 1]@);
            let w = to_uppercase(parts[i].as_str());
            if str_eq(w.as_str(), "MATCH") {
                pattern = parts[i + 1].clone();
                i = i + 2;
            } else if str_eq(w.as_str(), "COUNT") {
                i = i + 2;
            } else if str_eq(w.as_str(), "TYPE") {
                type_filter = Some(to_lowercase(parts[i + 1].as_str()));
                i = i + 2;
            } else {
                i = i + 1;
            }
        }
        let ghost tfv = opt_text(&type_filter);
        assert(scan_options(ps, 2, "*"@, None) == (pattern@, tfv));
        let keys = self.keys_at(pattern.as_str(), now);
        let ghost all = matching_keys(self@, pattern@, now as int);
        match type_filter {
            None => {
                assert(lists_keys(string_seq(keys@), scan_set(self@, ps, now as int)));
                resp_scan(keys.as_slice())
            },
            Some(t) => {
                let ghost ks = string_seq(keys@);
                let ghost want = all.filter(|k: Seq<char>| type_reply(self@, k, now as int) == t@);
                let mut out: Vec<String> = Vec::new();
                let mut j: usize = 0;
                assert(string_seq(out@).to_set() =~= ks.take(0).to_set().filter(|k: Seq<char>| type_reply(self@, k, now as int) == t@));
                while j < keys.len()
                    invariant
                        ks == string_seq(keys@),
                        ks.no_duplicates(),
                        ks.to_set() == all,
                        j <= keys@.len(),
                        string_seq(out@).no_duplicates(),
                        string_seq(out@).to_set() == ks.take(j as int).to_set().filter(|k: Seq<char>| type_reply(self@, k, now as int) == t@),
                        self.wf(),
                    decreases keys@.len() - j,
                {
                    proof {
                        lemma_take_step_to_set(ks, j as int);
                    }
                    let kind = self.type_of_at(keys[j].as_str(), now);
                    assert(ks[j as int] == keys@[j as int]@);
                    if str_eq(kind, t.as_str()) {
                        let ghost pre = out@;
                        proof {
                            lemma_string_seq_push(pre, keys@[j as int]);
                            assert(!ks.take(j as int).contains(ks[j as int]));
                            assert(!ks.take(j as int).to_set().contains(ks[j as int]));
                            assert(!string_seq(pre).to_set().contains(ks[j as int]));
                            assert(!string_seq(pre).contains(ks[j as int]));
                        }
                        out.push(keys[j].clone());
                        assert(string_seq(out@).to_set() =~= ks.take(j + 1).to_set().filter(|k: Seq<char>| type_reply(self@, k, now as int) == t@));
                    } else {
                        assert(string_seq(out@).to_set() =~= ks.take(j + 1).to_set().filter(|k: Seq<char>| type_reply(self@, k, now as int) == t@));
                    }
                    j = j + 1;
                }
                assert(ks.take(keys@.len() as int) =~= ks);
                assert(string_seq(out@).to_set() =~= want);
                assert(lists_keys(string_seq(out@), scan_set(self@, ps, now as int)));
                resp_scan(out.as_slice())
            },
        }
    }
}

} // verus!
