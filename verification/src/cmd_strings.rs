//! The string commands of the protocol: SET, SETEX, PSETEX, SETNX, GET,
//! GETSET, MSET, MGET, INCR, DECR, INCRBY, DECRBY and APPEND. Each takes the
//! command's arguments (`parts[0]` is the command name), checks them as the
//! server does, runs the store operation and renders the reply.
use vstd::prelude::*;
use crate::error::{KvError, KvResult, error_reply};
use crate::resp::{err_reply, int_reply, kv_count, kv_count_reply, kv_int, kv_int_reply, kv_ok, kv_ok_reply, kv_opt, kv_opt_reply, nil_reply, ok_reply, ok_string, opt_array_reply, resp_err, resp_int, resp_nil, resp_opt_array, wrong_args, wrong_args_reply};
use crate::seqs::string_seq;
use crate::store::{KvStore, StoreView};
use crate::strings::{append_post, get_post, getset_post, incr_by_post, mget_post, mset_post, set_post, setnx_post, string_pairs};
use crate::text::{parse_i64, parse_i64_spec, str_eq, to_uppercase, upper_case};

verus! {

/// The options after `SET key value`, read from position `i` on: the
/// expiry in milliseconds (`EX` seconds times 1000, refused as an invalid
/// expiry when that does not fit in an `i64`, or `PX` milliseconds; the last
/// one wins) and whether `NX` was given.
pub open spec fn set_options(ps: Seq<Seq<char>>, i: int, expire: Option<i64>, nx: bool) -> Result<(Option<i64>, bool), KvError>
    decreases ps.len() - i,
{
    if i < 0 || i >= ps.len() {
        Ok((expire, nx))
    } else {
        let w = upper_case(ps[i]);
        if w == "EX"@ || w == "PX"@ {
            if i + 1 >= ps.len() {
                Err(KvError::SyntaxError)
            } else {
                match parse_i64_spec(ps[i + 1]) {
                    None => Err(KvError::NotInteger),
                    Some(v) => match expiry_ms(v, w != "EX"@) {
                        None => Err(KvError::InvalidExpiry),
                        Some(ms) => set_options(ps, i + 2, Some(ms), nx),
                    },
                }
            }
        } else if w == "NX"@ {
            set_options(ps, i + 1, expire, true)
        } else {
            Err(KvError::SyntaxError)
        }
    }
}

/// SET key value [EX seconds | PX milliseconds | NX]...: with `NX` the
/// value is stored only if the key is not live (the expiry is then not
/// used), else it is stored with the expiry.
pub open spec fn set_cmd(old: StoreView, new: StoreView, cmd: Seq<char>, ps: Seq<Seq<char>>, now: int, rep: Seq<char>) -> bool {
    if ps.len() < 3 {
        rep == wrong_args(cmd) && new == old
    } else {
        match set_options(ps, 3, None, false) {
            Err(e) => rep == error_reply(e) && new == old,
            Ok((exp, nx)) => if nx {
                exists|b: bool| #[trigger] setnx_post(old, new, ps[1], ps[2], now, b) && rep == (if b { ok_reply() } else { nil_reply() })
            } else {
                exists|r: KvResult<()>| #[trigger] set_post(old, new, ps[1], ps[2], exp, now, r) && rep == kv_ok_reply(r)
            },
        }
    }
}

/// A time to live given in milliseconds, or in seconds (times 1000); `None`
/// when the milliseconds do not fit in an `i64`.
pub open spec fn expiry_ms(t: i64, millis: bool) -> Option<i64> {
    if millis {
        Some(t)
    } else if i64::MIN <= t * 1000 <= i64::MAX {
        Some((t * 1000) as i64)
    } else {
        None
    }
}

/// `expiry_ms` in executable form.
pub(crate) fn to_expiry_ms(t: i64, millis: bool) -> (r: Option<i64>)
    ensures
        r == expiry_ms(t, millis),
{
    if millis {
        Some(t)
    } else {
        t.checked_mul(1000)
    }
}

/// The step of INCR (1) or DECR (-1).
pub open spec fn unit_step(down: bool) -> i64 {
    if down { -1i64 } else { 1i64 }
}

/// The delta of an increment, negated for a decrement; `None` when the
/// negation does not fit in an `i64`.
pub open spec fn step_delta(d: i64, down: bool) -> Option<i64> {
    if !down {
        Some(d)
    } else if d == i64::MIN {
        None
    } else {
        Some((-d) as i64)
    }
}

/// SETEX key seconds value (PSETEX with milliseconds when `millis`).
pub open spec fn setex_cmd(old: StoreView, new: StoreView, cmd: Seq<char>, ps: Seq<Seq<char>>, millis: bool, now: int, rep: Seq<char>) -> bool {
    if ps.len() != 4 {
        rep == wrong_args(cmd) && new == old
    } else {
        match parse_i64_spec(ps[2]) {
            None => rep == error_reply(KvError::NotInteger) && new == old,
            Some(t) => match expiry_ms(t, millis) {
                None => rep == error_reply(KvError::InvalidExpiry) && new == old,
                Some(ms) => exists|r: KvResult<()>|
                    #[trigger] set_post(old, new, ps[1], ps[3], Some(ms), now, r) && rep == kv_ok_reply(r),
            },
        }
    }
}

/// SETNX key value: 1 when stored, 0 when the key was live.
pub open spec fn setnx_cmd(old: StoreView, new: StoreView, cmd: Seq<char>, ps: Seq<Seq<char>>, now: int, rep: Seq<char>) -> bool {
    if ps.len() != 3 {
        rep == wrong_args(cmd) && new == old
    } else {
        exists|b: bool| #[trigger] setnx_post(old, new, ps[1], ps[2], now, b) && rep == int_reply(if b { 1 } else { 0 })
    }
}

/// GET key.
pub open spec fn get_cmd(old: StoreView, new: StoreView, cmd: Seq<char>, ps: Seq<Seq<char>>, now: int, rep: Seq<char>) -> bool {
    if ps.len() != 2 {
        rep == wrong_args(cmd) && new == old
    } else {
        exists|r: KvResult<Option<String>>| #[trigger] get_post(old, new, ps[1], now, r) && rep == kv_opt_reply(r)
    }
}

/// GETSET key value.
pub open spec fn getset_cmd(old: StoreView, new: StoreView, cmd: Seq<char>, ps: Seq<Seq<char>>, now: int, rep: Seq<char>) -> bool {
    if ps.len() != 3 {
        rep == wrong_args(cmd) && new == old
    } else {
        exists|r: KvResult<Option<String>>| #[trigger] getset_post(old, new, ps[1], ps[2], now, r) && rep == kv_opt_reply(r)
    }
}

/// The consecutive pairs of `s`: `(s[0], s[1])`, `(s[2], s[3])`, ...
pub open spec fn arg_pairs(s: Seq<Seq<char>>) -> Seq<(Seq<char>, Seq<char>)> {
    Seq::new(s.len() / 2, |i: int| (s[2 * i], s[2 * i + 1]))
}

/// MSET key value [key value ...].
pub open spec fn mset_cmd(old: StoreView, new: StoreView, ps: Seq<Seq<char>>, now: int, rep: Seq<char>) -> bool {
    if ps.len() < 3 || ps.len() % 2 == 0 {
        rep == err_reply("wrong number of arguments for 'mset' command"@) && new == old
    } else {
        mset_post(old, new, arg_pairs(ps.skip(1)), now) && rep == ok_reply()
    }
}

/// MGET key [key ...].
pub open spec fn mget_cmd(old: StoreView, new: StoreView, cmd: Seq<char>, ps: Seq<Seq<char>>, now: int, rep: Seq<char>) -> bool {
    if ps.len() < 2 {
        rep == wrong_args(cmd) && new == old
    } else {
        exists|out: Seq<Option<Seq<char>>>| #[trigger] mget_post(old, new, ps.skip(1), now, out) && rep == opt_array_reply(out)
    }
}

/// INCR key (DECR when `down`).
pub open spec fn incr_cmd(old: StoreView, new: StoreView, cmd: Seq<char>, ps: Seq<Seq<char>>, down: bool, now: int, rep: Seq<char>) -> bool {
    if ps.len() != 2 {
        rep == wrong_args(cmd) && new == old
    } else {
        exists|r: KvResult<i64>| #[trigger] incr_by_post(old, new, ps[1], unit_step(down), now, r)
            && rep == kv_int_reply(r)
    }
}

/// INCRBY key delta (DECRBY when `down`: the delta is negated, and a delta
/// whose negation does not fit is refused as an overflow).
pub open spec fn incrby_cmd(old: StoreView, new: StoreView, cmd: Seq<char>, ps: Seq<Seq<char>>, down: bool, now: int, rep: Seq<char>) -> bool {
    if ps.len() != 3 {
        rep == wrong_args(cmd) && new == old
    } else {
        match parse_i64_spec(ps[2]) {
            None => rep == error_reply(KvError::NotInteger) && new == old,
            Some(d) => match step_delta(d, down) {
                None => rep == error_reply(KvError::Overflow) && new == old,
                Some(delta) => exists|r: KvResult<i64>|
                    #[trigger] incr_by_post(old, new, ps[1], delta, now, r) && rep == kv_int_reply(r),
            },
        }
    }
}

/// APPEND key suffix: the new length.
pub open spec fn append_cmd(old: StoreView, new: StoreView, cmd: Seq<char>, ps: Seq<Seq<char>>, now: int, rep: Seq<char>) -> bool {
    if ps.len() != 3 {
        rep == wrong_args(cmd) && new == old
    } else {
        exists|r: KvResult<usize>| #[trigger] append_post(old, new, ps[1], ps[2], now, r) && rep == kv_count_reply(r)
    }
}

impl KvStore {
    /// Runs SET.
    pub fn cmd_set(&mut self, cmd: &str, parts: &[String], now: i64) -> (rep: String)
        requires
            old(self).wf(),
            now >= 0,
        ensures
            final(self).wf(),
            set_cmd(old(self)@, final(self)@, cmd@, string_seq(parts@), now as int, rep@),
    {
        let ghost ps = string_seq(parts@);
        if parts.len() < 3 {
            return wrong_args_reply(cmd);
        }
        proof {
            assert forall|j: int| 0 <= j < parts@.len() implies #[trigger] string_seq(parts@)[j] == parts@[j]@ by {}
        }
        let mut expire: Option<i64> = None;
        let mut nx = false;
        let mut i: usize = 3;
        while i < parts.len()
            invariant
                3 <= i,
                ps == string_seq(parts@),
                self.wf(),
                self@ == old(self)@,
                set_options(ps, 3, None, false) == set_options(ps, i as int, expire, nx),
            decreases parts@.len() - i,
        {
            let w = to_uppercase(parts[i].as_str());
            let is_ex = str_eq(w.as_str(), "EX");
            if is_ex || str_eq(w.as_str(), "PX") {
                if i + 1 >= parts.len() {
                    return KvError::SyntaxError.to_resp();
                }
                assert(parts@[i + 1]@ == ps[i + 1]);
                match parse_i64(parts[i + 1].as_str()) {
                    None => {
                        return KvError::NotInteger.to_resp();
                    },
                    Some(v) => {
                        match to_expiry_ms(v, !is_ex) {
                            None => {
                                return KvError::InvalidExpiry.to_resp();
                            },
                            Some(ms) => {
                                expire = Some(ms);
                            },
                        }
                        i = i + 2;
                    },
                }
            } else if str_eq(w.as_str(), "NX") {
                nx = true;
                i = i + 1;
            } else {
                return KvError::SyntaxError.to_resp();
            }
        }
        let key = parts[1].clone();
        let val = parts[2].clone();
        proof {
            assert(ps[1] == parts@[1]@ && ps[2] == parts@[2]@);
        }
        if nx {
            let b = self.setnx_at(key, val, now);
            assert(setnx_post(old(self)@, self@, ps[1], ps[2], now as int, b));
            if b {
                ok_string()
            } else {
                resp_nil().to_owned()
            }
        } else {
            let r = self.set_at(key, val, expire, now);
            assert(set_post(old(self)@, self@, ps[1], ps[2], expire, now as int, r));
            kv_ok(r)
        }
    }

    /// Runs SETEX, or PSETEX when `millis`.
    pub fn cmd_setex(&mut self, cmd: &str, parts: &[String], millis: bool, now: i64) -> (rep: String)
        requires
            old(self).wf(),
            now >= 0,
        ensures
            final(self).wf(),
            setex_cmd(old(self)@, final(self)@, cmd@, string_seq(parts@), millis, now as int, rep@),
    {
        if parts.len() != 4 {
            return wrong_args_reply(cmd);
        }
        proof {
            assert forall|j: int| 0 <= j < parts@.len() implies #[trigger] string_seq(parts@)[j] == parts@[j]@ by {}
        }
        match parse_i64(parts[2].as_str()) {
            None => KvError::NotInteger.to_resp(),
            Some(t) => match to_expiry_ms(t, millis) {
                None => KvError::InvalidExpiry.to_resp(),
                Some(ms) => {
                    let r = self.set_at(parts[1].clone(), parts[3].clone(), Some(ms), now);
                    assert(set_post(old(self)@, self@, string_seq(parts@)[1], string_seq(parts@)[3], Some(ms), now as int, r));
                    kv_ok(r)
                },
            },
        }
    }

    /// Runs SETNX.
    pub fn cmd_setnx(&mut self, cmd: &str, parts: &[String], now: i64) -> (rep: String)
        requires
            old(self).wf(),
        ensures
            final(self).wf(),
            setnx_cmd(old(self)@, final(self)@, cmd@, string_seq(parts@), now as int, rep@),
    {
        if parts.len() != 3 {
            return wrong_args_reply(cmd);
        }
        proof {
            assert forall|j: int| 0 <= j < parts@.len() implies #[trigger] string_seq(parts@)[j] == parts@[j]@ by {}
        }
        let ok = self.setnx_at(parts[1].clone(), parts[2].clone(), now);
        assert(setnx_post(old(self)@, self@, string_seq(parts@)[1], string_seq(parts@)[2], now as int, ok));
        resp_int(if ok {
            1
        } else {
            0
        })
    }

    /// Runs GET.
    pub fn cmd_get(&mut self, cmd: &str, parts: &[String], now: i64) -> (rep: String)
        requires
            old(self).wf(),
        ensures
            final(self).wf(),
            get_cmd(old(self)@, final(self)@, cmd@, string_seq(parts@), now as int, rep@),
    {
        if parts.len() != 2 {
            return wrong_args_reply(cmd);
        }
        proof {
            assert forall|j: int| 0 <= j < parts@.len() implies #[trigger] string_seq(parts@)[j] == parts@[j]@ by {}
        }
        let r = self.get_at(parts[1].as_str(), now);
        assert(get_post(old(self)@, self@, string_seq(parts@)[1], now as int, r));
        let rep = kv_opt(r);
        assert(rep@ == kv_opt_reply(r));
        rep
    }

    /// Runs GETSET.
    pub fn cmd_getset(&mut self, cmd: &str, parts: &[String], now: i64) -> (rep: String)
        requires
            old(self).wf(),
        ensures
            final(self).wf(),
            getset_cmd(old(self)@, final(self)@, cmd@, string_seq(parts@), now as int, rep@),
    {
        if parts.len() != 3 {
            return wrong_args_reply(cmd);
        }
        proof {
            assert forall|j: int| 0 <= j < parts@.len() implies #[trigger] string_seq(parts@)[j] == parts@[j]@ by {}
        }
        let r = self.getset_at(parts[1].clone(), parts[2].clone(), now);
        assert(getset_post(old(self)@, self@, string_seq(parts@)[1], string_seq(parts@)[2], now as int, r));
        kv_opt(r)
    }

    /// Runs MSET.
    pub fn cmd_mset(&mut self, parts: &[String], now: i64) -> (rep: String)
        requires
            old(self).wf(),
            now >= 0,
        ensures
            final(self).wf(),
            mset_cmd(old(self)@, final(self)@, string_seq(parts@), now as int, rep@),
    {
        let ghost ps = string_seq(parts@);
        if parts.len() < 3 || parts.len() % 2 == 0 {
            return resp_err("wrong number of arguments for 'mset' command");
        }
        let ghost want = arg_pairs(ps.skip(1));
        let mut pairs: Vec<(String, String)> = Vec::new();
        let mut i: usize = 1;
        while i < parts.len() - 1
            invariant
                ps == string_seq(parts@),
                want == arg_pairs(ps.skip(1)),
                parts@.len() % 2 == 1,
                1 <= i <= parts@.len(),
                i % 2 == 1,
                pairs@.len() == (i - 1) / 2,
                forall|j: int| 0 <= j < pairs@.len() ==> (#[trigger] string_pairs(pairs@)[j]) == want[j],
            decreases parts@.len() - i,
        {
            let ghost pre = pairs@;
            pairs.push((parts[i].clone(), parts[i + 1].clone()));
            proof {
                let j = pre.len() as int;
                assert(2 * j + 1 == i);
                assert(ps.skip(1)[2 * j] == ps[i as int]);
                assert(ps.skip(1)[2 * j + 1] == ps[i + 1]);
                assert forall|q: int| 0 <= q < pairs@.len() implies (#[trigger] string_pairs(pairs@)[q]) == want[q] by {
                    if q < j {
                        assert(pairs@[q] == pre[q]);
                        assert(string_pairs(pre)[q] == want[q]);
                    }
                }
            }
            i = i + 2;
        }
        assert(string_pairs(pairs@) =~= want);
        self.mset_at(pairs, now);
        ok_string()
    }

    /// Runs MGET.
    pub fn cmd_mget(&mut self, cmd: &str, parts: &[String], now: i64) -> (rep: String)
        requires
            old(self).wf(),
        ensures
            final(self).wf(),
            mget_cmd(old(self)@, final(self)@, cmd@, string_seq(parts@), now as int, rep@),
    {
        if parts.len() < 2 {
            return wrong_args_reply(cmd);
        }
        proof {
            assert forall|j: int| 0 <= j < parts@.len() implies #[trigger] string_seq(parts@)[j] == parts@[j]@ by {}
        }
        let keys = vstd::slice::slice_subrange(parts, 1, parts.len());
        assert(string_seq(keys@) =~= string_seq(parts@).skip(1));
        let vals = self.mget_at(keys, now);
        resp_opt_array(&vals)
    }

    /// Runs INCR, or DECR when `down`.
    pub fn cmd_incr(&mut self, cmd: &str, parts: &[String], down: bool, now: i64) -> (rep: String)
        requires
            old(self).wf(),
        ensures
            final(self).wf(),
            incr_cmd(old(self)@, final(self)@, cmd@, string_seq(parts@), down, now as int, rep@),
    {
        if parts.len() != 2 {
            return wrong_args_reply(cmd);
        }
        proof {
            assert forall|j: int| 0 <= j < parts@.len() implies #[trigger] string_seq(parts@)[j] == parts@[j]@ by {}
        }
        let r = self.incr_by_at(parts[1].as_str(), if down {
            -1
        } else {
            1
        }, now);
        assert(incr_by_post(old(self)@, self@, string_seq(parts@)[1], unit_step(down), now as int, r));
        kv_int(r)
    }

    /// Runs INCRBY, or DECRBY when `down`.
    pub fn cmd_incrby(&mut self, cmd: &str, parts: &[String], down: bool, now: i64) -> (rep: String)
        requires
            old(self).wf(),
        ensures
            final(self).wf(),
            incrby_cmd(old(self)@, final(self)@, cmd@, string_seq(parts@), down, now as int, rep@),
    {
        if parts.len() != 3 {
            return wrong_args_reply(cmd);
        }
        proof {
            assert forall|j: int| 0 <= j < parts@.len() implies #[trigger] string_seq(parts@)[j] == parts@[j]@ by {}
        }
        match parse_i64(parts[2].as_str()) {
            None => KvError::NotInteger.to_resp(),
            Some(d) => {
                if down && d == i64::MIN {
                    return KvError::Overflow.to_resp();
                }
                let delta = if down {
                    -d
                } else {
                    d
                };
                assert(step_delta(d, down) == Some(delta));
                let r = self.incr_by_at(parts[1].as_str(), delta, now);
                assert(incr_by_post(old(self)@, self@, string_seq(parts@)[1], step_delta(d, down)->0, now as int, r));
                kv_int(r)
            },
        }
    }

    /// Runs APPEND.
    pub fn cmd_append(&mut self, cmd: &str, parts: &[String], now: i64) -> (rep: String)
        requires
            old(self).wf(),
        ensures
            final(self).wf(),
            append_cmd(old(self)@, final(self)@, cmd@, string_seq(parts@), now as int, rep@),
    {
        if parts.len() != 3 {
            return wrong_args_reply(cmd);
        }
        proof {
            assert forall|j: int| 0 <= j < parts@.len() implies #[trigger] string_seq(parts@)[j] == parts@[j]@ by {}
        }
        let r = self.append_at(parts[1].clone(), parts[2].clone(), now);
        assert(append_post(old(self)@, self@, string_seq(parts@)[1], string_seq(parts@)[2], now as int, r));
        kv_count(r)
    }
}

} // verus!
