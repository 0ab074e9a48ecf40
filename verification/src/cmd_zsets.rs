//! The sorted-set commands that carry scores as text: ZADD, ZSCORE, ZINCRBY,
//! ZRANGE, ZREVRANGE, ZRANGEBYSCORE, ZREVRANGEBYSCORE, ZCOUNT, ZPOPMIN,
//! ZPOPMAX and ZSCAN.
//!
//! Score text is read and written by the caller: it hands in, for each word
//! of the command, the score that the word writes (as `f64` bits) or `None`,
//! and it turns the scores of the answer back into text. Everything else
//! (the argument checks, the error chosen, the store operation, and what is
//! answered) is decided here.
use vstd::prelude::*;
use crate::commands::{unknown_command, unknown_reply};
use crate::error::{KvError, KvResult, error_reply};
use crate::resp::{err_reply, kv_int, kv_int_reply, resp_err, wrong_args, wrong_args_reply};
use crate::seqs::string_seq;
use crate::store::{KvStore, StoreView};
use crate::text::{parse_i64, parse_i64_spec, str_eq, to_uppercase, upper_case};
use crate::zorder::{is_nan, is_nan_bits, pairs_view};
use crate::zsets::{score_pairs, zadd_post, zcount_reply, zpop_post, zrange_reply, zrangebyscore_reply, zscore_reply};

verus! {

/// What is left to do for a sorted-set command once the store has run it.
pub enum ScoreStep {
    /// Send this reply.
    Reply(String),
    /// Send the members, in this order, as an array, each followed by its
    /// score's text when the flag `with_scores` is set.
    Listing(Vec<(String, u64)>, bool),
    /// Send the score's text as a bulk string, or nil.
    Score(Option<u64>),
    /// Send the popped member and its score's text as an array, or an empty
    /// array.
    Popped(Option<(String, u64)>),
    /// Add the increment (the last field) to the member's score (the third
    /// field; 0 when absent), store the sum under the member (the second
    /// field) of the key (the first), and send the sum's text.
    Incr(String, String, Option<u64>, u64),
    /// Send the scan reply: the cursor 0, then the members each followed by
    /// its score's text.
    Scan(Vec<(String, u64)>),
}

/// The model of a `ScoreStep`.
pub enum ScoreStepView {
    Reply(Seq<char>),
    Listing(Seq<(Seq<char>, u64)>, bool),
    Score(Option<u64>),
    Popped(Option<(Seq<char>, u64)>),
    Incr(Seq<char>, Seq<char>, Option<u64>, u64),
    Scan(Seq<(Seq<char>, u64)>),
}

/// The model of an optional member and score.
pub open spec fn popped_view(p: Option<(String, u64)>) -> Option<(Seq<char>, u64)> {
    match p {
        Some(q) => Some((q.0@, q.1)),
        None => None,
    }
}

impl View for ScoreStep {
    type V = ScoreStepView;

    open spec fn view(&self) -> ScoreStepView {
        match self {
            ScoreStep::Reply(r) => ScoreStepView::Reply(r@),
            ScoreStep::Listing(v, w) => ScoreStepView::Listing(pairs_view(v@), *w),
            ScoreStep::Score(s) => ScoreStepView::Score(*s),
            ScoreStep::Popped(p) => ScoreStepView::Popped(popped_view(*p)),
            ScoreStep::Incr(k, m, c, d) => ScoreStepView::Incr(k@, m@, *c, *d),
            ScoreStep::Scan(v) => ScoreStepView::Scan(pairs_view(v@)),
        }
    }
}

/// The score of an optional score, 0 bits when there is none.
pub open spec fn score_of(o: Option<u64>) -> u64 {
    match o {
        Some(b) => b,
        None => 0,
    }
}

/// A word that writes a score, and not NaN.
pub open spec fn valid_score(o: Option<u64>) -> bool {
    o matches Some(b) && !is_nan_bits(b)
}

/// The score and member pairs of ZADD's words.
pub open spec fn zadd_pairs(ps: Seq<Seq<char>>, sc: Seq<Option<u64>>) -> Seq<(u64, Seq<char>)> {
    Seq::new(((ps.len() - 2) / 2) as nat, |k: int| (score_of(sc[2 + 2 * k]), ps[3 + 2 * k]))
}

/// Whether each score word of ZADD writes a score that is not NaN.
pub open spec fn zadd_scores_ok(ps: Seq<Seq<char>>, sc: Seq<Option<u64>>) -> bool {
    forall|k: int| 0 <= k < (ps.len() - 2) / 2 ==> valid_score(#[trigger] sc[2 + 2 * k])
}

/// ZADD key score member [score member ...].
pub open spec fn zadd_cmd(
    old: StoreView,
    new: StoreView,
    cmd: Seq<char>,
    ps: Seq<Seq<char>>,
    sc: Seq<Option<u64>>,
    now: int,
    step: ScoreStepView,
) -> bool {
    if ps.len() < 4 || (ps.len() - 2) % 2 != 0 {
        step == ScoreStepView::Reply(wrong_args(cmd)) && new == old
    } else if !zadd_scores_ok(ps, sc) {
        step == ScoreStepView::Reply(err_reply("value is not a valid float"@)) && new == old
    } else {
        exists|r: KvResult<i64>| #[trigger] zadd_post(old, new, ps[1], zadd_pairs(ps, sc), now, r)
            && step == ScoreStepView::Reply(kv_int_reply(r))
    }
}

/// The step for a score read.
pub open spec fn score_step(r: KvResult<Option<u64>>) -> ScoreStepView {
    match r {
        Ok(o) => ScoreStepView::Score(o),
        Err(e) => ScoreStepView::Reply(error_reply(e)),
    }
}

/// ZSCORE key member.
pub open spec fn zscore_cmd(v: StoreView, cmd: Seq<char>, ps: Seq<Seq<char>>, now: int, step: ScoreStepView) -> bool {
    if ps.len() != 3 {
        step == ScoreStepView::Reply(wrong_args(cmd))
    } else {
        exists|r: KvResult<Option<u64>>| #[trigger] zscore_reply(v, ps[1], ps[2], now, r) && step == score_step(r)
    }
}

/// The step for ZINCRBY after reading the member's score.
pub open spec fn incr_step(k: Seq<char>, m: Seq<char>, delta: u64, r: KvResult<Option<u64>>) -> ScoreStepView {
    match r {
        Ok(o) => ScoreStepView::Incr(k, m, o, delta),
        Err(e) => ScoreStepView::Reply(error_reply(e)),
    }
}

/// ZINCRBY key increment member.
pub open spec fn zincrby_cmd(
    v: StoreView,
    cmd: Seq<char>,
    ps: Seq<Seq<char>>,
    sc: Seq<Option<u64>>,
    now: int,
    step: ScoreStepView,
) -> bool {
    if ps.len() != 4 {
        step == ScoreStepView::Reply(wrong_args(cmd))
    } else if sc[2] is None {
        step == ScoreStepView::Reply(err_reply("value is not a valid float"@))
    } else {
        exists|r: KvResult<Option<u64>>| #[trigger] zscore_reply(v, ps[1], ps[3], now, r)
            && step == incr_step(ps[1], ps[3], score_of(sc[2]), r)
    }
}

/// Whether the fifth word asks for the scores.
pub open spec fn with_scores(ps: Seq<Seq<char>>) -> bool {
    ps.len() > 4 && upper_case(ps[4]) == "WITHSCORES"@
}

/// The step for a listing, read backwards when `reverse`.
pub open spec fn listing_step(r: KvResult<Vec<(String, u64)>>, with: bool, reverse: bool) -> ScoreStepView {
    match r {
        Ok(out) => ScoreStepView::Listing(if reverse { pairs_view(out@).reverse() } else { pairs_view(out@) }, with),
        Err(e) => ScoreStepView::Reply(error_reply(e)),
    }
}

/// ZRANGE key start stop [WITHSCORES] (ZREVRANGE when `rev`).
pub open spec fn zrange_cmd(v: StoreView, cmd: Seq<char>, ps: Seq<Seq<char>>, rev: bool, now: int, step: ScoreStepView) -> bool {
    if ps.len() < 4 {
        step == ScoreStepView::Reply(wrong_args(cmd))
    } else if parse_i64_spec(ps[2]) is None || parse_i64_spec(ps[3]) is None {
        step == ScoreStepView::Reply(error_reply(KvError::NotInteger))
    } else {
        let start = parse_i64_spec(ps[2])->0;
        let stop = parse_i64_spec(ps[3])->0;
        exists|r: KvResult<Vec<(String, u64)>>| #[trigger] zrange_reply(v, ps[1], start as int, stop as int, rev, now, r)
            && step == listing_step(r, with_scores(ps), false)
    }
}

/// The lower bound of a score range: the word after the key, or the one
/// after that when `rev`.
pub open spec fn range_min(sc: Seq<Option<u64>>, rev: bool) -> u64 {
    if rev { score_of(sc[3]) } else { score_of(sc[2]) }
}

/// The upper bound of a score range.
pub open spec fn range_max(sc: Seq<Option<u64>>, rev: bool) -> u64 {
    if rev { score_of(sc[2]) } else { score_of(sc[3]) }
}

/// ZRANGEBYSCORE key min max [WITHSCORES]; ZREVRANGEBYSCORE key max min
/// [WITHSCORES] when `rev`, whose answer lists the same members from the
/// highest score down.
pub open spec fn zbyscore_cmd(
    v: StoreView,
    cmd: Seq<char>,
    ps: Seq<Seq<char>>,
    sc: Seq<Option<u64>>,
    rev: bool,
    now: int,
    step: ScoreStepView,
) -> bool {
    let first = if rev { "max is not a float"@ } else { "min is not a float"@ };
    let second = if rev { "min is not a float"@ } else { "max is not a float"@ };
    if ps.len() < 4 {
        step == ScoreStepView::Reply(wrong_args(cmd))
    } else if sc[2] is None {
        step == ScoreStepView::Reply(err_reply(first))
    } else if sc[3] is None {
        step == ScoreStepView::Reply(err_reply(second))
    } else {
        exists|r: KvResult<Vec<(String, u64)>>| #[trigger] zrangebyscore_reply(v, ps[1], range_min(sc, rev), range_max(sc, rev), now, r)
            && step == listing_step(r, with_scores(ps), rev)
    }
}

/// ZCOUNT key min max.
pub open spec fn zcount_cmd(v: StoreView, cmd: Seq<char>, ps: Seq<Seq<char>>, sc: Seq<Option<u64>>, now: int, step: ScoreStepView) -> bool {
    if ps.len() != 4 {
        step == ScoreStepView::Reply(wrong_args(cmd))
    } else if sc[2] is None {
        step == ScoreStepView::Reply(err_reply("min is not a float"@))
    } else if sc[3] is None {
        step == ScoreStepView::Reply(err_reply("max is not a float"@))
    } else {
        exists|r: KvResult<i64>| #[trigger] zcount_reply(v, ps[1], score_of(sc[2]), score_of(sc[3]), now, r)
            && step == ScoreStepView::Reply(kv_int_reply(r))
    }
}

/// The step for a pop.
pub open spec fn pop_step(r: KvResult<Option<(String, u64)>>) -> ScoreStepView {
    match r {
        Ok(p) => ScoreStepView::Popped(popped_view(p)),
        Err(e) => ScoreStepView::Reply(error_reply(e)),
    }
}

/// ZPOPMIN key (ZPOPMAX when `max`).
pub open spec fn zpop_cmd(old: StoreView, new: StoreView, cmd: Seq<char>, ps: Seq<Seq<char>>, max: bool, now: int, step: ScoreStepView) -> bool {
    if ps.len() != 2 {
        step == ScoreStepView::Reply(wrong_args(cmd)) && new == old
    } else {
        exists|r: KvResult<Option<(String, u64)>>| #[trigger] zpop_post(old, new, ps[1], max, now, r) && step == pop_step(r)
    }
}

/// ZSCAN key ...: every member with its score, in order; nothing when the
/// key holds another type.
pub open spec fn zscan_cmd(v: StoreView, cmd: Seq<char>, ps: Seq<Seq<char>>, now: int, step: ScoreStepView) -> bool {
    if ps.len() < 2 {
        step == ScoreStepView::Reply(wrong_args(cmd))
    } else {
        exists|r: KvResult<Vec<(String, u64)>>| #[trigger] zrange_reply(v, ps[1], 0, -1, false, now, r)
            && step == ScoreStepView::Scan(
                match r {
                    Ok(out) => pairs_view(out@),
                    Err(_) => Seq::empty(),
                },
            )
    }
}

/// What a sorted-set command with score text does, given the score that
/// each word writes (`sc`).
pub open spec fn score_cmd(
    old: StoreView,
    new: StoreView,
    cmd: Seq<char>,
    ps: Seq<Seq<char>>,
    sc: Seq<Option<u64>>,
    now: int,
    step: ScoreStepView,
) -> bool {
    if cmd == "ZADD"@ {
        zadd_cmd(old, new, cmd, ps, sc, now, step)
    } else if cmd == "ZPOPMIN"@ {
        zpop_cmd(old, new, cmd, ps, false, now, step)
    } else if cmd == "ZPOPMAX"@ {
        zpop_cmd(old, new, cmd, ps, true, now, step)
    } else {
        &&& new == old
        &&& if cmd == "ZSCORE"@ {
            zscore_cmd(old, cmd, ps, now, step)
        } else if cmd == "ZINCRBY"@ {
            zincrby_cmd(old, cmd, ps, sc, now, step)
        } else if cmd == "ZRANGE"@ {
            zrange_cmd(old, cmd, ps, false, now, step)
        } else if cmd == "ZREVRANGE"@ {
            zrange_cmd(old, cmd, ps, true, now, step)
        } else if cmd == "ZRANGEBYSCORE"@ {
            zbyscore_cmd(old, cmd, ps, sc, false, now, step)
        } else if cmd == "ZREVRANGEBYSCORE"@ {
            zbyscore_cmd(old, cmd, ps, sc, true, now, step)
        } else if cmd == "ZCOUNT"@ {
            zcount_cmd(old, cmd, ps, sc, now, step)
        } else if cmd == "ZSCAN"@ {
            zscan_cmd(old, cmd, ps, now, step)
        } else {
            step == ScoreStepView::Reply(unknown_reply(cmd, ps))
        }
    }
}

/// The pairs in reverse order.
fn reversed(v: Vec<(String, u64)>) -> (out: Vec<(String, u64)>)
    ensures
        pairs_view(out@) == pairs_view(v@).reverse(),
{
    let mut out: Vec<(String, u64)> = Vec::new();
    let mut v = v;
    let ghost v0 = pairs_view(v@);
    while v.len() > 0
        invariant
            pairs_view(out@) + pairs_view(v@).reverse() == v0.reverse(),
        decreases v@.len(),
    {
        let ghost pre_v = pairs_view(v@);
        let ghost pre_o = pairs_view(out@);
        let x = v.pop().unwrap();
        out.push(x);
        assert(pairs_view(v@) =~= pre_v.drop_last());
        assert(pairs_view(out@) =~= pre_o.push((x.0@, x.1)));
        assert(pre_v.reverse() =~= seq![(x.0@, x.1)] + pairs_view(v@).reverse());
        assert(pairs_view(out@) + pairs_view(v@).reverse() =~= pre_o + pre_v.reverse());
    }
    assert(pairs_view(v@).reverse() =~= Seq::<(Seq<char>, u64)>::empty());
    assert(pairs_view(out@) =~= v0.reverse());
    out
}

impl KvStore {
    fn cmd_zadd(&mut self, cmd: &str, parts: &[String], scores: &[Option<u64>], now: i64) -> (step: ScoreStep)
        requires
            old(self).wf(),
            scores@.len() == parts@.len(),
        ensures
            final(self).wf(),
            zadd_cmd(old(self)@, final(self)@, cmd@, string_seq(parts@), scores@, now as int, step@),
    {
        let ghost ps = string_seq(parts@);
        let ghost sc = scores@;
        let n = parts.len();
        if n < 4 || (n - 2) % 2 != 0 {
            return ScoreStep::Reply(wrong_args_reply(cmd));
        }
        let mut pairs: Vec<(u64, String)> = Vec::new();
        let mut i: usize = 2;
        while i + 1 < n
            invariant
                n == parts@.len(),
                n == sc.len(),
                sc == scores@,
                ps == string_seq(parts@),
                n >= 4,
                (n - 2) % 2 == 0,
                2 <= i <= n,
                (i - 2) % 2 == 0,
                pairs@.len() == (i - 2) / 2,
                score_pairs(pairs@) == zadd_pairs(ps, sc).take(pairs@.len() as int),
                forall|k: int| 0 <= k < (i - 2) / 2 ==> valid_score(#[trigger] sc[2 + 2 * k]),
                forall|j: int| 0 <= j < pairs@.len() ==> !is_nan_bits(#[trigger] pairs@[j].0),
                self.wf(),
                self@ == old(self)@,
            decreases n - i,
        {
            let ghost k = (i - 2) / 2;
            assert(2 + 2 * k == i);
            let ok = match scores[i] {
                Some(b) => !is_nan(b),
                None => false,
            };
            if !ok {
                assert(!valid_score(sc[2 + 2 * k]));
                return ScoreStep::Reply(resp_err("value is not a valid float"));
            }
            let b = match scores[i] {
                Some(b) => b,
                None => 0,
            };
            let ghost pre = pairs@;
            assert(ps[i + 1] == parts@[i + 1]@);
            pairs.push((b, parts[i + 1].clone()));
            assert(score_pairs(pairs@) =~= score_pairs(pre).push((b, ps[i + 1])));
            assert(zadd_pairs(ps, sc).take(pairs@.len() as int) =~= zadd_pairs(ps, sc).take(pre.len() as int).push(
                zadd_pairs(ps, sc)[k],
            ));
            i = i + 2;
        }
        assert(zadd_pairs(ps, sc).take(pairs@.len() as int) =~= zadd_pairs(ps, sc));
        assert(ps[1] == parts@[1]@);
        let r = self.zadd_at(parts[1].clone(), pairs.as_slice(), now);
        ScoreStep::Reply(kv_int(r))
    }

    fn cmd_zscore(&self, cmd: &str, parts: &[String], now: i64) -> (step: ScoreStep)
        requires
            self.wf(),
        ensures
            zscore_cmd(self@, cmd@, string_seq(parts@), now as int, step@),
    {
        let ghost ps = string_seq(parts@);
        if parts.len() != 3 {
            return ScoreStep::Reply(wrong_args_reply(cmd));
        }
        assert(ps[1] == parts@[1]@ && ps[2] == parts@[2]@);
        let r = self.zscore_at(parts[1].as_str(), parts[2].as_str(), now);
        match r {
            Ok(o) => ScoreStep::Score(o),
            Err(e) => ScoreStep::Reply(e.to_resp()),
        }
    }

    fn cmd_zincrby(&self, cmd: &str, parts: &[String], scores: &[Option<u64>], now: i64) -> (step: ScoreStep)
        requires
            self.wf(),
            scores@.len() == parts@.len(),
        ensures
            zincrby_cmd(self@, cmd@, string_seq(parts@), scores@, now as int, step@),
    {
        let ghost ps = string_seq(parts@);
        if parts.len() != 4 {
            return ScoreStep::Reply(wrong_args_reply(cmd));
        }
        let delta = match scores[2] {
            Some(d) => d,
            None => {
                return ScoreStep::Reply(resp_err("value is not a valid float"));
            },
        };
        assert(ps[1] == parts@[1]@ && ps[3] == parts@[3]@);
        let r = self.zscore_at(parts[1].as_str(), parts[3].as_str(), now);
        match r {
            Ok(o) => ScoreStep::Incr(parts[1].clone(), parts[3].clone(), o, delta),
            Err(e) => ScoreStep::Reply(e.to_resp()),
        }
    }

    /// Whether the fifth word is WITHSCORES, in any case.
    fn with_scores_word(parts: &[String]) -> (b: bool)
        ensures
            b == with_scores(string_seq(parts@)),
    {
        if parts.len() > 4 {
            assert(string_seq(parts@)[4] == parts@[4]@);
            let w = to_uppercase(parts[4].as_str());
            str_eq(w.as_str(), "WITHSCORES")
        } else {
            false
        }
    }

    fn cmd_zrange(&self, cmd: &str, parts: &[String], rev: bool, now: i64) -> (step: ScoreStep)
        requires
            self.wf(),
        ensures
            zrange_cmd(self@, cmd@, string_seq(parts@), rev, now as int, step@),
    {
        let ghost ps = string_seq(parts@);
        if parts.len() < 4 {
            return ScoreStep::Reply(wrong_args_reply(cmd));
        }
        assert(ps[1] == parts@[1]@ && ps[2] == parts@[2]@ && ps[3] == parts@[3]@);
        let start = match parse_i64(parts[2].as_str()) {
            Some(v) => v,
            None => {
                return ScoreStep::Reply(KvError::NotInteger.to_resp());
            },
        };
        let stop = match parse_i64(parts[3].as_str()) {
            Some(v) => v,
            None => {
                return ScoreStep::Reply(KvError::NotInteger.to_resp());
            },
        };
        let with = Self::with_scores_word(parts);
        let r = self.zrange_at(parts[1].as_str(), start, stop, rev, now);
        match r {
            Ok(out) => ScoreStep::Listing(out, with),
            Err(e) => ScoreStep::Reply(e.to_resp()),
        }
    }

    fn cmd_zbyscore(&self, cmd: &str, parts: &[String], scores: &[Option<u64>], rev: bool, now: i64) -> (step: ScoreStep)
        requires
            self.wf(),
            scores@.len() == parts@.len(),
        ensures
            zbyscore_cmd(self@, cmd@, string_seq(parts@), scores@, rev, now as int, step@),
    {
        let ghost ps = string_seq(parts@);
        if parts.len() < 4 {
            return ScoreStep::Reply(wrong_args_reply(cmd));
        }
        let a = match scores[2] {
            Some(v) => v,
            None => {
                return ScoreStep::Reply(resp_err(if rev { "max is not a float" } else { "min is not a float" }));
            },
        };
        let b = match scores[3] {
            Some(v) => v,
            None => {
                return ScoreStep::Reply(resp_err(if rev { "min is not a float" } else { "max is not a float" }));
            },
        };
        let (min, max) = if rev { (b, a) } else { (a, b) };
        let with = Self::with_scores_word(parts);
        assert(ps[1] == parts@[1]@);
        assert(score_of(scores@[2]) == a && score_of(scores@[3]) == b);
        assert(min == range_min(scores@, rev) && max == range_max(scores@, rev));
        let r = self.zrangebyscore_at(parts[1].as_str(), min, max, now);
        assert(zrangebyscore_reply(self@, ps[1], range_min(scores@, rev), range_max(scores@, rev), now as int, r));
        match r {
            Ok(out) => ScoreStep::Listing(if rev { reversed(out) } else { out }, with),
            Err(e) => ScoreStep::Reply(e.to_resp()),
        }
    }

    fn cmd_zcount(&self, cmd: &str, parts: &[String], scores: &[Option<u64>], now: i64) -> (step: ScoreStep)
        requires
            self.wf(),
            scores@.len() == parts@.len(),
        ensures
            zcount_cmd(self@, cmd@, string_seq(parts@), scores@, now as int, step@),
    {
        let ghost ps = string_seq(parts@);
        if parts.len() != 4 {
            return ScoreStep::Reply(wrong_args_reply(cmd));
        }
        let min = match scores[2] {
            Some(v) => v,
            None => {
                return ScoreStep::Reply(resp_err("min is not a float"));
            },
        };
        let max = match scores[3] {
            Some(v) => v,
            None => {
                return ScoreStep::Reply(resp_err("max is not a float"));
            },
        };
        assert(ps[1] == parts@[1]@);
        assert(score_of(scores@[2]) == min && score_of(scores@[3]) == max);
        let r = self.zcount_at(parts[1].as_str(), min, max, now);
        assert(zcount_reply(self@, ps[1], min, max, now as int, r));
        ScoreStep::Reply(kv_int(r))
    }

    fn cmd_zpop(&mut self, cmd: &str, parts: &[String], max: bool, now: i64) -> (step: ScoreStep)
        requires
            old(self).wf(),
        ensures
            final(self).wf(),
            zpop_cmd(old(self)@, final(self)@, cmd@, string_seq(parts@), max, now as int, step@),
    {
        let ghost ps = string_seq(parts@);
        if parts.len() != 2 {
            return ScoreStep::Reply(wrong_args_reply(cmd));
        }
        assert(ps[1] == parts@[1]@);
        let r = if max {
            self.zpopmax_at(parts[1].as_str(), now)
        } else {
            self.zpopmin_at(parts[1].as_str(), now)
        };
        match r {
            Ok(p) => ScoreStep::Popped(p),
            Err(e) => ScoreStep::Reply(e.to_resp()),
        }
    }

    fn cmd_zscan(&self, cmd: &str, parts: &[String], now: i64) -> (step: ScoreStep)
        requires
            self.wf(),
        ensures
            zscan_cmd(self@, cmd@, string_seq(parts@), now as int, step@),
    {
        let ghost ps = string_seq(parts@);
        if parts.len() < 2 {
            return ScoreStep::Reply(wrong_args_reply(cmd));
        }
        assert(ps[1] == parts@[1]@);
        let r = self.zrange_at(parts[1].as_str(), 0, -1, false, now);
        assert(zrange_reply(self@, ps[1], 0, -1, false, now as int, r));
        match r {
            Ok(out) => ScoreStep::Scan(out),
            Err(_) => {
                let none: Vec<(String, u64)> = Vec::new();
                assert(pairs_view(none@) =~= Seq::<(Seq<char>, u64)>::empty());
                ScoreStep::Scan(none)
            },
        }
    }

    /// Runs a sorted-set command that carries score text at `now`.
    /// `scores[i]` is the score that `parts[i]` writes, as `f64` bits, or
    /// `None` when it writes none.
    pub fn run_score_command_at(&mut self, cmd: &str, parts: &[String], scores: &[Option<u64>], now: i64) -> (step: ScoreStep)
        requires
            old(self).wf(),
            parts@.len() >= 1,
            scores@.len() == parts@.len(),
        ensures
            final(self).wf(),
            score_cmd(old(self)@, final(self)@, cmd@, string_seq(parts@), scores@, now as int, step@),
    {
        if str_eq(cmd, "ZADD") {
            self.cmd_zadd(cmd, parts, scores, now)
        } else if str_eq(cmd, "ZPOPMIN") {
            self.cmd_zpop(cmd, parts, false, now)
        } else if str_eq(cmd, "ZPOPMAX") {
            self.cmd_zpop(cmd, parts, true, now)
        } else if str_eq(cmd, "ZSCORE") {
            self.cmd_zscore(cmd, parts, now)
        } else if str_eq(cmd, "ZINCRBY") {
            self.cmd_zincrby(cmd, parts, scores, now)
        } else if str_eq(cmd, "ZRANGE") {
            self.cmd_zrange(cmd, parts, false, now)
        } else if str_eq(cmd, "ZREVRANGE") {
            self.cmd_zrange(cmd, parts, true, now)
        } else if str_eq(cmd, "ZRANGEBYSCORE") {
            self.cmd_zbyscore(cmd, parts, scores, false, now)
        } else if str_eq(cmd, "ZREVRANGEBYSCORE") {
            self.cmd_zbyscore(cmd, parts, scores, true, now)
        } else if str_eq(cmd, "ZCOUNT") {
            self.cmd_zcount(cmd, parts, scores, now)
        } else if str_eq(cmd, "ZSCAN") {
            self.cmd_zscan(cmd, parts, now)
        } else {
            ScoreStep::Reply(unknown_command(cmd, parts))
        }
    }

    /// Runs a sorted-set command that carries score text now; `scores` as
    /// for `run_score_command_at`.
    pub fn run_score_command(&mut self, cmd: &str, parts: &[String], scores: &[Option<u64>]) -> (step: ScoreStep)
        requires
            old(self).wf(),
            parts@.len() >= 1,
            scores@.len() == parts@.len(),
        ensures
            final(self).wf(),
            final(self).clock() >= old(self).clock(),
            score_cmd(old(self)@, final(self)@, cmd@, string_seq(parts@), scores@, final(self).clock() as int, step@),
    {
        let now = self.next_time();
        let r = self.run_score_command_at(cmd, parts, scores, now);
        self.set_clock(now);
        r
    }
}

} // verus!
