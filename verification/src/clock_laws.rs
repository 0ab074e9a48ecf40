//! Properties of the operations that read the clock, over two calls on the
//! same store: the second never runs before the first, and a key written
//! with a time to live is seen by the second exactly while its deadline has
//! not passed at the second's time.
use vstd::prelude::*;
use crate::commands::command_post;
use crate::entry::{EntryView, expired_at};
use crate::glob::lemma_star_matches_all;
use crate::laws::{law_purge_keeps_live, law_set_then_get, law_set_then_read};
use crate::resp::{bulk_reply, nil_reply, ok_reply};
use crate::snapshot::is_snapshot;
use crate::store::{KvStore, entry_of, live_entry, matching_keys, purged_all};
use crate::strings::{get_post, set_post, string_entry};
use crate::text::{parse_i64_spec, upper_case};

verus! {

/// The entry that `set` leaves for a string with a time to live of `d`
/// milliseconds, stored at time `t`.
pub open spec fn timed_string(v: Seq<char>, d: i64, t: i64) -> EntryView {
    string_entry(v, Some((t + d) as i64), t as int)
}

/// The names used by the command laws differ from each other and from the
/// sorted-set commands that carry score text.
proof fn lemma_command_names()
    ensures
        "SET"@ != "GET"@,
        "GET"@ != "SETEX"@ && "GET"@ != "PSETEX"@ && "GET"@ != "SETNX"@,
        "PX"@ != "EX"@,
        "SET"@[0] == 'S' && "GET"@[0] == 'G',
        "ZADD"@[0] == 'Z' && "ZSCORE"@[0] == 'Z' && "ZINCRBY"@[0] == 'Z' && "ZRANGE"@[0] == 'Z',
        "ZREVRANGE"@[0] == 'Z' && "ZRANGEBYSCORE"@[0] == 'Z' && "ZREVRANGEBYSCORE"@[0] == 'Z',
        "ZCOUNT"@[0] == 'Z' && "ZPOPMIN"@[0] == 'Z' && "ZPOPMAX"@[0] == 'Z' && "ZSCAN"@[0] == 'Z',
{
    reveal_strlit("SET");
    reveal_strlit("GET");
    reveal_strlit("SETEX");
    reveal_strlit("PSETEX");
    reveal_strlit("SETNX");
    reveal_strlit("PX");
    reveal_strlit("EX");
    reveal_strlit("ZADD");
    reveal_strlit("ZSCORE");
    reveal_strlit("ZINCRBY");
    reveal_strlit("ZRANGE");
    reveal_strlit("ZREVRANGE");
    reveal_strlit("ZRANGEBYSCORE");
    reveal_strlit("ZREVRANGEBYSCORE");
    reveal_strlit("ZCOUNT");
    reveal_strlit("ZPOPMIN");
    reveal_strlit("ZPOPMAX");
    reveal_strlit("ZSCAN");
    assert("SET"@[0] != "GET"@[0]);
    assert("GET"@[0] != "SETEX"@[0] && "GET"@[0] != "PSETEX"@[0] && "GET"@[0] != "SETNX"@[0]);
    assert("PX"@[0] != "EX"@[0]);
}

/// SET with a time to live in milliseconds, then GET, both through
/// `execute_command` on the same store: the GET runs no earlier than the
/// SET, and answers the value while less than the time to live has passed
/// between the two commands' times, nil from then on.
pub proof fn law_command_set_px_then_get(
    s0: KvStore,
    s1: KvStore,
    s2: KvStore,
    set_ps: Seq<Seq<char>>,
    get_ps: Seq<Seq<char>>,
    d: i64,
    rep1: Option<Seq<char>>,
    rep2: Option<Seq<char>>,
)
    requires
        s0.wf(),
        set_ps.len() == 5,
        upper_case(set_ps[3]) == "PX"@,
        parse_i64_spec(set_ps[4]) == Some(d),
        d > 0,
        s1.clock() >= s0.clock(),
        s1.clock() + d <= i64::MAX,
        command_post(s0@, s1@, "SET"@, set_ps, s1.clock() as int, rep1),
        get_ps.len() == 2,
        get_ps[1] == set_ps[1],
        s2.clock() >= s1.clock(),
        command_post(s1@, s2@, "GET"@, get_ps, s2.clock() as int, rep2),
    ensures
        rep1 == Some(ok_reply()),
        rep2 == Some(if s2.clock() < s1.clock() + d { bulk_reply(set_ps[2]) } else { nil_reply() }),
{
    lemma_command_names();
    s0.lemma_well_placed();
    s0.lemma_clock();
    let t1 = s1.clock() as int;
    let t2 = s2.clock() as int;
    let k = set_ps[1];
    assert(!crate::commands::score_command("SET"@));
    assert(!crate::commands::score_command("GET"@));
    assert(crate::commands::is_string_command("SET"@));
    assert(crate::commands::is_string_command("GET"@));
    assert(crate::cmd_strings::set_options(set_ps, 5, Some(d), false) == Ok::<(Option<i64>, bool), crate::error::KvError>((Some(d), false)));
    assert(crate::cmd_strings::expiry_ms(d, "PX"@ != "EX"@) == Some(d));
    assert(crate::cmd_strings::set_options(set_ps, 3, None, false) == Ok::<(Option<i64>, bool), crate::error::KvError>((Some(d), false)));
    let r1 = choose|r: crate::error::KvResult<()>| #[trigger] set_post(s0@, s1@, k, set_ps[2], Some(d), t1, r)
        && rep1 == Some(crate::resp::kv_ok_reply(r));
    assert(r1 == Ok::<(), crate::error::KvError>(()));
    let r2 = choose|r: crate::error::KvResult<Option<String>>| #[trigger] get_post(s1@, s2@, k, t2, r)
        && rep2 == Some(crate::resp::kv_opt_reply(r));
    law_set_then_get(s0@, s1@, s2@, k, set_ps[2], Some(d), t1, t2, r2);
}

/// `set` with a time to live of `d` milliseconds, then `get` of the same key
/// on the same store: the get runs no earlier than the set, and answers the
/// value exactly while less than `d` milliseconds separate their times.
pub proof fn law_set_then_get_in_time(
    s0: KvStore,
    s1: KvStore,
    s2: KvStore,
    k: Seq<char>,
    v: Seq<char>,
    d: i64,
    r: crate::error::KvResult<Option<String>>,
)
    requires
        s0.wf(),
        s1.clock() >= s0.clock(),
        set_post(s0@, s1@, k, v, Some(d), s1.clock() as int, Ok(())),
        s2.clock() >= s1.clock(),
        get_post(s1@, s2@, k, s2.clock() as int, r),
    ensures
        r is Ok,
        (r matches Ok(Some(x)) && x@ == v) <==> s2.clock() < s1.clock() + d,
{
    s0.lemma_well_placed();
    s0.lemma_clock();
    law_set_then_get(s0@, s1@, s2@, k, v, Some(d), s1.clock() as int, s2.clock() as int, r);
}

/// `set` with a time to live of `d` milliseconds, then `purge_expired` on
/// the same store: the sweep runs no earlier than the set, keeps the key
/// with its value and deadline while less than `d` milliseconds separate
/// their times, and drops it from then on.
pub proof fn law_set_then_purge(
    s0: KvStore,
    s1: KvStore,
    s2: KvStore,
    k: Seq<char>,
    v: Seq<char>,
    d: i64,
)
    requires
        s0.wf(),
        s1.clock() >= s0.clock(),
        set_post(s0@, s1@, k, v, Some(d), s1.clock() as int, Ok(())),
        s2.clock() >= s1.clock(),
        s2@ == purged_all(s1@, s2.clock() as int),
    ensures
        s2.clock() < s1.clock() + d ==> live_entry(s2@, k, s2.clock() as int) == Some(timed_string(v, d, s1.clock())),
        s2.clock() >= s1.clock() + d ==> entry_of(s2@, k).is_none(),
{
    s0.lemma_well_placed();
    s0.lemma_clock();
    let t1 = s1.clock() as int;
    let t2 = s2.clock() as int;
    law_set_then_read(s0@, s1@, k, v, Some(d), t1, t2);
    assert(s1@.shards.len() == crate::store::NUM_SHARDS);
    law_purge_keeps_live(s1@, k, t2);
    if t2 >= t1 + d {
        if entry_of(s2@, k).is_some() {
            let e = entry_of(s2@, k)->0;
            assert(!expired_at(e, t2));
            assert(live_entry(s2@, k, t2) == Some(e));
        }
    }
}

/// `set` with a time to live of `d` milliseconds, then `snapshot` of the
/// same store at some time `t` (which is no earlier than the set): the
/// snapshot holds the key, with its value and deadline, exactly when less
/// than `d` milliseconds separate the two times.
pub proof fn law_set_then_snapshot(
    s0: KvStore,
    s1: KvStore,
    k: Seq<char>,
    v: Seq<char>,
    d: i64,
    es: Seq<(String, crate::entry::Entry)>,
    t: i64,
)
    requires
        s0.wf(),
        s1.clock() >= s0.clock(),
        set_post(s0@, s1@, k, v, Some(d), s1.clock() as int, Ok(())),
        t >= s1.clock(),
        is_snapshot(s1@, t as int, es),
    ensures
        (exists|j: int| 0 <= j < es.len() && es[j].0@ == k && es[j].1@ == timed_string(v, d, s1.clock()))
            <==> t < s1.clock() + d,
{
    s0.lemma_well_placed();
    s0.lemma_clock();
    let t1 = s1.clock() as int;
    law_set_then_read(s0@, s1@, k, v, Some(d), t1, t as int);
    if t < t1 + d {
        assert(live_entry(s1@, k, t as int).is_some());
        let j = choose|j: int| 0 <= j < es.len() && es[j].0@ == k;
        assert(live_entry(s1@, es[j].0@, t as int) == Some(es[j].1@));
    } else {
        if exists|j: int| 0 <= j < es.len() && es[j].0@ == k && es[j].1@ == timed_string(v, d, s1.clock()) {
            let j = choose|j: int| 0 <= j < es.len() && es[j].0@ == k && es[j].1@ == timed_string(v, d, s1.clock());
            assert(live_entry(s1@, es[j].0@, t as int) == Some(es[j].1@));
        }
    }
}

/// `set` with a time to live of `d` milliseconds, then `keys("*")` on the
/// same store at some time `t` (which is no earlier than the set): the key is
/// listed exactly when less than `d` milliseconds separate the two times.
pub proof fn law_set_then_keys(
    s0: KvStore,
    s1: KvStore,
    k: Seq<char>,
    v: Seq<char>,
    d: i64,
    listed: Seq<Seq<char>>,
    t: i64,
)
    requires
        s0.wf(),
        s1.clock() >= s0.clock(),
        set_post(s0@, s1@, k, v, Some(d), s1.clock() as int, Ok(())),
        t >= s1.clock(),
        listed.to_set() == matching_keys(s1@, "*"@, t as int),
    ensures
        listed.contains(k) <==> t < s1.clock() + d,
{
    s0.lemma_well_placed();
    s0.lemma_clock();
    law_set_then_read(s0@, s1@, k, v, Some(d), s1.clock() as int, t as int);
    reveal_strlit("*");
    assert("*"@ =~= seq!['*']);
    lemma_star_matches_all(k);
    assert(listed.contains(k) <==> listed.to_set().contains(k));
}

} // verus!
