use kivo::cmd_zsets::ScoreStep;
use kivo::store::KvStore;

fn s(x: &str) -> String {
    x.to_string()
}

fn bits(x: f64) -> u64 {
    x.to_bits()
}

fn words(ws: &[&str]) -> Vec<String> {
    ws.iter().map(|w| w.to_string()).collect()
}

/// The score each word writes, as the server reads them.
fn scores_of(parts: &[String]) -> Vec<Option<u64>> {
    parts
        .iter()
        .map(|p| match p.as_str() {
            "+inf" | "inf" => Some(bits(f64::INFINITY)),
            "-inf" => Some(bits(f64::NEG_INFINITY)),
            _ => p.parse::<f64>().ok().map(bits),
        })
        .collect()
}

fn run(st: &mut KvStore, ws: &[&str]) -> ScoreStep {
    let parts = words(ws);
    let scores = scores_of(&parts);
    st.run_score_command_at(ws[0], &parts, &scores, 10)
}

fn reply(step: ScoreStep) -> String {
    match step {
        ScoreStep::Reply(r) => r,
        _ => panic!("expected a finished reply"),
    }
}

fn filled() -> KvStore {
    let mut st = KvStore::new(10_000);
    assert_eq!(reply(run(&mut st, &["ZADD", "z", "1", "a", "2", "b", "3", "c"])), ":3\r\n");
    st
}

#[test]
fn zadd_counts_new_members() {
    let mut st = filled();
    assert_eq!(reply(run(&mut st, &["ZADD", "z", "5", "a", "4", "d"])), ":1\r\n");
    assert_eq!(st.zscore_at("z", "a", 10), Ok(Some(bits(5.0))));
}

#[test]
fn zadd_argument_errors() {
    let mut st = KvStore::new(10_000);
    assert_eq!(reply(run(&mut st, &["ZADD", "z", "1"])), "-ERR wrong number of arguments for 'zadd' command\r\n");
    assert_eq!(reply(run(&mut st, &["ZADD", "z", "1", "a", "2"])), "-ERR wrong number of arguments for 'zadd' command\r\n");
    assert_eq!(reply(run(&mut st, &["ZADD", "z", "1", "a", "x", "b"])), "-ERR value is not a valid float\r\n");
    assert_eq!(reply(run(&mut st, &["ZADD", "z", "nan", "a"])), "-ERR value is not a valid float\r\n");
    // Nothing was stored on a refused ZADD.
    assert_eq!(st.zcard_at("z", 10), Ok(0));
}

#[test]
fn zadd_on_wrong_type() {
    let mut st = KvStore::new(10_000);
    st.set_at(s("str"), s("v"), None, 10).unwrap();
    assert_eq!(
        reply(run(&mut st, &["ZADD", "str", "1", "a"])),
        "-WRONGTYPE Operation against a key holding the wrong kind of value\r\n"
    );
}

#[test]
fn zscore_steps() {
    let mut st = filled();
    assert!(matches!(run(&mut st, &["ZSCORE", "z", "b"]), ScoreStep::Score(Some(b)) if b == bits(2.0)));
    assert!(matches!(run(&mut st, &["ZSCORE", "z", "zz"]), ScoreStep::Score(None)));
    assert!(matches!(run(&mut st, &["ZSCORE", "none", "a"]), ScoreStep::Score(None)));
    assert_eq!(reply(run(&mut st, &["ZSCORE", "z"])), "-ERR wrong number of arguments for 'zscore' command\r\n");
}

#[test]
fn zincrby_steps() {
    let mut st = filled();
    match run(&mut st, &["ZINCRBY", "z", "2.5", "a"]) {
        ScoreStep::Incr(k, m, cur, d) => {
            assert_eq!((k, m, cur, d), (s("z"), s("a"), Some(bits(1.0)), bits(2.5)));
        }
        _ => panic!("expected an increment"),
    }
    match run(&mut st, &["ZINCRBY", "z", "-1", "new"]) {
        ScoreStep::Incr(_, m, cur, d) => assert_eq!((m, cur, d), (s("new"), None, bits(-1.0))),
        _ => panic!("expected an increment"),
    }
    assert_eq!(reply(run(&mut st, &["ZINCRBY", "z", "x", "a"])), "-ERR value is not a valid float\r\n");
    assert_eq!(reply(run(&mut st, &["ZINCRBY", "z", "1"])), "-ERR wrong number of arguments for 'zincrby' command\r\n");
}

#[test]
fn zrange_steps() {
    let mut st = filled();
    match run(&mut st, &["ZRANGE", "z", "0", "-1", "withscores"]) {
        ScoreStep::Listing(v, with) => {
            assert_eq!(v, vec![(s("a"), bits(1.0)), (s("b"), bits(2.0)), (s("c"), bits(3.0))]);
            assert!(with);
        }
        _ => panic!("expected a listing"),
    }
    match run(&mut st, &["ZREVRANGE", "z", "0", "1"]) {
        ScoreStep::Listing(v, with) => {
            assert_eq!(v, vec![(s("c"), bits(3.0)), (s("b"), bits(2.0))]);
            assert!(!with);
        }
        _ => panic!("expected a listing"),
    }
    assert_eq!(reply(run(&mut st, &["ZRANGE", "z", "x", "1"])), "-ERR value is not an integer or out of range\r\n");
    assert_eq!(reply(run(&mut st, &["ZRANGE", "z", "0"])), "-ERR wrong number of arguments for 'zrange' command\r\n");
}

#[test]
fn zrangebyscore_steps() {
    let mut st = filled();
    match run(&mut st, &["ZRANGEBYSCORE", "z", "2", "+inf"]) {
        ScoreStep::Listing(v, with) => {
            assert_eq!(v, vec![(s("b"), bits(2.0)), (s("c"), bits(3.0))]);
            assert!(!with);
        }
        _ => panic!("expected a listing"),
    }
    // The reverse form names the maximum first and lists from the top.
    match run(&mut st, &["ZREVRANGEBYSCORE", "z", "2", "-inf", "WITHSCORES"]) {
        ScoreStep::Listing(v, with) => {
            assert_eq!(v, vec![(s("b"), bits(2.0)), (s("a"), bits(1.0))]);
            assert!(with);
        }
        _ => panic!("expected a listing"),
    }
    assert_eq!(reply(run(&mut st, &["ZRANGEBYSCORE", "z", "x", "1"])), "-ERR min is not a float\r\n");
    assert_eq!(reply(run(&mut st, &["ZRANGEBYSCORE", "z", "1", "x"])), "-ERR max is not a float\r\n");
    assert_eq!(reply(run(&mut st, &["ZREVRANGEBYSCORE", "z", "x", "1"])), "-ERR max is not a float\r\n");
    assert_eq!(reply(run(&mut st, &["ZREVRANGEBYSCORE", "z", "1", "x"])), "-ERR min is not a float\r\n");
}

#[test]
fn zcount_steps() {
    let mut st = filled();
    assert_eq!(reply(run(&mut st, &["ZCOUNT", "z", "1.5", "3"])), ":2\r\n");
    assert_eq!(reply(run(&mut st, &["ZCOUNT", "z", "-inf", "+inf"])), ":3\r\n");
    assert_eq!(reply(run(&mut st, &["ZCOUNT", "z", "nan", "3"])), ":0\r\n");
    assert_eq!(reply(run(&mut st, &["ZCOUNT", "z", "min", "3"])), "-ERR min is not a float\r\n");
}

#[test]
fn zpop_steps() {
    let mut st = filled();
    match run(&mut st, &["ZPOPMAX", "z"]) {
        ScoreStep::Popped(p) => assert_eq!(p, Some((s("c"), bits(3.0)))),
        _ => panic!("expected a pop"),
    }
    match run(&mut st, &["ZPOPMIN", "z"]) {
        ScoreStep::Popped(p) => assert_eq!(p, Some((s("a"), bits(1.0)))),
        _ => panic!("expected a pop"),
    }
    assert_eq!(st.zcard_at("z", 10), Ok(1));
    assert!(matches!(run(&mut st, &["ZPOPMIN", "none"]), ScoreStep::Popped(None)));
}

#[test]
fn zscan_steps() {
    let mut st = filled();
    st.set_at(s("str"), s("v"), None, 10).unwrap();
    match run(&mut st, &["ZSCAN", "z", "0"]) {
        ScoreStep::Scan(v) => assert_eq!(v.len(), 3),
        _ => panic!("expected a scan"),
    }
    match run(&mut st, &["ZSCAN", "str", "0"]) {
        ScoreStep::Scan(v) => assert!(v.is_empty()),
        _ => panic!("expected a scan"),
    }
}
