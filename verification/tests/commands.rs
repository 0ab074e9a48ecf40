use kivo::commands::execute_command_at;
use kivo::store::KvStore;

fn run(st: &mut KvStore, words: &[&str], now: i64) -> Option<String> {
    let parts: Vec<String> = words.iter().map(|w| w.to_string()).collect();
    let cmd = parts[0].to_uppercase();
    execute_command_at(st, &cmd, &parts, now)
}

fn reply(st: &mut KvStore, words: &[&str], now: i64) -> String {
    run(st, words, now).expect("the command has a reply")
}

#[test]
fn set_get_commands() {
    let mut st = KvStore::new(10_000);
    assert_eq!(reply(&mut st, &["SET", "k", "hello"], 10), "+OK\r\n");
    assert_eq!(reply(&mut st, &["GET", "k"], 10), "$5\r\nhello\r\n");
    assert_eq!(reply(&mut st, &["get", "nope"], 10), "$-1\r\n");
    assert_eq!(reply(&mut st, &["SET", "k"], 10), "-ERR wrong number of arguments for 'set' command\r\n");
    assert_eq!(reply(&mut st, &["GET"], 10), "-ERR wrong number of arguments for 'get' command\r\n");
}

#[test]
fn set_options() {
    let mut st = KvStore::new(10_000);
    assert_eq!(reply(&mut st, &["SET", "a", "1", "EX", "5"], 0), "+OK\r\n");
    assert_eq!(reply(&mut st, &["PTTL", "a"], 0), ":5000\r\n");
    assert_eq!(reply(&mut st, &["SET", "b", "1", "px", "250"], 0), "+OK\r\n");
    assert_eq!(reply(&mut st, &["PTTL", "b"], 0), ":250\r\n");
    assert_eq!(reply(&mut st, &["SET", "a", "2", "NX"], 0), "$-1\r\n");
    assert_eq!(reply(&mut st, &["SET", "c", "2", "NX", "EX", "5"], 0), "+OK\r\n");
    assert_eq!(reply(&mut st, &["TTL", "c"], 0), ":-1\r\n");
    assert_eq!(reply(&mut st, &["SET", "a", "1", "EX"], 0), "-ERR syntax error\r\n");
    assert_eq!(reply(&mut st, &["SET", "a", "1", "EX", "x"], 0), "-ERR value is not an integer or out of range\r\n");
    assert_eq!(reply(&mut st, &["SET", "a", "1", "XX"], 0), "-ERR syntax error\r\n");
    assert_eq!(reply(&mut st, &["SET", "a", "1", "EX", "0"], 0), "-ERR invalid expire time in command\r\n");
    assert_eq!(
        reply(&mut st, &["SET", "a", "1", "EX", "9223372036854775807"], 0),
        "-ERR invalid expire time in command\r\n"
    );
}

#[test]
fn setex_setnx_getset() {
    let mut st = KvStore::new(10_000);
    assert_eq!(reply(&mut st, &["SETEX", "a", "2", "v"], 0), "+OK\r\n");
    assert_eq!(reply(&mut st, &["TTL", "a"], 0), ":2\r\n");
    assert_eq!(reply(&mut st, &["PSETEX", "b", "1500", "v"], 0), "+OK\r\n");
    assert_eq!(reply(&mut st, &["TTL", "b"], 0), ":1\r\n");
    assert_eq!(reply(&mut st, &["SETEX", "a", "x", "v"], 0), "-ERR value is not an integer or out of range\r\n");
    assert_eq!(reply(&mut st, &["SETNX", "a", "w"], 0), ":0\r\n");
    assert_eq!(reply(&mut st, &["SETNX", "c", "w"], 0), ":1\r\n");
    assert_eq!(reply(&mut st, &["GETSET", "c", "z"], 0), "$1\r\nw\r\n");
    assert_eq!(reply(&mut st, &["GET", "c"], 0), "$1\r\nz\r\n");
}

#[test]
fn counters() {
    let mut st = KvStore::new(10_000);
    assert_eq!(reply(&mut st, &["INCR", "n"], 0), ":1\r\n");
    assert_eq!(reply(&mut st, &["INCRBY", "n", "41"], 0), ":42\r\n");
    assert_eq!(reply(&mut st, &["DECR", "n"], 0), ":41\r\n");
    assert_eq!(reply(&mut st, &["DECRBY", "n", "50"], 0), ":-9\r\n");
    assert_eq!(reply(&mut st, &["INCRBY", "n", "x"], 0), "-ERR value is not an integer or out of range\r\n");
    assert_eq!(
        reply(&mut st, &["DECRBY", "z", "-9223372036854775808"], 0),
        "-ERR increment or decrement would overflow\r\n"
    );
    assert_eq!(reply(&mut st, &["INCR", "z"], 0), ":1\r\n");
    assert_eq!(reply(&mut st, &["SET", "m", "9223372036854775807"], 0), "+OK\r\n");
    assert_eq!(reply(&mut st, &["INCR", "m"], 0), "-ERR increment or decrement would overflow\r\n");
    assert_eq!(reply(&mut st, &["APPEND", "s", "ab"], 0), ":2\r\n");
}

#[test]
fn mset_mget_commands() {
    let mut st = KvStore::new(10_000);
    assert_eq!(reply(&mut st, &["MSET", "a", "1", "b", "2"], 0), "+OK\r\n");
    assert_eq!(reply(&mut st, &["MSET", "a", "1", "b"], 0), "-ERR wrong number of arguments for 'mset' command\r\n");
    assert_eq!(reply(&mut st, &["MGET", "a", "x", "b"], 0), "*3\r\n$1\r\n1\r\n$-1\r\n$1\r\n2\r\n");
}

#[test]
fn key_commands() {
    let mut st = KvStore::new(10_000);
    reply(&mut st, &["SET", "a", "1"], 0);
    reply(&mut st, &["SET", "b", "1"], 0);
    assert_eq!(reply(&mut st, &["EXISTS", "a"], 0), ":1\r\n");
    assert_eq!(reply(&mut st, &["TYPE", "a"], 0), "+string\r\n");
    assert_eq!(reply(&mut st, &["TYPE", "q"], 0), "+none\r\n");
    assert_eq!(reply(&mut st, &["DEL", "a", "q", "b"], 0), ":2\r\n");
    assert_eq!(reply(&mut st, &["UNLINK", "a"], 0), ":0\r\n");
    assert_eq!(reply(&mut st, &["EXISTS", "a"], 0), ":0\r\n");
    reply(&mut st, &["SET", "c", "1"], 0);
    assert_eq!(reply(&mut st, &["RENAME", "c", "d"], 0), "+OK\r\n");
    assert_eq!(reply(&mut st, &["RENAME", "c", "d"], 0), "-ERR no such key\r\n");
    assert_eq!(reply(&mut st, &["EXPIRE", "d", "10"], 0), ":1\r\n");
    assert_eq!(reply(&mut st, &["TTL", "d"], 0), ":10\r\n");
    assert_eq!(reply(&mut st, &["PEXPIRE", "d", "500"], 0), ":1\r\n");
    assert_eq!(reply(&mut st, &["PTTL", "d"], 100), ":400\r\n");
    assert_eq!(reply(&mut st, &["PERSIST", "d"], 100), ":1\r\n");
    assert_eq!(reply(&mut st, &["TTL", "d"], 100), ":-1\r\n");
    assert_eq!(reply(&mut st, &["EXPIRE", "d", "0"], 100), "-ERR invalid expire time in command\r\n");
    assert_eq!(reply(&mut st, &["EXPIRE", "nope", "5"], 100), ":0\r\n");
    assert_eq!(reply(&mut st, &["KEYS", "d"], 100), "*1\r\n$1\r\nd\r\n");
    assert_eq!(reply(&mut st, &["DBSIZE"], 100), ":1\r\n");
    assert_eq!(reply(&mut st, &["FLUSHALL"], 100), "+OK\r\n");
    assert_eq!(reply(&mut st, &["DBSIZE"], 100), ":0\r\n");
}

#[test]
fn scan_commands() {
    let mut st = KvStore::new(10_000);
    reply(&mut st, &["SET", "a", "1"], 0);
    reply(&mut st, &["LPUSH", "l", "x"], 0);
    assert_eq!(reply(&mut st, &["SCAN", "0", "MATCH", "a"], 0), "*2\r\n$1\r\n0\r\n*1\r\n$1\r\na\r\n");
    assert_eq!(reply(&mut st, &["SCAN", "0", "TYPE", "LIST"], 0), "*2\r\n$1\r\n0\r\n*1\r\n$1\r\nl\r\n");
    assert_eq!(reply(&mut st, &["SCAN", "0", "COUNT", "5", "MATCH", "z*"], 0), "*2\r\n$1\r\n0\r\n*0\r\n");
    reply(&mut st, &["HSET", "h", "f", "v"], 0);
    assert_eq!(reply(&mut st, &["HSCAN", "h", "0"], 0), "*2\r\n$1\r\n0\r\n*2\r\n$1\r\nf\r\n$1\r\nv\r\n");
    assert_eq!(reply(&mut st, &["HSCAN", "a", "0"], 0), "*2\r\n$1\r\n0\r\n*0\r\n");
    reply(&mut st, &["SADD", "s", "m"], 0);
    assert_eq!(reply(&mut st, &["SSCAN", "s", "0"], 0), "*2\r\n$1\r\n0\r\n*1\r\n$1\r\nm\r\n");
}

#[test]
fn hash_commands() {
    let mut st = KvStore::new(10_000);
    assert_eq!(reply(&mut st, &["HSET", "h", "a", "1", "b", "2", "a", "3"], 0), ":2\r\n");
    assert_eq!(reply(&mut st, &["HGET", "h", "a"], 0), "$1\r\n3\r\n");
    assert_eq!(reply(&mut st, &["HMSET", "h", "c", "4"], 0), "+OK\r\n");
    assert_eq!(reply(&mut st, &["HLEN", "h"], 0), ":3\r\n");
    assert_eq!(reply(&mut st, &["HEXISTS", "h", "c"], 0), ":1\r\n");
    assert_eq!(reply(&mut st, &["HDEL", "h", "c"], 0), ":1\r\n");
    assert_eq!(reply(&mut st, &["HMGET", "h", "b", "zz"], 0), "*2\r\n$1\r\n2\r\n$-1\r\n");
    assert_eq!(reply(&mut st, &["HSET", "h", "a"], 0), "-ERR wrong number of arguments for 'hset' command\r\n");
    assert_eq!(reply(&mut st, &["HMSET", "h", "a", "1", "b"], 0), "-ERR wrong number of arguments for 'hmset' command\r\n");
    reply(&mut st, &["SET", "s", "1"], 0);
    assert_eq!(
        reply(&mut st, &["HSET", "s", "a", "1"], 0),
        "-WRONGTYPE Operation against a key holding the wrong kind of value\r\n"
    );
    reply(&mut st, &["HSET", "one", "f", "v"], 0);
    assert_eq!(reply(&mut st, &["HGETALL", "one"], 0), "*2\r\n$1\r\nf\r\n$1\r\nv\r\n");
    assert_eq!(reply(&mut st, &["HKEYS", "one"], 0), "*1\r\n$1\r\nf\r\n");
    assert_eq!(reply(&mut st, &["HVALS", "one"], 0), "*1\r\n$1\r\nv\r\n");
}

#[test]
fn list_commands() {
    let mut st = KvStore::new(10_000);
    assert_eq!(reply(&mut st, &["RPUSH", "l", "a"], 0), ":1\r\n");
    assert_eq!(reply(&mut st, &["RPUSH", "l", "b"], 0), ":2\r\n");
    assert_eq!(reply(&mut st, &["LPUSH", "l", "z"], 0), ":3\r\n");
    assert_eq!(reply(&mut st, &["LRANGE", "l", "0", "-1"], 0), "*3\r\n$1\r\nz\r\n$1\r\na\r\n$1\r\nb\r\n");
    assert_eq!(reply(&mut st, &["LRANGE", "l", "0", "x"], 0), "-ERR value is not an integer or out of range\r\n");
    assert_eq!(reply(&mut st, &["LINDEX", "l", "-1"], 0), "$1\r\nb\r\n");
    assert_eq!(reply(&mut st, &["LLEN", "l"], 0), ":3\r\n");
    assert_eq!(reply(&mut st, &["LSET", "l", "0", "y"], 0), "+OK\r\n");
    assert_eq!(reply(&mut st, &["LSET", "l", "9", "y"], 0), "-ERR no such key\r\n");
    assert_eq!(reply(&mut st, &["LREM", "l", "0", "y"], 0), ":1\r\n");
    assert_eq!(reply(&mut st, &["LTRIM", "l", "0", "0"], 0), "+OK\r\n");
    assert_eq!(reply(&mut st, &["LPOP", "l"], 0), "$1\r\na\r\n");
    assert_eq!(reply(&mut st, &["RPOP", "l"], 0), "$-1\r\n");
}

#[test]
fn set_and_rank_commands() {
    let mut st = KvStore::new(10_000);
    assert_eq!(reply(&mut st, &["SADD", "s", "a", "b", "a"], 0), ":2\r\n");
    assert_eq!(reply(&mut st, &["SREM", "s", "b"], 0), ":1\r\n");
    assert_eq!(reply(&mut st, &["SMEMBERS", "s"], 0), "*1\r\n$1\r\na\r\n");
    assert_eq!(reply(&mut st, &["SCARD", "s"], 0), ":1\r\n");
    assert_eq!(reply(&mut st, &["SISMEMBER", "s", "a"], 0), ":1\r\n");
    assert_eq!(reply(&mut st, &["SRANDMEMBER", "s"], 0), "$1\r\na\r\n");
    assert_eq!(reply(&mut st, &["SMOVE", "s", "t", "a"], 0), ":1\r\n");
    assert_eq!(reply(&mut st, &["SPOP", "t"], 0), "$1\r\na\r\n");
    assert_eq!(reply(&mut st, &["SPOP", "t"], 0), "$-1\r\n");
    reply(&mut st, &["SADD", "x", "1", "2"], 0);
    reply(&mut st, &["SADD", "y", "2", "3"], 0);
    assert_eq!(reply(&mut st, &["SINTER", "x", "y"], 0), "*1\r\n$1\r\n2\r\n");
    assert_eq!(reply(&mut st, &["SDIFF", "x", "y"], 0), "*1\r\n$1\r\n1\r\n");
    assert_eq!(reply(&mut st, &["SUNIONSTORE", "u", "x", "y"], 0), ":3\r\n");
    assert_eq!(reply(&mut st, &["SINTERSTORE", "i", "x", "y"], 0), ":1\r\n");
    assert_eq!(reply(&mut st, &["SDIFFSTORE", "d", "x", "y"], 0), ":1\r\n");
    st.zadd_at("z".to_string(), &[(1.0f64.to_bits(), "a".to_string()), (2.0f64.to_bits(), "b".to_string())], 0).unwrap();
    assert_eq!(reply(&mut st, &["ZRANK", "z", "b"], 0), ":1\r\n");
    assert_eq!(reply(&mut st, &["ZREVRANK", "z", "b"], 0), ":0\r\n");
    assert_eq!(reply(&mut st, &["ZRANK", "z", "q"], 0), "$-1\r\n");
    assert_eq!(reply(&mut st, &["ZCARD", "z"], 0), ":2\r\n");
    assert_eq!(reply(&mut st, &["ZREM", "z", "a", "q"], 0), ":1\r\n");
}

#[test]
fn score_commands_are_left_to_the_caller() {
    let mut st = KvStore::new(10_000);
    for c in ["ZADD", "ZSCORE", "ZINCRBY", "ZRANGE", "ZREVRANGE", "ZRANGEBYSCORE", "ZREVRANGEBYSCORE", "ZCOUNT", "ZPOPMIN",
        "ZPOPMAX", "ZSCAN"] {
        assert_eq!(run(&mut st, &[c, "z", "1", "m"], 0), None);
    }
    assert_eq!(st.stored_len(), Some(0));
}

#[test]
fn unknown_command_reply() {
    let mut st = KvStore::new(10_000);
    assert_eq!(
        reply(&mut st, &["Frob", "a", "b", "c", "d"], 0),
        "-ERR unknown command `frob`, with args beginning with: `a`, `b`, `c`\r\n"
    );
    assert_eq!(reply(&mut st, &["FROB"], 0), "-ERR unknown command `frob`, with args beginning with: \r\n");
}

#[test]
fn expiry_in_seconds_that_overflows() {
    let mut st = KvStore::new(10_000);
    let big = "9223372036854775807";
    let bad = "-ERR invalid expire time in command\r\n";
    assert_eq!(reply(&mut st, &["SET", "k", "v", "EX", big], 10), bad);
    assert_eq!(reply(&mut st, &["SETEX", "k", big, "v"], 10), bad);
    assert_eq!(reply(&mut st, &["SET", "k", "v"], 10), "+OK\r\n");
    assert_eq!(reply(&mut st, &["EXPIRE", "k", big], 10), bad);
    assert_eq!(reply(&mut st, &["TTL", "k"], 10), ":-1\r\n");
}

#[test]
fn zadd_counts_a_member_once() {
    let mut st = KvStore::new(10_000);
    let parts: Vec<String> = ["ZADD", "z", "1", "a", "2", "a"].iter().map(|w| w.to_string()).collect();
    let scores: Vec<Option<u64>> = parts.iter().map(|p| p.parse::<f64>().ok().map(f64::to_bits)).collect();
    match st.run_score_command_at("ZADD", &parts, &scores, 10) {
        kivo::cmd_zsets::ScoreStep::Reply(r) => assert_eq!(r, ":1\r\n"),
        _ => panic!("expected a reply"),
    }
    assert_eq!(st.zscore_at("z", "a", 10), Ok(Some(2.0f64.to_bits())));
}
