use kivo::error::KvError;
use kivo::lists::normalize_index;
use kivo::store::KvStore;

fn s(x: &str) -> String {
    x.to_string()
}

fn sorted(mut v: Vec<String>) -> Vec<String> {
    v.sort();
    v
}

fn bits(x: f64) -> u64 {
    x.to_bits()
}

#[test]
fn hash_fields() {
    let mut st = KvStore::new(10_000);
    assert_eq!(st.hset_at(s("h"), s("f1"), s("a"), 10), Ok(1));
    assert_eq!(st.hset_at(s("h"), s("f1"), s("b"), 10), Ok(0));
    assert_eq!(st.hset_at(s("h"), s("f2"), s("c"), 10), Ok(1));
    assert_eq!(st.hget_at("h", "f1", 10), Ok(Some(s("b"))));
    assert_eq!(st.hget_at("h", "nope", 10), Ok(None));
    assert_eq!(st.hget_at("nope", "f1", 10), Ok(None));
    assert_eq!(st.hlen_at("h", 10), Ok(2));
    assert_eq!(st.hexists_at("h", "f2", 10), Ok(true));
    assert_eq!(st.hexists_at("h", "f3", 10), Ok(false));
    assert_eq!(sorted(st.hkeys_at("h", 10).unwrap()), vec![s("f1"), s("f2")]);
    assert_eq!(sorted(st.hvals_at("h", 10).unwrap()), vec![s("b"), s("c")]);
    let mut all = st.hgetall_at("h", 10).unwrap();
    all.sort();
    assert_eq!(all, vec![(s("f1"), s("b")), (s("f2"), s("c"))]);
    assert_eq!(st.hmget_at("h", &[s("f2"), s("x"), s("f1")], 10), Ok(vec![Some(s("c")), None, Some(s("b"))]));
    assert_eq!(st.hdel_at("h", "f1", 10), Ok(true));
    assert_eq!(st.hdel_at("h", "f1", 10), Ok(false));
    assert_eq!(st.hlen_at("h", 10), Ok(1));
    st.set_at(s("str"), s("v"), None, 10).unwrap();
    assert_eq!(st.hset_at(s("str"), s("f"), s("v"), 10), Err(KvError::WrongType));
    assert_eq!(st.hget_at("str", "f", 10), Err(KvError::WrongType));
}

#[test]
fn list_push_pop_range() {
    let mut st = KvStore::new(10_000);
    assert_eq!(st.list_push_at(s("l"), s("b"), true, 10), Ok(1));
    assert_eq!(st.list_push_at(s("l"), s("a"), true, 10), Ok(2));
    assert_eq!(st.list_push_at(s("l"), s("c"), false, 10), Ok(3));
    assert_eq!(st.lrange_at("l", 0, -1, 10), Ok(vec![s("a"), s("b"), s("c")]));
    assert_eq!(st.lrange_at("l", -2, -1, 10), Ok(vec![s("b"), s("c")]));
    assert_eq!(st.lrange_at("l", 1, 100, 10), Ok(vec![s("b"), s("c")]));
    assert_eq!(st.lrange_at("l", 2, 1, 10), Ok(vec![]));
    assert_eq!(st.lrange_at("l", 0, i64::MAX, 10), Ok(vec![s("a"), s("b"), s("c")]));
    assert_eq!(st.lindex_at("l", -1, 10), Ok(Some(s("c"))));
    assert_eq!(st.lindex_at("l", 5, 10), Ok(None));
    assert_eq!(st.llen_at("l", 10), Ok(3));
    assert_eq!(st.list_pop_at("l", true, 10), Ok(Some(s("a"))));
    assert_eq!(st.list_pop_at("l", false, 10), Ok(Some(s("c"))));
    assert_eq!(st.list_pop_at("l", false, 10), Ok(Some(s("b"))));
    assert_eq!(st.list_pop_at("l", false, 10), Ok(None));
    assert_eq!(st.type_of_at("l", 10), "list");
    assert_eq!(st.list_pop_at("none", true, 10), Ok(None));
}

#[test]
fn list_set_and_trim() {
    let mut st = KvStore::new(10_000);
    for x in ["a", "b", "c", "d"] {
        st.list_push_at(s("l"), s(x), false, 10).unwrap();
    }
    assert_eq!(st.lset_at("l", -1, s("D"), 10), Ok(()));
    assert_eq!(st.lset_at("l", 9, s("x"), 10), Err(KvError::NotFound));
    assert_eq!(st.lset_at("none", 0, s("x"), 10), Err(KvError::NotFound));
    assert_eq!(st.ltrim_at("l", 1, -2, 10), Ok(()));
    assert_eq!(st.lrange_at("l", 0, -1, 10), Ok(vec![s("b"), s("c")]));
    assert_eq!(st.ltrim_at("l", 5, 9, 10), Ok(()));
    assert_eq!(st.lrange_at("l", 0, -1, 10), Ok(vec![]));
}

#[test]
fn list_remove_counts() {
    let mut st = KvStore::new(10_000);
    for x in ["a", "b", "a", "c", "a"] {
        st.list_push_at(s("l"), s(x), false, 10).unwrap();
    }
    assert_eq!(st.lrem_at("l", 2, "a", 10), Ok(2));
    assert_eq!(st.lrange_at("l", 0, -1, 10), Ok(vec![s("b"), s("c"), s("a")]));
    for x in ["a", "b", "a"] {
        st.list_push_at(s("m"), s(x), false, 10).unwrap();
    }
    // A negative count removes from the tail.
    assert_eq!(st.lrem_at("m", -1, "a", 10), Ok(1));
    assert_eq!(st.lrange_at("m", 0, -1, 10), Ok(vec![s("a"), s("b")]));
    assert_eq!(st.lrem_at("m", i64::MIN, "a", 10), Ok(1));
    assert_eq!(st.lrem_at("m", 0, "a", 10), Ok(0));
    assert_eq!(st.lrange_at("m", 0, -1, 10), Ok(vec![s("b")]));
    assert_eq!(st.lrem_at("none", 0, "a", 10), Ok(0));
}

#[test]
fn set_members() {
    let mut st = KvStore::new(10_000);
    assert_eq!(st.sadd_at(s("s"), &[s("a"), s("a"), s("b")], 10), Ok(2));
    assert_eq!(st.sadd_at(s("s"), &[s("b"), s("c")], 10), Ok(1));
    assert_eq!(sorted(st.smembers_at("s", 10).unwrap()), vec![s("a"), s("b"), s("c")]);
    assert_eq!(st.scard_at("s", 10), Ok(3));
    assert_eq!(st.sismember_at("s", "b", 10), Ok(true));
    assert_eq!(st.sismember_at("s", "z", 10), Ok(false));
    assert_eq!(st.srem_at("s", &[s("a"), s("a"), s("z")], 10), Ok(1));
    assert_eq!(st.scard_at("s", 10), Ok(2));
    let m = st.srandmember_at("s", 10).unwrap().unwrap();
    assert!(m == "b" || m == "c");
    let p = st.spop_at("s", 10).unwrap().unwrap();
    assert!(p == "b" || p == "c");
    assert_eq!(st.scard_at("s", 10), Ok(1));
    assert_eq!(st.sismember_at("s", p.as_str(), 10), Ok(false));
    assert_eq!(st.spop_at("none", 10), Ok(None));
}

#[test]
fn set_move_and_algebra() {
    let mut st = KvStore::new(10_000);
    st.sadd_at(s("x"), &[s("a"), s("b"), s("c")], 10).unwrap();
    st.sadd_at(s("y"), &[s("b"), s("c"), s("d")], 10).unwrap();
    assert_eq!(sorted(st.sunion_at(&[s("x"), s("y")], 10).unwrap()), vec![s("a"), s("b"), s("c"), s("d")]);
    assert_eq!(sorted(st.sinter_at(&[s("x"), s("y")], 10).unwrap()), vec![s("b"), s("c")]);
    assert_eq!(sorted(st.sdiff_at(&[s("x"), s("y")], 10).unwrap()), vec![s("a")]);
    assert_eq!(sorted(st.sinter_at(&[s("x"), s("none")], 10).unwrap()), Vec::<String>::new());
    assert_eq!(st.sunionstore_at(s("u"), &[s("x"), s("y")], 10), Ok(4));
    assert_eq!(st.sinterstore_at(s("i"), &[s("x"), s("y")], 10), Ok(2));
    assert_eq!(st.sdiffstore_at(s("d"), &[s("y"), s("x")], 10), Ok(1));
    assert_eq!(sorted(st.smembers_at("d", 10).unwrap()), vec![s("d")]);
    assert_eq!(st.smove_at("x", s("y"), s("a"), 10), Ok(true));
    assert_eq!(st.smove_at("x", s("y"), s("a"), 10), Ok(false));
    assert_eq!(st.sismember_at("y", "a", 10), Ok(true));
    st.set_at(s("str"), s("v"), None, 10).unwrap();
    assert_eq!(st.sunion_at(&[s("x"), s("str")], 10), Err(KvError::WrongType));
    assert_eq!(st.sadd_at(s("str"), &[s("a")], 10), Err(KvError::WrongType));
}

#[test]
fn sorted_set_order_and_ranks() {
    let mut st = KvStore::new(10_000);
    let pairs = [(bits(1.0), s("a")), (bits(2.0), s("b")), (bits(1.5), s("c")), (bits(1.0), s("aa"))];
    assert_eq!(st.zadd_at(s("z"), &pairs, 10), Ok(4));
    let all: Vec<String> = st.zrange_at("z", 0, -1, false, 10).unwrap().into_iter().map(|p| p.0).collect();
    assert_eq!(all, vec![s("a"), s("aa"), s("c"), s("b")]);
    let rev: Vec<String> = st.zrange_at("z", 0, 1, true, 10).unwrap().into_iter().map(|p| p.0).collect();
    assert_eq!(rev, vec![s("b"), s("c")]);
    assert_eq!(st.zrank_at("z", "c", false, 10), Ok(Some(2)));
    assert_eq!(st.zrank_at("z", "c", true, 10), Ok(Some(1)));
    assert_eq!(st.zrank_at("z", "zz", false, 10), Ok(None));
    assert_eq!(st.zscore_at("z", "c", 10), Ok(Some(bits(1.5))));
    assert_eq!(st.zcard_at("z", 10), Ok(4));
    assert_eq!(st.zadd_at(s("z"), &[(bits(3.0), s("a")), (bits(0.5), s("new")), (bits(0.7), s("new"))], 10), Ok(1));
    assert_eq!(st.zscore_at("z", "a", 10), Ok(Some(bits(3.0))));
    assert_eq!(st.zscore_at("z", "new", 10), Ok(Some(bits(0.7))));
    assert_eq!(st.zcard_at("z", 10), Ok(5));
}

#[test]
fn sorted_set_negative_and_signed_zero() {
    let mut st = KvStore::new(10_000);
    let pairs = [(bits(0.0), s("b")), (bits(-0.0), s("a")), (bits(-2.5), s("n")), (bits(f64::INFINITY), s("i")),
        (bits(f64::NEG_INFINITY), s("m"))];
    st.zadd_at(s("z"), &pairs, 10).unwrap();
    let all: Vec<String> = st.zrange_at("z", 0, -1, false, 10).unwrap().into_iter().map(|p| p.0).collect();
    assert_eq!(all, vec![s("m"), s("n"), s("a"), s("b"), s("i")]);
    assert_eq!(st.zcount_at("z", bits(0.0), bits(0.0), 10), Ok(2));
    assert_eq!(st.zcount_at("z", bits(f64::NEG_INFINITY), bits(f64::INFINITY), 10), Ok(5));
    assert_eq!(st.zcount_at("z", bits(f64::NAN), bits(f64::INFINITY), 10), Ok(0));
}

#[test]
fn sorted_set_by_score_count_pop() {
    let mut st = KvStore::new(10_000);
    let pairs = [(bits(1.0), s("a")), (bits(2.0), s("b")), (bits(3.0), s("c"))];
    st.zadd_at(s("z"), &pairs, 10).unwrap();
    let by: Vec<(String, u64)> = st.zrangebyscore_at("z", bits(1.5), bits(3.0), 10).unwrap();
    assert_eq!(by, vec![(s("b"), bits(2.0)), (s("c"), bits(3.0))]);
    assert_eq!(st.zcount_at("z", bits(1.0), bits(2.0), 10), Ok(2));
    assert_eq!(st.zpopmin_at("z", 10), Ok(Some((s("a"), bits(1.0)))));
    assert_eq!(st.zpopmax_at("z", 10), Ok(Some((s("c"), bits(3.0)))));
    assert_eq!(st.zcard_at("z", 10), Ok(1));
    assert_eq!(st.zrem_at("z", &[s("b"), s("b"), s("x")], 10), Ok(1));
    assert_eq!(st.zpopmin_at("z", 10), Ok(None));
    assert_eq!(st.zpopmin_at("none", 10), Ok(None));
    assert_eq!(st.zset_put_score_at(s("z"), s("q"), bits(4.5), 10), Ok(()));
    assert_eq!(st.zscore_at("z", "q", 10), Ok(Some(bits(4.5))));
    st.set_at(s("str"), s("v"), None, 10).unwrap();
    assert_eq!(st.zadd_at(s("str"), &pairs, 10), Err(KvError::WrongType));
    assert_eq!(st.zset_put_score_at(s("str"), s("q"), bits(1.0), 10), Err(KvError::WrongType));
    assert_eq!(st.zrange_at("str", 0, -1, false, 10), Err(KvError::WrongType));
}

#[test]
fn zrange_bounds() {
    let mut st = KvStore::new(10_000);
    let pairs = [(bits(1.0), s("a")), (bits(2.0), s("b")), (bits(3.0), s("c"))];
    st.zadd_at(s("z"), &pairs, 10).unwrap();
    let names = |v: Vec<(String, u64)>| v.into_iter().map(|p| p.0).collect::<Vec<String>>();
    assert_eq!(names(st.zrange_at("z", -2, -1, false, 10).unwrap()), vec![s("b"), s("c")]);
    assert_eq!(names(st.zrange_at("z", 1, i64::MAX, false, 10).unwrap()), vec![s("b"), s("c")]);
    assert_eq!(names(st.zrange_at("z", 2, 1, false, 10).unwrap()), Vec::<String>::new());
    assert_eq!(names(st.zrange_at("z", -100, 0, false, 10).unwrap()), vec![s("a")]);
    assert_eq!(names(st.zrange_at("none", 0, -1, false, 10).unwrap()), Vec::<String>::new());
}

#[test]
fn normalize_index_cases() {
    assert_eq!(normalize_index(-1, 5), 4);
    assert_eq!(normalize_index(-10, 5), 0);
    assert_eq!(normalize_index(3, 5), 3);
    assert_eq!(normalize_index(7, 5), 7);
}

#[test]
fn list_ranges_before_the_start() {
    let mut st = KvStore::new(10_000);
    for x in ["a", "b", "c"] {
        st.list_push_at(s("l"), s(x), false, 10).unwrap();
    }
    assert_eq!(st.lrange_at("l", 0, -10, 10), Ok(Vec::<String>::new()));
    assert_eq!(st.lrange_at("l", -10, -3, 10), Ok(vec![s("a")]));
    assert_eq!(st.lindex_at("l", -4, 10), Ok(None));
    assert_eq!(st.lindex_at("l", -3, 10), Ok(Some(s("a"))));
    assert_eq!(st.lset_at("l", -4, s("x"), 10), Err(KvError::NotFound));
    st.ltrim_at("l", 0, -10, 10).unwrap();
    assert_eq!(st.llen_at("l", 10), Ok(0));
}

#[test]
fn smove_into_wrong_type_changes_nothing() {
    let mut st = KvStore::new(10_000);
    st.sadd_at(s("src"), &[s("m")], 10).unwrap();
    st.set_at(s("dst"), s("x"), None, 10).unwrap();
    assert_eq!(st.smove_at("src", s("dst"), s("m"), 10), Err(KvError::WrongType));
    assert_eq!(st.sismember_at("src", "m", 10), Ok(true));
    assert_eq!(st.get_at("dst", 10), Ok(Some(s("x"))));
}

#[test]
fn new_keys_respect_the_shard_limit() {
    // 16 keys in all: one per shard.
    let mut st = KvStore::new(16);
    for i in 0..200 {
        st.hset_at(format!("h{i}"), s("f"), s("v"), 10 + i).unwrap();
        st.list_push_at(format!("l{i}"), s("v"), true, 10 + i).unwrap();
        st.sadd_at(format!("s{i}"), &[s("m")], 10 + i).unwrap();
        st.zadd_at(format!("z{i}"), &[(bits(1.0), s("m"))], 10 + i).unwrap();
        st.incr_by_at(&format!("n{i}"), 1, 10 + i).unwrap();
    }
    assert!(st.stored_len().unwrap() <= 16);
}
