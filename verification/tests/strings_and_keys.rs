use kivo::error::KvError;
use kivo::store::KvStore;

fn s(x: &str) -> String {
    x.to_string()
}

#[test]
fn set_then_get_reads_back() {
    let mut st = KvStore::new(10_000);
    assert_eq!(st.set_at(s("a"), s("1"), None, 1_000), Ok(()));
    assert_eq!(st.get_at("a", 1_000), Ok(Some(s("1"))));
    assert_eq!(st.get_at("missing", 1_000), Ok(None));
}

#[test]
fn set_with_expiry_reads_until_deadline() {
    let mut st = KvStore::new(10_000);
    assert_eq!(st.set_at(s("a"), s("v"), Some(100), 1_000), Ok(()));
    assert_eq!(st.get_at("a", 1_099), Ok(Some(s("v"))));
    assert_eq!(st.get_at("a", 1_100), Ok(None));
    assert!(!st.key_exists_at("a", 1_100));
}

#[test]
fn set_refuses_bad_expiry() {
    let mut st = KvStore::new(10_000);
    assert_eq!(st.set_at(s("a"), s("v"), Some(0), 1_000), Err(KvError::InvalidExpiry));
    assert_eq!(st.set_at(s("a"), s("v"), Some(-5), 1_000), Err(KvError::InvalidExpiry));
    assert_eq!(st.set_at(s("a"), s("v"), Some(i64::MAX), 1_000), Err(KvError::InvalidExpiry));
    assert!(!st.key_exists_at("a", 1_000));
}

#[test]
fn setnx_only_when_absent() {
    let mut st = KvStore::new(10_000);
    assert!(st.setnx_at(s("a"), s("1"), 10));
    assert!(!st.setnx_at(s("a"), s("2"), 10));
    assert_eq!(st.get_at("a", 10), Ok(Some(s("1"))));
}

#[test]
fn getset_returns_old_value() {
    let mut st = KvStore::new(10_000);
    assert_eq!(st.getset_at(s("a"), s("1"), 10), Ok(None));
    assert_eq!(st.getset_at(s("a"), s("2"), 10), Ok(Some(s("1"))));
    assert_eq!(st.get_at("a", 10), Ok(Some(s("2"))));
    st.lpush(s("l"), s("x")).unwrap();
    assert_eq!(st.getset_at(s("l"), s("y"), 10), Err(KvError::WrongType));
}

#[test]
fn incr_counts_and_refuses() {
    let mut st = KvStore::new(10_000);
    assert_eq!(st.incr_by_at("n", 1, 10), Ok(1));
    assert_eq!(st.set_at(s("n"), s("10"), None, 10), Ok(()));
    assert_eq!(st.incr_by_at("n", 5, 10), Ok(15));
    assert_eq!(st.incr_by_at("n", -20, 10), Ok(-5));
    assert_eq!(st.get_at("n", 10), Ok(Some(s("-5"))));
    st.set_at(s("t"), s("abc"), None, 10).unwrap();
    assert_eq!(st.incr_by_at("t", 1, 10), Err(KvError::NotInteger));
    st.set_at(s("m"), s("9223372036854775807"), None, 10).unwrap();
    assert_eq!(st.incr_by_at("m", 1, 10), Err(KvError::Overflow));
    assert_eq!(st.get_at("m", 10), Ok(Some(s("9223372036854775807"))));
    st.set_at(s("p"), s("+7"), None, 10).unwrap();
    assert_eq!(st.incr_by_at("p", 1, 10), Ok(8));
}

#[test]
fn incr_keeps_expiry() {
    let mut st = KvStore::new(10_000);
    st.set_at(s("n"), s("1"), Some(500), 0).unwrap();
    assert_eq!(st.incr_by_at("n", 1, 100), Ok(2));
    assert_eq!(st.pttl_at("n", 100), 400);
}

#[test]
fn append_counts_bytes() {
    let mut st = KvStore::new(10_000);
    assert_eq!(st.append_at(s("a"), s("ab"), 10), Ok(2));
    assert_eq!(st.append_at(s("a"), s("cd"), 10), Ok(4));
    assert_eq!(st.append_at(s("a"), s("\u{e9}"), 10), Ok(6));
    assert_eq!(st.get_at("a", 10), Ok(Some(s("abcd\u{e9}"))));
}

#[test]
fn wrong_type_is_refused() {
    let mut st = KvStore::new(10_000);
    st.lpush(s("l"), s("x")).unwrap();
    assert_eq!(st.get_at("l", 10), Err(KvError::WrongType));
    assert_eq!(st.incr_by_at("l", 1, 10), Err(KvError::WrongType));
    assert_eq!(st.append_at(s("l"), s("x"), 10), Err(KvError::WrongType));
}

#[test]
fn mset_then_mget() {
    let mut st = KvStore::new(10_000);
    st.mset_at(vec![(s("a"), s("1")), (s("b"), s("2")), (s("a"), s("3"))], 10);
    st.lpush(s("l"), s("x")).unwrap();
    let got = st.mget_at(&[s("a"), s("b"), s("c"), s("l")], 10);
    assert_eq!(got, vec![Some(s("3")), Some(s("2")), None, None]);
}

#[test]
fn del_counts_live_keys() {
    let mut st = KvStore::new(10_000);
    st.set_at(s("a"), s("1"), None, 10).unwrap();
    st.set_at(s("b"), s("2"), Some(5), 10).unwrap();
    // "b" expired long before now: it is removed but not counted.
    assert_eq!(st.del(&[s("a"), s("a"), s("b"), s("zz")]), 1);
    assert!(!st.key_exists_at("a", 10));
    assert!(!st.key_exists_at("b", 10));
}

#[test]
fn type_names() {
    let mut st = KvStore::new(10_000);
    st.set_at(s("s"), s("1"), None, 10).unwrap();
    st.lpush(s("l"), s("x")).unwrap();
    st.hset(s("h"), s("f"), s("v")).unwrap();
    st.sadd(s("t"), &[s("m")]).unwrap();
    st.zadd(s("z"), &[(1.0f64.to_bits(), s("m"))]).unwrap();
    assert_eq!(st.type_of_at("s", 10), "string");
    assert_eq!(st.type_of_at("l", 10), "list");
    assert_eq!(st.type_of_at("h", 10), "hash");
    assert_eq!(st.type_of_at("t", 10), "set");
    assert_eq!(st.type_of_at("z", 10), "zset");
    assert_eq!(st.type_of_at("none", 10), "none");
}

#[test]
fn rename_moves_entry() {
    let mut st = KvStore::new(10_000);
    st.set_at(s("a"), s("1"), Some(1_000), 0).unwrap();
    assert_eq!(st.rename_at("a", s("b"), 10), Ok(()));
    assert_eq!(st.get_at("a", 10), Ok(None));
    assert_eq!(st.get_at("b", 10), Ok(Some(s("1"))));
    assert_eq!(st.pttl_at("b", 10), 990);
    assert_eq!(st.rename_at("nope", s("c"), 10), Err(KvError::NotFound));
    assert_eq!(st.rename_at("b", s("b"), 10), Ok(()));
    assert_eq!(st.get_at("b", 10), Ok(Some(s("1"))));
}

#[test]
fn expire_ttl_and_persist() {
    let mut st = KvStore::new(10_000);
    st.set_at(s("a"), s("1"), None, 0).unwrap();
    assert_eq!(st.ttl_at("a", 0), -1);
    assert_eq!(st.ttl_at("missing", 0), -2);
    assert_eq!(st.expire_at("a", 5_500, 0), Ok(true));
    assert_eq!(st.pttl_at("a", 0), 5_500);
    assert_eq!(st.ttl_at("a", 0), 5);
    assert_eq!(st.ttl_at("a", 1_000), 4);
    assert!(st.persist_at("a", 1_000));
    assert_eq!(st.ttl_at("a", 1_000), -1);
    assert_eq!(st.expire_at("missing", 10, 0), Ok(false));
    assert_eq!(st.expire_at("a", 0, 0), Err(KvError::InvalidExpiry));
    assert_eq!(st.expire_at("a", -1, 0), Err(KvError::InvalidExpiry));
    assert!(!st.persist_at("missing", 0));
}

#[test]
fn expired_key_reads_gone() {
    let mut st = KvStore::new(10_000);
    st.set_at(s("a"), s("1"), None, 0).unwrap();
    st.expire_at("a", 100, 0).unwrap();
    assert_eq!(st.pttl_at("a", 99), 1);
    assert_eq!(st.pttl_at("a", 100), -2);
    assert_eq!(st.ttl_at("a", 100), -2);
}

#[test]
fn keys_match_patterns() {
    let mut st = KvStore::new(10_000);
    for k in ["user:1", "user:2", "other", "user:10"] {
        st.set_at(s(k), s("v"), None, 10).unwrap();
    }
    st.set_at(s("user:gone"), s("v"), Some(5), 10).unwrap();
    let mut ks = st.keys_at("user:?", 20);
    ks.sort();
    assert_eq!(ks, vec![s("user:1"), s("user:2")]);
    let mut all = st.keys_at("*", 20);
    all.sort();
    assert_eq!(all, vec![s("other"), s("user:1"), s("user:10"), s("user:2")]);
    assert_eq!(st.db_size_at(20), 4);
    assert_eq!(st.db_size_at(10), 5);
}

#[test]
fn flush_and_purge() {
    let mut st = KvStore::new(10_000);
    st.set_at(s("a"), s("1"), Some(10), 0).unwrap();
    st.set_at(s("b"), s("1"), Some(10), 0).unwrap();
    st.set_at(s("c"), s("1"), None, 0).unwrap();
    assert_eq!(st.purge_expired_at(5), 0);
    assert_eq!(st.purge_expired_at(10), 2);
    assert_eq!(st.stored_len(), Some(1));
    st.flush_all();
    assert_eq!(st.db_size_at(10), 0);
    assert_eq!(st.stored_len(), Some(0));
}

#[test]
fn eviction_keeps_shards_bounded() {
    let mut st = KvStore::new(16);
    for i in 0..200i64 {
        st.set_at(format!("key{i}"), s("v"), None, i).unwrap();
    }
    assert!(st.db_size_at(1_000) <= 16);
    assert_eq!(st.get_at("key199", 1_000), Ok(Some(s("v"))));
}

#[test]
fn eviction_spares_recently_used() {
    let mut st = KvStore::new(32);
    st.set_at(s("keep"), s("v"), None, 0).unwrap();
    for i in 1..500i64 {
        assert_eq!(st.get_at("keep", i * 2), Ok(Some(s("v"))));
        st.set_at(format!("k{i}"), s("v"), None, i * 2 + 1).unwrap();
    }
    assert!(st.db_size_at(10_000) <= 32);
}

#[test]
fn now_is_wall_clock() {
    assert!(kivo::clock::now_ms() > 1_600_000_000_000);
}
