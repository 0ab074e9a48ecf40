use kivo::entry::{DataType, Entry};
use kivo::error::KvError;
use kivo::snapshot::Snapshot;
use kivo::store::KvStore;
use kivo::strmap::StrMap;
use kivo::zorder::Score;

fn s(x: &str) -> String {
    x.to_string()
}

#[test]
fn snapshot_then_restore_roundtrip() {
    let mut st = KvStore::new(10_000);
    st.set_at(s("a"), s("1"), None, 100).unwrap();
    st.set_at(s("b"), s("2"), Some(50), 100).unwrap();
    st.set_at(s("gone"), s("3"), Some(10), 100).unwrap();
    st.hset_at(s("h"), s("f"), s("v"), 100).unwrap();
    st.list_push_at(s("l"), s("x"), false, 100).unwrap();
    st.sadd_at(s("t"), &[s("m")], 100).unwrap();
    st.zadd_at(s("z"), &[(2.5f64.to_bits(), s("m"))], 100).unwrap();
    let snap = st.snapshot_at(120);
    assert_eq!(snap.entries.len(), 6);
    let mut back = KvStore::new(10_000);
    back.restore_at(&snap, 120);
    assert_eq!(back.get_at("a", 120), Ok(Some(s("1"))));
    assert_eq!(back.get_at("b", 120), Ok(Some(s("2"))));
    assert_eq!(back.pttl_at("b", 120), 30);
    assert_eq!(back.get_at("gone", 120), Ok(None));
    assert_eq!(back.hget_at("h", "f", 120), Ok(Some(s("v"))));
    assert_eq!(back.lrange_at("l", 0, -1, 120), Ok(vec![s("x")]));
    assert_eq!(back.sismember_at("t", "m", 120), Ok(true));
    assert_eq!(back.zscore_at("z", "m", 120), Ok(Some(2.5f64.to_bits())));
    assert_eq!(back.db_size_at(120), 6);
}

#[test]
fn restore_drops_expired_and_malformed() {
    let mut bad = StrMap::<Score>::new();
    bad.insert(s("m"), Score { bits: f64::NAN.to_bits() });
    let entries = vec![
        (s("old"), Entry { value: DataType::String(s("x")), expires_at_ms: Some(100), last_accessed_ms: 0 }),
        (s("live"), Entry { value: DataType::String(s("y")), expires_at_ms: Some(500), last_accessed_ms: 0 }),
        (s("nan"), Entry { value: DataType::ZSet(bad), expires_at_ms: None, last_accessed_ms: 0 }),
        (s("neg"), Entry { value: DataType::String(s("z")), expires_at_ms: Some(-5), last_accessed_ms: 0 }),
    ];
    let snap = Snapshot { entries };
    let mut st = KvStore::new(10_000);
    st.restore_at(&snap, 100);
    assert_eq!(st.get_at("old", 100), Ok(None));
    assert_eq!(st.get_at("live", 100), Ok(Some(s("y"))));
    assert_eq!(st.zcard_at("nan", 100), Ok(0));
    assert_eq!(st.stored_len(), Some(1));
    assert!(!snap.entries[2].1.value.check());
}

#[test]
fn law_read_after_write() {
    let mut st = KvStore::new(10_000);
    st.set_at(s("k"), s("v"), Some(1_000), 0).unwrap();
    assert_eq!(st.get_at("k", 999), Ok(Some(s("v"))));
    assert_eq!(st.get_at("k", 1_000), Ok(None));
}

#[test]
fn law_delete_then_absent() {
    let mut st = KvStore::new(10_000);
    st.set_at(s("k"), s("v"), None, 0).unwrap();
    st.set_at(s("other"), s("w"), None, 0).unwrap();
    assert_eq!(st.del(&[s("k")]), 1);
    assert!(!st.key_exists_at("k", 0));
    assert_eq!(st.get_at("other", 0), Ok(Some(s("w"))));
}

#[test]
fn law_counter_after_set() {
    let mut st = KvStore::new(10_000);
    st.set_at(s("n"), s("-12"), None, 0).unwrap();
    assert_eq!(st.incr_by_at("n", 20, 0), Ok(8));
    assert_eq!(st.get_at("n", 0), Ok(Some(s("8"))));
}

#[test]
fn law_persist_and_expire() {
    let mut st = KvStore::new(10_000);
    st.set_at(s("k"), s("v"), Some(100), 0).unwrap();
    assert!(st.persist_at("k", 10));
    assert_eq!(st.ttl_at("k", 10_000), -1);
    assert_eq!(st.expire_at("k", 300, 20), Ok(true));
    assert_eq!(st.pttl_at("k", 20), 300);
    assert_eq!(st.pttl_at("k", 319), 1);
    assert_eq!(st.pttl_at("k", 320), -2);
}

#[test]
fn law_rename_moves() {
    let mut st = KvStore::new(10_000);
    st.list_push_at(s("from"), s("x"), true, 0).unwrap();
    st.set_at(s("to"), s("old"), None, 0).unwrap();
    assert_eq!(st.rename_at("from", s("to"), 0), Ok(()));
    assert_eq!(st.lrange_at("to", 0, -1, 0), Ok(vec![s("x")]));
    assert!(!st.key_exists_at("from", 0));
}

#[test]
fn law_push_then_pop_same_end() {
    let mut st = KvStore::new(10_000);
    st.list_push_at(s("l"), s("a"), false, 0).unwrap();
    st.list_push_at(s("l"), s("b"), true, 0).unwrap();
    assert_eq!(st.list_pop_at("l", true, 0), Ok(Some(s("b"))));
    st.list_push_at(s("l"), s("c"), false, 0).unwrap();
    assert_eq!(st.list_pop_at("l", false, 0), Ok(Some(s("c"))));
    assert_eq!(st.lrange_at("l", 0, -1, 0), Ok(vec![s("a")]));
}

#[test]
fn law_member_after_add() {
    let mut st = KvStore::new(10_000);
    st.hset_at(s("h"), s("f"), s("v"), 0).unwrap();
    assert_eq!(st.hget_at("h", "f", 0), Ok(Some(s("v"))));
    st.sadd_at(s("s"), &[s("x"), s("y")], 0).unwrap();
    assert_eq!(st.sismember_at("s", "y", 0), Ok(true));
    st.zadd_at(s("z"), &[(1.0f64.to_bits(), s("m")), (4.0f64.to_bits(), s("m"))], 0).unwrap();
    assert_eq!(st.zscore_at("z", "m", 0), Ok(Some(4.0f64.to_bits())));
    st.zset_put_score_at(s("z"), s("m"), 9.0f64.to_bits(), 0).unwrap();
    assert_eq!(st.zscore_at("z", "m", 0), Ok(Some(9.0f64.to_bits())));
}

#[test]
fn law_zrange_sorted() {
    let mut st = KvStore::new(10_000);
    let scores = [5.0f64, -1.0, 3.25, 3.25, 0.0];
    let names = ["e", "a", "d", "c", "b"];
    let pairs: Vec<(u64, String)> = scores.iter().zip(names.iter()).map(|(x, n)| (x.to_bits(), s(n))).collect();
    st.zadd_at(s("z"), &pairs, 0).unwrap();
    let out = st.zrange_at("z", 0, -1, false, 0).unwrap();
    let got: Vec<(String, f64)> = out.into_iter().map(|(m, b)| (m, f64::from_bits(b))).collect();
    assert_eq!(got, vec![(s("a"), -1.0), (s("b"), 0.0), (s("c"), 3.25), (s("d"), 3.25), (s("e"), 5.0)]);
}

#[test]
fn law_flush_then_empty() {
    let mut st = KvStore::new(10_000);
    st.set_at(s("a"), s("1"), None, 0).unwrap();
    st.flush_all();
    assert_eq!(st.db_size_at(0), 0);
    assert_eq!(st.get_at("a", 0), Ok(None));
}

#[test]
fn law_purge_keeps_live() {
    let mut st = KvStore::new(10_000);
    st.set_at(s("a"), s("1"), Some(5), 0).unwrap();
    st.set_at(s("b"), s("2"), None, 0).unwrap();
    assert_eq!(st.purge_expired_at(5), 1);
    assert_eq!(st.get_at("b", 5), Ok(Some(s("2"))));
    assert_eq!(st.stored_len(), Some(1));
}

#[test]
fn wrong_type_after_other_write() {
    let mut st = KvStore::new(10_000);
    st.sadd_at(s("s"), &[s("a")], 0).unwrap();
    assert_eq!(st.list_push_at(s("s"), s("x"), true, 0), Err(KvError::WrongType));
    assert_eq!(st.zrem_at("s", &[s("a")], 0), Err(KvError::WrongType));
}

#[test]
fn law_snapshot_loaded_later() {
    let mut st = KvStore::new(10_000);
    st.set_at(s("a"), s("1"), None, 100).unwrap();
    st.set_at(s("b"), s("2"), Some(50), 100).unwrap();
    let snap = st.snapshot_at(120);
    assert_eq!(snap.entries.len(), 2);
    // Loaded after "b" has expired: only "a" comes back.
    let mut back = KvStore::new(10_000);
    back.restore_at(&snap, 200);
    assert_eq!(back.get_at("a", 200), Ok(Some(s("1"))));
    assert_eq!(back.get_at("b", 200), Ok(None));
    assert_eq!(back.db_size_at(200), 1);
}

#[test]
fn law_push_then_pop_later() {
    let mut st = KvStore::new(10_000);
    st.list_push_at(s("l"), s("a"), false, 10).unwrap();
    st.list_push_at(s("l"), s("b"), true, 20).unwrap();
    assert_eq!(st.list_pop_at("l", true, 30), Ok(Some(s("b"))));
    assert_eq!(st.lrange_at("l", 0, -1, 30), Ok(vec![s("a")]));
}

#[test]
fn law_error_lines_distinct() {
    let all = [
        KvError::WrongType,
        KvError::NotInteger,
        KvError::Overflow,
        KvError::NotFound,
        KvError::SyntaxError,
        KvError::InvalidExpiry,
    ];
    for (i, a) in all.iter().enumerate() {
        let ra = a.to_resp();
        assert!(ra.starts_with('-') && ra.ends_with("\r\n"));
        assert_eq!(ra.matches('\n').count(), 1);
        for b in &all[i + 1..] {
            assert_ne!(ra, b.to_resp());
        }
    }
}
