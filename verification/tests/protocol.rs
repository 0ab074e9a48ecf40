use kivo::error::KvError;
use kivo::frame::{FrameStart, bulk_len, frame_start};
use kivo::glob::glob_match;
use kivo::resp::{
    resp_array, resp_bulk, resp_empty_array, resp_err, resp_int, resp_kv_result, resp_nil, resp_ok, resp_opt_bulk,
    resp_pong, resp_queued, resp_simple,
};
use kivo::session::{Session, Step, build_info};

fn words(ws: &[&str]) -> Vec<String> {
    ws.iter().map(|w| w.to_string()).collect()
}

fn reply_of(step: Step) -> String {
    match step {
        Step::Reply(r) => r,
        _ => panic!("expected a reply"),
    }
}

#[test]
fn resp_encodings() {
    assert_eq!(resp_ok(), "+OK\r\n");
    assert_eq!(resp_pong(), "+PONG\r\n");
    assert_eq!(resp_queued(), "+QUEUED\r\n");
    assert_eq!(resp_nil(), "$-1\r\n");
    assert_eq!(resp_empty_array(), "*0\r\n");
    assert_eq!(resp_int(42), ":42\r\n");
    assert_eq!(resp_int(-7), ":-7\r\n");
    assert_eq!(resp_err("boom"), "-ERR boom\r\n");
    assert_eq!(resp_simple("OK"), "+OK\r\n");
    assert_eq!(resp_bulk("hello"), "$5\r\nhello\r\n");
    assert_eq!(resp_bulk("\u{e9}t\u{e9}"), "$5\r\n\u{e9}t\u{e9}\r\n");
    assert_eq!(resp_bulk(""), "$0\r\n\r\n");
    assert_eq!(resp_array(&words(&["a", "bc"])), "*2\r\n$1\r\na\r\n$2\r\nbc\r\n");
    assert_eq!(resp_array(&[]), "*0\r\n");
    assert_eq!(resp_opt_bulk(None), "$-1\r\n");
    assert_eq!(resp_opt_bulk(Some("x".to_string())), "$1\r\nx\r\n");
}

#[test]
fn kv_result_rendering() {
    assert_eq!(resp_kv_result(Ok::<i64, KvError>(3), |v| resp_int(v)), ":3\r\n");
    assert_eq!(
        resp_kv_result(Err::<i64, KvError>(KvError::WrongType), |v| resp_int(v)),
        "-WRONGTYPE Operation against a key holding the wrong kind of value\r\n"
    );
}

#[test]
fn error_lines() {
    assert_eq!(KvError::NotInteger.to_resp(), "-ERR value is not an integer or out of range\r\n");
    assert_eq!(KvError::Overflow.to_resp(), "-ERR increment or decrement would overflow\r\n");
    assert_eq!(KvError::NotFound.to_resp(), "-ERR no such key\r\n");
    assert_eq!(KvError::SyntaxError.to_resp(), "-ERR syntax error\r\n");
    assert_eq!(KvError::InvalidExpiry.to_resp(), "-ERR invalid expire time in command\r\n");
}

#[test]
fn glob_patterns() {
    assert!(glob_match("h?llo", "hello"));
    assert!(glob_match("h*o", "hello"));
    assert!(glob_match("*", ""));
    assert!(glob_match("*", "anything"));
    assert!(!glob_match("a", "b"));
    assert!(!glob_match("?", ""));
    assert!(glob_match("a*b*c", "axxbyyc"));
    assert!(!glob_match("a*b*c", "axxbyy"));
    assert!(glob_match("user:*", "user:"));
    // `?` stands for one character, however many bytes it takes.
    assert!(glob_match("h?", "h\u{e9}"));
    assert!(!glob_match("h??", "h\u{e9}"));
}

#[test]
fn frame_lines() {
    assert!(matches!(frame_start("*3\r\n"), FrameStart::Array(3)));
    assert!(matches!(frame_start("*+2\n"), FrameStart::Array(2)));
    assert!(matches!(frame_start("\r\n"), FrameStart::Skip));
    match frame_start("*x\r\n") {
        FrameStart::Fail(m) => assert_eq!(m, "bad array length"),
        _ => panic!("expected a failure"),
    }
    match frame_start("*-1\r\n") {
        FrameStart::Fail(m) => assert_eq!(m, "bad array length"),
        _ => panic!("expected a failure"),
    }
    match frame_start("  PING \t hello\u{3000}world\r\n") {
        FrameStart::Inline(ws) => assert_eq!(ws, words(&["PING", "hello", "world"])),
        _ => panic!("expected an inline request"),
    }
    assert_eq!(bulk_len("$5\r\n"), Ok(5));
    assert_eq!(bulk_len("$0\r\n"), Ok(0));
    assert_eq!(bulk_len("5\r\n"), Err("expected bulk string".to_string()));
    assert_eq!(bulk_len(""), Err("expected bulk string".to_string()));
    assert_eq!(bulk_len("$-1\r\n"), Err("bad bulk len".to_string()));
    assert_eq!(bulk_len("$\u{e9}\r\n"), Err("bad bulk len".to_string()));
}

#[test]
fn session_auth_gate() {
    let mut s = Session::new("secret");
    assert!(!s.authenticated);
    assert_eq!(reply_of(s.step(words(&["GET", "a"]), "secret")), "-NOAUTH Authentication required.\r\n");
    assert_eq!(
        reply_of(s.step(words(&["AUTH", "nope"]), "secret")),
        "-WRONGPASS invalid username-password pair or user is disabled.\r\n"
    );
    assert_eq!(reply_of(s.step(words(&["auth"]), "secret")), "-ERR wrong number of arguments for 'auth' command\r\n");
    assert_eq!(reply_of(s.step(words(&["auth", "secret"]), "secret")), "+OK\r\n");
    assert!(s.authenticated);
    match s.step(words(&["get", "a"]), "secret") {
        Step::Run(cmd, parts) => {
            assert_eq!(cmd, "GET");
            assert_eq!(parts, words(&["get", "a"]));
        },
        _ => panic!("expected a command to run"),
    }
    let open = Session::new("");
    assert!(open.authenticated);
}

#[test]
fn session_quit_before_auth() {
    let mut s = Session::new("secret");
    assert!(matches!(s.step(words(&["QUIT"]), "secret"), Step::Close(r) if r == "+OK\r\n"));
}

#[test]
fn session_transactions() {
    let mut s = Session::new("");
    assert_eq!(reply_of(s.step(words(&["EXEC"]), "")), "-ERR EXEC without MULTI\r\n");
    assert_eq!(reply_of(s.step(words(&["DISCARD"]), "")), "-ERR DISCARD without MULTI\r\n");
    assert_eq!(reply_of(s.step(words(&["MULTI"]), "")), "+OK\r\n");
    assert_eq!(reply_of(s.step(words(&["MULTI"]), "")), "-ERR MULTI calls can not be nested\r\n");
    assert_eq!(reply_of(s.step(words(&["set", "a", "1"]), "")), "+QUEUED\r\n");
    assert_eq!(reply_of(s.step(words(&["PING"]), "")), "+QUEUED\r\n");
    match s.step(words(&["exec"]), "") {
        Step::RunAll(header, batch) => {
            assert_eq!(header, "*2\r\n");
            assert_eq!(batch.len(), 2);
            assert_eq!(batch[0].0, "SET");
            assert_eq!(batch[0].1, words(&["set", "a", "1"]));
            assert_eq!(batch[1].0, "PING");
        },
        _ => panic!("expected a batch"),
    }
    assert!(!s.in_tx);
    assert_eq!(reply_of(s.step(words(&["MULTI"]), "")), "+OK\r\n");
    assert_eq!(reply_of(s.step(words(&["INCR", "n"]), "")), "+QUEUED\r\n");
    assert_eq!(reply_of(s.step(words(&["DISCARD"]), "")), "+OK\r\n");
    assert!(s.queue.is_empty());
}

#[test]
fn session_connection_commands() {
    let mut s = Session::new("");
    assert_eq!(reply_of(s.step(words(&["PING"]), "")), "+PONG\r\n");
    assert_eq!(reply_of(s.step(words(&["ping", "hello", "world"]), "")), "$11\r\nhello world\r\n");
    assert_eq!(reply_of(s.step(words(&["SELECT", "0"]), "")), "+OK\r\n");
    assert_eq!(reply_of(s.step(words(&["SELECT", "1"]), "")), "-ERR DB index is out of range\r\n");
    assert_eq!(reply_of(s.step(words(&["SELECT"]), "")), "-ERR DB index is out of range\r\n");
    assert_eq!(reply_of(s.step(words(&["COMMAND"]), "")), "*0\r\n");
    assert_eq!(reply_of(s.step(words(&["CONFIG", "get", "x"]), "")), "*0\r\n");
    assert!(matches!(s.step(words(&["CONFIG", "SET", "x"]), ""), Step::Run(c, _) if c == "CONFIG"));
    assert_eq!(reply_of(s.step(words(&["OBJECT", "x"]), "")), "$6\r\nembstr\r\n");
    assert_eq!(reply_of(s.step(words(&["CLIENT", "SETNAME", "x"]), "")), "+OK\r\n");
    assert_eq!(reply_of(s.step(words(&["RESET"]), "")), "+RESET\r\n");
    assert!(matches!(s.step(words(&["INFO"]), ""), Step::Info));
}

#[test]
fn info_report() {
    let body = "# Server\r\nredis_version:7.0.0-kivo\r\nredis_mode:standalone\r\nnos:rust\r\narch_bits:64\r\nuptime_in_seconds:5\r\n\r\n# Clients\r\ntotal_connections_received:2\r\n\r\n# Stats\r\ntotal_commands_processed:10\r\n\r\n# Keyspace\r\ndb0:keys=3,expires=0,avg_ttl=0\r\n";
    assert_eq!(build_info(5, 2, 10, 3), format!("${}\r\n{}\r\n", body.len(), body));
}

#[test]
fn law_headers_read_back() {
    // The header line of a bulk reply announces its byte length.
    let b = resp_bulk("h\u{e9}llo");
    let hdr = &b[..b.find('\n').unwrap() + 1];
    assert_eq!(bulk_len(hdr), Ok("h\u{e9}llo".len()));
    // The header line of an array announces its length.
    let a = resp_array(&["a".to_string(), "b".to_string(), "c".to_string()]);
    let first = &a[..a.find('\n').unwrap() + 1];
    assert!(matches!(frame_start(first), FrameStart::Array(3)));
}
