//! Replies in the Redis serialization protocol (RESP).
use vstd::prelude::*;
use vstd::string::StringSliceAdditionalSpecFns;
use crate::error::{KvError, KvResult, error_reply};
use crate::seqs::string_seq;
use crate::strings::opt_strings;
use crate::text::{decimal, i64_to_string, lower_case, push_str, to_lowercase, usize_to_string};

verus! {

/// `\r\n`.
pub open spec fn crlf() -> Seq<char> {
    seq!['\r', '\n']
}

/// An integer reply.
pub open spec fn int_reply(v: int) -> Seq<char> {
    seq![':'] + decimal(v) + crlf()
}

/// A generic error reply.
pub open spec fn err_reply(msg: Seq<char>) -> Seq<char> {
    "-ERR "@ + msg + crlf()
}

/// A simple string reply.
pub open spec fn simple_reply(msg: Seq<char>) -> Seq<char> {
    seq!['+'] + msg + crlf()
}

/// The length in bytes of the UTF-8 encoding of a text, as `str::len`
/// gives it.
pub open spec fn byte_len(s: Seq<char>) -> usize {
    vstd::utf8::encode_utf8(s).len() as usize
}

/// A bulk string reply: the length in bytes, then the text.
pub open spec fn bulk_reply(val: Seq<char>) -> Seq<char> {
    seq!['$'] + decimal(byte_len(val) as int) + crlf() + val + crlf()
}

/// The bulk replies of `items`, one after the other.
pub open spec fn bulks(items: Seq<Seq<char>>) -> Seq<char>
    decreases items.len(),
{
    if items.len() == 0 {
        Seq::empty()
    } else {
        bulks(items.drop_last()) + bulk_reply(items.last())
    }
}

/// An array reply of bulk strings.
pub open spec fn array_reply(items: Seq<Seq<char>>) -> Seq<char> {
    seq!['*'] + decimal(items.len() as int) + crlf() + bulks(items)
}

/// The nil bulk reply.
pub open spec fn nil_reply() -> Seq<char> {
    "$-1\r\n"@
}

/// A bulk reply for a value, nil for none.
pub open spec fn opt_bulk_reply(v: Option<Seq<char>>) -> Seq<char> {
    match v {
        Some(s) => bulk_reply(s),
        None => nil_reply(),
    }
}

/// The `+OK` reply.
pub open spec fn ok_reply() -> Seq<char> {
    "+OK\r\n"@
}

/// The reply to a command called with the wrong number of arguments.
pub open spec fn wrong_args(cmd: Seq<char>) -> Seq<char> {
    err_reply("wrong number of arguments for '"@ + lower_case(cmd) + "' command"@)
}

/// The reply for a result: `ok` for success, else the error line.
pub open spec fn kv_ok_reply(r: KvResult<()>) -> Seq<char> {
    match r {
        Ok(_) => ok_reply(),
        Err(e) => error_reply(e),
    }
}

/// The reply for an integer result.
pub open spec fn kv_int_reply(r: KvResult<i64>) -> Seq<char> {
    match r {
        Ok(v) => int_reply(v as int),
        Err(e) => error_reply(e),
    }
}

/// The reply for a count, sent as an `i64`.
pub open spec fn kv_count_reply(r: KvResult<usize>) -> Seq<char> {
    match r {
        Ok(n) => int_reply((n as i64) as int),
        Err(e) => error_reply(e),
    }
}

/// The reply for a yes or no result: 1 or 0.
pub open spec fn kv_bool_reply(r: KvResult<bool>) -> Seq<char> {
    match r {
        Ok(b) => int_reply(if b { 1 } else { 0 }),
        Err(e) => error_reply(e),
    }
}

/// The reply for an optional string result.
pub open spec fn kv_opt_reply(r: KvResult<Option<String>>) -> Seq<char> {
    match r {
        Ok(Some(s)) => bulk_reply(s@),
        Ok(None) => nil_reply(),
        Err(e) => error_reply(e),
    }
}

/// The reply for a list of strings.
pub open spec fn kv_array_reply(r: KvResult<Vec<String>>) -> Seq<char> {
    match r {
        Ok(v) => array_reply(string_seq(v@)),
        Err(e) => error_reply(e),
    }
}

/// Bulk or nil replies for optional values, one after the other.
pub open spec fn opt_bulks(items: Seq<Option<Seq<char>>>) -> Seq<char>
    decreases items.len(),
{
    if items.len() == 0 {
        Seq::empty()
    } else {
        opt_bulks(items.drop_last()) + opt_bulk_reply(items.last())
    }
}

/// An array reply of optional values.
pub open spec fn opt_array_reply(items: Seq<Option<Seq<char>>>) -> Seq<char> {
    seq!['*'] + decimal(items.len() as int) + crlf() + opt_bulks(items)
}

pub fn resp_ok() -> (r: &'static str)
    ensures
        r@ == "+OK\r\n"@,
{
    "+OK\r\n"
}

pub fn resp_pong() -> (r: &'static str)
    ensures
        r@ == "+PONG\r\n"@,
{
    "+PONG\r\n"
}

pub fn resp_queued() -> (r: &'static str)
    ensures
        r@ == "+QUEUED\r\n"@,
{
    "+QUEUED\r\n"
}

pub fn resp_nil() -> (r: &'static str)
    ensures
        r@ == nil_reply(),
{
    "$-1\r\n"
}

pub fn resp_empty_array() -> (r: &'static str)
    ensures
        r@ == "*0\r\n"@,
{
    "*0\r\n"
}

/// `:{v}\r\n`.
pub fn resp_int(v: i64) -> (r: String)
    ensures
        r@ == int_reply(v as int),
{
    let mut out = ":".to_owned();
    let digits = i64_to_string(v);
    push_str(&mut out, digits.as_str());
    push_str(&mut out, "\r\n");
    proof {
        reveal_strlit(":");
        reveal_strlit("\r\n");
    }
    assert(out@ =~= int_reply(v as int));
    out
}

/// `-ERR {msg}\r\n`.
pub fn resp_err(msg: &str) -> (r: String)
    ensures
        r@ == err_reply(msg@),
{
    let mut out = "-ERR ".to_owned();
    push_str(&mut out, msg);
    push_str(&mut out, "\r\n");
    proof {
        reveal_strlit("\r\n");
    }
    assert(out@ =~= err_reply(msg@));
    out
}

/// `+{msg}\r\n`.
pub fn resp_simple(msg: &str) -> (r: String)
    ensures
        r@ == simple_reply(msg@),
{
    let mut out = "+".to_owned();
    push_str(&mut out, msg);
    push_str(&mut out, "\r\n");
    proof {
        reveal_strlit("+");
        reveal_strlit("\r\n");
    }
    assert(out@ =~= simple_reply(msg@));
    out
}

/// `${byte length}\r\n{val}\r\n`.
pub fn resp_bulk(val: &str) -> (r: String)
    ensures
        r@ == bulk_reply(val@),
{
    let mut out = "$".to_owned();
    let n = usize_to_string(val.len());
    push_str(&mut out, n.as_str());
    push_str(&mut out, "\r\n");
    push_str(&mut out, val);
    push_str(&mut out, "\r\n");
    proof {
        reveal_strlit("$");
        reveal_strlit("\r\n");
    }
    assert(out@ =~= bulk_reply(val@));
    out
}

/// `*{n}\r\n` followed by a bulk reply per item.
pub fn resp_array(items: &[String]) -> (r: String)
    ensures
        r@ == array_reply(string_seq(items@)),
{
    let ghost its = string_seq(items@);
    let mut out = "*".to_owned();
    let n = usize_to_string(items.len());
    push_str(&mut out, n.as_str());
    push_str(&mut out, "\r\n");
    proof {
        reveal_strlit("*");
        reveal_strlit("\r\n");
    }
    let ghost head = seq!['*'] + decimal(items@.len() as int) + crlf();
    assert(out@ =~= head);
    let mut i: usize = 0;
    assert(bulks(its.take(0)) =~= Seq::<char>::empty());
    while i < items.len()
        invariant
            i <= items@.len(),
            its == string_seq(items@),
            out@ == head + bulks(its.take(i as int)),
        decreases items@.len() - i,
    {
        let b = resp_bulk(items[i].as_str());
        push_str(&mut out, b.as_str());
        assert(its.take(i + 1).drop_last() =~= its.take(i as int));
        assert(its.take(i + 1).last() == items@[i as int]@);
        assert(out@ =~= head + bulks(its.take(i + 1)));
        i = i + 1;
    }
    assert(its.take(items@.len() as int) =~= its);
    out
}

/// A bulk reply for a value, nil for none.
pub fn resp_opt_bulk(v: Option<String>) -> (r: String)
    ensures
        r@ == opt_bulk_reply(match v {
            Some(s) => Some(s@),
            None => None,
        }),
{
    match v {
        Some(s) => resp_bulk(s.as_str()),
        None => resp_nil().to_owned(),
    }
}

/// The reply for a store result: `f` of the value, or the error line.
pub fn resp_kv_result<T, F>(r: Result<T, KvError>, f: F) -> (out: String) where F: FnOnce(T) -> String
    requires
        r matches Ok(v) ==> f.requires((v,)),
    ensures
        match r {
            Ok(v) => f.ensures((v,), out),
            Err(e) => out@ == error_reply(e),
        },
{
    match r {
        Ok(v) => f(v),
        Err(e) => e.to_resp(),
    }
}

/// The `+OK` reply as an owned string.
pub fn ok_string() -> (r: String)
    ensures
        r@ == ok_reply(),
{
    resp_ok().to_owned()
}

/// The wrong-number-of-arguments reply for a command.
pub fn wrong_args_reply(cmd: &str) -> (r: String)
    ensures
        r@ == wrong_args(cmd@),
{
    let lc = to_lowercase(cmd);
    let mut msg = "wrong number of arguments for '".to_owned();
    push_str(&mut msg, lc.as_str());
    push_str(&mut msg, "' command");
    resp_err(msg.as_str())
}

/// Renders a result without a value.
pub fn kv_ok(r: KvResult<()>) -> (s: String)
    ensures
        s@ == kv_ok_reply(r),
{
    match r {
        Ok(_) => ok_string(),
        Err(e) => e.to_resp(),
    }
}

/// Renders an integer result.
pub fn kv_int(r: KvResult<i64>) -> (s: String)
    ensures
        s@ == kv_int_reply(r),
{
    match r {
        Ok(v) => resp_int(v),
        Err(e) => e.to_resp(),
    }
}

/// Renders a count result.
pub fn kv_count(r: KvResult<usize>) -> (s: String)
    ensures
        s@ == kv_count_reply(r),
{
    match r {
        Ok(n) => resp_int(n as i64),
        Err(e) => e.to_resp(),
    }
}

/// Renders a yes or no result.
pub fn kv_bool(r: KvResult<bool>) -> (s: String)
    ensures
        s@ == kv_bool_reply(r),
{
    match r {
        Ok(b) => resp_int(if b {
            1
        } else {
            0
        }),
        Err(e) => e.to_resp(),
    }
}

/// Renders an optional string result.
pub fn kv_opt(r: KvResult<Option<String>>) -> (s: String)
    ensures
        s@ == kv_opt_reply(r),
{
    match r {
        Ok(v) => resp_opt_bulk(v),
        Err(e) => e.to_resp(),
    }
}

/// Renders a list of strings.
pub fn kv_array(r: KvResult<Vec<String>>) -> (s: String)
    ensures
        s@ == kv_array_reply(r),
{
    match r {
        Ok(v) => resp_array(v.as_slice()),
        Err(e) => e.to_resp(),
    }
}

/// `*{n}\r\n` followed by a bulk or nil reply per value.
pub fn resp_opt_array(vals: &Vec<Option<String>>) -> (r: String)
    ensures
        r@ == opt_array_reply(opt_strings(vals@)),
{
    let ghost its = opt_strings(vals@);
    let mut out = "*".to_owned();
    let n = usize_to_string(vals.len());
    push_str(&mut out, n.as_str());
    push_str(&mut out, "\r\n");
    proof {
        reveal_strlit("*");
        reveal_strlit("\r\n");
    }
    let ghost head = seq!['*'] + decimal(vals@.len() as int) + crlf();
    assert(out@ =~= head);
    let mut i: usize = 0;
    assert(opt_bulks(its.take(0)) =~= Seq::<char>::empty());
    while i < vals.len()
        invariant
            i <= vals@.len(),
            its == opt_strings(vals@),
            out@ == head + opt_bulks(its.take(i as int)),
        decreases vals@.len() - i,
    {
        let b = resp_opt_bulk(vals[i].clone());
        push_str(&mut out, b.as_str());
        assert(its.take(i + 1).drop_last() =~= its.take(i as int));
        assert(its.take(i + 1).last() == its[i as int]);
        assert(out@ =~= head + opt_bulks(its.take(i + 1)));
        i = i + 1;
    }
    assert(its.take(vals@.len() as int) =~= its);
    out
}

/// The text of `a` followed by that of `b`.
pub fn concat_str(a: &str, b: &str) -> (r: String)
    ensures
        r@ == a@ + b@,
{
    let mut out = a.to_owned();
    push_str(&mut out, b);
    out
}

} // verus!
