//! Reading requests off the wire: the decisions the request reader makes
//! on each line it reads.
//!
//! A request is either an array of bulk strings (`*n`, then `n` times a
//! `$len` line followed by `len` bytes and CRLF) or an inline command, one
//! line of words separated by white space. The reader reads a line and asks
//! `frame_start` what it is; for an array it reads each `$len` line and asks
//! `bulk_len` how many bytes follow.
use vstd::prelude::*;
use crate::seqs::string_seq;
use crate::text::{all_digits, digits_value};
use vstd::string::StringSliceAdditionalSpecFns;
use vstd::utf8::{encode_scalar, encode_utf8, is_char_boundary, pop_first_scalar};
use crate::glob::chars_of;

verus! {

/// `s` without the carriage returns and line feeds at its end.
pub open spec fn trim_newlines(s: Seq<char>) -> Seq<char>
    decreases s.len(),
{
    if s.len() > 0 && (s.last() == '\r' || s.last() == '\n') {
        trim_newlines(s.drop_last())
    } else {
        s
    }
}

/// The characters with the Unicode property White_Space.
pub open spec fn is_white_space(c: char) -> bool {
    ||| '\u{9}' <= c <= '\u{d}'
    ||| c == ' '
    ||| c == '\u{85}'
    ||| c == '\u{a0}'
    ||| c == '\u{1680}'
    ||| '\u{2000}' <= c <= '\u{200a}'
    ||| c == '\u{2028}'
    ||| c == '\u{2029}'
    ||| c == '\u{202f}'
    ||| c == '\u{205f}'
    ||| c == '\u{3000}'
}

/// The words of `s`: its longest runs of characters that are not white
/// space, in order.
pub open spec fn words(s: Seq<char>) -> Seq<Seq<char>>
    decreases s.len(),
{
    if s.len() == 0 {
        Seq::empty()
    } else {
        let w = words(s.drop_last());
        if is_white_space(s.last()) {
            w
        } else if s.len() >= 2 && !is_white_space(s[s.len() - 2]) {
            w.drop_last().push(w.last().push(s.last()))
        } else {
            w.push(seq![s.last()])
        }
    }
}

/// What `s.parse::<usize>()` gives: the value when `s` is an optional `+`
/// followed by decimal digits, and the value fits in a `usize`.
pub open spec fn parse_usize_spec(s: Seq<char>) -> Option<usize> {
    let v = if s.len() > 0 && s[0] == '+' && all_digits(s.drop_first()) {
        Some(digits_value(s.drop_first()))
    } else if all_digits(s) {
        Some(digits_value(s))
    } else {
        None::<int>
    };
    match v {
        Some(n) => if n <= usize::MAX { Some(n as usize) } else { None },
        None => None,
    }
}

/// Encoding a concatenation encodes each part in turn, and the end of the
/// first part is a character boundary of the whole.
proof fn lemma_encode_concat(a: Seq<char>, b: Seq<char>)
    ensures
        encode_utf8(a + b) == encode_utf8(a) + encode_utf8(b),
        is_char_boundary(encode_utf8(a + b), encode_utf8(a).len() as int),
    decreases a.len(),
{
    broadcast use vstd::utf8::encode_utf8_valid_utf8;

    if a.len() == 0 {
        assert(a + b =~= b);
    } else {
        let c = a + b;
        assert(c[0] == a[0]);
        assert(c.drop_first() =~= a.drop_first() + b);
        lemma_encode_concat(a.drop_first(), b);
        lemma_first_byte(a);
        lemma_first_byte(c);
        vstd::utf8::encode_utf8_first_scalar(c);
        let bytes = encode_utf8(c);
        assert(pop_first_scalar(bytes) =~= encode_utf8(c.drop_first()));
        assert(encode_utf8(c) =~= encode_utf8(a) + encode_utf8(b));
    }
}

/// A run of carriage returns and line feeds takes one byte per character.
proof fn lemma_newlines_bytes(t: Seq<char>)
    requires
        forall|i: int| 0 <= i < t.len() ==> #[trigger] t[i] == '\r' || t[i] == '\n',
    ensures
        encode_utf8(t).len() == t.len(),
    decreases t.len(),
{
    if t.len() > 0 {
        assert(('\r' as u32) == 13 && ('\n' as u32) == 10);
        lemma_first_byte(t);
        assert forall|i: int| 0 <= i < t.drop_first().len() implies #[trigger] t.drop_first()[i] == '\r'
            || t.drop_first()[i] == '\n' by {
            assert(t.drop_first()[i] == t[i + 1]);
        }
        lemma_newlines_bytes(t.drop_first());
    }
}

/// A text without the carriage returns and line feeds at its end.
fn trim_line_end(s: &str) -> (r: String)
    ensures
        r@ == trim_newlines(s@),
{
    let cs = chars_of(s);
    let mut t: usize = cs.len();
    assert(s@.take(cs@.len() as int) =~= s@);
    while t > 0 && (cs[t - 1] == '\r' || cs[t - 1] == '\n')
        invariant
            cs@ == s@,
            t <= cs@.len(),
            trim_newlines(s@) == trim_newlines(s@.take(t as int)),
            forall|i: int| t <= i < cs@.len() ==> #[trigger] cs@[i] == '\r' || cs@[i] == '\n',
        decreases t,
    {
        assert(s@.take(t as int).drop_last() =~= s@.take(t - 1));
        t = t - 1;
    }
    let ghost p = s@.take(t as int);
    let ghost q = s@.skip(t as int);
    assert(trim_newlines(s@) == p);
    assert(p + q =~= s@);
    assert forall|i: int| 0 <= i < q.len() implies #[trigger] q[i] == '\r' || q[i] == '\n' by {
        assert(q[i] == cs@[t + i]);
    }
    proof {
        lemma_encode_concat(p, q);
        lemma_newlines_bytes(q);
    }
    assert(q.len() == cs@.len() - t);
    assert(s.spec_bytes() == encode_utf8(p + q));
    assert(s.spec_bytes().len() == encode_utf8(p).len() + q.len());
    let total = s.as_bytes().len();
    let n = total - (cs.len() - t);
    assert(n == encode_utf8(p).len());
    let (head, _) = s.split_at(n);
    proof {
        assert(head.spec_bytes() =~= encode_utf8(p));
        vstd::utf8::encode_utf8_decode_utf8(head@);
        vstd::utf8::encode_utf8_decode_utf8(p);
    }
    head.to_owned()
}

/// Calls `str::split_whitespace`, whose documentation splits the text at
/// runs of characters with the Unicode property White_Space and yields the
/// non-empty pieces in order.
#[verifier::external_body]
fn split_words(s: &str) -> (r: Vec<String>)
    ensures
        string_seq(r@) == words(s@),
{
    s.split_whitespace().map(|w| w.to_string()).collect()
}

/// Calls `<usize as FromStr>::from_str` (`str::parse::<usize>`), whose
/// documentation accepts an optional `+` followed by ASCII digits for a value
/// that fits.
#[verifier::external_body]
fn parse_usize(s: &str) -> (r: Option<usize>)
    ensures
        r == parse_usize_spec(s@),
{
    s.parse::<usize>().ok()
}

/// What the first line of a request announces.
pub enum FrameStart {
    /// An empty line: no request.
    Skip,
    /// An array of this many bulk strings follows.
    Array(usize),
    /// A whole inline request, as its words.
    Inline(Vec<String>),
    /// A malformed line, with the reason.
    Fail(String),
}

/// The model of `FrameStart`.
pub enum FrameStartView {
    Skip,
    Array(usize),
    Inline(Seq<Seq<char>>),
    Fail(Seq<char>),
}

impl View for FrameStart {
    type V = FrameStartView;

    open spec fn view(&self) -> FrameStartView {
        match self {
            FrameStart::Skip => FrameStartView::Skip,
            FrameStart::Array(n) => FrameStartView::Array(*n),
            FrameStart::Inline(ws) => FrameStartView::Inline(string_seq(ws@)),
            FrameStart::Fail(m) => FrameStartView::Fail(m@),
        }
    }
}

/// What a request's first line announces, ignoring the line end.
pub open spec fn frame_start_spec(line: Seq<char>) -> FrameStartView {
    let t = trim_newlines(line);
    if t.len() == 0 {
        FrameStartView::Skip
    } else if t[0] == '*' {
        match parse_usize_spec(t.drop_first()) {
            Some(n) => FrameStartView::Array(n),
            None => FrameStartView::Fail("bad array length"@),
        }
    } else {
        FrameStartView::Inline(words(t))
    }
}

/// How many bytes a bulk header line announces, or why it is malformed.
pub open spec fn bulk_len_spec(hdr: Seq<char>) -> Result<usize, Seq<char>> {
    let t = trim_newlines(hdr);
    if t.len() == 0 || t[0] != '$' {
        Err("expected bulk string"@)
    } else {
        match parse_usize_spec(t.drop_first()) {
            Some(n) => Ok(n),
            None => Err("bad bulk len"@),
        }
    }
}

/// The UTF-8 encoding of a text starts with that of its first character,
/// which is one byte for an ASCII character and a byte of 128 or more
/// otherwise.
proof fn lemma_first_byte(t: Seq<char>)
    requires
        t.len() > 0,
    ensures
        encode_utf8(t) == encode_scalar(t[0] as u32) + encode_utf8(t.drop_first()),
        encode_utf8(t).len() > 0,
        (t[0] as u32) < 128 ==> encode_utf8(t)[0] == (t[0] as u32) as u8 && encode_scalar(t[0] as u32).len() == 1,
        (t[0] as u32) >= 128 ==> encode_utf8(t)[0] >= 128,
{
    let s = t[0] as u32;
    vstd::utf8::char_is_scalar(t[0]);
    if s <= 0x7F {
        assert((s & 0x7F) as u8 == s as u8) by (bit_vector)
            requires
                s <= 0x7F,
        ;
    } else if s <= 0x7FF {
        assert(0xC0u8 | ((s >> 6) & 0x1F) as u8 >= 128) by (bit_vector);
    } else if s <= 0xFFFF {
        assert(0xE0u8 | ((s >> 12) & 0x0F) as u8 >= 128) by (bit_vector);
    } else {
        assert(0xF0u8 | ((s >> 18) & 0x7) as u8 >= 128) by (bit_vector);
    }
}

/// The text after the first character of a text that starts with an ASCII
/// character.
fn after_first(t: &str) -> (r: &str)
    requires
        t@.len() > 0,
        (t@[0] as u32) < 128,
    ensures
        r@ == t@.drop_first(),
{
    proof {
        lemma_first_byte(t@);
        vstd::utf8::encode_utf8_valid_utf8(t@);
        reveal_with_fuel(vstd::utf8::is_char_boundary, 2);
        assert(vstd::utf8::is_char_boundary(t.spec_bytes(), 1));
    }
    let (_, rest) = t.split_at(1);
    proof {
        assert(rest.spec_bytes() =~= encode_utf8(t@.drop_first()));
        vstd::utf8::encode_utf8_decode_utf8(rest@);
        vstd::utf8::encode_utf8_decode_utf8(t@.drop_first());
    }
    rest
}

/// Whether the first character of a non-empty text is the ASCII character
/// `c`.
fn first_is(t: &str, c: u8) -> (r: bool)
    requires
        t@.len() > 0,
        c < 128,
    ensures
        r == (t@[0] as u32 == c as u32),
{
    let b = t.as_bytes();
    proof {
        lemma_first_byte(t@);
    }
    b[0] == c
}

/// Reads the first line of a request.
pub fn frame_start(line: &str) -> (r: FrameStart)
    ensures
        r@ == frame_start_spec(line@),
{
    let t = trim_line_end(line);
    let ts = t.as_str();
    if ts.is_empty() {
        return FrameStart::Skip;
    }
    proof {
        if ts@.len() > 0 {
            vstd::utf8::char_u32_cast(ts@[0], ts@[0] as u32);
            assert(('*' as u32) == 42);
        }
    }
    if first_is(ts, 42) {
        match parse_usize(after_first(ts)) {
            Some(n) => FrameStart::Array(n),
            None => FrameStart::Fail("bad array length".to_owned()),
        }
    } else {
        FrameStart::Inline(split_words(ts))
    }
}

/// Reads a bulk header line: the number of bytes that follow it.
pub fn bulk_len(hdr: &str) -> (r: Result<usize, String>)
    ensures
        match r {
            Ok(n) => bulk_len_spec(hdr@) == Ok::<usize, Seq<char>>(n),
            Err(m) => bulk_len_spec(hdr@) == Err::<usize, Seq<char>>(m@),
        },
{
    let t = trim_line_end(hdr);
    let ts = t.as_str();
    proof {
        if ts@.len() > 0 {
            vstd::utf8::char_u32_cast(ts@[0], ts@[0] as u32);
            assert(('$' as u32) == 36);
        }
    }
    if ts.is_empty() || !first_is(ts, 36) {
        return Err("expected bulk string".to_owned());
    }
    match parse_usize(after_first(ts)) {
        Some(n) => Ok(n),
        None => Err("bad bulk len".to_owned()),
    }
}

} // verus!
