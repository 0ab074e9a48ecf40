//! Decimal text of integers, and the few std string calls the library makes.
use vstd::prelude::*;
use vstd::string::StringExecFns;

verus! {

/// The character of a decimal digit.
pub open spec fn digit_char(d: int) -> char {
    if d == 0 { '0' }
    else if d == 1 { '1' }
    else if d == 2 { '2' }
    else if d == 3 { '3' }
    else if d == 4 { '4' }
    else if d == 5 { '5' }
    else if d == 6 { '6' }
    else if d == 7 { '7' }
    else if d == 8 { '8' }
    else { '9' }
}

/// The value of a decimal digit character.
pub open spec fn digit_value(c: char) -> int {
    c as int - '0' as int
}

/// Whether `c` is an ASCII decimal digit.
pub open spec fn is_digit(c: char) -> bool {
    '0' <= c && c <= '9'
}

/// The decimal digits of a natural number, without leading zeros.
pub open spec fn digits(n: nat) -> Seq<char>
    decreases n,
{
    if n < 10 {
        seq![digit_char(n as int)]
    } else {
        digits(n / 10).push(digit_char((n % 10) as int))
    }
}

/// The decimal text of an integer, with a leading `-` when negative.
pub open spec fn decimal(n: int) -> Seq<char> {
    if n < 0 {
        seq!['-'] + digits((-n) as nat)
    } else {
        digits(n as nat)
    }
}

/// Whether `s` is a non-empty run of decimal digits.
pub open spec fn all_digits(s: Seq<char>) -> bool {
    s.len() > 0 && forall|i: int| 0 <= i < s.len() ==> is_digit(#[trigger] s[i])
}

/// The number written by a run of decimal digits.
pub open spec fn digits_value(s: Seq<char>) -> int
    decreases s.len(),
{
    if s.len() == 0 {
        0
    } else {
        digits_value(s.drop_last()) * 10 + digit_value(s.last())
    }
}

/// The integer that `s` writes in decimal: an optional `+` or `-`, then one
/// digit or more.
pub open spec fn decimal_value(s: Seq<char>) -> Option<int> {
    if s.len() > 0 && s[0] == '-' && all_digits(s.drop_first()) {
        Some(-digits_value(s.drop_first()))
    } else if s.len() > 0 && s[0] == '+' && all_digits(s.drop_first()) {
        Some(digits_value(s.drop_first()))
    } else if all_digits(s) {
        Some(digits_value(s))
    } else {
        None
    }
}

/// What `s.parse::<i64>()` gives: the value when `s` writes an integer that
/// fits in an `i64`.
pub open spec fn parse_i64_spec(s: Seq<char>) -> Option<i64> {
    match decimal_value(s) {
        Some(v) => if i64::MIN <= v <= i64::MAX {
            Some(v as i64)
        } else {
            None
        },
        None => None,
    }
}

/// Calls `<i64 as FromStr>::from_str` (`str::parse::<i64>`). Its
/// documentation accepts an optional `+` or `-` sign followed by ASCII
/// digits, and refuses anything else or a value outside `i64`.
#[verifier::external_body]
pub(crate) fn parse_i64(s: &str) -> (r: Option<i64>)
    ensures
        r == parse_i64_spec(s@),
{
    s.parse::<i64>().ok()
}

/// Calls `<i64 as ToString>::to_string`: the decimal text of `n`, with a
/// `-` sign when negative and no leading zeros.
#[verifier::external_body]
pub(crate) fn i64_to_string(n: i64) -> (s: String)
    ensures
        s@ == decimal(n as int),
{
    n.to_string()
}

/// Calls `<usize as ToString>::to_string`: the decimal text of `n`.
#[verifier::external_body]
pub(crate) fn usize_to_string(n: usize) -> (s: String)
    ensures
        s@ == decimal(n as int),
{
    n.to_string()
}

/// Calls `<u64 as ToString>::to_string`: the decimal text of `n`.
#[verifier::external_body]
pub(crate) fn u64_to_string(n: u64) -> (s: String)
    ensures
        s@ == decimal(n as int),
{
    n.to_string()
}

/// Appends `t` to `s`.
pub(crate) fn push_str(s: &mut String, t: &str)
    ensures
        final(s)@ == old(s)@ + t@,
{
    s.append(t)
}

/// What `str::to_uppercase` gives: the Unicode upper case of a text.
pub uninterp spec fn upper_case(s: Seq<char>) -> Seq<char>;

/// What `str::to_lowercase` gives: the Unicode lower case of a text.
pub uninterp spec fn lower_case(s: Seq<char>) -> Seq<char>;

/// Calls `str::to_uppercase`. The Unicode case mapping is a function of the
/// text; the contract names it.
#[verifier::external_body]
pub(crate) fn to_uppercase(s: &str) -> (r: String)
    ensures
        r@ == upper_case(s@),
{
    s.to_uppercase()
}

/// Calls `str::to_lowercase`. The Unicode case mapping is a function of the
/// text; the contract names it.
#[verifier::external_body]
pub(crate) fn to_lowercase(s: &str) -> (r: String)
    ensures
        r@ == lower_case(s@),
{
    s.to_lowercase()
}

/// Whether two strings are equal.
pub fn str_eq(a: &str, b: &str) -> (r: bool)
    ensures
        r == (a@ == b@),
{
    a.to_owned() == b.to_owned()
}

proof fn lemma_digit_roundtrip(d: int)
    requires
        0 <= d < 10,
    ensures
        is_digit(digit_char(d)),
        digit_value(digit_char(d)) == d,
{
}

/// The digits of `n` are digits and read back as `n`.
pub proof fn lemma_digits_roundtrip(n: nat)
    ensures
        all_digits(digits(n)),
        digits_value(digits(n)) == n,
        digits(n)[0] != '-' && digits(n)[0] != '+',
    decreases n,
{
    if n < 10 {
        lemma_digit_roundtrip(n as int);
        assert(digits(n).drop_last() =~= Seq::<char>::empty());
        assert(digits_value(Seq::<char>::empty()) == 0);
    } else {
        lemma_digits_roundtrip(n / 10);
        lemma_digit_roundtrip((n % 10) as int);
        let s = digits(n);
        assert(s.drop_last() =~= digits(n / 10));
        assert((n / 10) * 10 + n % 10 == n) by (nonlinear_arith);
        assert forall|i: int| 0 <= i < s.len() implies is_digit(#[trigger] s[i]) by {
            if i < s.len() - 1 {
                assert(s[i] == digits(n / 10)[i]);
            }
        }
        assert(s[0] == digits(n / 10)[0]);
    }
}

/// Reading back the decimal text of an `i64` gives the same number.
pub proof fn lemma_decimal_roundtrip(n: i64)
    ensures
        parse_i64_spec(decimal(n as int)) == Some(n),
{
    if n < 0 {
        let m = (-(n as int)) as nat;
        lemma_digits_roundtrip(m);
        let s = decimal(n as int);
        assert(s.drop_first() =~= digits(m));
    } else {
        lemma_digits_roundtrip(n as nat);
    }
}

} // verus!
