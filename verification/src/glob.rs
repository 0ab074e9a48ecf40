//! Glob patterns over the characters of a key: `*` stands for any run of
//! characters (the empty one too), `?` for exactly one character, anything
//! else for itself.
use vstd::prelude::*;
use vstd::std_specs::iter::IteratorSpec;

verus! {

/// Whether pattern `p` matches `s`, both as characters.
pub open spec fn glob(p: Seq<char>, s: Seq<char>) -> bool
    decreases p.len() + s.len(),
{
    if p.len() == 0 {
        s.len() == 0
    } else if p[0] == '*' {
        // `*`: match nothing, or one more byte of `s`
        glob(p.drop_first(), s) || (s.len() > 0 && glob(p, s.drop_first()))
    } else if s.len() == 0 {
        false
    } else if p[0] == '?' {
        // `?`: any one character
        glob(p.drop_first(), s.drop_first())
    } else {
        p[0] == s[0] && glob(p.drop_first(), s.drop_first())
    }
}

fn glob_from(p: &[char], pi: usize, s: &[char], si: usize) -> (r: bool)
    requires
        pi <= p@.len(),
        si <= s@.len(),
    ensures
        r == glob(p@.skip(pi as int), s@.skip(si as int)),
    decreases p@.len() - pi + s@.len() - si,
{
    let ghost ps = p@.skip(pi as int);
    let ghost ss = s@.skip(si as int);
    if pi == p.len() {
        si == s.len()
    } else if p[pi] == '*' {
        assert(ps.drop_first() =~= p@.skip(pi + 1));
        if glob_from(p, pi + 1, s, si) {
            true
        } else if si < s.len() {
            assert(ss.drop_first() =~= s@.skip(si + 1));
            glob_from(p, pi, s, si + 1)
        } else {
            false
        }
    } else if si == s.len() {
        false
    } else if p[pi] == '?' {
        assert(ps.drop_first() =~= p@.skip(pi + 1));
        assert(ss.drop_first() =~= s@.skip(si + 1));
        glob_from(p, pi + 1, s, si + 1)
    } else {
        assert(ps.drop_first() =~= p@.skip(pi + 1));
        assert(ss.drop_first() =~= s@.skip(si + 1));
        p[pi] == s[si] && glob_from(p, pi + 1, s, si + 1)
    }
}

fn glob_inner(p: &[char], s: &[char]) -> (r: bool)
    ensures
        r == glob(p@, s@),
{
    assert(p@.skip(0) =~= p@);
    assert(s@.skip(0) =~= s@);
    glob_from(p, 0, s, 0)
}

/// The characters of a text, in order.
pub(crate) fn chars_of(s: &str) -> (r: Vec<char>)
    ensures
        r@ == s@,
{
    broadcast use vstd::string::axiom_spec_iter;
    let mut it = s.chars();
    let mut out: Vec<char> = Vec::new();
    loop
        invariant
            out@ + it.remaining() == s@,
            it.obeys_prophetic_iter_laws(),
        ensures
            out@ == s@,
        decreases s@.len() - out@.len(),
    {
        let ghost rest = it.remaining();
        match it.next() {
            Some(c) => {
                out.push(c);
                assert(out@ + it.remaining() =~= s@);
            },
            None => {
                assert(out@ =~= s@);
                break;
            },
        }
    }
    out
}

/// Glob pattern matching supporting `*` (any sequence) and `?` (any char).
pub fn glob_match(pattern: &str, s: &str) -> (r: bool)
    ensures
        r == glob(pattern@, s@),
{
    let p = chars_of(pattern);
    let t = chars_of(s);
    glob_inner(p.as_slice(), t.as_slice())
}

/// A lone `*` matches every key.
pub proof fn lemma_star_matches_all(s: Seq<char>)
    ensures
        glob(seq!['*'], s),
    decreases s.len(),
{
    let p = seq!['*'];
    assert(p.len() == 1 && p[0] == '*');
    assert(p.drop_first() =~= Seq::<char>::empty());
    if s.len() > 0 {
        lemma_star_matches_all(s.drop_first());
    } else {
        assert(glob(p.drop_first(), s));
    }
}

/// A pattern with neither `*` nor `?` matches exactly itself.
pub proof fn lemma_literal_matches_itself_only(p: Seq<char>, s: Seq<char>)
    requires
        forall|i: int| 0 <= i < p.len() ==> #[trigger] p[i] != '*' && p[i] != '?',
    ensures
        glob(p, s) <==> p == s,
    decreases p.len() + s.len(),
{
    if p.len() == 0 {
        if s.len() == 0 {
            assert(p =~= s);
        }
    } else if s.len() == 0 {
    } else {
        assert forall|i: int| 0 <= i < p.drop_first().len() implies #[trigger] p.drop_first()[i]
            != '*' && p.drop_first()[i] != '?' by {
            assert(p.drop_first()[i] == p[i + 1]);
        }
        lemma_literal_matches_itself_only(p.drop_first(), s.drop_first());
        if p[0] == s[0] && p.drop_first() == s.drop_first() {
            assert forall|i: int| 0 <= i < p.len() implies p[i] == s[i] by {
                if i > 0 {
                    assert(p[i] == p.drop_first()[i - 1]);
                    assert(s[i] == s.drop_first()[i - 1]);
                }
            }
            assert(p =~= s);
        }
        if p == s {
            assert(p.drop_first() =~= s.drop_first());
        }
    }
}

/// A lone `?` matches exactly the one-character keys.
pub proof fn lemma_question_matches_one_byte(s: Seq<char>)
    ensures
        glob(seq!['?'], s) <==> s.len() == 1,
{
    let p = seq!['?'];
    assert(p.len() == 1 && p[0] == '?');
    assert(p.drop_first() =~= Seq::<char>::empty());
    if s.len() > 0 {
        assert(glob(p.drop_first(), s.drop_first()) == (s.drop_first().len() == 0));
    }
}

} // verus!
