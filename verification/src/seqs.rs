//! Facts about sequences used by the loops of the library.
use vstd::prelude::*;

verus! {

/// The texts of a sequence of strings.
pub open spec fn string_seq(v: Seq<String>) -> Seq<Seq<char>> {
    v.map_values(|s: String| s@)
}

/// Appending a string appends its text.
pub proof fn lemma_string_seq_push(v: Seq<String>, s: String)
    ensures
        string_seq(v.push(s)) == string_seq(v).push(s@),
        string_seq(v.push(s)).to_set() == string_seq(v).to_set().insert(s@),
        !string_seq(v).contains(s@) && string_seq(v).no_duplicates() ==> string_seq(v.push(s)).no_duplicates(),
{
    assert(string_seq(v.push(s)) =~= string_seq(v).push(s@));
    let a = string_seq(v);
    assert(a.push(s@).to_set() =~= a.to_set().insert(s@)) by {
        assert forall|x: Seq<char>| a.push(s@).contains(x) <==> a.to_set().insert(s@).contains(x) by {
            if a.push(s@).contains(x) {
                let i = choose|i: int| 0 <= i < a.push(s@).len() && a.push(s@)[i] == x;
                if i < a.len() {
                    assert(a[i] == x);
                }
            }
            if a.contains(x) {
                let i = choose|i: int| 0 <= i < a.len() && a[i] == x;
                assert(a.push(s@)[i] == x);
            }
            if x == s@ {
                assert(a.push(s@)[a.len() as int] == x);
            }
        }
    }
}

/// The first `j + 1` elements contain `x` exactly when the first `j` do or
/// element `j` is `x`.
pub proof fn lemma_take_step_contains<A>(s: Seq<A>, j: int, x: A)
    requires
        0 <= j < s.len(),
    ensures
        s.take(j + 1).contains(x) <==> (s.take(j).contains(x) || x == s[j]),
{
    let a = s.take(j);
    let b = s.take(j + 1);
    if x == s[j] {
        assert(b[j] == x);
    }
    if a.contains(x) {
        let ii = choose|ii: int| 0 <= ii < a.len() && a[ii] == x;
        assert(b[ii] == x);
    }
    if b.contains(x) {
        let ii = choose|ii: int| 0 <= ii < b.len() && b[ii] == x;
        if ii < j {
            assert(a[ii] == x);
        }
    }
}

/// Appending strings appends their texts.
pub proof fn lemma_string_seq_append(a: Seq<String>, b: Seq<String>)
    ensures
        string_seq(a + b) == string_seq(a) + string_seq(b),
        string_seq(a + b).to_set() == string_seq(a).to_set() + string_seq(b).to_set(),
        string_seq(a).no_duplicates() && string_seq(b).no_duplicates() && string_seq(a).to_set().disjoint(
            string_seq(b).to_set(),
        ) ==> string_seq(a + b).no_duplicates(),
{
    let x = string_seq(a);
    let y = string_seq(b);
    assert(string_seq(a + b) =~= x + y);
    assert forall|e: Seq<char>| (x + y).contains(e) <==> x.contains(e) || y.contains(e) by {
        if (x + y).contains(e) {
            let i = choose|i: int| 0 <= i < (x + y).len() && (x + y)[i] == e;
            if i < x.len() {
                assert(x[i] == e);
            } else {
                assert(y[i - x.len()] == e);
            }
        }
        if x.contains(e) {
            let i = choose|i: int| 0 <= i < x.len() && x[i] == e;
            assert((x + y)[i] == e);
        }
        if y.contains(e) {
            let i = choose|i: int| 0 <= i < y.len() && y[i] == e;
            assert((x + y)[i + x.len()] == e);
        }
    }
    assert((x + y).to_set() =~= x.to_set() + y.to_set());
    if x.no_duplicates() && y.no_duplicates() && x.to_set().disjoint(y.to_set()) {
        assert forall|i: int, j: int| 0 <= i < (x + y).len() && 0 <= j < (x + y).len() && i != j implies (x + y)[i] != (x + y)[j] by {
            if i < x.len() && j >= x.len() {
                assert(x.to_set().contains(x[i]));
                assert(y.to_set().contains(y[j - x.len()]));
            } else if j < x.len() && i >= x.len() {
                assert(x.to_set().contains(x[j]));
                assert(y.to_set().contains(y[i - x.len()]));
            }
        }
    }
}

/// The set of the first `j + 1` elements adds element `j` to that of the
/// first `j`.
pub proof fn lemma_take_step_to_set<A>(s: Seq<A>, j: int)
    requires
        0 <= j < s.len(),
    ensures
        s.take(j + 1).to_set() == s.take(j).to_set().insert(s[j]),
{
    assert forall|x: A| s.take(j + 1).to_set().contains(x) <==> s.take(j).to_set().insert(s[j]).contains(x) by {
        lemma_take_step_contains(s, j, x);
    }
    assert(s.take(j + 1).to_set() =~= s.take(j).to_set().insert(s[j]));
}

} // verus!
