//! Sorted-set scores and their order.
//!
//! A score is the bit pattern of an `f64` (`f64::to_bits`); NaN never stands
//! in a sorted set. Scores compare as the floats they encode: the sign bit
//! set means negative, and among patterns of one sign the order of the
//! magnitudes is that of the numbers, so `score_key` maps a pattern to an
//! integer that orders the same way (`-0.0` and `0.0` both map to 0, as they
//! compare equal). Members with equal scores compare by their bytes.
use vstd::prelude::*;
use crate::seqs::lemma_take_step_contains;
use crate::strmap::{Inv, StrMap, Value};

verus! {

/// Whether the bit pattern encodes a NaN.
pub open spec fn is_nan_bits(b: u64) -> bool {
    b & 0x7fff_ffff_ffff_ffffu64 > 0x7ff0_0000_0000_0000u64
}

/// A sorted-set score, held as the bits of an `f64`.
pub struct Score {
    pub bits: u64,
}

impl View for Score {
    type V = u64;

    open spec fn view(&self) -> u64 {
        self.bits
    }
}

impl Inv for Score {
    open spec fn inv(&self) -> bool {
        !is_nan_bits(self.bits)
    }
}

impl Value for Score {
    fn check(&self) -> (r: bool) {
        !is_nan(self.bits)
    }

    fn dup(&self) -> (r: Score) {
        Score { bits: self.bits }
    }
}

/// An integer that orders score bit patterns as their floats order.
pub open spec fn score_key(b: u64) -> int {
    if b >= 0x8000_0000_0000_0000u64 {
        -((b - 0x8000_0000_0000_0000u64) as int)
    } else {
        b as int
    }
}

/// Whether a bit pattern encodes a NaN.
pub fn is_nan(b: u64) -> (r: bool)
    ensures
        r == is_nan_bits(b),
{
    b & 0x7fff_ffff_ffff_ffffu64 > 0x7ff0_0000_0000_0000u64
}

/// `score_key` in executable form.
pub(crate) fn key_of(b: u64) -> (k: i128)
    ensures
        k == score_key(b),
{
    if b >= 0x8000_0000_0000_0000u64 {
        -((b - 0x8000_0000_0000_0000u64) as i128)
    } else {
        b as i128
    }
}

/// Lexicographic order on byte strings, a proper prefix first.
pub open spec fn bytes_lt(a: Seq<u8>, b: Seq<u8>) -> bool
    decreases a.len(),
{
    if a.len() == 0 {
        b.len() > 0
    } else if b.len() == 0 {
        false
    } else if a[0] != b[0] {
        a[0] < b[0]
    } else {
        bytes_lt(a.drop_first(), b.drop_first())
    }
}

/// Members compare by the bytes of their UTF-8 text, as `str::cmp` does.
pub open spec fn member_lt(a: Seq<char>, b: Seq<char>) -> bool {
    bytes_lt(vstd::utf8::encode_utf8(a), vstd::utf8::encode_utf8(b))
}

/// The order of sorted-set entries: by score, then by member.
pub open spec fn zlt(s1: u64, m1: Seq<char>, s2: u64, m2: Seq<char>) -> bool {
    score_key(s1) < score_key(s2) || (score_key(s1) == score_key(s2) && member_lt(m1, m2))
}

/// How many entries of `z` come before the entry of `m`.
pub open spec fn rank(z: Map<Seq<char>, u64>, m: Seq<char>) -> int {
    z.dom().filter(|x: Seq<char>| zlt(z[x], x, z[m], m)).len() as int
}

/// `s` lists the entries of `z` in increasing order.
pub open spec fn is_listing(s: Seq<(Seq<char>, u64)>, z: Map<Seq<char>, u64>) -> bool {
    &&& s.len() == z.len()
    &&& forall|i: int| 0 <= i < s.len() ==> #[trigger] z.contains_key(s[i].0) && z[s[i].0] == s[i].1
    &&& forall|i: int, j: int| 0 <= i < j < s.len() ==> zlt(#[trigger] s[i].1, s[i].0, #[trigger] s[j].1, s[j].0)
}

/// The texts and scores of pairs of strings and score bits.
pub open spec fn pairs_view(v: Seq<(String, u64)>) -> Seq<(Seq<char>, u64)> {
    v.map_values(|p: (String, u64)| (p.0@, p.1))
}

pub proof fn lemma_bytes_lt_irrefl(a: Seq<u8>)
    ensures
        !bytes_lt(a, a),
    decreases a.len(),
{
    if a.len() > 0 {
        lemma_bytes_lt_irrefl(a.drop_first());
    }
}

pub proof fn lemma_bytes_lt_trans(a: Seq<u8>, b: Seq<u8>, c: Seq<u8>)
    requires
        bytes_lt(a, b),
        bytes_lt(b, c),
    ensures
        bytes_lt(a, c),
    decreases a.len(),
{
    if a.len() > 0 && b.len() > 0 && c.len() > 0 && a[0] == b[0] && b[0] == c[0] {
        lemma_bytes_lt_trans(a.drop_first(), b.drop_first(), c.drop_first());
    }
}

pub proof fn lemma_bytes_lt_total(a: Seq<u8>, b: Seq<u8>)
    ensures
        a == b || bytes_lt(a, b) || bytes_lt(b, a),
    decreases a.len(),
{
    if a.len() == 0 {
        if b.len() == 0 {
            assert(a =~= b);
        }
    } else if b.len() > 0 && a[0] == b[0] {
        lemma_bytes_lt_total(a.drop_first(), b.drop_first());
        if a.drop_first() == b.drop_first() {
            assert(a.drop_first().len() == b.drop_first().len());
            assert(a.len() == b.len());
            assert forall|k: int| 0 <= k < a.len() implies a[k] == b[k] by {
                if k > 0 {
                    assert(a[k] == a.drop_first()[k - 1]);
                    assert(b[k] == b.drop_first()[k - 1]);
                }
            }
            assert(a =~= b);
        }
    }
}

pub proof fn lemma_bytes_lt_asym(a: Seq<u8>, b: Seq<u8>)
    requires
        bytes_lt(a, b),
    ensures
        !bytes_lt(b, a),
{
    if bytes_lt(b, a) {
        lemma_bytes_lt_trans(a, b, a);
        lemma_bytes_lt_irrefl(a);
    }
}

/// The entry order is a strict total order.
pub proof fn lemma_zlt_order(s1: u64, m1: Seq<char>, s2: u64, m2: Seq<char>, s3: u64, m3: Seq<char>)
    ensures
        !zlt(s1, m1, s1, m1),
        zlt(s1, m1, s2, m2) ==> !zlt(s2, m2, s1, m1),
        zlt(s1, m1, s2, m2) && zlt(s2, m2, s3, m3) ==> zlt(s1, m1, s3, m3),
        m1 != m2 ==> zlt(s1, m1, s2, m2) || zlt(s2, m2, s1, m1),
{
    let e1 = vstd::utf8::encode_utf8(m1);
    let e2 = vstd::utf8::encode_utf8(m2);
    let e3 = vstd::utf8::encode_utf8(m3);
    lemma_bytes_lt_irrefl(e1);
    if bytes_lt(e1, e2) {
        lemma_bytes_lt_asym(e1, e2);
    }
    if bytes_lt(e1, e2) && bytes_lt(e2, e3) {
        lemma_bytes_lt_trans(e1, e2, e3);
    }
    lemma_bytes_lt_total(e1, e2);
    if m1 != m2 {
        vstd::utf8::encode_utf8_decode_utf8(m1);
        vstd::utf8::encode_utf8_decode_utf8(m2);
    }
}

/// Byte-wise lexicographic comparison.
pub fn bytes_less(a: &[u8], b: &[u8]) -> (r: bool)
    ensures
        r == bytes_lt(a@, b@),
{
    let mut i: usize = 0;
    assert(a@.skip(0) =~= a@);
    assert(b@.skip(0) =~= b@);
    assert(a@.subrange(0, 0) =~= b@.subrange(0, 0));
    while i < a.len() && i < b.len() && a[i] == b[i]
        invariant
            i <= a@.len(),
            i <= b@.len(),
            a@.subrange(0, i as int) == b@.subrange(0, i as int),
            bytes_lt(a@, b@) == bytes_lt(a@.skip(i as int), b@.skip(i as int)),
        decreases a@.len() - i,
    {
        assert(a@.skip(i as int).drop_first() =~= a@.skip(i + 1));
        assert(b@.skip(i as int).drop_first() =~= b@.skip(i + 1));
        assert(a@.subrange(0, i + 1) =~= a@.subrange(0, i as int).push(a@[i as int]));
        assert(b@.subrange(0, i + 1) =~= b@.subrange(0, i as int).push(b@[i as int]));
        i = i + 1;
    }
    if i == a.len() {
        i < b.len()
    } else if i == b.len() {
        false
    } else {
        a[i] < b[i]
    }
}

/// Whether entry (s1, m1) comes before entry (s2, m2).
pub fn entry_less(s1: u64, m1: &str, s2: u64, m2: &str) -> (r: bool)
    ensures
        r == zlt(s1, m1@, s2, m2@),
{
    let k1 = key_of(s1);
    let k2 = key_of(s2);
    if k1 < k2 {
        true
    } else if k1 == k2 {
        bytes_less(m1.as_bytes(), m2.as_bytes())
    } else {
        false
    }
}

/// The members of a listing are pairwise distinct.
pub proof fn lemma_listing_distinct(s: Seq<(Seq<char>, u64)>, z: Map<Seq<char>, u64>, a: int, b: int)
    requires
        is_listing(s, z),
        0 <= a < b < s.len(),
    ensures
        s[a].0 != s[b].0,
{
    assert(zlt(s[a].1, s[a].0, s[b].1, s[b].0));
    assert(z.contains_key(s[a].0) && z.contains_key(s[b].0));
    lemma_zlt_order(s[a].1, s[a].0, s[b].1, s[b].0, s[a].1, s[a].0);
}

/// Every member of `z` stands somewhere in a listing of `z`.
pub proof fn lemma_listing_covers(s: Seq<(Seq<char>, u64)>, z: Map<Seq<char>, u64>)
    requires
        is_listing(s, z),
        z.dom().finite(),
    ensures
        forall|x: Seq<char>| #[trigger] z.contains_key(x) ==> exists|k: int| 0 <= k < s.len() && s[k].0 == x,
{
    let ms = s.map_values(|e: (Seq<char>, u64)| e.0);
    assert forall|a: int, b: int| 0 <= a < b < ms.len() implies ms[a] != ms[b] by {
        lemma_listing_distinct(s, z, a, b);
    }
    assert(ms.no_duplicates());
    let full = ms.to_set();
    assert(full.subset_of(z.dom())) by {
        assert forall|y: Seq<char>| full.contains(y) implies z.dom().contains(y) by {
            let k = choose|k: int| 0 <= k < ms.len() && ms[k] == y;
            assert(z.contains_key(s[k].0));
        }
    }
    ms.unique_seq_to_set();
    vstd::set_lib::lemma_subset_equality(full, z.dom());
    assert forall|x: Seq<char>| #[trigger] z.contains_key(x) implies exists|k: int| 0 <= k < s.len() && s[k].0 == x by {
        assert(full.contains(x));
        let k = choose|k: int| 0 <= k < ms.len() && ms[k] == x;
        assert(s[k].0 == ms[k]);
    }
}

/// In a listing, the entry at position `i` has rank `i`.
pub proof fn lemma_listing_rank(s: Seq<(Seq<char>, u64)>, z: Map<Seq<char>, u64>, i: int)
    requires
        is_listing(s, z),
        z.dom().finite(),
        0 <= i < s.len(),
    ensures
        rank(z, s[i].0) == i,
{
    let m = s[i].0;
    let ms = s.map_values(|e: (Seq<char>, u64)| e.0);
    assert forall|a: int, b: int| 0 <= a < b < ms.len() implies ms[a] != ms[b] by {
        lemma_listing_distinct(s, z, a, b);
    }
    assert(ms.no_duplicates());
    lemma_listing_covers(s, z);
    let pre = ms.take(i);
    let lower = z.dom().filter(|x: Seq<char>| zlt(z[x], x, z[m], m));
    assert forall|x: Seq<char>| lower.contains(x) <==> pre.to_set().contains(x) by {
        assert(z.contains_key(s[i].0));
        if pre.contains(x) {
            let k = choose|k: int| 0 <= k < pre.len() && pre[k] == x;
            assert(pre[k] == ms[k] && ms[k] == s[k].0);
            assert(z.contains_key(s[k].0));
            assert(zlt(s[k].1, s[k].0, s[i].1, s[i].0));
        }
        if lower.contains(x) {
            assert(z.contains_key(x));
            let k = choose|k: int| 0 <= k < s.len() && s[k].0 == x;
            assert(z.contains_key(s[k].0));
            assert(z[x] == s[k].1);
            if k > i {
                assert(zlt(s[i].1, s[i].0, s[k].1, s[k].0));
                lemma_zlt_order(s[i].1, s[i].0, s[k].1, s[k].0, s[i].1, s[i].0);
            } else if k == i {
                lemma_zlt_order(s[i].1, s[i].0, s[i].1, s[i].0, s[i].1, s[i].0);
            }
            assert(k < i);
            assert(pre[k] == ms[k]);
        }
    }
    assert(lower =~= pre.to_set());
    pre.unique_seq_to_set();
}

/// An entry that comes before another has a smaller rank.
pub proof fn lemma_rank_order(z: Map<Seq<char>, u64>, a: Seq<char>, b: Seq<char>)
    requires
        z.dom().finite(),
        z.contains_key(a),
        z.contains_key(b),
        zlt(z[a], a, z[b], b),
    ensures
        rank(z, a) < rank(z, b),
{
    let la = z.dom().filter(|x: Seq<char>| zlt(z[x], x, z[a], a));
    let lb = z.dom().filter(|x: Seq<char>| zlt(z[x], x, z[b], b));
    assert forall|x: Seq<char>| la.insert(a).contains(x) implies lb.contains(x) by {
        if x != a {
            lemma_zlt_order(z[x], x, z[a], a, z[b], b);
        }
    }
    lemma_zlt_order(z[a], a, z[a], a, z[a], a);
    assert(!la.contains(a));
    vstd::set_lib::lemma_len_subset(la.insert(a), lb);
}

/// Entries with distinct ranks come in the order of their ranks.
pub proof fn lemma_rank_reflects_order(z: Map<Seq<char>, u64>, a: Seq<char>, b: Seq<char>)
    requires
        z.dom().finite(),
        z.contains_key(a),
        z.contains_key(b),
        rank(z, a) < rank(z, b),
    ensures
        zlt(z[a], a, z[b], b),
        a != b,
{
    lemma_zlt_order(z[a], a, z[b], b, z[a], a);
    if a != b && !zlt(z[a], a, z[b], b) {
        lemma_rank_order(z, b, a);
    }
}

/// The entries of a sorted set, in increasing order.
pub fn sorted_entries(z: &StrMap<Score>) -> (out: Vec<(String, u64)>)
    requires
        z.wf(),
    ensures
        is_listing(pairs_view(out@), z@),
{
    let n = z.len();
    proof {
        z.lemma_storage();
    }
    let ghost ks = z.key_seq();
    let mut out: Vec<(String, u64)> = Vec::new();
    let mut j: usize = 0;
    while j < n
        invariant
            z.wf(),
            ks == z.key_seq(),
            n == ks.len(),
            ks.no_duplicates(),
            forall|i: int| 0 <= i < ks.len() ==> #[trigger] z@.contains_key(ks[i]) && z@[ks[i]] == z.val_seq()[i],
            n == z.val_seq().len(),
            j <= n,
            out@.len() == j,
            forall|i: int| 0 <= i < out@.len() ==> #[trigger] ks.take(j as int).contains(out@[i].0@)
                && z@[out@[i].0@] == out@[i].1,
            forall|a: int, b: int| 0 <= a < b < out@.len() ==> zlt(#[trigger] out@[a].1, out@[a].0@, #[trigger] out@[b].1, out@[b].0@),
        decreases n - j,
    {
        let key = z.key_at(j);
        let score = z.value_at(j).bits;
        let ghost kj = ks[j as int];
        assert(z@.contains_key(ks[j as int]));
        assert(z@[kj] == score);
        assert forall|x: Seq<char>| ks.take(j + 1).contains(x) <==> (ks.take(j as int).contains(x) || x == kj) by {
            lemma_take_step_contains(ks, j as int, x);
        }
        assert(!ks.take(j as int).contains(kj));
        let mut p: usize = 0;
        while p < out.len() && !entry_less(score, key.as_str(), out[p].1, out[p].0.as_str())
            invariant
                p <= out@.len(),
                forall|q: int| 0 <= q < p ==> !zlt(score, kj, #[trigger] out@[q].1, out@[q].0@),
                key@ == kj,
            decreases out@.len() - p,
        {
            p = p + 1;
        }
        let ghost pre = out@;
        proof {
            assert forall|q: int| 0 <= q < p implies zlt(#[trigger] pre[q].1, pre[q].0@, score, kj) by {
                assert(pre[q].0@ != kj);
                lemma_zlt_order(score, kj, pre[q].1, pre[q].0@, score, kj);
            }
            assert forall|q: int| p < q < pre.len() implies zlt(score, kj, #[trigger] pre[q].1, pre[q].0@) by {
                assert(zlt(score, kj, pre[p as int].1, pre[p as int].0@));
                assert(zlt(pre[p as int].1, pre[p as int].0@, pre[q].1, pre[q].0@));
                lemma_zlt_order(score, kj, pre[p as int].1, pre[p as int].0@, pre[q].1, pre[q].0@);
            }
        }
        let kc = key.clone();
        out.insert(p, (kc, score));
        assert(out@[p as int].0@ == kj && out@[p as int].1 == score);
        assert forall|a: int, b: int| 0 <= a < b < out@.len() implies zlt(#[trigger] out@[a].1, out@[a].0@, #[trigger] out@[b].1, out@[b].0@) by {
            if b < p {
                assert(out@[a] == pre[a] && out@[b] == pre[b]);
            } else if b == p {
                assert(out@[a] == pre[a]);
            } else if a < p {
                assert(out@[a] == pre[a] && out@[b] == pre[b - 1]);
                assert(zlt(pre[a].1, pre[a].0@, score, kj));
                assert(zlt(score, kj, pre[b - 1].1, pre[b - 1].0@) || b - 1 == p);
                if b - 1 > p {
                    lemma_zlt_order(pre[a].1, pre[a].0@, score, kj, pre[b - 1].1, pre[b - 1].0@);
                } else {
                    lemma_zlt_order(pre[a].1, pre[a].0@, score, kj, pre[b - 1].1, pre[b - 1].0@);
                }
            } else if a == p {
                assert(out@[b] == pre[b - 1]);
            } else {
                assert(out@[a] == pre[a - 1] && out@[b] == pre[b - 1]);
            }
        }
        assert forall|i: int| 0 <= i < out@.len() implies #[trigger] ks.take(j + 1).contains(out@[i].0@)
            && z@[out@[i].0@] == out@[i].1 by {
            if i < p {
                assert(out@[i] == pre[i]);
                assert(ks.take(j as int).contains(pre[i].0@));
            } else if i > p {
                assert(out@[i] == pre[i - 1]);
                assert(ks.take(j as int).contains(pre[i - 1].0@));
            }
        }
        j = j + 1;
    }
    let ghost s = pairs_view(out@);
    assert(ks.take(n as int) =~= ks);
    assert forall|i: int| 0 <= i < s.len() implies #[trigger] z@.contains_key(s[i].0) && z@[s[i].0] == s[i].1 by {
        assert(ks.contains(out@[i].0@));
    }
    assert forall|i: int, k: int| 0 <= i < k < s.len() implies zlt(#[trigger] s[i].1, s[i].0, #[trigger] s[k].1, s[k].0) by {
        assert(zlt(out@[i].1, out@[i].0@, out@[k].1, out@[k].0@));
    }
    out
}

} // verus!
