//! Values held by the store and the entries that carry them.
use vstd::prelude::*;
use std::collections::VecDeque;
use crate::clock::now_ms;
use crate::strmap::{Inv, StrMap, Value};
use crate::zorder::Score;

verus! {

broadcast use vstd::std_specs::vecdeque::group_vec_dequeue_axioms;

/// What a key holds.
///
/// Sorted-set scores are kept as the bit patterns of the `f64` scores
/// (`f64::to_bits`); see `crate::zorder` for how they are ordered.
pub enum DataType {
    String(String),
    List(VecDeque<String>),
    Hash(StrMap<String>),
    StrSet(StrMap<()>),
    ZSet(StrMap<Score>),
}

/// The mathematical value of a `DataType`.
pub enum ValueView {
    Str(Seq<char>),
    List(Seq<Seq<char>>),
    Hash(Map<Seq<char>, Seq<char>>),
    StrSet(Set<Seq<char>>),
    ZSet(Map<Seq<char>, u64>),
}

/// The strings of a deque of strings.
pub open spec fn strings_view(l: Seq<String>) -> Seq<Seq<char>> {
    l.map_values(|s: String| s@)
}

impl View for DataType {
    type V = ValueView;

    open spec fn view(&self) -> ValueView {
        match self {
            DataType::String(s) => ValueView::Str(s@),
            DataType::List(l) => ValueView::List(strings_view(l@)),
            DataType::Hash(h) => ValueView::Hash(h@),
            DataType::StrSet(s) => ValueView::StrSet(s@.dom()),
            DataType::ZSet(z) => ValueView::ZSet(z@),
        }
    }
}

/// The name that `TYPE` reports for a value.
pub open spec fn kind_name_of(v: ValueView) -> Seq<char> {
    match v {
        ValueView::Str(_) => "string"@,
        ValueView::List(_) => "list"@,
        ValueView::Hash(_) => "hash"@,
        ValueView::StrSet(_) => "set"@,
        ValueView::ZSet(_) => "zset"@,
    }
}

impl DataType {
    /// The inner maps are well formed.
    pub open spec fn wf(&self) -> bool {
        match self {
            DataType::Hash(h) => h.wf(),
            DataType::StrSet(s) => s.wf(),
            DataType::ZSet(z) => z.wf(),
            DataType::List(l) => l@.len() <= i64::MAX,
            _ => true,
        }
    }

    /// Whether the value is well formed.
    pub fn check(&self) -> (r: bool)
        ensures
            r == self.wf(),
    {
        match self {
            DataType::Hash(h) => h.check_wf(),
            DataType::StrSet(s) => s.check_wf(),
            DataType::ZSet(z) => z.check_wf(),
            DataType::List(l) => (l.len() as u64) <= 0x7fff_ffff_ffff_ffffu64,
            DataType::String(_) => true,
        }
    }

    /// A copy of the value.
    pub fn duplicate(&self) -> (r: DataType)
        ensures
            r@ == self@,
            r.wf() == self.wf(),
    {
        match self {
            DataType::String(s) => DataType::String(s.clone()),
            DataType::List(l) => {
                let mut out: VecDeque<String> = VecDeque::new();
                let mut i: usize = 0;
                while i < l.len()
                    invariant
                        i <= l@.len(),
                        l@.len() == l.len(),
                        out@.len() == i,
                        strings_view(out@) == strings_view(l@).take(i as int),
                    decreases l@.len() - i,
                {
                    let x = l[i].clone();
                    out.push_back(x);
                    assert(strings_view(out@) =~= strings_view(l@).take(i + 1));
                    i = i + 1;
                }
                assert(strings_view(l@).take(l@.len() as int) =~= strings_view(l@));
                DataType::List(out)
            },
            DataType::Hash(h) => DataType::Hash(h.duplicate()),
            DataType::StrSet(s) => {
                let c = s.duplicate();
                DataType::StrSet(c)
            },
            DataType::ZSet(z) => DataType::ZSet(z.duplicate()),
        }
    }

    /// The type name reported by `TYPE`.
    pub fn kind_name(&self) -> (r: &'static str)
        ensures
            r@ == kind_name_of(self@),
    {
        match self {
            DataType::String(_) => "string",
            DataType::List(_) => "list",
            DataType::Hash(_) => "hash",
            DataType::StrSet(_) => "set",
            DataType::ZSet(_) => "zset",
        }
    }
}

/// The mathematical value of an `Entry`.
pub struct EntryView {
    pub value: ValueView,
    pub expires_at_ms: Option<i64>,
    pub last_accessed_ms: i64,
}

/// Whether an entry has expired at time `now`.
pub open spec fn expired_at(e: EntryView, now: int) -> bool {
    match e.expires_at_ms {
        Some(exp) => now >= exp,
        None => false,
    }
}

/// The remaining time to live in milliseconds at time `now`: -1 without an
/// expiry, -2 once expired.
pub open spec fn pttl_at(e: EntryView, now: int) -> int {
    match e.expires_at_ms {
        None => -1,
        Some(exp) => if exp - now <= 0 { -2 } else { exp - now },
    }
}

/// A stored value with its expiry and the time it was last used.
pub struct Entry {
    pub value: DataType,
    /// Expiry as Unix timestamp in milliseconds; `None` means no expiry.
    pub expires_at_ms: Option<i64>,
    pub last_accessed_ms: i64,
}

impl View for Entry {
    type V = EntryView;

    open spec fn view(&self) -> EntryView {
        EntryView {
            value: self.value@,
            expires_at_ms: self.expires_at_ms,
            last_accessed_ms: self.last_accessed_ms,
        }
    }
}

impl Inv for Entry {
    open spec fn inv(&self) -> bool {
        self.wf()
    }
}

impl Value for Entry {
    fn check(&self) -> (r: bool) {
        let expiry_ok = match self.expires_at_ms {
            Some(exp) => exp >= 0,
            None => true,
        };
        expiry_ok && self.value.check()
    }

    fn dup(&self) -> (r: Entry) {
        Entry { value: self.value.duplicate(), expires_at_ms: self.expires_at_ms, last_accessed_ms: self.last_accessed_ms }
    }
}

impl Entry {
    /// The value is well formed and the expiry, if any, is not negative.
    pub open spec fn wf(&self) -> bool {
        &&& self.value.wf()
        &&& match self.expires_at_ms {
            Some(exp) => exp >= 0,
            None => true,
        }
    }

    /// A fresh entry without expiry, last used at `now`.
    pub fn new_at(value: DataType, now: i64) -> (e: Entry)
        ensures
            e.value == value,
            e.expires_at_ms.is_none(),
            e.last_accessed_ms == now,
    {
        Entry { value, expires_at_ms: None, last_accessed_ms: now }
    }

    /// A fresh entry without expiry, last used now.
    pub fn new(value: DataType) -> (e: Entry)
        ensures
            e.value == value,
            e.expires_at_ms.is_none(),
            e.last_accessed_ms >= 0,
    {
        let now = now_ms();
        Entry::new_at(value, now)
    }

    /// Whether the entry has expired at time `now`.
    pub fn is_expired_at(&self, now: i64) -> (r: bool)
        ensures
            r == expired_at(self@, now as int),
    {
        match self.expires_at_ms {
            Some(exp) => now >= exp,
            None => false,
        }
    }

    /// Whether the entry has expired now. An entry without expiry never has.
    pub fn is_expired(&self) -> (r: bool)
        ensures
            exists|t: i64| t >= 0 && r == expired_at(self@, t as int),
            self.expires_at_ms.is_none() ==> !r,
    {
        let now = now_ms();
        self.is_expired_at(now)
    }

    /// Remaining time to live in milliseconds at time `now`: -1 if there is
    /// no expiry, -2 if expired.
    pub fn pttl_at(&self, now: i64) -> (r: i64)
        requires
            self.wf(),
            now >= 0,
        ensures
            r == pttl_at(self@, now as int),
    {
        match self.expires_at_ms {
            None => -1,
            Some(exp) => {
                let rem = exp - now;
                if rem <= 0 {
                    -2
                } else {
                    rem
                }
            },
        }
    }

    /// Remaining time to live in milliseconds now: -1 if there is no expiry,
    /// -2 if expired.
    pub fn pttl(&self) -> (r: i64)
        requires
            self.wf(),
        ensures
            exists|t: i64| t >= 0 && r == pttl_at(self@, t as int),
            self.expires_at_ms.is_none() ==> r == -1,
    {
        let now = now_ms();
        self.pttl_at(now)
    }
}

} // verus!
