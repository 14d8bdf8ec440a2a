//! Stable per-segment identifiers.
//!
//! A [`SegmentId`] is the identity of a segment as segments are added,
//! removed, reordered or contributed by another crate. Selection, the change
//! callback and the overflow menu are all keyed by it rather than by
//! position, so inserting a segment never re-points the selection at a
//! different one.
use vstd::prelude::*;
use vstd::std_specs::cmp::PartialOrdSpec;
use core::cmp::Ordering;

verus! {

/// Framework-allocated ids start here, leaving everything below it to apps,
/// so `SegmentId::from_u64(1)` never collides with a fresh id.
pub const FRESH_BASE: u64 = 0x1_0000_0000_0000;

#[verifier::external_type_specification]
#[verifier::external_body]
#[verifier::reject_recursive_types(T)]
pub struct ExIdU64<T>(uid::IdU64<T>);

/// `uid::IdU64::new` draws the next value of a process-wide atomic counter.
/// Nothing is claimed of the value here; see `get`.
pub assume_specification<T>[ uid::IdU64::<T>::new ]() -> uid::IdU64<T>;

/// `uid::IdU64::get` returns the id's value, which is stored as a
/// `NonZeroU64` and so is never zero. That successive draws differ is what
/// the counter does, but it depends on process-global state and is not
/// stated.
pub assume_specification<T>[ uid::IdU64::<T>::get ](id: uid::IdU64<T>) -> (r: u64)
    ensures
        r != 0,
;

/// Stable identity of a segment. Cheap to copy; survives rebuilds, locale
/// changes, and segments being inserted around it. Its value is never zero.
#[derive(Debug, Clone, Copy, PartialEq, Eq, Structural, Hash, Ord)]
pub struct SegmentId {
    value: u64,
}

impl View for SegmentId {
    type V = u64;

    closed spec fn view(&self) -> u64 {
        self.value
    }
}

/// The value a fresh id takes for the `count`-th draw of the process
/// counter (the counter's draws start at 1): `FRESH_BASE + count - 1`,
/// wrapping like the counter it stands for, so the first fresh id is
/// `FRESH_BASE` itself; the single draw whose wrapped value would be zero
/// yields 1.
pub open spec fn fresh_value(count: u64) -> u64 {
    let sum = (FRESH_BASE + count - 1) % 0x1_0000_0000_0000_0000;
    if sum == 0 { 1 } else { sum as u64 }
}

/// The character of decimal digit `d`.
pub open spec fn digit_char(d: int) -> char {
    if d == 0 { '0' } else if d == 1 { '1' } else if d == 2 { '2' } else if d == 3 { '3' }
    else if d == 4 { '4' } else if d == 5 { '5' } else if d == 6 { '6' } else if d == 7 { '7' }
    else if d == 8 { '8' } else { '9' }
}

/// The decimal digits of `v`, most significant first, with no leading
/// zeros (`0` is the single digit `0`).
pub open spec fn decimal(v: nat) -> Seq<char>
    decreases v,
{
    if v < 10 {
        seq![digit_char(v as int)]
    } else {
        decimal(v / 10) + seq![digit_char((v % 10) as int)]
    }
}

/// The text form of an id of the given value: `SegmentId(` the decimal
/// digits `)`.
pub open spec fn segment_id_text(value: u64) -> Seq<char> {
    seq!['S', 'e', 'g', 'm', 'e', 'n', 't', 'I', 'd', '('] + decimal(value as nat) + seq![')']
}

impl SegmentId {
    #[verifier::type_invariant]
    spec fn non_zero(self) -> bool {
        self.value != 0
    }

    /// The id a fresh allocation yields for the `count`-th draw of the
    /// process counter.
    pub fn from_count(count: u64) -> (id: SegmentId)
        requires
            count != 0,
        ensures
            id@ == fresh_value(count),
            count - 1 <= u64::MAX - FRESH_BASE ==> id@ == FRESH_BASE + count - 1,
    {
        let sum = FRESH_BASE.wrapping_add(count - 1);
        if sum == 0 {
            SegmentId { value: 1 }
        } else {
            SegmentId { value: sum }
        }
    }

    /// Allocate a new id from the process-wide counter. Allocations start
    /// at `FRESH_BASE`, so they never collide with a small constant an
    /// app declared through [`from_u64`](Self::from_u64).
    pub fn fresh() -> (id: SegmentId)
        ensures
            id@ != 0,
            exists|count: u64| count != 0 && id@ == #[trigger] fresh_value(count),
    {
        let count = uid::IdU64::<()>::new().get();
        let id = Self::from_count(count);
        assert(id@ == fresh_value(count));
        id
    }

    /// Wrap an externally allocated, non-zero key.
    pub fn from_raw(value: u64) -> (id: SegmentId)
        requires
            value != 0,
        ensures
            id@ == value,
    {
        SegmentId { value }
    }

    /// Wrap a non-zero `u64`, so an app can declare its segments up front.
    /// Zero is not an id.
    pub fn from_u64(value: u64) -> (id: SegmentId)
        requires
            value != 0,
        ensures
            id@ == value,
    {
        SegmentId { value }
    }

    /// The underlying non-zero value. Persist this and restore it through
    /// [`from_raw`](Self::from_raw) or [`from_u64`](Self::from_u64).
    pub fn raw(self) -> (r: u64)
        ensures
            r == self@,
            r != 0,
    {
        proof {
            use_type_invariant(&self);
        }
        self.value
    }

    /// The underlying value as a plain `u64`.
    pub fn get(self) -> (r: u64)
        ensures
            r == self@,
            r != 0,
    {
        proof {
            use_type_invariant(&self);
        }
        self.value
    }

    /// The text form of an id, `SegmentId(<value>)`.
    pub fn to_text(self) -> (s: String)
        ensures
            s@ == segment_id_text(self@),
    {
        let mut s = String::from_str("SegmentId(");
        let digits = decimal_text(self.value);
        s.append(digits.as_str());
        s.append(")");
        proof {
            reveal_strlit("SegmentId(");
            reveal_strlit(")");
            assert(s@ =~= segment_id_text(self@));
        }
        s
    }
}

/// The one-character text of decimal digit `d`.
fn digit_text(d: u64) -> (s: &'static str)
    requires
        d < 10,
    ensures
        s@ == seq![digit_char(d as int)],
{
    proof {
        reveal_strlit("0");
        reveal_strlit("1");
        reveal_strlit("2");
        reveal_strlit("3");
        reveal_strlit("4");
        reveal_strlit("5");
        reveal_strlit("6");
        reveal_strlit("7");
        reveal_strlit("8");
        reveal_strlit("9");
    }
    if d == 0 { "0" } else if d == 1 { "1" } else if d == 2 { "2" } else if d == 3 { "3" }
    else if d == 4 { "4" } else if d == 5 { "5" } else if d == 6 { "6" } else if d == 7 { "7" }
    else if d == 8 { "8" } else { "9" }
}

/// The decimal digits of `v` as text.
fn decimal_text(v: u64) -> (s: String)
    ensures
        s@ == decimal(v as nat),
    decreases v,
{
    if v < 10 {
        String::from_str(digit_text(v))
    } else {
        let mut s = decimal_text(v / 10);
        s.append(digit_text(v % 10));
        s
    }
}

/// Ids order by their values.
impl PartialOrd for SegmentId {
    fn partial_cmp(&self, other: &Self) -> (r: Option<Ordering>) {
        if self.value < other.value {
            Some(Ordering::Less)
        } else if self.value == other.value {
            Some(Ordering::Equal)
        } else {
            Some(Ordering::Greater)
        }
    }
}

impl vstd::std_specs::cmp::PartialOrdSpecImpl for SegmentId {
    open spec fn obeys_partial_cmp_spec() -> bool {
        true
    }

    open spec fn partial_cmp_spec(&self, other: &Self) -> Option<Ordering> {
        if self@ < other@ {
            Some(Ordering::Less)
        } else if self@ == other@ {
            Some(Ordering::Equal)
        } else {
            Some(Ordering::Greater)
        }
    }
}

/// Ids compare as their values do: one id is less than another exactly
/// when its value is smaller, and they are equal exactly when their values
/// are.
pub proof fn lemma_ids_order_by_value(a: SegmentId, b: SegmentId)
    ensures
        (a.partial_cmp_spec(&b) == Some(Ordering::Less)) <==> a@ < b@,
        (a.partial_cmp_spec(&b) == Some(Ordering::Equal)) <==> a@ == b@,
        (a.partial_cmp_spec(&b) == Some(Ordering::Greater)) <==> a@ > b@,
        (a == b) <==> (a@ == b@),
{
}

/// Successive draws of the counter give increasing fresh values, all at or
/// above `FRESH_BASE`, until the counter passes the wrap point.
pub proof fn lemma_fresh_values_increase(c1: u64, c2: u64)
    requires
        0 < c1 < c2,
        c2 - 1 <= u64::MAX - FRESH_BASE,
    ensures
        FRESH_BASE <= fresh_value(c1) < fresh_value(c2),
{
}

/// Two ids are the same id exactly when their values are equal.
pub proof fn lemma_id_eq_iff_value_eq(a: SegmentId, b: SegmentId)
    ensures
        (a == b) <==> (a@ == b@),
{
}

} // verus!
