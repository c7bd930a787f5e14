//! Numeric operators and the intervals they stand for.
//!
//! A numeric facet value is held as a signed 64-bit integer. For an integer
//! facet that is the value itself; for a float facet it is the value's
//! [`FloatKey`], an integer that orders as the float does. One resolver then
//! serves both, told apart by a [`NumberKind`] that supplies the least and
//! the greatest value of the type.

use vstd::prelude::*;

verus! {

/// A comparison of a numeric field with one or two operands.
#[derive(Debug, Copy, Clone, PartialEq)]
pub enum FacetNumberOperator<T> {
    GreaterThan(T),
    GreaterThanOrEqual(T),
    LowerThan(T),
    LowerThanOrEqual(T),
    Equal(T),
    Between(T, T),
}

/// One end of an interval of values.
#[derive(Debug, Copy, Clone, PartialEq, Eq)]
pub enum Bound {
    Included(i64),
    Excluded(i64),
    Unbounded,
}

/// Which numeric type a facet holds.
#[derive(Debug, Copy, Clone, PartialEq, Eq)]
pub enum NumberKind {
    Integer,
    Float,
}

/// The key of the greatest finite float.
pub const FLOAT_MAX_KEY: i64 = 0x7FEF_FFFF_FFFF_FFFF;

/// The key of the least finite float.
pub const FLOAT_MIN_KEY: i64 = -0x7FEF_FFFF_FFFF_FFFF;

/// The key of positive infinity; negative infinity has the opposite key.
pub const FLOAT_INFINITY_KEY: i64 = 0x7FF0_0000_0000_0000;

/// `num_traits::Bounded::min_value` for `i64`, which is `i64::MIN`.
#[verifier::external_body]
fn least_integer() -> (least: i64)
    ensures
        least == i64::MIN,
{
    num_traits::Bounded::min_value()
}

/// `num_traits::Bounded::max_value` for `i64`, which is `i64::MAX`.
#[verifier::external_body]
fn greatest_integer() -> (greatest: i64)
    ensures
        greatest == i64::MAX,
{
    num_traits::Bounded::max_value()
}

impl NumberKind {
    /// The least value of the type: the sentinel for a range open to the left.
    pub open spec fn min(self) -> i64 {
        match self {
            NumberKind::Integer => i64::MIN,
            NumberKind::Float => FLOAT_MIN_KEY,
        }
    }

    /// The greatest value of the type: the sentinel for a range open to the
    /// right.
    pub open spec fn max(self) -> i64 {
        match self {
            NumberKind::Integer => i64::MAX,
            NumberKind::Float => FLOAT_MAX_KEY,
        }
    }

    /// The least value of the type.
    pub fn min_value(self) -> (least: i64)
        ensures
            least == self.min(),
    {
        match self {
            NumberKind::Integer => least_integer(),
            NumberKind::Float => FLOAT_MIN_KEY,
        }
    }

    /// The greatest value of the type.
    pub fn max_value(self) -> (greatest: i64)
        ensures
            greatest == self.max(),
    {
        match self {
            NumberKind::Integer => greatest_integer(),
            NumberKind::Float => FLOAT_MAX_KEY,
        }
    }
}

impl Bound {
    /// Whether the two ends name a single value, both included.
    pub open spec fn exact(left: Bound, right: Bound) -> bool {
        left matches Bound::Included(l) && right matches Bound::Included(r) && l == r
    }

    /// Whether no value can lie between the two ends, given their kinds.
    pub open spec fn empty(left: Bound, right: Bound) -> bool {
        match (left, right) {
            (Bound::Included(l), Bound::Included(r)) => l > r,
            (Bound::Included(l), Bound::Excluded(r)) => l >= r,
            (Bound::Excluded(l), Bound::Excluded(r)) => l >= r,
            (Bound::Excluded(l), Bound::Included(r)) => l >= r,
            _ => false,
        }
    }

    /// Whether `value` is within this upper end.
    pub open spec fn admits_below(self, value: i64) -> bool {
        match self {
            Bound::Included(r) => value <= r,
            Bound::Excluded(r) => value < r,
            Bound::Unbounded => true,
        }
    }

    /// Whether this end is `Included(value)`.
    pub open spec fn includes_exactly(self, value: i64) -> bool {
        self == Bound::Included(value)
    }

    /// Whether the two ends name a single value, both included.
    pub fn is_exact(left: Bound, right: Bound) -> (b: bool)
        ensures
            b == Bound::exact(left, right),
    {
        match (left, right) {
            (Bound::Included(l), Bound::Included(r)) => l == r,
            _ => false,
        }
    }

    /// Whether no value can lie between the two ends, given their kinds.
    pub fn is_empty(left: Bound, right: Bound) -> (b: bool)
        ensures
            b == Bound::empty(left, right),
    {
        match (left, right) {
            (Bound::Included(l), Bound::Included(r)) => l > r,
            (Bound::Included(l), Bound::Excluded(r)) => l >= r,
            (Bound::Excluded(l), Bound::Excluded(r)) => l >= r,
            (Bound::Excluded(l), Bound::Included(r)) => l >= r,
            _ => false,
        }
    }

    /// Whether `value` is within this upper end.
    pub fn is_within(self, value: i64) -> (b: bool)
        ensures
            b == self.admits_below(value),
    {
        match self {
            Bound::Included(r) => value <= r,
            Bound::Excluded(r) => value < r,
            Bound::Unbounded => true,
        }
    }

    /// Whether this end is `Included(value)`.
    pub fn is_included(self, value: i64) -> (b: bool)
        ensures
            b == self.includes_exactly(value),
    {
        match self {
            Bound::Included(v) => v == value,
            _ => false,
        }
    }
}

impl FacetNumberOperator<i64> {
    /// The interval that the operator stands for, with the type's least and
    /// greatest value as the ends that the operator leaves open.
    pub open spec fn bounds(self, kind: NumberKind) -> (Bound, Bound) {
        match self {
            FacetNumberOperator::GreaterThan(v) => (Bound::Excluded(v), Bound::Included(kind.max())),
            FacetNumberOperator::GreaterThanOrEqual(v) => (
                Bound::Included(v),
                Bound::Included(kind.max()),
            ),
            FacetNumberOperator::LowerThan(v) => (Bound::Included(kind.min()), Bound::Excluded(v)),
            FacetNumberOperator::LowerThanOrEqual(v) => (
                Bound::Included(kind.min()),
                Bound::Included(v),
            ),
            FacetNumberOperator::Equal(v) => (Bound::Included(v), Bound::Included(v)),
            FacetNumberOperator::Between(l, r) => (Bound::Included(l), Bound::Included(r)),
        }
    }

    /// Whether a value satisfies the comparison, read plainly.
    pub open spec fn holds_of(self, value: i64) -> bool {
        match self {
            FacetNumberOperator::GreaterThan(v) => value > v,
            FacetNumberOperator::GreaterThanOrEqual(v) => value >= v,
            FacetNumberOperator::LowerThan(v) => value < v,
            FacetNumberOperator::LowerThanOrEqual(v) => value <= v,
            FacetNumberOperator::Equal(v) => value == v,
            FacetNumberOperator::Between(l, r) => l <= value <= r,
        }
    }

    /// The interval that the operator stands for.
    pub fn to_bounds(self, kind: NumberKind) -> (ends: (Bound, Bound))
        ensures
            ends == self.bounds(kind),
    {
        match self {
            FacetNumberOperator::GreaterThan(v) => (
                Bound::Excluded(v),
                Bound::Included(kind.max_value()),
            ),
            FacetNumberOperator::GreaterThanOrEqual(v) => (
                Bound::Included(v),
                Bound::Included(kind.max_value()),
            ),
            FacetNumberOperator::LowerThan(v) => (
                Bound::Included(kind.min_value()),
                Bound::Excluded(v),
            ),
            FacetNumberOperator::LowerThanOrEqual(v) => (
                Bound::Included(kind.min_value()),
                Bound::Included(v),
            ),
            FacetNumberOperator::Equal(v) => (Bound::Included(v), Bound::Included(v)),
            FacetNumberOperator::Between(l, r) => (Bound::Included(l), Bound::Included(r)),
        }
    }
}

/// The bit that holds the sign in the IEEE 754 binary64 layout.
pub const SIGN_BIT: u64 = 0x8000_0000_0000_0000;

/// The bits that hold exponent and fraction.
pub const MAGNITUDE_BITS: u64 = 0x7FFF_FFFF_FFFF_FFFF;

/// The magnitude of an infinity; a greater magnitude is not a number.
pub const INFINITY_BITS: u64 = 0x7FF0_0000_0000_0000;

/// Whether a binary64 bit pattern is a NaN.
pub open spec fn bits_are_nan(bits: u64) -> bool {
    bits & MAGNITUDE_BITS > INFINITY_BITS
}

/// The integer that orders as the float with the given bit pattern does:
/// the magnitude, negated where the sign bit is set. Both zeros get 0.
pub open spec fn key_of_bits(bits: u64) -> int {
    if bits & SIGN_BIT == 0 {
        (bits & MAGNITUDE_BITS) as int
    } else {
        -((bits & MAGNITUDE_BITS) as int)
    }
}

/// The bit pattern of the float with the given key; of the two zeros the
/// positive one.
pub open spec fn bits_of_key(key: i64) -> u64 {
    if key >= 0 {
        key as u64
    } else {
        ((-key) as u64) | SIGN_BIT
    }
}

/// A 64-bit float that is not a NaN, held as the integer that stands for it
/// in the facet index.
#[derive(Debug, Copy, Clone, PartialEq, Eq)]
pub struct FloatKey {
    key: i64,
}

impl View for FloatKey {
    type V = i64;

    closed spec fn view(&self) -> i64 {
        self.key
    }
}

impl FloatKey {
    #[verifier::type_invariant]
    spec fn in_range(self) -> bool {
        -FLOAT_INFINITY_KEY <= self.key <= FLOAT_INFINITY_KEY
    }

    /// The key of the float with the given bits (`f64::to_bits`), or `None`
    /// for a NaN.
    pub fn from_bits(bits: u64) -> (found: Option<FloatKey>)
        ensures
            found is None <==> bits_are_nan(bits),
            found matches Some(float) ==> float@ == key_of_bits(bits),
    {
        let magnitude: u64 = bits & MAGNITUDE_BITS;
        assert(magnitude <= MAGNITUDE_BITS) by (bit_vector)
            requires
                magnitude == bits & MAGNITUDE_BITS,
        ;
        if magnitude > INFINITY_BITS {
            None
        } else {
            let unsigned: i64 = magnitude as i64;
            if bits & SIGN_BIT == 0 {
                Some(FloatKey { key: unsigned })
            } else {
                Some(FloatKey { key: -unsigned })
            }
        }
    }

    /// The bits of the float (for `f64::from_bits`).
    pub fn to_bits(self) -> (bits: u64)
        ensures
            bits == bits_of_key(self@),
            !bits_are_nan(bits),
            key_of_bits(bits) == self@,
    {
        proof {
            use_type_invariant(&self);
        }
        if self.key >= 0 {
            let bits: u64 = self.key as u64;
            assert(bits & MAGNITUDE_BITS == bits && bits & SIGN_BIT == 0) by (bit_vector)
                requires
                    bits <= INFINITY_BITS,
            ;
            bits
        } else {
            let magnitude: u64 = (-self.key) as u64;
            let bits: u64 = magnitude | SIGN_BIT;
            assert(bits & MAGNITUDE_BITS == magnitude && bits & SIGN_BIT != 0) by (bit_vector)
                requires
                    magnitude <= INFINITY_BITS,
                    bits == magnitude | SIGN_BIT,
            ;
            bits
        }
    }

    /// The integer that stands for the float.
    pub fn key(self) -> (key: i64)
        ensures
            key == self@,
            -FLOAT_INFINITY_KEY <= key <= FLOAT_INFINITY_KEY,
    {
        proof {
            use_type_invariant(&self);
        }
        self.key
    }

    /// The float that a key stands for, or `None` where the integer is the
    /// key of no float.
    pub fn from_key(key: i64) -> (found: Option<FloatKey>)
        ensures
            found is Some <==> -FLOAT_INFINITY_KEY <= key <= FLOAT_INFINITY_KEY,
            found matches Some(float) ==> float@ == key,
    {
        if -FLOAT_INFINITY_KEY <= key && key <= FLOAT_INFINITY_KEY {
            Some(FloatKey { key })
        } else {
            None
        }
    }
}

impl FacetNumberOperator<FloatKey> {
    /// The same comparison on the keys of the operands.
    pub open spec fn keyed(self) -> FacetNumberOperator<i64> {
        match self {
            FacetNumberOperator::GreaterThan(v) => FacetNumberOperator::GreaterThan(v@),
            FacetNumberOperator::GreaterThanOrEqual(v) => FacetNumberOperator::GreaterThanOrEqual(
                v@,
            ),
            FacetNumberOperator::LowerThan(v) => FacetNumberOperator::LowerThan(v@),
            FacetNumberOperator::LowerThanOrEqual(v) => FacetNumberOperator::LowerThanOrEqual(v@),
            FacetNumberOperator::Equal(v) => FacetNumberOperator::Equal(v@),
            FacetNumberOperator::Between(l, r) => FacetNumberOperator::Between(l@, r@),
        }
    }

    /// The same comparison on the keys of the operands.
    pub fn to_keys(self) -> (keyed: FacetNumberOperator<i64>)
        ensures
            keyed == self.keyed(),
    {
        match self {
            FacetNumberOperator::GreaterThan(v) => FacetNumberOperator::GreaterThan(v.key()),
            FacetNumberOperator::GreaterThanOrEqual(v) => FacetNumberOperator::GreaterThanOrEqual(
                v.key(),
            ),
            FacetNumberOperator::LowerThan(v) => FacetNumberOperator::LowerThan(v.key()),
            FacetNumberOperator::LowerThanOrEqual(v) => FacetNumberOperator::LowerThanOrEqual(
                v.key(),
            ),
            FacetNumberOperator::Equal(v) => FacetNumberOperator::Equal(v.key()),
            FacetNumberOperator::Between(l, r) => FacetNumberOperator::Between(l.key(), r.key()),
        }
    }
}

/// Keys order as the floats do: of two bit patterns with the same sign, the
/// one of greater magnitude has the key farther from zero, and a pattern
/// with the sign bit set never has the greater key.
pub proof fn keys_follow_sign_and_magnitude(a: u64, b: u64)
    ensures
        a & SIGN_BIT == 0 && b & SIGN_BIT == 0 ==> (key_of_bits(a) <= key_of_bits(b) <==> a
            & MAGNITUDE_BITS <= b & MAGNITUDE_BITS),
        a & SIGN_BIT != 0 && b & SIGN_BIT != 0 ==> (key_of_bits(a) <= key_of_bits(b) <==> a
            & MAGNITUDE_BITS >= b & MAGNITUDE_BITS),
        a & SIGN_BIT != 0 && b & SIGN_BIT == 0 ==> key_of_bits(a) <= key_of_bits(b),
{
}

} // verus!
