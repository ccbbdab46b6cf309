//! IEEE 754 double-precision numbers, carried by their bit patterns.
//!
//! The mission's percentages, weights and scores are doubles. The library never does
//! arithmetic on them: it compares them, bounds them and hands them on.

use vstd::prelude::*;

verus! {

/// The sign bit of a double.
pub const SIGN_BIT: u64 = 0x8000_0000_0000_0000;

/// The magnitude bits of positive infinity. Every larger magnitude is a NaN.
pub const INFINITY_BITS: u64 = 0x7FF0_0000_0000_0000;

/// The bits of 0.0
pub const ZERO_BITS: u64 = 0;

/// A double, given by its IEEE 754 bit pattern.
#[derive(Clone, Copy, Debug)]
pub struct Double {
    pub bits: u64,
}

impl Double {
    /// The bits below the sign bit.
    pub open spec fn magnitude(self) -> int {
        if self.bits < SIGN_BIT {
            self.bits as int
        } else {
            self.bits - SIGN_BIT
        }
    }

    /// Whether this is not a number.
    pub open spec fn is_nan_spec(self) -> bool {
        self.magnitude() > INFINITY_BITS
    }

    /// An integer that orders the numbers as their values do. The two zeros share a rank.
    pub open spec fn rank(self) -> int {
        if self.bits < SIGN_BIT {
            self.magnitude()
        } else {
            -self.magnitude()
        }
    }

    /// The `<` of doubles: false when either side is not a number.
    pub open spec fn lt_spec(self, other: Double) -> bool {
        !self.is_nan_spec() && !other.is_nan_spec() && self.rank() < other.rank()
    }

    /// The `<=` of doubles: false when either side is not a number.
    pub open spec fn le_spec(self, other: Double) -> bool {
        !self.is_nan_spec() && !other.is_nan_spec() && self.rank() <= other.rank()
    }

    /// The larger of two doubles. A side that is not a number loses.
    pub open spec fn max_spec(self, other: Double) -> Double {
        if self.is_nan_spec() || self.lt_spec(other) {
            other
        } else {
            self
        }
    }

    /// The smaller of two doubles. A side that is not a number loses.
    pub open spec fn min_spec(self, other: Double) -> Double {
        if self.is_nan_spec() || other.lt_spec(self) {
            other
        } else {
            self
        }
    }

    /// An integer that orders all doubles: the rank, below which stands whatever is not a number.
    pub open spec fn standing(self) -> int {
        if self.is_nan_spec() {
            -INFINITY_BITS - 1
        } else {
            self.rank()
        }
    }

    /// Makes a double of its bit pattern.
    pub fn from_bits(bits: u64) -> (d: Double)
        ensures
            d.bits == bits,
    {
        Double { bits }
    }

    /// Whether this is not a number.
    pub fn is_nan(&self) -> (r: bool)
        ensures
            r == self.is_nan_spec(),
    {
        if self.bits < SIGN_BIT {
            self.bits > INFINITY_BITS
        } else {
            self.bits - SIGN_BIT > INFINITY_BITS
        }
    }

    /// The rank as a machine integer.
    pub fn order_key(&self) -> (r: i64)
        ensures
            r == self.rank(),
    {
        if self.bits < SIGN_BIT {
            self.bits as i64
        } else {
            -((self.bits - SIGN_BIT) as i64)
        }
    }

    /// The standing as a machine integer.
    pub fn standing_key(&self) -> (r: i64)
        ensures
            r == self.standing(),
    {
        if self.is_nan() {
            -(INFINITY_BITS as i64) - 1
        } else {
            self.order_key()
        }
    }

    /// Whether `self < other`.
    pub fn lt(&self, other: &Double) -> (r: bool)
        ensures
            r == self.lt_spec(*other),
    {
        !self.is_nan() && !other.is_nan() && self.order_key() < other.order_key()
    }

    /// Whether `self <= other`.
    pub fn le(&self, other: &Double) -> (r: bool)
        ensures
            r == self.le_spec(*other),
    {
        !self.is_nan() && !other.is_nan() && self.order_key() <= other.order_key()
    }

    /// The larger of two doubles.
    pub fn max(self, other: Double) -> (r: Double)
        ensures
            r == self.max_spec(other),
    {
        if self.is_nan() || self.lt(&other) {
            other
        } else {
            self
        }
    }

    /// The smaller of two doubles.
    pub fn min(self, other: Double) -> (r: Double)
        ensures
            r == self.min_spec(other),
    {
        if self.is_nan() || other.lt(&self) {
            other
        } else {
            self
        }
    }
}

/// How numbers compare is read off their bits. Bit patterns above that of infinity are no
/// numbers, with either sign, and compare with nothing. Of two numbers without the sign bit the
/// one with the greater bits is greater; with the sign bit it is the smaller one; and a number
/// with the sign bit is below one without, unless both are zero.
pub proof fn law_bits_order_numbers(a: Double, b: Double)
    ensures
        a.is_nan_spec() <==> INFINITY_BITS < a.bits < SIGN_BIT || SIGN_BIT + INFINITY_BITS
            < a.bits,
        a.is_nan_spec() || b.is_nan_spec() ==> !a.lt_spec(b) && !a.le_spec(b),
        !a.is_nan_spec() && !b.is_nan_spec() ==> {
            &&& a.bits < SIGN_BIT && b.bits < SIGN_BIT ==> (a.lt_spec(b) <==> a.bits < b.bits)
            &&& a.bits >= SIGN_BIT && b.bits >= SIGN_BIT ==> (a.lt_spec(b) <==> a.bits > b.bits)
            &&& a.bits >= SIGN_BIT && b.bits < SIGN_BIT ==> !b.lt_spec(a) && (a.lt_spec(b)
                <==> !(a.bits == SIGN_BIT && b.bits == 0))
            &&& a.le_spec(b) <==> !b.lt_spec(a)
        },
{
}

/// The standing puts numbers in their order, takes numbers apart exactly where one is below the
/// other, and puts what is no number below every number.
pub proof fn law_standing_follows_the_order(a: Double, b: Double)
    ensures
        !a.is_nan_spec() && !b.is_nan_spec() ==> (a.standing() < b.standing() <==> a.lt_spec(b)),
        a.is_nan_spec() && !b.is_nan_spec() ==> a.standing() < b.standing(),
        a.is_nan_spec() && b.is_nan_spec() ==> a.standing() == b.standing(),
{
}

/// The greater of two numbers is one of them and below neither; the smaller is one of them and
/// above neither. What is no number gives way to the other.
pub proof fn law_max_and_min_bound_both(a: Double, b: Double)
    ensures
        a.max_spec(b) == a || a.max_spec(b) == b,
        a.min_spec(b) == a || a.min_spec(b) == b,
        !a.is_nan_spec() && !b.is_nan_spec() ==> {
            &&& a.le_spec(a.max_spec(b)) && b.le_spec(a.max_spec(b))
            &&& a.min_spec(b).le_spec(a) && a.min_spec(b).le_spec(b)
        },
        a.is_nan_spec() ==> a.max_spec(b) == b && a.min_spec(b) == b,
        b.is_nan_spec() ==> a.is_nan_spec() || a.max_spec(b) == a && a.min_spec(b) == a,
{
}

} // verus!
