//! Double-precision numbers by their bits, with the order that comparison gives them.
//!
//! The bits of a number that is not NaN, taken as a sign and a magnitude, order as the
//! numbers do, and the two zeros are equal. Nothing compares with NaN.

use vstd::prelude::*;

verus! {

/// A double-precision number: `bits` is what `f64::to_bits` gives.
#[derive(Debug, Clone, Copy, PartialEq, Eq, Structural)]
pub struct Measure {
    pub bits: u64,
}

/// The bits of positive infinity. Those of NaN are higher, up to the sign.
pub const INFINITE_BITS: u64 = 0x7ff0_0000_0000_0000;

/// The lowest bits with the sign of a negative number.
pub const SIGN_BIT: u64 = 0x8000_0000_0000_0000;

impl Measure {
    /// The bits without the sign.
    pub open spec fn size(&self) -> int {
        if self.bits < SIGN_BIT {
            self.bits as int
        } else {
            self.bits - SIGN_BIT
        }
    }

    pub open spec fn nan(&self) -> bool {
        self.size() > INFINITE_BITS
    }

    pub open spec fn finite(&self) -> bool {
        self.size() < INFINITE_BITS
    }

    /// The place of the number among all that are not NaN.
    pub open spec fn rank(&self) -> int {
        if self.bits < SIGN_BIT {
            self.size()
        } else {
            -self.size()
        }
    }

    /// `self < other`.
    pub open spec fn below(&self, other: Measure) -> bool {
        !self.nan() && !other.nan() && self.rank() < other.rank()
    }

    /// `self >= other`.
    pub open spec fn reaches(&self, other: Measure) -> bool {
        !self.nan() && !other.nan() && self.rank() >= other.rank()
    }

    /// The number with the other sign.
    pub open spec fn opposite(&self) -> Measure {
        Measure {
            bits: if self.bits < SIGN_BIT {
                (self.bits + SIGN_BIT) as u64
            } else {
                (self.bits - SIGN_BIT) as u64
            },
        }
    }

    pub fn from_bits(bits: u64) -> (r: Self)
        ensures
            r.bits == bits,
    {
        Measure { bits }
    }

    pub fn zero() -> (r: Self)
        ensures
            r.bits == 0,
    {
        Measure { bits: 0 }
    }

    fn unsigned(&self) -> (r: u64)
        ensures
            r == self.size(),
    {
        if self.bits < SIGN_BIT {
            self.bits
        } else {
            self.bits - SIGN_BIT
        }
    }

    pub fn is_nan(&self) -> (r: bool)
        ensures
            r == self.nan(),
    {
        self.unsigned() > INFINITE_BITS
    }

    pub fn is_finite(&self) -> (r: bool)
        ensures
            r == self.finite(),
    {
        self.unsigned() < INFINITE_BITS
    }

    fn signed(&self) -> (r: i128)
        ensures
            r == self.rank(),
    {
        let size: u64 = self.unsigned();
        if self.bits < SIGN_BIT {
            size as i128
        } else {
            -(size as i128)
        }
    }

    pub fn is_below(&self, other: &Measure) -> (r: bool)
        ensures
            r == self.below(*other),
    {
        !self.is_nan() && !other.is_nan() && self.signed() < other.signed()
    }

    pub fn is_at_least(&self, other: &Measure) -> (r: bool)
        ensures
            r == self.reaches(*other),
    {
        !self.is_nan() && !other.is_nan() && self.signed() >= other.signed()
    }

    pub fn negated(&self) -> (r: Measure)
        ensures
            r == self.opposite(),
    {
        if self.bits < SIGN_BIT {
            Measure { bits: self.bits + SIGN_BIT }
        } else {
            Measure { bits: self.bits - SIGN_BIT }
        }
    }
}

/// The comparison is a strict order on the numbers: none lies below itself, and what
/// lies below a second that lies below a third lies below the third.
pub proof fn law_below_is_a_strict_order(a: Measure, b: Measure, c: Measure)
    ensures
        !a.below(a),
        a.below(b) && b.below(c) ==> a.below(c),
        a.below(b) ==> !b.below(a),
{
}

/// Two numbers that are not NaN compare: one lies below the other, or it reaches it.
pub proof fn law_below_is_total(a: Measure, b: Measure)
    requires
        !a.nan(),
        !b.nan(),
    ensures
        a.below(b) != a.reaches(b),
{
}

/// A change of sign turns the order round.
pub proof fn law_opposite_reverses(a: Measure, b: Measure)
    ensures
        a.below(b) == b.opposite().below(a.opposite()),
        a.opposite().opposite() == a,
{
}

/// A measure is read as the bits of a double: all but the highest are its size, the highest
/// its sign; sizes beyond infinity are no numbers; zero has two signs and one rank.
pub proof fn law_bits_of_a_measure(m: Measure)
    ensures
        m.bits < 0x8000_0000_0000_0000 ==> m.rank() == m.bits && m.rank() >= 0,
        m.bits >= 0x8000_0000_0000_0000 ==> m.rank() == 0x8000_0000_0000_0000 - m.bits && m.rank() <= 0,
        m.nan() <==> m.rank() > 0x7ff0_0000_0000_0000 || m.rank() < -0x7ff0_0000_0000_0000,
        m.finite() <==> -0x7ff0_0000_0000_0000 < m.rank() < 0x7ff0_0000_0000_0000,
        m.opposite().rank() == -m.rank(),
        m.opposite().bits != m.bits,
{
}

/// Numbers are compared by their ranks, and a measure that is no number compares with none.
pub proof fn law_measures_compare_by_rank(a: Measure, b: Measure)
    ensures
        a.nan() || b.nan() ==> !a.below(b) && !a.reaches(b),
        !a.nan() && !b.nan() ==> (a.below(b) <==> a.rank() < b.rank()),
        !a.nan() && !b.nan() ==> (a.reaches(b) <==> b.rank() <= a.rank()),
{
}

} // verus!
