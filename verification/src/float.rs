//! IEEE-754 numbers held as their bits, and the order of the values that they
//! stand for.
//!
//! Arithmetic is left to the caller. What is here is everything that decides:
//! a number knows whether it is a number, and how it compares.

use vstd::prelude::*;

verus! {

/// A single-precision number, held as its bits. Two of them are `==` when they
/// have the same bits; the numeric comparisons are methods.
#[derive(Debug, Clone, Copy, PartialEq, Eq, Structural)]
pub struct F32 {
    /// The IEEE-754 binary32 representation.
    pub bits: u32,
}

/// A double-precision number, held as its bits. Two of them are `==` when they
/// have the same bits; the numeric comparisons are methods.
#[derive(Debug, Clone, Copy, PartialEq, Eq, Structural)]
pub struct F64 {
    /// The IEEE-754 binary64 representation.
    pub bits: u64,
}

/// The bits of 0.0 in single precision.
pub const F32_ZERO: u32 = 0;

/// The bits of 1.0 in single precision.
pub const F32_ONE: u32 = 0x3f80_0000;

/// The bits of negative infinity in single precision.
pub const F32_NEG_INFINITY: u32 = 0xff80_0000;

/// The bits of positive infinity in single precision.
pub const F32_INFINITY: u32 = 0x7f80_0000;

/// The bits of the largest finite number in single precision.
pub const F32_MAX: u32 = 0x7f7f_ffff;

/// The bits of 0.0 in double precision.
pub const F64_ZERO: u64 = 0;

/// The bits of 1.0 in double precision.
pub const F64_ONE: u64 = 0x3ff0_0000_0000_0000;

impl F32 {
    /// The bits without the sign bit.
    pub open spec fn magnitude(self) -> int {
        if self.bits >= 0x8000_0000 {
            self.bits - 0x8000_0000
        } else {
            self.bits as int
        }
    }

    /// Whether this is not a number.
    pub open spec fn nan(self) -> bool {
        self.magnitude() > 0x7f80_0000
    }

    /// The place of a number among all numbers: larger numbers have larger
    /// places, and the two zeros have the same one.
    pub open spec fn rank(self) -> int {
        if self.bits >= 0x8000_0000 {
            -self.magnitude()
        } else {
            self.magnitude()
        }
    }

    /// `self < other` as numbers; false where either is not a number.
    pub open spec fn less(self, other: F32) -> bool {
        !self.nan() && !other.nan() && self.rank() < other.rank()
    }

    /// `self <= other` as numbers; false where either is not a number.
    pub open spec fn at_most(self, other: F32) -> bool {
        !self.nan() && !other.nan() && self.rank() <= other.rank()
    }

    /// `self == other` as numbers; false where either is not a number.
    pub open spec fn same(self, other: F32) -> bool {
        !self.nan() && !other.nan() && self.rank() == other.rank()
    }

    /// Whether this is not a number.
    pub fn is_nan(self) -> (r: bool)
        ensures
            r == self.nan(),
    {
        let magnitude: u32 = if self.bits >= 0x8000_0000 {
            self.bits - 0x8000_0000
        } else {
            self.bits
        };
        magnitude > 0x7f80_0000
    }

    /// `self < other` as numbers.
    pub fn lt(self, other: F32) -> (r: bool)
        ensures
            r == self.less(other),
    {
        if self.is_nan() || other.is_nan() {
            return false;
        }
        let a_negative: bool = self.bits >= 0x8000_0000;
        let b_negative: bool = other.bits >= 0x8000_0000;
        if a_negative && b_negative {
            other.bits < self.bits
        } else if a_negative {
            // Only the two zeros are equal across the sign.
            self.bits != 0x8000_0000 || other.bits != 0
        } else if b_negative {
            false
        } else {
            self.bits < other.bits
        }
    }

    /// `self <= other` as numbers.
    pub fn le(self, other: F32) -> (r: bool)
        ensures
            r == self.at_most(other),
    {
        !self.is_nan() && !other.is_nan() && !other.lt(self)
    }

    /// `self == other` as numbers.
    pub fn eq_value(self, other: F32) -> (r: bool)
        ensures
            r == self.same(other),
    {
        self.le(other) && other.le(self)
    }
}

impl F64 {
    /// The bits without the sign bit.
    pub open spec fn magnitude(self) -> int {
        if self.bits >= 0x8000_0000_0000_0000 {
            self.bits - 0x8000_0000_0000_0000
        } else {
            self.bits as int
        }
    }

    /// Whether this is not a number.
    pub open spec fn nan(self) -> bool {
        self.magnitude() > 0x7ff0_0000_0000_0000
    }

    /// The place of a number among all numbers: larger numbers have larger
    /// places, and the two zeros have the same one.
    pub open spec fn rank(self) -> int {
        if self.bits >= 0x8000_0000_0000_0000 {
            -self.magnitude()
        } else {
            self.magnitude()
        }
    }

    /// `self < other` as numbers; false where either is not a number.
    pub open spec fn less(self, other: F64) -> bool {
        !self.nan() && !other.nan() && self.rank() < other.rank()
    }

    /// `self <= other` as numbers; false where either is not a number.
    pub open spec fn at_most(self, other: F64) -> bool {
        !self.nan() && !other.nan() && self.rank() <= other.rank()
    }

    /// Whether this is not a number.
    pub fn is_nan(self) -> (r: bool)
        ensures
            r == self.nan(),
    {
        let magnitude: u64 = if self.bits >= 0x8000_0000_0000_0000 {
            self.bits - 0x8000_0000_0000_0000
        } else {
            self.bits
        };
        magnitude > 0x7ff0_0000_0000_0000
    }

    /// `self < other` as numbers.
    pub fn lt(self, other: F64) -> (r: bool)
        ensures
            r == self.less(other),
    {
        if self.is_nan() || other.is_nan() {
            return false;
        }
        let a_negative: bool = self.bits >= 0x8000_0000_0000_0000;
        let b_negative: bool = other.bits >= 0x8000_0000_0000_0000;
        if a_negative && b_negative {
            other.bits < self.bits
        } else if a_negative {
            // Only the two zeros are equal across the sign.
            self.bits != 0x8000_0000_0000_0000 || other.bits != 0
        } else if b_negative {
            false
        } else {
            self.bits < other.bits
        }
    }

    /// `self <= other` as numbers.
    pub fn le(self, other: F64) -> (r: bool)
        ensures
            r == self.at_most(other),
    {
        !self.is_nan() && !other.is_nan() && !other.lt(self)
    }
}

/// The numeric order is a total order on everything that is a number.
pub proof fn law_f32_order(a: F32, b: F32, c: F32)
    requires
        !a.nan(),
        !b.nan(),
        !c.nan(),
    ensures
        a.at_most(a),
        a.at_most(b) || b.at_most(a),
        a.at_most(b) && b.at_most(c) ==> a.at_most(c),
        a.less(b) <==> !b.at_most(a),
        a.same(b) <==> a.at_most(b) && b.at_most(a),
        (F32 { bits: F32_NEG_INFINITY }).at_most(a) && a.at_most(F32 { bits: F32_INFINITY }),
{
}

/// How the single-precision order reads the bits: numbers without the sign bit
/// compare as their bits do, numbers with it the other way round, each of these
/// lies below each of the others but for the two zeros, which are equal, and
/// what lies past the bits of infinity compares with nothing.
pub proof fn law_f32_order_follows_the_bits(a: F32, b: F32)
    ensures
        a.nan() <==> 0x7f80_0000 < a.bits < 0x8000_0000 || 0x8000_0000 + 0x7f80_0000 < a.bits,
        a.nan() || b.nan() ==> !a.less(b) && !a.at_most(b) && !a.same(b),
        a.bits <= 0x7f80_0000 && b.bits <= 0x7f80_0000 ==> {
            &&& a.less(b) <==> a.bits < b.bits
            &&& a.at_most(b) <==> a.bits <= b.bits
        },
        0x8000_0000 <= a.bits <= 0x8000_0000 + 0x7f80_0000 && 0x8000_0000 <= b.bits <= 0x8000_0000 + 0x7f80_0000 ==> {
            &&& a.less(b) <==> b.bits < a.bits
            &&& a.at_most(b) <==> b.bits <= a.bits
        },
        0x8000_0000 <= a.bits <= 0x8000_0000 + 0x7f80_0000 && b.bits <= 0x7f80_0000 ==> {
            &&& a.at_most(b)
            &&& !b.less(a)
            &&& a.less(b) <==> a.bits != 0x8000_0000 || b.bits != 0
            &&& b.at_most(a) <==> a.bits == 0x8000_0000 && b.bits == 0
        },
        !a.nan() && !b.nan() ==> {
            &&& a.less(b) <==> a.rank() < b.rank()
            &&& a.at_most(b) <==> a.rank() <= b.rank()
            &&& a.same(b) <==> a.rank() == b.rank()
            &&& a.same(b) <==> a.bits == b.bits || a.bits % 0x8000_0000 == 0 && b.bits % 0x8000_0000 == 0
        },
{
}

/// How the double-precision order reads the bits: numbers without the sign bit
/// compare as their bits do, numbers with it the other way round, each of these
/// lies below each of the others but for the two zeros, which are equal, and
/// what lies past the bits of infinity compares with nothing.
pub proof fn law_f64_order_follows_the_bits(a: F64, b: F64)
    ensures
        a.nan() <==> 0x7ff0_0000_0000_0000 < a.bits < 0x8000_0000_0000_0000 || 0x8000_0000_0000_0000 + 0x7ff0_0000_0000_0000 < a.bits,
        a.nan() || b.nan() ==> !a.less(b) && !a.at_most(b),
        a.bits <= 0x7ff0_0000_0000_0000 && b.bits <= 0x7ff0_0000_0000_0000 ==> {
            &&& a.less(b) <==> a.bits < b.bits
            &&& a.at_most(b) <==> a.bits <= b.bits
        },
        0x8000_0000_0000_0000 <= a.bits <= 0x8000_0000_0000_0000 + 0x7ff0_0000_0000_0000 && 0x8000_0000_0000_0000 <= b.bits <= 0x8000_0000_0000_0000 + 0x7ff0_0000_0000_0000 ==> {
            &&& a.less(b) <==> b.bits < a.bits
            &&& a.at_most(b) <==> b.bits <= a.bits
        },
        0x8000_0000_0000_0000 <= a.bits <= 0x8000_0000_0000_0000 + 0x7ff0_0000_0000_0000 && b.bits <= 0x7ff0_0000_0000_0000 ==> {
            &&& a.at_most(b)
            &&& !b.less(a)
            &&& a.less(b) <==> a.bits != 0x8000_0000_0000_0000 || b.bits != 0
            &&& b.at_most(a) <==> a.bits == 0x8000_0000_0000_0000 && b.bits == 0
        },
        !a.nan() && !b.nan() ==> {
            &&& a.less(b) <==> a.rank() < b.rank()
            &&& a.at_most(b) <==> a.rank() <= b.rank()
        },
{
}

/// The double-precision order is a total order on everything that is a number.
pub proof fn law_f64_order(a: F64, b: F64, c: F64)
    requires
        !a.nan(),
        !b.nan(),
        !c.nan(),
    ensures
        a.at_most(a),
        a.at_most(b) || b.at_most(a),
        a.at_most(b) && b.at_most(c) ==> a.at_most(c),
        a.less(b) <==> !b.at_most(a),
{
}

} // verus!
