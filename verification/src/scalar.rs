//! Single-precision numbers as the bit patterns that carry them.
//!
//! The library never computes with these numbers: it stores them, hands them
//! on, and compares them. A comparison of two IEEE 754 numbers is a comparison
//! of integers once the sign has been unfolded, so it can be stated and proved
//! over the bit pattern alone.

use vstd::prelude::*;

verus! {

/// Bit patterns at and above this one have the sign bit set.
pub const SIGN_BIT: u32 = 0x8000_0000;

/// The bit pattern of positive infinity; a larger magnitude is not a number.
pub const INFINITY_BITS: u32 = 0x7f80_0000;

/// A single-precision number, held as its IEEE 754 bit pattern.
///
/// `==` compares patterns; [`Scalar::equals`] compares numbers.
#[derive(Clone, Copy, Debug, PartialEq, Eq, Structural)]
pub struct Scalar {
    pub bits: u32,
}

impl Scalar {
    /// Positive zero.
    #[verifier::allow_in_spec]
    pub fn zero() -> Scalar
        returns
            (Scalar { bits: 0 }),
    {
        Scalar { bits: 0 }
    }

    /// The number one half.
    #[verifier::allow_in_spec]
    pub fn half() -> Scalar
        returns
            (Scalar { bits: 0x3f00_0000 }),
    {
        Scalar { bits: 0x3f00_0000 }
    }

    /// The number one.
    #[verifier::allow_in_spec]
    pub fn one() -> Scalar
        returns
            (Scalar { bits: 0x3f80_0000 }),
    {
        Scalar { bits: 0x3f80_0000 }
    }

    /// The pattern without its sign bit.
    pub open spec fn magnitude(self) -> int {
        if self.bits >= SIGN_BIT {
            self.bits - SIGN_BIT
        } else {
            self.bits as int
        }
    }

    /// Whether the pattern stands for no number at all.
    pub open spec fn nan(self) -> bool {
        self.magnitude() > INFINITY_BITS
    }

    /// Where the number stands among all numbers: a larger number has a larger
    /// rank, and the two zeros share one.
    pub open spec fn rank(self) -> int {
        if self.bits >= SIGN_BIT {
            -self.magnitude()
        } else {
            self.magnitude()
        }
    }

    /// `self < other`, false when either is not a number.
    pub open spec fn below(self, other: Scalar) -> bool {
        !self.nan() && !other.nan() && self.rank() < other.rank()
    }

    /// `self <= other`, false when either is not a number.
    pub open spec fn at_most(self, other: Scalar) -> bool {
        !self.nan() && !other.nan() && self.rank() <= other.rank()
    }

    /// `self == other` as numbers, false when either is not a number.
    pub open spec fn same_number(self, other: Scalar) -> bool {
        !self.nan() && !other.nan() && self.rank() == other.rank()
    }

    /// The number limited to the range from zero to one.
    pub open spec fn in_unit(self) -> Scalar {
        if self.below(Scalar::zero()) {
            Scalar::zero()
        } else if Scalar::one().below(self) {
            Scalar::one()
        } else {
            self
        }
    }

    /// The number without its sign.
    pub open spec fn unsigned(self) -> Scalar {
        Scalar { bits: self.magnitude() as u32 }
    }

    /// Whether this is not a number.
    pub fn is_nan(self) -> (r: bool)
        ensures
            r == self.nan(),
    {
        if self.bits >= SIGN_BIT {
            self.bits - SIGN_BIT > INFINITY_BITS
        } else {
            self.bits > INFINITY_BITS
        }
    }

    fn order(self) -> (r: i64)
        ensures
            r == self.rank(),
    {
        if self.bits >= SIGN_BIT {
            -((self.bits - SIGN_BIT) as i64)
        } else {
            self.bits as i64
        }
    }

    /// `self < other`.
    pub fn lt(self, other: Scalar) -> (r: bool)
        ensures
            r == self.below(other),
    {
        !self.is_nan() && !other.is_nan() && self.order() < other.order()
    }

    /// `self <= other`.
    pub fn le(self, other: Scalar) -> (r: bool)
        ensures
            r == self.at_most(other),
    {
        !self.is_nan() && !other.is_nan() && self.order() <= other.order()
    }

    /// `self > other`.
    pub fn gt(self, other: Scalar) -> (r: bool)
        ensures
            r == other.below(self),
    {
        other.lt(self)
    }

    /// `self == other` as numbers.
    pub fn equals(self, other: Scalar) -> (r: bool)
        ensures
            r == self.same_number(other),
    {
        !self.is_nan() && !other.is_nan() && self.order() == other.order()
    }

    /// The number without its sign.
    pub fn abs(self) -> (r: Scalar)
        ensures
            r == self.unsigned(),
    {
        if self.bits >= SIGN_BIT {
            Scalar { bits: self.bits - SIGN_BIT }
        } else {
            self
        }
    }

    /// The number limited to the range from zero to one; what is not a number
    /// stays what it is.
    pub fn clamp_unit(self) -> (r: Scalar)
        ensures
            r == self.in_unit(),
    {
        if self.lt(Scalar::zero()) {
            Scalar::zero()
        } else if self.gt(Scalar::one()) {
            Scalar::one()
        } else {
            self
        }
    }
}

/// Two numbers.
#[derive(Clone, Copy, Debug, PartialEq, Eq, Structural)]
pub struct Vec2 {
    pub x: Scalar,
    pub y: Scalar,
}

/// A point or a direction.
#[derive(Clone, Copy, Debug, PartialEq, Eq, Structural)]
pub struct Vec3 {
    pub x: Scalar,
    pub y: Scalar,
    pub z: Scalar,
}

/// Four numbers: a tangent with its handedness, or a linear colour.
#[derive(Clone, Copy, Debug, PartialEq, Eq, Structural)]
pub struct Vec4 {
    pub x: Scalar,
    pub y: Scalar,
    pub z: Scalar,
    pub w: Scalar,
}

/// A rotation.
#[derive(Clone, Copy, Debug, PartialEq, Eq, Structural)]
pub struct Quat {
    pub x: Scalar,
    pub y: Scalar,
    pub z: Scalar,
    pub w: Scalar,
}

impl Vec3 {
    /// The point that every coordinate is measured from.
    #[verifier::allow_in_spec]
    pub fn origin() -> Vec3
        returns
            (Vec3 { x: Scalar::zero(), y: Scalar::zero(), z: Scalar::zero() }),
    {
        Vec3 { x: Scalar::zero(), y: Scalar::zero(), z: Scalar::zero() }
    }

    /// Whether the two are the same point, number by number.
    pub open spec fn same_point(self, other: Vec3) -> bool {
        self.x.same_number(other.x) && self.y.same_number(other.y) && self.z.same_number(other.z)
    }

    /// Whether the two are the same point, number by number.
    pub fn equals(self, other: Vec3) -> (r: bool)
        ensures
            r == self.same_point(other),
    {
        self.x.equals(other.x) && self.y.equals(other.y) && self.z.equals(other.z)
    }
}

impl Quat {
    /// The rotation that turns nothing.
    #[verifier::allow_in_spec]
    pub fn identity() -> Quat
        returns
            (Quat { x: Scalar::zero(), y: Scalar::zero(), z: Scalar::zero(), w: Scalar::one() }),
    {
        Quat { x: Scalar::zero(), y: Scalar::zero(), z: Scalar::zero(), w: Scalar::one() }
    }
}

/// Among numbers, exactly one of "less", "the same" and "greater" holds.
pub proof fn numbers_are_totally_ordered(a: Scalar, b: Scalar)
    requires
        !a.nan(),
        !b.nan(),
    ensures
        a.at_most(b) || b.at_most(a),
        a.below(b) <==> !b.at_most(a),
        a.at_most(b) && b.at_most(a) <==> a.same_number(b),
{
}

/// A limited number lies in the range, and limiting it again changes nothing.
pub proof fn limiting_is_idempotent(a: Scalar)
    requires
        !a.nan(),
    ensures
        Scalar::zero().at_most(a.in_unit()),
        a.in_unit().at_most(Scalar::one()),
        a.in_unit().in_unit() == a.in_unit(),
{
}

/// Numbers are compared as IEEE 754 says. Two patterns without a sign stand for
/// numbers in the order of the patterns, two with a sign in the reverse order,
/// what has a sign is at most what has none, and the two zeros are the same
/// number. A pattern beyond infinity is no number, and compares with nothing.
pub proof fn patterns_order_as_their_numbers(a: u32, b: u32)
    ensures
        a <= 0x7f80_0000 && b <= 0x7f80_0000 ==> {
            &&& (Scalar { bits: a }).below(Scalar { bits: b }) <==> a < b
            &&& (Scalar { bits: a }).at_most(Scalar { bits: b }) <==> a <= b
            &&& (Scalar { bits: a }).same_number(Scalar { bits: b }) <==> a == b
            &&& (Scalar { bits: (a + 0x8000_0000) as u32 }).below(
                Scalar { bits: (b + 0x8000_0000) as u32 },
            ) <==> b < a
            &&& (Scalar { bits: (a + 0x8000_0000) as u32 }).at_most(Scalar { bits: b })
            &&& (Scalar { bits: (a + 0x8000_0000) as u32 }).below(Scalar { bits: b }) <==> a > 0
                || b > 0
        },
        0x7f80_0000 < a < 0x8000_0000 || 0xff80_0000 < a ==> {
            &&& (Scalar { bits: a }).nan()
            &&& !(Scalar { bits: a }).below(Scalar { bits: b })
            &&& !(Scalar { bits: b }).below(Scalar { bits: a })
            &&& !(Scalar { bits: a }).at_most(Scalar { bits: b })
            &&& !(Scalar { bits: b }).at_most(Scalar { bits: a })
            &&& !(Scalar { bits: a }).same_number(Scalar { bits: b })
        },
        a <= 0x7f80_0000 || 0x8000_0000 <= a <= 0xff80_0000 ==> !(Scalar { bits: a }).nan(),
{
}

/// Limiting a number to the unit range leaves a number in the range as it is,
/// lifts one below to zero, lowers one above to one, and leaves what is no number.
/// A number without its sign is never below zero, and keeps its size.
pub proof fn limiting_moves_only_what_is_outside(a: Scalar)
    ensures
        Scalar::zero().at_most(a) && a.at_most(Scalar::one()) ==> a.in_unit() == a,
        a.below(Scalar::zero()) ==> a.in_unit().bits == 0,
        Scalar::one().below(a) ==> a.in_unit().bits == 0x3f80_0000,
        a.nan() ==> a.in_unit() == a,
        a.bits < 0x8000_0000 ==> a.unsigned() == a,
        a.bits >= 0x8000_0000 ==> a.unsigned().bits == a.bits - 0x8000_0000,
        Scalar::zero().bits == 0 && Scalar::half().bits == 0x3f00_0000 && Scalar::one().bits
            == 0x3f80_0000,
{
}

/// Two points are the same where all three of their numbers are, and only there.
pub proof fn points_are_compared_in_every_number(a: Vec3, b: Vec3)
    ensures
        a.same_point(b) ==> a.x.same_number(b.x) && a.y.same_number(b.y) && a.z.same_number(b.z),
        !a.x.same_number(b.x) || !a.y.same_number(b.y) || !a.z.same_number(b.z)
            ==> !a.same_point(b),
        a.same_point(b) <==> b.same_point(a),
{
}

} // verus!
