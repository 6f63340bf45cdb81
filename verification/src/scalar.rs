//! Numbers, points and colours as the library carries them.
//!
//! The library never does arithmetic on a number. It stores them, copies
//! them, hands them to the caller's arithmetic and orders them; for all of that
//! the bit pattern of a single-precision IEEE-754 value is enough.

use vstd::prelude::*;

verus! {

/// The bit that holds the sign of a single-precision number.
pub const SIGN_BIT: u32 = 0x8000_0000;

/// The magnitude bits of positive infinity. Every larger magnitude is a NaN.
pub const INFINITY_MAGNITUDE: u32 = 0x7f80_0000;

/// The number 0.1.
pub const TENTH: u32 = 0x3dcc_cccd;

/// The number 0.2.
pub const FIFTH: u32 = 0x3e4c_cccd;

/// The number 0.3.
pub const THREE_TENTHS: u32 = 0x3e99_999a;

/// The number 0.5.
pub const HALF: u32 = 0x3f00_0000;

/// The number 0.6.
pub const THREE_FIFTHS: u32 = 0x3f19_999a;

/// The number 0.7.
pub const SEVEN_TENTHS: u32 = 0x3f33_3333;

/// The number 0.8.
pub const FOUR_FIFTHS: u32 = 0x3f4c_cccd;

/// The number 1.
pub const ONE: u32 = 0x3f80_0000;

/// The number 5.
pub const FIVE: u32 = 0x40a0_0000;

/// The number 10.
pub const TEN: u32 = 0x4120_0000;

/// A quarter of pi, the angle of 45 degrees.
pub const EIGHTH_TURN: u32 = 0x3f49_0fdb;

/// A quarter of pi the other way round, the angle of -45 degrees.
pub const EIGHTH_TURN_BACK: u32 = 0xbf49_0fdb;

/// Half of pi, the angle of 90 degrees.
pub const QUARTER_TURN: u32 = 0x3fc9_0fdb;

/// A single-precision number, carried by its IEEE-754 bit pattern.
#[derive(Clone, Copy, Debug, PartialEq, Eq, Structural)]
pub struct Scalar {
    pub bits: u32,
}

impl Scalar {
    /// Exponent and fraction, without the sign.
    pub open spec fn magnitude(self) -> int {
        self.bits as int % SIGN_BIT as int
    }

    /// Whether the sign bit is set.
    pub open spec fn is_negative(self) -> bool {
        self.bits >= SIGN_BIT
    }

    /// Whether the pattern encodes no number at all.
    pub open spec fn is_nan(self) -> bool {
        self.magnitude() > INFINITY_MAGNITUDE
    }

    /// An integer that orders the numbers as IEEE-754 orders them: both
    /// zeros rank 0, a greater number ranks higher.
    pub open spec fn rank(self) -> int {
        if self.is_negative() {
            -self.magnitude()
        } else {
            self.magnitude()
        }
    }

    /// The IEEE-754 comparison `self < other`: false whenever either side is
    /// a NaN, and otherwise the order of the two numbers.
    #[verifier::opaque]
    pub open spec fn lt(self, other: Scalar) -> bool {
        !self.is_nan() && !other.is_nan() && self.rank() < other.rank()
    }

    /// `self <= other` between two numbers, by rank.
    pub open spec fn le(self, other: Scalar) -> bool {
        !self.is_nan() && !other.is_nan() && self.rank() <= other.rank()
    }

    pub fn from_bits(bits: u32) -> (r: Scalar)
        ensures
            r.bits == bits,
    {
        Scalar { bits }
    }

    pub fn to_bits(self) -> (r: u32)
        ensures
            r == self.bits,
    {
        self.bits
    }

    /// Tells a NaN from a number.
    pub fn nan(self) -> (r: bool)
        ensures
            r == self.is_nan(),
    {
        self.bits % SIGN_BIT > INFINITY_MAGNITUDE
    }

    /// Decides `self < other` as the hardware comparison of the two numbers
    /// would.
    pub fn less_than(self, other: Scalar) -> (r: bool)
        ensures
            r == self.lt(other),
    {
        proof {
            reveal(Scalar::lt);
        }
        if self.nan() || other.nan() {
            return false;
        }
        let mine: u32 = self.bits % SIGN_BIT;
        let theirs: u32 = other.bits % SIGN_BIT;
        if self.bits >= SIGN_BIT {
            if other.bits >= SIGN_BIT {
                theirs < mine
            } else {
                mine > 0 || theirs > 0
            }
        } else {
            if other.bits >= SIGN_BIT {
                false
            } else {
                mine < theirs
            }
        }
    }
}

/// A position in the plane.
#[derive(Clone, Copy, Debug, PartialEq, Eq, Structural)]
pub struct Point {
    pub x: Scalar,
    pub y: Scalar,
}

impl Point {
    pub open spec fn has_nan(self) -> bool {
        self.x.is_nan() || self.y.is_nan()
    }
}

/// A colour by its three channels.
#[derive(Clone, Copy, Debug, PartialEq, Eq, Structural)]
pub struct Rgb {
    pub red: Scalar,
    pub green: Scalar,
    pub blue: Scalar,
}

/// The order of numbers is strict: nothing is below itself, and it is
/// transitive.
pub proof fn lemma_lt_strict(a: Scalar, b: Scalar, c: Scalar)
    ensures
        !a.lt(a),
        a.lt(b) ==> !b.lt(a),
        a.lt(b) && b.lt(c) ==> a.lt(c),
{
    reveal(Scalar::lt);
}

/// Two numbers are always comparable: one is below the other, or they rank
/// the same.
pub proof fn lemma_lt_total(a: Scalar, b: Scalar)
    requires
        !a.is_nan(),
        !b.is_nan(),
    ensures
        a.lt(b) || b.lt(a) || a.rank() == b.rank(),
        a.le(b) <==> !b.lt(a),
{
    reveal(Scalar::lt);
}

} // verus!
