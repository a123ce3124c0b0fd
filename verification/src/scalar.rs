//! Measurements as they cross the boundary of this crate.
//!
//! Positions, velocities, angles and masses are produced by a physics engine
//! that works in IEEE-754 binary32. This crate never does arithmetic on them:
//! it stores them, hands them back unchanged, classifies them and orders
//! them. All of that is exact on the 32-bit pattern of the number, so a
//! measurement is held here as that pattern.

use vstd::prelude::*;

verus! {

/// The bit that carries the sign.
pub const SIGN_BIT: u32 = 0x8000_0000;

/// Magnitude bits of infinity. Every larger magnitude encodes a NaN.
pub const INFINITY_MAGNITUDE: u32 = 0x7F80_0000;

/// Magnitude bits of one.
pub const ONE_MAGNITUDE: u32 = 0x3F80_0000;

/// One binary32 number, held as its bit pattern.
#[derive(Clone, Copy, Debug, PartialEq, Eq, Structural)]
pub struct Scalar {
    pub bits: u32,
}

impl Scalar {
    /// The bit pattern without its sign bit.
    pub open spec fn magnitude(self) -> int {
        if self.bits >= SIGN_BIT {
            self.bits - SIGN_BIT
        } else {
            self.bits as int
        }
    }

    /// Whether the sign bit is set.
    pub open spec fn sign_set(self) -> bool {
        self.bits >= SIGN_BIT
    }

    /// Whether the pattern encodes no number at all.
    pub open spec fn nan(self) -> bool {
        self.magnitude() > INFINITY_MAGNITUDE
    }

    /// An integer that orders the numbers as their values are ordered: for
    /// two patterns that are numbers, the first is at most the second exactly
    /// when its rank is. Both zeros have rank zero.
    pub open spec fn rank(self) -> int {
        if self.sign_set() {
            -self.magnitude()
        } else {
            self.magnitude()
        }
    }

    /// `self >= other` as binary32 compares: false as soon as either is a NaN.
    pub open spec fn at_least(self, other: Scalar) -> bool {
        !self.nan() && !other.nan() && self.rank() >= other.rank()
    }

    /// Whether the value lies in the closed interval from minus one to one.
    pub open spec fn within_unit(self) -> bool {
        self.magnitude() <= ONE_MAGNITUDE
    }

    /// Positive zero.
    pub open spec fn zero() -> Scalar {
        Scalar { bits: 0 }
    }

    pub fn from_bits(bits: u32) -> (s: Scalar)
        ensures
            s.bits == bits,
    {
        Scalar { bits }
    }

    pub fn to_bits(&self) -> (bits: u32)
        ensures
            bits == self.bits,
    {
        self.bits
    }

    fn magnitude_bits(&self) -> (m: u32)
        ensures
            m == self.magnitude(),
    {
        if self.bits >= SIGN_BIT {
            self.bits - SIGN_BIT
        } else {
            self.bits
        }
    }

    pub fn is_nan(&self) -> (r: bool)
        ensures
            r == self.nan(),
    {
        self.magnitude_bits() > INFINITY_MAGNITUDE
    }

    /// Whether the value is a number below zero. Negative zero is not.
    pub fn is_negative(&self) -> (r: bool)
        ensures
            r == (!self.nan() && self.rank() < 0),
    {
        let m = self.magnitude_bits();
        self.bits >= SIGN_BIT && m > 0 && m <= INFINITY_MAGNITUDE
    }

    pub fn is_within_unit(&self) -> (r: bool)
        ensures
            r == self.within_unit(),
    {
        self.magnitude_bits() <= ONE_MAGNITUDE
    }

    /// Compares as binary32 does with `>=`.
    pub fn ge(&self, other: &Scalar) -> (r: bool)
        ensures
            r == self.at_least(*other),
    {
        let a = self.magnitude_bits();
        let b = other.magnitude_bits();
        if a > INFINITY_MAGNITUDE || b > INFINITY_MAGNITUDE {
            false
        } else if self.bits >= SIGN_BIT {
            if other.bits >= SIGN_BIT {
                a <= b
            } else {
                a == 0 && b == 0
            }
        } else {
            if other.bits >= SIGN_BIT {
                true
            } else {
                a >= b
            }
        }
    }
}

/// On the patterns that are numbers `at_least` is a total preorder: every
/// number is at least itself, of two numbers one is at least the other, and
/// the relation is transitive.
pub proof fn lemma_at_least_orders_numbers(a: Scalar, b: Scalar, c: Scalar)
    requires
        !a.nan(),
        !b.nan(),
        !c.nan(),
    ensures
        a.at_least(a),
        a.at_least(b) || b.at_least(a),
        a.at_least(b) && b.at_least(c) ==> a.at_least(c),
{
}

} // verus!
