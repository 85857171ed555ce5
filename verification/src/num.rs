//! Real numbers as the trading logic sees them: values that are ordered, negated and made
//! absolute, but never added or multiplied.

use vstd::prelude::*;

verus! {

/// The sign bit of a pattern.
pub const SIGN_BIT: u64 = 0x8000_0000_0000_0000;

/// The magnitude of an infinite value. Larger magnitudes are not numbers.
pub const INFINITE: u64 = 0x7ff0_0000_0000_0000;

/// `0.0`
pub const ZERO: u64 = 0;

/// `1.0`
pub const ONE: u64 = 0x3ff0_0000_0000_0000;

/// `0.5`
pub const HALF: u64 = 0x3fe0_0000_0000_0000;

/// A number in IEEE 754 binary64 format, held as its bit pattern.
///
/// A pattern is a sign bit followed by a 63-bit magnitude. Magnitudes up to [`INFINITE`] grow with
/// the number they stand for, so two numbers compare as their signed magnitudes do. The two zeros
/// have the same signed magnitude. A pattern whose magnitude exceeds [`INFINITE`] is not a number
/// and compares with nothing.
#[derive(Clone, Copy, PartialEq, Eq, Structural, Debug, Hash)]
pub struct Num {
    pub bits: u64,
}

impl Num {
    /// Is the sign bit set?
    pub open spec fn negative(self) -> bool {
        self.bits >= SIGN_BIT
    }

    /// The pattern without its sign bit.
    pub open spec fn magnitude(self) -> int {
        if self.negative() {
            self.bits - SIGN_BIT
        } else {
            self.bits as int
        }
    }

    /// Is this pattern not a number?
    pub open spec fn nan(self) -> bool {
        self.magnitude() > INFINITE
    }

    /// Neither infinite nor not-a-number.
    pub open spec fn finite(self) -> bool {
        self.magnitude() < INFINITE
    }

    /// The position of this number on the number line.
    pub open spec fn rank(self) -> int {
        if self.negative() {
            -self.magnitude()
        } else {
            self.magnitude()
        }
    }

    /// `self < other`. False whenever either side is not a number.
    pub open spec fn less(self, other: Num) -> bool {
        !self.nan() && !other.nan() && self.rank() < other.rank()
    }

    /// `self <= other`. False whenever either side is not a number.
    pub open spec fn at_most(self, other: Num) -> bool {
        !self.nan() && !other.nan() && self.rank() <= other.rank()
    }

    /// The same magnitude with the sign bit cleared.
    pub open spec fn absolute(self) -> Num {
        Num { bits: self.magnitude() as u64 }
    }

    /// The same magnitude with the sign bit flipped.
    pub open spec fn opposite(self) -> Num {
        Num { bits: if self.negative() { self.magnitude() as u64 } else { (self.bits + SIGN_BIT) as u64 } }
    }

    /// The larger of two numbers, or the one that is a number.
    pub open spec fn larger(self, other: Num) -> Num {
        if self.nan() || self.less(other) {
            other
        } else {
            self
        }
    }

    /// The smaller of two numbers, or the one that is a number.
    pub open spec fn smaller(self, other: Num) -> Num {
        if self.nan() || other.less(self) {
            other
        } else {
            self
        }
    }

    /// The number with the given bit pattern.
    pub fn from_bits(bits: u64) -> (r: Num)
        ensures
            r == (Num { bits }),
    {
        Num { bits }
    }

    /// The bit pattern of this number.
    pub fn to_bits(self) -> (r: u64)
        ensures
            r == self.bits,
    {
        self.bits
    }

    fn unsigned(self) -> (r: u64)
        ensures
            r == self.magnitude(),
    {
        if self.bits >= SIGN_BIT {
            self.bits - SIGN_BIT
        } else {
            self.bits
        }
    }

    fn signed(self) -> (r: i64)
        ensures
            r == self.rank(),
    {
        let m: u64 = self.unsigned();
        if self.bits >= SIGN_BIT {
            -(m as i64)
        } else {
            m as i64
        }
    }

    /// Is this pattern not a number?
    pub fn is_nan(self) -> (r: bool)
        ensures
            r == self.nan(),
    {
        self.unsigned() > INFINITE
    }

    /// Neither infinite nor not-a-number.
    pub fn is_finite(self) -> (r: bool)
        ensures
            r == self.finite(),
    {
        self.unsigned() < INFINITE
    }

    /// `self < other`. False whenever either side is not a number.
    pub fn lt(self, other: Num) -> (r: bool)
        ensures
            r == self.less(other),
    {
        !self.is_nan() && !other.is_nan() && self.signed() < other.signed()
    }

    /// `self <= other`. False whenever either side is not a number.
    pub fn le(self, other: Num) -> (r: bool)
        ensures
            r == self.at_most(other),
    {
        !self.is_nan() && !other.is_nan() && self.signed() <= other.signed()
    }

    /// The absolute value.
    pub fn abs(self) -> (r: Num)
        ensures
            r == self.absolute(),
    {
        Num { bits: self.unsigned() }
    }

    /// The larger of two numbers, or the one that is a number.
    pub fn max(self, other: Num) -> (r: Num)
        ensures
            r == self.larger(other),
    {
        if self.is_nan() || self.lt(other) {
            other
        } else {
            self
        }
    }

    /// The smaller of two numbers, or the one that is a number.
    pub fn min(self, other: Num) -> (r: Num)
        ensures
            r == self.smaller(other),
    {
        if self.is_nan() || other.lt(self) {
            other
        } else {
            self
        }
    }

    /// The number with its sign flipped.
    pub fn neg(self) -> (r: Num)
        ensures
            r == self.opposite(),
    {
        if self.bits >= SIGN_BIT {
            Num { bits: self.bits - SIGN_BIT }
        } else {
            Num { bits: self.bits + SIGN_BIT }
        }
    }
}

/// Among numbers the order is total: one of two numbers is at most the other, and `<` is the
/// negation of the reversed `<=`.
pub proof fn order_is_total(a: Num, b: Num)
    requires
        !a.nan(),
        !b.nan(),
    ensures
        a.at_most(b) || b.at_most(a),
        a.less(b) <==> !b.at_most(a),
{
}

/// The order is transitive.
pub proof fn order_is_transitive(a: Num, b: Num, c: Num)
    requires
        a.at_most(b),
        b.at_most(c),
    ensures
        a.at_most(c),
        a.less(b) || b.less(c) ==> a.less(c),
{
}

/// The absolute value is never below zero, forgets the sign and leaves non-negative numbers alone.
pub proof fn absolute_value(a: Num)
    requires
        !a.nan(),
    ensures
        (Num { bits: ZERO }).at_most(a.absolute()),
        a.opposite().absolute() == a.absolute(),
        a.opposite().rank() == -a.rank(),
        a.opposite().opposite() == a,
        a.rank() >= 0 ==> a.absolute().rank() == a.rank(),
        a.rank() < 0 ==> a.absolute().rank() == -a.rank(),
{
}

} // verus!
