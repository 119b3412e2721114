//! Percentages.
//!
//! A percentage is held as the bit pattern of an IEEE 754 double. The library
//! orders percentages, which the bit pattern decides on its own; arithmetic on
//! them and their rendering is left to the caller.
use vstd::prelude::*;

verus! {

/// The bit pattern of a double: a sign, and a magnitude that grows with the value.
#[derive(Debug, Clone, Copy, PartialEq, Eq, Structural)]
pub struct Percent {
    pub bits: u64,
}

pub const SIGN: u64 = 0x8000_0000_0000_0000;

/// The magnitude of infinity; those above it are no numbers.
pub const INFINITE: u64 = 0x7ff0_0000_0000_0000;

impl Percent {
    /// The magnitude of the value: all bits but the sign.
    pub open spec fn magnitude(self) -> int {
        if self.bits >= SIGN {
            self.bits - SIGN
        } else {
            self.bits as int
        }
    }

    pub open spec fn is_number(self) -> bool {
        self.magnitude() <= INFINITE
    }

    pub open spec fn is_finite(self) -> bool {
        self.magnitude() < INFINITE
    }

    /// An integer that orders numbers as their values do; both zeros have 0.
    pub open spec fn rank(self) -> int {
        if self.bits >= SIGN {
            -self.magnitude()
        } else {
            self.magnitude()
        }
    }

    /// `self >= other`, as doubles compare: false where one is no number.
    pub open spec fn reaches(self, other: Percent) -> bool {
        self.is_number() && other.is_number() && self.rank() >= other.rank()
    }

    /// `self < other`, as doubles compare: false where one is no number.
    pub open spec fn under(self, other: Percent) -> bool {
        self.is_number() && other.is_number() && self.rank() < other.rank()
    }

    fn size(self) -> (r: u64)
        ensures
            r == self.magnitude(),
    {
        if self.bits >= SIGN {
            self.bits - SIGN
        } else {
            self.bits
        }
    }

    pub fn number(self) -> (r: bool)
        ensures
            r == self.is_number(),
    {
        self.size() <= INFINITE
    }

    pub fn finite(self) -> (r: bool)
        ensures
            r == self.is_finite(),
    {
        self.size() < INFINITE
    }

    /// `self >= other`.
    pub fn at_least(self, other: Percent) -> (r: bool)
        ensures
            r == self.reaches(other),
    {
        if !self.number() || !other.number() {
            return false;
        }
        if self.bits < SIGN {
            if other.bits < SIGN {
                self.bits >= other.bits
            } else {
                true
            }
        } else if other.bits < SIGN {
            self.size() == 0 && other.size() == 0
        } else {
            self.size() <= other.size()
        }
    }

    /// `self < other`.
    pub fn below(self, other: Percent) -> (r: bool)
        ensures
            r == self.under(other),
    {
        self.number() && other.number() && !self.at_least(other)
    }
}

/// The bits of something that is no number.
pub const NO_NUMBER: u64 = 0x7ff8_0000_0000_0000;

/// The bits of 0.
pub const ZERO: u64 = 0;

/// The bits of 1.
pub const ONE: u64 = 0x3ff0_0000_0000_0000;

/// The bits of 80.
pub const EIGHTY: u64 = 0x4054_0000_0000_0000;

/// The bits of 95.
pub const NINETY_FIVE: u64 = 0x4057_c000_0000_0000;

/// The bits of 100.
pub const HUNDRED: u64 = 0x4059_0000_0000_0000;

/// The bits of the double nearest to a tenth.
pub const TENTH: u64 = 0x3fb9_9999_9999_999a;

/// The bits of the double nearest to minus a tenth.
pub const MINUS_TENTH: u64 = 0xbfb9_9999_9999_999a;

/// Of two numbers, one reaches the other or lies under it, never both.
pub proof fn law_order_is_total(a: Percent, b: Percent)
    requires
        a.is_number(),
        b.is_number(),
    ensures
        a.reaches(b) <==> !a.under(b),
        a.under(b) ==> b.reaches(a),
{
}

/// The order of percentages is transitive.
pub proof fn law_order_is_transitive(a: Percent, b: Percent, c: Percent)
    requires
        a.reaches(b),
        b.reaches(c),
    ensures
        a.reaches(c),
{
}

/// Numbers without a sign are ordered as their bits, numbers with one the other way round,
/// and any of these lies under any of those, but for the two zeros. What is no number
/// neither reaches nor lies under anything.
pub proof fn law_order_goes_by_the_bits(a: Percent, b: Percent)
    ensures
        a.bits <= 0x7ff0_0000_0000_0000 && b.bits <= 0x7ff0_0000_0000_0000 ==> (a.under(b)
            <==> a.bits < b.bits),
        0x8000_0000_0000_0000 <= a.bits <= 0xfff0_0000_0000_0000 && 0x8000_0000_0000_0000 <= b.bits
            <= 0xfff0_0000_0000_0000 ==> (a.under(b) <==> a.bits > b.bits),
        0x8000_0000_0000_0000 < a.bits <= 0xfff0_0000_0000_0000 && b.bits <= 0x7ff0_0000_0000_0000
            ==> a.under(b) && !b.under(a),
        0x7ff0_0000_0000_0000 < a.bits < 0x8000_0000_0000_0000 || a.bits > 0xfff0_0000_0000_0000
            ==> !a.under(b) && !b.under(a) && !a.reaches(b) && !b.reaches(a),
{
}

/// The bits of the numbers that are used, as doubles have them.
pub proof fn law_bits_of_numbers()
    ensures
        ZERO == 0 && ONE == 0x3ff0_0000_0000_0000 && EIGHTY == 0x4054_0000_0000_0000,
        NINETY_FIVE == 0x4057_c000_0000_0000 && HUNDRED == 0x4059_0000_0000_0000,
        TENTH == 0x3fb9_9999_9999_999a && MINUS_TENTH == 0xbfb9_9999_9999_999a,
        SIGN == 0x8000_0000_0000_0000 && INFINITE == 0x7ff0_0000_0000_0000,
        (Percent { bits: EIGHTY }).under(Percent { bits: NINETY_FIVE }),
        (Percent { bits: NINETY_FIVE }).under(Percent { bits: HUNDRED }),
        (Percent { bits: MINUS_TENTH }).under(Percent { bits: ZERO }),
        (Percent { bits: ZERO }).under(Percent { bits: TENTH }),
{
}

} // verus!
