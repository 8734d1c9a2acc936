//! Double-precision numbers.

use crate::float::magnitude::{difference, infinity, product, round, sum};
use crate::float::rounding::units;
use crate::float::single::lemma_zero_size;
use crate::float::whole::{
    from_whole, nearest_whole, of_whole, to_nearest_whole, whole, whole_at_most,
};
use vstd::arithmetic::power2::*;
use vstd::prelude::*;

verus! {

/// A number of the binary64 format, by its bit pattern. Two values are the same
/// in contracts where their bit patterns are; the order and equality of the
/// numbers they stand for are `less` and `equals`.
#[derive(Clone, Copy, Debug, PartialEq, Eq, Structural)]
pub struct F64 {
    pub bits: u64,
}

impl F64 {
    /// The sign bit is set.
    pub open spec fn negative(self) -> bool {
        self.bits >= 0x8000_0000_0000_0000
    }

    /// The bit pattern without the sign.
    pub open spec fn mag(self) -> nat {
        (if self.bits >= 0x8000_0000_0000_0000 {
            self.bits - 0x8000_0000_0000_0000
        } else {
            self.bits as int
        }) as nat
    }

    pub open spec fn nan(self) -> bool {
        self.mag() > infinity(53)
    }

    pub open spec fn infinite(self) -> bool {
        self.mag() == infinity(53)
    }

    pub open spec fn finite(self) -> bool {
        self.mag() < infinity(53)
    }

    /// The absolute value of a finite number, in units of `2^-1074`.
    pub open spec fn size(self) -> nat {
        units(53, self.mag())
    }

    /// The value of a finite number, in units of `2^-1074`.
    pub open spec fn value(self) -> int {
        if self.negative() {
            -self.size()
        } else {
            self.size() as int
        }
    }

    /// A place on the line of all numbers but NaN, both zeros at 0.
    pub open spec fn rank(self) -> int {
        if self.negative() {
            -self.mag()
        } else {
            self.mag() as int
        }
    }

    /// The number with the given sign and magnitude bits.
    pub open spec fn of(negative: bool, mag: nat) -> F64 {
        F64 {
            bits: (if negative {
                mag + 0x8000_0000_0000_0000
            } else {
                mag
            }) as u64,
        }
    }

    /// The quiet NaN that invalid operations give.
    pub open spec fn not_a_number() -> F64 {
        F64 { bits: 0x7ff8_0000_0000_0000 }
    }

    /// The number with the opposite sign.
    pub open spec fn negated(self) -> F64 {
        F64::of(!self.negative(), self.mag())
    }

    /// `self + other`.
    pub open spec fn sum(self, other: F64) -> F64 {
        if self.nan() || other.nan() {
            F64::not_a_number()
        } else if self.infinite() {
            if other.infinite() && self.negative() != other.negative() {
                F64::not_a_number()
            } else {
                self
            }
        } else if other.infinite() {
            other
        } else {
            let v = self.value() + other.value();
            if v == 0 {
                F64::of(self.negative() && other.negative(), 0)
            } else if v > 0 {
                F64::of(false, round(53, v as nat, 1))
            } else {
                F64::of(true, round(53, (-v) as nat, 1))
            }
        }
    }

    /// `self * other`.
    pub open spec fn product(self, other: F64) -> F64 {
        let sign = self.negative() != other.negative();
        if self.nan() || other.nan() {
            F64::not_a_number()
        } else if self.infinite() || other.infinite() {
            if self.mag() == 0 || other.mag() == 0 {
                F64::not_a_number()
            } else {
                F64::of(sign, infinity(53))
            }
        } else {
            F64::of(sign, round(53, self.size() * other.size(), pow2(1074)))
        }
    }

    /// Rounded to a whole number, halves away from zero.
    pub open spec fn rounded(self) -> F64 {
        if self.nan() {
            F64::not_a_number()
        } else if self.infinite() {
            self
        } else {
            F64::of(self.negative(), of_whole(53, nearest_whole(53, self.mag())))
        }
    }

    /// The whole part, 0 for NaN, brought into `low ..= high`.
    pub open spec fn truncated(self, low: int, high: int) -> int {
        let w = whole(53, self.mag());
        if self.nan() {
            0
        } else if self.negative() {
            if self.infinite() || -w < low {
                low
            } else {
                -w
            }
        } else if self.infinite() || w > high {
            high
        } else {
            w as int
        }
    }

    /// `self < other`; false where either is NaN.
    pub open spec fn below(self, other: F64) -> bool {
        !self.nan() && !other.nan() && self.rank() < other.rank()
    }

    /// `self == other`; false where either is NaN, true of the two zeros.
    pub open spec fn same(self, other: F64) -> bool {
        !self.nan() && !other.nan() && self.rank() == other.rank()
    }

    /// The larger of two numbers; where one is NaN, the other.
    pub open spec fn greater(self, other: F64) -> F64 {
        if self.nan() {
            other
        } else if other.nan() {
            self
        } else if self.below(other) {
            other
        } else {
            self
        }
    }

    /// The number nearest to the integer `n`.
    pub open spec fn of_int(n: int) -> F64 {
        if n < 0 {
            F64::of(true, of_whole(53, (-n) as nat))
        } else {
            F64::of(false, of_whole(53, n as nat))
        }
    }

    fn sign_bit(&self) -> (b: bool)
        ensures
            b == self.negative(),
    {
        self.bits >= 0x8000_0000_0000_0000
    }

    fn magnitude(&self) -> (mag: u64)
        ensures
            mag == self.mag(),
    {
        if self.bits >= 0x8000_0000_0000_0000 {
            (self.bits - 0x8000_0000_0000_0000)
        } else {
            self.bits
        }
    }

    fn build(negative: bool, mag: u64) -> (x: F64)
        requires
            mag < 0x8000_0000_0000_0000,
        ensures
            x == F64::of(negative, mag as nat),
            x.negative() == negative,
            x.mag() == mag,
    {
        F64 {
            bits: if negative {
                mag + 0x8000_0000_0000_0000
            } else {
                mag
            },
        }
    }

    pub fn is_nan(&self) -> (b: bool)
        ensures
            b == self.nan(),
    {
        self.magnitude() > 0x7ff0_0000_0000_0000
    }

    pub fn plus(&self, other: &F64) -> (res: F64)
        ensures
            res == self.sum(*other),
    {
        let a: u64 = self.magnitude();
        let b: u64 = other.magnitude();
        let na: bool = self.sign_bit();
        let nb: bool = other.sign_bit();
        if a > 0x7ff0_0000_0000_0000 || b > 0x7ff0_0000_0000_0000 {
            return F64 { bits: 0x7ff8_0000_0000_0000 };
        }
        if a == 0x7ff0_0000_0000_0000 {
            if b == 0x7ff0_0000_0000_0000 && na != nb {
                return F64 { bits: 0x7ff8_0000_0000_0000 };
            }
            return *self;
        }
        if b == 0x7ff0_0000_0000_0000 {
            return *other;
        }
        proof {
            if a < b {
                crate::float::magnitude::lemma_units_order(53, a as nat, b as nat);
            }
            if b < a {
                crate::float::magnitude::lemma_units_order(53, b as nat, a as nat);
            }
            lemma_zero_size(53);
            if 0 < a {
                crate::float::magnitude::lemma_units_order(53, 0, a as nat);
            }
            if 0 < b {
                crate::float::magnitude::lemma_units_order(53, 0, b as nat);
            }
        }
        if na == nb {
            if a == 0 && b == 0 {
                F64::build(na, 0)
            } else if a >= b {
                F64::build(na, sum(53, a, b))
            } else {
                F64::build(na, sum(53, b, a))
            }
        } else if a == b {
            F64::build(false, 0)
        } else if a > b {
            F64::build(na, difference(53, a, b))
        } else {
            F64::build(nb, difference(53, b, a))
        }
    }

    pub fn minus(&self, other: &F64) -> (res: F64)
        ensures
            res == self.sum(other.negated()),
    {
        let o: F64 = F64::build(!other.sign_bit(), other.magnitude());
        self.plus(&o)
    }

    pub fn times(&self, other: &F64) -> (res: F64)
        ensures
            res == self.product(*other),
    {
        let a: u64 = self.magnitude();
        let b: u64 = other.magnitude();
        let sign: bool = self.sign_bit() != other.sign_bit();
        if a > 0x7ff0_0000_0000_0000 || b > 0x7ff0_0000_0000_0000 {
            return F64 { bits: 0x7ff8_0000_0000_0000 };
        }
        if a == 0x7ff0_0000_0000_0000 || b == 0x7ff0_0000_0000_0000 {
            if a == 0 || b == 0 {
                return F64 { bits: 0x7ff8_0000_0000_0000 };
            }
            return F64::build(sign, 0x7ff0_0000_0000_0000);
        }
        F64::build(sign, product(53, a, b))
    }

    pub fn round(&self) -> (res: F64)
        ensures
            res == self.rounded(),
    {
        let a: u64 = self.magnitude();
        if a > 0x7ff0_0000_0000_0000 {
            return F64 { bits: 0x7ff8_0000_0000_0000 };
        }
        if a == 0x7ff0_0000_0000_0000 {
            return *self;
        }
        F64::build(self.sign_bit(), to_nearest_whole(53, a))
    }

    /// Conversion to an unsigned integer of at most `max`, as `as` does it.
    fn to_unsigned(&self, max: u64) -> (n: u64)
        ensures
            n == self.truncated(0, max as int),
    {
        let a: u64 = self.magnitude();
        if a > 0x7ff0_0000_0000_0000 {
            return 0;
        }
        if self.sign_bit() {
            return 0;
        }
        if a == 0x7ff0_0000_0000_0000 {
            return max;
        }
        whole_at_most(53, a, max)
    }

    pub fn to_u16(&self) -> (n: u16)
        ensures
            n == self.truncated(0, u16::MAX as int),
    {
        self.to_unsigned(0xffff) as u16
    }

    /// Brought into `low ..= high`; NaN stays.
    pub fn clamp(&self, low: &F64, high: &F64) -> (res: F64)
        ensures
            res == (if self.below(*low) {
                *low
            } else if high.below(*self) {
                *high
            } else {
                *self
            }),
    {
        if self.less(low) {
            *low
        } else if high.less(self) {
            *high
        } else {
            *self
        }
    }

    pub fn less(&self, other: &F64) -> (b: bool)
        ensures
            b == self.below(*other),
    {
        let a: u64 = self.magnitude();
        let b: u64 = other.magnitude();
        if a > 0x7ff0_0000_0000_0000 || b > 0x7ff0_0000_0000_0000 {
            return false;
        }
        if self.sign_bit() {
            if other.sign_bit() {
                b < a
            } else {
                a > 0 || b > 0
            }
        } else if other.sign_bit() {
            false
        } else {
            a < b
        }
    }

    pub fn equals(&self, other: &F64) -> (b: bool)
        ensures
            b == self.same(*other),
    {
        let a: u64 = self.magnitude();
        let b: u64 = other.magnitude();
        if a > 0x7ff0_0000_0000_0000 || b > 0x7ff0_0000_0000_0000 {
            return false;
        }
        if self.sign_bit() == other.sign_bit() {
            a == b
        } else {
            a == 0 && b == 0
        }
    }

    pub fn max(&self, other: &F64) -> (res: F64)
        ensures
            res == self.greater(*other),
    {
        if self.is_nan() {
            *other
        } else if other.is_nan() {
            *self
        } else if self.less(other) {
            *other
        } else {
            *self
        }
    }


    pub fn from_u64(n: u64) -> (x: F64)
        ensures
            x == F64::of_int(n as int),
    {
        F64::build(false, from_whole(53, n))
    }
}

/// The order of finite numbers is the order of their values.
pub proof fn below_is_order_of_double_values(a: F64, b: F64)
    requires
        a.finite(),
        b.finite(),
    ensures
        a.below(b) == (a.value() < b.value()),
        a.same(b) == (a.value() == b.value()),
{
    let x = a.mag();
    let y = b.mag();
    lemma_zero_size(53);
    if x < y {
        crate::float::magnitude::lemma_units_order(53, x, y);
    }
    if y < x {
        crate::float::magnitude::lemma_units_order(53, y, x);
    }
    if 0 < x {
        crate::float::magnitude::lemma_units_order(53, 0, x);
    }
    if 0 < y {
        crate::float::magnitude::lemma_units_order(53, 0, y);
    }
}

} // verus!
