//! Single-precision numbers.

use crate::float::magnitude::{difference, infinity, product, quotient, round, sum};
use crate::float::rounding::units;
use crate::float::whole::{
    ceiling, from_whole, nearest_whole, of_whole, to_nearest_whole, to_ceiling, to_floor, whole,
    whole_at_most,
};
use vstd::arithmetic::power2::*;
use vstd::prelude::*;

verus! {

/// A number of the binary32 format, by its bit pattern. Two values are the same
/// in contracts where their bit patterns are; the order and equality of the
/// numbers they stand for are `less` and `equals`.
#[derive(Clone, Copy, Debug, PartialEq, Eq, Structural)]
pub struct F32 {
    pub bits: u32,
}

impl F32 {
    /// The sign bit is set.
    pub open spec fn negative(self) -> bool {
        self.bits >= 0x8000_0000
    }

    /// The bit pattern without the sign.
    pub open spec fn mag(self) -> nat {
        (if self.bits >= 0x8000_0000 {
            self.bits - 0x8000_0000
        } else {
            self.bits as int
        }) as nat
    }

    pub open spec fn nan(self) -> bool {
        self.mag() > infinity(24)
    }

    pub open spec fn infinite(self) -> bool {
        self.mag() == infinity(24)
    }

    pub open spec fn finite(self) -> bool {
        self.mag() < infinity(24)
    }

    /// The absolute value of a finite number, in units of `2^-149`.
    pub open spec fn size(self) -> nat {
        units(24, self.mag())
    }

    /// The value of a finite number, in units of `2^-149`.
    pub open spec fn value(self) -> int {
        if self.negative() {
            -self.size()
        } else {
            self.size() as int
        }
    }

    /// A place on the line of all numbers but NaN, both zeros at 0.
    pub open spec fn rank(self) -> int {
        if self.negative() {
            -self.mag()
        } else {
            self.mag() as int
        }
    }

    /// The number with the given sign and magnitude bits.
    pub open spec fn of(negative: bool, mag: nat) -> F32 {
        F32 {
            bits: (if negative {
                mag + 0x8000_0000
            } else {
                mag
            }) as u32,
        }
    }

    /// The quiet NaN that invalid operations give.
    pub open spec fn not_a_number() -> F32 {
        F32 { bits: 0x7fc0_0000 }
    }

    /// The number with the opposite sign.
    pub open spec fn negated(self) -> F32 {
        F32::of(!self.negative(), self.mag())
    }

    /// `self + other`.
    pub open spec fn sum(self, other: F32) -> F32 {
        if self.nan() || other.nan() {
            F32::not_a_number()
        } else if self.infinite() {
            if other.infinite() && self.negative() != other.negative() {
                F32::not_a_number()
            } else {
                self
            }
        } else if other.infinite() {
            other
        } else {
            let v = self.value() + other.value();
            if v == 0 {
                F32::of(self.negative() && other.negative(), 0)
            } else if v > 0 {
                F32::of(false, round(24, v as nat, 1))
            } else {
                F32::of(true, round(24, (-v) as nat, 1))
            }
        }
    }

    /// `self * other`.
    pub open spec fn product(self, other: F32) -> F32 {
        let sign = self.negative() != other.negative();
        if self.nan() || other.nan() {
            F32::not_a_number()
        } else if self.infinite() || other.infinite() {
            if self.mag() == 0 || other.mag() == 0 {
                F32::not_a_number()
            } else {
                F32::of(sign, infinity(24))
            }
        } else {
            F32::of(sign, round(24, self.size() * other.size(), pow2(149)))
        }
    }

    /// `self / other`.
    pub open spec fn quotient(self, other: F32) -> F32 {
        let sign = self.negative() != other.negative();
        if self.nan() || other.nan() {
            F32::not_a_number()
        } else if self.infinite() {
            if other.infinite() {
                F32::not_a_number()
            } else {
                F32::of(sign, infinity(24))
            }
        } else if other.infinite() {
            F32::of(sign, 0)
        } else if other.mag() == 0 {
            if self.mag() == 0 {
                F32::not_a_number()
            } else {
                F32::of(sign, infinity(24))
            }
        } else {
            F32::of(sign, round(24, self.size() * pow2(149), other.size()))
        }
    }

    /// Rounded to a whole number, halves away from zero.
    pub open spec fn rounded(self) -> F32 {
        if self.nan() {
            F32::not_a_number()
        } else if self.infinite() {
            self
        } else {
            F32::of(self.negative(), of_whole(24, nearest_whole(24, self.mag())))
        }
    }

    /// Rounded up to a whole number.
    pub open spec fn raised(self) -> F32 {
        if self.nan() {
            F32::not_a_number()
        } else if self.infinite() {
            self
        } else if self.negative() {
            F32::of(true, of_whole(24, whole(24, self.mag())))
        } else {
            F32::of(false, of_whole(24, ceiling(24, self.mag())))
        }
    }

    /// The whole part, 0 for NaN, brought into `low ..= high`.
    pub open spec fn truncated(self, low: int, high: int) -> int {
        let w = whole(24, self.mag());
        if self.nan() {
            0
        } else if self.negative() {
            if self.infinite() || -w < low {
                low
            } else {
                -w
            }
        } else if self.infinite() || w > high {
            high
        } else {
            w as int
        }
    }

    /// `self < other`; false where either is NaN.
    pub open spec fn below(self, other: F32) -> bool {
        !self.nan() && !other.nan() && self.rank() < other.rank()
    }

    /// `self == other`; false where either is NaN, true of the two zeros.
    pub open spec fn same(self, other: F32) -> bool {
        !self.nan() && !other.nan() && self.rank() == other.rank()
    }

    /// The larger of two numbers; where one is NaN, the other.
    pub open spec fn greater(self, other: F32) -> F32 {
        if self.nan() {
            other
        } else if other.nan() {
            self
        } else if self.below(other) {
            other
        } else {
            self
        }
    }

    /// The number nearest to the integer `n`.
    pub open spec fn of_int(n: int) -> F32 {
        if n < 0 {
            F32::of(true, of_whole(24, (-n) as nat))
        } else {
            F32::of(false, of_whole(24, n as nat))
        }
    }

    fn sign_bit(&self) -> (b: bool)
        ensures
            b == self.negative(),
    {
        self.bits >= 0x8000_0000
    }

    fn magnitude(&self) -> (mag: u64)
        ensures
            mag == self.mag(),
    {
        if self.bits >= 0x8000_0000 {
            (self.bits - 0x8000_0000) as u64
        } else {
            self.bits as u64
        }
    }

    fn build(negative: bool, mag: u64) -> (x: F32)
        requires
            mag < 0x8000_0000,
        ensures
            x == F32::of(negative, mag as nat),
            x.negative() == negative,
            x.mag() == mag,
    {
        F32 {
            bits: if negative {
                mag as u32 + 0x8000_0000
            } else {
                mag as u32
            },
        }
    }

    pub fn is_nan(&self) -> (b: bool)
        ensures
            b == self.nan(),
    {
        self.magnitude() > 0x7f80_0000
    }

    pub fn plus(&self, other: &F32) -> (res: F32)
        ensures
            res == self.sum(*other),
    {
        let a: u64 = self.magnitude();
        let b: u64 = other.magnitude();
        let na: bool = self.sign_bit();
        let nb: bool = other.sign_bit();
        if a > 0x7f80_0000 || b > 0x7f80_0000 {
            return F32 { bits: 0x7fc0_0000 };
        }
        if a == 0x7f80_0000 {
            if b == 0x7f80_0000 && na != nb {
                return F32 { bits: 0x7fc0_0000 };
            }
            return *self;
        }
        if b == 0x7f80_0000 {
            return *other;
        }
        proof {
            if a < b {
                crate::float::magnitude::lemma_units_order(24, a as nat, b as nat);
            }
            if b < a {
                crate::float::magnitude::lemma_units_order(24, b as nat, a as nat);
            }
            lemma_zero_size(24);
            if 0 < a {
                crate::float::magnitude::lemma_units_order(24, 0, a as nat);
            }
            if 0 < b {
                crate::float::magnitude::lemma_units_order(24, 0, b as nat);
            }
        }
        if na == nb {
            if a == 0 && b == 0 {
                F32::build(na, 0)
            } else if a >= b {
                F32::build(na, sum(24, a, b))
            } else {
                F32::build(na, sum(24, b, a))
            }
        } else if a == b {
            F32::build(false, 0)
        } else if a > b {
            F32::build(na, difference(24, a, b))
        } else {
            F32::build(nb, difference(24, b, a))
        }
    }

    pub fn minus(&self, other: &F32) -> (res: F32)
        ensures
            res == self.sum(other.negated()),
    {
        let o: F32 = F32::build(!other.sign_bit(), other.magnitude());
        self.plus(&o)
    }

    pub fn times(&self, other: &F32) -> (res: F32)
        ensures
            res == self.product(*other),
    {
        let a: u64 = self.magnitude();
        let b: u64 = other.magnitude();
        let sign: bool = self.sign_bit() != other.sign_bit();
        if a > 0x7f80_0000 || b > 0x7f80_0000 {
            return F32 { bits: 0x7fc0_0000 };
        }
        if a == 0x7f80_0000 || b == 0x7f80_0000 {
            if a == 0 || b == 0 {
                return F32 { bits: 0x7fc0_0000 };
            }
            return F32::build(sign, 0x7f80_0000);
        }
        F32::build(sign, product(24, a, b))
    }

    pub fn over(&self, other: &F32) -> (res: F32)
        ensures
            res == self.quotient(*other),
    {
        let a: u64 = self.magnitude();
        let b: u64 = other.magnitude();
        let sign: bool = self.sign_bit() != other.sign_bit();
        if a > 0x7f80_0000 || b > 0x7f80_0000 {
            return F32 { bits: 0x7fc0_0000 };
        }
        if a == 0x7f80_0000 {
            if b == 0x7f80_0000 {
                return F32 { bits: 0x7fc0_0000 };
            }
            return F32::build(sign, 0x7f80_0000);
        }
        if b == 0x7f80_0000 {
            return F32::build(sign, 0);
        }
        if b == 0 {
            if a == 0 {
                return F32 { bits: 0x7fc0_0000 };
            }
            return F32::build(sign, 0x7f80_0000);
        }
        F32::build(sign, quotient(a, b))
    }

    pub fn round(&self) -> (res: F32)
        ensures
            res == self.rounded(),
    {
        let a: u64 = self.magnitude();
        if a > 0x7f80_0000 {
            return F32 { bits: 0x7fc0_0000 };
        }
        if a == 0x7f80_0000 {
            return *self;
        }
        F32::build(self.sign_bit(), to_nearest_whole(24, a))
    }

    pub fn ceil(&self) -> (res: F32)
        ensures
            res == self.raised(),
    {
        let a: u64 = self.magnitude();
        if a > 0x7f80_0000 {
            return F32 { bits: 0x7fc0_0000 };
        }
        if a == 0x7f80_0000 {
            return *self;
        }
        if self.sign_bit() {
            F32::build(true, to_floor(24, a))
        } else {
            F32::build(false, to_ceiling(24, a))
        }
    }

    /// Conversion to an unsigned integer of at most `max`, as `as` does it.
    fn to_unsigned(&self, max: u64) -> (n: u64)
        ensures
            n == self.truncated(0, max as int),
    {
        let a: u64 = self.magnitude();
        if a > 0x7f80_0000 {
            return 0;
        }
        if self.sign_bit() {
            return 0;
        }
        if a == 0x7f80_0000 {
            return max;
        }
        whole_at_most(24, a, max)
    }

    pub fn to_u32(&self) -> (n: u32)
        ensures
            n == self.truncated(0, u32::MAX as int),
    {
        self.to_unsigned(u32::MAX as u64) as u32
    }

    pub fn to_u64(&self) -> (n: u64)
        ensures
            n == self.truncated(0, u64::MAX as int),
    {
        self.to_unsigned(u64::MAX)
    }

    pub fn to_i32(&self) -> (n: i32)
        ensures
            n == self.truncated(i32::MIN as int, i32::MAX as int),
    {
        let a: u64 = self.magnitude();
        if a > 0x7f80_0000 {
            return 0;
        }
        if self.sign_bit() {
            if a == 0x7f80_0000 {
                return i32::MIN;
            }
            let w: u64 = whole_at_most(24, a, 0x8000_0000);
            (-(w as i64)) as i32
        } else {
            self.to_unsigned(0x7fff_ffff) as i32
        }
    }

    pub fn less(&self, other: &F32) -> (b: bool)
        ensures
            b == self.below(*other),
    {
        let a: u64 = self.magnitude();
        let b: u64 = other.magnitude();
        if a > 0x7f80_0000 || b > 0x7f80_0000 {
            return false;
        }
        if self.sign_bit() {
            if other.sign_bit() {
                b < a
            } else {
                a > 0 || b > 0
            }
        } else if other.sign_bit() {
            false
        } else {
            a < b
        }
    }

    pub fn equals(&self, other: &F32) -> (b: bool)
        ensures
            b == self.same(*other),
    {
        let a: u64 = self.magnitude();
        let b: u64 = other.magnitude();
        if a > 0x7f80_0000 || b > 0x7f80_0000 {
            return false;
        }
        if self.sign_bit() == other.sign_bit() {
            a == b
        } else {
            a == 0 && b == 0
        }
    }

    pub fn max(&self, other: &F32) -> (res: F32)
        ensures
            res == self.greater(*other),
    {
        if self.is_nan() {
            *other
        } else if other.is_nan() {
            *self
        } else if self.less(other) {
            *other
        } else {
            *self
        }
    }

    pub fn from_u64(n: u64) -> (x: F32)
        ensures
            x == F32::of_int(n as int),
    {
        proof {
            assert(infinity(24) < 0x8000_0000);
        }
        F32::build(false, from_whole(24, n))
    }

    pub fn from_i32(n: i32) -> (x: F32)
        ensures
            x == F32::of_int(n as int),
    {
        if n < 0 {
            F32::build(true, from_whole(24, (-(n as i64)) as u64))
        } else {
            F32::build(false, from_whole(24, n as u64))
        }
    }

}

/// A magnitude of zero has the value zero.
pub proof fn lemma_zero_size(p: nat)
    requires
        p == 24 || p == 53,
    ensures
        units(p, 0) == 0,
{
    crate::float::rounding::lemma_pow2_steps();
    assert(0 * pow2(crate::float::rounding::exponent(p, 0)) == 0);
}

/// The order of finite numbers is the order of their values.
pub proof fn below_is_order_of_values(a: F32, b: F32)
    requires
        a.finite(),
        b.finite(),
    ensures
        a.below(b) == (a.value() < b.value()),
        a.same(b) == (a.value() == b.value()),
{
    let x = a.mag();
    let y = b.mag();
    lemma_zero_size(24);
    if x < y {
        crate::float::magnitude::lemma_units_order(24, x, y);
    }
    if y < x {
        crate::float::magnitude::lemma_units_order(24, y, x);
    }
    if 0 < x {
        crate::float::magnitude::lemma_units_order(24, 0, x);
    }
    if 0 < y {
        crate::float::magnitude::lemma_units_order(24, 0, y);
    }
}

} // verus!
