//! Where single-precision arithmetic on whole numbers is exact.

use crate::float::magnitude::{infinity, round};
use crate::float::rounding::{
    lemma_half_even_scale, lemma_half_even_whole, lemma_nearest_closed, lemma_pow2_steps,
    lemma_quotient, units,
};
use crate::float::single::{below_is_order_of_values, lemma_zero_size, F32};
use crate::float::whole::{of_whole, one};
use vstd::arithmetic::power2::*;
use vstd::prelude::*;

verus! {

/// The largest whole number up to which every whole number has a
/// single-precision number of its own.
pub open spec fn exact_limit() -> int {
    0x100_0000
}

/// `m * 2^e` units is a number of the format if `m` has at most 24 digits.
pub proof fn lemma_representable(m: nat, e: nat)
    requires
        m < 0x100_0000,
        e <= 253,
    ensures
        round(24, m * pow2(e), 1) < infinity(24),
        units(24, round(24, m * pow2(e), 1)) == m * pow2(e),
    decreases e,
{
    lemma_pow2_steps();
    let w = pow2(e);
    lemma_pow2_pos(e);
    if e == 0 || m >= 0x80_0000 {
        lemma_pow2_adds(24, e);
        assert(m * w < pow2(24) * w) by (nonlinear_arith)
            requires
                m < pow2(24),
                w > 0,
        ;
        assert(1 * pow2(24 + e) == pow2(24 + e));
        if e > 0 {
            lemma_pow2_adds(23, e);
            assert(m * w >= pow2(23) * w) by (nonlinear_arith)
                requires
                    m >= pow2(23),
            ;
            assert((24 + e - 1) as nat == 23 + e);
            assert(1 * pow2(23 + e) == pow2(23 + e));
        }
        lemma_nearest_closed(24, m * w, 1, e);
        assert(1 * w == w);
        lemma_half_even_scale(m, 1, w);
        lemma_half_even_whole(m);
        let step = pow2(23);
        let mag = e * step + m;
        assert(e * step <= 253 * step) by (nonlinear_arith)
            requires
                e <= 253,
        ;
        assert(mag < infinity(24));
        if m >= step {
            assert((e + 1) * step == e * step + step) by (nonlinear_arith);
            assert((e + 1 + 1) * step == e * step + 2 * step) by (nonlinear_arith);
            lemma_quotient(mag, step, e + 1);
        } else {
            assert(0 * step == 0);
        }
    } else {
        let v = pow2((e - 1) as nat);
        lemma_pow2_unfold(e);
        assert(m * (2 * v) == (2 * m) * v) by (nonlinear_arith);
        lemma_representable(2 * m, (e - 1) as nat);
    }
}

/// Whole numbers up to the limit are represented exactly.
pub proof fn whole_numbers_are_exact(n: int)
    requires
        -exact_limit() <= n <= exact_limit(),
    ensures
        F32::of_int(n).finite(),
        F32::of_int(n).value() == n * one(24),
        F32::of_int(n).negative() == (n < 0),
{
    let k = (if n < 0 {
        -n
    } else {
        n
    }) as nat;
    if k < 0x100_0000 {
        lemma_representable(k, 149);
    } else {
        lemma_pow2_steps();
        lemma_pow2_unfold(150);
        lemma_representable(0x80_0000, 150);
        assert(0x80_0000 * pow2(150) == 0x100_0000 * pow2(149));
    }
    let x = F32::of_int(n);
    assert(x.mag() == of_whole(24, k));
    assert(-(k * one(24)) == (-k) * one(24)) by (nonlinear_arith);
}

/// The sum of two whole numbers is exact as long as it stays in the limit.
pub proof fn whole_sums_are_exact(a: int, b: int)
    requires
        -exact_limit() <= a <= exact_limit(),
        -exact_limit() <= b <= exact_limit(),
        -exact_limit() <= a + b <= exact_limit(),
    ensures
        F32::of_int(a).sum(F32::of_int(b)) == F32::of_int(a + b),
{
    whole_numbers_are_exact(a);
    whole_numbers_are_exact(b);
    let o = one(24);
    lemma_pow2_pos(149);
    assert(a * o + b * o == (a + b) * o) by (nonlinear_arith);
    let c = a + b;
    if c == 0 {
        assert(0 * o == 0);
        lemma_zero_size(24);
        whole_numbers_are_exact(0);
        below_is_order_of_values(F32::of_int(0), F32::of(false, 0));
    } else if c > 0 {
        assert(c * o > 0) by (nonlinear_arith)
            requires
                c > 0,
                o > 0,
        ;
    } else {
        assert(c * o < 0) by (nonlinear_arith)
            requires
                c < 0,
                o > 0,
        ;
        assert(-(c * o) == (-c) * o) by (nonlinear_arith);
    }
}

/// Taking the opposite sign of a positive whole number.
pub proof fn whole_negation(n: int)
    requires
        0 < n <= exact_limit(),
    ensures
        F32::of_int(n).negated() == F32::of_int(-n),
{
    whole_numbers_are_exact(n);
    whole_numbers_are_exact(-n);
}

/// The larger of two whole numbers.
pub proof fn whole_maximum(a: int, b: int)
    requires
        -exact_limit() <= a <= exact_limit(),
        -exact_limit() <= b <= exact_limit(),
    ensures
        F32::of_int(a).greater(F32::of_int(b)) == F32::of_int(if a < b {
            b
        } else {
            a
        }),
{
    whole_numbers_are_exact(a);
    whole_numbers_are_exact(b);
    below_is_order_of_values(F32::of_int(a), F32::of_int(b));
    let o = one(24);
    lemma_pow2_pos(149);
    if a < b {
        assert(a * o < b * o) by (nonlinear_arith)
            requires
                a < b,
                o > 0,
        ;
    } else {
        assert(a * o >= b * o) by (nonlinear_arith)
            requires
                a >= b,
                o > 0,
        ;
    }
}

/// Truncating a whole number gives it back.
pub proof fn whole_truncation(n: int, high: int)
    requires
        0 <= n <= exact_limit(),
        n <= high,
    ensures
        F32::of_int(n).truncated(0, high) == n,
{
    whole_numbers_are_exact(n);
    let o = one(24);
    lemma_pow2_pos(149);
    assert((n + 1) * o == n * o + o) by (nonlinear_arith);
    lemma_quotient((n * o) as nat, o, n as nat);
}

} // verus!
