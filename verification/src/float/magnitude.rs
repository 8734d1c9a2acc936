//! Arithmetic on magnitude bits, for single (`p == 24`) and double
//! (`p == 53`) precision.

use crate::float::rounding::{
    at_most, exponent, lemma_nearest_scale, lemma_nearest_sticky, lemma_nearest_unfold,
    lemma_pow2_steps, nearest, pack, power_of_two, scaled_den, scaled_num, significand, units,
};
use vstd::arithmetic::div_mod::*;
use vstd::arithmetic::mul::*;
use vstd::arithmetic::power2::*;
use vstd::prelude::*;

verus! {

/// The two precisions in use.
pub open spec fn is_precision(p: nat) -> bool {
    p == 24 || p == 53
}

/// The smallest positive number is `2^-unit(p)`.
pub open spec fn unit(p: nat) -> nat {
    if p == 24 {
        149
    } else {
        1074
    }
}

/// Magnitude bits of infinity.
pub open spec fn infinity(p: nat) -> nat {
    if p == 24 {
        0x7f80_0000
    } else {
        0x7ff0_0000_0000_0000
    }
}

/// Magnitude bits of the number nearest to `num / den` units; infinity where
/// that is beyond the largest finite number.
pub open spec fn round(p: nat, num: nat, den: nat) -> nat {
    at_most(nearest(p, num, den), infinity(p))
}

pub fn unit_of(p: u32) -> (u: u32)
    requires
        is_precision(p as nat),
    ensures
        u == unit(p as nat),
{
    if p == 24 {
        149
    } else {
        1074
    }
}

pub fn infinity_of(p: u32) -> (mag: u64)
    requires
        is_precision(p as nat),
    ensures
        mag == infinity(p as nat),
{
    if p == 24 {
        0x7f80_0000
    } else {
        0x7ff0_0000_0000_0000
    }
}

/// Bounds on the parts of a finite number.
pub proof fn lemma_parts(p: nat, mag: nat)
    requires
        is_precision(p),
        mag < infinity(p),
    ensures
        significand(p, mag) < pow2(p),
        pow2(p) == 2 * pow2((p - 1) as nat),
        exponent(p, mag) > 0 ==> significand(p, mag) >= pow2((p - 1) as nat),
        exponent(p, mag) <= 2045,
        p == 24 ==> exponent(p, mag) <= 253,
        mag == exponent(p, mag) * pow2((p - 1) as nat) + significand(p, mag),
{
    lemma_pow2_steps();
    let step = pow2((p - 1) as nat);
    if mag >= step {
        lemma_fundamental_div_mod(mag as int, step as int);
        lemma_mod_bound(mag as int, step as int);
        let f = mag / step;
        assert(f >= 1) by {
            lemma_div_is_ordered(step as int, mag as int, step as int);
            lemma_div_by_self(step as int);
        }
        assert((f - 1) * step + step == step * f) by (nonlinear_arith);
        if p == 24 {
            assert(f <= 254) by (nonlinear_arith)
                requires
                    step * f <= mag,
                    mag < 255 * step,
                    step > 0,
            ;
        } else {
            assert(f <= 2046) by (nonlinear_arith)
                requires
                    step * f <= mag,
                    mag < 2047 * step,
                    step > 0,
            ;
        }
    } else {
        assert(0 * step == 0);
    }
}

/// Larger magnitude bits have the larger exponent.
proof fn lemma_exponent_order(p: nat, a: nat, b: nat)
    requires
        is_precision(p),
        a <= b < infinity(p),
    ensures
        exponent(p, a) <= exponent(p, b),
{
    lemma_parts(p, a);
    lemma_parts(p, b);
    let s = pow2((p - 1) as nat);
    lemma_pow2_pos((p - 1) as nat);
    let ea = exponent(p, a);
    let eb = exponent(p, b);
    if ea > eb {
        assert(ea * s >= (eb + 1) * s) by (nonlinear_arith)
            requires
                ea >= eb + 1,
        ;
        assert((eb + 1) * s == eb * s + s) by (nonlinear_arith);
    }
}

/// Magnitude bits are ordered as the values that they stand for.
pub proof fn lemma_units_order(p: nat, a: nat, b: nat)
    requires
        is_precision(p),
        a < b < infinity(p),
    ensures
        units(p, a) < units(p, b),
{
    lemma_parts(p, a);
    lemma_parts(p, b);
    lemma_exponent_order(p, a, b);
    let ea = exponent(p, a);
    let eb = exponent(p, b);
    let ma = significand(p, a);
    let mb = significand(p, b);
    let s = pow2((p - 1) as nat);
    lemma_pow2_pos(ea);
    if ea == eb {
        assert(ma < mb);
        assert(ma * pow2(ea) < mb * pow2(eb)) by (nonlinear_arith)
            requires
                ma < mb,
                ea == eb,
                pow2(ea) > 0,
        ;
    } else {
        let d = (eb - ea) as nat;
        lemma_pow2_adds(ea, d);
        lemma_pow2_unfold(d);
        lemma_pow2_pos((d - 1) as nat);
        let w = pow2(ea);
        let v = pow2((d - 1) as nat);
        assert(ma * w < mb * (w * (2 * v))) by (nonlinear_arith)
            requires
                ma < 2 * s,
                mb >= s,
                v >= 1,
                w > 0,
        ;
    }
}

/// Significand and exponent of a finite number.
pub fn split(p: u32, mag: u64) -> (parts: (u64, u32))
    requires
        is_precision(p as nat),
        mag < infinity(p as nat),
    ensures
        parts.0 == significand(p as nat, mag as nat),
        parts.1 == exponent(p as nat, mag as nat),
{
    proof {
        lemma_pow2_steps();
        lemma_parts(p as nat, mag as nat);
    }
    let step: u64 = if p == 24 {
        0x80_0000
    } else {
        0x10_0000_0000_0000
    };
    if mag < step {
        (mag, 0)
    } else {
        ((step + mag % step), (mag / step - 1) as u32)
    }
}

/// Powers of two in numerator and denominator cancel.
proof fn lemma_nearest_powers(p: nat, n: nat, d: nat, a: nat, b: nat)
    requires
        p >= 1,
        d > 0,
    ensures
        nearest(p, n * pow2(a), d * pow2(b)) == nearest(
            p,
            scaled_num(n, a - b),
            d * scaled_den(a - b),
        ),
{
    if a >= b {
        let k = (a - b) as nat;
        lemma_pow2_adds(k, b);
        lemma_pow2_pos(b);
        assert(n * (pow2(k) * pow2(b)) == (n * pow2(k)) * pow2(b)) by (nonlinear_arith);
        lemma_nearest_scale(p, n * pow2(k), d, pow2(b));
        assert(d * 1 == d);
    } else {
        let k = (b - a) as nat;
        lemma_pow2_adds(k, a);
        lemma_pow2_pos(a);
        lemma_pow2_pos(k);
        assert(d * (pow2(k) * pow2(a)) == (d * pow2(k)) * pow2(a)) by (nonlinear_arith);
        assert(d * pow2(k) > 0) by (nonlinear_arith)
            requires
                d > 0,
                pow2(k) > 0,
        ;
        lemma_nearest_scale(p, n, d * pow2(k), pow2(a));
    }
}

/// The product of two finite numbers.
pub fn product(p: u32, a: u64, b: u64) -> (mag: u64)
    requires
        is_precision(p as nat),
        a < infinity(p as nat),
        b < infinity(p as nat),
    ensures
        mag == round(
            p as nat,
            units(p as nat, a as nat) * units(p as nat, b as nat),
            pow2(unit(p as nat)),
        ),
{
    let ghost pn = p as nat;
    let (ma, ea) = split(p, a);
    let (mb, eb) = split(p, b);
    proof {
        lemma_pow2_steps();
        lemma_parts(pn, a as nat);
        lemma_parts(pn, b as nat);
        assert(ma * mb < 0x20_0000_0000_0000 * 0x20_0000_0000_0000) by (nonlinear_arith)
            requires
                0 <= ma < 0x20_0000_0000_0000,
                0 <= mb < 0x20_0000_0000_0000,
        ;
        lemma_pow2_adds(ea as nat, eb as nat);
        let x = pow2(ea as nat);
        let y = pow2(eb as nat);
        assert((ma * x) * (mb * y) == (ma * mb) * (x * y)) by (nonlinear_arith);
        lemma_nearest_powers(pn, (ma * mb) as nat, 1, (ea + eb) as nat, unit(pn));
        assert(1 * pow2(unit(pn)) == pow2(unit(pn)));
        assert(1 * scaled_den(ea + eb - unit(pn)) == scaled_den(ea + eb - unit(pn)));
    }
    let mant: u128 = ma as u128 * mb as u128;
    let shift: i32 = (ea + eb) as i32 - unit_of(p) as i32;
    pack(p, mant, shift, infinity_of(p))
}

/// Adding or taking away less than the last place that counts rounds as adding
/// or taking away half of it.
proof fn lemma_sticky_sum(p: nat, n: nat, c: nat, k: nat)
    requires
        is_precision(p),
        k >= 1,
        c * pow2(k) < n < (c + 1) * pow2(k),
        c >= pow2(p),
    ensures
        nearest(p, n, 1) == nearest(p, (2 * c + 1) * pow2((k - 1) as nat), 1),
{
    let u = pow2(k);
    let w = pow2((k - 1) as nat);
    let t = pow2(p);
    lemma_pow2_unfold(k);
    lemma_pow2_pos((k - 1) as nat);
    assert(c * u >= u * t) by (nonlinear_arith)
        requires
            c >= t,
    ;
    assert(1 * u == u);
    lemma_nearest_unfold(p, n, 1, k);
    assert(c * 1 == c && t * 1 == t);
    lemma_nearest_sticky(p, n, u, c, 1);
    assert(u * 1 == u);
    let m = (2 * c + 1) * w;
    assert(m >= c * (2 * w)) by (nonlinear_arith)
        requires
            m == (2 * c + 1) * w,
            w > 0,
    ;
    lemma_nearest_unfold(p, m, 1, k);
    lemma_nearest_scale(p, 2 * c + 1, 2, w);
}

/// The sum of two finite numbers.
pub fn sum(p: u32, a: u64, b: u64) -> (mag: u64)
    requires
        is_precision(p as nat),
        b <= a < infinity(p as nat),
    ensures
        mag == round(p as nat, units(p as nat, a as nat) + units(p as nat, b as nat), 1),
{
    let ghost pn = p as nat;
    let (ma, ea) = split(p, a);
    let (mb, eb) = split(p, b);
    proof {
        lemma_pow2_steps();
        lemma_parts(pn, a as nat);
        lemma_parts(pn, b as nat);
        lemma_exponent_order(pn, b as nat, a as nat);
    }
    let d: u32 = ea - eb;
    if d <= 64 {
        proof {
            lemma_near(ma as nat, mb as nat, ea as nat, eb as nat, d as nat);
        }
        let w: u128 = power_of_two(d);
        let mant: u128 = ma as u128 * w + mb as u128;
        pack(p, mant, eb as i32, infinity_of(p))
    } else {
        proof {
            lemma_far(pn, ma as nat, mb as nat, ea as nat, eb as nat);
            if mb > 0 {
                lemma_sticky_sum(
                    pn,
                    units(pn, a as nat) + units(pn, b as nat),
                    (ma * 1024) as nat,
                    (ea - 10) as nat,
                );
            } else {
                assert(0 * pow2(eb as nat) == 0);
            }
        }
        if mb == 0 {
            pack(p, ma as u128, ea as i32, infinity_of(p))
        } else {
            pack(p, ma as u128 * 2048 + 1, ea as i32 - 11, infinity_of(p))
        }
    }
}

/// The difference of two finite numbers, the larger one first.
pub fn difference(p: u32, a: u64, b: u64) -> (mag: u64)
    requires
        is_precision(p as nat),
        b <= a < infinity(p as nat),
    ensures
        units(p as nat, b as nat) <= units(p as nat, a as nat),
        mag == round(
            p as nat,
            (units(p as nat, a as nat) - units(p as nat, b as nat)) as nat,
            1,
        ),
{
    let ghost pn = p as nat;
    let (ma, ea) = split(p, a);
    let (mb, eb) = split(p, b);
    proof {
        lemma_pow2_steps();
        lemma_parts(pn, a as nat);
        lemma_parts(pn, b as nat);
        lemma_exponent_order(pn, b as nat, a as nat);
        if b < a {
            lemma_units_order(pn, b as nat, a as nat);
        }
    }
    let d: u32 = ea - eb;
    if d <= 64 {
        proof {
            lemma_near(ma as nat, mb as nat, ea as nat, eb as nat, d as nat);
        }
        let w: u128 = power_of_two(d);
        let mant: u128 = ma as u128 * w - mb as u128;
        pack(p, mant, eb as i32, infinity_of(p))
    } else {
        proof {
            lemma_far(pn, ma as nat, mb as nat, ea as nat, eb as nat);
            if mb > 0 {
                lemma_sticky_sum(
                    pn,
                    (units(pn, a as nat) - units(pn, b as nat)) as nat,
                    (ma * 1024 - 1) as nat,
                    (ea - 10) as nat,
                );
            } else {
                assert(0 * pow2(eb as nat) == 0);
            }
        }
        if mb == 0 {
            pack(p, ma as u128, ea as i32, infinity_of(p))
        } else {
            pack(p, ma as u128 * 2048 - 1, ea as i32 - 11, infinity_of(p))
        }
    }
}

proof fn lemma_near(ma: nat, mb: nat, ea: nat, eb: nat, d: nat)
    requires
        ma < 0x20_0000_0000_0000,
        mb < 0x20_0000_0000_0000,
        ea == eb + d,
        d <= 64,
    ensures
        ma * pow2(d) < 0x20_0000_0000_0000 * 0x1_0000_0000_0000_0000,
        (ma * pow2(d) + mb) * pow2(eb) == ma * pow2(ea) + mb * pow2(eb),
        ma * pow2(ea) >= mb * pow2(eb) ==> ma * pow2(d) >= mb,
        (ma * pow2(d) - mb) * pow2(eb) == ma * pow2(ea) - mb * pow2(eb),
{
    lemma2_to64();
    if d < 64 {
        lemma_pow2_strictly_increases(d, 64);
    }
    let w = pow2(d);
    let v = pow2(eb);
    lemma_pow2_pos(eb);
    lemma_pow2_pos(d);
    lemma_pow2_adds(d, eb);
    assert(ma * w < 0x20_0000_0000_0000 * 0x1_0000_0000_0000_0000) by (nonlinear_arith)
        requires
            ma < 0x20_0000_0000_0000,
            0 < w <= 0x1_0000_0000_0000_0000,
    ;
    assert((ma * w + mb) * v == ma * (w * v) + mb * v) by (nonlinear_arith);
    assert((ma * w - mb) * v == ma * (w * v) - mb * v) by (nonlinear_arith);
    if ma * pow2(ea) >= mb * pow2(eb) {
        assert(ma * w >= mb) by (nonlinear_arith)
            requires
                (ma * w - mb) * v >= 0,
                v > 0,
        ;
    }
}

proof fn lemma_far(p: nat, ma: nat, mb: nat, ea: nat, eb: nat)
    requires
        is_precision(p),
        pow2((p - 1) as nat) <= ma < 0x20_0000_0000_0000,
        mb < 0x20_0000_0000_0000,
        ea > eb + 64,
    ensures
        (ma * 1024) * pow2((ea - 10) as nat) == ma * pow2(ea),
        (ma * 1024 + 1) * pow2((ea - 10) as nat) == ma * pow2(ea) + pow2((ea - 10) as nat),
        (ma * 1024 - 1) * pow2((ea - 10) as nat) == ma * pow2(ea) - pow2((ea - 10) as nat),
        mb * pow2(eb) < pow2((ea - 10) as nat),
        mb > 0 ==> mb * pow2(eb) > 0,
        ma * 1024 - 1 >= pow2(p),
{
    let u = pow2((ea - 10) as nat);
    let v = pow2(eb);
    lemma2_to64();
    lemma_pow2_steps();
    lemma_pow2_adds(10, (ea - 10) as nat);
    lemma_pow2_pos(eb);
    assert((ma * 1024) * u == ma * (1024 * u)) by (nonlinear_arith);
    assert((ma * 1024 + 1) * u == (ma * 1024) * u + u) by (nonlinear_arith);
    assert((ma * 1024 - 1) * u == (ma * 1024) * u - u) by (nonlinear_arith);
    let g = (ea - 10 - eb) as nat;
    lemma_pow2_adds(g, eb);
    if g > 53 {
        lemma_pow2_strictly_increases(53, g);
    }
    assert(mb * v < pow2(g) * v) by (nonlinear_arith)
        requires
            mb < pow2(g),
            v > 0,
    ;
    if mb > 0 {
        assert(mb * v > 0) by (nonlinear_arith)
            requires
                mb > 0,
                v > 0,
        ;
    }
}

/// The quotient of two finite single-precision numbers, the second not zero.
pub fn quotient(a: u64, b: u64) -> (mag: u64)
    requires
        a < infinity(24),
        0 < b < infinity(24),
    ensures
        units(24, b as nat) > 0,
        mag == round(24, units(24, a as nat) * pow2(149), units(24, b as nat)),
{
    let (ma, ea) = split(24, a);
    let (mb, eb) = split(24, b);
    proof {
        lemma_pow2_steps();
        lemma_parts(24, a as nat);
        lemma_parts(24, b as nat);
        if mb == 0 {
            assert(eb == 0);
            assert(0 * pow2(23) == 0);
        }
        lemma_pow2_pos(eb as nat);
        assert(mb * pow2(eb as nat) > 0) by (nonlinear_arith)
            requires
                mb > 0,
                pow2(eb as nat) > 0,
        ;
    }
    let n: u128 = ma as u128 * 0x1_0000_0000_0000_0000;
    let c: u128 = n / mb as u128;
    let r: u128 = n % mb as u128;
    let shift: i32 = ea as i32 - eb as i32 + 85;
    proof {
        lemma_quotient_terms(ma as nat, mb as nat, ea as nat, eb as nat);
        lemma_fundamental_div_mod(n as int, mb as int);
        lemma_mod_bound(n as int, mb as int);
        assert(mb * c == c * mb) by (nonlinear_arith);
        assert(c <= n) by (nonlinear_arith)
            requires
                c * mb <= n,
                mb >= 1,
        ;
    }
    if r == 0 {
        proof {
            lemma_quotient_exact(c as nat, mb as nat, ea as nat, eb as nat);
        }
        pack(24, c, shift, infinity_of(24))
    } else {
        proof {
            assert(c * mb < n < (c + 1) * mb) by (nonlinear_arith)
                requires
                    n == c * mb + r,
                    0 < r < mb,
            ;
            assert(c >= 0x100_0000) by (nonlinear_arith)
                requires
                    n < (c + 1) * mb,
                    n == ma * 0x1_0000_0000_0000_0000,
                    ma >= 1,
                    mb < 0x100_0000,
            ;
            lemma_quotient_inexact(n as nat, c as nat, mb as nat, ea as nat, eb as nat);
        }
        pack(24, 2 * c + 1, shift - 1, infinity_of(24))
    }
}

proof fn lemma_quotient_terms(ma: nat, mb: nat, ea: nat, eb: nat)
    requires
        mb > 0,
    ensures
        nearest(24, (ma * pow2(ea)) * pow2(149), mb * pow2(eb)) == nearest(
            24,
            (ma * 0x1_0000_0000_0000_0000) * pow2(ea + 149),
            mb * pow2(eb + 64),
        ),
{
    lemma2_to64();
    let k = pow2(64);
    lemma_pow2_adds(ea, 149);
    lemma_pow2_adds(eb, 64);
    lemma_pow2_pos(eb);
    let x = pow2(ea);
    let y = pow2(149);
    let z = pow2(eb);
    assert(mb * z > 0) by (nonlinear_arith)
        requires
            mb > 0,
            z > 0,
    ;
    lemma_nearest_scale(24, (ma * x) * y, mb * z, k);
    assert(((ma * x) * y) * k == (ma * k) * (x * y)) by (nonlinear_arith);
    assert((mb * z) * k == mb * (z * k)) by (nonlinear_arith);
}

proof fn lemma_quotient_exact(c: nat, mb: nat, ea: nat, eb: nat)
    requires
        mb > 0,
    ensures
        nearest(24, (c * mb) * pow2(ea + 149), mb * pow2(eb + 64)) == nearest(
            24,
            scaled_num(c, ea - eb + 85),
            scaled_den(ea - eb + 85),
        ),
{
    let x = pow2(ea + 149);
    let y = pow2(eb + 64);
    lemma_pow2_pos(eb + 64);
    assert((c * mb) * x == (c * x) * mb) by (nonlinear_arith);
    assert(mb * y == y * mb) by (nonlinear_arith);
    lemma_nearest_scale(24, c * x, y, mb);
    lemma_nearest_powers(24, c, 1, ea + 149, eb + 64);
    assert(1 * y == y);
    assert(1 * scaled_den(ea - eb + 85) == scaled_den(ea - eb + 85));
}

proof fn lemma_quotient_inexact(n: nat, c: nat, mb: nat, ea: nat, eb: nat)
    requires
        mb > 0,
        c * mb < n < (c + 1) * mb,
        c >= 0x100_0000,
    ensures
        nearest(24, n * pow2(ea + 149), mb * pow2(eb + 64)) == nearest(
            24,
            scaled_num(2 * c + 1, ea - eb + 84),
            scaled_den(ea - eb + 84),
        ),
{
    lemma_pow2_steps();
    let s: int = ea - eb + 85;
    lemma_nearest_powers(24, n, mb, ea + 149, eb + 64);
    if s <= 0 {
        let k = (-s) as nat;
        let y = pow2(k);
        lemma_pow2_pos(k);
        if k == 0 {
            lemma2_to64();
            assert(pow2(24) * 1 == pow2(24));
        } else {
            lemma_pow2_unfold(k);
        }
        lemma2_to64();
        assert(mb * scaled_den(s) == mb * y);
        lemma_nearest_sticky(24, n, mb, c, y);
        lemma_pow2_unfold(k + 1);
        assert(scaled_num(n, s) == n) by {
            if s == 0 {
                assert(n * 1 == n);
            }
        }
    } else {
        let k = s as nat;
        let u = pow2(k);
        let t = pow2(24);
        let w = pow2((k - 1) as nat);
        lemma_pow2_pos(k);
        lemma_pow2_unfold(k);
        lemma_pow2_pos((k - 1) as nat);
        assert(mb * 1 == mb);
        assert(n * u >= mb * u * t) by (nonlinear_arith)
            requires
                n >= c * mb,
                c >= t,
        ;
        lemma_nearest_unfold(24, n * u, mb, k);
        lemma_nearest_scale(24, n, mb, u);
        assert(c * 1 == c && t * 1 == t && mb * 1 == mb);
        lemma_nearest_sticky(24, n, mb, c, 1);
        let m = (2 * c + 1) * w;
        assert(1 * u == u);
        assert(m >= u * t) by (nonlinear_arith)
            requires
                m == (2 * c + 1) * w,
                u == 2 * w,
                c >= t,
        ;
        lemma_nearest_unfold(24, m, 1, k);
        lemma_nearest_scale(24, 2 * c + 1, 2, w);
    }
}

} // verus!
