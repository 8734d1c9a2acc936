//! Rounding gives the nearest number of the format.

use crate::float::rounding::{half_even, lemma_den_room, nearest, units};
use vstd::arithmetic::power2::{lemma_pow2_pos, lemma_pow2_unfold, pow2};
use vstd::prelude::*;

verus! {

/// How far apart two numbers are.
pub open spec fn apart(a: int, b: int) -> int {
    if a < b {
        b - a
    } else {
        a - b
    }
}

/// Below `2^p` a magnitude is its own value.
proof fn lemma_small_units(p: nat, mag: nat)
    requires
        p >= 1,
        mag < 2 * pow2((p - 1) as nat),
    ensures
        units(p, mag) == mag,
{
    let step = pow2((p - 1) as nat);
    lemma_pow2_pos((p - 1) as nat);
    vstd::arithmetic::power2::lemma2_to64();
    if mag >= step {
        vstd::arithmetic::div_mod::lemma_fundamental_div_mod_converse(
            mag as int,
            step as int,
            1,
            mag - step,
        );
    }
    assert(mag * 1 == mag);
}

/// The same significand one step higher stands for twice the value.
proof fn lemma_doubled_units(p: nat, mag: nat)
    requires
        p >= 1,
        mag >= pow2((p - 1) as nat),
    ensures
        units(p, mag + pow2((p - 1) as nat)) == 2 * units(p, mag),
{
    let step = pow2((p - 1) as nat);
    lemma_pow2_pos((p - 1) as nat);
    let q = mag as int / step as int;
    let r = mag as int % step as int;
    vstd::arithmetic::div_mod::lemma_fundamental_div_mod(mag as int, step as int);
    vstd::arithmetic::div_mod::lemma_mod_bound(mag as int, step as int);
    assert(mag + step == (q + 1) * step + r) by (nonlinear_arith)
        requires
            mag == step * q + r,
    ;
    vstd::arithmetic::div_mod::lemma_fundamental_div_mod_converse(
        (mag + step) as int,
        step as int,
        q + 1,
        r,
    );
    assert(q >= 1) by (nonlinear_arith)
        requires
            mag == step * q + r,
            mag >= step,
            0 <= r < step,
    ;
    let e = (q - 1) as nat;
    lemma_pow2_unfold((e + 1) as nat);
    let s = step + r;
    assert(s * (2 * pow2(e)) == 2 * (s * pow2(e))) by (nonlinear_arith);
}

/// From `2^(p - 1)` on, rounding does not fall below it.
proof fn lemma_nearest_large(p: nat, num: nat, den: nat)
    requires
        p >= 1,
        den >= 1,
        num >= den * pow2((p - 1) as nat),
    ensures
        nearest(p, num, den) >= pow2((p - 1) as nat),
{
    let step = pow2((p - 1) as nat);
    if num < den * pow2(p) {
        let q = num as int / den as int;
        assert(q >= step) by (nonlinear_arith)
            requires
                num >= den * step,
                q == num as int / den as int,
                den >= 1,
        ;
    } else {
        lemma_den_room(p, num, den);
    }
}

/// Rounding to a whole number gives a nearest one, and of two the even one.
proof fn lemma_half_even(num: nat, den: nat, k: int)
    requires
        den >= 1,
    ensures
        apart((half_even(num, den) * den) as int, num as int) <= apart(k * den, num as int),
        k != half_even(num, den) && apart((half_even(num, den) * den) as int, num as int) == apart(
            k * den,
            num as int,
        ) ==> half_even(num, den) % 2 == 0,
{
    let q: int = num as int / den as int;
    let r: int = num as int % den as int;
    vstd::arithmetic::div_mod::lemma_fundamental_div_mod(num as int, den as int);
    vstd::arithmetic::div_mod::lemma_mod_bound(num as int, den as int);
    let d: int = den as int;
    assert(num == d * q + r);
    assert((q + 1) * d == d * q + d) by (nonlinear_arith);
    assert(q * d == d * q) by (nonlinear_arith);
    if k <= q {
        assert(k * d <= q * d) by (nonlinear_arith)
            requires
                k <= q,
                d >= 1,
        ;
        if k < q {
            assert(k * d <= (q - 1) * d) by (nonlinear_arith)
                requires
                    k <= q - 1,
                    d >= 1,
            ;
            assert((q - 1) * d == q * d - d) by (nonlinear_arith);
        }
    } else {
        assert((q + 1) * d <= k * d) by (nonlinear_arith)
            requires
                q + 1 <= k,
                d >= 1,
        ;
        if k > q + 1 {
            assert((q + 2) * d <= k * d) by (nonlinear_arith)
                requires
                    q + 2 <= k,
                    d >= 1,
            ;
            assert((q + 2) * d == q * d + 2 * d) by (nonlinear_arith);
        }
    }
}

/// Rounding `num / den` units gives a number of the format that no other is
/// nearer to; where two are equally near, the one whose last bit is zero. That
/// is what makes a result of the arithmetic here the rounded exact result.
pub proof fn rounding_is_nearest(p: nat, num: nat, den: nat, other: nat)
    requires
        p >= 2,
        den >= 1,
    ensures
        ({
            let mag = nearest(p, num, den);
            let error = apart((units(p, mag) * den) as int, num as int);
            let other_error = apart((units(p, other) * den) as int, num as int);
            &&& error <= other_error
            &&& error == other_error && units(p, other) != units(p, mag) ==> mag % 2 == 0
        }),
    decreases num - den,
{
    let step = pow2((p - 1) as nat);
    lemma_pow2_pos((p - 1) as nat);
    lemma_pow2_unfold(p);
    lemma_pow2_unfold((p - 1) as nat);
    let mag = nearest(p, num, den);
    if num < den * pow2(p) {
        let q: int = num as int / den as int;
        assert(q < pow2(p)) by (nonlinear_arith)
            requires
                num < den * pow2(p),
                q == num as int / den as int,
                den >= 1,
        ;
        if mag < 2 * step {
            lemma_small_units(p, mag);
        } else {
            assert(mag == step + step);
            lemma_small_units(p, step);
            lemma_doubled_units(p, step);
        }
        lemma_half_even(num, den, units(p, other) as int);
    } else {
        lemma_den_room(p, num, den);
        let m = nearest(p, num, 2 * den);
        assert(den * (2 * step) == (2 * den) * step) by (nonlinear_arith);
        lemma_nearest_large(p, num, 2 * den);
        lemma_doubled_units(p, m);
        let um = units(p, m);
        assert((2 * um) * den == um * (2 * den)) by (nonlinear_arith);
        if other >= 2 * step {
            let o = (other - step) as nat;
            lemma_doubled_units(p, o);
            let uo = units(p, o);
            assert((2 * uo) * den == uo * (2 * den)) by (nonlinear_arith);
            rounding_is_nearest(p, num, 2 * den, o);
        } else {
            lemma_small_units(p, other);
            lemma_small_units(p, step);
            rounding_is_nearest(p, num, 2 * den, step);
            assert(step * (2 * den) == den * (2 * step)) by (nonlinear_arith);
            assert(other * den < (2 * step) * den) by (nonlinear_arith)
                requires
                    other < 2 * step,
                    den >= 1,
            ;
            assert((2 * step) * den == den * (2 * step)) by (nonlinear_arith);
        }
        assert(step == 2 * pow2((p - 2) as nat));
        assert((step + m) % 2 == m % 2);
    }
}

/// Rounding to a whole number keeps the order of numerators.
proof fn lemma_half_even_order(a: nat, b: nat, den: nat)
    requires
        den >= 1,
        a <= b,
    ensures
        half_even(a, den) <= half_even(b, den),
{
    let d: int = den as int;
    let qa: int = a as int / d;
    let qb: int = b as int / d;
    vstd::arithmetic::div_mod::lemma_fundamental_div_mod(a as int, d);
    vstd::arithmetic::div_mod::lemma_fundamental_div_mod(b as int, d);
    vstd::arithmetic::div_mod::lemma_mod_bound(a as int, d);
    vstd::arithmetic::div_mod::lemma_mod_bound(b as int, d);
    vstd::arithmetic::div_mod::lemma_div_is_ordered(a as int, b as int, d);
    if qa == qb {
        assert(d * qa == d * qb);
    }
}

/// Of two quotients the larger one does not round to a smaller number.
pub proof fn rounding_keeps_order(p: nat, a: nat, b: nat, den: nat)
    requires
        p >= 2,
        den >= 1,
        a <= b,
    ensures
        nearest(p, a, den) <= nearest(p, b, den),
    decreases b - den,
{
    let step = pow2((p - 1) as nat);
    lemma_pow2_unfold(p);
    if b < den * pow2(p) {
        lemma_half_even_order(a, b, den);
    } else {
        lemma_den_room(p, b, den);
        assert(den * (2 * step) == (2 * den) * step) by (nonlinear_arith);
        if a < den * pow2(p) {
            let q: int = a as int / den as int;
            assert(q < pow2(p)) by (nonlinear_arith)
                requires
                    a < den * pow2(p),
                    q == a as int / den as int,
                    den >= 1,
            ;
            lemma_nearest_large(p, b, 2 * den);
        } else {
            lemma_den_room(p, a, den);
            rounding_keeps_order(p, a, b, 2 * den);
        }
    }
}

/// From `2^(p - 1)` units on, rounding moves a quotient by at most one part in
/// `2^p`.
pub proof fn rounding_error_is_small(p: nat, num: nat, den: nat)
    requires
        p >= 2,
        den >= 1,
        num >= den * pow2((p - 1) as nat),
    ensures
        apart((units(p, nearest(p, num, den)) * den) as int, num as int) * pow2(p) <= num,
    decreases num - den,
{
    let step = pow2((p - 1) as nat);
    lemma_pow2_pos((p - 1) as nat);
    lemma_pow2_unfold(p);
    let mag = nearest(p, num, den);
    if num < den * pow2(p) {
        let q: int = num as int / den as int;
        let r: int = num as int % den as int;
        vstd::arithmetic::div_mod::lemma_fundamental_div_mod(num as int, den as int);
        vstd::arithmetic::div_mod::lemma_mod_bound(num as int, den as int);
        assert(q < pow2(p)) by (nonlinear_arith)
            requires
                num < den * pow2(p),
                q == num as int / den as int,
                den >= 1,
        ;
        if mag < 2 * step {
            lemma_small_units(p, mag);
        } else {
            assert(mag == step + step);
            lemma_small_units(p, step);
            lemma_doubled_units(p, step);
        }
        let e = apart((mag * den) as int, num as int);
        assert((q + 1) * den == den * q + den) by (nonlinear_arith);
        assert(q * den == den * q) by (nonlinear_arith);
        assert(2 * e <= den);
        assert(e * (2 * step) <= den * step) by (nonlinear_arith)
            requires
                2 * e <= den,
                step >= 1,
        ;
    } else {
        lemma_den_room(p, num, den);
        let m = nearest(p, num, 2 * den);
        assert(den * (2 * step) == (2 * den) * step) by (nonlinear_arith);
        lemma_nearest_large(p, num, 2 * den);
        lemma_doubled_units(p, m);
        let um = units(p, m);
        assert((2 * um) * den == um * (2 * den)) by (nonlinear_arith);
        rounding_error_is_small(p, num, 2 * den);
    }
}

} // verus!
