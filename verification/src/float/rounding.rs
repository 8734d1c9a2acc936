//! Rounding to nearest, ties to even, in binary formats of a given precision.
//!
//! A finite non-negative number of a format is written by its magnitude bits:
//! the bit pattern without the sign. With precision `p` the low `p - 1` bits
//! are the fraction and the bits above it the biased exponent. Values are
//! counted in units of the smallest positive number of the format, so every
//! finite number is a natural number of units.

use vstd::arithmetic::div_mod::*;
use vstd::arithmetic::mul::*;
use vstd::arithmetic::power2::*;
use vstd::prelude::*;

verus! {

/// The integer nearest to `num / den`; of two equally near ones the even one.
pub open spec fn half_even(num: nat, den: nat) -> nat {
    let q = num / den;
    let r = num % den;
    if 2 * r < den || (2 * r == den && q % 2 == 0) {
        q
    } else {
        q + 1
    }
}

/// Magnitude bits of the number of precision `p` nearest to `num / den` units,
/// as if the exponent had no upper bound.
///
/// Below `2^p` units the numbers of the format are the integers themselves.
/// Above, each doubling of the value doubles the spacing and adds one to the
/// exponent field, which weighs `2^(p - 1)`.
pub open spec fn nearest(p: nat, num: nat, den: nat) -> nat
    decreases num - den,
{
    if p < 1 || den < 1 || num < den * pow2(p) {
        half_even(num, den)
    } else {
        proof {
            lemma_den_room(p, num, den);
        }
        pow2((p - 1) as nat) + nearest(p, num, 2 * den)
    }
}

/// The significand of magnitude bits `mag`, an integer below `2^p`.
pub open spec fn significand(p: nat, mag: nat) -> nat {
    let step = pow2((p - 1) as nat);
    if mag < step {
        mag
    } else {
        step + mag % step
    }
}

/// The power of two that the significand of `mag` is multiplied by.
pub open spec fn exponent(p: nat, mag: nat) -> nat {
    let step = pow2((p - 1) as nat);
    if mag < step {
        0
    } else {
        (mag / step - 1) as nat
    }
}

/// The value of finite magnitude bits `mag`, in units.
pub open spec fn units(p: nat, mag: nat) -> nat {
    significand(p, mag) * pow2(exponent(p, mag))
}

/// The lesser of a magnitude and the magnitude bits of infinity.
pub open spec fn at_most(mag: nat, inf: nat) -> nat {
    if mag < inf {
        mag
    } else {
        inf
    }
}

/// `mant * 2^shift` as a numerator.
pub open spec fn scaled_num(mant: nat, shift: int) -> nat {
    if shift >= 0 {
        mant * pow2(shift as nat)
    } else {
        mant
    }
}

/// The denominator that goes with `scaled_num`.
pub open spec fn scaled_den(shift: int) -> nat {
    if shift >= 0 {
        1
    } else {
        pow2((-shift) as nat)
    }
}

/// Above `2^p` the denominator may be doubled and still not exceed the numerator.
pub proof fn lemma_den_room(p: nat, num: nat, den: nat)
    requires
        p >= 1,
        den >= 1,
        num >= den * pow2(p),
    ensures
        num >= 2 * den,
{
    lemma_pow2_unfold(p);
    lemma_pow2_pos((p - 1) as nat);
    let h = pow2((p - 1) as nat);
    assert(den * (2 * h) >= 2 * den) by (nonlinear_arith)
        requires
            h >= 1,
            den >= 1,
    ;
}

/// Division by `den` is pinned down by the quotient's two bounds.
pub proof fn lemma_quotient(num: nat, den: nat, q: nat)
    requires
        den > 0,
        q * den <= num < (q + 1) * den,
    ensures
        num / den == q,
        num % den == num - q * den,
{
    assert(num == q * den + (num - q * den));
    assert((q + 1) * den == q * den + den) by (nonlinear_arith);
    lemma_fundamental_div_mod_converse(num as int, den as int, q as int, num - q * den);
}

proof fn lemma_division(num: nat, den: nat)
    requires
        den > 0,
    ensures
        (num / den) * den <= num < (num / den + 1) * den,
        num % den == num - (num / den) * den,
        num % den < den,
{
    let q = num / den;
    lemma_fundamental_div_mod(num as int, den as int);
    lemma_mod_bound(num as int, den as int);
    assert(den * q == q * den) by (nonlinear_arith);
    assert((q + 1) * den == q * den + den) by (nonlinear_arith);
}

/// Scaling numerator and denominator alike leaves the rounded quotient.
pub proof fn lemma_half_even_scale(num: nat, den: nat, k: nat)
    requires
        den > 0,
        k > 0,
    ensures
        half_even(num * k, den * k) == half_even(num, den),
        den * k > 0,
{
    let q = num / den;
    let r: int = num - q * den;
    lemma_division(num, den);
    assert(q * (den * k) <= num * k < (q + 1) * (den * k)) by (nonlinear_arith)
        requires
            q * den <= num < (q + 1) * den,
            k > 0,
    ;
    assert(den * k > 0) by (nonlinear_arith)
        requires
            den > 0,
            k > 0,
    ;
    lemma_quotient(num * k, den * k, q);
    assert(num * k - q * (den * k) == r * k) by (nonlinear_arith)
        requires
            r == num - q * den,
    ;
    assert((2 * (r * k) < den * k) == (2 * r < den)) by (nonlinear_arith)
        requires
            k > 0,
    ;
    assert((2 * (r * k) == den * k) == (2 * r == den)) by (nonlinear_arith)
        requires
            k > 0,
    ;
}

/// A whole quotient needs no rounding.
pub proof fn lemma_half_even_whole(n: nat)
    ensures
        half_even(n, 1) == n,
{
    lemma_quotient(n, 1, n);
}

/// Scaling numerator and denominator alike leaves the nearest number.
pub proof fn lemma_nearest_scale(p: nat, num: nat, den: nat, k: nat)
    requires
        p >= 1,
        den > 0,
        k > 0,
    ensures
        nearest(p, num * k, den * k) == nearest(p, num, den),
    decreases num - den,
{
    let t = pow2(p);
    lemma_half_even_scale(num, den, k);
    assert((num * k < (den * k) * t) == (num < den * t)) by (nonlinear_arith)
        requires
            k > 0,
    ;
    if num >= den * t {
        lemma_den_room(p, num, den);
        lemma_nearest_scale(p, num, 2 * den, k);
        assert((2 * den) * k == 2 * (den * k)) by (nonlinear_arith);
    }
}

/// The nearest number by way of the least exponent that leaves room for it.
pub proof fn lemma_nearest_closed(p: nat, num: nat, den: nat, e: nat)
    requires
        p >= 1,
        den > 0,
        num < den * pow2(p + e),
        e > 0 ==> num >= den * pow2((p + e - 1) as nat),
    ensures
        nearest(p, num, den) == e * pow2((p - 1) as nat) + half_even(num, den * pow2(e)),
    decreases e,
{
    let s = pow2((p - 1) as nat);
    if e == 0 {
        lemma2_to64();
        assert(den * pow2(0) == den);
        assert(0 * s == 0);
    } else {
        let e1 = (e - 1) as nat;
        lemma_pow2_unfold(p + e);
        lemma_pow2_adds(p, e1);
        lemma_pow2_pos(e1);
        let a = pow2(p);
        let b = pow2(e1);
        assert(den * (a * b) >= den * a) by (nonlinear_arith)
            requires
                b >= 1,
        ;
        lemma_den_room(p, num, den);
        let c = pow2(p + e1);
        assert((2 * den) * c == den * (2 * c)) by (nonlinear_arith);
        if e1 > 0 {
            lemma_pow2_unfold((p + e - 1) as nat);
            let d = pow2((p + e1 - 1) as nat);
            assert((2 * den) * d == den * (2 * d)) by (nonlinear_arith);
        }
        lemma_nearest_closed(p, num, 2 * den, e1);
        lemma_pow2_unfold(e);
        assert((2 * den) * b == den * (2 * b)) by (nonlinear_arith);
        assert(e1 * s + s == e * s) by (nonlinear_arith)
            requires
                e1 == e - 1,
        ;
    }
}

/// As long as the value stays large the denominator may be doubled at the cost
/// of one step of the exponent each time.
pub proof fn lemma_nearest_unfold(p: nat, num: nat, den: nat, k: nat)
    requires
        p >= 1,
        den > 0,
        num >= den * pow2(k) * pow2(p),
    ensures
        nearest(p, num, den) == k * pow2((p - 1) as nat) + nearest(p, num, den * pow2(k)),
    decreases k,
{
    let s = pow2((p - 1) as nat);
    if k == 0 {
        lemma2_to64();
        assert(den * pow2(0) == den);
        assert(0 * s == 0);
    } else {
        let k1 = (k - 1) as nat;
        let a = pow2(p);
        let b = pow2(k1);
        lemma_pow2_unfold(k);
        lemma_pow2_pos(k1);
        lemma_pow2_pos(p);
        assert(den * (2 * b) * a >= den * a) by (nonlinear_arith)
            requires
                b >= 1,
                a >= 1,
        ;
        lemma_den_room(p, num, den);
        assert((2 * den) * b == den * (2 * b)) by (nonlinear_arith);
        assert((2 * den) * b * a == den * (2 * b) * a) by (nonlinear_arith);
        lemma_nearest_unfold(p, num, 2 * den, k1);
        assert(k1 * s + s == k * s) by (nonlinear_arith)
            requires
                k1 == k - 1,
        ;
    }
}

/// A value strictly between two neighbouring integers rounds as their midpoint
/// does, where the spacing of the format is a multiple of two.
pub proof fn lemma_nearest_sticky(p: nat, n: nat, d: nat, c: nat, y: nat)
    requires
        p >= 1,
        d > 0,
        y > 0,
        c * d < n < (c + 1) * d,
        y % 2 == 0 || c >= pow2(p) * y,
    ensures
        nearest(p, n, d * y) == nearest(p, 2 * c + 1, 2 * y),
    decreases n - d * y,
{
    let a = pow2(p);
    lemma_pow2_pos(p);
    let k = y * a;
    lemma_cell_below(n, d, c, k);
    assert(d * y * a == d * k) by (nonlinear_arith)
        requires
            k == y * a,
    ;
    assert(2 * y * a == 2 * k) by (nonlinear_arith)
        requires
            k == y * a,
    ;
    assert(d * y > 0) by (nonlinear_arith)
        requires
            d > 0,
            y > 0,
    ;
    if n < d * y * a {
        assert(c < k);
        assert(a * y == y * a) by (nonlinear_arith);
        assert(y % 2 == 0);
        lemma_half_even_sticky(n, d, c, y);
    } else {
        lemma_den_room(p, n, d * y);
        assert(2 * c + 1 >= 2 * k);
        lemma_den_room(p, 2 * c + 1, 2 * y);
        assert(d * (2 * y) == 2 * (d * y)) by (nonlinear_arith);
        lemma_nearest_sticky(p, n, d, c, 2 * y);
    }
}

proof fn lemma_cell_below(n: nat, d: nat, c: nat, k: nat)
    requires
        d > 0,
        c * d < n < (c + 1) * d,
    ensures
        (n < d * k) == (c < k),
        n != d * k,
{
    if c < k {
        assert((c + 1) * d <= d * k) by (nonlinear_arith)
            requires
                c + 1 <= k,
        ;
    } else {
        assert(c * d >= d * k) by (nonlinear_arith)
            requires
                c >= k,
        ;
    }
}

proof fn lemma_half_even_sticky(n: nat, d: nat, c: nat, y: nat)
    requires
        d > 0,
        y > 0,
        c * d < n < (c + 1) * d,
        y % 2 == 0,
    ensures
        half_even(n, d * y) == half_even(2 * c + 1, 2 * y),
{
    let q = c / y;
    lemma_division(c, y);
    // Both quotients are q.
    lemma_cell_below(n, d, c, q * y);
    lemma_cell_below(n, d, c, (q + 1) * y);
    assert(d * (q * y) == q * (d * y)) by (nonlinear_arith);
    assert(d * ((q + 1) * y) == (q + 1) * (d * y)) by (nonlinear_arith);
    assert(d * y > 0) by (nonlinear_arith)
        requires
            d > 0,
            y > 0,
    ;
    lemma_quotient(n, d * y, q);
    assert(q * (2 * y) == 2 * (q * y)) by (nonlinear_arith);
    assert((q + 1) * (2 * y) == 2 * ((q + 1) * y)) by (nonlinear_arith);
    lemma_quotient(2 * c + 1, 2 * y, q);
    // Neither is a tie, and both lie on the same side of the midpoint.
    let h = y / 2;
    assert(y == 2 * h);
    let k = q * y + h;
    lemma_cell_below(n, d, c, k);
    assert(d * k == q * (d * y) + d * h) by (nonlinear_arith)
        requires
            k == q * y + h,
    ;
    assert(2 * (d * h) == d * y) by (nonlinear_arith)
        requires
            y == 2 * h,
    ;
}

/// The number of binary digits of `n`, without leading zeros.
fn bit_length(n: u128) -> (len: u32)
    requires
        n > 0,
    ensures
        1 <= len <= 128,
        pow2((len - 1) as nat) <= n < pow2(len as nat),
{
    let mut len: u32 = 1;
    let mut rest: u128 = n / 2;
    proof {
        lemma2_to64();
        lemma_pow2_unfold(1);
        lemma_pow2_adds(64, 64);
    }
    while rest > 0
        invariant
            n > 0,
            1 <= len <= 128,
            rest * pow2(len as nat) <= n < (rest + 1) * pow2(len as nat),
            rest == 0 ==> pow2((len - 1) as nat) <= n,
            n < pow2(128),
        decreases rest,
    {
        let ghost before = rest;
        let ghost w = pow2(len as nat);
        proof {
            if len == 128 {
                assert(before * w >= w) by (nonlinear_arith)
                    requires
                        before >= 1,
                ;
            }
        }
        rest = rest / 2;
        proof {
            lemma_pow2_unfold((len + 1) as nat);
            assert(rest * (2 * w) <= before * w) by (nonlinear_arith)
                requires
                    2 * rest <= before,
            ;
            assert((before + 1) * w <= (rest + 1) * (2 * w)) by (nonlinear_arith)
                requires
                    before + 1 <= 2 * (rest + 1),
            ;
            assert(before * w >= w) by (nonlinear_arith)
                requires
                    before >= 1,
            ;
        }
        len = len + 1;
    }
    assert(1 * pow2(len as nat) == pow2(len as nat));
    len
}

/// `2^k`.
pub fn power_of_two(k: u32) -> (n: u128)
    requires
        k < 128,
    ensures
        n == pow2(k as nat),
        n > 0,
{
    let mut n: u128 = 1;
    let mut i: u32 = 0;
    proof {
        lemma2_to64();
        lemma_pow2_unfold(128);
        lemma_pow2_adds(64, 64);
    }
    while i < k
        invariant
            i <= k < 128,
            n == pow2(i as nat),
            2 * pow2(127) == pow2(128),
            pow2(128) == 0x1_0000_0000_0000_0000 * 0x1_0000_0000_0000_0000,
        decreases k - i,
    {
        proof {
            lemma_pow2_unfold((i + 1) as nat);
            if i + 1 < 127 {
                lemma_pow2_strictly_increases((i + 1) as nat, 127);
            }
        }
        n = n * 2;
        i = i + 1;
    }
    proof {
        lemma_pow2_pos(k as nat);
    }
    n
}

/// `num / den` rounded to the nearest integer, ties to even.
fn divide_half_even(num: u128, den: u128) -> (q: u128)
    requires
        den > 0,
        num < 0x8000_0000_0000_0000_0000_0000_0000_0000,
    ensures
        q == half_even(num as nat, den as nat),
{
    let q: u128 = num / den;
    let r: u128 = num % den;
    proof {
        lemma_division(num as nat, den as nat);
        assert(q <= num) by (nonlinear_arith)
            requires
                q * den <= num,
                den >= 1,
        ;
    }
    if r < den - r || (r == den - r && q % 2 == 0) {
        q
    } else {
        q + 1
    }
}

/// Magnitude bits of the number of precision `p` nearest to `mant * 2^shift`
/// units, or `inf` where it is too large.
pub fn pack(p: u32, mant: u128, shift: i32, inf: u64) -> (mag: u64)
    requires
        p == 24 || p == 53,
        mant < 0x100_0000_0000_0000_0000_0000_0000_0000,
        -4000 <= shift <= 3100,
    ensures
        mag == at_most(
            nearest(p as nat, scaled_num(mant as nat, shift as int), scaled_den(shift as int)),
            inf as nat,
        ),
{
    let ghost pn = p as nat;
    let ghost num = scaled_num(mant as nat, shift as int);
    let ghost den = scaled_den(shift as int);
    if mant == 0 {
        proof {
            lemma_pack_zero(pn, shift as int);
        }
        return 0;
    }
    let len: u32 = bit_length(mant);
    proof {
        lemma2_to64_rest();
        lemma_pow2_adds(60, 60);
        if len > 120 {
            if len > 121 {
                lemma_pow2_strictly_increases(120, (len - 1) as nat);
            }
        }
    }
    assert(len <= 120);
    let top: i32 = len as i32 + shift - p as i32;
    let e: i32 = if top > 0 {
        top
    } else {
        0
    };
    proof {
        lemma_pack_exponent(pn, mant as nat, shift as int, len as nat, e as nat);
        lemma_nearest_closed(pn, num, den, e as nat);
    }
    let ghost rounded = half_even(num, den * pow2(e as nat));
    let m: u128 = if e >= shift {
        let drop: u32 = (e - shift) as u32;
        proof {
            lemma_pack_drop(mant as nat, shift as int, e as nat, drop as nat);
        }
        if drop >= 128 {
            proof {
                lemma_pack_tiny(mant as nat, drop as nat);
            }
            0
        } else {
            let unit: u128 = power_of_two(drop);
            divide_half_even(mant, unit)
        }
    } else {
        let up: u32 = (shift - e) as u32;
        proof {
            lemma_pack_raise(pn, mant as nat, shift as int, e as nat, up as nat);
        }
        let unit: u128 = power_of_two(up);
        mant * unit
    };
    assert(m == rounded);
    proof {
        lemma_pack_bound(pn, num, den, e as nat);
        lemma_pow2_steps();
    }
    let step: u64 = if p == 24 {
        0x80_0000
    } else {
        0x10_0000_0000_0000
    };
    assert(e <= 3200);
    assert(e as u64 * step <= 3200 * 0x10_0000_0000_0000) by (nonlinear_arith)
        requires
            0 <= e <= 3200,
            step <= 0x10_0000_0000_0000,
    ;
    let mag: u64 = e as u64 * step + m as u64;
    if mag < inf {
        mag
    } else {
        inf
    }
}

/// The powers of two that the two formats are built on.
pub proof fn lemma_pow2_steps()
    ensures
        pow2(23) == 0x80_0000,
        pow2(24) == 0x100_0000,
        pow2(52) == 0x10_0000_0000_0000,
        pow2(53) == 0x20_0000_0000_0000,
{
    lemma2_to64();
    lemma2_to64_rest();
}

proof fn lemma_pack_zero(p: nat, shift: int)
    requires
        p >= 1,
    ensures
        nearest(p, scaled_num(0, shift), scaled_den(shift)) == 0,
{
    let den = scaled_den(shift);
    if shift >= 0 {
        assert(0 * pow2(shift as nat) == 0);
    } else {
        lemma_pow2_pos((-shift) as nat);
    }
    lemma_pow2_pos(p);
    assert(0 < den * pow2(p)) by (nonlinear_arith)
        requires
            den > 0,
            pow2(p) > 0,
    ;
    assert(0 * den == 0 && (0 + 1) * den == den) by (nonlinear_arith);
    lemma_quotient(0, den, 0);
}

proof fn lemma_pack_exponent(p: nat, mant: nat, shift: int, len: nat, e: nat)
    requires
        p >= 1,
        len >= 1,
        pow2((len - 1) as nat) <= mant < pow2(len),
        e == len + shift - p || (e == 0 && len + shift - p <= 0),
    ensures
        scaled_den(shift) > 0,
        scaled_num(mant, shift) < scaled_den(shift) * pow2(p + e),
        e > 0 ==> scaled_num(mant, shift) >= scaled_den(shift) * pow2((p + e - 1) as nat),
{
    if shift >= 0 {
        let s = shift as nat;
        let w = pow2(s);
        lemma_pow2_pos(s);
        lemma_pow2_adds(len, s);
        lemma_pow2_adds((len - 1) as nat, s);
        assert(mant * w < pow2(len) * w) by (nonlinear_arith)
            requires
                mant < pow2(len),
                w > 0,
        ;
        assert(mant * w >= pow2((len - 1) as nat) * w) by (nonlinear_arith)
            requires
                mant >= pow2((len - 1) as nat),
        ;
        if len + s < p + e {
            lemma_pow2_strictly_increases(len + s, p + e);
        }
    } else {
        let s = (-shift) as nat;
        lemma_pow2_pos(s);
        lemma_pow2_adds(s, p + e);
        if len < s + p + e {
            lemma_pow2_strictly_increases(len, s + p + e);
        }
        if e > 0 {
            lemma_pow2_adds(s, (p + e - 1) as nat);
            assert((len - 1) as nat == s + (p + e - 1) as nat);
        }
    }
}

proof fn lemma_pack_drop(mant: nat, shift: int, e: nat, drop: nat)
    requires
        drop == e - shift,
    ensures
        half_even(scaled_num(mant, shift), scaled_den(shift) * pow2(e)) == half_even(
            mant,
            pow2(drop),
        ),
{
    if shift >= 0 {
        let s = shift as nat;
        lemma_pow2_pos(s);
        lemma_pow2_pos(drop);
        lemma_pow2_adds(drop, s);
        lemma_half_even_scale(mant, pow2(drop), pow2(s));
        assert(1 * pow2(e) == pow2(drop) * pow2(s));
    } else {
        lemma_pow2_adds((-shift) as nat, e);
    }
}

proof fn lemma_pack_tiny(mant: nat, drop: nat)
    requires
        mant < 0x100_0000_0000_0000_0000_0000_0000_0000,
        drop >= 128,
    ensures
        half_even(mant, pow2(drop)) == 0,
{
    lemma2_to64();
    lemma_pow2_adds(64, 64);
    if drop > 128 {
        lemma_pow2_strictly_increases(128, drop);
    }
    let d = pow2(drop);
    assert(0 * d == 0 && (0 + 1) * d == d) by (nonlinear_arith);
    lemma_quotient(mant, d, 0);
}

proof fn lemma_pack_raise(p: nat, mant: nat, shift: int, e: nat, up: nat)
    requires
        p == 24 || p == 53,
        mant > 0,
        up == shift - e,
        up > 0,
        scaled_num(mant, shift) < scaled_den(shift) * pow2(p + e),
    ensures
        up < 128,
        mant * pow2(up) < 0x20_0000_0000_0000,
        half_even(scaled_num(mant, shift), scaled_den(shift) * pow2(e)) == mant * pow2(up),
{
    let s = shift as nat;
    let w = pow2(e);
    let u = pow2(up);
    lemma_pow2_adds(up, e);
    lemma_pow2_adds(p, e);
    lemma_pow2_pos(e);
    lemma_pow2_pos(up);
    assert(mant * (u * w) == (mant * u) * w) by (nonlinear_arith);
    assert(1 * pow2(p + e) == pow2(p + e));
    assert(mant * u < pow2(p)) by (nonlinear_arith)
        requires
            (mant * u) * w < pow2(p) * w,
            w > 0,
    ;
    lemma_pow2_steps();
    assert(u <= mant * u) by (nonlinear_arith)
        requires
            mant >= 1,
    ;
    if up >= 128 {
        if up > 53 {
            lemma_pow2_strictly_increases(53, up);
        }
    }
    lemma_half_even_scale(mant * u, 1, w);
    lemma_half_even_whole(mant * u);
    assert(1 * w == w);
}

proof fn lemma_pack_bound(p: nat, num: nat, den: nat, e: nat)
    requires
        p == 24 || p == 53,
        den > 0,
        num < den * pow2(p + e),
    ensures
        half_even(num, den * pow2(e)) <= 0x20_0000_0000_0000,
{
    let d = den * pow2(e);
    lemma_pow2_pos(e);
    assert(d > 0) by (nonlinear_arith)
        requires
            d == den * pow2(e),
            den > 0,
            pow2(e) > 0,
    ;
    lemma_pow2_adds(p, e);
    assert(den * (pow2(p) * pow2(e)) == pow2(p) * d) by (nonlinear_arith)
        requires
            d == den * pow2(e),
    ;
    lemma_division(num, d);
    let q = num / d;
    assert(q < pow2(p)) by (nonlinear_arith)
        requires
            q * d <= num,
            num < pow2(p) * d,
    ;
    lemma_pow2_steps();
}

} // verus!
