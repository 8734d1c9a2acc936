//! How far results are from the exact ones, and where they are exact.

use crate::float::double::F64;
use crate::float::exact::{
    exact_limit, lemma_representable, whole_numbers_are_exact, whole_sums_are_exact,
};
use crate::float::magnitude::{infinity, lemma_units_order, round};
use crate::float::nearest::{apart, rounding_error_is_small, rounding_keeps_order};
use crate::float::rounding::{
    lemma_half_even_scale, lemma_half_even_whole, lemma_nearest_closed, lemma_nearest_scale,
    lemma_pow2_steps, lemma_quotient, units,
};
use crate::float::single::{below_is_order_of_values, lemma_zero_size, F32};
use crate::float::whole::{lemma_round_own_value, one};
use vstd::arithmetic::power2::*;
use vstd::prelude::*;

verus! {

/// `x` is `y` but for at most `k` parts in `2^24`.
pub open spec fn near(x: int, y: int, k: int) -> bool {
    apart(x, y) * 0x100_0000 <= k * y
}

/// Factors do not change how near two numbers are.
pub proof fn lemma_near_scaled(x: int, y: int, k: int, c: int)
    requires
        c > 0,
    ensures
        near(x * c, y * c, k) == near(x, y, k),
{
    let a = apart(x, y);
    assert(apart(x * c, y * c) == a * c) by (nonlinear_arith)
        requires
            c > 0,
            a == apart(x, y),
    ;
    assert((a * c) * 0x100_0000 == (a * 0x100_0000) * c) by (nonlinear_arith);
    assert(k * (y * c) == (k * y) * c) by (nonlinear_arith);
    let l = a * 0x100_0000;
    let r = k * y;
    assert((l * c <= r * c) == (l <= r)) by (nonlinear_arith)
        requires
            c > 0,
    ;
}

/// Small differences add up.
pub proof fn lemma_near_chain(x: int, y: int, z: int, j: int, k: int)
    requires
        near(x, y, j),
        near(y, z, k),
        0 <= j <= 0x400,
        0 <= k <= 0x400,
        z >= 0,
    ensures
        near(x, z, j + k + 1),
{
    let n: int = 0x100_0000;
    // |x - z| n <= j y + k z, and j y <= j z + j k z / n <= j z + z.
    assert(n * y <= n * z + k * z);
    assert(j * (n * y) <= j * (n * z + k * z)) by (nonlinear_arith)
        requires
            0 <= j,
            n * y <= n * z + k * z,
    ;
    assert(j * (n * y) == n * (j * y)) by (nonlinear_arith);
    assert(j * (n * z + k * z) == n * (j * z) + (j * k) * z) by (nonlinear_arith);
    assert((j * k) * z <= n * z) by (nonlinear_arith)
        requires
            0 <= j <= 0x400,
            0 <= k <= 0x400,
            z >= 0,
            n == 0x100_0000,
    ;
    assert(n * (j * y) <= n * (j * z) + n * z);
    assert(j * y <= j * z + z);
    assert((j + k + 1) * z == j * z + k * z + z) by (nonlinear_arith);
}

/// Nearness holds both ways, with one part more.
pub proof fn lemma_near_back(x: int, y: int, k: int)
    requires
        near(x, y, k),
        0 <= k <= 0x400,
        y >= 0,
    ensures
        near(y, x, k + 1),
{
    let n: int = 0x100_0000;
    assert(n * x >= n * y - k * y);
    assert(k * (n * x) >= k * (n * y - k * y)) by (nonlinear_arith)
        requires
            0 <= k,
            n * x >= n * y - k * y,
    ;
    assert(k * (n * x) == n * (k * x)) by (nonlinear_arith);
    assert(k * (n * y - k * y) == n * (k * y) - (k * k) * y) by (nonlinear_arith);
    assert((k * k + k) * y <= n * y) by (nonlinear_arith)
        requires
            0 <= k <= 0x400,
            y >= 0,
            n == 0x100_0000,
    ;
    assert((k * k + k) * y == (k * k) * y + k * y) by (nonlinear_arith);
    assert((k + 1) * x == k * x + x) by (nonlinear_arith);
    assert(n * (k * x) + n * x >= n * (k * y));
}

/// A quotient in the middle of the range is finite, and near to the exact one.
proof fn lemma_round_near(num: nat, den: nat)
    requires
        den >= 1,
        den * pow2(23) <= num <= den * pow2(253),
    ensures
        round(24, num, den) < infinity(24),
        near((units(24, round(24, num, den)) * den) as int, num as int, 1),
{
    lemma_pow2_steps();
    let top = pow2(253);
    lemma_representable(1, 253);
    assert(1 * top == top);
    rounding_keeps_order(24, num, den * top, den);
    assert(top * den == den * top && 1 * den == den) by (nonlinear_arith);
    lemma_nearest_scale(24, top, 1, den);
    rounding_error_is_small(24, num, den);
}

/// Rounding an exact result changes nothing.
pub proof fn lemma_round_exact(num: nat, den: nat, mag: nat)
    requires
        den >= 1,
        mag < infinity(24),
        units(24, mag) * den == num,
    ensures
        round(24, num, den) == mag,
{
    lemma_round_own_value(24, mag);
    let u = units(24, mag);
    assert(1 * den == den);
    lemma_nearest_scale(24, u, 1, den);
}

/// A finite number is given by its sign and its size.
pub proof fn lemma_same_size(a: F32, b: F32)
    requires
        a.finite(),
        b.finite(),
        a.negative() == b.negative(),
        a.size() == b.size(),
    ensures
        a == b,
{
    if a.mag() < b.mag() {
        lemma_units_order(24, a.mag(), b.mag());
    }
    if b.mag() < a.mag() {
        lemma_units_order(24, b.mag(), a.mag());
    }
}

/// A positive whole number of up to 64 digits is finite, and near to its number.
pub proof fn whole_numbers_are_near(n: int)
    requires
        1 <= n <= u64::MAX,
    ensures
        F32::of_int(n).finite(),
        !F32::of_int(n).negative(),
        near(F32::of_int(n).size() as int, n * one(24), 1),
{
    let o = one(24);
    lemma_pow2_pos(149);
    lemma2_to64();
    lemma_pow2_adds(64, 149);
    lemma_pow2_strictly_increases(213, 253);
    lemma_pow2_strictly_increases(23, 149);
    assert(n * o >= o && n * o <= pow2(64) * o) by (nonlinear_arith)
        requires
            1 <= n <= pow2(64),
            o > 0,
    ;
    let num = (n * o) as nat;
    assert(1 * pow2(23) == pow2(23) && 1 * pow2(253) == pow2(253));
    lemma_round_near(num, 1);
    assert(num == n as nat * o);
}

/// A product in the middle of the range is near to the exact one.
pub proof fn products_are_near(a: F32, b: F32)
    requires
        a.finite(),
        b.finite(),
        !a.negative(),
        !b.negative(),
        one(24) * pow2(23) <= a.size() * b.size() <= one(24) * pow2(253),
    ensures
        a.product(b).finite(),
        !a.product(b).negative(),
        near((a.product(b).size() * one(24)) as int, (a.size() * b.size()) as int, 1),
{
    lemma_pow2_pos(149);
    lemma_round_near(a.size() * b.size(), one(24));
}

/// A quotient in the middle of the range is near to the exact one.
pub proof fn quotients_are_near(a: F32, b: F32)
    requires
        a.finite(),
        b.finite(),
        !a.negative(),
        !b.negative(),
        b.size() > 0,
        b.size() * pow2(23) <= a.size() * one(24) <= b.size() * pow2(253),
    ensures
        a.quotient(b).finite(),
        !a.quotient(b).negative(),
        near((a.quotient(b).size() * b.size()) as int, (a.size() * one(24)) as int, 1),
{
    lemma_zero_size(24);
    lemma_round_near(a.size() * one(24), b.size());
}

/// The quotient of a multiple of a whole number by that number.
pub proof fn whole_quotients_are_exact(k: int, b: int)
    requires
        0 <= k,
        0 < b <= exact_limit(),
        k * b <= exact_limit(),
    ensures
        k <= exact_limit(),
        F32::of_int(k * b).quotient(F32::of_int(b)) == F32::of_int(k),
{
    assert(k <= k * b && 0 <= k * b) by (nonlinear_arith)
        requires
            0 <= k,
            1 <= b,
    ;
    whole_numbers_are_exact(k);
    whole_numbers_are_exact(b);
    whole_numbers_are_exact(k * b);
    let o = one(24);
    lemma_pow2_pos(149);
    lemma_zero_size(24);
    assert(b * o > 0) by (nonlinear_arith)
        requires
            b > 0,
            o > 0,
    ;
    assert((k * o) * (b * o) == ((k * b) * o) * o) by (nonlinear_arith);
    lemma_round_exact(
        F32::of_int(k * b).size() * o,
        F32::of_int(b).size(),
        F32::of_int(k).mag(),
    );
}

/// The product of two whole numbers is exact as long as it stays in the limit.
pub proof fn whole_products_are_exact(a: int, b: int)
    requires
        0 <= a <= exact_limit(),
        0 <= b <= exact_limit(),
        a * b <= exact_limit(),
    ensures
        F32::of_int(a).product(F32::of_int(b)) == F32::of_int(a * b),
{
    assert(0 <= a * b) by (nonlinear_arith)
        requires
            0 <= a,
            0 <= b,
    ;
    whole_numbers_are_exact(a);
    whole_numbers_are_exact(b);
    whole_numbers_are_exact(a * b);
    let o = one(24);
    lemma_pow2_pos(149);
    assert((a * o) * (b * o) == ((a * b) * o) * o) by (nonlinear_arith);
    lemma_round_exact(F32::of_int(a).size() * F32::of_int(b).size(), o, F32::of_int(a * b).mag());
}

/// A whole number is its own nearest whole number, and needs no raising.
pub proof fn whole_rounding(n: int)
    requires
        -exact_limit() <= n <= exact_limit(),
    ensures
        F32::of_int(n).rounded() == F32::of_int(n),
        F32::of_int(n).raised() == F32::of_int(n),
{
    whole_numbers_are_exact(n);
    let o = one(24);
    lemma_pow2_pos(149);
    let k = (if n < 0 {
        -n
    } else {
        n
    }) as nat;
    let s = F32::of_int(n).size();
    assert(-(n * o) == (-n) * o) by (nonlinear_arith);
    assert(s == k * o);
    assert((k + 1) * o == k * o + o) by (nonlinear_arith);
    lemma_quotient(s, o, k);
    assert(k * (2 * o) == 2 * (k * o)) by (nonlinear_arith);
    assert((k + 1) * (2 * o) == 2 * (k * o) + 2 * o) by (nonlinear_arith);
    lemma_quotient(2 * s + o, 2 * o, k);
}

/// A positive number that is neither huge nor tiny.
pub open spec fn moderate(x: F32) -> bool {
    &&& x.finite()
    &&& !x.negative()
    &&& one(24) <= x.size() * 0x100_0000_0000
    &&& x.size() <= 0x100_0000_0000 * one(24)
}

/// The product of two moderate numbers is near to the exact one.
pub proof fn moderate_products_are_near(a: F32, b: F32)
    requires
        moderate(a),
        moderate(b),
    ensures
        a.product(b).finite(),
        !a.product(b).negative(),
        near((a.product(b).size() * one(24)) as int, (a.size() * b.size()) as int, 1),
{
    let o = one(24);
    let m: nat = 0x100_0000_0000;
    let (x, y) = (a.size(), b.size());
    lemma_pow2_pos(149);
    lemma2_to64();
    lemma2_to64_rest();
    assert(pow2(40) == m);
    lemma_pow2_adds(40, 40);
    lemma_pow2_adds(80, 69);
    lemma_pow2_adds(80, 149);
    lemma_pow2_strictly_increases(23, 69);
    lemma_pow2_strictly_increases(229, 253);
    assert(o * o <= (x * y) * (m * m)) by (nonlinear_arith)
        requires
            o <= x * m,
            o <= y * m,
    ;
    assert(x * y <= (m * m) * (o * o)) by (nonlinear_arith)
        requires
            x <= m * o,
            y <= m * o,
    ;
    let k = pow2(69);
    assert(o * o == (o * k) * (m * m)) by (nonlinear_arith)
        requires
            o == (m * m) * k,
    ;
    let mm = m * m;
    assert(o * k <= x * y) by (nonlinear_arith)
        requires
            (o * k) * mm <= (x * y) * mm,
            mm > 0,
    ;
    assert(o * pow2(23) <= o * k) by (nonlinear_arith)
        requires
            pow2(23) <= k,
    ;
    assert((m * m) * (o * o) == o * pow2(229)) by (nonlinear_arith)
        requires
            pow2(229) == (m * m) * o,
    ;
    assert(o * pow2(229) <= o * pow2(253)) by (nonlinear_arith)
        requires
            pow2(229) <= pow2(253),
    ;
    products_are_near(a, b);
}

/// The quotient of two moderate numbers is near to the exact one.
pub proof fn moderate_quotients_are_near(a: F32, b: F32)
    requires
        moderate(a),
        moderate(b),
    ensures
        a.quotient(b).finite(),
        !a.quotient(b).negative(),
        near((a.quotient(b).size() * b.size()) as int, (a.size() * one(24)) as int, 1),
{
    let o = one(24);
    let m: nat = 0x100_0000_0000;
    let (x, y) = (a.size(), b.size());
    lemma_pow2_pos(149);
    lemma2_to64();
    lemma2_to64_rest();
    assert(pow2(40) == m);
    lemma_pow2_adds(40, 109);
    lemma_pow2_adds(40, 23);
    lemma_pow2_adds(40, 149);
    lemma_pow2_adds(40, 213);
    lemma_pow2_strictly_increases(63, 109);
    lemma_pow2_strictly_increases(189, 213);
    let (t, u, v, k) = (pow2(23), pow2(63), pow2(253), pow2(109));
    // y t <= m o t = o u <= o k <= x o
    assert(y * t <= o * (m * t)) by (nonlinear_arith)
        requires
            y <= m * o,
    ;
    assert(o * u <= o * k) by (nonlinear_arith)
        requires
            u <= k,
    ;
    assert(k <= x) by (nonlinear_arith)
        requires
            m * k <= x * m,
            m > 0,
    ;
    assert(o * k <= x * o) by (nonlinear_arith)
        requires
            k <= x,
    ;
    // x o <= m o o <= 2^213 o <= y m 2^213 = y v
    let z = pow2(213);
    assert(x * o <= (m * o) * o) by (nonlinear_arith)
        requires
            x <= m * o,
    ;
    assert((m * o) * o <= z * o) by (nonlinear_arith)
        requires
            m * o <= z,
    ;
    assert(z * o <= y * v) by (nonlinear_arith)
        requires
            o <= y * m,
            v == m * z,
    ;
    assert(y > 0) by (nonlinear_arith)
        requires
            0 < o <= y * m,
    ;
    quotients_are_near(a, b);
}

/// Whole numbers of up to 32 digits are moderate.
pub proof fn whole_numbers_are_moderate(n: int)
    requires
        1 <= n <= u32::MAX,
    ensures
        moderate(F32::of_int(n)),
        near(F32::of_int(n).size() as int, n * one(24), 1),
{
    whole_numbers_are_near(n);
    let o = one(24);
    let s = F32::of_int(n).size();
    assert(o <= n * o <= 0x1_0000_0000 * o) by (nonlinear_arith)
        requires
            1 <= n <= 0x1_0000_0000,
            o >= 0,
    ;
}

/// A quotient of two whole numbers of up to 32 digits is moderate.
pub proof fn ratios_are_moderate(w: int, h: int)
    requires
        1 <= w <= u32::MAX,
        1 <= h <= u32::MAX,
    ensures
        moderate(F32::of_int(w).quotient(F32::of_int(h))),
{
    whole_numbers_are_moderate(w);
    whole_numbers_are_moderate(h);
    let a = F32::of_int(w);
    let b = F32::of_int(h);
    moderate_quotients_are_near(a, b);
    let o = one(24);
    lemma_pow2_pos(149);
    let (x, y, q) = (a.size(), b.size(), a.quotient(b).size());
    assert(o <= w * o <= 0x1_0000_0000 * o) by (nonlinear_arith)
        requires
            1 <= w <= 0x1_0000_0000,
            o >= 0,
    ;
    assert(o <= h * o <= 0x1_0000_0000 * o) by (nonlinear_arith)
        requires
            1 <= h <= 0x1_0000_0000,
            o >= 0,
    ;
    assert(o <= 2 * x && x <= 0x2_0000_0000 * o);
    assert(o <= 2 * y && y <= 0x2_0000_0000 * o);
    assert(q * y <= 2 * (x * o) && x * o <= 2 * (q * y));
    assert(q * o <= (0x8_0000_0000 * o) * o) by (nonlinear_arith)
        requires
            q * y <= 2 * (x * o),
            x <= 0x2_0000_0000 * o,
            o <= 2 * y,
            o > 0,
    ;
    assert(q <= 0x8_0000_0000 * o) by (nonlinear_arith)
        requires
            q * o <= (0x8_0000_0000 * o) * o,
            o > 0,
    ;
    assert(o * o <= (q * 0x8_0000_0000) * o) by (nonlinear_arith)
        requires
            x * o <= 2 * (q * y),
            o <= 2 * x,
            y <= 0x2_0000_0000 * o,
            o > 0,
    ;
    assert(o <= q * 0x8_0000_0000) by (nonlinear_arith)
        requires
            o * o <= (q * 0x8_0000_0000) * o,
            o > 0,
    ;
}

/// Multiplying by one, dividing by one and dividing by itself.
pub proof fn one_is_neutral(x: F32)
    requires
        x.finite(),
    ensures
        x.product(F32::of_int(1)) == x,
        x.quotient(F32::of_int(1)) == x,
        x.mag() > 0 ==> x.quotient(x) == F32::of_int(1),
{
    whole_numbers_are_exact(1);
    let o = one(24);
    lemma_pow2_pos(149);
    lemma_zero_size(24);
    assert(1 * o == o);
    lemma_round_exact(x.size() * o, o, x.mag());
    if x.mag() > 0 {
        lemma_units_order(24, 0, x.mag());
        assert(o * x.size() == x.size() * o) by (nonlinear_arith);
        lemma_round_exact(x.size() * o, x.size(), F32::of_int(1).mag());
    }
}

/// A factor of at most one does not make a number larger, nor does it change
/// the sign.
pub proof fn fractions_do_not_enlarge(x: F32, f: F32)
    requires
        x.finite(),
        f.finite(),
        !x.negative(),
        !f.negative(),
        !F32::of_int(1).below(f),
    ensures
        !x.below(x.product(f)),
        x.product(f).finite(),
        !x.product(f).negative(),
{
    whole_numbers_are_exact(1);
    below_is_order_of_values(F32::of_int(1), f);
    let o = one(24);
    lemma_pow2_pos(149);
    assert(1 * o == o);
    let (a, b) = (x.size(), f.size());
    assert(a * b <= a * o) by (nonlinear_arith)
        requires
            b <= o,
    ;
    rounding_keeps_order(24, a * b, a * o, o);
    lemma_round_exact(a * o, o, x.mag());
}

/// The difference of two whole numbers is exact as long as it stays in the
/// limit.
pub proof fn whole_differences_are_exact(a: int, b: int)
    requires
        -exact_limit() <= a <= exact_limit(),
        -exact_limit() <= b <= exact_limit(),
        -exact_limit() <= a - b <= exact_limit(),
    ensures
        F32::of_int(a).sum(F32::of_int(b).negated()) == F32::of_int(a - b),
{
    whole_numbers_are_exact(a);
    whole_numbers_are_exact(b);
    whole_numbers_are_exact(-b);
    let n = F32::of_int(b).negated();
    if b == 0 {
        whole_numbers_are_exact(0);
        whole_sums_are_exact(a, 0);
        lemma_zero_size(24);
        let o = one(24);
        lemma_pow2_pos(149);
        assert(0 * o == 0) by (nonlinear_arith);
        below_is_order_of_values(F32::of_int(0), F32::of(false, 0));
        assert(F32::of_int(0) == F32::of(false, 0));
        if a != 0 {
            assert(a * o != 0) by (nonlinear_arith)
                requires
                    a != 0,
                    o > 0,
            ;
        }
    } else {
        assert(n == F32::of_int(-b));
        whole_sums_are_exact(a, -b);
    }
}

/// Half of a whole number is exact, and so is a whole number with half of
/// another added, which is where the middle of an interval lies.
pub proof fn middles_are_exact(x: int, n: int)
    requires
        -exact_limit() < x < exact_limit(),
        -exact_limit() < n < exact_limit(),
        -exact_limit() < 2 * x + n < exact_limit(),
    ensures
        F32::of_int(n).quotient(F32::of_int(2)).finite(),
        2 * F32::of_int(n).quotient(F32::of_int(2)).value() == n * one(24),
        F32::of_int(x).sum(F32::of_int(n).quotient(F32::of_int(2))).finite(),
        2 * F32::of_int(x).sum(F32::of_int(n).quotient(F32::of_int(2))).value() == (2 * x + n)
            * one(24),
{
    whole_numbers_are_exact(x);
    whole_numbers_are_exact(n);
    whole_numbers_are_exact(2);
    let o = one(24);
    let u = pow2(148);
    lemma_pow2_pos(149);
    lemma_pow2_pos(148);
    lemma_pow2_unfold(149);
    lemma_zero_size(24);
    let k = (if n < 0 {
        -n
    } else {
        n
    }) as nat;
    lemma_representable(k, 148);
    let half = F32::of_int(n).quotient(F32::of_int(2));
    assert(-(n * o) == (-n) * o) by (nonlinear_arith);
    assert((k * u) * (2 * o) == (k * o) * o) by (nonlinear_arith)
        requires
            o == 2 * u,
    ;
    assert(F32::of_int(n).size() == k * o);
    lemma_round_exact(F32::of_int(n).size() * o, F32::of_int(2).size(), round(24, k * u, 1));
    assert(half.size() == k * u);
    assert(2 * (k * u) == k * o) by (nonlinear_arith)
        requires
            o == 2 * u,
    ;
    let m = 2 * x + n;
    let j = (if m < 0 {
        -m
    } else {
        m
    }) as nat;
    lemma_representable(j, 148);
    let v = F32::of_int(x).value() + half.value();
    assert(2 * v == m * o) by (nonlinear_arith)
        requires
            2 * v == 2 * (x * o) + n * o,
            m == 2 * x + n,
    ;
    assert(v == m * u) by (nonlinear_arith)
        requires
            2 * v == m * o,
            o == 2 * u,
    ;
    assert((-m) * u == -(m * u)) by (nonlinear_arith);
    if m == 0 {
        assert(m * u == 0);
        assert(m * o == 0);
    } else if m > 0 {
        assert(m * u > 0) by (nonlinear_arith)
            requires
                m > 0,
                u > 0,
        ;
    } else {
        assert(m * u < 0) by (nonlinear_arith)
            requires
                m < 0,
                u > 0,
        ;
    }
    assert(2 * (m * u) == m * o) by (nonlinear_arith)
        requires
            o == 2 * u,
    ;
}

/// The order of whole numbers.
pub proof fn whole_order(a: int, b: int)
    requires
        -exact_limit() <= a <= exact_limit(),
        -exact_limit() <= b <= exact_limit(),
    ensures
        F32::of_int(a).below(F32::of_int(b)) == (a < b),
        F32::of_int(a).same(F32::of_int(b)) == (a == b),
{
    whole_numbers_are_exact(a);
    whole_numbers_are_exact(b);
    below_is_order_of_values(F32::of_int(a), F32::of_int(b));
    let o = one(24);
    lemma_pow2_pos(149);
    assert((a * o < b * o) == (a < b) && (a * o == b * o) == (a == b)) by (nonlinear_arith)
        requires
            o > 0,
    ;
}

/// A quotient of two whole numbers of up to 32 digits is near to their ratio.
pub proof fn ratios_are_near(w: int, h: int)
    requires
        1 <= w <= u32::MAX,
        1 <= h <= u32::MAX,
    ensures
        moderate(F32::of_int(w).quotient(F32::of_int(h))),
        near(F32::of_int(w).quotient(F32::of_int(h)).size() * h, w * one(24), 6),
{
    let a = F32::of_int(w);
    let b = F32::of_int(h);
    whole_numbers_are_moderate(w);
    whole_numbers_are_moderate(h);
    moderate_quotients_are_near(a, b);
    ratios_are_moderate(w, h);
    let o: int = one(24) as int;
    lemma_pow2_pos(149);
    let (x, y, q) = (a.size() as int, b.size() as int, a.quotient(b).size() as int);
    // q y is near x o, x near w o, y near h o: q h is near w o.
    lemma_near_back(y, h * o, 1);
    assert(q > 0) by (nonlinear_arith)
        requires
            o <= q * 0x100_0000_0000,
            o > 0,
    ;
    lemma_near_scaled(h * o, y, 2, q);
    assert(y * q == q * y) by (nonlinear_arith);
    lemma_near_scaled(x, w * o, 1, o);
    assert((w * o) * o >= 0) by (nonlinear_arith)
        requires
            w >= 0,
            o >= 0,
    ;
    assert(x * o >= 0) by (nonlinear_arith)
        requires
            x >= 0,
            o >= 0,
    ;
    lemma_near_chain((h * o) * q, q * y, x * o, 2, 1);
    lemma_near_chain((h * o) * q, x * o, (w * o) * o, 4, 1);
    assert((h * o) * q == (q * h) * o) by (nonlinear_arith);
    lemma_near_scaled(q * h, w * o, 6, o);
}

/// Multiplying by the ratio of two whole numbers.
pub proof fn scaling_is_near(t: F32, w: int, h: int)
    requires
        moderate(t),
        1 <= w <= u32::MAX,
        1 <= h <= u32::MAX,
    ensures
        ({
            let r = t.product(F32::of_int(w).quotient(F32::of_int(h)));
            &&& r.finite()
            &&& !r.negative()
            &&& near(r.size() * h, t.size() * w, 8)
        }),
{
    ratios_are_near(w, h);
    let ratio = F32::of_int(w).quotient(F32::of_int(h));
    moderate_products_are_near(t, ratio);
    let o: int = one(24) as int;
    lemma_pow2_pos(149);
    let (n, q) = (t.size() as int, ratio.size() as int);
    let r = t.product(ratio).size() as int;
    assert(n > 0) by (nonlinear_arith)
        requires
            o <= n * 0x100_0000_0000,
            o > 0,
    ;
    // r o is near n q; so r o h is near n q h, which is near n w o.
    lemma_near_scaled(r * o, n * q, 1, h);
    assert((n * q) * h == (q * h) * n) by (nonlinear_arith);
    lemma_near_scaled(q * h, w * o, 6, n);
    assert((w * o) * n >= 0) by (nonlinear_arith)
        requires
            w >= 0,
            o >= 0,
            n >= 0,
    ;
    lemma_near_chain((r * o) * h, (q * h) * n, (w * o) * n, 1, 6);
    assert((r * o) * h == (r * h) * o && (w * o) * n == (n * w) * o) by (nonlinear_arith);
    lemma_near_scaled(r * h, n * w, 8, o);
}

/// Dividing by the ratio of two whole numbers.
pub proof fn unscaling_is_near(t: F32, w: int, h: int)
    requires
        moderate(t),
        1 <= w <= u32::MAX,
        1 <= h <= u32::MAX,
    ensures
        ({
            let r = t.quotient(F32::of_int(w).quotient(F32::of_int(h)));
            &&& r.finite()
            &&& !r.negative()
            &&& near(t.size() * h, r.size() * w, 9)
        }),
{
    ratios_are_near(w, h);
    let ratio = F32::of_int(w).quotient(F32::of_int(h));
    moderate_quotients_are_near(t, ratio);
    let o: int = one(24) as int;
    lemma_pow2_pos(149);
    let (n, q) = (t.size() as int, ratio.size() as int);
    let r = t.quotient(ratio).size() as int;
    assert(n > 0) by (nonlinear_arith)
        requires
            o <= n * 0x100_0000_0000,
            o > 0,
    ;
    assert(n * o > 0) by (nonlinear_arith)
        requires
            n > 0,
            o > 0,
    ;
    // r q is near n o; so n h o is near r q h, which is near r w o.
    lemma_near_back(r * q, n * o, 1);
    lemma_near_scaled(n * o, r * q, 2, h);
    assert((r * q) * h == (q * h) * r) by (nonlinear_arith);
    if r == 0 {
        assert(r * q == 0) by (nonlinear_arith)
            requires
                r == 0,
        ;
    } else {
        lemma_near_scaled(q * h, w * o, 6, r);
        assert((w * o) * r >= 0) by (nonlinear_arith)
            requires
                w >= 0,
                o >= 0,
                r >= 0,
        ;
        lemma_near_chain((n * o) * h, (q * h) * r, (w * o) * r, 2, 6);
        assert((n * o) * h == (n * h) * o && (w * o) * r == (r * w) * o) by (nonlinear_arith);
        lemma_near_scaled(n * h, r * w, 9, o);
    }
}

/// Up to the limit of exact whole numbers, truncating takes the whole part,
/// raising gives the least whole number that is no smaller, and rounding one that
/// is at most a half away.
pub proof fn whole_parts_are_exact(x: F32, low: int, high: int)
    requires
        x.finite(),
        !x.negative(),
        x.size() <= exact_limit() * one(24),
        low <= 0,
        high >= exact_limit(),
    ensures
        ({
            let n = x.truncated(low, high);
            0 <= n && n * one(24) <= x.size() && x.size() < (n + 1) * one(24)
        }),
        ({
            let n = x.raised().truncated(low, high);
            0 <= n && (n - 1) * one(24) < x.size() && x.size() <= n * one(24)
        }),
        ({
            let n = x.rounded().truncated(low, high);
            0 <= n && 2 * apart(n * one(24), x.size() as int) <= one(24)
        }),
{
    let o: int = one(24) as int;
    let s: int = x.size() as int;
    lemma_pow2_pos(149);
    vstd::arithmetic::div_mod::lemma_fundamental_div_mod(s, o);
    vstd::arithmetic::div_mod::lemma_mod_bound(s, o);
    let q = s / o;
    let top = exact_limit();
    assert(0 <= q <= top) by (nonlinear_arith)
        requires
            q == s / o,
            0 <= s <= top * o,
            o > 0,
    ;
    assert(o * q == q * o && (q + 1) * o == q * o + o && (q - 1) * o == q * o - o)
        by (nonlinear_arith);
    // Raised.
    let c: int = if s % o == 0 {
        q
    } else {
        q + 1
    };
    assert(c <= top) by {
        if s % o != 0 && q == top {
            assert(top * o == q * o);
        }
    }
    lemma_whole_back(c, low, high);
    // Rounded.
    let d: int = (2 * s + o) / (2 * o);
    vstd::arithmetic::div_mod::lemma_fundamental_div_mod(2 * s + o, 2 * o);
    vstd::arithmetic::div_mod::lemma_mod_bound(2 * s + o, 2 * o);
    assert((2 * o) * d == 2 * (d * o)) by (nonlinear_arith);
    assert(0 <= d <= top) by (nonlinear_arith)
        requires
            d == (2 * s + o) / (2 * o),
            0 <= s <= top * o,
            o > 0,
    ;
    lemma_whole_back(d, low, high);
}

proof fn lemma_whole_back(n: int, low: int, high: int)
    requires
        0 <= n <= exact_limit(),
        low <= 0,
        high >= exact_limit(),
    ensures
        F32::of_int(n).truncated(low, high) == n,
{
    whole_numbers_are_exact(n);
    let o = one(24);
    lemma_pow2_pos(149);
    assert((n + 1) * o == n * o + o) by (nonlinear_arith);
    lemma_quotient((n * o) as nat, o, n as nat);
}

/// The product of zero with a finite number that is not negative.
pub proof fn zero_times(x: F32)
    requires
        x.finite(),
        !x.negative(),
    ensures
        F32::of_int(0).product(x) == F32::of_int(0),
        F32::of_int(0).raised() == F32::of_int(0),
{
    whole_numbers_are_exact(0);
    whole_rounding(0);
    let o = one(24);
    lemma_pow2_pos(149);
    let s = x.size();
    assert(0 * s == 0 && 0 * o == 0) by (nonlinear_arith);
    lemma_round_exact(0, o, F32::of_int(0).mag());
}

/// `m * 2^e` units is a double-precision number if `m` has at most 53 digits.
proof fn lemma_representable_double(m: nat, e: nat)
    requires
        m < 0x20_0000_0000_0000,
        e <= 2045,
    ensures
        round(53, m * pow2(e), 1) < infinity(53),
        units(53, round(53, m * pow2(e), 1)) == m * pow2(e),
    decreases e,
{
    lemma_pow2_steps();
    let w = pow2(e);
    lemma_pow2_pos(e);
    if e == 0 || m >= 0x10_0000_0000_0000 {
        lemma_pow2_adds(53, e);
        assert(m * w < pow2(53) * w) by (nonlinear_arith)
            requires
                m < pow2(53),
                w > 0,
        ;
        assert(1 * pow2(53 + e) == pow2(53 + e));
        if e > 0 {
            lemma_pow2_adds(52, e);
            assert(m * w >= pow2(52) * w) by (nonlinear_arith)
                requires
                    m >= pow2(52),
            ;
            assert((53 + e - 1) as nat == 52 + e);
            assert(1 * pow2(52 + e) == pow2(52 + e));
        }
        lemma_nearest_closed(53, m * w, 1, e);
        assert(1 * w == w);
        lemma_half_even_scale(m, 1, w);
        lemma_half_even_whole(m);
        let step = pow2(52);
        let mag = e * step + m;
        assert(e * step <= 2045 * step) by (nonlinear_arith)
            requires
                e <= 2045,
        ;
        assert(mag < infinity(53));
        if m >= step {
            assert((e + 1) * step == e * step + step) by (nonlinear_arith);
            assert((e + 1 + 1) * step == e * step + 2 * step) by (nonlinear_arith);
            lemma_quotient(mag, step, e + 1);
        } else {
            assert(0 * step == 0);
        }
    } else {
        let v = pow2((e - 1) as nat);
        lemma_pow2_unfold(e);
        assert(m * (2 * v) == (2 * m) * v) by (nonlinear_arith);
        lemma_representable_double(2 * m, (e - 1) as nat);
    }
}

/// Whole numbers of up to 53 digits are exact in double precision.
pub proof fn whole_doubles_are_exact(n: int)
    requires
        0 <= n < 0x20_0000_0000_0000,
    ensures
        F64::of_int(n).finite(),
        !F64::of_int(n).negative(),
        F64::of_int(n).size() == n * one(53),
        F64::of_int(n).truncated(0, u16::MAX as int) == if n > u16::MAX {
            u16::MAX as int
        } else {
            n
        },
{
    lemma_representable_double(n as nat, 1074);
    let o = one(53);
    lemma_pow2_pos(1074);
    assert(F64::of_int(n).mag() == round(53, (n as nat) * o, 1));
    assert((n + 1) * o == n * o + o) by (nonlinear_arith);
    lemma_quotient((n * o) as nat, o, n as nat);
}

/// The order of finite double-precision numbers is the order of their values.
pub proof fn double_order(a: F64, b: F64)
    requires
        a.finite(),
        b.finite(),
    ensures
        a.below(b) == (a.value() < b.value()),
{
    let x = a.mag();
    let y = b.mag();
    lemma_zero_size(53);
    if x < y {
        lemma_units_order(53, x, y);
    }
    if y < x {
        lemma_units_order(53, y, x);
    }
    if 0 < x {
        lemma_units_order(53, 0, x);
    }
    if 0 < y {
        lemma_units_order(53, 0, y);
    }
}

/// One, as a bit pattern.
pub proof fn double_one()
    ensures
        (F64 { bits: 0x3ff0_0000_0000_0000 }).finite(),
        (F64 { bits: 0x3ff0_0000_0000_0000 }).value() == one(53),
        F64::of_int(1) == (F64 { bits: 0x3ff0_0000_0000_0000 }),
{
    let x = F64 { bits: 0x3ff0_0000_0000_0000 };
    let mag: nat = 0x3ff0_0000_0000_0000;
    lemma_pow2_steps();
    lemma_quotient(mag, 0x10_0000_0000_0000, 1023);
    assert(x.mag() == mag);
    lemma_pow2_adds(52, 1022);
    assert(units(53, mag) == 0x10_0000_0000_0000 * pow2(1022));
    lemma_round_own_value(53, mag);
    assert(1 * one(53) == one(53));
}

/// A number in the middle of two whole numbers rounds up.
pub proof fn halves_round_up(x: F32, k: int, high: int)
    requires
        x.finite(),
        !x.negative(),
        0 <= k < exact_limit(),
        2 * x.size() == (2 * k + 1) * one(24),
        high >= exact_limit(),
    ensures
        x.rounded() == F32::of_int(k + 1),
        x.rounded().truncated(0, high) == k + 1,
{
    let o = one(24);
    lemma_pow2_pos(149);
    assert((2 * k + 1) * o + o == (k + 1) * (2 * o)) by (nonlinear_arith);
    assert((k + 2) * (2 * o) == (k + 1) * (2 * o) + 2 * o) by (nonlinear_arith);
    lemma_quotient(2 * x.size() + o, 2 * o, (k + 1) as nat);
    lemma_whole_back(k + 1, 0, high);
}

/// What is not a number is below and above nothing, counts as zero where a whole
/// number is needed, and gives way to any number where the larger one is.
pub proof fn not_numbers_give_way(x: F32, y: F32, low: int, high: int)
    requires
        x.nan(),
    ensures
        !x.below(y) && !y.below(x) && !x.same(y),
        x.truncated(low, high) == 0,
        x.greater(y) == y && (!y.nan() ==> y.greater(x) == y),
        x.sum(y).nan() && y.sum(x).nan() && x.product(y).nan() && x.quotient(y).nan(),
        x.rounded().nan() && x.raised().nan(),
{
}

} // verus!
