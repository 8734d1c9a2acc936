//! Whole parts of finite numbers, and rounding to whole numbers.

use crate::float::magnitude::{
    infinity, infinity_of, is_precision, lemma_parts, round, split, unit, unit_of,
};
use crate::float::rounding::{
    at_most, exponent, lemma_half_even_scale, lemma_half_even_whole, lemma_nearest_closed,
    lemma_pow2_steps, lemma_quotient, pack, power_of_two, significand, units,
};
use vstd::arithmetic::div_mod::*;
use vstd::arithmetic::power2::*;
use vstd::prelude::*;

verus! {

/// One, in units.
pub open spec fn one(p: nat) -> nat {
    pow2(unit(p))
}

/// The whole part of a finite number.
pub open spec fn whole(p: nat, mag: nat) -> nat {
    units(p, mag) / one(p)
}

/// The whole number nearest to a finite number, halves away from zero.
pub open spec fn nearest_whole(p: nat, mag: nat) -> nat {
    (2 * units(p, mag) + one(p)) / (2 * one(p))
}

/// The least whole number that is not below a finite number.
pub open spec fn ceiling(p: nat, mag: nat) -> nat {
    if units(p, mag) % one(p) == 0 {
        whole(p, mag)
    } else {
        whole(p, mag) + 1
    }
}

/// Magnitude bits of the number nearest to the whole number `n`.
pub open spec fn of_whole(p: nat, n: nat) -> nat {
    round(p, n * one(p), 1)
}

/// Every finite number is the one nearest to its own value.
pub proof fn lemma_round_own_value(p: nat, mag: nat)
    requires
        is_precision(p),
        mag < infinity(p),
    ensures
        round(p, units(p, mag), 1) == mag,
{
    lemma_parts(p, mag);
    let m = significand(p, mag);
    let e = exponent(p, mag);
    let w = pow2(e);
    lemma_pow2_pos(e);
    lemma_pow2_adds(p, e);
    assert(m * w < pow2(p) * w) by (nonlinear_arith)
        requires
            m < pow2(p),
            w > 0,
    ;
    assert(1 * pow2(p + e) == pow2(p + e));
    if e > 0 {
        lemma_pow2_adds((p - 1) as nat, e);
        assert(m * w >= pow2((p - 1) as nat) * w) by (nonlinear_arith)
            requires
                m >= pow2((p - 1) as nat),
        ;
        assert(1 * pow2((p + e - 1) as nat) == pow2((p + e - 1) as nat));
        assert((p - 1) as nat + e == (p + e - 1) as nat);
    }
    lemma_nearest_closed(p, m * w, 1, e);
    assert(1 * w == w);
    lemma_half_even_scale(m, 1, w);
    lemma_half_even_whole(m);
}

proof fn lemma_one_positive(p: nat)
    ensures
        one(p) > 0,
{
    lemma_pow2_pos(unit(p));
}

/// The value of a number with a large exponent is a whole number.
proof fn lemma_large(p: nat, mag: nat, k: nat)
    requires
        is_precision(p),
        exponent(p, mag) == unit(p) + k,
    ensures
        units(p, mag) == (significand(p, mag) * pow2(k)) * one(p),
        whole(p, mag) == significand(p, mag) * pow2(k),
        units(p, mag) % one(p) == 0,
        nearest_whole(p, mag) == significand(p, mag) * pow2(k),
{
    let m = significand(p, mag);
    let w = pow2(k);
    let o = one(p);
    lemma_one_positive(p);
    lemma_pow2_adds(k, unit(p));
    assert(m * (w * o) == (m * w) * o) by (nonlinear_arith);
    let n = m * w;
    assert((n + 1) * o == n * o + o) by (nonlinear_arith);
    lemma_quotient(n * o, o, n);
    assert(n * (2 * o) == 2 * (n * o)) by (nonlinear_arith);
    assert((n + 1) * (2 * o) == 2 * (n * o) + 2 * o) by (nonlinear_arith);
    lemma_quotient(2 * (n * o) + o, 2 * o, n);
}

/// The value of a number with a small exponent as a fraction of one.
proof fn lemma_small(p: nat, mag: nat, k: nat)
    requires
        is_precision(p),
        exponent(p, mag) + k == unit(p),
    ensures
        pow2(k) > 0,
        whole(p, mag) == significand(p, mag) / pow2(k),
        (units(p, mag) % one(p) == 0) == (significand(p, mag) % pow2(k) == 0),
        nearest_whole(p, mag) == (2 * significand(p, mag) + pow2(k)) / (2 * pow2(k)),
{
    let m = significand(p, mag);
    let e = exponent(p, mag);
    let v = pow2(e);
    let d = pow2(k);
    let o = one(p);
    lemma_pow2_pos(k);
    lemma_pow2_pos(e);
    lemma_pow2_adds(k, e);
    lemma_scaled_division(m, d, v);
    lemma_scaled_division(2 * m + d, 2 * d, v);
    assert((2 * m + d) * v == 2 * (m * v) + d * v) by (nonlinear_arith);
    assert((2 * d) * v == 2 * (d * v)) by (nonlinear_arith);
    let r = m % d;
    if r != 0 {
        assert(r * v != 0) by (nonlinear_arith)
            requires
                r > 0,
                v > 0,
        ;
    } else {
        assert(0 * v == 0);
    }
}

proof fn lemma_scaled_division(n: nat, d: nat, v: nat)
    requires
        d > 0,
        v > 0,
    ensures
        d * v > 0,
        (n * v) / (d * v) == n / d,
        (n * v) % (d * v) == (n % d) * v,
{
    let q = n / d;
    let r = n % d;
    lemma_fundamental_div_mod(n as int, d as int);
    lemma_mod_bound(n as int, d as int);
    assert(d * v > 0) by (nonlinear_arith)
        requires
            d > 0,
            v > 0,
    ;
    assert(n * v == q * (d * v) + r * v) by (nonlinear_arith)
        requires
            n == d * q + r,
    ;
    assert(r * v < d * v) by (nonlinear_arith)
        requires
            r < d,
            v > 0,
    ;
    assert((q + 1) * (d * v) == q * (d * v) + d * v) by (nonlinear_arith);
    assert(r * v >= 0) by (nonlinear_arith)
        requires
            r >= 0,
            v > 0,
    ;
    lemma_quotient(n * v, d * v, q);
}

/// A significand is less than any denominator of more than `p` binary digits.
proof fn lemma_below(p: nat, mag: nat, k: nat)
    requires
        is_precision(p),
        mag < infinity(p),
        k >= 64,
    ensures
        significand(p, mag) / pow2(k) == 0,
        significand(p, mag) % pow2(k) == significand(p, mag),
        (2 * significand(p, mag) + pow2(k)) / (2 * pow2(k)) == 0,
{
    let m = significand(p, mag);
    let d = pow2(k);
    lemma_parts(p, mag);
    lemma_pow2_steps();
    lemma2_to64();
    if k > 64 {
        lemma_pow2_strictly_increases(64, k);
    }
    assert(0 * d == 0 && (0 + 1) * d == d && 0 * (2 * d) == 0 && (0 + 1) * (2 * d) == 2 * d)
        by (nonlinear_arith);
    lemma_quotient(m, d, 0);
    lemma_quotient(2 * m + d, 2 * d, 0);
}

/// The whole part of a finite number, or `cap` where it is larger.
pub fn whole_at_most(p: u32, mag: u64, cap: u64) -> (n: u64)
    requires
        is_precision(p as nat),
        mag < infinity(p as nat),
    ensures
        n == at_most(whole(p as nat, mag as nat), cap as nat),
{
    let ghost pn = p as nat;
    let (m, e) = split(p, mag);
    let u: u32 = unit_of(p);
    proof {
        lemma_parts(pn, mag as nat);
        lemma_pow2_steps();
    }
    if e >= u {
        let k: u32 = e - u;
        proof {
            lemma_large(pn, mag as nat, k as nat);
            lemma2_to64();
        }
        if k >= 64 {
            proof {
                if k > 64 {
                    lemma_pow2_strictly_increases(64, k as nat);
                }
                let w = pow2(k as nat);
                assert(m * w >= w) by (nonlinear_arith)
                    requires
                        m >= 1,
                ;
            }
            cap
        } else {
            proof {
                lemma_pow2_strictly_increases(k as nat, 64);
                let w = pow2(k as nat);
                assert(m * w < 0x20_0000_0000_0000 * 0x1_0000_0000_0000_0000) by (nonlinear_arith)
                    requires
                        0 <= m < 0x20_0000_0000_0000,
                        0 <= w < 0x1_0000_0000_0000_0000,
                ;
            }
            let w: u128 = power_of_two(k);
            let n: u128 = m as u128 * w;
            if n < cap as u128 {
                n as u64
            } else {
                cap
            }
        }
    } else {
        let k: u32 = u - e;
        proof {
            lemma_small(pn, mag as nat, k as nat);
        }
        if k >= 64 {
            proof {
                lemma_below(pn, mag as nat, k as nat);
            }
            0
        } else {
            let w: u128 = power_of_two(k);
            let n: u128 = m as u128 / w;
            proof {
                lemma_div_nonincreasing(m as int, w as int);
            }
            if n < cap as u128 {
                n as u64
            } else {
                cap
            }
        }
    }
}

/// The number nearest to the whole number `n`.
pub fn from_whole(p: u32, n: u64) -> (mag: u64)
    requires
        is_precision(p as nat),
    ensures
        mag == of_whole(p as nat, n as nat),
{
    pack(p, n as u128, unit_of(p) as i32, infinity_of(p))
}

/// A finite number rounded to the nearest whole number, halves away from zero.
pub fn to_nearest_whole(p: u32, mag: u64) -> (res: u64)
    requires
        is_precision(p as nat),
        mag < infinity(p as nat),
    ensures
        res == of_whole(p as nat, nearest_whole(p as nat, mag as nat)),
{
    let ghost pn = p as nat;
    let (m, e) = split(p, mag);
    let u: u32 = unit_of(p);
    proof {
        lemma_parts(pn, mag as nat);
        lemma_pow2_steps();
        lemma2_to64();
    }
    if e >= u {
        proof {
            lemma_large(pn, mag as nat, (e - u) as nat);
            lemma_round_own_value(pn, mag as nat);
        }
        mag
    } else {
        let k: u32 = u - e;
        proof {
            lemma_small(pn, mag as nat, k as nat);
            if k >= 64 {
                lemma_below(pn, mag as nat, k as nat);
            } else {
                lemma_pow2_strictly_increases(k as nat, 64);
            }
        }
        if k >= 64 {
            from_whole(p, 0)
        } else {
            let w: u128 = power_of_two(k);
            let n: u128 = (2 * m as u128 + w) / (2 * w);
            proof {
                lemma_div_nonincreasing(2 * m + w, 2 * w as int);
                assert(n <= m + 1) by {
                    lemma_fundamental_div_mod(2 * m + w, 2 * w as int);
                    lemma_mod_bound(2 * m + w, 2 * w as int);
                    assert(n <= m + 1) by (nonlinear_arith)
                        requires
                            2 * m + w >= (2 * w) * n,
                            w >= 1,
                            m >= 0,
                            n >= 0,
                    ;
                }
            }
            from_whole(p, n as u64)
        }
    }
}

/// A finite number without its fraction.
pub fn to_floor(p: u32, mag: u64) -> (res: u64)
    requires
        is_precision(p as nat),
        mag < infinity(p as nat),
    ensures
        res == of_whole(p as nat, whole(p as nat, mag as nat)),
{
    let ghost pn = p as nat;
    let (m, e) = split(p, mag);
    let u: u32 = unit_of(p);
    proof {
        lemma_parts(pn, mag as nat);
        lemma_pow2_steps();
        lemma2_to64();
    }
    if e >= u {
        proof {
            lemma_large(pn, mag as nat, (e - u) as nat);
            lemma_round_own_value(pn, mag as nat);
        }
        mag
    } else {
        let k: u32 = u - e;
        proof {
            lemma_small(pn, mag as nat, k as nat);
            lemma_pow2_pos(k as nat);
            lemma_div_nonincreasing(
                significand(pn, mag as nat) as int,
                pow2(k as nat) as int,
            );
        }
        let n: u64 = whole_at_most(p, mag, 0x20_0000_0000_0000);
        from_whole(p, n)
    }
}

/// A finite number rounded up to a whole number.
pub fn to_ceiling(p: u32, mag: u64) -> (res: u64)
    requires
        is_precision(p as nat),
        mag < infinity(p as nat),
    ensures
        res == of_whole(p as nat, ceiling(p as nat, mag as nat)),
{
    let ghost pn = p as nat;
    let (m, e) = split(p, mag);
    let u: u32 = unit_of(p);
    proof {
        lemma_parts(pn, mag as nat);
        lemma_pow2_steps();
        lemma2_to64();
    }
    if e >= u {
        proof {
            lemma_large(pn, mag as nat, (e - u) as nat);
            lemma_round_own_value(pn, mag as nat);
        }
        mag
    } else {
        let k: u32 = u - e;
        proof {
            lemma_small(pn, mag as nat, k as nat);
            if k >= 64 {
                lemma_below(pn, mag as nat, k as nat);
            }
        }
        if k >= 64 {
            if m == 0 {
                from_whole(p, 0)
            } else {
                from_whole(p, 1)
            }
        } else {
            let w: u128 = power_of_two(k);
            let n: u128 = m as u128 / w;
            proof {
                lemma_div_nonincreasing(m as int, w as int);
            }
            if m as u128 % w == 0 {
                from_whole(p, n as u64)
            } else {
                from_whole(p, n as u64 + 1)
            }
        }
    }
}

} // verus!
