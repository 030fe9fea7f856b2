//! Q16.16 fixed-point scalar arithmetic: the exact number model that every
//! coordinate, angle and blend factor in the rig is computed in.
//!
//! All rounding is toward zero, so each operation is a total mathematical
//! function of its arguments, stated by the `spec` functions below.

use vstd::prelude::*;

verus! {

use vstd::arithmetic::div_mod::lemma_div_is_ordered;
use vstd::arithmetic::div_mod::lemma_div_multiples_vanish;
use vstd::arithmetic::div_mod::lemma_div_pos_is_pos;

/// The fixed-point unit: values are held as multiples of 1/65536.
pub const ONE: i64 = 65536;

/// Largest magnitude accepted for driver-state coordinates (2^40).
pub const COORD_MAX: i64 = 0x100_0000_0000;

/// Largest magnitude a transform position component may reach (2^56).
pub const POS_MAX: i64 = 0x100_0000_0000_0000;

/// Largest magnitude of a rotation-scale value (quaternion component,
/// blend factor, normalized axis component): 4 * ONE = 2^18.
pub const ROT_MAX: i64 = 262144;

/// Largest magnitude accepted as the wide factor of a fixed-point product (2^59).
pub const MUL_MAX: i64 = 0x800_0000_0000_0000;

/// Integer division rounded toward zero (the sign-symmetric quotient).
pub open spec fn dtz(a: int, b: int) -> int {
    if a >= 0 {
        a / b
    } else {
        -((-a) / b)
    }
}

/// Integer remainder matching `dtz` (takes the sign of the dividend).
pub open spec fn rtz(a: int, b: int) -> int {
    if a >= 0 {
        a % b
    } else {
        -((-a) % b)
    }
}

/// Magnitude of an integer.
pub open spec fn absi(x: int) -> int {
    if x >= 0 {
        x
    } else {
        -x
    }
}

/// Clamp to a closed interval.
pub open spec fn clampi(x: int, lo: int, hi: int) -> int {
    if x < lo {
        lo
    } else if x > hi {
        hi
    } else {
        x
    }
}

/// The fixed-point product: (a * b) / ONE, rounded toward zero.
pub open spec fn fpmul(a: int, b: int) -> int {
    dtz(a * b, ONE as int)
}

/// Linear interpolation from `a` toward `b` by blend factor `t` (Q16.16).
pub open spec fn fplerp(a: int, b: int, t: int) -> int {
    a + fpmul(t, b - a)
}

pub proof fn lemma_dtz_bound(x: int, d: int, k: int)
    requires
        d > 0,
        0 <= k,
        absi(x) <= k * d,
    ensures
        -k <= dtz(x, d) <= k,
        absi(dtz(x, d)) <= k,
{
    lemma_div_multiples_vanish(k, d);
    assert((d * k) / d == k);
    assert(k * d == d * k) by (nonlinear_arith);
    if x >= 0 {
        lemma_div_pos_is_pos(x, d);
        lemma_div_is_ordered(x, k * d, d);
        assert(x / d <= k);
    } else {
        lemma_div_pos_is_pos(-x, d);
        lemma_div_is_ordered(-x, k * d, d);
        assert((-x) / d <= k);
        assert(dtz(x, d) == -((-x) / d));
    }
}

pub proof fn lemma_fpmul_bound(a: int, b: int, ka: int, m: int)
    requires
        0 <= ka,
        0 <= m,
        absi(a) <= ka * (ONE as int),
        absi(b) <= m,
    ensures
        -(ka * m) <= fpmul(a, b) <= ka * m,
        absi(fpmul(a, b)) <= ka * m,
{
    assert(absi(a * b) <= (ka * m) * (ONE as int)) by (nonlinear_arith)
        requires
            absi(a) <= ka * (ONE as int),
            absi(b) <= m,
            0 <= ka,
            0 <= m,
    ;
    lemma_dtz_bound(a * b, ONE as int, ka * m);
    assert(0 <= ka * m) by (nonlinear_arith)
        requires
            0 <= ka,
            0 <= m,
    ;
}

/// Division rounded toward zero.
pub fn div_tz(a: i64, b: i64) -> (r: i64)
    requires
        b > 0,
        a > i64::MIN,
    ensures
        r as int == dtz(a as int, b as int),
{
    if a >= 0 {
        let q: u64 = (a as u64) / (b as u64);
        proof {
            lemma_div_pos_is_pos(a as int, b as int);
            lemma_div_is_ordered(a as int, i64::MAX as int, b as int);
            vstd::arithmetic::div_mod::lemma_div_nonincreasing(a as int, b as int);
        }
        q as i64
    } else {
        let n: i64 = -a;
        let q: u64 = (n as u64) / (b as u64);
        proof {
            lemma_div_pos_is_pos(n as int, b as int);
            vstd::arithmetic::div_mod::lemma_div_nonincreasing(n as int, b as int);
        }
        -(q as i64)
    }
}

/// Remainder matching `div_tz` (takes the sign of the dividend).
pub fn rem_tz(a: i64, b: i64) -> (r: i64)
    requires
        b > 0,
        a > i64::MIN,
    ensures
        r as int == rtz(a as int, b as int),
        absi(r as int) < b,
{
    if a >= 0 {
        let m: u64 = (a as u64) % (b as u64);
        m as i64
    } else {
        let n: i64 = -a;
        let m: u64 = (n as u64) % (b as u64);
        -(m as i64)
    }
}

/// The fixed-point product of a rotation-scale value and a wide value.
pub fn fp_mul(a: i64, b: i64) -> (r: i64)
    requires
        -ROT_MAX <= a <= ROT_MAX,
        -MUL_MAX <= b <= MUL_MAX,
    ensures
        r as int == fpmul(a as int, b as int),
{
    proof {
        assert(absi((a as int) * (b as int)) <= (ROT_MAX as int) * (MUL_MAX as int))
            by (nonlinear_arith)
            requires
                -ROT_MAX <= a <= ROT_MAX,
                -MUL_MAX <= b <= MUL_MAX,
        ;
    }
    let p: i128 = (a as i128) * (b as i128);
    proof {
        lemma_dtz_bound(
            (a as int) * (b as int),
            ONE as int,
            (ROT_MAX as int) * (MUL_MAX as int) / (ONE as int),
        );
    }
    if p >= 0 {
        let q: u128 = (p as u128) / (ONE as u128);
        proof {
            lemma_div_pos_is_pos(p as int, ONE as int);
        }
        q as i64
    } else {
        let n: i128 = -p;
        let q: u128 = (n as u128) / (ONE as u128);
        proof {
            lemma_div_pos_is_pos(n as int, ONE as int);
        }
        -(q as i64)
    }
}

/// Division rounded toward zero, on wide intermediates; the quotient must
/// fit the narrow result.
pub fn div_tz_wide(a: i128, b: i128) -> (r: i64)
    requires
        b > 0,
        a > i128::MIN,
        i64::MIN < dtz(a as int, b as int) <= i64::MAX,
    ensures
        r as int == dtz(a as int, b as int),
{
    if a >= 0 {
        let q: u128 = (a as u128) / (b as u128);
        proof {
            lemma_div_pos_is_pos(a as int, b as int);
        }
        q as i64
    } else {
        let n: i128 = -a;
        let q: u128 = (n as u128) / (b as u128);
        proof {
            lemma_div_pos_is_pos(n as int, b as int);
        }
        -(q as i64)
    }
}

/// Clamp to a closed interval.
pub fn clamp_i(x: i64, lo: i64, hi: i64) -> (r: i64)
    requires
        lo <= hi,
    ensures
        r as int == clampi(x as int, lo as int, hi as int),
{
    if x < lo {
        lo
    } else if x > hi {
        hi
    } else {
        x
    }
}

/// Linear interpolation from `a` toward `b` by blend factor `t`.
pub fn lerp_i(a: i64, b: i64, t: i64) -> (r: i64)
    requires
        -ROT_MAX <= t <= ROT_MAX,
        -MUL_MAX / 2 <= a <= MUL_MAX / 2,
        -MUL_MAX / 2 <= b <= MUL_MAX / 2,
    ensures
        r as int == fplerp(a as int, b as int, t as int),
{
    let d: i64 = b - a;
    let m: i64 = fp_mul(t, d);
    proof {
        lemma_fpmul_bound(t as int, d as int, 4, absi(d as int));
    }
    a + m
}

/// Interpolation by a factor in [0, ONE] lands between its endpoints.
pub proof fn lemma_fplerp_between(a: int, b: int, t: int)
    requires
        0 <= t <= ONE as int,
    ensures
        fplerp(a, b, t) <= if a >= b { a } else { b },
        fplerp(a, b, t) >= if a <= b { a } else { b },
{
    let d = b - a;
    if d >= 0 {
        assert(0 <= t * d <= (ONE as int) * d) by (nonlinear_arith)
            requires
                0 <= t <= ONE as int,
                0 <= d,
        ;
        lemma_div_pos_is_pos(t * d, ONE as int);
        lemma_div_is_ordered(t * d, (ONE as int) * d, ONE as int);
        lemma_div_multiples_vanish(d, ONE as int);
    } else {
        assert(0 <= t * (-d) <= (ONE as int) * (-d)) by (nonlinear_arith)
            requires
                0 <= t <= ONE as int,
                0 <= -d,
        ;
        lemma_div_pos_is_pos(t * (-d), ONE as int);
        lemma_div_is_ordered(t * (-d), (ONE as int) * (-d), ONE as int);
        lemma_div_multiples_vanish(-d, ONE as int);
        assert(t * d == -(t * (-d))) by (nonlinear_arith);
    }
}

/// A blend step with a positive factor moves strictly closer to the target,
/// as soon as the remaining gap is coarse enough for the fixed-point grid.
pub proof fn lemma_fplerp_progress(a: int, b: int, t: int)
    requires
        0 < t <= ONE as int,
        a != b,
        t * absi(b - a) >= ONE as int,
    ensures
        absi(fplerp(a, b, t) - b) < absi(a - b),
{
    let d = b - a;
    lemma_fplerp_between(a, b, t);
    if d > 0 {
        assert(t * d >= ONE as int);
        lemma_div_is_ordered(ONE as int, t * d, ONE as int);
        assert((ONE as int) / (ONE as int) == 1) by {
            lemma_div_multiples_vanish(1, ONE as int);
        }
        assert(fpmul(t, d) >= 1);
    } else {
        assert(t * (-d) >= ONE as int);
        lemma_div_is_ordered(ONE as int, t * (-d), ONE as int);
        assert((ONE as int) / (ONE as int) == 1) by {
            lemma_div_multiples_vanish(1, ONE as int);
        }
        assert(t * d == -(t * (-d))) by (nonlinear_arith);
        assert(fpmul(t, d) <= -1);
    }
}

/// Cutoff above which the decay is taken as fully saturated (8 * ONE).
pub const EXP_CUT: i64 = 524288;

/// One round of repeated squaring in Q16.16.
pub open spec fn sq_iter(b: int, n: nat) -> int
    decreases n,
{
    if n == 0 {
        b
    } else {
        sq_iter(fpmul(b, b), (n - 1) as nat)
    }
}

/// The base quadratic approximation of exp(-x/256) used by `exp_neg`.
pub open spec fn exp_base(x: int) -> int {
    let u = dtz(x, 256);
    (ONE as int) - u + dtz(fpmul(u, u), 2)
}

/// The decay curve exp(-x), in Q16.16, as this library defines it:
/// a quadratic base raised to the 256th power by eight squarings,
/// saturating to zero at EXP_CUT.
pub open spec fn spec_exp_neg(x: int) -> int {
    if x >= EXP_CUT as int {
        0
    } else {
        sq_iter(exp_base(x), 8)
    }
}

pub proof fn lemma_sq_iter_range(b: int, n: nat)
    requires
        0 <= b <= ONE as int,
    ensures
        0 <= sq_iter(b, n) <= ONE as int,
        b == ONE as int ==> sq_iter(b, n) == ONE as int,
    decreases n,
{
    if n > 0 {
        lemma_fpmul_bound(b, b, 1, ONE as int);
        assert(fpmul(b, b) >= 0) by {
            assert(b * b >= 0) by (nonlinear_arith);
            lemma_div_pos_is_pos(b * b, ONE as int);
        }
        if b == ONE as int {
            assert((ONE as int) * (ONE as int) / (ONE as int) == ONE as int) by {
                lemma_div_multiples_vanish(ONE as int, ONE as int);
            }
        }
        lemma_sq_iter_range(fpmul(b, b), (n - 1) as nat);
    }
}

/// Exponential decay exp(-x) in Q16.16, for x in [0, EXP_CUT].
///
/// Exact at the ends: ONE at x == 0, zero at saturation.
pub fn exp_neg(x: i64) -> (r: i64)
    requires
        0 <= x <= EXP_CUT,
    ensures
        r as int == spec_exp_neg(x as int),
        0 <= r <= ONE,
        x == 0 ==> r == ONE,
{
    if x >= EXP_CUT {
        return 0;
    }
    let u: i64 = div_tz(x, 256);
    proof {
        lemma_dtz_bound(x as int, 256, 2048);
        lemma_fpmul_bound(u as int, u as int, 1, 2048);
    }
    let uu: i64 = fp_mul(u, u);
    let half_uu: i64 = div_tz(uu, 2);
    proof {
        lemma_dtz_bound(uu as int, 2, 1024);
        // the base stays within [0, ONE]: u <= 2048 and uu/2 <= u
        assert(dtz(fpmul(u as int, u as int), 2) <= u as int) by {
            assert(fpmul(u as int, u as int) <= u as int) by {
                assert((u as int) * (u as int) <= 2048 * (u as int)) by (nonlinear_arith)
                    requires
                        0 <= u <= 2048,
                ;
                assert(2048 * (u as int) <= (u as int) * (ONE as int)) by (nonlinear_arith)
                    requires
                        0 <= u,
                ;
                lemma_div_pos_is_pos((u as int) * (u as int), ONE as int);
                lemma_div_is_ordered((u as int) * (u as int), (u as int) * (ONE as int), ONE as int);
                lemma_div_multiples_vanish(u as int, ONE as int);
                assert((u as int) * (ONE as int) == (ONE as int) * (u as int)) by (nonlinear_arith);
            }
            lemma_div_pos_is_pos(fpmul(u as int, u as int), 2);
            vstd::arithmetic::div_mod::lemma_div_nonincreasing(fpmul(u as int, u as int), 2);
        }
        assert(x == 0 ==> u == 0 && exp_base(x as int) == ONE as int);
    }
    let mut b: i64 = ONE - u + half_uu;
    assert(b as int == exp_base(x as int));
    proof {
        lemma_sq_iter_range(b as int, 8);
    }
    let mut i: u64 = 0;
    while i < 8
        invariant
            0 <= b <= ONE,
            sq_iter(b as int, (8 - i) as nat) == sq_iter(exp_base(x as int), 8),
            i <= 8,
            x == 0 ==> b == ONE,
        decreases 8 - i,
    {
        proof {
            lemma_fpmul_bound(b as int, b as int, 1, ONE as int);
            assert(fpmul(b as int, b as int) >= 0) by {
                assert((b as int) * (b as int) >= 0) by (nonlinear_arith);
                lemma_div_pos_is_pos((b as int) * (b as int), ONE as int);
            }
            if b == ONE {
                lemma_div_multiples_vanish(ONE as int, ONE as int);
            }
        }
        b = fp_mul(b, b);
        i = i + 1;
    }
    b
}

/// The base approximation stays within [0, ONE], and is ONE exactly at 0.
pub proof fn lemma_exp_base_range(x: int)
    requires
        0 <= x <= EXP_CUT as int,
    ensures
        0 <= exp_base(x) <= ONE as int,
        x == 0 ==> exp_base(x) == ONE as int,
{
    lemma_dtz_bound(x, 256, 2048);
    let u = dtz(x, 256);
    lemma_div_pos_is_pos(x, 256);
    lemma_fpmul_bound(u, u, 1, 2048);
    assert(dtz(fpmul(u, u), 2) <= u) by {
        assert(fpmul(u, u) <= u) by {
            assert(u * u <= 2048 * u) by (nonlinear_arith)
                requires
                    0 <= u <= 2048,
            ;
            assert(2048 * u <= u * (ONE as int)) by (nonlinear_arith)
                requires
                    0 <= u,
            ;
            lemma_div_pos_is_pos(u * u, ONE as int);
            lemma_div_is_ordered(u * u, u * (ONE as int), ONE as int);
            lemma_div_multiples_vanish(u, ONE as int);
            assert(u * (ONE as int) == (ONE as int) * u) by (nonlinear_arith);
        }
        lemma_div_pos_is_pos(fpmul(u, u), 2);
        vstd::arithmetic::div_mod::lemma_div_nonincreasing(fpmul(u, u), 2);
    }
    assert(fpmul(u, u) >= 0) by {
        assert(u * u >= 0) by (nonlinear_arith);
        lemma_div_pos_is_pos(u * u, ONE as int);
    }
    lemma_div_pos_is_pos(fpmul(u, u), 2);
}

/// The decay curve stays within [0, ONE]; it is ONE exactly at 0.
pub proof fn lemma_exp_neg_range(x: int)
    requires
        0 <= x,
    ensures
        0 <= spec_exp_neg(x) <= ONE as int,
        x == 0 ==> spec_exp_neg(x) == ONE as int,
{
    if x < EXP_CUT as int {
        lemma_exp_base_range(x);
        lemma_sq_iter_range(exp_base(x), 8);
    }
}

/// Interpolating all the way lands exactly on the target.
pub proof fn lemma_fplerp_one(a: int, b: int)
    ensures
        fplerp(a, b, ONE as int) == b,
{
    let d = b - a;
    if d >= 0 {
        lemma_div_multiples_vanish(d, ONE as int);
    } else {
        lemma_div_multiples_vanish(-d, ONE as int);
        assert((ONE as int) * d == -((ONE as int) * (-d))) by (nonlinear_arith);
    }
}

/// Interpolating between equal endpoints stays there, whatever the factor.
pub proof fn lemma_fplerp_self(a: int, t: int)
    ensures
        fplerp(a, a, t) == a,
{
    assert(t * (a - a) == 0) by (nonlinear_arith);
    vstd::arithmetic::div_mod::lemma_div_of0(ONE as int);
}

/// Interpolating by zero stays at the start.
pub proof fn lemma_fplerp_zero(a: int, b: int)
    ensures
        fplerp(a, b, 0) == a,
{
    assert(0 * (b - a) == 0) by (nonlinear_arith);
}

/// Floor of the square root.
pub open spec fn is_isqrt(n: int, r: int) -> bool {
    &&& 0 <= r
    &&& r * r <= n
    &&& n < (r + 1) * (r + 1)
}

/// The floor of the square root, as a function (it is unique).
pub open spec fn sqrt_floor(n: int) -> int {
    choose|r: int| is_isqrt(n, r)
}

pub proof fn lemma_isqrt_unique(n: int, a: int, b: int)
    requires
        is_isqrt(n, a),
        is_isqrt(n, b),
    ensures
        a == b,
{
    assert(a == b) by (nonlinear_arith)
        requires
            0 <= a,
            0 <= b,
            a * a <= n,
            n < (a + 1) * (a + 1),
            b * b <= n,
            n < (b + 1) * (b + 1),
    ;
}

/// Integer square root, rounded down.
pub fn isqrt(n: u128) -> (r: u64)
    ensures
        is_isqrt(n as int, r as int),
        r as int == sqrt_floor(n as int),
{
    if n == 0 {
        proof {
            assert(is_isqrt(0, 0));
            lemma_isqrt_unique(0, 0, sqrt_floor(0));
        }
        return 0;
    }
    let mut lo: u128 = 0;
    let mut hi: u128 = 0x1_0000_0000_0000_0000;
    proof {
        assert((0x1_0000_0000_0000_0000 as int) * (0x1_0000_0000_0000_0000 as int) > n as int)
            by (nonlinear_arith)
            requires
                n <= 0xffff_ffff_ffff_ffff_ffff_ffff_ffff_ffffu128,
        ;
    }
    while hi - lo > 1
        invariant
            0 <= lo < hi <= 0x1_0000_0000_0000_0000,
            (lo as int) * (lo as int) <= n as int,
            (hi as int) * (hi as int) > n as int,
        decreases hi - lo,
    {
        let mid: u128 = lo + (hi - lo) / 2;
        proof {
            assert((mid as int) * (mid as int) < 0x1_0000_0000_0000_0000_0000_0000_0000_0000)
                by (nonlinear_arith)
                requires
                    0 <= mid < 0x1_0000_0000_0000_0000u128,
            ;
        }
        if mid * mid <= n {
            lo = mid;
        } else {
            hi = mid;
        }
    }
    proof {
        assert(is_isqrt(n as int, lo as int)) by {
            assert((lo as int + 1) * (lo as int + 1) >= (hi as int) * (hi as int))
                by (nonlinear_arith)
                requires
                    lo as int + 1 >= hi as int,
                    hi > 0,
            ;
        }
        lemma_isqrt_unique(n as int, lo as int, sqrt_floor(n as int));
    }
    lo as u64
}

} // verus!
