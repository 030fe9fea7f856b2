//! Fixed-point trigonometry in degrees: a rational sine approximation that
//! is exact at the axis angles, and inverse functions computed by bisection
//! against that same sine, so that building and reading back an angle agree.

use vstd::prelude::*;

verus! {

use vstd::arithmetic::div_mod::lemma_div_is_ordered;
use vstd::arithmetic::div_mod::lemma_div_multiples_vanish;
use vstd::arithmetic::div_mod::lemma_div_pos_is_pos;
use crate::fixed::ONE;
use crate::fixed::dtz;
use crate::fixed::rtz;
use crate::fixed::absi;
use crate::fixed::fpmul;
use crate::fixed::div_tz;
use crate::fixed::rem_tz;
use crate::fixed::fp_mul;
use crate::fixed::lemma_dtz_bound;

pub const DEG_90: i64 = 90 * 65536;

pub const DEG_180: i64 = 180 * 65536;

pub const DEG_360: i64 = 360 * 65536;

pub const DEG_720: i64 = 720 * 65536;

/// Largest magnitude accepted by the arc-tangent inputs (2^24).
pub const TRIG_IN_MAX: i64 = 0x100_0000;

/// The rational sine approximation on [0, 180] degrees, in Q16.16:
/// sin(x) = 4 x (180 - x) / (40500 - x (180 - x)), exact at 0, 30, 90,
/// 150 and 180 degrees.
pub open spec fn spec_bsin(d: int) -> int {
    let p = dtz(d * (DEG_180 as int - d), ONE as int);
    dtz(4 * p * (ONE as int), 40500 * (ONE as int) - p)
}

/// Sine over all angles by range reduction to [0, 180].
pub open spec fn spec_sin(a: int) -> int {
    let m0 = rtz(a, DEG_360 as int);
    let m = if m0 < 0 {
        m0 + DEG_360 as int
    } else {
        m0
    };
    if m <= DEG_180 as int {
        spec_bsin(m)
    } else {
        -spec_bsin(m - DEG_180 as int)
    }
}

/// Cosine as the sine shifted a quarter turn.
pub open spec fn spec_cos(a: int) -> int {
    spec_sin(a + DEG_90 as int)
}

fn bsin(d: i64) -> (r: i64)
    requires
        0 <= d <= DEG_180,
    ensures
        r as int == spec_bsin(d as int),
        0 <= r <= ONE,
{
    proof {
        assert(0 <= (d as int) * (DEG_180 as int - d as int) <= 8100 * (ONE as int) * (ONE as int))
            by (nonlinear_arith)
            requires
                0 <= d as int <= DEG_180 as int,
        ;
    }
    let a: i64 = d * (DEG_180 - d);
    let p: i64 = div_tz(a, ONE);
    proof {
        lemma_div_pos_is_pos(a as int, ONE as int);
        lemma_div_is_ordered(a as int, 8100 * (ONE as int) * (ONE as int), ONE as int);
        lemma_div_multiples_vanish(8100 * (ONE as int), ONE as int);
        assert(8100 * (ONE as int) * (ONE as int) == (ONE as int) * (8100 * (ONE as int)))
            by (nonlinear_arith);
        assert(0 <= p as int <= 8100 * (ONE as int));
    }
    let num: i64 = 4 * p * ONE;
    let den: i64 = 40500 * ONE - p;
    let r = div_tz(num, den);
    proof {
        lemma_div_pos_is_pos(num as int, den as int);
        assert(num as int <= (den as int) * (ONE as int)) by (nonlinear_arith)
            requires
                0 <= p as int <= 8100 * (ONE as int),
                num as int == 4 * (p as int) * (ONE as int),
                den as int == 40500 * (ONE as int) - p as int,
        ;
        lemma_div_is_ordered(num as int, (den as int) * (ONE as int), den as int);
        lemma_div_multiples_vanish(ONE as int, den as int);
    }
    r
}

/// Sine of a fixed-point angle in degrees.
pub fn sin_fp(a: i64) -> (r: i64)
    requires
        a > i64::MIN,
    ensures
        r as int == spec_sin(a as int),
        -ONE <= r <= ONE,
{
    let m0: i64 = rem_tz(a, DEG_360);
    let m: i64 = if m0 < 0 {
        m0 + DEG_360
    } else {
        m0
    };
    if m <= DEG_180 {
        bsin(m)
    } else {
        -bsin(m - DEG_180)
    }
}

/// Cosine of a fixed-point angle in degrees.
pub fn cos_fp(a: i64) -> (r: i64)
    requires
        -0x1000_0000_0000_0000 <= a <= 0x1000_0000_0000_0000,
    ensures
        r as int == spec_cos(a as int),
        -ONE <= r <= ONE,
{
    sin_fp(a + DEG_90)
}

/// Bisection for the first-quadrant angle whose tangent is ay / ax,
/// driven by the very sine and cosine defined above.
pub open spec fn spec_atq(ax: int, ay: int, lo: int, hi: int) -> int
    decreases hi - lo,
{
    if hi - lo <= 1 {
        lo
    } else {
        let mid = lo + (hi - lo) / 2;
        if fpmul(spec_sin(mid), ax) <= fpmul(spec_cos(mid), ay) {
            spec_atq(ax, ay, mid, hi)
        } else {
            spec_atq(ax, ay, lo, mid)
        }
    }
}

fn atan_search(ax: i64, ay: i64, lo: i64, hi: i64) -> (r: i64)
    requires
        0 <= ax <= TRIG_IN_MAX,
        0 <= ay <= TRIG_IN_MAX,
        0 <= lo <= hi <= DEG_90,
    ensures
        r as int == spec_atq(ax as int, ay as int, lo as int, hi as int),
        lo <= r <= hi,
    decreases hi - lo,
{
    if hi - lo <= 1 {
        lo
    } else {
        let mid: i64 = lo + div_tz(hi - lo, 2);
        proof {
            lemma_div_pos_is_pos(hi as int - lo as int, 2);
            vstd::arithmetic::div_mod::lemma_div_nonincreasing(hi as int - lo as int, 2);
        }
        let s = sin_fp(mid);
        let c = cos_fp(mid);
        if fp_mul(s, ax) <= fp_mul(c, ay) {
            atan_search(ax, ay, mid, hi)
        } else {
            atan_search(ax, ay, lo, mid)
        }
    }
}

/// Two-argument arc tangent in fixed-point degrees, in (-180, 180].
pub open spec fn spec_atan2(y: int, x: int) -> int {
    let q = spec_atq(absi(x), absi(y), 0, DEG_90 as int);
    if x >= 0 && y >= 0 {
        q
    } else if x < 0 && y >= 0 {
        DEG_180 as int - q
    } else if x >= 0 {
        -q
    } else {
        q - DEG_180 as int
    }
}

/// Two-argument arc tangent in fixed-point degrees.
pub fn atan2_fp(y: i64, x: i64) -> (r: i64)
    requires
        -TRIG_IN_MAX <= y <= TRIG_IN_MAX,
        -TRIG_IN_MAX <= x <= TRIG_IN_MAX,
    ensures
        r as int == spec_atan2(y as int, x as int),
        -DEG_180 <= r <= DEG_180,
{
    let ax: i64 = if x >= 0 {
        x
    } else {
        -x
    };
    let ay: i64 = if y >= 0 {
        y
    } else {
        -y
    };
    let q = atan_search(ax, ay, 0, DEG_90);
    if x >= 0 && y >= 0 {
        q
    } else if x < 0 && y >= 0 {
        DEG_180 - q
    } else if x >= 0 {
        -q
    } else {
        q - DEG_180
    }
}

/// Bisection for the angle in [lo, hi] whose sine is s.
pub open spec fn spec_asq(s: int, lo: int, hi: int) -> int
    decreases hi - lo,
{
    if hi - lo <= 1 {
        lo
    } else {
        let mid = lo + (hi - lo) / 2;
        if spec_sin(mid) <= s {
            spec_asq(s, mid, hi)
        } else {
            spec_asq(s, lo, mid)
        }
    }
}

/// Arc sine in fixed-point degrees, in [-90, 90].
pub open spec fn spec_asin(s: int) -> int {
    if s >= 0 {
        spec_asq(s, 0, DEG_90 as int)
    } else {
        -spec_asq(-s, 0, DEG_90 as int)
    }
}

fn asin_search(s: i64, lo: i64, hi: i64) -> (r: i64)
    requires
        0 <= lo <= hi <= DEG_90,
    ensures
        r as int == spec_asq(s as int, lo as int, hi as int),
        lo <= r <= hi,
    decreases hi - lo,
{
    if hi - lo <= 1 {
        lo
    } else {
        let mid: i64 = lo + div_tz(hi - lo, 2);
        proof {
            lemma_div_pos_is_pos(hi as int - lo as int, 2);
            vstd::arithmetic::div_mod::lemma_div_nonincreasing(hi as int - lo as int, 2);
        }
        let sm = sin_fp(mid);
        if sm <= s {
            asin_search(s, mid, hi)
        } else {
            asin_search(s, lo, mid)
        }
    }
}

/// Arc sine in fixed-point degrees.
pub fn asin_fp(s: i64) -> (r: i64)
    requires
        -ONE <= s <= ONE,
    ensures
        r as int == spec_asin(s as int),
        -DEG_90 <= r <= DEG_90,
{
    if s >= 0 {
        asin_search(s, 0, DEG_90)
    } else {
        let q = asin_search(-s, 0, DEG_90);
        -q
    }
}

} // verus!
