//! The exponential smoother shared by time-damped drivers, and the look-at
//! orientation construction.

use vstd::prelude::*;

verus! {

use vstd::arithmetic::div_mod::lemma_div_pos_is_pos;
use crate::fixed::ONE;
use crate::fixed::COORD_MAX;
use crate::fixed::ROT_MAX;
use crate::fixed::EXP_CUT;
use crate::fixed::dtz;
use crate::fixed::absi;
use crate::fixed::fpmul;
use crate::fixed::spec_exp_neg;
use crate::fixed::sqrt_floor;
use crate::fixed::div_tz;
use crate::fixed::fp_mul;
use crate::fixed::exp_neg;
use crate::fixed::isqrt;
use crate::fixed::lemma_dtz_bound;
use crate::fixed::lemma_fpmul_bound;
use crate::fixed::lemma_fplerp_between;
use crate::math::Vec3;
use crate::math::Quat;
use crate::math::v3;
use crate::handedness::Handedness;

/// The per-call inputs of the exponential smoother.
pub struct ExpSmoothingParams {
    pub smoothness: i64,
    pub output_offset_scale: i64,
    pub delta_time_seconds: i64,
}

/// The smoother's memory: nothing before the first call, then the last
/// smoothed value.
#[derive(Clone, Copy, Debug, PartialEq, Eq, Structural)]
pub struct ExpSmoothed(pub Option<Vec3>);

impl ExpSmoothed {
    pub open spec fn wf(self) -> bool {
        match self.0 {
            Option::Some(v) => v.in_bounds(COORD_MAX as int),
            Option::None => true,
        }
    }

    pub fn default() -> (r: ExpSmoothed)
        ensures
            r == ExpSmoothed(Option::<Vec3>::None),
    {
        ExpSmoothed(Option::None)
    }
}

/// The frame-rate-independent blend factor: 1 - exp(-8 dt / max(s, eps)),
/// saturating to ONE (an instant snap) when dt reaches the time constant.
pub open spec fn spec_blend(smoothness: int, dt: int) -> int {
    let s_eff = if smoothness < 1 {
        1
    } else {
        smoothness
    };
    if dt >= s_eff {
        ONE as int
    } else {
        (ONE as int) - spec_exp_neg(dtz(8 * (ONE as int) * dt, s_eff))
    }
}

/// Compute the blend factor for one smoothing step.
pub fn blend_factor(smoothness: i64, delta_time_seconds: i64) -> (t: i64)
    requires
        0 <= delta_time_seconds,
        -COORD_MAX <= smoothness <= COORD_MAX,
    ensures
        t as int == spec_blend(smoothness as int, delta_time_seconds as int),
        0 <= t <= ONE,
        delta_time_seconds == 0 ==> t == 0,
        smoothness <= 0 && delta_time_seconds > 0 ==> t == ONE,
{
    let s_eff: i64 = if smoothness < 1 {
        1
    } else {
        smoothness
    };
    if delta_time_seconds >= s_eff {
        ONE
    } else {
        let x: i64 = div_tz(8 * ONE * delta_time_seconds, s_eff);
        proof {
            lemma_div_pos_is_pos(8 * (ONE as int) * (delta_time_seconds as int), s_eff as int);
            assert(absi(8 * (ONE as int) * (delta_time_seconds as int)) <= (EXP_CUT as int) * (
            s_eff as int)) by (nonlinear_arith)
                requires
                    0 <= delta_time_seconds < s_eff,
                    EXP_CUT as int == 8 * (ONE as int),
            ;
            lemma_dtz_bound(8 * (ONE as int) * (delta_time_seconds as int), s_eff as int,
                EXP_CUT as int);
        }
        let e = exp_neg(x);
        ONE - e
    }
}

/// One smoothing step: first call snaps to the target, later calls blend
/// the stored value toward it; an offset scale other than ONE re-aims the
/// returned value without disturbing the stored lag.
pub open spec fn spec_smooth(
    state: Option<Vec3>,
    target: Vec3,
    smoothness: int,
    scale: int,
    dt: int,
) -> (Option<Vec3>, Vec3) {
    let t = spec_blend(smoothness, dt);
    let prev = match state {
        Option::Some(v) => v,
        Option::None => target,
    };
    let smoothed = prev.spec_lerp(target, t);
    let out = if scale != ONE as int {
        target.spec_lerp(smoothed, scale)
    } else {
        smoothed
    };
    (Option::Some(smoothed), out)
}

impl ExpSmoothed {
    /// Advance the smoother toward `target` and return the driven value.
    pub fn exp_smooth_towards(&mut self, target: &Vec3, params: ExpSmoothingParams) -> (r: Vec3)
        requires
            old(self).wf(),
            target.in_bounds(COORD_MAX as int),
            -COORD_MAX <= params.smoothness <= COORD_MAX,
            -ONE <= params.output_offset_scale <= ONE,
            0 <= params.delta_time_seconds,
        ensures
            final(self).wf(),
            (final(self).0, r) == spec_smooth(
                old(self).0,
                *target,
                params.smoothness as int,
                params.output_offset_scale as int,
                params.delta_time_seconds as int,
            ),
            r.in_bounds(3 * COORD_MAX),
    {
        let t = blend_factor(params.smoothness, params.delta_time_seconds);
        let prev: Vec3 = match self.0 {
            Option::Some(v) => v,
            Option::None => *target,
        };
        let smoothed = prev.lerp(*target, t);
        proof {
            lemma_fplerp_between(prev.x as int, target.x as int, t as int);
            lemma_fplerp_between(prev.y as int, target.y as int, t as int);
            lemma_fplerp_between(prev.z as int, target.z as int, t as int);
        }
        self.0 = Option::Some(smoothed);
        if params.output_offset_scale != ONE {
            proof {
                lemma_fpmul_bound(
                    params.output_offset_scale as int,
                    smoothed.x as int - target.x as int,
                    1,
                    2 * COORD_MAX as int,
                );
                lemma_fpmul_bound(
                    params.output_offset_scale as int,
                    smoothed.y as int - target.y as int,
                    1,
                    2 * COORD_MAX as int,
                );
                lemma_fpmul_bound(
                    params.output_offset_scale as int,
                    smoothed.z as int - target.z as int,
                    1,
                    2 * COORD_MAX as int,
                );
            }
            target.lerp(smoothed, params.output_offset_scale)
        } else {
            smoothed
        }
    }
}

/// The square root of a nonnegative Q16.16 value, in Q16.16.
pub fn sqrt_fp(v: i64) -> (r: i64)
    requires
        0 <= v <= 16 * ONE,
    ensures
        r as int == sqrt_floor((v as int) * (ONE as int)),
        crate::fixed::is_isqrt((v as int) * (ONE as int), r as int),
        0 <= r <= 4 * ONE,
{
    proof {
        assert(0 <= (v as int) * (ONE as int) <= 16 * (ONE as int) * (ONE as int))
            by (nonlinear_arith)
            requires
                0 <= v as int <= 16 * (ONE as int),
        ;
    }
    let n: u128 = (v as u128) * (ONE as u128);
    let r: u64 = isqrt(n);
    proof {
        assert((r as int) * (r as int) <= 16 * (ONE as int) * (ONE as int));
        assert(r as int <= 4 * (ONE as int)) by (nonlinear_arith)
            requires
                0 <= r as int,
                (r as int) * (r as int) <= 16 * (ONE as int) * (ONE as int),
        ;
    }
    r as i64
}

/// The quaternion of an orthonormal basis given by columns (right, up,
/// forward), following the trace method; a basis too degenerate for the
/// division falls back to the identity rotation.
pub open spec fn spec_basis_quat(c0: Vec3, c1: Vec3, c2: Vec3) -> Quat {
    let trace = c0.x as int + c1.y as int + c2.z as int;
    if trace >= 0 {
        let s = sqrt_floor(((ONE as int) + trace) * (ONE as int));
        let t = dtz((ONE as int) * (ONE as int), 2 * s);
        q4(
            dtz(s, 2),
            fpmul(c1.z as int - c2.y as int, t),
            fpmul(c2.x as int - c0.z as int, t),
            fpmul(c0.y as int - c1.x as int, t),
        )
    } else if c0.x > c1.y && c0.x > c2.z {
        let arg = (ONE as int) + c0.x as int - c1.y as int - c2.z as int;
        let s = sqrt_floor((if arg < 0 {
            0
        } else {
            arg
        }) * (ONE as int));
        if s < 32768 {
            Quat::spec_identity()
        } else {
            let t = dtz((ONE as int) * (ONE as int), 2 * s);
            q4(
                fpmul(c1.z as int - c2.y as int, t),
                dtz(s, 2),
                fpmul(c1.x as int + c0.y as int, t),
                fpmul(c0.z as int + c2.x as int, t),
            )
        }
    } else if c1.y > c2.z {
        let arg = (ONE as int) + c1.y as int - c0.x as int - c2.z as int;
        let s = sqrt_floor((if arg < 0 {
            0
        } else {
            arg
        }) * (ONE as int));
        if s < 32768 {
            Quat::spec_identity()
        } else {
            let t = dtz((ONE as int) * (ONE as int), 2 * s);
            q4(
                fpmul(c2.x as int - c0.z as int, t),
                fpmul(c1.x as int + c0.y as int, t),
                dtz(s, 2),
                fpmul(c2.y as int + c1.z as int, t),
            )
        }
    } else {
        let arg = (ONE as int) + c2.z as int - c0.x as int - c1.y as int;
        let s = sqrt_floor((if arg < 0 {
            0
        } else {
            arg
        }) * (ONE as int));
        if s < 32768 {
            Quat::spec_identity()
        } else {
            let t = dtz((ONE as int) * (ONE as int), 2 * s);
            q4(
                fpmul(c0.y as int - c1.x as int, t),
                fpmul(c0.z as int + c2.x as int, t),
                fpmul(c2.y as int + c1.z as int, t),
                dtz(s, 2),
            )
        }
    }
}

use crate::math::q4;

/// Convert an orthonormal basis to a quaternion.
fn basis_to_quat(c0: Vec3, c1: Vec3, c2: Vec3) -> (r: Quat)
    requires
        c0.in_bounds(2 * ONE),
        c1.in_bounds(2 * ONE),
        c2.in_bounds(2 * ONE),
    ensures
        r == spec_basis_quat(c0, c1, c2),
        r.in_bounds(ROT_MAX as int),
{
    let trace: i64 = c0.x + c1.y + c2.z;
    if trace >= 0 {
        let s = sqrt_fp(ONE + trace);
        proof {
            assert((ONE as int) * (ONE as int) <= ((ONE as int) + trace as int) * (ONE as int))
                by (nonlinear_arith)
                requires
                    trace as int >= 0,
            ;
            lemma_sqrt_fp_lower(((ONE as int) + trace as int) * (ONE as int), s as int, ONE as int);
            lemma_dtz_bound((ONE as int) * (ONE as int), 2 * s as int, 32768);
            lemma_dtz_bound(s as int, 2, 2 * ONE as int);
        }
        let t = div_tz(ONE * ONE, 2 * s);
        proof {
            lemma_fpmul_bound(c1.z as int - c2.y as int, t as int, 4, 32768);
            lemma_fpmul_bound(c2.x as int - c0.z as int, t as int, 4, 32768);
            lemma_fpmul_bound(c0.y as int - c1.x as int, t as int, 4, 32768);
        }
        Quat {
            w: div_tz(s, 2),
            x: fp_mul(c1.z - c2.y, t),
            y: fp_mul(c2.x - c0.z, t),
            z: fp_mul(c0.y - c1.x, t),
        }
    } else if c0.x > c1.y && c0.x > c2.z {
        let arg: i64 = ONE + c0.x - c1.y - c2.z;
        let s = sqrt_fp(if arg < 0 {
            0
        } else {
            arg
        });
        if s < 32768 {
            Quat::identity()
        } else {
            let t = div_tz(ONE * ONE, 2 * s);
            proof {
                lemma_dtz_bound((ONE as int) * (ONE as int), 2 * s as int, ONE as int);
                lemma_dtz_bound(s as int, 2, 2 * ONE as int);
                lemma_fpmul_bound(c1.z as int - c2.y as int, t as int, 4, ONE as int);
                lemma_fpmul_bound(c1.x as int + c0.y as int, t as int, 4, ONE as int);
                lemma_fpmul_bound(c0.z as int + c2.x as int, t as int, 4, ONE as int);
            }
            Quat {
                w: fp_mul(c1.z - c2.y, t),
                x: div_tz(s, 2),
                y: fp_mul(c1.x + c0.y, t),
                z: fp_mul(c0.z + c2.x, t),
            }
        }
    } else if c1.y > c2.z {
        let arg: i64 = ONE + c1.y - c0.x - c2.z;
        let s = sqrt_fp(if arg < 0 {
            0
        } else {
            arg
        });
        if s < 32768 {
            Quat::identity()
        } else {
            let t = div_tz(ONE * ONE, 2 * s);
            proof {
                lemma_dtz_bound((ONE as int) * (ONE as int), 2 * s as int, ONE as int);
                lemma_dtz_bound(s as int, 2, 2 * ONE as int);
                lemma_fpmul_bound(c2.x as int - c0.z as int, t as int, 4, ONE as int);
                lemma_fpmul_bound(c1.x as int + c0.y as int, t as int, 4, ONE as int);
                lemma_fpmul_bound(c2.y as int + c1.z as int, t as int, 4, ONE as int);
            }
            Quat {
                w: fp_mul(c2.x - c0.z, t),
                x: fp_mul(c1.x + c0.y, t),
                y: div_tz(s, 2),
                z: fp_mul(c2.y + c1.z, t),
            }
        }
    } else {
        let arg: i64 = ONE + c2.z - c0.x - c1.y;
        let s = sqrt_fp(if arg < 0 {
            0
        } else {
            arg
        });
        if s < 32768 {
            Quat::identity()
        } else {
            let t = div_tz(ONE * ONE, 2 * s);
            proof {
                lemma_dtz_bound((ONE as int) * (ONE as int), 2 * s as int, ONE as int);
                lemma_dtz_bound(s as int, 2, 2 * ONE as int);
                lemma_fpmul_bound(c0.y as int - c1.x as int, t as int, 4, ONE as int);
                lemma_fpmul_bound(c0.z as int + c2.x as int, t as int, 4, ONE as int);
                lemma_fpmul_bound(c2.y as int + c1.z as int, t as int, 4, ONE as int);
            }
            Quat {
                w: fp_mul(c0.y - c1.x, t),
                x: fp_mul(c0.z + c2.x, t),
                y: fp_mul(c2.y + c1.z, t),
                z: div_tz(s, 2),
            }
        }
    }
}

/// A square root of at least b^2 is at least b.
proof fn lemma_sqrt_fp_lower(n: int, s: int, b: int)
    requires
        crate::fixed::is_isqrt(n, s),
        0 <= b,
        b * b <= n,
    ensures
        s >= b,
{
    assert(s >= b) by (nonlinear_arith)
        requires
            0 <= s,
            0 <= b,
            b * b <= n,
            n < (s + 1) * (s + 1),
    ;
}

/// The look-at rotation, rescaled to unit length: point the convention's
/// forward axis along `forward`, keeping the world up hint (+Y) as
/// upright as the basis allows. A forward parallel to +Y gives a degenerate but well-defined
/// basis; it is not treated specially.
pub open spec fn spec_look_at<H: Handedness>(forward: Vec3) -> Quat {
    let f = forward.spec_normalized();
    let right = H::spec_right_from(v3(0, ONE as int, 0), f).spec_normalized();
    let up = H::spec_up_from(right, f);
    let c2 = v3(
        H::spec_sign() * f.x as int,
        H::spec_sign() * f.y as int,
        H::spec_sign() * f.z as int,
    );
    spec_basis_quat(right, up, c2).spec_normalized()
}

/// Build the look-at rotation for a forward vector.
pub fn look_at<H: Handedness>(forward: Vec3) -> (r: Quat)
    requires
        forward.in_bounds(0x200_0000_0000_0000),
    ensures
        r == spec_look_at::<H>(forward),
        r.in_bounds(ROT_MAX as int),
        r.near_unit(),
{
    let f = forward.normalized();
    let up_hint = Vec3 { x: 0, y: ONE, z: 0 };
    let right = H::right_from_up_and_forward(up_hint, f).normalized();
    let up = H::up_from_right_and_forward(right, f);
    let sign = H::forward_sign();
    proof {
        H::sign_is_unit();
    }
    let c2 = Vec3 { x: sign * f.x, y: sign * f.y, z: sign * f.z };
    basis_to_quat(right, up, c2).normalized()
}

/// The blend factor always lies in [0, ONE]; zero time delta means no
/// motion, and a non-positive time constant means an instant snap.
pub proof fn lemma_blend_range(smoothness: int, dt: int)
    requires
        0 <= dt,
    ensures
        0 <= spec_blend(smoothness, dt) <= ONE as int,
        dt == 0 ==> spec_blend(smoothness, dt) == 0,
        smoothness <= 0 && dt > 0 ==> spec_blend(smoothness, dt) == ONE as int,
{
    let s_eff = if smoothness < 1 {
        1
    } else {
        smoothness
    };
    if dt < s_eff {
        let x = dtz(8 * (ONE as int) * dt, s_eff);
        assert(absi(8 * (ONE as int) * dt) <= (EXP_CUT as int) * s_eff) by (nonlinear_arith)
            requires
                0 <= dt < s_eff,
                EXP_CUT as int == 8 * (ONE as int),
        ;
        lemma_dtz_bound(8 * (ONE as int) * dt, s_eff, EXP_CUT as int);
        lemma_div_pos_is_pos(8 * (ONE as int) * dt, s_eff);
        crate::fixed::lemma_exp_neg_range(x);
        if dt == 0 {
            assert(8 * (ONE as int) * 0 == 0) by (nonlinear_arith);
        }
    }
}

/// The smoother's very first call snaps to the target: whatever the
/// smoothness, offset scale and time delta, it stores and returns the
/// target itself.
pub proof fn lemma_smoother_first_call_snaps(
    target: Vec3,
    smoothness: int,
    scale: int,
    dt: int,
)
    requires
        0 <= dt,
    ensures
        spec_smooth(Option::None, target, smoothness, scale, dt) == (
            Option::Some(target),
            target,
        ),
{
    let t = spec_blend(smoothness, dt);
    crate::fixed::lemma_fplerp_self(target.x as int, t);
    crate::fixed::lemma_fplerp_self(target.y as int, t);
    crate::fixed::lemma_fplerp_self(target.z as int, t);
    assert(target.spec_lerp(target, t) =~= target);
    assert(target.spec_lerp(target, scale) =~= target);
    crate::fixed::lemma_fplerp_self(target.x as int, scale);
    crate::fixed::lemma_fplerp_self(target.y as int, scale);
    crate::fixed::lemma_fplerp_self(target.z as int, scale);
}

/// Instant tracking: with a non-positive time constant, a unit offset
/// scale and time advancing, the smoother returns the target exactly.
pub proof fn lemma_smoother_instant_tracking(
    state: Option<Vec3>,
    target: Vec3,
    smoothness: int,
    dt: int,
)
    requires
        smoothness <= 0,
        0 < dt,
    ensures
        spec_smooth(state, target, smoothness, ONE as int, dt) == (
            Option::Some(target),
            target,
        ),
{
    lemma_blend_range(smoothness, dt);
    let prev = match state {
        Option::Some(v) => v,
        Option::None => target,
    };
    crate::fixed::lemma_fplerp_one(prev.x as int, target.x as int);
    crate::fixed::lemma_fplerp_one(prev.y as int, target.y as int);
    crate::fixed::lemma_fplerp_one(prev.z as int, target.z as int);
    assert(prev.spec_lerp(target, ONE as int) =~= target);
}

/// With no time advance the smoother neither moves its stored value nor
/// changes what it returns: a second zero-delta step reproduces the first.
pub proof fn lemma_smooth_zero_dt(state: Option<Vec3>, target: Vec3, smoothness: int, scale: int)
    ensures
        ({
            let (st1, out1) = spec_smooth(state, target, smoothness, scale, 0);
            spec_smooth(st1, target, smoothness, scale, 0) == (st1, out1)
        }),
{
    lemma_blend_range(smoothness, 0);
    let prev = match state {
        Option::Some(v) => v,
        Option::None => target,
    };
    crate::fixed::lemma_fplerp_zero(prev.x as int, target.x as int);
    crate::fixed::lemma_fplerp_zero(prev.y as int, target.y as int);
    crate::fixed::lemma_fplerp_zero(prev.z as int, target.z as int);
    assert(prev.spec_lerp(target, 0) =~= prev);
}

/// Smoothing never moves away from the target: each component of the
/// stored value gets no farther from the target than it was.
pub proof fn lemma_smoother_non_increasing(
    v: Vec3,
    target: Vec3,
    smoothness: int,
    scale: int,
    dt: int,
)
    requires
        0 <= dt,
    ensures
        ({
            let sm = spec_smooth(Option::Some(v), target, smoothness, scale, dt).0;
            match sm {
                Option::Some(s) => {
                    &&& absi(s.x as int - target.x as int) <= absi(v.x as int - target.x as int)
                    &&& absi(s.y as int - target.y as int) <= absi(v.y as int - target.y as int)
                    &&& absi(s.z as int - target.z as int) <= absi(v.z as int - target.z as int)
                },
                Option::None => false,
            }
        }),
{
    lemma_blend_range(smoothness, dt);
    let t = spec_blend(smoothness, dt);
    lemma_fplerp_between(v.x as int, target.x as int, t);
    lemma_fplerp_between(v.y as int, target.y as int, t);
    lemma_fplerp_between(v.z as int, target.z as int, t);
}

/// Smoothing with time advancing moves strictly closer to the target, on
/// every component whose remaining gap is coarse enough for the
/// fixed-point grid (gap times blend factor at least one unit).
pub proof fn lemma_smoother_strict_progress(
    v: Vec3,
    target: Vec3,
    smoothness: int,
    scale: int,
    dt: int,
)
    requires
        0 < dt,
    ensures
        ({
            let sm = spec_smooth(Option::Some(v), target, smoothness, scale, dt).0;
            let t = spec_blend(smoothness, dt);
            match sm {
                Option::Some(s) => {
                    &&& t * absi(v.x as int - target.x as int) >= ONE as int ==> absi(
                        s.x as int - target.x as int,
                    ) < absi(v.x as int - target.x as int)
                    &&& t * absi(v.y as int - target.y as int) >= ONE as int ==> absi(
                        s.y as int - target.y as int,
                    ) < absi(v.y as int - target.y as int)
                    &&& t * absi(v.z as int - target.z as int) >= ONE as int ==> absi(
                        s.z as int - target.z as int,
                    ) < absi(v.z as int - target.z as int)
                },
                Option::None => false,
            }
        }),
{
    lemma_blend_range(smoothness, dt);
    let t = spec_blend(smoothness, dt);
    lemma_strict_component(v.x as int, target.x as int, t);
    lemma_strict_component(v.y as int, target.y as int, t);
    lemma_strict_component(v.z as int, target.z as int, t);
}

/// One component of a strict smoothing step.
proof fn lemma_strict_component(a: int, b: int, t: int)
    requires
        0 <= t <= ONE as int,
        -0x8000_0000_0000_0000 <= a < 0x8000_0000_0000_0000,
        -0x8000_0000_0000_0000 <= b < 0x8000_0000_0000_0000,
    ensures
        t * absi(a - b) >= ONE as int ==> absi(
            (crate::fixed::fplerp(a, b, t) as i64) as int - b,
        ) < absi(a - b),
{
    lemma_fplerp_between(a, b, t);
    if t * absi(a - b) >= ONE as int {
        assert(t > 0) by {
            if t == 0 {
                assert(0 * absi(a - b) == 0) by (nonlinear_arith);
            }
        }
        assert(a != b) by {
            if a == b {
                assert(t * 0 == 0) by (nonlinear_arith);
            }
        }
        crate::fixed::lemma_fplerp_progress(a, b, t);
    }
}

} // verus!
