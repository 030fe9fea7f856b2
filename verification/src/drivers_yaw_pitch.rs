//! Camera rotation from yaw and pitch angles.
//!
//! Yaw lives in (-720, 720) fixed-point degrees rather than (-360, 360):
//! a quaternion encodes 720 degrees of rotation, and keeping the doubled
//! range avoids shortest-path interpolation jumping the wrong way across
//! the 0/360 seam. Pitch is clamped to [-90, 90].

use vstd::prelude::*;

verus! {

use crate::fixed::ONE;
use crate::fixed::COORD_MAX;
use crate::fixed::ROT_MAX;
use crate::fixed::dtz;
use crate::fixed::rtz;
use crate::fixed::clampi;
use crate::fixed::fpmul;
use crate::fixed::div_tz;
use crate::fixed::rem_tz;
use crate::fixed::clamp_i;
use crate::fixed::fp_mul;
use crate::fixed::lemma_fpmul_bound;
use crate::trig::DEG_90;
use crate::trig::DEG_180;
use crate::trig::DEG_720;
use crate::trig::spec_sin;
use crate::trig::spec_cos;
use crate::trig::spec_atan2;
use crate::trig::spec_asin;
use crate::trig::sin_fp;
use crate::trig::cos_fp;
use crate::trig::atan2_fp;
use crate::trig::asin_fp;
use crate::math::Quat;
use crate::handedness::Handedness;
use crate::transform::Transform;
use crate::driver::RigUpdateParams;
use crate::driver::RigDriver;
use crate::driver::RigDriverTraits;
use crate::driver::DriverKind;

/// Calculate camera rotation based on yaw and pitch angles, in Q16.16
/// degrees.
#[derive(Clone, Copy, Debug, PartialEq, Eq, Structural)]
pub struct YawPitch {
    pub yaw_degrees: i64,
    pub pitch_degrees: i64,
}

/// The quaternion encoding yaw about +Y then pitch about +X (roll zero),
/// built from half angles and rescaled to unit length.
pub open spec fn spec_yaw_pitch_quat(yaw: int, pitch: int) -> Quat {
    let y2 = dtz(yaw, 2);
    let p2 = dtz(pitch, 2);
    let qy = Quat {
        w: spec_cos(y2) as i64,
        x: 0,
        y: spec_sin(y2) as i64,
        z: 0,
    };
    let qp = Quat {
        w: spec_cos(p2) as i64,
        x: spec_sin(p2) as i64,
        y: 0,
        z: 0,
    };
    qp.spec_mul(qy).spec_normalized()
}

/// The yaw and pitch read back from a rotation, roll discarded; pitch is
/// clamped to [-90, 90]. Near the gimbal poles the angles collapse to a
/// quarter turn of yaw, as the basis no longer determines them.
pub open spec fn spec_extract_yaw_pitch(q: Quat) -> (int, int) {
    let sqx = fpmul(q.x as int, q.x as int);
    let sqy = fpmul(q.y as int, q.y as int);
    let sqz = fpmul(q.z as int, q.z as int);
    let sqw = fpmul(q.w as int, q.w as int);
    let unit = sqx + sqz + sqy + sqw;
    let test = fpmul(q.x as int, q.z as int) + fpmul(q.y as int, q.w as int);
    let sig = fpmul(32702, unit);
    if test > sig {
        (DEG_90 as int, 0)
    } else if test < -sig {
        (-(DEG_90 as int), 0)
    } else {
        let yaw = spec_asin(clampi(2 * test, -(ONE as int), ONE as int));
        let pitch = spec_atan2(
            2 * (fpmul(q.x as int, q.w as int) - fpmul(q.y as int, q.z as int)),
            (ONE as int) - 2 * (sqx + sqy),
        );
        (yaw, clampi(pitch, -(DEG_90 as int), DEG_90 as int))
    }
}

impl YawPitch {
    pub open spec fn wf(self) -> bool {
        &&& -COORD_MAX <= self.yaw_degrees <= COORD_MAX
        &&& -DEG_90 <= self.pitch_degrees <= DEG_90
    }

    /// The update step: position passes through; rotation is built from
    /// the yaw and pitch angles; the state does not change.
    pub open spec fn spec_update<H: Handedness>(self, parent: Transform<H>, dt: int) -> (
        YawPitch,
        Transform<H>,
    ) {
        (
            self,
            Transform {
                position: parent.position,
                rotation: spec_yaw_pitch_quat(self.yaw_degrees as int, self.pitch_degrees as int),
                phantom: core::marker::PhantomData,
            },
        )
    }

    /// A camera looking forward along the convention's Z axis.
    pub fn new() -> (r: YawPitch)
        ensures
            r == (YawPitch { yaw_degrees: 0, pitch_degrees: 0 }),
            r.wf(),
    {
        YawPitch { yaw_degrees: 0, pitch_degrees: 0 }
    }

    /// Initialize the yaw and pitch angles from a rotation, discarding roll.
    pub fn rotation_quat(self, rotation: Quat) -> (r: YawPitch)
        requires
            rotation.in_bounds(ROT_MAX as int),
        ensures
            (r.yaw_degrees as int, r.pitch_degrees as int) == spec_extract_yaw_pitch(rotation),
            r.wf(),
    {
        let mut r = self;
        r.set_rotation_quat(rotation);
        r
    }

    /// Set the yaw angle, in Q16.16 degrees.
    pub fn yaw_degrees(self, yaw_degrees: i64) -> (r: YawPitch)
        requires
            -COORD_MAX <= yaw_degrees <= COORD_MAX,
        ensures
            r == (YawPitch { yaw_degrees, pitch_degrees: self.pitch_degrees }),
    {
        YawPitch { yaw_degrees, pitch_degrees: self.pitch_degrees }
    }

    /// Set the pitch angle, in Q16.16 degrees, clamped to [-90, 90].
    pub fn pitch_degrees(self, pitch_degrees: i64) -> (r: YawPitch)
        ensures
            r.yaw_degrees == self.yaw_degrees,
            r.pitch_degrees as int == clampi(pitch_degrees as int, -DEG_90 as int, DEG_90 as int),
    {
        YawPitch {
            yaw_degrees: self.yaw_degrees,
            pitch_degrees: clamp_i(pitch_degrees, -DEG_90, DEG_90),
        }
    }

    /// Additively rotate: yaw wraps modulo 720 degrees, pitch clamps to
    /// [-90, 90].
    pub fn rotate_yaw_pitch(&mut self, yaw_degrees: i64, pitch_degrees: i64)
        requires
            old(self).wf(),
            -COORD_MAX <= yaw_degrees <= COORD_MAX,
            -COORD_MAX <= pitch_degrees <= COORD_MAX,
        ensures
            final(self).wf(),
            final(self).yaw_degrees as int == rtz(
                old(self).yaw_degrees + yaw_degrees,
                DEG_720 as int,
            ),
            final(self).pitch_degrees as int == clampi(
                old(self).pitch_degrees + pitch_degrees,
                -DEG_90 as int,
                DEG_90 as int,
            ),
    {
        self.yaw_degrees = rem_tz(self.yaw_degrees + yaw_degrees, DEG_720);
        self.pitch_degrees = clamp_i(self.pitch_degrees + pitch_degrees, -DEG_90, DEG_90);
    }

    /// Set the yaw and pitch angles from a rotation, discarding roll.
    pub fn set_rotation_quat(&mut self, rotation: Quat)
        requires
            rotation.in_bounds(ROT_MAX as int),
        ensures
            final(self).wf(),
            (final(self).yaw_degrees as int, final(self).pitch_degrees as int)
                == spec_extract_yaw_pitch(rotation),
    {
        proof {
            lemma_extract_bounds(rotation);
        }
        let sqx = fp_mul(rotation.x, rotation.x);
        let sqy = fp_mul(rotation.y, rotation.y);
        let sqz = fp_mul(rotation.z, rotation.z);
        let sqw = fp_mul(rotation.w, rotation.w);
        let unit = sqx + sqz + sqy + sqw;
        let test = fp_mul(rotation.x, rotation.z) + fp_mul(rotation.y, rotation.w);
        let sig = fp_mul(32702, unit);
        if test > sig {
            self.yaw_degrees = DEG_90;
            self.pitch_degrees = 0;
        } else if test < -sig {
            self.yaw_degrees = -DEG_90;
            self.pitch_degrees = 0;
        } else {
            let yaw = asin_fp(clamp_i(2 * test, -ONE, ONE));
            let pitch = atan2_fp(
                2 * (fp_mul(rotation.x, rotation.w) - fp_mul(rotation.y, rotation.z)),
                ONE - 2 * (sqx + sqy),
            );
            self.yaw_degrees = yaw;
            self.pitch_degrees = clamp_i(pitch, -DEG_90, DEG_90);
        }
    }
}

/// Bounds of the intermediate products of the yaw/pitch extraction.
proof fn lemma_extract_bounds(q: Quat)
    requires
        q.in_bounds(ROT_MAX as int),
    ensures
        crate::fixed::absi(fpmul(q.x as int, q.x as int)) <= 4 * ROT_MAX,
        crate::fixed::absi(fpmul(q.y as int, q.y as int)) <= 4 * ROT_MAX,
        crate::fixed::absi(fpmul(q.z as int, q.z as int)) <= 4 * ROT_MAX,
        crate::fixed::absi(fpmul(q.w as int, q.w as int)) <= 4 * ROT_MAX,
        crate::fixed::absi(fpmul(q.x as int, q.z as int)) <= 4 * ROT_MAX,
        crate::fixed::absi(fpmul(q.y as int, q.w as int)) <= 4 * ROT_MAX,
        crate::fixed::absi(fpmul(q.x as int, q.w as int)) <= 4 * ROT_MAX,
        crate::fixed::absi(fpmul(q.y as int, q.z as int)) <= 4 * ROT_MAX,
        crate::fixed::absi(fpmul(32702, 4 * (4 * ROT_MAX))) <= 16 * ROT_MAX,
{
    lemma_fpmul_bound(q.x as int, q.x as int, 4, ROT_MAX as int);
    lemma_fpmul_bound(q.y as int, q.y as int, 4, ROT_MAX as int);
    lemma_fpmul_bound(q.z as int, q.z as int, 4, ROT_MAX as int);
    lemma_fpmul_bound(q.w as int, q.w as int, 4, ROT_MAX as int);
    lemma_fpmul_bound(q.x as int, q.z as int, 4, ROT_MAX as int);
    lemma_fpmul_bound(q.y as int, q.w as int, 4, ROT_MAX as int);
    lemma_fpmul_bound(q.x as int, q.w as int, 4, ROT_MAX as int);
    lemma_fpmul_bound(q.y as int, q.z as int, 4, ROT_MAX as int);
    lemma_fpmul_bound(32702, 4 * (4 * ROT_MAX), 1, 16 * ROT_MAX as int);
}

impl Default for YawPitch {
    fn default() -> (r: YawPitch)
        ensures
            r == (YawPitch { yaw_degrees: 0, pitch_degrees: 0 }),
            r.wf(),
    {
        YawPitch::new()
    }
}

impl<H: Handedness> RigDriver<H> for YawPitch {
    open spec fn dwf(self) -> bool {
        self.wf()
    }

    open spec fn dstep(self, parent: Transform<H>, dt: int) -> (YawPitch, Transform<H>) {
        self.spec_update(parent, dt)
    }

    fn update(&mut self, params: RigUpdateParams<H>) -> (t: Transform<H>) {
        let y2 = div_tz(self.yaw_degrees, 2);
        let p2 = div_tz(self.pitch_degrees, 2);
        let qy = Quat { w: cos_fp(y2), x: 0, y: sin_fp(y2), z: 0 };
        let qp = Quat { w: cos_fp(p2), x: sin_fp(p2), y: 0, z: 0 };
        let rotation = qp.mul_q(qy).normalized();
        Transform {
            position: params.parent.position,
            rotation,
            phantom: core::marker::PhantomData,
        }
    }
}

impl<H: Handedness> RigDriverTraits<H> for YawPitch {
    open spec fn spec_kind(self) -> DriverKind {
        DriverKind::YawPitch
    }

    fn kind(&self) -> (k: DriverKind) {
        DriverKind::YawPitch
    }
}

} // verus!
