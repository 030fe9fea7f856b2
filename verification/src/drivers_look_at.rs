//! Rotates the camera to point at a target position, optionally smoothing
//! the tracked target over time.

use vstd::prelude::*;

verus! {

use crate::fixed::ONE;
use crate::fixed::COORD_MAX;
use crate::math::Vec3;
use crate::handedness::Handedness;
use crate::transform::Transform;
use crate::util::ExpSmoothed;
use crate::util::ExpSmoothingParams;
use crate::util::spec_smooth;
use crate::util::spec_look_at;
use crate::util::look_at;
use crate::driver::RigUpdateParams;
use crate::driver::RigDriver;
use crate::driver::RigDriverTraits;
use crate::driver::DriverKind;

/// Rotates the camera to point at a world-space position.
#[derive(Clone, Copy, Debug, PartialEq, Eq, Structural)]
pub struct LookAt {
    /// Exponential smoothing time constant for the tracked target
    /// (Q16.16 seconds); zero tracks instantly.
    pub smoothness: i64,
    /// The world-space position to look at.
    pub target: Vec3,
    pub output_offset_scale: i64,
    pub smoothed_target: ExpSmoothed,
}

impl LookAt {
    pub open spec fn wf(self) -> bool {
        &&& self.target.in_bounds(COORD_MAX as int)
        &&& -COORD_MAX <= self.smoothness <= COORD_MAX
        &&& -ONE <= self.output_offset_scale <= ONE
        &&& self.smoothed_target.wf()
    }

    /// The update step: the tracked target advances through the smoother,
    /// the rotation points from the parent's position toward it, and the
    /// position passes through.
    pub open spec fn spec_update<H: Handedness>(self, parent: Transform<H>, dt: int) -> (
        LookAt,
        Transform<H>,
    ) {
        let (state2, driven) = spec_smooth(
            self.smoothed_target.0,
            self.target,
            self.smoothness as int,
            self.output_offset_scale as int,
            dt,
        );
        let fwd = driven.spec_minus(parent.position);
        (
            LookAt { smoothed_target: ExpSmoothed(state2), ..self },
            Transform {
                position: parent.position,
                rotation: spec_look_at::<H>(fwd),
                phantom: core::marker::PhantomData,
            },
        )
    }

    pub fn new(target: Vec3) -> (r: LookAt)
        requires
            target.in_bounds(COORD_MAX as int),
        ensures
            r == (LookAt {
                smoothness: 0,
                target,
                output_offset_scale: ONE,
                smoothed_target: ExpSmoothed(Option::<Vec3>::None),
            }),
            r.wf(),
    {
        LookAt {
            smoothness: 0,
            target,
            output_offset_scale: ONE,
            smoothed_target: ExpSmoothed::default(),
        }
    }

    /// Set the smoothing time constant (builder style).
    pub fn tracking_smoothness(self, smoothness: i64) -> (r: LookAt)
        requires
            -COORD_MAX <= smoothness <= COORD_MAX,
        ensures
            r == (LookAt { smoothness, ..self }),
    {
        LookAt { smoothness, ..self }
    }

    /// Choose whether the driven target leads ahead of the smoothed value
    /// (predictive) or equals it.
    pub fn tracking_predictive(self, predictive: bool) -> (r: LookAt)
        ensures
            r == (LookAt {
                output_offset_scale: if predictive {
                    (-ONE) as i64
                } else {
                    ONE
                },
                ..self
            }),
    {
        LookAt {
            output_offset_scale: if predictive {
                -ONE
            } else {
                ONE
            },
            ..self
        }
    }
}

impl<H: Handedness> RigDriver<H> for LookAt {
    open spec fn dwf(self) -> bool {
        self.wf()
    }

    open spec fn dstep(self, parent: Transform<H>, dt: int) -> (LookAt, Transform<H>) {
        self.spec_update(parent, dt)
    }

    fn update(&mut self, params: RigUpdateParams<H>) -> (t: Transform<H>) {
        let target = self.smoothed_target.exp_smooth_towards(
            &self.target,
            ExpSmoothingParams {
                smoothness: self.smoothness,
                output_offset_scale: self.output_offset_scale,
                delta_time_seconds: params.delta_time_seconds,
            },
        );
        let fwd = target.minus(params.parent.position);
        let rotation = look_at::<H>(fwd);
        Transform {
            position: params.parent.position,
            rotation,
            phantom: core::marker::PhantomData,
        }
    }
}

impl<H: Handedness> RigDriverTraits<H> for LookAt {
    open spec fn spec_kind(self) -> DriverKind {
        DriverKind::LookAt
    }

    fn kind(&self) -> (k: DriverKind) {
        DriverKind::LookAt
    }
}

} // verus!
