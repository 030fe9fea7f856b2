//! The polymorphic driver pipeline: the per-frame update contract every
//! driver obeys, and the closed set of driver kinds a rig can hold.

use vstd::prelude::*;

verus! {

use crate::handedness::Handedness;
use crate::transform::Transform;
use crate::drivers_position::Position;
use crate::drivers_rotation::Rotation;
use crate::drivers_arm::Arm;
use crate::drivers_yaw_pitch::YawPitch;
use crate::drivers_look_at::LookAt;

/// The per-frame inputs handed to each driver: the previous stage's output
/// and the frame's time delta (Q16.16 seconds).
pub struct RigUpdateParams<H: Handedness> {
    pub parent: Transform<H>,
    pub delta_time_seconds: i64,
}

/// The discriminant a driver is looked up by.
#[derive(Clone, Copy, Debug, PartialEq, Eq, Structural)]
pub enum DriverKind {
    Position,
    Rotation,
    Arm,
    YawPitch,
    LookAt,
}

/// The driver contract: consume the parent transform and the time delta,
/// produce the next transform, mutating only the driver's own state.
pub trait RigDriver<H: Handedness>: Sized {
    /// The driver's state invariant.
    spec fn dwf(self) -> bool;

    /// What one update step yields: the new driver state and the output
    /// transform, as a function of state, parent and time delta.
    spec fn dstep(self, parent: Transform<H>, dt: int) -> (Self, Transform<H>);

    fn update(&mut self, params: RigUpdateParams<H>) -> (t: Transform<H>)
        requires
            old(self).dwf(),
            params.parent.wf(),
            params.delta_time_seconds >= 0,
        ensures
            final(self).dwf(),
            t.wf(),
            (*final(self), t) == old(self).dstep(params.parent, params.delta_time_seconds as int),
    ;
}

/// What every rig-storable driver offers besides the update contract:
/// the kind tag the rig looks it up by.
pub trait RigDriverTraits<H: Handedness>: RigDriver<H> + Send + Sync + core::fmt::Debug {
    /// The kind this driver is found under.
    spec fn spec_kind(self) -> DriverKind;

    fn kind(&self) -> (k: DriverKind)
        ensures
            k == self.spec_kind(),
    ;
}

/// A driver of any kind, as stored by the rig.
#[derive(Clone, Copy, Debug)]
pub enum Driver {
    Position(Position),
    Rotation(Rotation),
    Arm(Arm),
    YawPitch(YawPitch),
    LookAt(LookAt),
}

impl Driver {
    /// The stored driver's state invariant.
    pub open spec fn wf(self) -> bool {
        match self {
            Driver::Position(d) => d.wf(),
            Driver::Rotation(d) => d.wf(),
            Driver::Arm(d) => d.wf(),
            Driver::YawPitch(d) => d.wf(),
            Driver::LookAt(d) => d.wf(),
        }
    }

    /// The stored driver's kind.
    pub open spec fn kind_of(self) -> DriverKind {
        match self {
            Driver::Position(_) => DriverKind::Position,
            Driver::Rotation(_) => DriverKind::Rotation,
            Driver::Arm(_) => DriverKind::Arm,
            Driver::YawPitch(_) => DriverKind::YawPitch,
            Driver::LookAt(_) => DriverKind::LookAt,
        }
    }

    /// One update step of the stored driver.
    #[verifier::opaque]
    pub open spec fn spec_update<H: Handedness>(self, parent: Transform<H>, dt: int) -> (
        Driver,
        Transform<H>,
    ) {
        match self {
            Driver::Position(d) => {
                let (d2, t) = d.spec_update(parent, dt);
                (Driver::Position(d2), t)
            },
            Driver::Rotation(d) => {
                let (d2, t) = d.spec_update(parent, dt);
                (Driver::Rotation(d2), t)
            },
            Driver::Arm(d) => {
                let (d2, t) = d.spec_update(parent, dt);
                (Driver::Arm(d2), t)
            },
            Driver::YawPitch(d) => {
                let (d2, t) = d.spec_update(parent, dt);
                (Driver::YawPitch(d2), t)
            },
            Driver::LookAt(d) => {
                let (d2, t) = d.spec_update(parent, dt);
                (Driver::LookAt(d2), t)
            },
        }
    }
}

/// With no time advance, repeating a driver's update step changes
/// nothing: the state reached by the first zero-delta step is a fixed
/// point, and the output is reproduced.
pub proof fn lemma_driver_step_zero_dt<H: Handedness>(d: Driver, parent: Transform<H>)
    ensures
        ({
            let (d2, t) = d.spec_update(parent, 0);
            d2.spec_update(parent, 0) == (d2, t)
        }),
{
    reveal(Driver::spec_update);
    match d {
        Driver::LookAt(la) => {
            crate::util::lemma_smooth_zero_dt(
                la.smoothed_target.0,
                la.target,
                la.smoothness as int,
                la.output_offset_scale as int,
            );
        },
        _ => {},
    }
}

impl<H: Handedness> RigDriver<H> for Driver {
    open spec fn dwf(self) -> bool {
        self.wf()
    }

    open spec fn dstep(self, parent: Transform<H>, dt: int) -> (Driver, Transform<H>) {
        self.spec_update(parent, dt)
    }

    fn update(&mut self, params: RigUpdateParams<H>) -> (t: Transform<H>) {
        proof {
            reveal(Driver::spec_update);
        }
        match self {
            Driver::Position(d) => d.update(params),
            Driver::Rotation(d) => d.update(params),
            Driver::Arm(d) => d.update(params),
            Driver::YawPitch(d) => d.update(params),
            Driver::LookAt(d) => d.update(params),
        }
    }
}

impl<H: Handedness> RigDriverTraits<H> for Driver {
    open spec fn spec_kind(self) -> DriverKind {
        self.kind_of()
    }

    fn kind(&self) -> (k: DriverKind) {
        match self {
            Driver::Position(_) => DriverKind::Position,
            Driver::Rotation(_) => DriverKind::Rotation,
            Driver::Arm(_) => DriverKind::Arm,
            Driver::YawPitch(_) => DriverKind::YawPitch,
            Driver::LookAt(_) => DriverKind::LookAt,
        }
    }
}

} // verus!
