//! Offsets the camera along a vector expressed in the parent's frame,
//! producing an orbit / boom-arm effect.

use vstd::prelude::*;

verus! {

use crate::fixed::COORD_MAX;
use crate::fixed::POS_MAX;
use crate::fixed::clampi;
use crate::fixed::clamp_i;
use crate::math::Vec3;
use crate::math::v3;
use crate::handedness::Handedness;
use crate::transform::Transform;
use crate::driver::RigUpdateParams;
use crate::driver::RigDriver;
use crate::driver::RigDriverTraits;
use crate::driver::DriverKind;

/// Offsets the camera along a vector, in the coordinate space of the
/// parent transform.
#[derive(Clone, Copy, Debug, PartialEq, Eq, Structural)]
pub struct Arm {
    pub offset: Vec3,
}

impl Arm {
    pub open spec fn wf(self) -> bool {
        self.offset.in_bounds(COORD_MAX as int)
    }

    /// The update step: rotation passes through; position is the parent's
    /// position plus the offset rotated into the parent's frame, saturating
    /// at the position range.
    pub open spec fn spec_update<H: Handedness>(self, parent: Transform<H>, dt: int) -> (
        Arm,
        Transform<H>,
    ) {
        let rotated = parent.rotation.spec_rotate(self.offset);
        (
            self,
            Transform {
                position: v3(
                    clampi(parent.position.x + rotated.x, -POS_MAX as int, POS_MAX as int),
                    clampi(parent.position.y + rotated.y, -POS_MAX as int, POS_MAX as int),
                    clampi(parent.position.z + rotated.z, -POS_MAX as int, POS_MAX as int),
                ),
                rotation: parent.rotation,
                phantom: core::marker::PhantomData,
            },
        )
    }

    pub fn new(offset: Vec3) -> (r: Arm)
        requires
            offset.in_bounds(COORD_MAX as int),
        ensures
            r == (Arm { offset }),
            r.wf(),
    {
        Arm { offset }
    }
}

impl<H: Handedness> RigDriver<H> for Arm {
    open spec fn dwf(self) -> bool {
        self.wf()
    }

    open spec fn dstep(self, parent: Transform<H>, dt: int) -> (Arm, Transform<H>) {
        self.spec_update(parent, dt)
    }

    fn update(&mut self, params: RigUpdateParams<H>) -> (t: Transform<H>) {
        let rotated = params.parent.rotation.rotate(self.offset);
        let p = params.parent.position;
        Transform {
            position: Vec3 {
                x: clamp_i(p.x + rotated.x, -POS_MAX, POS_MAX),
                y: clamp_i(p.y + rotated.y, -POS_MAX, POS_MAX),
                z: clamp_i(p.z + rotated.z, -POS_MAX, POS_MAX),
            },
            rotation: params.parent.rotation,
            phantom: core::marker::PhantomData,
        }
    }
}

impl<H: Handedness> RigDriverTraits<H> for Arm {
    open spec fn spec_kind(self) -> DriverKind {
        DriverKind::Arm
    }

    fn kind(&self) -> (k: DriverKind) {
        DriverKind::Arm
    }
}

} // verus!
