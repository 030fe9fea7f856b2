//! Directly sets the rotation of the camera, passing the parent's position
//! through.

use vstd::prelude::*;

verus! {

use crate::fixed::ONE;
use crate::fixed::ROT_MAX;
use crate::math::Quat;
use crate::handedness::Handedness;
use crate::transform::Transform;
use crate::driver::RigUpdateParams;
use crate::driver::RigDriver;
use crate::driver::RigDriverTraits;
use crate::driver::DriverKind;

/// Directly sets the rotation of the camera. The driven rotation must be
/// numerically close to unit length, as every rotation in the pipeline is.
#[derive(Clone, Copy, Debug, PartialEq, Eq, Structural)]
pub struct Rotation {
    pub rotation: Quat,
}

impl Rotation {
    pub open spec fn wf(self) -> bool {
        &&& self.rotation.in_bounds(ROT_MAX as int)
        &&& self.rotation.near_unit()
    }

    /// The update step: output rotation is the driven rotation, position
    /// passes through from the parent; the state does not change.
    pub open spec fn spec_update<H: Handedness>(self, parent: Transform<H>, dt: int) -> (
        Rotation,
        Transform<H>,
    ) {
        (
            self,
            Transform {
                position: parent.position,
                rotation: self.rotation,
                phantom: core::marker::PhantomData,
            },
        )
    }

    pub fn new(rotation: Quat) -> (r: Rotation)
        requires
            rotation.in_bounds(ROT_MAX as int),
            rotation.near_unit(),
        ensures
            r == (Rotation { rotation }),
            r.wf(),
    {
        Rotation { rotation }
    }
}

impl Default for Rotation {
    fn default() -> (r: Rotation)
        ensures
            r == (Rotation { rotation: Quat { w: ONE, x: 0, y: 0, z: 0 } }),
            r.wf(),
    {
        proof {
            crate::math::lemma_identity_near_unit();
        }
        Rotation { rotation: Quat { w: ONE, x: 0, y: 0, z: 0 } }
    }
}

impl<H: Handedness> RigDriver<H> for Rotation {
    open spec fn dwf(self) -> bool {
        self.wf()
    }

    open spec fn dstep(self, parent: Transform<H>, dt: int) -> (Rotation, Transform<H>) {
        self.spec_update(parent, dt)
    }

    fn update(&mut self, params: RigUpdateParams<H>) -> (t: Transform<H>) {
        Transform {
            position: params.parent.position,
            rotation: self.rotation,
            phantom: core::marker::PhantomData,
        }
    }
}

impl<H: Handedness> RigDriverTraits<H> for Rotation {
    open spec fn spec_kind(self) -> DriverKind {
        DriverKind::Rotation
    }

    fn kind(&self) -> (k: DriverKind) {
        DriverKind::Rotation
    }
}

} // verus!
