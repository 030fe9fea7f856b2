//! Directly sets the position of the camera, passing the parent's rotation
//! through.

use vstd::prelude::*;

verus! {

use crate::fixed::COORD_MAX;
use crate::fixed::clampi;
use crate::fixed::clamp_i;
use crate::math::Vec3;
use crate::math::v3;
use crate::handedness::Handedness;
use crate::transform::Transform;
use crate::driver::RigUpdateParams;
use crate::driver::RigDriver;
use crate::driver::RigDriverTraits;
use crate::driver::DriverKind;

/// Directly sets the position of the camera.
#[derive(Clone, Copy, Debug, PartialEq, Eq, Structural)]
pub struct Position {
    pub position: Vec3,
}

impl Position {
    pub open spec fn wf(self) -> bool {
        self.position.in_bounds(COORD_MAX as int)
    }

    /// The driven position after a translation, saturating at the
    /// coordinate range.
    pub open spec fn spec_translate(self, mv: Vec3) -> Position {
        Position {
            position: v3(
                clampi(self.position.x + mv.x, -COORD_MAX as int, COORD_MAX as int),
                clampi(self.position.y + mv.y, -COORD_MAX as int, COORD_MAX as int),
                clampi(self.position.z + mv.z, -COORD_MAX as int, COORD_MAX as int),
            ),
        }
    }

    /// The update step: output position is the driven position, rotation
    /// passes through from the parent; the state does not change.
    pub open spec fn spec_update<H: Handedness>(self, parent: Transform<H>, dt: int) -> (
        Position,
        Transform<H>,
    ) {
        (
            self,
            Transform {
                position: self.position,
                rotation: parent.rotation,
                phantom: core::marker::PhantomData,
            },
        )
    }

    pub fn new(position: Vec3) -> (r: Position)
        requires
            position.in_bounds(COORD_MAX as int),
        ensures
            r == (Position { position }),
            r.wf(),
    {
        Position { position }
    }

    /// Move the driven position by `mv`, saturating at the coordinate range.
    pub fn translate(&mut self, mv: Vec3)
        requires
            old(self).wf(),
            mv.in_bounds(COORD_MAX as int),
        ensures
            final(self).wf(),
            *final(self) == old(self).spec_translate(mv),
    {
        let p = self.position;
        self.position = Vec3 {
            x: clamp_i(p.x + mv.x, -COORD_MAX, COORD_MAX),
            y: clamp_i(p.y + mv.y, -COORD_MAX, COORD_MAX),
            z: clamp_i(p.z + mv.z, -COORD_MAX, COORD_MAX),
        };
    }
}

impl Default for Position {
    fn default() -> (r: Position)
        ensures
            r == (Position { position: v3(0, 0, 0) }),
            r.wf(),
    {
        Position { position: Vec3 { x: 0, y: 0, z: 0 } }
    }
}

impl<H: Handedness> RigDriver<H> for Position {
    open spec fn dwf(self) -> bool {
        self.wf()
    }

    open spec fn dstep(self, parent: Transform<H>, dt: int) -> (Position, Transform<H>) {
        self.spec_update(parent, dt)
    }

    fn update(&mut self, params: RigUpdateParams<H>) -> (t: Transform<H>) {
        Transform {
            position: self.position,
            rotation: params.parent.rotation,
            phantom: core::marker::PhantomData,
        }
    }
}

impl<H: Handedness> RigDriverTraits<H> for Position {
    open spec fn spec_kind(self) -> DriverKind {
        DriverKind::Position
    }

    fn kind(&self) -> (k: DriverKind) {
        DriverKind::Position
    }
}

} // verus!
