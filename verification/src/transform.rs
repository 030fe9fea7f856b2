//! A pose: position plus rotation, tagged with the handedness it was
//! computed under.

use vstd::prelude::*;

verus! {

use crate::fixed::ONE;
use crate::fixed::ROT_MAX;
use crate::fixed::POS_MAX;
use crate::math::Vec3;
use crate::math::Quat;
use crate::math::v3;
use crate::handedness::Handedness;

/// A position and a rotation, the value each driver consumes and produces.
#[derive(Debug)]
pub struct Transform<H: Handedness> {
    pub position: Vec3,
    pub rotation: Quat,
    pub phantom: core::marker::PhantomData<H>,
}

impl<H: Handedness> Clone for Transform<H> {
    fn clone(&self) -> (r: Self)
        ensures
            r == *self,
    {
        Transform {
            position: self.position,
            rotation: self.rotation,
            phantom: core::marker::PhantomData,
        }
    }
}

impl<H: Handedness> Copy for Transform<H> {

}

impl<H: Handedness> Transform<H> {
    /// Components within the pipeline's coordinate and rotation ranges,
    /// the rotation numerically close to unit length.
    pub open spec fn wf(self) -> bool {
        &&& self.position.in_bounds(POS_MAX as int)
        &&& self.rotation.in_bounds(ROT_MAX as int)
        &&& self.rotation.near_unit()
    }

    /// The identity pose: zero position, identity rotation.
    pub open spec fn spec_identity() -> Transform<H> {
        Transform {
            position: v3(0, 0, 0),
            rotation: Quat::spec_identity(),
            phantom: core::marker::PhantomData,
        }
    }

    pub fn from_position_rotation(position: Vec3, rotation: Quat) -> (r: Transform<H>)
        ensures
            r.position == position,
            r.rotation == rotation,
    {
        Transform { position, rotation, phantom: core::marker::PhantomData }
    }

    pub fn into_position_rotation(self) -> (r: (Vec3, Quat))
        ensures
            r.0 == self.position,
            r.1 == self.rotation,
    {
        (self.position, self.rotation)
    }

    /// The pose's right axis: the rotation applied to unit X.
    pub fn right(&self) -> (r: Vec3)
        requires
            self.wf(),
        ensures
            r == self.rotation.spec_rotate(v3(ONE as int, 0, 0)),
    {
        self.rotation.rotate(Vec3 { x: ONE, y: 0, z: 0 })
    }

    /// The pose's up axis: the rotation applied to unit Y.
    pub fn up(&self) -> (r: Vec3)
        requires
            self.wf(),
        ensures
            r == self.rotation.spec_rotate(v3(0, ONE as int, 0)),
    {
        self.rotation.rotate(Vec3 { x: 0, y: ONE, z: 0 })
    }

    /// The pose's forward axis: the rotation applied to the convention's
    /// canonical forward.
    pub fn forward(&self) -> (r: Vec3)
        requires
            self.wf(),
        ensures
            r == self.rotation.spec_rotate(v3(0, 0, H::spec_sign() * (ONE as int))),
    {
        let f = H::forward();
        self.rotation.rotate(f)
    }

    #[allow(non_snake_case)]
    pub fn IDENTITY() -> (r: Transform<H>)
        ensures
            r == Transform::<H>::spec_identity(),
            r.wf(),
    {
        proof {
            crate::math::lemma_identity_near_unit();
        }
        Transform {
            position: Vec3 { x: 0, y: 0, z: 0 },
            rotation: Quat { w: ONE, x: 0, y: 0, z: 0 },
            phantom: core::marker::PhantomData,
        }
    }
}

} // verus!
