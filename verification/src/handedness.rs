//! The coordinate-system convention: which way "forward" points along Z,
//! and how "right" and "up" are derived from it. Chosen once, as a type
//! parameter, for the life of a rig.

use vstd::prelude::*;

verus! {

use crate::fixed::ONE;
use crate::math::Vec3;
use crate::math::v3;

/// A compile-time handedness policy: the sign of the forward Z axis and the
/// two cross-product rules that derive an orthogonal basis from it.
pub trait Handedness: Sized + core::marker::Copy + core::fmt::Debug {
    /// The sign (+1 or -1) of the canonical forward Z axis.
    spec fn spec_sign() -> int;

    /// The rule deriving "right" from world-up and forward.
    spec fn spec_right_from(up: Vec3, fwd: Vec3) -> Vec3;

    /// The rule deriving "up" from right and forward.
    spec fn spec_up_from(right: Vec3, fwd: Vec3) -> Vec3;

    proof fn sign_is_unit()
        ensures
            Self::spec_sign() == 1 || Self::spec_sign() == -1,
    ;

    fn forward_sign() -> (s: i64)
        ensures
            s as int == Self::spec_sign(),
    ;

    /// The canonical forward axis: unit Z, signed by the convention.
    fn forward() -> (v: Vec3)
        ensures
            v == v3(0, 0, Self::spec_sign() * (ONE as int)),
            v.in_bounds(ONE as int),
    ;

    fn right_from_up_and_forward(up: Vec3, fwd: Vec3) -> (r: Vec3)
        requires
            up.in_bounds(ONE as int),
            fwd.in_bounds(ONE as int),
        ensures
            r == Self::spec_right_from(up, fwd),
            r.in_bounds(2 * ONE),
    ;

    fn up_from_right_and_forward(right: Vec3, fwd: Vec3) -> (u: Vec3)
        requires
            right.in_bounds(ONE as int),
            fwd.in_bounds(ONE as int),
        ensures
            u == Self::spec_up_from(right, fwd),
            u.in_bounds(2 * ONE),
    ;
}

/// Forward along positive Z; right = up x forward.
#[derive(Clone, Copy, Debug)]
pub struct LeftHanded;

/// Forward along negative Z; right = forward x up.
#[derive(Clone, Copy, Debug)]
pub struct RightHanded;

impl Handedness for LeftHanded {
    open spec fn spec_sign() -> int {
        1
    }

    open spec fn spec_right_from(up: Vec3, fwd: Vec3) -> Vec3 {
        up.spec_cross(fwd)
    }

    open spec fn spec_up_from(right: Vec3, fwd: Vec3) -> Vec3 {
        fwd.spec_cross(right)
    }

    proof fn sign_is_unit() {
    }

    fn forward_sign() -> (s: i64) {
        1
    }

    fn forward() -> (v: Vec3) {
        Vec3 { x: 0, y: 0, z: ONE }
    }

    fn right_from_up_and_forward(up: Vec3, fwd: Vec3) -> (r: Vec3) {
        up.cross(fwd)
    }

    fn up_from_right_and_forward(right: Vec3, fwd: Vec3) -> (u: Vec3) {
        fwd.cross(right)
    }
}

impl Handedness for RightHanded {
    open spec fn spec_sign() -> int {
        -1
    }

    open spec fn spec_right_from(up: Vec3, fwd: Vec3) -> Vec3 {
        fwd.spec_cross(up)
    }

    open spec fn spec_up_from(right: Vec3, fwd: Vec3) -> Vec3 {
        right.spec_cross(fwd)
    }

    proof fn sign_is_unit() {
    }

    fn forward_sign() -> (s: i64) {
        -1
    }

    fn forward() -> (v: Vec3) {
        Vec3 { x: 0, y: 0, z: -ONE }
    }

    fn right_from_up_and_forward(up: Vec3, fwd: Vec3) -> (r: Vec3) {
        fwd.cross(up)
    }

    fn up_from_right_and_forward(right: Vec3, fwd: Vec3) -> (u: Vec3) {
        right.cross(fwd)
    }
}

} // verus!
