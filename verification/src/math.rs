//! Fixed-point 3-vectors and quaternions: the linear algebra the drivers
//! compute with, each operation stated exactly over `fixed`'s model.

use vstd::prelude::*;

verus! {

use crate::fixed::ONE;
use crate::fixed::ROT_MAX;
use crate::fixed::MUL_MAX;
use crate::fixed::fpmul;
use crate::fixed::fplerp;
use crate::fixed::dtz;
use crate::fixed::absi;
use crate::fixed::sqrt_floor;
use crate::fixed::is_isqrt;
use crate::fixed::fp_mul;
use crate::fixed::lerp_i;
use crate::fixed::isqrt;
use crate::fixed::div_tz;
use crate::fixed::div_tz_wide;
use crate::fixed::lemma_fpmul_bound;
use crate::fixed::lemma_isqrt_unique;

/// A 3-vector of Q16.16 coordinates.
#[derive(Clone, Copy, Debug, PartialEq, Eq, Structural)]
pub struct Vec3 {
    pub x: i64,
    pub y: i64,
    pub z: i64,
}

/// A quaternion of Q16.16 components, `w` the scalar part.
#[derive(Clone, Copy, Debug, PartialEq, Eq, Structural)]
pub struct Quat {
    pub w: i64,
    pub x: i64,
    pub y: i64,
    pub z: i64,
}

/// Build a vector from mathematical component values.
pub open spec fn v3(x: int, y: int, z: int) -> Vec3 {
    Vec3 { x: x as i64, y: y as i64, z: z as i64 }
}

pub open spec fn q4(w: int, x: int, y: int, z: int) -> Quat {
    Quat { w: w as i64, x: x as i64, y: y as i64, z: z as i64 }
}

impl Vec3 {
    /// Every component within the symmetric bound `b`.
    pub open spec fn in_bounds(self, b: int) -> bool {
        &&& -b <= self.x <= b
        &&& -b <= self.y <= b
        &&& -b <= self.z <= b
    }

    pub open spec fn spec_plus(self, o: Vec3) -> Vec3 {
        v3(self.x + o.x, self.y + o.y, self.z + o.z)
    }

    pub open spec fn spec_minus(self, o: Vec3) -> Vec3 {
        v3(self.x - o.x, self.y - o.y, self.z - o.z)
    }

    /// The cross product, each coordinate a fixed-point formula.
    pub open spec fn spec_cross(self, o: Vec3) -> Vec3 {
        v3(
            fpmul(self.y as int, o.z as int) - fpmul(self.z as int, o.y as int),
            fpmul(self.z as int, o.x as int) - fpmul(self.x as int, o.z as int),
            fpmul(self.x as int, o.y as int) - fpmul(self.y as int, o.x as int),
        )
    }

    /// Componentwise interpolation from `self` toward `o` by `t`.
    pub open spec fn spec_lerp(self, o: Vec3, t: int) -> Vec3 {
        v3(
            fplerp(self.x as int, o.x as int, t),
            fplerp(self.y as int, o.y as int, t),
            fplerp(self.z as int, o.z as int, t),
        )
    }

    /// The squared length in raw representation units.
    pub open spec fn spec_len_sq(self) -> int {
        (self.x as int) * (self.x as int) + (self.y as int) * (self.y as int) + (self.z as int)
            * (self.z as int)
    }

    /// The direction of `self` at unit fixed-point length; the zero vector
    /// stays zero (the accepted degenerate case).
    pub open spec fn spec_normalized(self) -> Vec3 {
        let l = sqrt_floor(self.spec_len_sq());
        if l == 0 {
            v3(0, 0, 0)
        } else {
            v3(
                dtz((self.x as int) * (ONE as int), l),
                dtz((self.y as int) * (ONE as int), l),
                dtz((self.z as int) * (ONE as int), l),
            )
        }
    }

    pub fn zero() -> (r: Vec3)
        ensures
            r == v3(0, 0, 0),
    {
        Vec3 { x: 0, y: 0, z: 0 }
    }

    pub fn new(x: i64, y: i64, z: i64) -> (r: Vec3)
        ensures
            r == (Vec3 { x, y, z }),
    {
        Vec3 { x, y, z }
    }

    pub fn plus(self, o: Vec3) -> (r: Vec3)
        requires
            self.in_bounds(0x2000_0000_0000_0000),
            o.in_bounds(0x2000_0000_0000_0000),
        ensures
            r == self.spec_plus(o),
    {
        Vec3 { x: self.x + o.x, y: self.y + o.y, z: self.z + o.z }
    }

    pub fn minus(self, o: Vec3) -> (r: Vec3)
        requires
            self.in_bounds(0x2000_0000_0000_0000),
            o.in_bounds(0x2000_0000_0000_0000),
        ensures
            r == self.spec_minus(o),
    {
        Vec3 { x: self.x - o.x, y: self.y - o.y, z: self.z - o.z }
    }

    pub fn cross(self, o: Vec3) -> (r: Vec3)
        requires
            self.in_bounds(ONE as int),
            o.in_bounds(ONE as int),
        ensures
            r == self.spec_cross(o),
            r.in_bounds(2 * ONE),
    {
        proof {
            lemma_fpmul_bound(self.y as int, o.z as int, 1, ONE as int);
            lemma_fpmul_bound(self.z as int, o.y as int, 1, ONE as int);
            lemma_fpmul_bound(self.z as int, o.x as int, 1, ONE as int);
            lemma_fpmul_bound(self.x as int, o.z as int, 1, ONE as int);
            lemma_fpmul_bound(self.x as int, o.y as int, 1, ONE as int);
            lemma_fpmul_bound(self.y as int, o.x as int, 1, ONE as int);
        }
        Vec3 {
            x: fp_mul(self.y, o.z) - fp_mul(self.z, o.y),
            y: fp_mul(self.z, o.x) - fp_mul(self.x, o.z),
            z: fp_mul(self.x, o.y) - fp_mul(self.y, o.x),
        }
    }

    pub fn lerp(self, o: Vec3, t: i64) -> (r: Vec3)
        requires
            -ROT_MAX <= t <= ROT_MAX,
            self.in_bounds(MUL_MAX as int / 2),
            o.in_bounds(MUL_MAX as int / 2),
        ensures
            r == self.spec_lerp(o, t as int),
    {
        Vec3 { x: lerp_i(self.x, o.x, t), y: lerp_i(self.y, o.y, t), z: lerp_i(self.z, o.z, t) }
    }

    pub fn normalized(self) -> (r: Vec3)
        requires
            self.in_bounds(0x200_0000_0000_0000),
        ensures
            r == self.spec_normalized(),
            r.in_bounds(ONE as int),
    {
        proof {
            lemma_sq_bound(self.x as int);
            lemma_sq_bound(self.y as int);
            lemma_sq_bound(self.z as int);
        }
        let xx: i128 = (self.x as i128) * (self.x as i128);
        let yy: i128 = (self.y as i128) * (self.y as i128);
        let zz: i128 = (self.z as i128) * (self.z as i128);
        let d: u128 = (xx as u128) + (yy as u128) + (zz as u128);
        let l: u64 = isqrt(d);
        if l == 0 {
            proof {
                assert(d as int == self.spec_len_sq());
                assert(is_isqrt(d as int, 0));
                assert((0 + 1 as int) * (0 + 1 as int) == 1) by (nonlinear_arith);
                assert(self.spec_len_sq() == 0);
                assert(is_isqrt(0, 0));
                lemma_isqrt_unique(0, 0, sqrt_floor(0));
            }
            return Vec3 { x: 0, y: 0, z: 0 };
        }
        proof {
            lemma_comp_le_len(self.x as int, self.spec_len_sq(), l as int);
            lemma_comp_le_len(self.y as int, self.spec_len_sq(), l as int);
            lemma_comp_le_len(self.z as int, self.spec_len_sq(), l as int);
        }
        let rx: i64 = div_tz_wide((self.x as i128) * (ONE as i128), l as i128);
        let ry: i64 = div_tz_wide((self.y as i128) * (ONE as i128), l as i128);
        let rz: i64 = div_tz_wide((self.z as i128) * (ONE as i128), l as i128);
        Vec3 { x: rx, y: ry, z: rz }
    }
}

/// A square is nonnegative and bounded by the square of the bound.
proof fn lemma_sq_bound(x: int)
    requires
        -0x200_0000_0000_0000 <= x <= 0x200_0000_0000_0000,
    ensures
        0 <= x * x <= 0x4_0000_0000_0000_0000_0000_0000_0000,
{
    assert(0 <= x * x <= 0x4_0000_0000_0000_0000_0000_0000_0000)
        by (nonlinear_arith)
        requires
            -0x200_0000_0000_0000 <= x <= 0x200_0000_0000_0000,
    ;
}

/// Dividing a component by the vector's length keeps it within one unit.
proof fn lemma_comp_le_len(x: int, len_sq: int, l: int)
    requires
        l > 0,
        x * x <= len_sq,
        is_isqrt(len_sq, l),
    ensures
        -(ONE as int) <= dtz(x * (ONE as int), l) <= ONE as int,
        absi(x) <= l,
    {
    assert(-l <= x <= l) by (nonlinear_arith)
        requires
            x * x <= len_sq,
            len_sq < (l + 1) * (l + 1),
            0 <= l,
    ;
    assert(-((ONE as int) * l) <= x * (ONE as int) <= (ONE as int) * l) by (nonlinear_arith)
        requires
            -l <= x <= l,
            0 <= l,
    ;
    crate::fixed::lemma_dtz_bound(x * (ONE as int), l, ONE as int);
}

impl Quat {
    pub open spec fn in_bounds(self, b: int) -> bool {
        &&& -b <= self.w <= b
        &&& -b <= self.x <= b
        &&& -b <= self.y <= b
        &&& -b <= self.z <= b
    }

    pub open spec fn spec_identity() -> Quat {
        Quat { w: ONE, x: 0, y: 0, z: 0 }
    }

    /// The Hamilton product, each component a fixed-point formula.
    pub open spec fn spec_mul(self, o: Quat) -> Quat {
        q4(
            fpmul(self.w as int, o.w as int) - fpmul(self.x as int, o.x as int) - fpmul(
                self.y as int,
                o.y as int,
            ) - fpmul(self.z as int, o.z as int),
            fpmul(self.w as int, o.x as int) + fpmul(self.x as int, o.w as int) + fpmul(
                self.y as int,
                o.z as int,
            ) - fpmul(self.z as int, o.y as int),
            fpmul(self.w as int, o.y as int) - fpmul(self.x as int, o.z as int) + fpmul(
                self.y as int,
                o.w as int,
            ) + fpmul(self.z as int, o.x as int),
            fpmul(self.w as int, o.z as int) + fpmul(self.x as int, o.y as int) - fpmul(
                self.y as int,
                o.x as int,
            ) + fpmul(self.z as int, o.w as int),
        )
    }

    /// Rotation of a vector: v + w*t + axis x t, where t = 2 * (axis x v).
    pub open spec fn spec_rotate(self, v: Vec3) -> Vec3 {
        let axis = Vec3 { x: self.x, y: self.y, z: self.z };
        let c = axis.spec_cross(v);
        let t = v3(2 * c.x, 2 * c.y, 2 * c.z);
        let u = axis.spec_cross(t);
        v3(
            v.x + fpmul(self.w as int, t.x as int) + u.x,
            v.y + fpmul(self.w as int, t.y as int) + u.y,
            v.z + fpmul(self.w as int, t.z as int) + u.z,
        )
    }

    pub fn identity() -> (r: Quat)
        ensures
            r == Quat::spec_identity(),
    {
        Quat { w: ONE, x: 0, y: 0, z: 0 }
    }

    /// The Hamilton product of two near-unit quaternions.
    pub fn mul_q(self, o: Quat) -> (r: Quat)
        requires
            self.in_bounds(ONE as int),
            o.in_bounds(ONE as int),
        ensures
            r == self.spec_mul(o),
            r.in_bounds(ROT_MAX as int),
    {
        proof {
            lemma_qmul_bounds(self, o);
        }
        Quat {
            w: fp_mul(self.w, o.w) - fp_mul(self.x, o.x) - fp_mul(self.y, o.y) - fp_mul(
                self.z,
                o.z,
            ),
            x: fp_mul(self.w, o.x) + fp_mul(self.x, o.w) + fp_mul(self.y, o.z) - fp_mul(
                self.z,
                o.y,
            ),
            y: fp_mul(self.w, o.y) - fp_mul(self.x, o.z) + fp_mul(self.y, o.w) + fp_mul(
                self.z,
                o.x,
            ),
            z: fp_mul(self.w, o.z) + fp_mul(self.x, o.y) - fp_mul(self.y, o.x) + fp_mul(
                self.z,
                o.w,
            ),
        }
    }

    /// Rotate a vector by this quaternion.
    pub fn rotate(self, v: Vec3) -> (r: Vec3)
        requires
            self.in_bounds(ROT_MAX as int),
            v.in_bounds(crate::fixed::COORD_MAX as int),
        ensures
            r == self.spec_rotate(v),
            r.in_bounds(0x1_0000_0000_0000),
    {
        let axis = Vec3 { x: self.x, y: self.y, z: self.z };
        proof {
            lemma_cross_wide_bounds(axis, v, crate::fixed::COORD_MAX as int);
        }
        let c = cross_wide(axis, v);
        let t = Vec3 { x: 2 * c.x, y: 2 * c.y, z: 2 * c.z };
        proof {
            lemma_cross_wide_bounds(axis, t, 0x1000_0000_0000);
            lemma_fpmul_bound(self.w as int, t.x as int, 4, 0x1000_0000_0000);
            lemma_fpmul_bound(self.w as int, t.y as int, 4, 0x1000_0000_0000);
            lemma_fpmul_bound(self.w as int, t.z as int, 4, 0x1000_0000_0000);
        }
        let u = cross_wide(axis, t);
        Vec3 {
            x: v.x + fp_mul(self.w, t.x) + u.x,
            y: v.y + fp_mul(self.w, t.y) + u.y,
            z: v.z + fp_mul(self.w, t.z) + u.z,
        }
    }
}

/// Cross product of a rotation-scale vector with a wide vector.
fn cross_wide(a: Vec3, b: Vec3) -> (r: Vec3)
    requires
        a.in_bounds(ROT_MAX as int),
        b.in_bounds(MUL_MAX as int),
    ensures
        r == a.spec_cross(b),
{
    proof {
        lemma_cross_wide_bounds(a, b, MUL_MAX as int);
    }
    Vec3 {
        x: fp_mul(a.y, b.z) - fp_mul(a.z, b.y),
        y: fp_mul(a.z, b.x) - fp_mul(a.x, b.z),
        z: fp_mul(a.x, b.y) - fp_mul(a.y, b.x),
    }
}

/// Bound on each cross-product term and component.
proof fn lemma_cross_wide_bounds(a: Vec3, b: Vec3, m: int)
    requires
        a.in_bounds(ROT_MAX as int),
        b.in_bounds(m),
        0 <= m,
    ensures
        a.spec_cross(b).in_bounds(8 * m),
        absi(fpmul(a.y as int, b.z as int)) <= 4 * m,
        absi(fpmul(a.z as int, b.y as int)) <= 4 * m,
        absi(fpmul(a.z as int, b.x as int)) <= 4 * m,
        absi(fpmul(a.x as int, b.z as int)) <= 4 * m,
        absi(fpmul(a.x as int, b.y as int)) <= 4 * m,
        absi(fpmul(a.y as int, b.x as int)) <= 4 * m,
{
    lemma_fpmul_bound(a.y as int, b.z as int, 4, m);
    lemma_fpmul_bound(a.z as int, b.y as int, 4, m);
    lemma_fpmul_bound(a.z as int, b.x as int, 4, m);
    lemma_fpmul_bound(a.x as int, b.z as int, 4, m);
    lemma_fpmul_bound(a.x as int, b.y as int, 4, m);
    lemma_fpmul_bound(a.y as int, b.x as int, 4, m);
}

/// Bound on each term of the Hamilton product of near-unit quaternions.
proof fn lemma_qmul_bounds(a: Quat, b: Quat)
    requires
        a.in_bounds(ONE as int),
        b.in_bounds(ONE as int),
    ensures
        a.spec_mul(b).in_bounds(ROT_MAX as int),
        absi(fpmul(a.w as int, b.w as int)) <= ONE as int,
        absi(fpmul(a.x as int, b.x as int)) <= ONE as int,
        absi(fpmul(a.y as int, b.y as int)) <= ONE as int,
        absi(fpmul(a.z as int, b.z as int)) <= ONE as int,
        absi(fpmul(a.w as int, b.x as int)) <= ONE as int,
        absi(fpmul(a.x as int, b.w as int)) <= ONE as int,
        absi(fpmul(a.y as int, b.z as int)) <= ONE as int,
        absi(fpmul(a.z as int, b.y as int)) <= ONE as int,
        absi(fpmul(a.w as int, b.y as int)) <= ONE as int,
        absi(fpmul(a.x as int, b.z as int)) <= ONE as int,
        absi(fpmul(a.y as int, b.w as int)) <= ONE as int,
        absi(fpmul(a.z as int, b.x as int)) <= ONE as int,
        absi(fpmul(a.w as int, b.z as int)) <= ONE as int,
        absi(fpmul(a.x as int, b.y as int)) <= ONE as int,
        absi(fpmul(a.y as int, b.x as int)) <= ONE as int,
        absi(fpmul(a.z as int, b.w as int)) <= ONE as int,
{
    lemma_fpmul_bound(a.w as int, b.w as int, 1, ONE as int);
    lemma_fpmul_bound(a.x as int, b.x as int, 1, ONE as int);
    lemma_fpmul_bound(a.y as int, b.y as int, 1, ONE as int);
    lemma_fpmul_bound(a.z as int, b.z as int, 1, ONE as int);
    lemma_fpmul_bound(a.w as int, b.x as int, 1, ONE as int);
    lemma_fpmul_bound(a.x as int, b.w as int, 1, ONE as int);
    lemma_fpmul_bound(a.y as int, b.z as int, 1, ONE as int);
    lemma_fpmul_bound(a.z as int, b.y as int, 1, ONE as int);
    lemma_fpmul_bound(a.w as int, b.y as int, 1, ONE as int);
    lemma_fpmul_bound(a.x as int, b.z as int, 1, ONE as int);
    lemma_fpmul_bound(a.y as int, b.w as int, 1, ONE as int);
    lemma_fpmul_bound(a.z as int, b.x as int, 1, ONE as int);
    lemma_fpmul_bound(a.w as int, b.z as int, 1, ONE as int);
    lemma_fpmul_bound(a.x as int, b.y as int, 1, ONE as int);
    lemma_fpmul_bound(a.y as int, b.x as int, 1, ONE as int);
    lemma_fpmul_bound(a.z as int, b.w as int, 1, ONE as int);
}

/// The squared norm of a unit-length quaternion, in raw representation
/// units (ONE * ONE).
pub const UNIT_NORM_SQ: i64 = 65536 * 65536;

/// The stated tolerance band around UNIT_NORM_SQ within which a rotation
/// counts as numerically close to unit length (one sixteenth of it).
pub const UNIT_NORM_TOL: i64 = 16384 * 16384;

impl Quat {
    /// The squared length in raw representation units.
    pub open spec fn norm_sq(self) -> int {
        (self.w as int) * (self.w as int) + (self.x as int) * (self.x as int) + (self.y as int)
            * (self.y as int) + (self.z as int) * (self.z as int)
    }

    /// Numerically close to unit length: the squared norm lies within the
    /// stated tolerance band around ONE squared.
    pub open spec fn near_unit(self) -> bool {
        UNIT_NORM_SQ - UNIT_NORM_TOL <= self.norm_sq() <= UNIT_NORM_SQ + UNIT_NORM_TOL
    }

    /// The quaternion rescaled to unit length; one too short for the
    /// division to be well conditioned falls back to the identity
    /// rotation (the degenerate case).
    pub open spec fn spec_normalized(self) -> Quat {
        let l = sqrt_floor(self.norm_sq());
        if l < 16384 {
            Quat::spec_identity()
        } else {
            q4(
                dtz((self.w as int) * (ONE as int), l),
                dtz((self.x as int) * (ONE as int), l),
                dtz((self.y as int) * (ONE as int), l),
                dtz((self.z as int) * (ONE as int), l),
            )
        }
    }

    /// Rescale to unit length, so the result is provably near-unit.
    pub fn normalized(self) -> (r: Quat)
        requires
            self.in_bounds(ROT_MAX as int),
        ensures
            r == self.spec_normalized(),
            r.in_bounds(ONE as int),
            r.near_unit(),
    {
        proof {
            lemma_qsq_bound(self.w as int);
            lemma_qsq_bound(self.x as int);
            lemma_qsq_bound(self.y as int);
            lemma_qsq_bound(self.z as int);
        }
        let s: i64 = self.w * self.w + self.x * self.x + self.y * self.y + self.z * self.z;
        let l64: u64 = isqrt(s as u128);
        if l64 < 16384 {
            proof {
                lemma_identity_near_unit();
            }
            return Quat { w: ONE, x: 0, y: 0, z: 0 };
        }
        proof {
            assert(l64 as int <= 0x200_0000) by (nonlinear_arith)
                requires
                    (l64 as int) * (l64 as int) <= s as int,
                    s as int <= 0x4_0000_0000_0000,
                    0 <= l64 as int,
            ;
        }
        let l: i64 = l64 as i64;
        proof {
            lemma_comp_le_len(self.w as int, s as int, l as int);
            lemma_comp_le_len(self.x as int, s as int, l as int);
            lemma_comp_le_len(self.y as int, s as int, l as int);
            lemma_comp_le_len(self.z as int, s as int, l as int);
            lemma_qnorm_band(self, l as int);
        }
        Quat {
            w: div_tz(self.w * ONE, l),
            x: div_tz(self.x * ONE, l),
            y: div_tz(self.y * ONE, l),
            z: div_tz(self.z * ONE, l),
        }
    }
}

/// A rotation-scale square is nonnegative and small.
proof fn lemma_qsq_bound(a: int)
    requires
        -ROT_MAX <= a <= ROT_MAX,
    ensures
        0 <= a * a <= 0x1_0000_0000_0000,
{
    assert(0 <= a * a <= 0x1_0000_0000_0000) by (nonlinear_arith)
        requires
            -ROT_MAX <= a <= ROT_MAX,
    ;
}

/// The identity rotation is exactly unit length.
pub proof fn lemma_identity_near_unit()
    ensures
        Quat::spec_identity().near_unit(),
{
    assert((ONE as int) * (ONE as int) == UNIT_NORM_SQ as int) by (nonlinear_arith);
}

/// Dividing a * ONE by l leaves a remainder below l in magnitude.
proof fn lemma_qdiv_rel(a: int, l: int)
    requires
        l > 0,
    ensures
        ({
            let c = dtz(a * (ONE as int), l);
            let e = a * (ONE as int) - c * l;
            -l < e < l
        }),
{
    let m = a * (ONE as int);
    let c = dtz(m, l);
    if m >= 0 {
        vstd::arithmetic::div_mod::lemma_fundamental_div_mod(m, l);
        vstd::arithmetic::div_mod::lemma_mod_division_less_than_divisor(m, l);
        assert(l * (m / l) == (m / l) * l) by (nonlinear_arith);
    } else {
        vstd::arithmetic::div_mod::lemma_fundamental_div_mod(-m, l);
        vstd::arithmetic::div_mod::lemma_mod_division_less_than_divisor(-m, l);
        let u = (-m) / l;
        assert(l * u == u * l) by (nonlinear_arith);
        assert(c * l == -(u * l)) by (nonlinear_arith)
            requires
                c == -u,
        ;
    }
}

/// One rescaled component, squared, sits within an l*l-sized slack of the
/// exact rescaling.
proof fn lemma_qcomp_piece(a: int, l: int)
    requires
        l > 0,
        -l <= a <= l,
    ensures
        ({
            let c = dtz(a * (ONE as int), l);
            &&& a * a * ((ONE as int) * (ONE as int)) - 2 * ((ONE as int) * (l * l)) <= c * c * (
            l * l)
            &&& c * c * (l * l) <= a * a * ((ONE as int) * (ONE as int)) + 2 * ((ONE as int) * (l
                * l)) + l * l
        }),
{
    lemma_qdiv_rel(a, l);
    let c = dtz(a * (ONE as int), l);
    let e = a * (ONE as int) - c * l;
    assert(a * a * ((ONE as int) * (ONE as int)) - 2 * ((ONE as int) * (l * l)) <= c * c * (l * l)
        && c * c * (l * l) <= a * a * ((ONE as int) * (ONE as int)) + 2 * ((ONE as int) * (l * l))
        + l * l) by (nonlinear_arith)
        requires
            c * l == a * (ONE as int) - e,
            -l < e < l,
            -l <= a <= l,
            l > 0,
            (ONE as int) == 65536,
    ;
}

/// After the rescaling division the squared norm of the result lies in
/// the stated near-unit band: the division's per-component remainders
/// perturb the exact rescaling by strictly less than one part in l.
proof fn lemma_qnorm_band(q: Quat, l: int)
    requires
        q.in_bounds(ROT_MAX as int),
        is_isqrt(q.norm_sq(), l),
        l >= 16384,
    ensures
        ({
            let cw = dtz((q.w as int) * (ONE as int), l);
            let cx = dtz((q.x as int) * (ONE as int), l);
            let cy = dtz((q.y as int) * (ONE as int), l);
            let cz = dtz((q.z as int) * (ONE as int), l);
            (UNIT_NORM_SQ - UNIT_NORM_TOL) as int <= cw * cw + cx * cx + cy * cy + cz * cz <= (
            UNIT_NORM_SQ + UNIT_NORM_TOL) as int
        }),
{
    let s = q.norm_sq();
    let aw = q.w as int;
    let ax = q.x as int;
    let ay = q.y as int;
    let az = q.z as int;
    // every component is bounded by the norm's square root
    assert(0 <= aw * aw && 0 <= ax * ax && 0 <= ay * ay && 0 <= az * az) by (nonlinear_arith);
    lemma_comp_le_len(aw, s, l);
    lemma_comp_le_len(ax, s, l);
    lemma_comp_le_len(ay, s, l);
    lemma_comp_le_len(az, s, l);
    let cw = dtz(aw * (ONE as int), l);
    let cx = dtz(ax * (ONE as int), l);
    let cy = dtz(ay * (ONE as int), l);
    let cz = dtz(az * (ONE as int), l);
    lemma_qcomp_piece(aw, l);
    lemma_qcomp_piece(ax, l);
    lemma_qcomp_piece(ay, l);
    lemma_qcomp_piece(az, l);
    let n = cw * cw + cx * cx + cy * cy + cz * cz;
    // distribute the sums over the common factors
    assert(n * (l * l) == cw * cw * (l * l) + cx * cx * (l * l) + cy * cy * (l * l) + cz * cz * (l
        * l)) by (nonlinear_arith)
        requires
            n == cw * cw + cx * cx + cy * cy + cz * cz,
    ;
    assert(aw * aw * ((ONE as int) * (ONE as int)) + ax * ax * ((ONE as int) * (ONE as int)) + ay
        * ay * ((ONE as int) * (ONE as int)) + az * az * ((ONE as int) * (ONE as int)) == s * ((
    ONE as int) * (ONE as int))) by (nonlinear_arith)
        requires
            s == aw * aw + ax * ax + ay * ay + az * az,
    ;
    // summing the four component bounds
    assert(s * ((ONE as int) * (ONE as int)) - 8 * ((ONE as int) * (l * l)) <= n * (l * l));
    assert(n * (l * l) <= s * ((ONE as int) * (ONE as int)) + 8 * ((ONE as int) * (l * l)) + 4 * (
    l * l));
    // the input norm brackets l * l
    assert(l * l <= s <= l * l + 2 * l) by (nonlinear_arith)
        requires
            is_isqrt(s, l),
            l > 0,
    ;
    // fold everything into a band proportional to l * l and cancel it
    assert((UNIT_NORM_SQ - UNIT_NORM_TOL) as int <= n <= (UNIT_NORM_SQ + UNIT_NORM_TOL) as int)
        by (nonlinear_arith)
        requires
            s * ((ONE as int) * (ONE as int)) - 8 * ((ONE as int) * (l * l)) <= n * (l * l),
            n * (l * l) <= s * ((ONE as int) * (ONE as int)) + 8 * ((ONE as int) * (l * l)) + 4 * (
            l * l),
            l * l <= s <= l * l + 2 * l,
            l >= 16384,
            (ONE as int) == 65536,
            UNIT_NORM_SQ as int == 65536 * 65536,
            UNIT_NORM_TOL as int == 16384 * 16384,
    ;
}

} // verus!
