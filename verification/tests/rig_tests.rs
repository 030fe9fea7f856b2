use cgmath_dolly::driver::Driver;
use cgmath_dolly::driver::DriverKind;
use cgmath_dolly::drivers_arm::Arm;
use cgmath_dolly::drivers_look_at::LookAt;
use cgmath_dolly::drivers_position::Position;
use cgmath_dolly::drivers_rotation::Rotation;
use cgmath_dolly::drivers_yaw_pitch::YawPitch;
use cgmath_dolly::fixed::ONE;
use cgmath_dolly::math::Quat;
use cgmath_dolly::math::Vec3;
use cgmath_dolly::rig::CameraRig;
use cgmath_dolly::transform::Transform;
use cgmath_dolly::handedness::LeftHanded;
use cgmath_dolly::util::ExpSmoothed;
use cgmath_dolly::util::ExpSmoothingParams;
use cgmath_dolly::trig::cos_fp;
use cgmath_dolly::trig::sin_fp;
use cgmath_dolly::fixed::exp_neg;
use cgmath_dolly::fixed::EXP_CUT;
use cgmath_dolly::fixed::isqrt;

fn deg(d: i64) -> i64 {
    d * ONE
}

#[test]
fn arm_at_identity_parent_offsets_position() {
    // Parent at identity, offset (0, 0, 8): position must be exactly
    // (0, 0, 8) and the rotation must pass through unchanged.
    let rig: CameraRig = CameraRig::builder()
        .with(Driver::Arm(Arm::new(Vec3::new(0, 0, 8 * ONE))))
        .build();
    assert_eq!(rig.final_transform.position, Vec3::new(0, 0, 8 * ONE));
    assert_eq!(rig.final_transform.rotation, Quat { w: ONE, x: 0, y: 0, z: 0 });
}

#[test]
fn yaw_450_is_kept_not_wrapped() {
    let yp = YawPitch::new().yaw_degrees(deg(450));
    assert_eq!(yp.yaw_degrees, deg(450));
}

#[test]
fn pitch_120_clamps_to_90() {
    let yp = YawPitch::new().pitch_degrees(deg(120));
    assert_eq!(yp.pitch_degrees, deg(90));
}

#[test]
fn rotate_yaw_pitch_wraps_modulo_720() {
    let mut yp = YawPitch::new().yaw_degrees(deg(700));
    yp.rotate_yaw_pitch(deg(40), 0);
    assert_eq!(yp.yaw_degrees, deg(20));
}

#[test]
fn rotate_yaw_pitch_clamps_pitch() {
    let mut yp = YawPitch::new().pitch_degrees(deg(80));
    yp.rotate_yaw_pitch(0, deg(30));
    assert_eq!(yp.pitch_degrees, deg(90));
    yp.rotate_yaw_pitch(0, -deg(200));
    assert_eq!(yp.pitch_degrees, -deg(90));
}

#[test]
fn yaw_pitch_round_trip() {
    // Build a rotation from yaw = 30, pitch = 20, read the angles back:
    // they must come back within a small tolerance (roll is zero).
    let mut rig: CameraRig = CameraRig::builder()
        .with(Driver::YawPitch(
            YawPitch::new().yaw_degrees(deg(30)).pitch_degrees(deg(20)),
        ))
        .build();
    let q = rig.update(0).rotation;
    let back = YawPitch::new().rotation_quat(q);
    let tol = ONE / 2; // half a degree of fixed-point tolerance
    assert!((back.yaw_degrees - deg(30)).abs() <= tol, "yaw came back {}", back.yaw_degrees);
    assert!((back.pitch_degrees - deg(20)).abs() <= tol, "pitch came back {}", back.pitch_degrees);
}

#[test]
fn smoother_first_call_snaps_to_target() {
    let mut sm = ExpSmoothed::default();
    let target = Vec3::new(123 * ONE, -7 * ONE, 42);
    let out = sm.exp_smooth_towards(
        &target,
        ExpSmoothingParams {
            smoothness: 3 * ONE,
            output_offset_scale: ONE,
            delta_time_seconds: 5,
        },
    );
    assert_eq!(out, target);
}

#[test]
fn smoother_zero_smoothness_tracks_instantly() {
    let mut sm = ExpSmoothed::default();
    let first = Vec3::new(0, 0, 0);
    let _ = sm.exp_smooth_towards(
        &first,
        ExpSmoothingParams { smoothness: 0, output_offset_scale: ONE, delta_time_seconds: 7 },
    );
    // Now the state lags at the origin; with smoothness 0 the next call
    // must return the new target exactly, whatever the time delta.
    let target = Vec3::new(55 * ONE, 66 * ONE, -77 * ONE);
    for dt in [1i64, 3, 1000, 65536] {
        let out = sm.exp_smooth_towards(
            &target,
            ExpSmoothingParams { smoothness: 0, output_offset_scale: ONE, delta_time_seconds: dt },
        );
        assert_eq!(out, target);
    }
}

#[test]
fn smoother_distance_decreases_monotonically() {
    let mut sm = ExpSmoothed::default();
    let start = Vec3::new(0, 0, 0);
    let _ = sm.exp_smooth_towards(
        &start,
        ExpSmoothingParams { smoothness: ONE, output_offset_scale: ONE, delta_time_seconds: 0 },
    );
    let target = Vec3::new(100 * ONE, 0, 0);
    let dt = ONE / 60; // roughly one frame at 60 fps
    let mut last_gap = 100 * ONE;
    for _ in 0..50 {
        let out = sm.exp_smooth_towards(
            &target,
            ExpSmoothingParams {
                smoothness: ONE,
                output_offset_scale: ONE,
                delta_time_seconds: dt,
            },
        );
        let gap = (out.x - target.x).abs();
        assert!(gap < last_gap, "distance to target must strictly shrink");
        last_gap = gap;
    }
}

#[test]
fn look_at_arm_end_to_end() {
    // rig = [YawPitch(yaw 0), Arm(0, 0, 8), LookAt(origin)]: after build()
    // the camera sits at (0, 0, 8) looking back at the origin.
    let rig: CameraRig = CameraRig::builder()
        .with(Driver::YawPitch(YawPitch::new()))
        .with(Driver::Arm(Arm::new(Vec3::new(0, 0, 8 * ONE))))
        .with(Driver::LookAt(LookAt::new(Vec3::new(0, 0, 0))))
        .build();
    assert_eq!(rig.final_transform.position, Vec3::new(0, 0, 8 * ONE));
    let fwd = rig.final_transform.forward();
    assert_eq!(fwd, Vec3::new(0, 0, -ONE));
}

#[test]
fn build_produces_valid_final_transform() {
    // The builder's single zero-delta update must leave a non-identity
    // final transform without any explicit update call.
    let rig: CameraRig = CameraRig::builder()
        .with(Driver::Position(Position::new(Vec3::new(ONE, 2 * ONE, 3 * ONE))))
        .build();
    assert_eq!(rig.final_transform.position, Vec3::new(ONE, 2 * ONE, 3 * ONE));
}

#[test]
fn update_twice_with_zero_dt_is_stable() {
    let mut rig: CameraRig = CameraRig::builder()
        .with(Driver::YawPitch(YawPitch::new().yaw_degrees(deg(45))))
        .with(Driver::Arm(Arm::new(Vec3::new(0, 0, 8 * ONE))))
        .with(Driver::LookAt(LookAt::new(Vec3::new(0, ONE, 0))))
        .build();
    let t1 = rig.update(0);
    let t2 = rig.update(0);
    assert_eq!(t1.position, t2.position);
    assert_eq!(t1.rotation, t2.rotation);
}

#[test]
fn position_passes_rotation_through() {
    let mut rig: CameraRig = CameraRig::builder()
        .with(Driver::YawPitch(YawPitch::new().yaw_degrees(deg(90))))
        .with(Driver::Position(Position::new(Vec3::new(5 * ONE, 0, 0))))
        .build();
    let t = rig.update(0);
    assert_eq!(t.position, Vec3::new(5 * ONE, 0, 0));
    // rotation comes from the YawPitch stage, not the identity
    assert_ne!(t.rotation, Quat { w: ONE, x: 0, y: 0, z: 0 });
}

#[test]
fn rotation_driver_sets_rotation() {
    let q = Quat { w: 0, x: 0, y: ONE, z: 0 };
    let mut rig: CameraRig = CameraRig::builder()
        .with(Driver::Position(Position::new(Vec3::new(ONE, ONE, ONE))))
        .with(Driver::Rotation(Rotation::new(q)))
        .build();
    let t = rig.update(0);
    assert_eq!(t.rotation, q);
    assert_eq!(t.position, Vec3::new(ONE, ONE, ONE));
}

#[test]
fn empty_rig_degenerates_to_identity() {
    let mut rig: CameraRig = CameraRig::builder().build();
    let t = rig.update(1000);
    assert_eq!(t.position, Vec3::new(0, 0, 0));
    assert_eq!(t.rotation, Quat { w: ONE, x: 0, y: 0, z: 0 });
}

#[test]
fn driver_lookup_finds_first_match() {
    let mut rig: CameraRig = CameraRig::builder()
        .with(Driver::Position(Position::new(Vec3::new(ONE, 0, 0))))
        .with(Driver::Position(Position::new(Vec3::new(2 * ONE, 0, 0))))
        .build();
    match rig.try_driver_mut(DriverKind::Position) {
        Some(Driver::Position(p)) => assert_eq!(p.position, Vec3::new(ONE, 0, 0)),
        _ => panic!("expected a position driver"),
    }
    assert!(rig.try_driver_mut(DriverKind::LookAt).is_none());
}

#[test]
fn driver_mut_feeds_input_between_frames() {
    let mut rig: CameraRig = CameraRig::builder()
        .with(Driver::YawPitch(YawPitch::new()))
        .with(Driver::Arm(Arm::new(Vec3::new(0, 0, 8 * ONE))))
        .build();
    match rig.driver_mut(DriverKind::YawPitch) {
        Driver::YawPitch(yp) => yp.rotate_yaw_pitch(deg(90), 0),
        _ => panic!("expected the yaw/pitch driver"),
    }
    let t = rig.update(0);
    // After a quarter turn of yaw the 8-unit boom points along +X.
    assert!((t.position.x - 8 * ONE).abs() < ONE / 16, "x was {}", t.position.x);
    assert!(t.position.z.abs() < ONE / 16, "z was {}", t.position.z);
}

#[test]
fn sine_is_exact_at_table_angles() {
    assert_eq!(sin_fp(0), 0);
    assert_eq!(sin_fp(deg(30)), ONE / 2);
    assert_eq!(sin_fp(deg(90)), ONE);
    assert_eq!(sin_fp(deg(150)), ONE / 2);
    assert_eq!(sin_fp(deg(180)), 0);
    assert_eq!(sin_fp(deg(270)), -ONE);
    assert_eq!(cos_fp(deg(60)), ONE / 2);
    assert_eq!(cos_fp(0), ONE);
    assert_eq!(sin_fp(-deg(90)), -ONE);
}

#[test]
fn exp_decay_ends_are_exact() {
    assert_eq!(exp_neg(0), ONE);
    assert_eq!(exp_neg(EXP_CUT), 0);
    let mid = exp_neg(EXP_CUT / 8); // exp(-1) in Q16.16
    assert!((mid - 24109).abs() < 800, "exp(-1) approximated as {}", mid);
}

#[test]
fn isqrt_brackets_the_root() {
    assert_eq!(isqrt(0), 0);
    assert_eq!(isqrt(1), 1);
    assert_eq!(isqrt(15), 3);
    assert_eq!(isqrt(16), 4);
    assert_eq!(isqrt(1 << 84), 1 << 42);
}

#[test]
fn translate_moves_position() {
    let mut p = Position::new(Vec3::new(ONE, 0, 0));
    p.translate(Vec3::new(ONE, ONE, 0));
    assert_eq!(p.position, Vec3::new(2 * ONE, ONE, 0));
}

#[test]
fn predictive_look_at_leads_the_target() {
    let mut sm = ExpSmoothed::default();
    let _ = sm.exp_smooth_towards(
        &Vec3::new(0, 0, 0),
        ExpSmoothingParams { smoothness: ONE, output_offset_scale: -ONE, delta_time_seconds: 0 },
    );
    let target = Vec3::new(100 * ONE, 0, 0);
    let out = sm.exp_smooth_towards(
        &target,
        ExpSmoothingParams {
            smoothness: ONE,
            output_offset_scale: -ONE,
            delta_time_seconds: ONE / 60,
        },
    );
    // The lagged value is short of the target, so the predictive output
    // must overshoot past it.
    assert!(out.x > target.x, "predictive output was {}", out.x);
}

#[test]
fn left_handed_forward_points_along_positive_z() {
    let rig: CameraRig<LeftHanded> = CameraRig::builder()
        .with(Driver::YawPitch(YawPitch::new()))
        .build();
    let fwd = rig.final_transform.forward();
    assert_eq!(fwd, Vec3::new(0, 0, ONE));
}

#[test]
fn transform_identity_round_trips_parts() {
    let t: Transform<cgmath_dolly::handedness::RightHanded> =
        Transform::from_position_rotation(Vec3::new(ONE, 0, 0), Quat { w: ONE, x: 0, y: 0, z: 0 });
    let (p, q) = t.into_position_rotation();
    assert_eq!(p, Vec3::new(ONE, 0, 0));
    assert_eq!(q, Quat { w: ONE, x: 0, y: 0, z: 0 });
}

#[test]
fn vector_sum_and_zero() {
    let a = Vec3::new(ONE, -2 * ONE, 3);
    let b = Vec3::new(ONE, ONE, -3);
    assert_eq!(a.plus(b), Vec3::new(2 * ONE, -ONE, 0));
    assert_eq!(Vec3::zero().plus(a), a);
    assert_eq!(a.minus(a), Vec3::zero());
}

#[test]
fn default_rotation_is_identity() {
    let r = Rotation::default();
    assert_eq!(r.rotation, Quat { w: ONE, x: 0, y: 0, z: 0 });
}

#[test]
fn pipeline_rotations_stay_near_unit() {
    // Whatever the angles and target, every rotation the rig hands out
    // has a squared norm within the stated band around ONE^2.
    let mut rig: CameraRig = CameraRig::builder()
        .with(Driver::YawPitch(YawPitch::new().yaw_degrees(37 * ONE).pitch_degrees(-12 * ONE)))
        .with(Driver::Arm(Arm::new(Vec3::new(ONE, 2 * ONE, 8 * ONE))))
        .with(Driver::LookAt(LookAt::new(Vec3::new(3 * ONE, -ONE, 0))))
        .build();
    for _ in 0..5 {
        let q = rig.update(ONE / 60).rotation;
        let n = q.w * q.w + q.x * q.x + q.y * q.y + q.z * q.z;
        let band = 16384i64 * 16384;
        assert!(
            (n - ONE * ONE).abs() <= band,
            "squared norm {} strayed from ONE^2",
            n
        );
    }
}
