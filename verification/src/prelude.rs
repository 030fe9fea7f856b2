//! One import for the rig vocabulary an embedding application uses.

pub use crate::driver::Driver;
pub use crate::driver::DriverKind;
pub use crate::driver::RigDriver;
pub use crate::driver::RigDriverTraits;
pub use crate::driver::RigUpdateParams;
pub use crate::drivers_arm::Arm;
pub use crate::drivers_look_at::LookAt;
pub use crate::drivers_position::Position;
pub use crate::drivers_rotation::Rotation;
pub use crate::drivers_yaw_pitch::YawPitch;
pub use crate::handedness::Handedness;
pub use crate::handedness::LeftHanded;
pub use crate::handedness::RightHanded;
pub use crate::math::Quat;
pub use crate::math::Vec3;
pub use crate::rig::CameraRig;
pub use crate::rig::CameraRigBuilder;
pub use crate::transform::Transform;
