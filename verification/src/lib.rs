//! A camera-rig composition engine over exact fixed-point arithmetic.
//!
//! A rig is an ordered chain of drivers; every frame, `CameraRig::update`
//! folds the chain, threading each driver's output transform into the next
//! driver as its parent, and caches the final transform for the renderer.
//! All coordinates and angles are Q16.16 fixed-point values held in `i64`,
//! so every formula in the pipeline is stated and proved exactly.

pub mod fixed;
pub mod math;
pub mod trig;
pub mod handedness;
pub mod transform;
pub mod util;
pub mod driver;
pub mod drivers_position;
pub mod drivers_rotation;
pub mod drivers_arm;
pub mod drivers_yaw_pitch;
pub mod drivers_look_at;
pub mod rig;
pub mod prelude;
