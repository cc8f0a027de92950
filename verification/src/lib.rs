//! An orbit-camera controller core: per-tick pointer and scroll events are
//! reduced to aggregate deltas, which drive a spherical-coordinate camera that
//! revolves around a fixed focus point and zooms along the view ray.
//!
//! All quantities live on a decimal fixed-point grid (see [`fx::SCALE`]);
//! trigonometry is delegated to an outside fixed-point library behind trusted
//! wrappers, while the aggregation, clamping, zoom and vector logic is
//! verified.
pub mod fx;
pub mod input;
pub mod orbit;
pub mod trig;

pub use input::{ScrollEvent, ScrollUnit, Vec2Fx};
pub use orbit::{OrbitCamera, TransformFx, Vec3Fx};
