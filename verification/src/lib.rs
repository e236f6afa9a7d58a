//! A progressive path-tracing renderer over exact fixed-point arithmetic.
//!
//! Scene geometry, shading and the per-pixel accumulation scheme are all
//! written against a scaled-integer number model (units of 1/65536), so every
//! arithmetic step of the renderer has an exact mathematical meaning and a
//! proved contract.

pub mod fixed;
pub mod vec3;
pub mod color;
pub mod primitives;
pub mod scene;
pub mod tracer;
