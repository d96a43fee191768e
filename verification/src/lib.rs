//! A software rasterization pipeline in fixed-point arithmetic: vector and
//! matrix primitives, a half-space triangle clipper, and a render pass that
//! turns a triangle soup into the screen triangles to draw.
//!
//! Numbers are fixed-point scalars with sixteen fractional bits. Every
//! operation says exactly which number it returns, rounding included, and
//! returns `None` or an error rather than a wrong number when a result
//! cannot be stored.

pub mod scalar;
pub mod vector;
pub mod matrix;
pub mod list;
pub mod clip;
pub mod clip_laws;
pub mod area_laws;
pub mod pipeline;
pub mod pipeline_laws;
pub mod graphics;
pub mod mesh;
pub mod game;
