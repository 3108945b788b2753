//! Verified core of a signed-distance-field ray marcher.

pub mod application;
pub mod color;
pub mod frame;
pub mod lattice;
pub mod params;
pub mod scalar;
pub mod scene;
pub mod shader;
pub mod shading;
pub mod sierpinski;
pub mod tracer;
