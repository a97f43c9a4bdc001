//! Verified core of a small physically based ray tracer: image buffers,
//! render tiling, bounding volume hierarchy layout and scene settings.

pub mod array2d;
pub mod bvh;
pub mod denoise;
pub mod fileresolver;
pub mod integrators;
pub mod render;
pub mod samplers;
pub mod scene;
pub mod sdf_bvh;
pub mod text;
pub mod texture;
