//! Integer core of an offline path tracer.
//!
//! - `tiles` and `scheduler`: the partition of the image into work blocks and
//!   the shared queue that hands them to worker threads, with cooperative
//!   cancellation and a completed-block counter.
//! - `aabb` and `bvh`: axis-aligned boxes over order-preserving integer
//!   coordinates, and the bounding volume hierarchy built over them.
//! - `sampling`: the strata of the 2D sampling strategies and the order in
//!   which a sampler hands its samples out.
//! - `perlin`: the permutation tables of Perlin noise.
//! - `image_texture`, `colormap`, `vec3`, `camera`, `generic_handle`: texel
//!   addressing, palettes and small value types.
//!
//! Shading and intersection are floating point and stay with the caller.

pub mod aabb;
pub mod bvh;
pub mod camera;
pub mod colormap;
pub mod generic_handle;
pub mod image_texture;
pub mod perlin;
mod rng;
pub mod sampling;
pub mod scheduler;
pub mod tiles;
pub mod vec3;
