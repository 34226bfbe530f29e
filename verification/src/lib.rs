//! Verified core of a small physically based path tracer: the integer and
//! structural rules that decide how work is split, how scene parameters are
//! read, how pixel samples are enumerated and how acceleration trees are laid out.
pub mod image_range;
pub mod scatter_type;
pub mod error;
pub mod params;
pub mod material;
pub mod resources;
pub mod pixel_sampler;
pub mod renderer;
pub mod bvh;
pub mod primitive;
pub mod sampler;
pub mod medium;
pub mod instance;
