//! Rendering-core building blocks with machine-checked contracts: hashing,
//! random numbers, index permutations, samplers, image tiles and raster
//! buffers, the tables of shapes, the two bounding-volume hierarchies, and
//! the reading of scene descriptions.

pub mod bvh;
pub mod bvh_up;
pub mod color;
pub mod filter;
pub mod hash;
pub mod json;
pub mod lights;
pub mod materials;
pub mod math;
pub mod pbrt_v4;
pub mod pbrt_v4_tokenizer;
pub mod ray;
pub mod rgb;
pub mod rng;
pub mod samplers;
pub mod scene;
pub mod shapes;
pub mod tags;
pub mod tile;
