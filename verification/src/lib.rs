//! The float-free core of a path tracer.
//!
//! Here are the parts of a renderer that decide rather than compute: the
//! bounding boxes and their unions, the bounding-volume hierarchy and the
//! closest-hit search through it and through a flat list, the tests by
//! which a sphere, a rectangle or a surface accepts what the arithmetic
//! gave, the tables of the noise generator, the texel lookup of an image
//! texture, the bounce budget and the colour of a light path, and the
//! schedule by which the pixels of a frame go to the workers.
//!
//! A binary32 number is carried either inside a vector of the math crate
//! or as its 32-bit pattern, and nothing here does arithmetic on one except
//! through that crate. Intersection and shading arithmetic is the
//! caller's: a search or a path names what is to be worked out next, and
//! the caller hands the outcome back.

pub mod binary32;
pub mod types;
pub mod aabb;
pub mod slab;
pub mod sort;
pub mod bvh;
pub mod walk;
pub mod closest;
pub mod scene;
pub mod obj;
pub mod aarect;
pub mod material;
pub mod util;
pub mod perlin;
pub mod texture;
pub mod render;
pub mod tracer;
