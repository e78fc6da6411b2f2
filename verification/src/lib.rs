//! The combinatorial core of an offline ray tracer.
//!
//! Real numbers are IEEE-754 doubles held by their bit patterns
//! ([`scalar::Scalar`]), so every comparison the renderer makes is decided
//! here exactly as the hardware would decide it, while the arithmetic itself
//! is left to the caller. What the caller computes comes in as plain values;
//! what is decided goes out the same way.
//!
//! * [`aabb`]: bounding boxes, their union, and the slab test.
//! * [`order`] and [`bvh`]: the order of objects along an axis, a stable
//!   sort by it, and the bounding-volume hierarchy built with both; the
//!   traversal of a hierarchy as a sequence of queries and answers.
//! * [`hittable`]: hit records, the flat list and its scan, and what
//!   spheres and the transform wrappers decide.
//! * [`nearest`]: the proof that a hierarchy finds the hit that a linear
//!   scan finds.
//! * [`aarect`], [`triangle`], [`box6`]: the remaining shapes.
//! * [`material`], [`texture`], [`perlin`]: surfaces and what they look
//!   like.
//! * [`color`]: the path of a ray through the scene and its colour.
//! * [`render`]: columns of pixels, their workers, and the picture.
//! * [`rng`]: the seeded generator behind every random choice.

pub mod aabb;
pub mod aarect;
pub mod box6;
pub mod bvh;
pub mod color;
pub mod hittable;
pub mod material;
pub mod nearest;
pub mod order;
pub mod perlin;
pub mod render;
pub mod rng;
pub mod scalar;
pub mod texture;
pub mod triangle;
pub mod vec3;
