//! Scene-independent logic of a Monte-Carlo path tracer: bounding boxes and the
//! bounding-volume hierarchy built over them, image texel lookup, lattice noise
//! permutations, render settings and command-line values.

pub mod bounds;
pub mod bvh;
pub mod cli;
pub mod image_map;
pub mod perlin;
pub mod render;
