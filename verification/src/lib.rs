//! Core of a streaming, block-based voxel world: chunk addressing, ray/voxel
//! traversal, octahedral zone distances, chunk streaming, edit application and
//! swept box collision, all over exact fixed-point arithmetic.

pub mod fixed;
pub mod octahedron;
pub mod physics;
pub mod ray_travel;
pub mod spacial;
pub mod swizzle;
pub mod terrain;
