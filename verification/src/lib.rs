//! Voxel world logic: chunk storage, world bookkeeping, terrain decoration,
//! face culling for meshing, collision queries and input state.

pub mod geometry;
pub mod voxel;
pub mod chunk;
pub mod generator;
pub mod world;
pub mod seqs;
pub mod rng;
pub mod biomes;
pub mod mesh;
pub mod collision;
pub mod input;
pub mod ecs;
