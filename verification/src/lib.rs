//! Adaptive spatial subdivision over integer coordinates: a quadtree point
//! index, an octree region classifier with Boolean composition, and a mesh
//! extracting octree that links boundary cells to their face neighbours and
//! emits a surface-net style triangulation.

pub mod arith;
pub mod corner;
pub mod octree;
pub mod quadtree;
pub mod range;
pub mod shape;
pub mod surface;
pub mod vec3;
