//! Core of a voxel navigation-mesh generator: the pipeline stages that
//! turn a voxelized world into a walkable surface ready for region
//! partitioning, and the tiled orchestrator that runs them per tile,
//! sequentially or on parallel worker threads.
//!
//! The library works entirely in voxel units. A heightfield (per-column
//! solid spans) becomes a compact heightfield of walkable spans with
//! two-way neighbor links; erosion shrinks the walkable area by the
//! agent radius; convex volumes relabel the spans under them; and the
//! two-pass chamfer transform with a box blur yields the distance field
//! that seeds watershed partitioning. Converting world-space geometry
//! into voxels is floating-point work that callers do outside the
//! library.
//!
//! Every stage carries a contract that pins its result, and the
//! `determinism` module proves the generation laws on top of them: the
//! surface invariants of construction, and that sequential and parallel
//! runs return the same tiles.

pub mod area;
pub mod math;
pub mod compact;
pub mod heightfield;
pub mod connect;
pub mod distance;
pub mod erosion;
pub mod mark;
pub mod determinism;
pub mod report;
pub mod tiles;
