//! CPU meshing: packed quad / vertex formats, the greedy rectangle merge, the
//! greedy mesher, and the GPU-facing layouts of its output.

pub mod block;
pub mod greedy;
pub mod merge;
pub mod merge_unique;
pub mod occupancy;
pub mod packed_quad;
pub mod plane;
pub mod schedule;
pub mod visbuf;
