//! Strata voxel engine core: packed mesh formats, the greedy mesher, the
//! visibility-buffer entry layout, the sector storage envelope and region
//! file image format, deduplication, dirty tracking, and the save envelope.

pub mod meshing;
pub mod player;
pub mod render;
pub mod save;
pub mod storage;
