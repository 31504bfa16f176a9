//! Renderer-side CPU logic: lightmap entries, GPU upload staging and frame
//! flattening, and small sizing/packing helpers of the GPU passes.

pub mod frame;
pub mod lightmap;
pub mod textures;
pub mod upload;
