//! Integer logic of a tile-based 3D renderer: line walking, tile grids and binning,
//! polygon clipping decisions, frame counting and GPU buffer layout.

use vstd::prelude::*;

pub mod active_renderer;
pub mod binning;
pub mod clip;
pub mod cube;
pub mod fps;
pub mod gpu_layout;
pub mod line;
pub mod raster_renderer;
pub mod renderer_choice;
pub mod scene_objects;
pub mod scene_settings;
pub mod texture;
pub mod tile;
pub mod triangle;

verus! {

} // verus!
