//! Voxel world generation core: classification of tagged geospatial
//! elements, layered ground synthesis, and progress coalescing.

use vstd::prelude::*;

pub mod block;
pub mod generate;
pub mod classify;
pub mod element;
pub mod ground;
pub mod terrain;
pub mod progress;
pub mod world;

verus! {

/// Lowest vertical level of the voxel world.
pub const MIN_Y: i32 = -64;

} // verus!
