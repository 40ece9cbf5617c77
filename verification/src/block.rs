//! Block kinds that the ground synthesis core places or recognises.

use vstd::prelude::*;

verus! {

/// One voxel block kind.
///
/// The core itself only places the five named terrain kinds; structure
/// generators may place any kind, including `Other` kinds the core does
/// not interpret.
#[derive(Clone, Copy, PartialEq, Eq, Structural, Debug)]
pub enum Block {
    Grass,
    Snow,
    Dirt,
    Stone,
    Bedrock,
    Other(u32),
}

} // verus!
