//! Per-column ground levels: the core's view of the elevation oracle.
//!
//! The oracle itself (fetching and projecting real elevation data) is
//! an outside concern; the core consumes its answers as plain values: a
//! rectangular grid of levels plus a default for coordinates outside
//! it, and the flag selecting between the elevation-aware and the flat
//! ground algorithm.

use vstd::prelude::*;

use crate::MIN_Y;

verus! {

/// Ground-level lookup for every grid column.
pub struct Ground {
    /// Whether real elevation data drives the terrain algorithm.
    pub elevation_enabled: bool,
    /// `levels[x][z]` is the level of column `(x, z)`.
    pub levels: Vec<Vec<i32>>,
    /// Level of columns outside the grid of `levels`.
    pub default_level: i32,
}

impl Ground {
    /// The level of column `(x, z)`.
    pub open spec fn level_spec(&self, x: int, z: int) -> int {
        if 0 <= x < self.levels@.len() && 0 <= z < self.levels@[x]@.len() {
            self.levels@[x]@[z] as int
        } else {
            self.default_level as int
        }
    }

    /// Levels never lie below the world floor.
    pub open spec fn wf(&self) -> bool {
        &&& self.default_level >= MIN_Y
        &&& forall|x: int, z: int|
            0 <= x < self.levels@.len() && 0 <= z < self.levels@[x]@.len()
                ==> #[trigger] self.levels@[x]@[z] >= MIN_Y
    }

    /// A flat world at one level everywhere.
    pub fn flat(level: i32) -> (g: Ground)
        requires
            level >= MIN_Y,
        ensures
            g.wf(),
            !g.elevation_enabled,
            forall|x: int, z: int| g.level_spec(x, z) == level,
    {
        Ground { elevation_enabled: false, levels: Vec::new(), default_level: level }
    }

    pub fn level(&self, x: i32, z: i32) -> (r: i32)
        ensures
            r as int == self.level_spec(x as int, z as int),
    {
        if x >= 0 && (x as usize) < self.levels.len() {
            let row = &self.levels[x as usize];
            if z >= 0 && (z as usize) < row.len() {
                return row[z as usize];
            }
        }
        self.default_level
    }
}

} // verus!
