//! Ground synthesis: the layered terrain written beneath every grid
//! column after structure generation has run.
//!
//! Two algorithms, selected by the ground's `elevation_enabled` flag:
//!
//! * elevation-aware: per column, scan upward from the world floor for
//!   the first cell a structure already occupies, seat the surface
//!   there (never above the column's target level), lay two subsurface
//!   filler cells beneath it, optionally fill the remaining depth with
//!   stone over a bedrock floor, and finally guarantee a flat spawn
//!   platform;
//! * flat: per column, write the surface at the oracle level and one
//!   filler cell below it.
//!
//! A structure built above the target level is deliberately invisible
//! to the upward scan: the scan is capped at the target so a missing
//! structure can never send it hunting upward without bound.

use vstd::prelude::*;

use crate::block::Block;
use crate::ground::Ground;
use crate::progress::{lemma_percent_le_trans, ConsoleBatcher, ConsoleSink, GuiSignal, PhaseProgress, ProgressSink};
use crate::world::{cell_of, filled_cell, may_place, unchanged_cell, VoxelWorld};
use crate::MIN_Y;

verus! {

/// Largest `x`/`z` coordinate of the flattened spawn region.
pub const SPAWN_MAX: i32 = 20;

/// Level at which the spawn region is flattened.
pub const SPAWN_Y: i32 = -62;

/// Column `(x, z)` lies in the swept grid.
pub open spec fn in_grid(x: int, z: int, scale_x: int, scale_z: int) -> bool {
    0 <= x <= scale_x && 0 <= z <= scale_z
}

/// Cell `q` belongs to the flattened spawn platform.
pub open spec fn in_spawn(q: (int, int, int)) -> bool {
    0 <= q.0 <= SPAWN_MAX && q.1 == SPAWN_Y && 0 <= q.2 <= SPAWN_MAX
}

/// First occupied level of column `(x, z)` scanning upward from `y`,
/// or `target` when none lies below it.
pub open spec fn spec_top_from(
    m: Map<(int, int, int), Block>,
    x: int,
    z: int,
    y: int,
    target: int,
) -> int
    decreases target - y,
{
    if y >= target {
        target
    } else if m.contains_key((x, y, z)) {
        y
    } else {
        spec_top_from(m, x, z, y + 1, target)
    }
}

/// The level at which the surface of column `(x, z)` seats: the first
/// occupied cell at or above the world floor, capped at `target`.
pub open spec fn spec_top(m: Map<(int, int, int), Block>, x: int, z: int, target: int) -> int {
    spec_top_from(m, x, z, MIN_Y as int, target)
}

proof fn lemma_top_from_props(m: Map<(int, int, int), Block>, x: int, z: int, y: int, target: int)
    requires
        y <= target,
    ensures
        y <= spec_top_from(m, x, z, y, target) <= target,
        spec_top_from(m, x, z, y, target) < target ==> m.contains_key(
            (x, spec_top_from(m, x, z, y, target), z),
        ),
        forall|j: int|
            y <= j < spec_top_from(m, x, z, y, target) ==> !m.contains_key((x, j, z)),
    decreases target - y,
{
    if y < target && !m.contains_key((x, y, z)) {
        lemma_top_from_props(m, x, z, y + 1, target);
    }
}

/// The existing-block search never seats the surface above the
/// column's target level, and seats it exactly at the target when no
/// structure lies below the target.
pub proof fn lemma_top_properties(m: Map<(int, int, int), Block>, x: int, z: int, target: int)
    ensures
        spec_top(m, x, z, target) <= target,
        spec_top(m, x, z, target) < target ==> MIN_Y <= spec_top(m, x, z, target)
            && m.contains_key((x, spec_top(m, x, z, target), z)),
        (forall|j: int| MIN_Y <= j < target ==> !m.contains_key((x, j, z))) ==> spec_top(
            m,
            x,
            z,
            target,
        ) == target,
{
    if target < MIN_Y {
    } else {
        lemma_top_from_props(m, x, z, MIN_Y as int, target);
    }
}

/// An existing-block search that agrees with another buffer on the
/// whole column gives the same answer.
proof fn lemma_top_congruence(
    m0: Map<(int, int, int), Block>,
    m1: Map<(int, int, int), Block>,
    x: int,
    z: int,
    y: int,
    target: int,
)
    requires
        forall|yy: int| #[trigger]
            m1.contains_key((x, yy, z)) == m0.contains_key((x, yy, z)),
    ensures
        spec_top_from(m1, x, z, y, target) == spec_top_from(m0, x, z, y, target),
    decreases target - y,
{
    if y < target {
        assert(m1.contains_key((x, y, z)) == m0.contains_key((x, y, z)));
        lemma_top_congruence(m0, m1, x, z, y + 1, target);
    }
}

/// A cell after a write that keeps what was already there: the old
/// occupant if any, else the written kind.
pub open spec fn soft(c: Option<Block>, kind: Block) -> Option<Block> {
    match c {
        Some(b) => Some(b),
        None => Some(kind),
    }
}

/// The contents of cell `(x, y, z)` after the elevation-aware
/// algorithm has layered column `(x, z)`, whose surface seats at `t`,
/// over the buffer `m0`.
pub open spec fn column_cell_after(
    m0: Map<(int, int, int), Block>,
    x: int,
    z: int,
    t: int,
    surface: Block,
    fillground: bool,
    y: int,
) -> Option<Block> {
    if fillground && y == MIN_Y {
        Some(Block::Bedrock)
    } else if y == t {
        soft(cell_of(m0, (x, y, z)), surface)
    } else if y == t - 1 || y == t - 2 {
        soft(cell_of(m0, (x, y, z)), Block::Dirt)
    } else if fillground && MIN_Y + 1 <= y <= t - 3 {
        soft(cell_of(m0, (x, y, z)), Block::Stone)
    } else {
        cell_of(m0, (x, y, z))
    }
}

/// The contents of cell `(x, y, z)` after the flat algorithm has
/// handled column `(x, z)` at level `lvl`.
pub open spec fn flat_cell_after(
    m0: Map<(int, int, int), Block>,
    x: int,
    z: int,
    lvl: int,
    surface: Block,
    y: int,
) -> Option<Block> {
    if y == lvl {
        soft(cell_of(m0, (x, y, z)), surface)
    } else if y == lvl - 1 {
        soft(cell_of(m0, (x, y, z)), Block::Dirt)
    } else {
        cell_of(m0, (x, y, z))
    }
}

/// The contents of cell `q` after the whole elevation-aware pass
/// (column layering over the grid, then spawn flattening).
pub open spec fn elevation_cell_after(
    m0: Map<(int, int, int), Block>,
    g: Ground,
    scale_x: int,
    scale_z: int,
    surface: Block,
    fillground: bool,
    q: (int, int, int),
) -> Option<Block> {
    let base = if in_grid(q.0, q.2, scale_x, scale_z) {
        column_cell_after(
            m0,
            q.0,
            q.2,
            spec_top(m0, q.0, q.2, g.level_spec(q.0, q.2)),
            surface,
            fillground,
            q.1,
        )
    } else {
        cell_of(m0, q)
    };
    if in_spawn(q) {
        soft(base, surface)
    } else {
        base
    }
}

/// The contents of cell `q` after the whole flat pass.
pub open spec fn flat_cell_after_grid(
    m0: Map<(int, int, int), Block>,
    g: Ground,
    scale_x: int,
    scale_z: int,
    surface: Block,
    q: (int, int, int),
) -> Option<Block> {
    if in_grid(q.0, q.2, scale_x, scale_z) {
        flat_cell_after(m0, q.0, q.2, g.level_spec(q.0, q.2), surface, q.1)
    } else {
        cell_of(m0, q)
    }
}

/// `w` is, cell for cell, the result of the elevation-aware pass run
/// over some buffer `m0`.
pub open spec fn is_elevation_result(
    w: Map<(int, int, int), Block>,
    m0: Map<(int, int, int), Block>,
    g: Ground,
    scale_x: int,
    scale_z: int,
    surface: Block,
    fillground: bool,
) -> bool {
    forall|q: (int, int, int)|
        #[trigger] cell_of(w, q) == elevation_cell_after(
            m0,
            g,
            scale_x,
            scale_z,
            surface,
            fillground,
            q,
        )
}

/// `w` is, cell for cell, the result of the flat pass run over some
/// buffer `m0`.
pub open spec fn is_flat_result(
    w: Map<(int, int, int), Block>,
    m0: Map<(int, int, int), Block>,
    g: Ground,
    scale_x: int,
    scale_z: int,
    surface: Block,
) -> bool {
    forall|q: (int, int, int)|
        #[trigger] cell_of(w, q) == flat_cell_after_grid(m0, g, scale_x, scale_z, surface, q)
}

/// Every column keeps at least a surface and two subsurface cells
/// occupied after elevation-aware layering.
pub proof fn lemma_column_occupied(
    m0: Map<(int, int, int), Block>,
    x: int,
    z: int,
    t: int,
    surface: Block,
    fillground: bool,
)
    ensures
        column_cell_after(m0, x, z, t, surface, fillground, t) is Some,
        column_cell_after(m0, x, z, t, surface, fillground, t - 1) is Some,
        column_cell_after(m0, x, z, t, surface, fillground, t - 2) is Some,
{
}

/// Every column keeps a surface and a subsurface cell occupied after
/// flat layering.
pub proof fn lemma_flat_column_occupied(
    m0: Map<(int, int, int), Block>,
    x: int,
    z: int,
    lvl: int,
    surface: Block,
)
    ensures
        flat_cell_after(m0, x, z, lvl, surface, lvl) is Some,
        flat_cell_after(m0, x, z, lvl, surface, lvl - 1) is Some,
{
}

/// With underground fill disabled, nothing below the subsurface cells
/// of a column is touched.
pub proof fn lemma_no_fill_below(
    m0: Map<(int, int, int), Block>,
    x: int,
    z: int,
    t: int,
    surface: Block,
    y: int,
)
    requires
        y != t,
        y != t - 1,
        y != t - 2,
    ensures
        column_cell_after(m0, x, z, t, surface, false, y) == cell_of(m0, (x, y, z)),
{
}

/// With underground fill enabled the floor cell ends as bedrock, and a
/// floor cell that already was bedrock is left exactly as it was.
pub proof fn lemma_floor_bedrock(
    m0: Map<(int, int, int), Block>,
    x: int,
    z: int,
    t: int,
    surface: Block,
)
    ensures
        column_cell_after(m0, x, z, t, surface, true, MIN_Y as int) == Some(Block::Bedrock),
        cell_of(m0, (x, MIN_Y as int, z)) == Some(Block::Bedrock) ==> column_cell_after(
            m0,
            x,
            z,
            t,
            surface,
            true,
            MIN_Y as int,
        ) == cell_of(m0, (x, MIN_Y as int, z)),
{
}

/// The spawn platform is occupied at the spawn level after the
/// elevation-aware pass, whatever the terrain computed.
pub proof fn lemma_spawn_platform(
    m0: Map<(int, int, int), Block>,
    g: Ground,
    scale_x: int,
    scale_z: int,
    surface: Block,
    fillground: bool,
    q: (int, int, int),
)
    requires
        in_spawn(q),
    ensures
        elevation_cell_after(m0, g, scale_x, scale_z, surface, fillground, q) is Some,
{
}

proof fn lemma_seq_single_contains(s: Seq<Block>, b: Block)
    requires
        s.len() == 1,
    ensures
        s.contains(b) <==> s[0] == b,
{
    if s[0] == b {
        assert(s.contains(b));
    }
    if s.contains(b) {
        let i = choose|i: int| 0 <= i < s.len() && s[i] == b;
        assert(i == 0);
    }
}

/// The upward scan of the elevation-aware algorithm.
pub fn find_top_y(world: &VoxelWorld, x: i32, z: i32, target: i32) -> (top: i32)
    ensures
        top as int == spec_top(world@, x as int, z as int, target as int),
{
    if target <= MIN_Y {
        return target;
    }
    let mut y = MIN_Y;
    while y < target
        invariant
            MIN_Y <= y <= target,
            spec_top(world@, x as int, z as int, target as int) == spec_top_from(
                world@,
                x as int,
                z as int,
                y as int,
                target as int,
            ),
        decreases target - y,
    {
        if world.block_at(x, y, z) {
            return y;
        }
        y = y + 1;
    }
    target
}

/// Layer one column of elevation-aware terrain: surface at the seat
/// level, two filler cells below it, and, when fill is enabled, stone
/// down to above the floor and a bedrock floor that never replaces
/// existing bedrock.
pub fn layer_column(
    world: &mut VoxelWorld,
    x: i32,
    z: i32,
    target: i32,
    surface: Block,
    fillground: bool,
)
    requires
        target >= MIN_Y,
    ensures
        forall|q: (int, int, int)|
            (q.0 == x && q.2 == z) ==> cell_of(final(world)@, q) == column_cell_after(
                old(world)@,
                x as int,
                z as int,
                spec_top(old(world)@, x as int, z as int, target as int),
                surface,
                fillground,
                q.1,
            ),
        forall|q: (int, int, int)|
            !(q.0 == x && q.2 == z) ==> unchanged_cell(old(world)@, final(world)@, q),
{
    let ghost m0 = world@;
    let top = find_top_y(world, x, z, target);
    proof {
        lemma_top_properties(m0, x as int, z as int, target as int);
    }
    let ghost t = top as int;
    let ghost xi = x as int;
    let ghost zi = z as int;
    world.set_block(surface, x, top, z, None, None);
    let ghost m1 = world@;
    world.set_block(Block::Dirt, x, top - 1, z, None, None);
    let ghost m2 = world@;
    world.set_block(Block::Dirt, x, top - 2, z, None, None);
    let ghost m3 = world@;
    proof {
        assert forall|q: (int, int, int)|
            !(q.0 == xi && q.2 == zi) implies unchanged_cell(m0, m3, q) by {
            assert(unchanged_cell(m0, m1, q));
            assert(unchanged_cell(m1, m2, q));
            assert(unchanged_cell(m2, m3, q));
        }
    }
    if fillground {
        world.fill_blocks(Block::Stone, x, MIN_Y + 1, z, x, top - 2, z, None, None);
        let ghost m4 = world@;
        let mut bedrock_only: Vec<Block> = Vec::new();
        bedrock_only.push(Block::Bedrock);
        world.set_block(Block::Bedrock, x, MIN_Y, z, None, Some(bedrock_only.as_slice()));
        proof {
            let ghost bl = bedrock_only@;
            assert forall|b: Block| bl.contains(b) == (b == Block::Bedrock) by {
                lemma_seq_single_contains(bl, b);
            }
            let cf = (xi, MIN_Y as int, zi);
            let ct = (xi, t, zi);
            let ct1 = (xi, t - 1, zi);
            let ct2 = (xi, t - 2, zi);
            assert forall|q: (int, int, int)| (q.0 == xi && q.2 == zi) implies cell_of(world@, q)
                == column_cell_after(m0, xi, zi, t, surface, true, q.1) by {
                let y = q.1;
                assert(q == (xi, y, zi));
                if y == MIN_Y {
                    // the bedrock floor write, filtered so bedrock is
                    // never replaced
                    assert(cell_of(world@, cf) == Some(Block::Bedrock));
                } else {
                    assert(q != cf);
                    assert(unchanged_cell(m4, world@, q));
                    if y == t {
                        assert(cell_of(m1, q) == soft(cell_of(m0, q), surface));
                        assert(unchanged_cell(m1, m3, q));
                        assert(unchanged_cell(m3, m4, q));
                    } else if y == t - 1 {
                        assert(unchanged_cell(m0, m1, q));
                        assert(cell_of(m2, q) == soft(cell_of(m0, q), Block::Dirt));
                        assert(unchanged_cell(m2, m3, q));
                        assert(unchanged_cell(m3, m4, q));
                    } else if y == t - 2 {
                        assert(unchanged_cell(m0, m2, q));
                        assert(cell_of(m3, q) == soft(cell_of(m0, q), Block::Dirt));
                        crate::world::lemma_place_occupies(m2, Block::Dirt, ct2, None, None);
                        if MIN_Y + 1 <= y <= t - 2 {
                            assert(filled_cell(m3, m4, q, Block::Stone, None, None));
                            assert(!may_place(m3, q, None, None));
                            assert(unchanged_cell(m3, m4, q));
                        } else {
                            assert(unchanged_cell(m3, m4, q));
                        }
                    } else if MIN_Y + 1 <= y <= t - 3 {
                        assert(unchanged_cell(m0, m3, q));
                        assert(filled_cell(m3, m4, q, Block::Stone, None, None));
                        crate::world::lemma_fill_cell_congruence(
                            m0,
                            m3,
                            m4,
                            q,
                            Block::Stone,
                            None,
                            None,
                        );
                        assert(cell_of(m4, q) == soft(cell_of(m0, q), Block::Stone));
                    } else {
                        assert(unchanged_cell(m0, m3, q));
                        assert(unchanged_cell(m3, m4, q));
                    }
                }
            }
            assert forall|q: (int, int, int)|
                !(q.0 == xi && q.2 == zi) implies unchanged_cell(m0, world@, q) by {
                assert(unchanged_cell(m0, m3, q));
                assert(unchanged_cell(m3, m4, q));
                assert(q != cf);
                assert(unchanged_cell(m4, world@, q));
            }
        }
    } else {
        proof {
            assert forall|q: (int, int, int)| (q.0 == xi && q.2 == zi) implies cell_of(world@, q)
                == column_cell_after(m0, xi, zi, t, surface, false, q.1) by {
                let y = q.1;
                assert(q == (xi, y, zi));
                if y == t {
                    assert(cell_of(m1, q) == soft(cell_of(m0, q), surface));
                    assert(unchanged_cell(m1, m3, q));
                } else if y == t - 1 {
                    assert(unchanged_cell(m0, m1, q));
                    assert(cell_of(m2, q) == soft(cell_of(m0, q), Block::Dirt));
                    assert(unchanged_cell(m2, m3, q));
                } else if y == t - 2 {
                    assert(unchanged_cell(m0, m2, q));
                    assert(cell_of(m3, q) == soft(cell_of(m0, q), Block::Dirt));
                } else {
                    assert(unchanged_cell(m0, m3, q));
                }
            }
        }
    }
}

/// Layer one column of flat terrain: surface at the oracle level and
/// one filler cell below it.
pub fn layer_flat_column(world: &mut VoxelWorld, x: i32, z: i32, lvl: i32, surface: Block)
    requires
        lvl >= MIN_Y,
    ensures
        forall|q: (int, int, int)|
            (q.0 == x && q.2 == z) ==> cell_of(final(world)@, q) == flat_cell_after(
                old(world)@,
                x as int,
                z as int,
                lvl as int,
                surface,
                q.1,
            ),
        forall|q: (int, int, int)|
            !(q.0 == x && q.2 == z) ==> unchanged_cell(old(world)@, final(world)@, q),
{
    let ghost m0 = world@;
    let ghost xi = x as int;
    let ghost zi = z as int;
    let ghost l = lvl as int;
    world.set_block(surface, x, lvl, z, None, None);
    let ghost m1 = world@;
    world.set_block(Block::Dirt, x, lvl - 1, z, None, None);
    proof {
        assert forall|q: (int, int, int)| (q.0 == xi && q.2 == zi) implies cell_of(world@, q)
            == flat_cell_after(m0, xi, zi, l, surface, q.1) by {
            let y = q.1;
            assert(q == (xi, y, zi));
            if y == l {
                assert(cell_of(m1, q) == soft(cell_of(m0, q), surface));
            } else if y == l - 1 {
                assert(unchanged_cell(m0, m1, q));
                assert(cell_of(world@, q) == soft(cell_of(m1, q), Block::Dirt));
            } else {
                assert(unchanged_cell(m0, m1, q));
            }
        }
        assert forall|q: (int, int, int)|
            !(q.0 == xi && q.2 == zi) implies unchanged_cell(m0, world@, q) by {
            assert(unchanged_cell(m0, m1, q));
        }
    }
}

/// Flatten the fixed spawn platform to the surface block, keeping any
/// cell a structure or the terrain already occupies.
pub fn flatten_spawn(world: &mut VoxelWorld, surface: Block)
    ensures
        forall|q: (int, int, int)|
            in_spawn(q) ==> cell_of(final(world)@, q) == soft(cell_of(old(world)@, q), surface),
        forall|q: (int, int, int)|
            !in_spawn(q) ==> unchanged_cell(old(world)@, final(world)@, q),
{
    let ghost m0 = world@;
    world.fill_blocks(surface, 0, SPAWN_Y, 0, SPAWN_MAX, SPAWN_Y, SPAWN_MAX, None, None);
    proof {
        assert forall|q: (int, int, int)| in_spawn(q) implies cell_of(world@, q) == soft(
            cell_of(m0, q),
            surface,
        ) by {
            assert(filled_cell(m0, world@, q, surface, None, None));
        }
    }
}

/// One full row (`x` fixed) of the elevation-aware ground sweep,
/// advancing both progress channels one unit per column.
fn layer_ground_row<C: ConsoleSink, N: ProgressSink>(
    world: &mut VoxelWorld,
    ground: &Ground,
    x: i32,
    scale_z: i32,
    surface: Block,
    fillground: bool,
    batcher: &mut ConsoleBatcher,
    console: &mut C,
    phase: &mut PhaseProgress,
    signal: &mut GuiSignal,
    notify: &mut N,
)
    requires
        0 <= scale_z,
        ground.wf(),
        old(batcher).wf(),
        old(batcher).count + scale_z + 1 <= old(batcher).total,
        old(phase).wf(),
        old(phase).done + scale_z + 1 <= old(phase).units,
        old(signal).wf(),
        old(signal).last_emitted().le(old(phase).emitted_floor()),
    ensures
        forall|q: (int, int, int)|
            (q.0 == x && 0 <= q.2 <= scale_z) ==> cell_of(final(world)@, q) == column_cell_after(
                old(world)@,
                x as int,
                q.2,
                spec_top(old(world)@, x as int, q.2, ground.level_spec(x as int, q.2)),
                surface,
                fillground,
                q.1,
            ),
        forall|q: (int, int, int)|
            !(q.0 == x && 0 <= q.2 <= scale_z) ==> unchanged_cell(old(world)@, final(world)@, q),
        final(batcher).wf(),
        final(batcher).total == old(batcher).total,
        final(batcher).batch == old(batcher).batch,
        final(batcher).count == old(batcher).count + scale_z + 1,
        final(phase).wf(),
        final(phase).base == old(phase).base,
        final(phase).span == old(phase).span,
        final(phase).units == old(phase).units,
        final(phase).done == old(phase).done + scale_z + 1,
        final(signal).wf(),
        final(signal).last_emitted().le(final(phase).emitted_floor()),
        final(signal)@.len() >= old(signal)@.len(),
        forall|i: int| 0 <= i < old(signal)@.len() ==> final(signal)@[i] == old(signal)@[i],
{
    let ghost m0 = world@;
    let ghost xi = x as int;
    let ghost szi = scale_z as int;
    let ghost count0 = old(batcher).count as int;
    let ghost done0 = old(phase).done as int;
    let mut z: i32 = 0;
    loop
        invariant_except_break
            0 <= z <= szi,
            batcher.count == count0 + z,
            phase.done == done0 + z,
            forall|q: (int, int, int)|
                (q.0 == xi && 0 <= q.2 < z) ==> cell_of(world@, q) == column_cell_after(
                    m0,
                    xi,
                    q.2,
                    spec_top(m0, xi, q.2, ground.level_spec(xi, q.2)),
                    surface,
                    fillground,
                    q.1,
                ),
            forall|q: (int, int, int)|
                !(q.0 == xi && 0 <= q.2 < z) ==> unchanged_cell(m0, world@, q),
        invariant
            xi == x as int,
            szi == scale_z as int,
            ground.wf(),
            batcher.wf(),
            batcher.total == old(batcher).total,
            batcher.batch == old(batcher).batch,
            count0 == old(batcher).count,
            count0 + szi + 1 <= batcher.total,
            phase.wf(),
            phase.base == old(phase).base,
            phase.span == old(phase).span,
            phase.units == old(phase).units,
            done0 == old(phase).done,
            done0 + szi + 1 <= phase.units,
            signal.wf(),
            signal.last_emitted().le(phase.emitted_floor()),
            signal@.len() >= old(signal)@.len(),
            forall|i: int| 0 <= i < old(signal)@.len() ==> signal@[i] == old(signal)@[i],
        ensures
            z == szi,
            batcher.count == count0 + szi + 1,
            phase.done == done0 + szi + 1,
            forall|q: (int, int, int)|
                (q.0 == xi && 0 <= q.2 <= szi) ==> cell_of(world@, q) == column_cell_after(
                    m0,
                    xi,
                    q.2,
                    spec_top(m0, xi, q.2, ground.level_spec(xi, q.2)),
                    surface,
                    fillground,
                    q.1,
                ),
            forall|q: (int, int, int)|
                !(q.0 == xi && 0 <= q.2 <= szi) ==> unchanged_cell(m0, world@, q),
        decreases szi - z,
    {
        let ghost mpre = world@;
        let lvl = ground.level(x, z);
        proof {
            assert(lvl >= MIN_Y);
        }
        layer_column(world, x, z, lvl, surface, fillground);
        proof {
            let zi = z as int;
            assert(lvl as int == ground.level_spec(xi, zi));
            assert forall|q: (int, int, int)| (q.0 == xi && 0 <= q.2 <= zi) implies cell_of(
                world@,
                q,
            ) == column_cell_after(
                m0,
                xi,
                q.2,
                spec_top(m0, xi, q.2, ground.level_spec(xi, q.2)),
                surface,
                fillground,
                q.1,
            ) by {
                if q.2 == zi {
                    assert(q == (xi, q.1, zi));
                    assert(cell_of(world@, q) == column_cell_after(
                        mpre,
                        xi,
                        zi,
                        spec_top(mpre, xi, zi, lvl as int),
                        surface,
                        fillground,
                        q.1,
                    ));
                    assert forall|yy: int| #[trigger]
                        mpre.contains_key((xi, yy, zi)) == m0.contains_key((xi, yy, zi)) by {
                        assert(unchanged_cell(m0, mpre, (xi, yy, zi)));
                    }
                    lemma_top_congruence(m0, mpre, xi, zi, MIN_Y as int, lvl as int);
                    assert(spec_top(mpre, xi, zi, lvl as int) == spec_top(
                        m0,
                        xi,
                        zi,
                        ground.level_spec(xi, zi),
                    ));
                    assert(unchanged_cell(m0, mpre, (xi, q.1, zi)));
                } else {
                    assert(cell_of(mpre, q) == column_cell_after(
                        m0,
                        xi,
                        q.2,
                        spec_top(m0, xi, q.2, ground.level_spec(xi, q.2)),
                        surface,
                        fillground,
                        q.1,
                    ));
                    assert(!(q.0 == xi && q.2 == zi));
                    assert(unchanged_cell(mpre, world@, q));
                }
            }
            assert forall|q: (int, int, int)| !(q.0 == xi && 0 <= q.2 <= z as int) implies
                unchanged_cell(m0, world@, q) by {
                assert(unchanged_cell(m0, mpre, q));
                assert(!(q.0 == xi && q.2 == z as int));
                assert(unchanged_cell(mpre, world@, q));
            }
        }
        let inc = batcher.unit();
        if inc > 0 {
            console.add(inc);
        }
        let ghost floor_pre = phase.emitted_floor();
        let step = phase.step();
        match step {
            Some(p) => {
                proof {
                    if signal@.len() > 0 {
                        assert(signal.last_emitted().wf());
                    }
                    lemma_percent_le_trans(signal.last_emitted(), floor_pre, p);
                }
                let ghost sigpre = signal@;
                signal.record(p);
                proof {
                    assert forall|i: int| 0 <= i < old(signal)@.len() implies signal@[i] == old(
                        signal,
                    )@[i] by {
                        assert(signal@[i] == sigpre[i]);
                        assert(sigpre[i] == old(signal)@[i]);
                    }
                }
                notify.notify(p, "");
            },
            None => {},
        }
        if z == scale_z {
            break;
        }
        z = z + 1;
    }
}

/// One full row (`x` fixed) of the flat ground sweep.
fn layer_flat_row<C: ConsoleSink, N: ProgressSink>(
    world: &mut VoxelWorld,
    ground: &Ground,
    x: i32,
    scale_z: i32,
    surface: Block,
    batcher: &mut ConsoleBatcher,
    console: &mut C,
    phase: &mut PhaseProgress,
    signal: &mut GuiSignal,
    notify: &mut N,
)
    requires
        0 <= scale_z,
        ground.wf(),
        old(batcher).wf(),
        old(batcher).count + scale_z + 1 <= old(batcher).total,
        old(phase).wf(),
        old(phase).done + scale_z + 1 <= old(phase).units,
        old(signal).wf(),
        old(signal).last_emitted().le(old(phase).emitted_floor()),
    ensures
        forall|q: (int, int, int)|
            (q.0 == x && 0 <= q.2 <= scale_z) ==> cell_of(final(world)@, q) == flat_cell_after(
                old(world)@,
                x as int,
                q.2,
                ground.level_spec(x as int, q.2),
                surface,
                q.1,
            ),
        forall|q: (int, int, int)|
            !(q.0 == x && 0 <= q.2 <= scale_z) ==> unchanged_cell(old(world)@, final(world)@, q),
        final(batcher).wf(),
        final(batcher).total == old(batcher).total,
        final(batcher).batch == old(batcher).batch,
        final(batcher).count == old(batcher).count + scale_z + 1,
        final(phase).wf(),
        final(phase).base == old(phase).base,
        final(phase).span == old(phase).span,
        final(phase).units == old(phase).units,
        final(phase).done == old(phase).done + scale_z + 1,
        final(signal).wf(),
        final(signal).last_emitted().le(final(phase).emitted_floor()),
        final(signal)@.len() >= old(signal)@.len(),
        forall|i: int| 0 <= i < old(signal)@.len() ==> final(signal)@[i] == old(signal)@[i],
{
    let ghost m0 = world@;
    let ghost xi = x as int;
    let ghost szi = scale_z as int;
    let ghost count0 = old(batcher).count as int;
    let ghost done0 = old(phase).done as int;
    let mut z: i32 = 0;
    loop
        invariant_except_break
            0 <= z <= szi,
            batcher.count == count0 + z,
            phase.done == done0 + z,
            forall|q: (int, int, int)|
                (q.0 == xi && 0 <= q.2 < z) ==> cell_of(world@, q) == flat_cell_after(
                    m0,
                    xi,
                    q.2,
                    ground.level_spec(xi, q.2),
                    surface,
                    q.1,
                ),
            forall|q: (int, int, int)|
                !(q.0 == xi && 0 <= q.2 < z) ==> unchanged_cell(m0, world@, q),
        invariant
            xi == x as int,
            szi == scale_z as int,
            ground.wf(),
            batcher.wf(),
            batcher.total == old(batcher).total,
            batcher.batch == old(batcher).batch,
            count0 == old(batcher).count,
            count0 + szi + 1 <= batcher.total,
            phase.wf(),
            phase.base == old(phase).base,
            phase.span == old(phase).span,
            phase.units == old(phase).units,
            done0 == old(phase).done,
            done0 + szi + 1 <= phase.units,
            signal.wf(),
            signal.last_emitted().le(phase.emitted_floor()),
            signal@.len() >= old(signal)@.len(),
            forall|i: int| 0 <= i < old(signal)@.len() ==> signal@[i] == old(signal)@[i],
        ensures
            z == szi,
            batcher.count == count0 + szi + 1,
            phase.done == done0 + szi + 1,
            forall|q: (int, int, int)|
                (q.0 == xi && 0 <= q.2 <= szi) ==> cell_of(world@, q) == flat_cell_after(
                    m0,
                    xi,
                    q.2,
                    ground.level_spec(xi, q.2),
                    surface,
                    q.1,
                ),
            forall|q: (int, int, int)|
                !(q.0 == xi && 0 <= q.2 <= szi) ==> unchanged_cell(m0, world@, q),
        decreases szi - z,
    {
        let ghost mpre = world@;
        let lvl = ground.level(x, z);
        proof {
            assert(lvl >= MIN_Y);
        }
        layer_flat_column(world, x, z, lvl, surface);
        proof {
            let zi = z as int;
            assert(lvl as int == ground.level_spec(xi, zi));
            assert forall|q: (int, int, int)| (q.0 == xi && 0 <= q.2 <= zi) implies cell_of(
                world@,
                q,
            ) == flat_cell_after(m0, xi, q.2, ground.level_spec(xi, q.2), surface, q.1) by {
                if q.2 == zi {
                    assert(q == (xi, q.1, zi));
                    assert(cell_of(world@, q) == flat_cell_after(
                        mpre,
                        xi,
                        zi,
                        lvl as int,
                        surface,
                        q.1,
                    ));
                    assert(unchanged_cell(m0, mpre, (xi, q.1, zi)));
                } else {
                    assert(cell_of(mpre, q) == flat_cell_after(
                        m0,
                        xi,
                        q.2,
                        ground.level_spec(xi, q.2),
                        surface,
                        q.1,
                    ));
                    assert(!(q.0 == xi && q.2 == zi));
                    assert(unchanged_cell(mpre, world@, q));
                }
            }
            assert forall|q: (int, int, int)| !(q.0 == xi && 0 <= q.2 <= z as int) implies
                unchanged_cell(m0, world@, q) by {
                assert(unchanged_cell(m0, mpre, q));
                assert(!(q.0 == xi && q.2 == z as int));
                assert(unchanged_cell(mpre, world@, q));
            }
        }
        let inc = batcher.unit();
        if inc > 0 {
            console.add(inc);
        }
        let ghost floor_pre = phase.emitted_floor();
        let step = phase.step();
        match step {
            Some(p) => {
                proof {
                    if signal@.len() > 0 {
                        assert(signal.last_emitted().wf());
                    }
                    lemma_percent_le_trans(signal.last_emitted(), floor_pre, p);
                }
                let ghost sigpre = signal@;
                signal.record(p);
                proof {
                    assert forall|i: int| 0 <= i < old(signal)@.len() implies signal@[i] == old(
                        signal,
                    )@[i] by {
                        assert(signal@[i] == sigpre[i]);
                        assert(sigpre[i] == old(signal)@[i]);
                    }
                }
                notify.notify(p, "");
            },
            None => {},
        }
        if z == scale_z {
            break;
        }
        z = z + 1;
    }
}

/// Write the base ground over the whole grid, after the structure
/// generators have run, and advance both progress channels one unit
/// per column.  The algorithm is chosen by `ground.elevation_enabled`.
pub fn synthesize_terrain<C: ConsoleSink, N: ProgressSink>(
    world: &mut VoxelWorld,
    ground: &Ground,
    scale_x: i32,
    scale_z: i32,
    surface: Block,
    fillground: bool,
    batcher: &mut ConsoleBatcher,
    console: &mut C,
    phase: &mut PhaseProgress,
    signal: &mut GuiSignal,
    notify: &mut N,
)
    requires
        0 <= scale_x,
        0 <= scale_z,
        ground.wf(),
        old(batcher).wf(),
        old(batcher).count + (scale_x + 1) * (scale_z + 1) <= old(batcher).total,
        old(phase).wf(),
        old(phase).done + (scale_x + 1) * (scale_z + 1) <= old(phase).units,
        old(signal).wf(),
        old(signal).last_emitted().le(old(phase).emitted_floor()),
    ensures
        ground.elevation_enabled ==> forall|q: (int, int, int)|
            cell_of(final(world)@, q) == elevation_cell_after(
                old(world)@,
                *ground,
                scale_x as int,
                scale_z as int,
                surface,
                fillground,
                q,
            ),
        !ground.elevation_enabled ==> forall|q: (int, int, int)|
            cell_of(final(world)@, q) == flat_cell_after_grid(
                old(world)@,
                *ground,
                scale_x as int,
                scale_z as int,
                surface,
                q,
            ),
        final(batcher).wf(),
        final(batcher).total == old(batcher).total,
        final(batcher).batch == old(batcher).batch,
        final(batcher).count == old(batcher).count + (scale_x + 1) * (scale_z + 1),
        final(phase).wf(),
        final(phase).base == old(phase).base,
        final(phase).span == old(phase).span,
        final(phase).units == old(phase).units,
        final(phase).done == old(phase).done + (scale_x + 1) * (scale_z + 1),
        final(signal).wf(),
        final(signal).last_emitted().le(final(phase).emitted_floor()),
        final(signal)@.len() >= old(signal)@.len(),
        forall|i: int| 0 <= i < old(signal)@.len() ==> final(signal)@[i] == old(signal)@[i],
{
    let ghost m0 = world@;
    let ghost sxi = scale_x as int;
    let ghost szi = scale_z as int;
    let ghost count0 = old(batcher).count as int;
    let ghost done0 = old(phase).done as int;
    let elevation = ground.elevation_enabled;
    let mut x: i32 = 0;
    loop
        invariant_except_break
            0 <= x <= sxi,
            batcher.count == count0 + x * (szi + 1),
            phase.done == done0 + x * (szi + 1),
            forall|q: (int, int, int)|
                (0 <= q.0 < x && 0 <= q.2 <= szi) ==> cell_of(world@, q) == (if elevation {
                    column_cell_after(
                        m0,
                        q.0,
                        q.2,
                        spec_top(m0, q.0, q.2, ground.level_spec(q.0, q.2)),
                        surface,
                        fillground,
                        q.1,
                    )
                } else {
                    flat_cell_after(m0, q.0, q.2, ground.level_spec(q.0, q.2), surface, q.1)
                }),
            forall|q: (int, int, int)|
                !(0 <= q.0 < x && 0 <= q.2 <= szi) ==> unchanged_cell(m0, world@, q),
        invariant
            sxi == scale_x as int,
            szi == scale_z as int,
            0 <= sxi,
            0 <= szi,
            elevation == ground.elevation_enabled,
            ground.wf(),
            batcher.wf(),
            batcher.total == old(batcher).total,
            batcher.batch == old(batcher).batch,
            count0 == old(batcher).count,
            count0 + (sxi + 1) * (szi + 1) <= batcher.total,
            phase.wf(),
            phase.base == old(phase).base,
            phase.span == old(phase).span,
            phase.units == old(phase).units,
            done0 == old(phase).done,
            done0 + (sxi + 1) * (szi + 1) <= phase.units,
            signal.wf(),
            signal.last_emitted().le(phase.emitted_floor()),
            signal@.len() >= old(signal)@.len(),
            forall|i: int| 0 <= i < old(signal)@.len() ==> signal@[i] == old(signal)@[i],
        ensures
            x == sxi,
            batcher.count == count0 + (sxi + 1) * (szi + 1),
            phase.done == done0 + (sxi + 1) * (szi + 1),
            forall|q: (int, int, int)|
                (0 <= q.0 <= sxi && 0 <= q.2 <= szi) ==> cell_of(world@, q) == (if elevation {
                    column_cell_after(
                        m0,
                        q.0,
                        q.2,
                        spec_top(m0, q.0, q.2, ground.level_spec(q.0, q.2)),
                        surface,
                        fillground,
                        q.1,
                    )
                } else {
                    flat_cell_after(m0, q.0, q.2, ground.level_spec(q.0, q.2), surface, q.1)
                }),
            forall|q: (int, int, int)|
                !(0 <= q.0 <= sxi && 0 <= q.2 <= szi) ==> unchanged_cell(m0, world@, q),
        decreases sxi - x,
    {
        proof {
            assert(x * (szi + 1) + (szi + 1) <= (sxi + 1) * (szi + 1)) by (nonlinear_arith)
                requires
                    0 <= x <= sxi,
                    0 <= szi,
            ;
        }
        let ghost mrow = world@;
        let ghost srow = signal@;
        if elevation {
            layer_ground_row(
                world,
                ground,
                x,
                scale_z,
                surface,
                fillground,
                batcher,
                console,
                phase,
                signal,
                notify,
            );
        } else {
            layer_flat_row(
                world,
                ground,
                x,
                scale_z,
                surface,
                batcher,
                console,
                phase,
                signal,
                notify,
            );
        }
        proof {
            let xi = x as int;
            assert forall|q: (int, int, int)| (0 <= q.0 <= xi && 0 <= q.2 <= szi) implies cell_of(
                world@,
                q,
            ) == (if elevation {
                column_cell_after(
                    m0,
                    q.0,
                    q.2,
                    spec_top(m0, q.0, q.2, ground.level_spec(q.0, q.2)),
                    surface,
                    fillground,
                    q.1,
                )
            } else {
                flat_cell_after(m0, q.0, q.2, ground.level_spec(q.0, q.2), surface, q.1)
            }) by {
                if q.0 == xi {
                    assert(q == (xi, q.1, q.2));
                    assert(unchanged_cell(m0, mrow, (xi, q.1, q.2)));
                    if elevation {
                        assert(cell_of(world@, q) == column_cell_after(
                            mrow,
                            xi,
                            q.2,
                            spec_top(mrow, xi, q.2, ground.level_spec(xi, q.2)),
                            surface,
                            fillground,
                            q.1,
                        ));
                        assert forall|yy: int| #[trigger]
                            mrow.contains_key((xi, yy, q.2)) == m0.contains_key((xi, yy, q.2)) by {
                            assert(unchanged_cell(m0, mrow, (xi, yy, q.2)));
                        }
                        lemma_top_congruence(
                            m0,
                            mrow,
                            xi,
                            q.2,
                            MIN_Y as int,
                            ground.level_spec(xi, q.2),
                        );
                    } else {
                        assert(cell_of(world@, q) == flat_cell_after(
                            mrow,
                            xi,
                            q.2,
                            ground.level_spec(xi, q.2),
                            surface,
                            q.1,
                        ));
                    }
                } else {
                    assert(cell_of(mrow, q) == (if elevation {
                        column_cell_after(
                            m0,
                            q.0,
                            q.2,
                            spec_top(m0, q.0, q.2, ground.level_spec(q.0, q.2)),
                            surface,
                            fillground,
                            q.1,
                        )
                    } else {
                        flat_cell_after(m0, q.0, q.2, ground.level_spec(q.0, q.2), surface, q.1)
                    }));
                    assert(!(q.0 == xi && 0 <= q.2 <= szi));
                    assert(unchanged_cell(mrow, world@, q));
                }
            }
            assert forall|q: (int, int, int)| !(0 <= q.0 <= x as int && 0 <= q.2 <= szi) implies
                unchanged_cell(m0, world@, q) by {
                assert(unchanged_cell(m0, mrow, q));
                assert(!(q.0 == x as int && 0 <= q.2 <= szi));
                assert(unchanged_cell(mrow, world@, q));
            }
            assert((x + 1) * (szi + 1) == x * (szi + 1) + (szi + 1)) by (nonlinear_arith);
            assert forall|i: int| 0 <= i < old(signal)@.len() implies signal@[i] == old(
                signal,
            )@[i] by {
                assert(signal@[i] == srow[i]);
                assert(srow[i] == old(signal)@[i]);
            }
        }
        if x == scale_x {
            break;
        }
        x = x + 1;
    }
    if elevation {
        let ghost msw = world@;
        flatten_spawn(world, surface);
        proof {
            assert forall|q: (int, int, int)|
                cell_of(world@, q) == elevation_cell_after(
                    m0,
                    *ground,
                    sxi,
                    szi,
                    surface,
                    fillground,
                    q,
                ) by {
                if in_spawn(q) {
                    assert(cell_of(world@, q) == soft(cell_of(msw, q), surface));
                } else {
                    assert(unchanged_cell(msw, world@, q));
                }
                if in_grid(q.0, q.2, sxi, szi) {
                    assert(cell_of(msw, q) == column_cell_after(
                        m0,
                        q.0,
                        q.2,
                        spec_top(m0, q.0, q.2, ground.level_spec(q.0, q.2)),
                        surface,
                        fillground,
                        q.1,
                    ));
                } else {
                    assert(unchanged_cell(m0, msw, q));
                }
            }
        }
    } else {
        proof {
            assert forall|q: (int, int, int)|
                cell_of(world@, q) == flat_cell_after_grid(m0, *ground, sxi, szi, surface, q) by {
                if !in_grid(q.0, q.2, sxi, szi) {
                    assert(unchanged_cell(m0, world@, q));
                }
            }
        }
    }
}

} // verus!
