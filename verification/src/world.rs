//! In-memory voxel buffer: the mutable world state that structure
//! generation and ground synthesis write into.
//!
//! The buffer is kept as a write log; later writes to a coordinate
//! shadow earlier ones.  Its abstract value is a map from integer
//! coordinates `(x, y, z)` to the block kind stored there.
//!
//! A point write carries two optional filters, mirroring the sink
//! interface the generation pipeline is written against:
//! * with no filter, a write never replaces an occupied cell (terrain
//!   seats itself under already-placed structures instead of
//!   overwriting them);
//! * an override whitelist allows replacement exactly when the occupied
//!   cell holds one of the listed kinds;
//! * an override blacklist allows replacement exactly when the occupied
//!   cell holds none of the listed kinds (the exclusion filter used for
//!   the bedrock floor).

use vstd::prelude::*;

use crate::block::Block;

verus! {

/// One entry of the write log.
#[derive(Clone, Copy, Debug)]
pub struct Placement {
    pub x: i32,
    pub y: i32,
    pub z: i32,
    pub kind: Block,
}

pub open spec fn placement_pos(p: Placement) -> (int, int, int) {
    (p.x as int, p.y as int, p.z as int)
}

/// Abstract contents of a write log: later entries shadow earlier ones.
pub open spec fn map_of(log: Seq<Placement>) -> Map<(int, int, int), Block>
    decreases log.len(),
{
    if log.len() == 0 {
        Map::empty()
    } else {
        map_of(log.drop_last()).insert(placement_pos(log.last()), log.last().kind)
    }
}

/// The contents of a cell: `None` when nothing has been placed there.
pub open spec fn cell_of(m: Map<(int, int, int), Block>, q: (int, int, int)) -> Option<Block> {
    if m.contains_key(q) {
        Some(m[q])
    } else {
        None
    }
}

/// View of an optional filter argument.
pub open spec fn filter_view(f: Option<&[Block]>) -> Option<Seq<Block>> {
    match f {
        Some(s) => Some(s@),
        None => None,
    }
}

/// Whether a write to cell `q` goes through, given the occupancy of `q`
/// and the two optional filters.
pub open spec fn may_place(
    m: Map<(int, int, int), Block>,
    q: (int, int, int),
    whitelist: Option<Seq<Block>>,
    blacklist: Option<Seq<Block>>,
) -> bool {
    if !m.contains_key(q) {
        true
    } else {
        match whitelist {
            Some(w) => w.contains(m[q]),
            None => match blacklist {
                Some(b) => !b.contains(m[q]),
                None => false,
            },
        }
    }
}

/// Effect of one point write on the abstract contents.
pub open spec fn place(
    m: Map<(int, int, int), Block>,
    kind: Block,
    q: (int, int, int),
    whitelist: Option<Seq<Block>>,
    blacklist: Option<Seq<Block>>,
) -> Map<(int, int, int), Block> {
    if may_place(m, q, whitelist, blacklist) {
        m.insert(q, kind)
    } else {
        m
    }
}

/// After any point write the target cell is occupied.
pub proof fn lemma_place_occupies(
    m: Map<(int, int, int), Block>,
    kind: Block,
    q: (int, int, int),
    whitelist: Option<Seq<Block>>,
    blacklist: Option<Seq<Block>>,
)
    ensures
        place(m, kind, q, whitelist, blacklist).contains_key(q),
{
}

/// The exclusion filter: a write whose blacklist covers the occupant
/// leaves the buffer exactly as it was.
pub proof fn lemma_blacklist_excludes(
    m: Map<(int, int, int), Block>,
    kind: Block,
    q: (int, int, int),
    blacklist: Seq<Block>,
)
    requires
        m.contains_key(q),
        blacklist.contains(m[q]),
    ensures
        place(m, kind, q, None, Some(blacklist)) == m,
{
}

/// Cell `q` reads the same in `m1` as in `m0`.
pub open spec fn unchanged_cell(
    m0: Map<(int, int, int), Block>,
    m1: Map<(int, int, int), Block>,
    q: (int, int, int),
) -> bool {
    cell_of(m1, q) == cell_of(m0, q)
}

/// Cell `q` in `m1` is the result of one filtered write of `kind`
/// applied to its state in `m0`.
pub open spec fn filled_cell(
    m0: Map<(int, int, int), Block>,
    m1: Map<(int, int, int), Block>,
    q: (int, int, int),
    kind: Block,
    whitelist: Option<Seq<Block>>,
    blacklist: Option<Seq<Block>>,
) -> bool {
    cell_of(m1, q) == cell_of(place(m0, kind, q, whitelist, blacklist), q)
}

/// A write decision depends only on the written cell itself, so it may
/// be judged against any buffer state that agrees on that cell.
pub proof fn lemma_fill_cell_congruence(
    m0: Map<(int, int, int), Block>,
    mpre: Map<(int, int, int), Block>,
    mnew: Map<(int, int, int), Block>,
    q: (int, int, int),
    kind: Block,
    whitelist: Option<Seq<Block>>,
    blacklist: Option<Seq<Block>>,
)
    requires
        unchanged_cell(m0, mpre, q),
        filled_cell(mpre, mnew, q, kind, whitelist, blacklist),
    ensures
        filled_cell(m0, mnew, q, kind, whitelist, blacklist),
{
    if mpre.contains_key(q) {
        assert(m0.contains_key(q));
        assert(mpre[q] == m0[q]);
    } else {
        assert(!m0.contains_key(q));
    }
    assert(may_place(mpre, q, whitelist, blacklist) == may_place(m0, q, whitelist, blacklist));
}

/// The in-memory voxel world buffer.
pub struct VoxelWorld {
    log: Vec<Placement>,
}

impl View for VoxelWorld {
    type V = Map<(int, int, int), Block>;

    closed spec fn view(&self) -> Map<(int, int, int), Block> {
        map_of(self.log@)
    }
}

proof fn lemma_log_found(log: Seq<Placement>, q: (int, int, int), i: int)
    requires
        0 <= i < log.len(),
        placement_pos(log[i]) == q,
        forall|j: int| i < j < log.len() ==> placement_pos(log[j]) != q,
    ensures
        map_of(log).contains_key(q),
        map_of(log)[q] == log[i].kind,
    decreases log.len(),
{
    if i == log.len() - 1 {
    } else {
        assert(log.drop_last()[i] == log[i]);
        lemma_log_found(log.drop_last(), q, i);
    }
}

proof fn lemma_log_absent(log: Seq<Placement>, q: (int, int, int))
    requires
        forall|j: int| 0 <= j < log.len() ==> placement_pos(log[j]) != q,
    ensures
        !map_of(log).contains_key(q),
    decreases log.len(),
{
    if log.len() > 0 {
        lemma_log_absent(log.drop_last(), q);
    }
}

fn slice_contains(s: &[Block], b: Block) -> (r: bool)
    ensures
        r == s@.contains(b),
{
    let mut i: usize = 0;
    while i < s.len()
        invariant
            i <= s@.len(),
            forall|j: int| 0 <= j < i ==> s@[j] != b,
        decreases s@.len() - i,
    {
        if s[i] == b {
            return true;
        }
        i += 1;
    }
    false
}

impl VoxelWorld {
    /// A fresh, empty world buffer.
    pub fn new() -> (w: VoxelWorld)
        ensures
            w@ == Map::<(int, int, int), Block>::empty(),
    {
        VoxelWorld { log: Vec::new() }
    }

    /// Point query: what occupies cell `(x, y, z)`?
    pub fn get_block(&self, x: i32, y: i32, z: i32) -> (r: Option<Block>)
        ensures
            r == cell_of(self@, (x as int, y as int, z as int)),
    {
        let ghost q = (x as int, y as int, z as int);
        let mut i: usize = self.log.len();
        while i > 0
            invariant
                q == (x as int, y as int, z as int),
                i <= self.log@.len(),
                forall|j: int| i <= j < self.log@.len() ==> placement_pos(self.log@[j]) != q,
            decreases i,
        {
            i -= 1;
            let e = self.log[i];
            if e.x == x && e.y == y && e.z == z {
                proof {
                    assert(placement_pos(self.log@[i as int]) == q);
                    lemma_log_found(self.log@, q, i as int);
                }
                return Some(e.kind);
            }
        }
        proof {
            lemma_log_absent(self.log@, q);
        }
        None
    }

    /// Existence query: is cell `(x, y, z)` occupied?
    pub fn block_at(&self, x: i32, y: i32, z: i32) -> (r: bool)
        ensures
            r == self@.contains_key((x as int, y as int, z as int)),
    {
        match self.get_block(x, y, z) {
            Some(_) => true,
            None => false,
        }
    }

    /// One filtered point write.
    pub fn set_block(
        &mut self,
        kind: Block,
        x: i32,
        y: i32,
        z: i32,
        whitelist: Option<&[Block]>,
        blacklist: Option<&[Block]>,
    )
        ensures
            final(self)@ == place(
                old(self)@,
                kind,
                (x as int, y as int, z as int),
                filter_view(whitelist),
                filter_view(blacklist),
            ),
    {
        let ghost q = (x as int, y as int, z as int);
        let ghost log0 = self.log@;
        let allowed: bool = match self.get_block(x, y, z) {
            None => true,
            Some(b) => match whitelist {
                Some(w) => slice_contains(w, b),
                None => match blacklist {
                    Some(bl) => !slice_contains(bl, b),
                    None => false,
                },
            },
        };
        if allowed {
            self.log.push(Placement { x, y, z, kind });
            proof {
                assert(self.log@.drop_last() =~= log0);
            }
        }
    }

    /// Filtered range fill over the axis-aligned box
    /// `[x0, x1] x [y0, y1] x [z0, z1]`.  An inverted bound on any axis
    /// makes the box empty and the fill a no-op.
    pub fn fill_blocks(
        &mut self,
        kind: Block,
        x0: i32,
        y0: i32,
        z0: i32,
        x1: i32,
        y1: i32,
        z1: i32,
        whitelist: Option<&[Block]>,
        blacklist: Option<&[Block]>,
    )
        ensures
            forall|q: (int, int, int)|
                (x0 <= q.0 <= x1 && y0 <= q.1 <= y1 && z0 <= q.2 <= z1) ==> filled_cell(
                    old(self)@,
                    final(self)@,
                    q,
                    kind,
                    filter_view(whitelist),
                    filter_view(blacklist),
                ),
            forall|q: (int, int, int)|
                !(x0 <= q.0 <= x1 && y0 <= q.1 <= y1 && z0 <= q.2 <= z1) ==> unchanged_cell(
                    old(self)@,
                    final(self)@,
                    q,
                ),
    {
        let ghost m0 = self@;
        let ghost wl = filter_view(whitelist);
        let ghost bl = filter_view(blacklist);
        if x0 > x1 || y0 > y1 || z0 > z1 {
            return;
        }
        let mut x = x0;
        loop
            invariant_except_break
                forall|q: (int, int, int)|
                    (x0 <= q.0 < x && y0 <= q.1 <= y1 && z0 <= q.2 <= z1) ==> filled_cell(
                        m0,
                        self@,
                        q,
                        kind,
                        wl,
                        bl,
                    ),
                forall|q: (int, int, int)|
                    !(x0 <= q.0 < x && y0 <= q.1 <= y1 && z0 <= q.2 <= z1) ==> unchanged_cell(
                        m0,
                        self@,
                        q,
                    ),
            invariant
                x0 <= x <= x1,
                y0 <= y1,
                z0 <= z1,
                wl == filter_view(whitelist),
                bl == filter_view(blacklist),
            ensures
                forall|q: (int, int, int)|
                    (x0 <= q.0 <= x1 && y0 <= q.1 <= y1 && z0 <= q.2 <= z1) ==> filled_cell(
                        m0,
                        self@,
                        q,
                        kind,
                        wl,
                        bl,
                    ),
                forall|q: (int, int, int)|
                    !(x0 <= q.0 <= x1 && y0 <= q.1 <= y1 && z0 <= q.2 <= z1) ==> unchanged_cell(
                        m0,
                        self@,
                        q,
                    ),
            decreases x1 - x,
        {
            let ghost mpre = self@;
            self.fill_plane(kind, x, y0, z0, y1, z1, whitelist, blacklist);
            proof {
                assert forall|q: (int, int, int)|
                    (x0 <= q.0 <= x && y0 <= q.1 <= y1 && z0 <= q.2 <= z1) implies filled_cell(
                    m0,
                    self@,
                    q,
                    kind,
                    wl,
                    bl,
                ) by {
                    if q.0 == x {
                        assert(unchanged_cell(m0, mpre, q));
                        assert(filled_cell(mpre, self@, q, kind, wl, bl));
                        lemma_fill_cell_congruence(m0, mpre, self@, q, kind, wl, bl);
                    } else {
                        assert(filled_cell(m0, mpre, q, kind, wl, bl));
                        assert(unchanged_cell(mpre, self@, q));
                    }
                }
                assert forall|q: (int, int, int)|
                    !(x0 <= q.0 <= x && y0 <= q.1 <= y1 && z0 <= q.2 <= z1) implies unchanged_cell(
                    m0,
                    self@,
                    q,
                ) by {
                    assert(unchanged_cell(m0, mpre, q));
                    assert(unchanged_cell(mpre, self@, q));
                }
            }
            if x == x1 {
                break;
            }
            x = x + 1;
        }
    }

    /// Fill one `x` plane of a box fill.
    fn fill_plane(
        &mut self,
        kind: Block,
        x: i32,
        y0: i32,
        z0: i32,
        y1: i32,
        z1: i32,
        whitelist: Option<&[Block]>,
        blacklist: Option<&[Block]>,
    )
        requires
            y0 <= y1,
            z0 <= z1,
        ensures
            forall|q: (int, int, int)|
                (q.0 == x && y0 <= q.1 <= y1 && z0 <= q.2 <= z1) ==> filled_cell(
                    old(self)@,
                    final(self)@,
                    q,
                    kind,
                    filter_view(whitelist),
                    filter_view(blacklist),
                ),
            forall|q: (int, int, int)|
                !(q.0 == x && y0 <= q.1 <= y1 && z0 <= q.2 <= z1) ==> unchanged_cell(
                    old(self)@,
                    final(self)@,
                    q,
                ),
    {
        let ghost m0 = self@;
        let ghost wl = filter_view(whitelist);
        let ghost bl = filter_view(blacklist);
        let mut z = z0;
        loop
            invariant_except_break
                forall|q: (int, int, int)|
                    (q.0 == x && y0 <= q.1 <= y1 && z0 <= q.2 < z) ==> filled_cell(
                        m0,
                        self@,
                        q,
                        kind,
                        wl,
                        bl,
                    ),
                forall|q: (int, int, int)|
                    !(q.0 == x && y0 <= q.1 <= y1 && z0 <= q.2 < z) ==> unchanged_cell(
                        m0,
                        self@,
                        q,
                    ),
            invariant
                z0 <= z <= z1,
                y0 <= y1,
                wl == filter_view(whitelist),
                bl == filter_view(blacklist),
            ensures
                forall|q: (int, int, int)|
                    (q.0 == x && y0 <= q.1 <= y1 && z0 <= q.2 <= z1) ==> filled_cell(
                        m0,
                        self@,
                        q,
                        kind,
                        wl,
                        bl,
                    ),
                forall|q: (int, int, int)|
                    !(q.0 == x && y0 <= q.1 <= y1 && z0 <= q.2 <= z1) ==> unchanged_cell(
                        m0,
                        self@,
                        q,
                    ),
            decreases z1 - z,
        {
            let ghost mpre = self@;
            self.fill_column(kind, x, y0, y1, z, whitelist, blacklist);
            proof {
                assert forall|q: (int, int, int)|
                    (q.0 == x && y0 <= q.1 <= y1 && z0 <= q.2 <= z) implies filled_cell(
                    m0,
                    self@,
                    q,
                    kind,
                    wl,
                    bl,
                ) by {
                    if q.2 == z {
                        assert(unchanged_cell(m0, mpre, q));
                        assert(filled_cell(mpre, self@, q, kind, wl, bl));
                        lemma_fill_cell_congruence(m0, mpre, self@, q, kind, wl, bl);
                    } else {
                        assert(filled_cell(m0, mpre, q, kind, wl, bl));
                        assert(unchanged_cell(mpre, self@, q));
                    }
                }
                assert forall|q: (int, int, int)|
                    !(q.0 == x && y0 <= q.1 <= y1 && z0 <= q.2 <= z) implies unchanged_cell(
                    m0,
                    self@,
                    q,
                ) by {
                    assert(unchanged_cell(m0, mpre, q));
                    assert(unchanged_cell(mpre, self@, q));
                }
            }
            if z == z1 {
                break;
            }
            z = z + 1;
        }
    }

    /// Fill one vertical run of cells of a box fill.
    fn fill_column(
        &mut self,
        kind: Block,
        x: i32,
        y0: i32,
        y1: i32,
        z: i32,
        whitelist: Option<&[Block]>,
        blacklist: Option<&[Block]>,
    )
        requires
            y0 <= y1,
        ensures
            forall|q: (int, int, int)|
                (q.0 == x && y0 <= q.1 <= y1 && q.2 == z) ==> filled_cell(
                    old(self)@,
                    final(self)@,
                    q,
                    kind,
                    filter_view(whitelist),
                    filter_view(blacklist),
                ),
            forall|q: (int, int, int)|
                !(q.0 == x && y0 <= q.1 <= y1 && q.2 == z) ==> unchanged_cell(
                    old(self)@,
                    final(self)@,
                    q,
                ),
    {
        let ghost m0 = self@;
        let ghost wl = filter_view(whitelist);
        let ghost bl = filter_view(blacklist);
        let mut y = y0;
        loop
            invariant_except_break
                forall|q: (int, int, int)|
                    (q.0 == x && y0 <= q.1 < y && q.2 == z) ==> filled_cell(
                        m0,
                        self@,
                        q,
                        kind,
                        wl,
                        bl,
                    ),
                forall|q: (int, int, int)|
                    !(q.0 == x && y0 <= q.1 < y && q.2 == z) ==> unchanged_cell(
                        m0,
                        self@,
                        q,
                    ),
            invariant
                y0 <= y <= y1,
                wl == filter_view(whitelist),
                bl == filter_view(blacklist),
            ensures
                forall|q: (int, int, int)|
                    (q.0 == x && y0 <= q.1 <= y1 && q.2 == z) ==> filled_cell(
                        m0,
                        self@,
                        q,
                        kind,
                        wl,
                        bl,
                    ),
                forall|q: (int, int, int)|
                    !(q.0 == x && y0 <= q.1 <= y1 && q.2 == z) ==> unchanged_cell(
                        m0,
                        self@,
                        q,
                    ),
            decreases y1 - y,
        {
            let ghost mpre = self@;
            self.set_block(kind, x, y, z, whitelist, blacklist);
            proof {
                let cq = (x as int, y as int, z as int);
                assert forall|q: (int, int, int)|
                    (q.0 == x && y0 <= q.1 <= y && q.2 == z) implies filled_cell(
                    m0,
                    self@,
                    q,
                    kind,
                    wl,
                    bl,
                ) by {
                    if q.1 == y {
                        assert(q == cq);
                        assert(unchanged_cell(m0, mpre, cq));
                        assert(filled_cell(mpre, self@, cq, kind, wl, bl));
                        lemma_fill_cell_congruence(m0, mpre, self@, cq, kind, wl, bl);
                    } else {
                        assert(filled_cell(m0, mpre, q, kind, wl, bl));
                        assert(q != cq);
                        assert(unchanged_cell(mpre, self@, q));
                    }
                }
                assert forall|q: (int, int, int)|
                    !(q.0 == x && y0 <= q.1 <= y && q.2 == z) implies unchanged_cell(
                    m0,
                    self@,
                    q,
                ) by {
                    assert(unchanged_cell(m0, mpre, q));
                    assert(q != cq);
                    assert(unchanged_cell(mpre, self@, q));
                }
            }
            if y == y1 {
                break;
            }
            y = y + 1;
        }
    }
}

} // verus!

