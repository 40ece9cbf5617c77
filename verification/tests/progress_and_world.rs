use voxelgen::block::Block;
use voxelgen::progress::{ConsoleBatcher, GuiSignal, Percent, PhaseProgress};
use voxelgen::world::VoxelWorld;

#[test]
fn batcher_sums_to_total() {
    // Console batch increments plus the final leftover equal exactly
    // the number of units processed.
    let total: u64 = 10;
    let mut b = ConsoleBatcher::new(total, 3);
    assert_eq!(b.batch, 3);
    let mut shown: u64 = 0;
    let mut incs: Vec<u64> = Vec::new();
    for _ in 0..total {
        let inc = b.unit();
        if inc > 0 {
            incs.push(inc);
        }
        shown += inc;
    }
    assert_eq!(incs, vec![3, 3, 3]);
    assert_eq!(shown + b.finish_inc(), total);
}

#[test]
fn batcher_small_workload_batch_is_one() {
    let mut b = ConsoleBatcher::new(4, 1500);
    assert_eq!(b.batch, 1);
    let mut shown: u64 = 0;
    for _ in 0..4 {
        shown += b.unit();
    }
    assert_eq!(shown, 4);
    assert_eq!(b.finish_inc(), 0);
}

#[test]
fn phase_emits_exact_rationals() {
    // base 11, span 49, 2 units: each unit advances by 24.5 points,
    // past the quarter-point threshold, so each one emits.
    let mut ph = PhaseProgress::begin(11, 49, 2);
    let p1 = ph.step().expect("first step emits");
    assert_eq!((p1.num, p1.den), (11 * 2 + 49, 2));
    let p2 = ph.step().expect("second step emits");
    assert_eq!((p2.num, p2.den), (11 * 2 + 98, 2));
    // 120 / 2 == 60: the phase ends exactly at its upper bound
    assert_eq!(p2.num, 60 * p2.den);
}

#[test]
fn phase_small_steps_are_coalesced() {
    // base 60, span 30, 1000 units: one unit advances by 0.03 points,
    // so the first emission comes only once the accumulated advance
    // passes a quarter point (9 units: 0.27).
    let mut ph = PhaseProgress::begin(60, 30, 1000);
    let mut first_emit_at: u128 = 0;
    for i in 1..=20u128 {
        if let Some(p) = ph.step() {
            first_emit_at = i;
            assert_eq!((p.num, p.den), (60 * 1000 + 30 * i, 1000));
            break;
        }
    }
    assert_eq!(first_emit_at, 9);
}

#[test]
fn signal_records_in_order() {
    let mut s = GuiSignal::new();
    s.record(Percent::whole(10));
    s.record(Percent::whole(11));
    s.record(Percent { num: 23, den: 2 });
    s.record(Percent::whole(100));
    assert_eq!(s.len(), 4);
    let p = s.get(2);
    assert_eq!((p.num, p.den), (23, 2));
    for i in 1..s.len() {
        let a = s.get(i - 1);
        let b = s.get(i);
        assert!(a.num * b.den <= b.num * a.den);
    }
}

#[test]
fn plain_write_never_replaces() {
    let mut w = VoxelWorld::new();
    w.set_block(Block::Stone, 0, 0, 0, None, None);
    w.set_block(Block::Grass, 0, 0, 0, None, None);
    assert_eq!(w.get_block(0, 0, 0), Some(Block::Stone));
    assert!(w.block_at(0, 0, 0));
    assert!(!w.block_at(0, 1, 0));
}

#[test]
fn whitelist_and_blacklist_writes() {
    let mut w = VoxelWorld::new();
    w.set_block(Block::Stone, 0, 0, 0, None, None);
    // whitelist without the occupant: kept
    w.set_block(Block::Grass, 0, 0, 0, Some(&[Block::Dirt]), None);
    assert_eq!(w.get_block(0, 0, 0), Some(Block::Stone));
    // whitelist naming the occupant: replaced
    w.set_block(Block::Grass, 0, 0, 0, Some(&[Block::Stone]), None);
    assert_eq!(w.get_block(0, 0, 0), Some(Block::Grass));
    // blacklist naming the occupant: kept
    w.set_block(Block::Bedrock, 0, 0, 0, None, Some(&[Block::Grass]));
    assert_eq!(w.get_block(0, 0, 0), Some(Block::Grass));
    // blacklist without the occupant: replaced
    w.set_block(Block::Bedrock, 0, 0, 0, None, Some(&[Block::Bedrock]));
    assert_eq!(w.get_block(0, 0, 0), Some(Block::Bedrock));
}

#[test]
fn fill_box_and_inverted_range() {
    let mut w = VoxelWorld::new();
    w.fill_blocks(Block::Stone, 0, 0, 0, 1, 2, 1, None, None);
    for x in 0..=1 {
        for y in 0..=2 {
            for z in 0..=1 {
                assert_eq!(w.get_block(x, y, z), Some(Block::Stone));
            }
        }
    }
    assert_eq!(w.get_block(2, 0, 0), None);
    // an inverted bound makes the box empty
    let mut v = VoxelWorld::new();
    v.fill_blocks(Block::Stone, 0, 5, 0, 0, 3, 0, None, None);
    assert_eq!(v.get_block(0, 3, 0), None);
    assert_eq!(v.get_block(0, 4, 0), None);
    assert_eq!(v.get_block(0, 5, 0), None);
}
