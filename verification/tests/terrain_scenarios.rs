use voxelgen::block::Block;
use voxelgen::element::{NodeElement, ProcessedElement, RelationElement, Tags, WayElement};
use voxelgen::generate::{generate_world, FeatureGenerators, RunConfig, WorldStore};
use voxelgen::ground::Ground;
use voxelgen::progress::{ConsoleBatcher, ConsoleSink, GuiSignal, Percent, PhaseProgress, ProgressSink};
use voxelgen::terrain::synthesize_terrain;
use voxelgen::world::VoxelWorld;

struct NoGenerators;

impl FeatureGenerators for NoGenerators {
    fn generate_buildings(&mut self, _w: &mut VoxelWorld, _way: &WayElement, _g: &Ground, _c: &RunConfig) {}
    fn generate_highways(&mut self, _w: &mut VoxelWorld, _e: &ProcessedElement, _g: &Ground, _c: &RunConfig) {}
    fn generate_landuse(&mut self, _w: &mut VoxelWorld, _way: &WayElement, _g: &Ground, _c: &RunConfig) {}
    fn generate_natural(&mut self, _w: &mut VoxelWorld, _e: &ProcessedElement, _g: &Ground, _c: &RunConfig) {}
    fn generate_amenities(&mut self, _w: &mut VoxelWorld, _e: &ProcessedElement, _g: &Ground, _c: &RunConfig) {}
    fn generate_leisure(&mut self, _w: &mut VoxelWorld, _way: &WayElement, _g: &Ground, _c: &RunConfig) {}
    fn generate_barriers(&mut self, _w: &mut VoxelWorld, _e: &ProcessedElement, _g: &Ground) {}
    fn generate_waterways(&mut self, _w: &mut VoxelWorld, _way: &WayElement, _g: &Ground) {}
    fn generate_railways(&mut self, _w: &mut VoxelWorld, _way: &WayElement, _g: &Ground) {}
    fn generate_aeroway(&mut self, _w: &mut VoxelWorld, _way: &WayElement, _g: &Ground) {}
    fn generate_siding(&mut self, _w: &mut VoxelWorld, _way: &WayElement, _g: &Ground) {}
    fn generate_doors(&mut self, _w: &mut VoxelWorld, _n: &NodeElement, _g: &Ground) {}
    fn generate_tourisms(&mut self, _w: &mut VoxelWorld, _n: &NodeElement, _g: &Ground) {}
    fn generate_building_from_relation(&mut self, _w: &mut VoxelWorld, _r: &RelationElement, _g: &Ground, _c: &RunConfig) {}
    fn generate_water_areas(&mut self, _w: &mut VoxelWorld, _r: &RelationElement, _g: &Ground) {}
    fn generate_leisure_from_relation(&mut self, _w: &mut VoxelWorld, _r: &RelationElement, _g: &Ground, _c: &RunConfig) {}
}

struct QuietConsole;

impl ConsoleSink for QuietConsole {
    fn stage(&mut self, _message: &str) {}
    fn start(&mut self, _total: u64) {}
    fn add(&mut self, _count: u64) {}
    fn element_message(&mut self, _id: u64, _kind: &str) {}
    fn clear_message(&mut self) {}
    fn finish(&mut self) {}
}

struct RecordingNotify {
    values: Vec<(u128, u128)>,
}

impl ProgressSink for RecordingNotify {
    fn notify(&mut self, percent: Percent, _message: &str) {
        self.values.push((percent.num, percent.den));
    }
}

struct OkStore;

impl WorldStore for OkStore {
    fn persist(&mut self, _world: &VoxelWorld, _path: &str) -> Result<(), String> {
        Ok(())
    }
}

struct FailStore;

impl WorldStore for FailStore {
    fn persist(&mut self, _world: &VoxelWorld, _path: &str) -> Result<(), String> {
        Err(String::from("disk full"))
    }
}

fn config() -> RunConfig {
    RunConfig {
        terrain: false,
        winter: false,
        fillground: false,
        debug: false,
        path: String::from("out"),
    }
}

#[test]
fn scenario_zero_elements_flat() {
    // 0 elements, scaleX = scaleZ = 2, flat mode: 9 columns each get a
    // surface and one subsurface block, and the empty element phase is
    // a guarded no-op rather than a crash.
    let mut world = VoxelWorld::new();
    let elements: Vec<ProcessedElement> = Vec::new();
    let ground = Ground::flat(-62);
    let mut gens = NoGenerators;
    let mut console = QuietConsole;
    let mut notify = RecordingNotify { values: Vec::new() };
    let mut signal = GuiSignal::new();
    let mut store = OkStore;
    let r = generate_world(
        &mut world, &elements, &config(), &ground, 2, 2,
        &mut gens, &mut console, &mut notify, &mut signal, &mut store,
    );
    assert!(r.is_ok());
    for x in 0..=2 {
        for z in 0..=2 {
            assert_eq!(world.get_block(x, -62, z), Some(Block::Grass));
            assert_eq!(world.get_block(x, -63, z), Some(Block::Dirt));
            assert_eq!(world.get_block(x, -64, z), None);
            assert_eq!(world.get_block(x, -61, z), None);
        }
    }
    assert_eq!(world.get_block(3, -62, 0), None);
}

#[test]
fn signal_monotone_and_ends_at_100() {
    let mut world = VoxelWorld::new();
    let mut elements: Vec<ProcessedElement> = Vec::new();
    for i in 0..50 {
        let mut tags = Tags::new();
        tags.insert(String::from("landuse"), String::from("forest"));
        elements.push(ProcessedElement::Way(WayElement { id: i, tags }));
    }
    let ground = Ground::flat(-62);
    let mut gens = NoGenerators;
    let mut console = QuietConsole;
    let mut notify = RecordingNotify { values: Vec::new() };
    let mut signal = GuiSignal::new();
    let mut store = OkStore;
    let r = generate_world(
        &mut world, &elements, &config(), &ground, 4, 4,
        &mut gens, &mut console, &mut notify, &mut signal, &mut store,
    );
    assert!(r.is_ok());
    let n = signal.len();
    assert!(n >= 2);
    for i in 1..n {
        let a = signal.get(i - 1);
        let b = signal.get(i);
        // a.num / a.den <= b.num / b.den, exactly
        assert!(a.num * b.den <= b.num * a.den);
    }
    let last = signal.get(n - 1);
    assert_eq!(last.num, 100);
    assert_eq!(last.den, 1);
    // the record opens at the fixed 11-percent mark (terrain mode off)
    let first = signal.get(0);
    assert_eq!((first.num, first.den), (11, 1));
    // and holds the fixed ground mark
    let mut saw_60 = false;
    for i in 0..n {
        let p = signal.get(i);
        if p.num == 60 && p.den == 1 {
            saw_60 = true;
        }
    }
    assert!(saw_60);
    // the external sink saw the same emissions
    assert_eq!(notify.values.len(), n);
    assert_eq!(notify.values[n - 1], (100, 1));
}

#[test]
fn persist_failure_short_circuits() {
    let mut world = VoxelWorld::new();
    let elements: Vec<ProcessedElement> = Vec::new();
    let ground = Ground::flat(-62);
    let mut gens = NoGenerators;
    let mut console = QuietConsole;
    let mut notify = RecordingNotify { values: Vec::new() };
    let mut signal = GuiSignal::new();
    let mut store = FailStore;
    let r = generate_world(
        &mut world, &elements, &config(), &ground, 1, 1,
        &mut gens, &mut console, &mut notify, &mut signal, &mut store,
    );
    assert_eq!(r, Err(String::from("disk full")));
    let last = signal.get(signal.len() - 1);
    assert!(last.num < 100 * last.den);
}

fn ground_progress(total: u64) -> (ConsoleBatcher, PhaseProgress, GuiSignal) {
    (
        ConsoleBatcher::new(total, 1500),
        PhaseProgress::begin(60, 30, total as u128),
        GuiSignal::new(),
    )
}

#[test]
fn scenario_structure_seats_surface() {
    // Elevation-aware mode: a structure block at y = 5 with target
    // elevation 10 seats the surface search at 5; subsurface goes to 4
    // and 3, not 9 and 8.
    let mut world = VoxelWorld::new();
    world.set_block(Block::Other(7), 1, 5, 1, None, None);
    let ground = Ground {
        elevation_enabled: true,
        levels: Vec::new(),
        default_level: 10,
    };
    let mut console = QuietConsole;
    let mut notify = RecordingNotify { values: Vec::new() };
    let (mut batcher, mut phase, mut signal) = ground_progress(9);
    synthesize_terrain(
        &mut world, &ground, 2, 2, Block::Grass, false,
        &mut batcher, &mut console, &mut phase, &mut signal, &mut notify,
    );
    // the structure block itself is kept, not overwritten
    assert_eq!(world.get_block(1, 5, 1), Some(Block::Other(7)));
    assert_eq!(world.get_block(1, 4, 1), Some(Block::Dirt));
    assert_eq!(world.get_block(1, 3, 1), Some(Block::Dirt));
    assert_eq!(world.get_block(1, 9, 1), None);
    assert_eq!(world.get_block(1, 8, 1), None);
    // a column without structure seats at the target elevation
    assert_eq!(world.get_block(0, 10, 0), Some(Block::Grass));
    assert_eq!(world.get_block(0, 9, 0), Some(Block::Dirt));
    assert_eq!(world.get_block(0, 8, 0), Some(Block::Dirt));
}

#[test]
fn scenario_fill_disabled_leaves_depths_empty() {
    // Fill disabled: no floor or underground blocks in any column.
    let mut world = VoxelWorld::new();
    let ground = Ground {
        elevation_enabled: true,
        levels: Vec::new(),
        default_level: 10,
    };
    let mut console = QuietConsole;
    let mut notify = RecordingNotify { values: Vec::new() };
    let (mut batcher, mut phase, mut signal) = ground_progress(4);
    synthesize_terrain(
        &mut world, &ground, 1, 1, Block::Grass, false,
        &mut batcher, &mut console, &mut phase, &mut signal, &mut notify,
    );
    for x in 0..=1 {
        for z in 0..=1 {
            assert_eq!(world.get_block(x, -64, z), None);
            assert_eq!(world.get_block(x, -63, z), None);
            assert_eq!(world.get_block(x, 0, z), None);
            assert_eq!(world.get_block(x, 7, z), None);
        }
    }
}

#[test]
fn underground_fill_and_bedrock_floor() {
    // Fill enabled: stone down to the floor, a bedrock floor, and a
    // pre-existing bedrock floor cell is never overwritten.
    let mut world = VoxelWorld::new();
    world.set_block(Block::Bedrock, 0, -64, 0, None, None);
    let ground = Ground {
        elevation_enabled: true,
        levels: Vec::new(),
        default_level: 0,
    };
    let mut console = QuietConsole;
    let mut notify = RecordingNotify { values: Vec::new() };
    let (mut batcher, mut phase, mut signal) = ground_progress(4);
    synthesize_terrain(
        &mut world, &ground, 1, 1, Block::Grass, true,
        &mut batcher, &mut console, &mut phase, &mut signal, &mut notify,
    );
    // columns with nothing pre-placed get the full layered stack
    for (x, z) in [(1, 0), (0, 1), (1, 1)] {
        assert_eq!(world.get_block(x, 0, z), Some(Block::Grass));
        assert_eq!(world.get_block(x, -1, z), Some(Block::Dirt));
        assert_eq!(world.get_block(x, -2, z), Some(Block::Dirt));
        assert_eq!(world.get_block(x, -3, z), Some(Block::Stone));
        assert_eq!(world.get_block(x, -63, z), Some(Block::Stone));
        assert_eq!(world.get_block(x, -64, z), Some(Block::Bedrock));
    }
    // the pre-existing floor bedrock seats that column's surface search
    // at the floor and, protected by the exclusion filter, survives
    // exactly as it was
    assert_eq!(world.get_block(0, -64, 0), Some(Block::Bedrock));
    assert_eq!(world.get_block(0, 0, 0), None);
}

#[test]
fn spawn_platform_flattened() {
    // The 21x21 spawn region is occupied at the fixed spawn elevation
    // after an elevation-aware run, whatever the terrain computed.
    let mut world = VoxelWorld::new();
    let ground = Ground {
        elevation_enabled: true,
        levels: Vec::new(),
        default_level: 40,
    };
    let mut console = QuietConsole;
    let mut notify = RecordingNotify { values: Vec::new() };
    let (mut batcher, mut phase, mut signal) = ground_progress(4);
    synthesize_terrain(
        &mut world, &ground, 1, 1, Block::Grass, false,
        &mut batcher, &mut console, &mut phase, &mut signal, &mut notify,
    );
    for x in 0..=20 {
        for z in 0..=20 {
            assert_eq!(world.get_block(x, -62, z), Some(Block::Grass));
        }
    }
    // just outside the platform nothing was flattened
    assert_eq!(world.get_block(21, -62, 21), None);
}

#[test]
fn winter_surface_variant() {
    let mut world = VoxelWorld::new();
    let ground = Ground::flat(-62);
    let mut console = QuietConsole;
    let mut notify = RecordingNotify { values: Vec::new() };
    let (mut batcher, mut phase, mut signal) = ground_progress(1);
    synthesize_terrain(
        &mut world, &ground, 0, 0, Block::Snow, false,
        &mut batcher, &mut console, &mut phase, &mut signal, &mut notify,
    );
    assert_eq!(world.get_block(0, -62, 0), Some(Block::Snow));
    assert_eq!(world.get_block(0, -63, 0), Some(Block::Dirt));
}
