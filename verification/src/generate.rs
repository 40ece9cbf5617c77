//! The generation pipeline: classify and dispatch every element to its
//! structure generator, synthesize the ground beneath everything, then
//! persist the world — with both progress channels fed along the way.

use vstd::prelude::*;

use crate::block::Block;
use crate::classify::{classify, spec_classify, GeneratorKind};
use crate::element::{NodeElement, ProcessedElement, RelationElement, WayElement};
use crate::ground::Ground;
use crate::progress::{
    lemma_floor_le_whole, lemma_percent_le_trans, lemma_whole_le_floor, ConsoleBatcher,
    ConsoleSink, GuiSignal, Percent, PhaseProgress, ProgressSink,
};
use crate::terrain::{
    elevation_cell_after, flat_cell_after_grid, in_grid, in_spawn, is_elevation_result,
    is_flat_result, lemma_column_occupied, lemma_flat_column_occupied, lemma_spawn_platform,
    spec_top, synthesize_terrain,
};
use crate::world::{cell_of, VoxelWorld};

verus! {

/// Per-run settings.
pub struct RunConfig {
    /// Real elevation data was requested for this run.
    pub terrain: bool,
    /// Winter surface variant: snow instead of grass.
    pub winter: bool,
    /// Fill the underground with stone over a bedrock floor.
    pub fillground: bool,
    /// Verbose per-element diagnostics on the console.
    pub debug: bool,
    /// Output location handed to the world store.
    pub path: String,
}

/// The surface block of a run.
pub open spec fn spec_surface(winter: bool) -> Block {
    if winter {
        Block::Snow
    } else {
        Block::Grass
    }
}

/// The structure generators, one per tag category.  They are outside
/// collaborators: each may write to the world buffer in any way, and
/// nothing is assumed of them here.
pub trait FeatureGenerators {
    fn generate_buildings(
        &mut self,
        world: &mut VoxelWorld,
        way: &WayElement,
        ground: &Ground,
        config: &RunConfig,
    );

    fn generate_highways(
        &mut self,
        world: &mut VoxelWorld,
        element: &ProcessedElement,
        ground: &Ground,
        config: &RunConfig,
    );

    fn generate_landuse(
        &mut self,
        world: &mut VoxelWorld,
        way: &WayElement,
        ground: &Ground,
        config: &RunConfig,
    );

    fn generate_natural(
        &mut self,
        world: &mut VoxelWorld,
        element: &ProcessedElement,
        ground: &Ground,
        config: &RunConfig,
    );

    fn generate_amenities(
        &mut self,
        world: &mut VoxelWorld,
        element: &ProcessedElement,
        ground: &Ground,
        config: &RunConfig,
    );

    fn generate_leisure(
        &mut self,
        world: &mut VoxelWorld,
        way: &WayElement,
        ground: &Ground,
        config: &RunConfig,
    );

    fn generate_barriers(&mut self, world: &mut VoxelWorld, element: &ProcessedElement, ground: &Ground);

    fn generate_waterways(&mut self, world: &mut VoxelWorld, way: &WayElement, ground: &Ground);

    fn generate_railways(&mut self, world: &mut VoxelWorld, way: &WayElement, ground: &Ground);

    fn generate_aeroway(&mut self, world: &mut VoxelWorld, way: &WayElement, ground: &Ground);

    fn generate_siding(&mut self, world: &mut VoxelWorld, way: &WayElement, ground: &Ground);

    fn generate_doors(&mut self, world: &mut VoxelWorld, node: &NodeElement, ground: &Ground);

    fn generate_tourisms(&mut self, world: &mut VoxelWorld, node: &NodeElement, ground: &Ground);

    fn generate_building_from_relation(
        &mut self,
        world: &mut VoxelWorld,
        relation: &RelationElement,
        ground: &Ground,
        config: &RunConfig,
    );

    fn generate_water_areas(
        &mut self,
        world: &mut VoxelWorld,
        relation: &RelationElement,
        ground: &Ground,
    );

    fn generate_leisure_from_relation(
        &mut self,
        world: &mut VoxelWorld,
        relation: &RelationElement,
        ground: &Ground,
        config: &RunConfig,
    );
}

/// The durable store the finished world is persisted to.  Its failure
/// is the one error the pipeline surfaces.
pub trait WorldStore {
    fn persist(&mut self, world: &VoxelWorld, path: &str) -> Result<(), String>;
}

/// Route one element to at most one structure generator: the one
/// `classify` chose, which is the first of its variant's priority
/// chain whose predicate matches (`lemma_way_first_match` and its
/// siblings).  No match means the element is silently skipped; the
/// bridge category is a documented placeholder with no generator
/// wired up.  The dispatcher itself writes nothing to the world, so
/// when no generator is invoked the world is left exactly as it was.
pub fn dispatch_element<G: FeatureGenerators>(
    gens: &mut G,
    world: &mut VoxelWorld,
    element: &ProcessedElement,
    ground: &Ground,
    config: &RunConfig,
)
    ensures
        spec_classify(element) is None || spec_classify(element) == Some(GeneratorKind::Bridges)
            ==> final(world)@ == old(world)@,
{
    let kind = classify(element);
    match element {
        ProcessedElement::Way(way) => match kind {
            Some(GeneratorKind::Buildings) => gens.generate_buildings(world, way, ground, config),
            Some(GeneratorKind::Highways) => gens.generate_highways(
                world,
                element,
                ground,
                config,
            ),
            Some(GeneratorKind::Landuse) => gens.generate_landuse(world, way, ground, config),
            Some(GeneratorKind::Natural) => gens.generate_natural(world, element, ground, config),
            Some(GeneratorKind::Amenities) => gens.generate_amenities(
                world,
                element,
                ground,
                config,
            ),
            Some(GeneratorKind::Leisure) => gens.generate_leisure(world, way, ground, config),
            Some(GeneratorKind::Barriers) => gens.generate_barriers(world, element, ground),
            Some(GeneratorKind::Waterways) => gens.generate_waterways(world, way, ground),
            Some(GeneratorKind::Bridges) => {},
            Some(GeneratorKind::Railways) => gens.generate_railways(world, way, ground),
            Some(GeneratorKind::Aeroways) => gens.generate_aeroway(world, way, ground),
            Some(GeneratorKind::Sidings) => gens.generate_siding(world, way, ground),
            _ => {},
        },
        ProcessedElement::Node(node) => match kind {
            Some(GeneratorKind::Doors) => gens.generate_doors(world, node, ground),
            Some(GeneratorKind::Natural) => gens.generate_natural(world, element, ground, config),
            Some(GeneratorKind::Amenities) => gens.generate_amenities(
                world,
                element,
                ground,
                config,
            ),
            Some(GeneratorKind::Barriers) => gens.generate_barriers(world, element, ground),
            Some(GeneratorKind::Highways) => gens.generate_highways(
                world,
                element,
                ground,
                config,
            ),
            Some(GeneratorKind::Tourisms) => gens.generate_tourisms(world, node, ground),
            _ => {},
        },
        ProcessedElement::Relation(rel) => match kind {
            Some(GeneratorKind::BuildingRelations) => gens.generate_building_from_relation(
                world,
                rel,
                ground,
                config,
            ),
            Some(GeneratorKind::WaterAreas) => gens.generate_water_areas(world, rel, ground),
            Some(GeneratorKind::ParkRelations) => gens.generate_leisure_from_relation(
                world,
                rel,
                ground,
                config,
            ),
            _ => {},
        },
    }
}

/// Run the whole pipeline once: dispatch every element to its
/// generator, synthesize the ground, persist the world, and feed both
/// progress channels.  The returned error is the store's, surfaced
/// verbatim; everything before the persist step is infallible.  On
/// success the percentage signal ends at exactly 100; a persist
/// failure short-circuits before that terminal emission.
pub fn generate_world<G: FeatureGenerators, C: ConsoleSink, N: ProgressSink, S: WorldStore>(
    world: &mut VoxelWorld,
    elements: &Vec<ProcessedElement>,
    config: &RunConfig,
    ground: &Ground,
    scale_x: i32,
    scale_z: i32,
    gens: &mut G,
    console: &mut C,
    notify: &mut N,
    signal: &mut GuiSignal,
    store: &mut S,
) -> (r: Result<(), String>)
    requires
        0 <= scale_x,
        0 <= scale_z,
        ground.wf(),
        old(signal).wf(),
        old(signal)@.len() == 0,
    ensures
        final(signal).wf(),
        r is Ok ==> final(signal)@.len() > 0 && final(signal).last_emitted().is_exactly(100),
        r is Err ==> !final(signal).last_emitted().is_exactly(100),
        final(signal)@.len() > 0,
        final(signal)@[0] == (if config.terrain {
            (Percent { num: 10, den: 1 })
        } else {
            (Percent { num: 11, den: 1 })
        }),
        exists|i: int|
            0 <= i < final(signal)@.len() && (#[trigger] final(signal)@[i]) == (Percent {
                num: 60,
                den: 1,
            }),
        forall|i: int|
            0 <= i < final(signal)@.len() ==> (Percent { num: 10, den: 1 }).le(
                #[trigger] final(signal)@[i],
            ),
        ground.elevation_enabled ==> forall|xx: int, zz: int|
            #[trigger] in_grid(xx, zz, scale_x as int, scale_z as int) ==> exists|y: int|
                (#[trigger] cell_of(final(world)@, (xx, y, zz))) is Some && cell_of(
                    final(world)@,
                    (xx, y - 1, zz),
                ) is Some && cell_of(final(world)@, (xx, y - 2, zz)) is Some,
        ground.elevation_enabled ==> forall|q: (int, int, int)|
            #[trigger] in_spawn(q) ==> cell_of(final(world)@, q) is Some,
        !ground.elevation_enabled ==> forall|xx: int, zz: int|
            #[trigger] in_grid(xx, zz, scale_x as int, scale_z as int) ==> exists|y: int|
                (#[trigger] cell_of(final(world)@, (xx, y, zz))) is Some && cell_of(
                    final(world)@,
                    (xx, y - 1, zz),
                ) is Some,
        ground.elevation_enabled ==> exists|m0: Map<(int, int, int), Block>|
            #[trigger] is_elevation_result(
                final(world)@,
                m0,
                *ground,
                scale_x as int,
                scale_z as int,
                spec_surface(config.winter),
                config.fillground,
            ),
        !ground.elevation_enabled ==> exists|m0: Map<(int, int, int), Block>|
            #[trigger] is_flat_result(
                final(world)@,
                m0,
                *ground,
                scale_x as int,
                scale_z as int,
                spec_surface(config.winter),
            ),
        elements@.len() == 0 && ground.elevation_enabled ==> forall|q: (int, int, int)|
            cell_of(final(world)@, q) == elevation_cell_after(
                old(world)@,
                *ground,
                scale_x as int,
                scale_z as int,
                spec_surface(config.winter),
                config.fillground,
                q,
            ),
        elements@.len() == 0 && !ground.elevation_enabled ==> forall|q: (int, int, int)|
            cell_of(final(world)@, q) == flat_cell_after_grid(
                old(world)@,
                *ground,
                scale_x as int,
                scale_z as int,
                spec_surface(config.winter),
                q,
            ),
{
    console.stage("[3/5] Processing data...");
    if config.terrain {
        let p = Percent::whole(10);
        signal.record(p);
        notify.notify(p, "Fetching elevation...");
    }
    let p11 = Percent::whole(11);
    signal.record(p11);
    notify.notify(p11, "Processing terrain...");
    let ghost sig11 = signal@;
    proof {
        assert(sig11[0] == (if config.terrain {
            (Percent { num: 10, den: 1 })
        } else {
            (Percent { num: 11, den: 1 })
        }));
    }

    let n = elements.len();
    console.start(n as u64);
    if n > 0 {
        let mut phase = PhaseProgress::begin(11, 49, n as u128);
        proof {
            lemma_whole_le_floor(11, phase);
        }
        let mut i: usize = 0;
        while i < n
            invariant
                n == elements@.len(),
                i <= n,
                phase.wf(),
                phase.base == 11,
                phase.span == 49,
                phase.units == n as u128,
                phase.done == i as u128,
                signal.wf(),
                signal.last_emitted().le(phase.emitted_floor()),
                signal@.len() >= sig11.len(),
                forall|j: int| 0 <= j < sig11.len() ==> signal@[j] == sig11[j],
            decreases n - i,
        {
            console.add(1);
            let element = &elements[i];
            if config.debug {
                console.element_message(element.id(), element.kind());
            } else {
                console.clear_message();
            }
            dispatch_element(gens, world, element, ground, config);
            let ghost floor_pre = phase.emitted_floor();
            let step = phase.step();
            match step {
                Some(p) => {
                    proof {
                        if signal@.len() > 0 {
                            assert(signal.last_emitted().wf());
                        }
                        lemma_percent_le_trans(signal.last_emitted(), floor_pre, p);
                    }
                    let ghost sigpre = signal@;
                    signal.record(p);
                    proof {
                        assert forall|j: int| 0 <= j < sig11.len() implies signal@[j]
                            == sig11[j] by {
                            assert(signal@[j] == sigpre[j]);
                            assert(sigpre[j] == sig11[j]);
                        }
                    }
                    notify.notify(p, "");
                },
                None => {},
            }
            i += 1;
        }
        proof {
            lemma_floor_le_whole(phase, 60);
            if signal@.len() > 0 {
                assert(signal.last_emitted().wf());
            }
            lemma_percent_le_trans(
                signal.last_emitted(),
                phase.emitted_floor(),
                Percent { num: 60, den: 1 },
            );
        }
    }
    console.finish();
    let ghost m_gen = world@;

    console.stage("[4/5] Generating ground...");
    let p60 = Percent::whole(60);
    let ghost idx60 = signal@.len() as int;
    signal.record(p60);
    let ghost sig60 = signal@;
    notify.notify(p60, "Generating ground...");
    proof {
        assert(sig60[idx60] == (Percent { num: 60, den: 1 }));
        assert(sig60[0] == sig11[0]);
        assert(1 <= sig60.len());
    }

    let tx: u64 = (scale_x as i64 + 1) as u64;
    let tz: u64 = (scale_z as i64 + 1) as u64;
    proof {
        assert(1 <= tx * tz <= 0x4000_0000_0000_0000) by (nonlinear_arith)
            requires
                1 <= tx <= 0x8000_0000u64,
                1 <= tz <= 0x8000_0000u64,
        ;
        assert((tx * tz) as int == (scale_x + 1) * (scale_z + 1));
    }
    let total_cols: u64 = tx * tz;
    console.start(total_cols);
    let mut batcher = ConsoleBatcher::new(total_cols, 1500);
    let mut phase2 = PhaseProgress::begin(60, 30, total_cols as u128);
    proof {
        lemma_whole_le_floor(60, phase2);
    }
    let surface = if config.winter {
        Block::Snow
    } else {
        Block::Grass
    };
    synthesize_terrain(
        world,
        ground,
        scale_x,
        scale_z,
        surface,
        config.fillground,
        &mut batcher,
        console,
        &mut phase2,
        signal,
        notify,
    );
    let rem = batcher.finish_inc();
    console.add(rem);
    console.finish();

    proof {
        assert(signal@[idx60] == (Percent { num: 60, den: 1 }));
        assert(signal@[0] == (if config.terrain {
            (Percent { num: 10, den: 1 })
        } else {
            (Percent { num: 11, den: 1 })
        }));
        assert forall|i: int| 0 <= i < signal@.len() implies (Percent { num: 10, den: 1 }).le(
            #[trigger] signal@[i],
        ) by {
            assert(signal@[0].wf());
            assert(signal@[i].wf());
            assert(signal@[0].le(signal@[i]));
            assert((Percent { num: 10, den: 1 }).le(signal@[0]));
            lemma_percent_le_trans(Percent { num: 10, den: 1 }, signal@[0], signal@[i]);
        }
    }

    proof {
        let sxi = scale_x as int;
        let szi = scale_z as int;
        if ground.elevation_enabled {
            assert(is_elevation_result(
                world@,
                m_gen,
                *ground,
                sxi,
                szi,
                surface,
                config.fillground,
            ));
        } else {
            assert(is_flat_result(world@, m_gen, *ground, sxi, szi, surface));
        }
        if ground.elevation_enabled {
            assert forall|xx: int, zz: int| #[trigger] in_grid(xx, zz, sxi, szi) implies exists|
                y: int,
            |
                (#[trigger] cell_of(world@, (xx, y, zz))) is Some && cell_of(
                    world@,
                    (xx, y - 1, zz),
                ) is Some && cell_of(world@, (xx, y - 2, zz)) is Some by {
                let t = spec_top(m_gen, xx, zz, ground.level_spec(xx, zz));
                lemma_column_occupied(m_gen, xx, zz, t, surface, config.fillground);
                assert(cell_of(world@, (xx, t, zz)) == elevation_cell_after(
                    m_gen,
                    *ground,
                    sxi,
                    szi,
                    surface,
                    config.fillground,
                    (xx, t, zz),
                ));
                assert(cell_of(world@, (xx, t - 1, zz)) == elevation_cell_after(
                    m_gen,
                    *ground,
                    sxi,
                    szi,
                    surface,
                    config.fillground,
                    (xx, t - 1, zz),
                ));
                assert(cell_of(world@, (xx, t - 2, zz)) == elevation_cell_after(
                    m_gen,
                    *ground,
                    sxi,
                    szi,
                    surface,
                    config.fillground,
                    (xx, t - 2, zz),
                ));
                assert(cell_of(world@, (xx, t, zz)) is Some && cell_of(
                    world@,
                    (xx, t - 1, zz),
                ) is Some && cell_of(world@, (xx, t - 2, zz)) is Some);
            }
            assert forall|q: (int, int, int)| #[trigger] in_spawn(q) implies cell_of(
                world@,
                q,
            ) is Some by {
                lemma_spawn_platform(m_gen, *ground, sxi, szi, surface, config.fillground, q);
            }
        } else {
            assert forall|xx: int, zz: int| #[trigger] in_grid(xx, zz, sxi, szi) implies exists|
                y: int,
            |
                (#[trigger] cell_of(world@, (xx, y, zz))) is Some && cell_of(
                    world@,
                    (xx, y - 1, zz),
                ) is Some by {
                let l = ground.level_spec(xx, zz);
                lemma_flat_column_occupied(m_gen, xx, zz, l, surface);
                assert(cell_of(world@, (xx, l, zz)) == flat_cell_after_grid(
                    m_gen,
                    *ground,
                    sxi,
                    szi,
                    surface,
                    (xx, l, zz),
                ));
                assert(cell_of(world@, (xx, l - 1, zz)) == flat_cell_after_grid(
                    m_gen,
                    *ground,
                    sxi,
                    szi,
                    surface,
                    (xx, l - 1, zz),
                ));
                assert(cell_of(world@, (xx, l, zz)) is Some && cell_of(
                    world@,
                    (xx, l - 1, zz),
                ) is Some);
            }
        }
    }

    match store.persist(world, config.path.as_str()) {
        Ok(_) => {},
        Err(e) => {
            proof {
                if signal@.len() > 0 {
                    assert(signal.last_emitted().wf());
                }
                lemma_floor_le_whole(phase2, 90);
                lemma_percent_le_trans(
                    signal.last_emitted(),
                    phase2.emitted_floor(),
                    Percent { num: 90, den: 1 },
                );
                assert(!signal.last_emitted().is_exactly(100));
            }
            return Err(e);
        },
    }

    proof {
        lemma_floor_le_whole(phase2, 100);
        if signal@.len() > 0 {
            assert(signal.last_emitted().wf());
        }
        lemma_percent_le_trans(
            signal.last_emitted(),
            phase2.emitted_floor(),
            Percent { num: 100, den: 1 },
        );
    }
    let p100 = Percent::whole(100);
    let ghost sig_pre100 = signal@;
    signal.record(p100);
    proof {
        assert(signal@[0] == sig_pre100[0]);
        assert(signal@[idx60] == (Percent { num: 60, den: 1 }));
        assert forall|i: int| 0 <= i < signal@.len() implies (Percent { num: 10, den: 1 }).le(
            #[trigger] signal@[i],
        ) by {
            if i < sig_pre100.len() {
                assert(signal@[i] == sig_pre100[i]);
                assert((Percent { num: 10, den: 1 }).le(sig_pre100[i]));
            } else {
                assert(signal@[i] == p100);
            }
        }
    }
    notify.notify(p100, "Done! World generation completed.");
    console.stage("Done! World generation completed.");
    Ok(())
}

} // verus!
