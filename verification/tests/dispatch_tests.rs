use voxelgen::element::{NodeElement, ProcessedElement, RelationElement, Tags, WayElement};
use voxelgen::generate::{dispatch_element, FeatureGenerators, RunConfig};
use voxelgen::ground::Ground;
use voxelgen::world::VoxelWorld;

struct RecordingGenerators {
    calls: Vec<&'static str>,
}

impl FeatureGenerators for RecordingGenerators {
    fn generate_buildings(&mut self, _w: &mut VoxelWorld, _way: &WayElement, _g: &Ground, _c: &RunConfig) {
        self.calls.push("buildings");
    }
    fn generate_highways(&mut self, _w: &mut VoxelWorld, _e: &ProcessedElement, _g: &Ground, _c: &RunConfig) {
        self.calls.push("highways");
    }
    fn generate_landuse(&mut self, _w: &mut VoxelWorld, _way: &WayElement, _g: &Ground, _c: &RunConfig) {
        self.calls.push("landuse");
    }
    fn generate_natural(&mut self, _w: &mut VoxelWorld, _e: &ProcessedElement, _g: &Ground, _c: &RunConfig) {
        self.calls.push("natural");
    }
    fn generate_amenities(&mut self, _w: &mut VoxelWorld, _e: &ProcessedElement, _g: &Ground, _c: &RunConfig) {
        self.calls.push("amenities");
    }
    fn generate_leisure(&mut self, _w: &mut VoxelWorld, _way: &WayElement, _g: &Ground, _c: &RunConfig) {
        self.calls.push("leisure");
    }
    fn generate_barriers(&mut self, _w: &mut VoxelWorld, _e: &ProcessedElement, _g: &Ground) {
        self.calls.push("barriers");
    }
    fn generate_waterways(&mut self, _w: &mut VoxelWorld, _way: &WayElement, _g: &Ground) {
        self.calls.push("waterways");
    }
    fn generate_railways(&mut self, _w: &mut VoxelWorld, _way: &WayElement, _g: &Ground) {
        self.calls.push("railways");
    }
    fn generate_aeroway(&mut self, _w: &mut VoxelWorld, _way: &WayElement, _g: &Ground) {
        self.calls.push("aeroway");
    }
    fn generate_siding(&mut self, _w: &mut VoxelWorld, _way: &WayElement, _g: &Ground) {
        self.calls.push("siding");
    }
    fn generate_doors(&mut self, _w: &mut VoxelWorld, _n: &NodeElement, _g: &Ground) {
        self.calls.push("doors");
    }
    fn generate_tourisms(&mut self, _w: &mut VoxelWorld, _n: &NodeElement, _g: &Ground) {
        self.calls.push("tourisms");
    }
    fn generate_building_from_relation(&mut self, _w: &mut VoxelWorld, _r: &RelationElement, _g: &Ground, _c: &RunConfig) {
        self.calls.push("building_from_relation");
    }
    fn generate_water_areas(&mut self, _w: &mut VoxelWorld, _r: &RelationElement, _g: &Ground) {
        self.calls.push("water_areas");
    }
    fn generate_leisure_from_relation(&mut self, _w: &mut VoxelWorld, _r: &RelationElement, _g: &Ground, _c: &RunConfig) {
        self.calls.push("leisure_from_relation");
    }
}

fn config() -> RunConfig {
    RunConfig {
        terrain: false,
        winter: false,
        fillground: false,
        debug: false,
        path: String::from("out"),
    }
}

fn tags(pairs: &[(&str, &str)]) -> Tags {
    let mut t = Tags::new();
    for (k, v) in pairs {
        t.insert(String::from(*k), String::from(*v));
    }
    t
}

fn dispatch(e: &ProcessedElement) -> Vec<&'static str> {
    let mut gens = RecordingGenerators { calls: Vec::new() };
    let mut world = VoxelWorld::new();
    let ground = Ground::flat(-62);
    dispatch_element(&mut gens, &mut world, e, &ground, &config());
    gens.calls
}

#[test]
fn building_and_highway_routes_to_buildings_only() {
    // Priority precedence: an element satisfying both the building and
    // the highway predicate invokes the building generator only.
    let e = ProcessedElement::Way(WayElement {
        id: 1,
        tags: tags(&[("building", "yes"), ("highway", "residential")]),
    });
    assert_eq!(dispatch(&e), vec!["buildings"]);
}

#[test]
fn unmatched_element_invokes_nothing() {
    let e = ProcessedElement::Way(WayElement {
        id: 2,
        tags: tags(&[("surface", "asphalt")]),
    });
    assert_eq!(dispatch(&e), Vec::<&'static str>::new());
}

#[test]
fn bridge_is_a_documented_no_op() {
    let e = ProcessedElement::Way(WayElement {
        id: 3,
        tags: tags(&[("bridge", "yes"), ("railway", "rail")]),
    });
    // the bridge predicate matches first, and its generator is a
    // placeholder: nothing is invoked, the railway entry is shadowed
    assert_eq!(dispatch(&e), Vec::<&'static str>::new());
}

#[test]
fn each_variant_uses_its_own_chain() {
    let node = ProcessedElement::Node(NodeElement {
        id: 4,
        tags: tags(&[("highway", "crossing"), ("tourism", "hotel")]),
    });
    assert_eq!(dispatch(&node), vec!["highways"]);
    let rel = ProcessedElement::Relation(RelationElement {
        id: 5,
        tags: tags(&[("leisure", "park")]),
    });
    assert_eq!(dispatch(&rel), vec!["leisure_from_relation"]);
    let rel2 = ProcessedElement::Relation(RelationElement {
        id: 6,
        tags: tags(&[("water", "lake"), ("building", "yes")]),
    });
    assert_eq!(dispatch(&rel2), vec!["building_from_relation"]);
}
