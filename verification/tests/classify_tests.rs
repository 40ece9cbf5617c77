use voxelgen::classify::{classify, classify_node, classify_relation, classify_way, GeneratorKind};
use voxelgen::element::{NodeElement, ProcessedElement, RelationElement, Tags, WayElement};

fn tags(pairs: &[(&str, &str)]) -> Tags {
    let mut t = Tags::new();
    for (k, v) in pairs {
        t.insert(String::from(*k), String::from(*v));
    }
    t
}

#[test]
fn building_outranks_highway() {
    // An element matching several predicates is routed only to the
    // first of the priority chain.
    let t = tags(&[("building", "yes"), ("highway", "residential")]);
    assert_eq!(classify_way(&t), Some(GeneratorKind::Buildings));
    let e = ProcessedElement::Way(WayElement { id: 1, tags: t });
    assert_eq!(classify(&e), Some(GeneratorKind::Buildings));
}

#[test]
fn way_chain_in_order() {
    assert_eq!(classify_way(&tags(&[("building:part", "yes")])), Some(GeneratorKind::Buildings));
    assert_eq!(classify_way(&tags(&[("highway", "residential")])), Some(GeneratorKind::Highways));
    assert_eq!(classify_way(&tags(&[("landuse", "forest")])), Some(GeneratorKind::Landuse));
    assert_eq!(classify_way(&tags(&[("natural", "water")])), Some(GeneratorKind::Natural));
    assert_eq!(classify_way(&tags(&[("amenity", "school")])), Some(GeneratorKind::Amenities));
    assert_eq!(classify_way(&tags(&[("leisure", "pitch")])), Some(GeneratorKind::Leisure));
    assert_eq!(classify_way(&tags(&[("barrier", "wall")])), Some(GeneratorKind::Barriers));
    assert_eq!(classify_way(&tags(&[("waterway", "river")])), Some(GeneratorKind::Waterways));
    assert_eq!(classify_way(&tags(&[("bridge", "yes")])), Some(GeneratorKind::Bridges));
    assert_eq!(classify_way(&tags(&[("railway", "rail")])), Some(GeneratorKind::Railways));
    assert_eq!(classify_way(&tags(&[("aeroway", "runway")])), Some(GeneratorKind::Aeroways));
    assert_eq!(classify_way(&tags(&[("area:aeroway", "apron")])), Some(GeneratorKind::Aeroways));
    assert_eq!(classify_way(&tags(&[("service", "siding")])), Some(GeneratorKind::Sidings));
    assert_eq!(classify_way(&tags(&[("service", "driveway")])), None);
    assert_eq!(classify_way(&tags(&[])), None);
}

#[test]
fn node_chain_in_order() {
    assert_eq!(classify_node(&tags(&[("door", "yes")])), Some(GeneratorKind::Doors));
    assert_eq!(classify_node(&tags(&[("entrance", "main")])), Some(GeneratorKind::Doors));
    assert_eq!(classify_node(&tags(&[("natural", "tree")])), Some(GeneratorKind::Natural));
    // a point's natural predicate asks for the exact value "tree"
    assert_eq!(classify_node(&tags(&[("natural", "peak")])), None);
    assert_eq!(classify_node(&tags(&[("amenity", "bench")])), Some(GeneratorKind::Amenities));
    assert_eq!(classify_node(&tags(&[("barrier", "bollard")])), Some(GeneratorKind::Barriers));
    assert_eq!(classify_node(&tags(&[("highway", "crossing")])), Some(GeneratorKind::Highways));
    assert_eq!(classify_node(&tags(&[("tourism", "viewpoint")])), Some(GeneratorKind::Tourisms));
    assert_eq!(
        classify_node(&tags(&[("entrance", "main"), ("tourism", "hotel")])),
        Some(GeneratorKind::Doors)
    );
}

#[test]
fn relation_chain_in_order() {
    assert_eq!(
        classify_relation(&tags(&[("building", "yes")])),
        Some(GeneratorKind::BuildingRelations)
    );
    assert_eq!(classify_relation(&tags(&[("water", "lake")])), Some(GeneratorKind::WaterAreas));
    assert_eq!(
        classify_relation(&tags(&[("leisure", "park")])),
        Some(GeneratorKind::ParkRelations)
    );
    assert_eq!(classify_relation(&tags(&[("leisure", "pitch")])), None);
    assert_eq!(
        classify_relation(&tags(&[("water", "lake"), ("building", "yes")])),
        Some(GeneratorKind::BuildingRelations)
    );
}

#[test]
fn node_and_way_chains_differ() {
    // the same tags route differently by element variant
    let e = ProcessedElement::Node(NodeElement {
        id: 9,
        tags: tags(&[("natural", "wood")]),
    });
    assert_eq!(classify(&e), None);
    let w = ProcessedElement::Way(WayElement {
        id: 9,
        tags: tags(&[("natural", "wood")]),
    });
    assert_eq!(classify(&w), Some(GeneratorKind::Natural));
    let r = ProcessedElement::Relation(RelationElement {
        id: 9,
        tags: tags(&[("highway", "residential")]),
    });
    assert_eq!(classify(&r), None);
}

#[test]
fn tag_log_later_entry_shadows() {
    let mut t = Tags::new();
    t.insert(String::from("leisure"), String::from("pitch"));
    t.insert(String::from("leisure"), String::from("park"));
    assert!(t.value_is("leisure", "park"));
    assert!(!t.value_is("leisure", "pitch"));
    assert!(t.contains_key("leisure"));
    assert!(!t.contains_key("landuse"));
}
