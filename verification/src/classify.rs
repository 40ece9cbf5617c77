//! Classification of elements: each element is routed to at most one
//! structure generator, chosen by the first matching predicate in a
//! fixed priority order over its tags — an explicit precedence
//! contract, not a disjointness guarantee.

use vstd::prelude::*;

use crate::element::{ProcessedElement, Tags};

verus! {

/// The structure generators an element can be routed to.
#[derive(Clone, Copy, PartialEq, Eq, Structural, Debug)]
pub enum GeneratorKind {
    Buildings,
    Highways,
    Landuse,
    Natural,
    Amenities,
    Leisure,
    Barriers,
    Waterways,
    Bridges,
    Railways,
    Aeroways,
    Sidings,
    Doors,
    Tourisms,
    BuildingRelations,
    WaterAreas,
    ParkRelations,
}

/// Whether a line/area element with these tags matches a generator's
/// predicate.
pub open spec fn way_matches(k: GeneratorKind, t: Map<Seq<char>, Seq<char>>) -> bool {
    match k {
        GeneratorKind::Buildings => t.contains_key("building"@) || t.contains_key(
            "building:part"@,
        ),
        GeneratorKind::Highways => t.contains_key("highway"@),
        GeneratorKind::Landuse => t.contains_key("landuse"@),
        GeneratorKind::Natural => t.contains_key("natural"@),
        GeneratorKind::Amenities => t.contains_key("amenity"@),
        GeneratorKind::Leisure => t.contains_key("leisure"@),
        GeneratorKind::Barriers => t.contains_key("barrier"@),
        GeneratorKind::Waterways => t.contains_key("waterway"@),
        GeneratorKind::Bridges => t.contains_key("bridge"@),
        GeneratorKind::Railways => t.contains_key("railway"@),
        GeneratorKind::Aeroways => t.contains_key("aeroway"@) || t.contains_key("area:aeroway"@),
        GeneratorKind::Sidings => t.contains_key("service"@) && t["service"@] == "siding"@,
        _ => false,
    }
}

/// Whether a point element with these tags matches a generator's
/// predicate.
pub open spec fn node_matches(k: GeneratorKind, t: Map<Seq<char>, Seq<char>>) -> bool {
    match k {
        GeneratorKind::Doors => t.contains_key("door"@) || t.contains_key("entrance"@),
        GeneratorKind::Natural => t.contains_key("natural"@) && t["natural"@] == "tree"@,
        GeneratorKind::Amenities => t.contains_key("amenity"@),
        GeneratorKind::Barriers => t.contains_key("barrier"@),
        GeneratorKind::Highways => t.contains_key("highway"@),
        GeneratorKind::Tourisms => t.contains_key("tourism"@),
        _ => false,
    }
}

/// Whether a relation element with these tags matches a generator's
/// predicate.
pub open spec fn relation_matches(k: GeneratorKind, t: Map<Seq<char>, Seq<char>>) -> bool {
    match k {
        GeneratorKind::BuildingRelations => t.contains_key("building"@) || t.contains_key(
            "building:part"@,
        ),
        GeneratorKind::WaterAreas => t.contains_key("water"@),
        GeneratorKind::ParkRelations => t.contains_key("leisure"@) && t["leisure"@] == "park"@,
        _ => false,
    }
}

/// Priority order for line/area elements, highest first.
pub open spec fn way_priority() -> Seq<GeneratorKind> {
    seq![
        GeneratorKind::Buildings,
        GeneratorKind::Highways,
        GeneratorKind::Landuse,
        GeneratorKind::Natural,
        GeneratorKind::Amenities,
        GeneratorKind::Leisure,
        GeneratorKind::Barriers,
        GeneratorKind::Waterways,
        GeneratorKind::Bridges,
        GeneratorKind::Railways,
        GeneratorKind::Aeroways,
        GeneratorKind::Sidings,
    ]
}

/// Priority order for point elements, highest first.
pub open spec fn node_priority() -> Seq<GeneratorKind> {
    seq![
        GeneratorKind::Doors,
        GeneratorKind::Natural,
        GeneratorKind::Amenities,
        GeneratorKind::Barriers,
        GeneratorKind::Highways,
        GeneratorKind::Tourisms,
    ]
}

/// Priority order for relation elements, highest first.
pub open spec fn relation_priority() -> Seq<GeneratorKind> {
    seq![GeneratorKind::BuildingRelations, GeneratorKind::WaterAreas, GeneratorKind::ParkRelations]
}

/// The generator chosen for a line/area element.
pub open spec fn spec_classify_way(t: Map<Seq<char>, Seq<char>>) -> Option<GeneratorKind> {
    if way_matches(GeneratorKind::Buildings, t) {
        Some(GeneratorKind::Buildings)
    } else if way_matches(GeneratorKind::Highways, t) {
        Some(GeneratorKind::Highways)
    } else if way_matches(GeneratorKind::Landuse, t) {
        Some(GeneratorKind::Landuse)
    } else if way_matches(GeneratorKind::Natural, t) {
        Some(GeneratorKind::Natural)
    } else if way_matches(GeneratorKind::Amenities, t) {
        Some(GeneratorKind::Amenities)
    } else if way_matches(GeneratorKind::Leisure, t) {
        Some(GeneratorKind::Leisure)
    } else if way_matches(GeneratorKind::Barriers, t) {
        Some(GeneratorKind::Barriers)
    } else if way_matches(GeneratorKind::Waterways, t) {
        Some(GeneratorKind::Waterways)
    } else if way_matches(GeneratorKind::Bridges, t) {
        Some(GeneratorKind::Bridges)
    } else if way_matches(GeneratorKind::Railways, t) {
        Some(GeneratorKind::Railways)
    } else if way_matches(GeneratorKind::Aeroways, t) {
        Some(GeneratorKind::Aeroways)
    } else if way_matches(GeneratorKind::Sidings, t) {
        Some(GeneratorKind::Sidings)
    } else {
        None
    }
}

/// The generator chosen for a point element.
pub open spec fn spec_classify_node(t: Map<Seq<char>, Seq<char>>) -> Option<GeneratorKind> {
    if node_matches(GeneratorKind::Doors, t) {
        Some(GeneratorKind::Doors)
    } else if node_matches(GeneratorKind::Natural, t) {
        Some(GeneratorKind::Natural)
    } else if node_matches(GeneratorKind::Amenities, t) {
        Some(GeneratorKind::Amenities)
    } else if node_matches(GeneratorKind::Barriers, t) {
        Some(GeneratorKind::Barriers)
    } else if node_matches(GeneratorKind::Highways, t) {
        Some(GeneratorKind::Highways)
    } else if node_matches(GeneratorKind::Tourisms, t) {
        Some(GeneratorKind::Tourisms)
    } else {
        None
    }
}

/// The generator chosen for a relation element.
pub open spec fn spec_classify_relation(t: Map<Seq<char>, Seq<char>>) -> Option<GeneratorKind> {
    if relation_matches(GeneratorKind::BuildingRelations, t) {
        Some(GeneratorKind::BuildingRelations)
    } else if relation_matches(GeneratorKind::WaterAreas, t) {
        Some(GeneratorKind::WaterAreas)
    } else if relation_matches(GeneratorKind::ParkRelations, t) {
        Some(GeneratorKind::ParkRelations)
    } else {
        None
    }
}

/// The generator chosen for an element, by its variant's chain.
pub open spec fn spec_classify(e: &ProcessedElement) -> Option<GeneratorKind> {
    match e {
        ProcessedElement::Way(_) => spec_classify_way(e.tags_view()),
        ProcessedElement::Node(_) => spec_classify_node(e.tags_view()),
        ProcessedElement::Relation(_) => spec_classify_relation(e.tags_view()),
    }
}

/// The chosen generator, if any, is the first of the chain whose
/// predicate the tags satisfy, and no generator at all is chosen when
/// no predicate matches.
pub open spec fn first_match_of(
    chain: Seq<GeneratorKind>,
    matches: spec_fn(GeneratorKind, Map<Seq<char>, Seq<char>>) -> bool,
    t: Map<Seq<char>, Seq<char>>,
    r: Option<GeneratorKind>,
) -> bool {
    match r {
        Some(k) => exists|i: int|
            0 <= i < chain.len() && chain[i] == k && #[trigger] matches(chain[i], t) && (forall|
                j: int,
            |
                0 <= j < i ==> !matches(chain[j], t)),
        None => forall|j: int| 0 <= j < chain.len() ==> !matches(chain[j], t),
    }
}

/// Line/area classification follows the fixed priority order: the
/// result is the first matching predicate of the chain.
pub proof fn lemma_way_first_match(t: Map<Seq<char>, Seq<char>>)
    ensures
        first_match_of(way_priority(), |k, t2| way_matches(k, t2), t, spec_classify_way(t)),
{
    let c = way_priority();
    let f = |k, t2| way_matches(k, t2);
    assert forall|k: GeneratorKind, t2: Map<Seq<char>, Seq<char>>| #[trigger]
        f(k, t2) == way_matches(k, t2) by {}
    match spec_classify_way(t) {
        Some(k) => {
            let i = choose|i: int| 0 <= i < c.len() && c[i] == k;
            assert(c[0] == GeneratorKind::Buildings);
            assert(c[1] == GeneratorKind::Highways);
            assert(c[2] == GeneratorKind::Landuse);
            assert(c[3] == GeneratorKind::Natural);
            assert(c[4] == GeneratorKind::Amenities);
            assert(c[5] == GeneratorKind::Leisure);
            assert(c[6] == GeneratorKind::Barriers);
            assert(c[7] == GeneratorKind::Waterways);
            assert(c[8] == GeneratorKind::Bridges);
            assert(c[9] == GeneratorKind::Railways);
            assert(c[10] == GeneratorKind::Aeroways);
            assert(c[11] == GeneratorKind::Sidings);
            if k == GeneratorKind::Buildings {
                assert(f(c[0], t) && forall|j: int| 0 <= j < 0 ==> !f(c[j], t));
            } else if k == GeneratorKind::Highways {
                assert(f(c[1], t) && forall|j: int| 0 <= j < 1 ==> !f(c[j], t));
            } else if k == GeneratorKind::Landuse {
                assert(f(c[2], t) && forall|j: int| 0 <= j < 2 ==> !f(c[j], t));
            } else if k == GeneratorKind::Natural {
                assert(f(c[3], t) && forall|j: int| 0 <= j < 3 ==> !f(c[j], t));
            } else if k == GeneratorKind::Amenities {
                assert(f(c[4], t) && forall|j: int| 0 <= j < 4 ==> !f(c[j], t));
            } else if k == GeneratorKind::Leisure {
                assert(f(c[5], t) && forall|j: int| 0 <= j < 5 ==> !f(c[j], t));
            } else if k == GeneratorKind::Barriers {
                assert(f(c[6], t) && forall|j: int| 0 <= j < 6 ==> !f(c[j], t));
            } else if k == GeneratorKind::Waterways {
                assert(f(c[7], t) && forall|j: int| 0 <= j < 7 ==> !f(c[j], t));
            } else if k == GeneratorKind::Bridges {
                assert(f(c[8], t) && forall|j: int| 0 <= j < 8 ==> !f(c[j], t));
            } else if k == GeneratorKind::Railways {
                assert(f(c[9], t) && forall|j: int| 0 <= j < 9 ==> !f(c[j], t));
            } else if k == GeneratorKind::Aeroways {
                assert(f(c[10], t) && forall|j: int| 0 <= j < 10 ==> !f(c[j], t));
            } else {
                assert(k == GeneratorKind::Sidings);
                assert(f(c[11], t) && forall|j: int| 0 <= j < 11 ==> !f(c[j], t));
            }
        },
        None => {
            assert forall|j: int| 0 <= j < c.len() implies !f(c[j], t) by {
                assert(!way_matches(c[j], t));
            }
        },
    }
}

/// Point classification follows the fixed priority order.
pub proof fn lemma_node_first_match(t: Map<Seq<char>, Seq<char>>)
    ensures
        first_match_of(node_priority(), |k, t2| node_matches(k, t2), t, spec_classify_node(t)),
{
    let c = node_priority();
    let f = |k, t2| node_matches(k, t2);
    assert forall|k: GeneratorKind, t2: Map<Seq<char>, Seq<char>>| #[trigger]
        f(k, t2) == node_matches(k, t2) by {}
    match spec_classify_node(t) {
        Some(k) => {
            assert(c[0] == GeneratorKind::Doors);
            assert(c[1] == GeneratorKind::Natural);
            assert(c[2] == GeneratorKind::Amenities);
            assert(c[3] == GeneratorKind::Barriers);
            assert(c[4] == GeneratorKind::Highways);
            assert(c[5] == GeneratorKind::Tourisms);
            if k == GeneratorKind::Doors {
                assert(f(c[0], t) && forall|j: int| 0 <= j < 0 ==> !f(c[j], t));
            } else if k == GeneratorKind::Natural {
                assert(f(c[1], t) && forall|j: int| 0 <= j < 1 ==> !f(c[j], t));
            } else if k == GeneratorKind::Amenities {
                assert(f(c[2], t) && forall|j: int| 0 <= j < 2 ==> !f(c[j], t));
            } else if k == GeneratorKind::Barriers {
                assert(f(c[3], t) && forall|j: int| 0 <= j < 3 ==> !f(c[j], t));
            } else if k == GeneratorKind::Highways {
                assert(f(c[4], t) && forall|j: int| 0 <= j < 4 ==> !f(c[j], t));
            } else {
                assert(k == GeneratorKind::Tourisms);
                assert(f(c[5], t) && forall|j: int| 0 <= j < 5 ==> !f(c[j], t));
            }
        },
        None => {
            assert forall|j: int| 0 <= j < c.len() implies !f(c[j], t) by {
                assert(!node_matches(c[j], t));
            }
        },
    }
}

/// Relation classification follows the fixed priority order.
pub proof fn lemma_relation_first_match(t: Map<Seq<char>, Seq<char>>)
    ensures
        first_match_of(
            relation_priority(),
            |k, t2| relation_matches(k, t2),
            t,
            spec_classify_relation(t),
        ),
{
    let c = relation_priority();
    let f = |k, t2| relation_matches(k, t2);
    assert forall|k: GeneratorKind, t2: Map<Seq<char>, Seq<char>>| #[trigger]
        f(k, t2) == relation_matches(k, t2) by {}
    match spec_classify_relation(t) {
        Some(k) => {
            assert(c[0] == GeneratorKind::BuildingRelations);
            assert(c[1] == GeneratorKind::WaterAreas);
            assert(c[2] == GeneratorKind::ParkRelations);
            if k == GeneratorKind::BuildingRelations {
                assert(f(c[0], t) && forall|j: int| 0 <= j < 0 ==> !f(c[j], t));
            } else if k == GeneratorKind::WaterAreas {
                assert(f(c[1], t) && forall|j: int| 0 <= j < 1 ==> !f(c[j], t));
            } else {
                assert(k == GeneratorKind::ParkRelations);
                assert(f(c[2], t) && forall|j: int| 0 <= j < 2 ==> !f(c[j], t));
            }
        },
        None => {
            assert forall|j: int| 0 <= j < c.len() implies !f(c[j], t) by {
                assert(!relation_matches(c[j], t));
            }
        },
    }
}

/// Classify a line/area element by its tags.
pub fn classify_way(tags: &Tags) -> (r: Option<GeneratorKind>)
    ensures
        r == spec_classify_way(tags@),
{
    if tags.contains_key("building") || tags.contains_key("building:part") {
        Some(GeneratorKind::Buildings)
    } else if tags.contains_key("highway") {
        Some(GeneratorKind::Highways)
    } else if tags.contains_key("landuse") {
        Some(GeneratorKind::Landuse)
    } else if tags.contains_key("natural") {
        Some(GeneratorKind::Natural)
    } else if tags.contains_key("amenity") {
        Some(GeneratorKind::Amenities)
    } else if tags.contains_key("leisure") {
        Some(GeneratorKind::Leisure)
    } else if tags.contains_key("barrier") {
        Some(GeneratorKind::Barriers)
    } else if tags.contains_key("waterway") {
        Some(GeneratorKind::Waterways)
    } else if tags.contains_key("bridge") {
        Some(GeneratorKind::Bridges)
    } else if tags.contains_key("railway") {
        Some(GeneratorKind::Railways)
    } else if tags.contains_key("aeroway") || tags.contains_key("area:aeroway") {
        Some(GeneratorKind::Aeroways)
    } else if tags.value_is("service", "siding") {
        Some(GeneratorKind::Sidings)
    } else {
        None
    }
}

/// Classify a point element by its tags.
pub fn classify_node(tags: &Tags) -> (r: Option<GeneratorKind>)
    ensures
        r == spec_classify_node(tags@),
{
    if tags.contains_key("door") || tags.contains_key("entrance") {
        Some(GeneratorKind::Doors)
    } else if tags.value_is("natural", "tree") {
        Some(GeneratorKind::Natural)
    } else if tags.contains_key("amenity") {
        Some(GeneratorKind::Amenities)
    } else if tags.contains_key("barrier") {
        Some(GeneratorKind::Barriers)
    } else if tags.contains_key("highway") {
        Some(GeneratorKind::Highways)
    } else if tags.contains_key("tourism") {
        Some(GeneratorKind::Tourisms)
    } else {
        None
    }
}

/// Classify a relation element by its tags.
pub fn classify_relation(tags: &Tags) -> (r: Option<GeneratorKind>)
    ensures
        r == spec_classify_relation(tags@),
{
    if tags.contains_key("building") || tags.contains_key("building:part") {
        Some(GeneratorKind::BuildingRelations)
    } else if tags.contains_key("water") {
        Some(GeneratorKind::WaterAreas)
    } else if tags.value_is("leisure", "park") {
        Some(GeneratorKind::ParkRelations)
    } else {
        None
    }
}

/// Classify an element by its variant's predicate chain.
pub fn classify(element: &ProcessedElement) -> (r: Option<GeneratorKind>)
    ensures
        r == spec_classify(element),
{
    match element {
        ProcessedElement::Way(w) => classify_way(&w.tags),
        ProcessedElement::Node(n) => classify_node(&n.tags),
        ProcessedElement::Relation(rel) => classify_relation(&rel.tags),
    }
}

} // verus!
