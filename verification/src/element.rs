//! Classified geospatial elements and their descriptive tags.
//!
//! An element is a point, a line/area, or a relation; the classifier
//! reads only its identity, its variant, and its tag mapping.  Tags
//! are kept as a write log of key/value strings whose abstract value
//! is a map from key to value; later entries shadow earlier ones, so
//! keys are unique in the abstract view.

use vstd::prelude::*;

verus! {

/// Abstract contents of a tag log: later entries shadow earlier ones.
pub open spec fn tag_map_of(log: Seq<(String, String)>) -> Map<Seq<char>, Seq<char>>
    decreases log.len(),
{
    if log.len() == 0 {
        Map::empty()
    } else {
        tag_map_of(log.drop_last()).insert(log.last().0@, log.last().1@)
    }
}

proof fn lemma_tag_found(log: Seq<(String, String)>, k: Seq<char>, i: int)
    requires
        0 <= i < log.len(),
        log[i].0@ == k,
        forall|j: int| i < j < log.len() ==> log[j].0@ != k,
    ensures
        tag_map_of(log).contains_key(k),
        tag_map_of(log)[k] == log[i].1@,
    decreases log.len(),
{
    if i == log.len() - 1 {
    } else {
        assert(log.drop_last()[i] == log[i]);
        lemma_tag_found(log.drop_last(), k, i);
    }
}

proof fn lemma_tag_absent(log: Seq<(String, String)>, k: Seq<char>)
    requires
        forall|j: int| 0 <= j < log.len() ==> log[j].0@ != k,
    ensures
        !tag_map_of(log).contains_key(k),
    decreases log.len(),
{
    if log.len() > 0 {
        lemma_tag_absent(log.drop_last(), k);
    }
}

/// The descriptive tag mapping of one element.
pub struct Tags {
    entries: Vec<(String, String)>,
}

impl View for Tags {
    type V = Map<Seq<char>, Seq<char>>;

    closed spec fn view(&self) -> Map<Seq<char>, Seq<char>> {
        tag_map_of(self.entries@)
    }
}

impl Tags {
    /// An empty tag mapping.
    pub fn new() -> (t: Tags)
        ensures
            t@ == Map::<Seq<char>, Seq<char>>::empty(),
    {
        Tags { entries: Vec::new() }
    }

    /// Set one tag; an existing value for the key is replaced.
    pub fn insert(&mut self, key: String, value: String)
        ensures
            final(self)@ == old(self)@.insert(key@, value@),
    {
        let ghost log0 = self.entries@;
        self.entries.push((key, value));
        proof {
            assert(self.entries@.drop_last() =~= log0);
        }
    }

    /// Look a key up.
    pub fn lookup(&self, key: &str) -> (r: Option<&String>)
        ensures
            match r {
                Some(v) => self@.contains_key(key@) && v@ == self@[key@],
                None => !self@.contains_key(key@),
            },
    {
        let k: String = key.to_owned();
        let mut i: usize = self.entries.len();
        while i > 0
            invariant
                k@ == key@,
                i <= self.entries@.len(),
                forall|j: int| i <= j < self.entries@.len() ==> self.entries@[j].0@ != key@,
            decreases i,
        {
            i -= 1;
            let e = &self.entries[i];
            if e.0 == k {
                proof {
                    lemma_tag_found(self.entries@, key@, i as int);
                }
                return Some(&e.1);
            }
        }
        proof {
            lemma_tag_absent(self.entries@, key@);
        }
        None
    }

    /// Whether the key is present.
    pub fn contains_key(&self, key: &str) -> (r: bool)
        ensures
            r == self@.contains_key(key@),
    {
        match self.lookup(key) {
            Some(_) => true,
            None => false,
        }
    }

    /// Whether the key is present with exactly this value.
    pub fn value_is(&self, key: &str, value: &str) -> (r: bool)
        ensures
            r == (self@.contains_key(key@) && self@[key@] == value@),
    {
        match self.lookup(key) {
            Some(v) => {
                let w: String = value.to_owned();
                *v == w
            },
            None => false,
        }
    }
}

/// A point feature.
pub struct NodeElement {
    pub id: u64,
    pub tags: Tags,
}

/// A linear or area feature.
pub struct WayElement {
    pub id: u64,
    pub tags: Tags,
}

/// A relation feature.
pub struct RelationElement {
    pub id: u64,
    pub tags: Tags,
}

/// One classified geospatial element.  Variant-specific geometry is
/// the structure generators' concern and is not modelled here.
pub enum ProcessedElement {
    Node(NodeElement),
    Way(WayElement),
    Relation(RelationElement),
}

impl ProcessedElement {
    /// The element's tag mapping.
    pub open spec fn tags_view(&self) -> Map<Seq<char>, Seq<char>> {
        match self {
            ProcessedElement::Node(n) => n.tags@,
            ProcessedElement::Way(w) => w.tags@,
            ProcessedElement::Relation(r) => r.tags@,
        }
    }

    /// The element's stable identity.
    pub fn id(&self) -> (r: u64)
        ensures
            r == match self {
                ProcessedElement::Node(n) => n.id,
                ProcessedElement::Way(w) => w.id,
                ProcessedElement::Relation(rel) => rel.id,
            },
    {
        match self {
            ProcessedElement::Node(n) => n.id,
            ProcessedElement::Way(w) => w.id,
            ProcessedElement::Relation(r) => r.id,
        }
    }

    /// The element's kind label.
    pub fn kind(&self) -> (r: &'static str)
        ensures
            r@ == match self {
                ProcessedElement::Node(_) => "node"@,
                ProcessedElement::Way(_) => "way"@,
                ProcessedElement::Relation(_) => "relation"@,
            },
    {
        match self {
            ProcessedElement::Node(_) => "node",
            ProcessedElement::Way(_) => "way",
            ProcessedElement::Relation(_) => "relation",
        }
    }
}

} // verus!
