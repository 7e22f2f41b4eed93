//! The element model: nodes, ways and relations as they come from an
//! Overpass-style response, the response envelope, the id-to-element lookup,
//! and the failure kinds of conversion.
use std::collections::HashMap;

use vstd::prelude::*;

use crate::tags::Tags;

verus! {

broadcast use vstd::std_specs::hash::group_hash_axioms;

/// The metadata block of a response.
pub struct OSM3S {
    pub timestamp_osm_base: String,
    pub timestamp_areas_base: String,
    pub copyright: String,
}

/// One member of a relation: a typed reference plus a role string.
pub struct RelationMember {
    pub member_type: String,
    pub member_ref: u64,
    pub role: String,
}

/// What an element is: a point, a polyline reference, or an aggregation.
/// Node coordinates are integer fixed-point degrees, `lat` the latitude and
/// `lon` the longitude.
pub enum ElementType {
    Node { lat: i32, lon: i32 },
    Way { nodes: Vec<u64> },
    Relation { members: Vec<RelationMember> },
}

/// A map element: its kind, its id — the lookup key — and its tags.
pub struct Element {
    pub kind: ElementType,
    pub id: u64,
    pub tags: Option<Tags>,
}

impl Element {
    /// The element's tags, if present, have pairwise distinct keys.
    pub open spec fn wf(&self) -> bool {
        match self.tags {
            Some(t) => t.wf(),
            None => true,
        }
    }
}

/// A decoded response: its generator, metadata and elements.
pub struct Response {
    pub generator: String,
    pub osm3s: OSM3S,
    pub elements: Vec<Element>,
}

/// Why converting an element failed.
#[derive(Debug)]
pub enum Error {
    /// A referenced element resolved to the wrong kind, or a relation is of
    /// a kind the conversion does not support.
    IncorrectType(&'static str),
    /// Structurally insufficient input: a way of one coordinate, a
    /// multipolygon relation without outer members, or an inconsistency met
    /// while joining rings.
    InvalidData,
    /// A referenced node id is absent from the lookup.
    NodeNotFound,
}

/// Failure equality up to the character sequence of the carried message.
pub open spec fn err_eq(a: Error, b: Error) -> bool {
    match (a, b) {
        (Error::IncorrectType(x), Error::IncorrectType(y)) => x@ == y@,
        (Error::InvalidData, Error::InvalidData) => true,
        (Error::NodeNotFound, Error::NodeNotFound) => true,
        _ => false,
    }
}

/// The id-to-element map described by an element sequence, a later element
/// winning a duplicated id.
pub open spec fn spec_element_map(elements: Seq<Element>) -> Map<u64, Element>
    decreases elements.len(),
{
    if elements.len() == 0 {
        Map::empty()
    } else {
        spec_element_map(elements.drop_last()).insert(elements.last().id, elements.last())
    }
}

impl Response {
    /// Builds the id-to-element lookup from the element list, to be queried
    /// throughout conversion.
    pub fn element_map(self) -> (m: HashMap<u64, Element>)
        ensures
            m@ == spec_element_map(self.elements@),
    {
        let mut elements = self.elements;
        let ghost all: Seq<Element> = elements@;
        let mut m: HashMap<u64, Element> = HashMap::new();
        let ghost mut i: int = 0;
        while elements.len() > 0
            invariant
                0 <= i <= all.len(),
                elements@ == all.subrange(i, all.len() as int),
                m@ == spec_element_map(all.subrange(0, i)),
            decreases elements@.len(),
        {
            let e = elements.remove(0);
            proof {
                assert(e == all[i]);
                assert(all.subrange(0, i + 1).drop_last() =~= all.subrange(0, i));
                assert(elements@ =~= all.subrange(i + 1, all.len() as int));
            }
            m.insert(e.id, e);
            proof {
                i = i + 1;
            }
        }
        proof {
            assert(all.subrange(0, all.len() as int) =~= all);
        }
        m
    }
}

} // verus!
