//! Per-element conversion: a node becomes a point, a way a line string or —
//! closed and tag-qualified — a polygon, and a multipolygon or boundary
//! relation a multipolygon assembled from its member ways.
use std::collections::HashMap;

use vstd::prelude::*;

use crate::containment::spec_any_inside;
use crate::containment::polygons_intersect_ls;
use crate::element::err_eq;
use crate::element::Element;
use crate::element::ElementType;
use crate::element::Error;
use crate::element::RelationMember;
use crate::geometry::GeoModel;
use crate::geometry::Geometry;
use crate::geometry::LineString;
use crate::geometry::MultiPolygon;
use crate::geometry::PolyModel;
use crate::geometry::Polygon;
use crate::join::get_coords;
use crate::join::join_ways;
use crate::join::lemma_closed_chains_closed;
use crate::join::closed_chains;
use crate::join::spec_get_coords;
use crate::join::spec_join;
use crate::join::spec_join_ways;
use crate::polygon_feature::is_polygon_feature;
use crate::polygon_feature::spec_is_polygon_feature;
use crate::polygon_feature::streq;
use crate::geometry::Coord;

verus! {

/// The member references carrying the given role, in member order.
pub open spec fn spec_role_ids(members: Seq<RelationMember>, role: Seq<char>) -> Seq<u64>
    decreases members.len(),
{
    if members.len() == 0 {
        Seq::empty()
    } else {
        let r = spec_role_ids(members.drop_last(), role);
        if members.last().role@ == role {
            r.push(members.last().member_ref)
        } else {
            r
        }
    }
}

/// The inner rings with a coordinate inside the exterior: the holes the
/// exterior receives.
pub open spec fn spec_holes(ext: Seq<Coord>, inners: Seq<Seq<Coord>>) -> Seq<Seq<Coord>>
    decreases inners.len(),
{
    if inners.len() == 0 {
        Seq::empty()
    } else {
        let r = spec_holes(ext, inners.drop_last());
        if spec_any_inside(inners.last(), ext) {
            r.push(inners.last())
        } else {
            r
        }
    }
}

/// One polygon per outer ring, holding every inner ring that tests inside
/// its exterior; an inner ring may serve several outer rings.
pub open spec fn spec_assemble(outers: Seq<Seq<Coord>>, inners: Seq<Seq<Coord>>) -> Seq<
    PolyModel,
> {
    Seq::new(outers.len(), |oi: int| PolyModel { exterior: outers[oi], interiors: spec_holes(outers[oi], inners) })
}

/// Whether the relation element's tags name a supported relation kind.
pub open spec fn spec_supported_relation(e: Element) -> bool {
    &&& e.tags matches Some(t)
    &&& t@.contains_key("type"@)
    &&& (t@["type"@] == "multipolygon"@ || t@["type"@] == "boundary"@)
}

/// What converting an element yields: the geometry model, or the failure.
pub open spec fn spec_to_geo(e: Element, m: Map<u64, Element>) -> Result<GeoModel, Error> {
    match e.kind {
        ElementType::Node { lat, lon } => Ok(GeoModel::Point(Coord { x: lon, y: lat })),
        ElementType::Way { nodes } => match spec_get_coords(nodes@, m) {
            Err(err) => Err(err),
            Ok(cs) => if cs.len() <= 1 {
                Err(Error::InvalidData)
            } else if e.tags matches Some(t) && nodes@[0] == nodes@[nodes@.len() - 1]
                && spec_is_polygon_feature(t@) {
                Ok(GeoModel::Polygon(PolyModel { exterior: cs, interiors: Seq::empty() }))
            } else {
                Ok(GeoModel::LineString(cs))
            },
        },
        ElementType::Relation { members } => {
            if !spec_supported_relation(e) {
                Err(Error::IncorrectType("relation type is not multipolygon or boundary"))
            } else if spec_role_ids(members@, "outer"@).len() == 0 {
                Err(Error::InvalidData)
            } else {
                match spec_join_ways(spec_role_ids(members@, "outer"@), m) {
                    Err(err) => Err(err),
                    Ok(outer_rings) => match spec_join_ways(
                        spec_role_ids(members@, "inner"@),
                        m,
                    ) {
                        Err(err) => Err(err),
                        Ok(inner_rings) => Ok(
                            GeoModel::MultiPolygon(spec_assemble(outer_rings, inner_rings)),
                        ),
                    },
                }
            }
        },
    }
}

/// The member references carrying the given role, in member order.
fn collect_role_refs(members: &Vec<RelationMember>, role: &str) -> (r: Vec<u64>)
    ensures
        r@ == spec_role_ids(members@, role@),
{
    let mut refs: Vec<u64> = Vec::new();
    let mut i: usize = 0;
    while i < members.len()
        invariant
            0 <= i <= members@.len(),
            refs@ == spec_role_ids(members@.subrange(0, i as int), role@),
        decreases members@.len() - i,
    {
        proof {
            assert(members@.subrange(0, i as int + 1).drop_last() =~= members@.subrange(
                0,
                i as int,
            ));
        }
        if streq(&members[i].role, role) {
            refs.push(members[i].member_ref);
        }
        i = i + 1;
    }
    proof {
        assert(members@.subrange(0, members@.len() as int) =~= members@);
    }
    refs
}

/// A copy of a coordinate vector.
fn clone_coords(v: &Vec<Coord>) -> (r: Vec<Coord>)
    ensures
        r@ == v@,
{
    let mut out: Vec<Coord> = Vec::new();
    let mut i: usize = 0;
    while i < v.len()
        invariant
            0 <= i <= v@.len(),
            out@ == v@.subrange(0, i as int),
        decreases v@.len() - i,
    {
        out.push(v[i]);
        proof {
            assert(v@.subrange(0, i as int + 1) =~= v@.subrange(0, i as int).push(v@[i as int]));
        }
        i = i + 1;
    }
    proof {
        assert(v@.subrange(0, v@.len() as int) =~= v@);
    }
    out
}

impl Element {
    /// Converts the element into the appropriate geometry.
    ///
    /// - A Node becomes a Point at (lon, lat).
    /// - A Way becomes a LineString of its resolved coordinates, wrapped as
    ///   a Polygon when the way is closed and its tags meet the
    ///   polygon-feature rules; a way of at most one coordinate is
    ///   `InvalidData`.
    /// - A Relation tagged `type=multipolygon` or `type=boundary` becomes a
    ///   MultiPolygon: member ways joined to rings by role, inner rings
    ///   attached as holes to the outer polygons that contain a coordinate
    ///   of theirs. Without an outer member it is `InvalidData`; any other
    ///   relation kind is an `IncorrectType` failure.
    pub fn to_geo(&self, element_map: &HashMap<u64, Element>) -> (r: Result<Geometry, Error>)
        requires
            self.wf(),
        ensures
            ({
                let s = spec_to_geo(*self, element_map@);
                match r {
                    Ok(g) => s matches Ok(gm) && g@ == gm,
                    Err(e) => s matches Err(se) && err_eq(e, se),
                }
            }),
    {
        match &self.kind {
            ElementType::Node { lat, lon } => Ok(Geometry::Point(Coord { x: *lon, y: *lat })),
            ElementType::Way { nodes } => {
                match get_coords(nodes, element_map) {
                    Err(e) => Err(e),
                    Ok(points) => {
                        if points.len() <= 1 {
                            return Err(Error::InvalidData);
                        }
                        let is_ring = nodes[0] == nodes[nodes.len() - 1];
                        let line = LineString(points);
                        match &self.tags {
                            Some(tags) => {
                                if is_ring && is_polygon_feature(tags) {
                                    let poly = Polygon {
                                        exterior: line,
                                        interiors: Vec::new(),
                                    };
                                    proof {
                                        assert(poly@.interiors =~= Seq::<Seq<Coord>>::empty());
                                    }
                                    return Ok(Geometry::Polygon(poly));
                                }
                                Ok(Geometry::LineString(line))
                            },
                            None => Ok(Geometry::LineString(line)),
                        }
                    },
                }
            },
            ElementType::Relation { members } => {
                let supported = match &self.tags {
                    Some(tags) => {
                        let type_key: String = "type".to_owned();
                        match tags.get(&type_key) {
                            Some(v) => streq(v, "multipolygon") || streq(v, "boundary"),
                            None => false,
                        }
                    },
                    None => false,
                };
                if !supported {
                    return Err(
                        Error::IncorrectType("relation type is not multipolygon or boundary"),
                    );
                }
                let outer_ids = collect_role_refs(members, "outer");
                if outer_ids.len() == 0 {
                    return Err(Error::InvalidData);
                }
                match join_ways(&outer_ids, element_map) {
                    Err(e) => Err(e),
                    Ok(outer_rings) => {
                        let inner_ids = collect_role_refs(members, "inner");
                        match join_ways(&inner_ids, element_map) {
                            Err(e) => Err(e),
                            Ok(inner_rings) => {
                                let ghost orings = spec_join_ways(
                                    outer_ids@,
                                    element_map@,
                                )->Ok_0;
                                let ghost irings = spec_join_ways(
                                    inner_ids@,
                                    element_map@,
                                )->Ok_0;
                                proof {
                                    lemma_closed_chains_closed(
                                        spec_join(outer_ids@, element_map@)->Ok_0,
                                    );
                                }
                                let mut polys: Vec<Polygon> = Vec::new();
                                let mut oi: usize = 0;
                                while oi < outer_rings.len()
                                    invariant
                                        0 <= oi <= outer_rings@.len(),
                                        polys@.len() == oi,
                                        forall|j: int|
                                            0 <= j < oi ==> (#[trigger] polys@[j])@
                                                == spec_assemble(orings, irings)[j],
                                    decreases outer_rings@.len() - oi,
                                {
                                    let exterior = LineString(clone_coords(&outer_rings[oi].0));
                                    let mut holes: Vec<LineString> = Vec::new();
                                    let mut ii: usize = 0;
                                    while ii < inner_rings.len()
                                        invariant
                                            0 <= ii <= inner_rings@.len(),
                                            exterior@ == orings[oi as int],
                                            crate::geometry::closed_seq(exterior@),
                                            holes@.len() == spec_holes(
                                                exterior@,
                                                irings.subrange(0, ii as int),
                                            ).len(),
                                            forall|j: int|
                                                0 <= j < holes@.len() ==> (#[trigger] holes@[j])@
                                                    == spec_holes(
                                                    exterior@,
                                                    irings.subrange(0, ii as int),
                                                )[j],
                                        decreases inner_rings@.len() - ii,
                                    {
                                        proof {
                                            assert(irings.subrange(
                                                0,
                                                ii as int + 1,
                                            ).drop_last() =~= irings.subrange(0, ii as int));
                                        }
                                        if polygons_intersect_ls(&exterior, &inner_rings[ii]) {
                                            holes.push(
                                                LineString(clone_coords(&inner_rings[ii].0)),
                                            );
                                        }
                                        ii = ii + 1;
                                    }
                                    proof {
                                        assert(irings.subrange(
                                            0,
                                            irings.len() as int,
                                        ) =~= irings);
                                    }
                                    let poly = Polygon { exterior, interiors: holes };
                                    proof {
                                        assert(poly@.interiors =~= spec_holes(
                                            orings[oi as int],
                                            irings,
                                        ));
                                        assert(poly@ == spec_assemble(orings, irings)[oi as int]);
                                    }
                                    polys.push(poly);
                                    oi = oi + 1;
                                }
                                let mp = MultiPolygon(polys);
                                proof {
                                    assert(mp@ =~= spec_assemble(orings, irings));
                                }
                                Ok(Geometry::MultiPolygon(mp))
                            },
                        }
                    },
                }
            },
        }
    }
}

} // verus!
