use std::collections::HashMap;

use overpass_geo::Coord;
use overpass_geo::Element;
use overpass_geo::ElementType;
use overpass_geo::Error;
use overpass_geo::Geometry;
use overpass_geo::RelationMember;
use overpass_geo::Response;
use overpass_geo::Tags;
use overpass_geo::OSM3S;

fn node(id: u64, lon: i32, lat: i32) -> Element {
    Element { kind: ElementType::Node { lat, lon }, id, tags: None }
}

fn way(id: u64, nodes: Vec<u64>) -> Element {
    Element { kind: ElementType::Way { nodes }, id, tags: None }
}

fn tagged_way(id: u64, nodes: Vec<u64>, pairs: &[(&str, &str)]) -> Element {
    Element { kind: ElementType::Way { nodes }, id, tags: Some(tags_of(pairs)) }
}

fn relation(id: u64, members: Vec<RelationMember>, pairs: &[(&str, &str)]) -> Element {
    Element { kind: ElementType::Relation { members }, id, tags: Some(tags_of(pairs)) }
}

fn member(member_ref: u64, role: &str) -> RelationMember {
    RelationMember {
        member_type: String::from("way"),
        member_ref,
        role: String::from(role),
    }
}

fn tags_of(pairs: &[(&str, &str)]) -> Tags {
    let mut t = Tags::new();
    for (k, v) in pairs {
        t.insert(String::from(*k), String::from(*v));
    }
    t
}

fn with(elements: Vec<Element>) -> HashMap<u64, Element> {
    let mut m = HashMap::new();
    for e in elements {
        m.insert(e.id, e);
    }
    m
}

fn c(x: i32, y: i32) -> Coord {
    Coord { x, y }
}

// Nodes 1-4: the unit square at a scale of ten; nodes 5-8: a smaller square
// inside it.
fn square_nodes() -> Vec<Element> {
    vec![
        node(1, 0, 0),
        node(2, 10, 0),
        node(3, 10, 10),
        node(4, 0, 10),
        node(5, 2, 2),
        node(6, 8, 2),
        node(7, 8, 8),
        node(8, 2, 8),
    ]
}

#[test]
fn test_node_to_point() {
    let m = with(vec![]);
    let e = node(1, 70, -30);
    match e.to_geo(&m).unwrap() {
        Geometry::Point(p) => assert_eq!(p, c(70, -30)),
        _ => panic!("expected a point"),
    }
}

#[test]
fn test_open_way_to_linestring() {
    let m = with(square_nodes());
    let e = way(10, vec![1, 2, 3]);
    match e.to_geo(&m).unwrap() {
        Geometry::LineString(ls) => assert_eq!(ls.0, vec![c(0, 0), c(10, 0), c(10, 10)]),
        _ => panic!("expected a line string"),
    }
}

#[test]
fn test_closed_building_way_to_polygon() {
    let m = with(square_nodes());
    let e = tagged_way(10, vec![1, 2, 3, 4, 1], &[("building", "yes")]);
    match e.to_geo(&m).unwrap() {
        Geometry::Polygon(p) => {
            assert_eq!(p.exterior.0.len(), 5);
            assert_eq!(p.interiors.len(), 0);
        },
        _ => panic!("expected a polygon"),
    }
}

#[test]
fn test_closed_way_without_feature_stays_linestring() {
    let m = with(square_nodes());
    let e = tagged_way(10, vec![1, 2, 3, 4, 1], &[("highway", "residential")]);
    assert!(matches!(e.to_geo(&m).unwrap(), Geometry::LineString(_)));
}

#[test]
fn test_way_missing_node_fails() {
    let m = with(vec![node(1, 0, 0)]);
    let e = way(10, vec![1, 2]);
    assert!(matches!(e.to_geo(&m), Err(Error::NodeNotFound)));
}

#[test]
fn test_way_referencing_non_node_fails() {
    let m = with(vec![node(1, 0, 0), way(2, vec![1])]);
    let e = way(10, vec![1, 2]);
    assert!(matches!(e.to_geo(&m), Err(Error::IncorrectType(_))));
}

#[test]
fn test_single_coordinate_way_invalid() {
    let m = with(square_nodes());
    let e = way(10, vec![1]);
    assert!(matches!(e.to_geo(&m), Err(Error::InvalidData)));
}

#[test]
fn test_relation_without_outer_members_invalid() {
    let m = with(square_nodes());
    let e = relation(20, vec![member(10, "inner")], &[("type", "multipolygon")]);
    assert!(matches!(e.to_geo(&m), Err(Error::InvalidData)));
}

#[test]
fn test_unsupported_relation_kind_fails() {
    let m = with(square_nodes());
    let e = relation(20, vec![member(10, "outer")], &[("type", "route")]);
    assert!(matches!(e.to_geo(&m), Err(Error::IncorrectType(_))));
}

#[test]
fn test_multipolygon_with_hole() {
    let mut elements = square_nodes();
    elements.push(way(10, vec![1, 2, 3, 4, 1]));
    elements.push(way(11, vec![5, 6, 7, 8, 5]));
    let m = with(elements);
    let e = relation(
        20,
        vec![member(10, "outer"), member(11, "inner")],
        &[("type", "multipolygon")],
    );
    match e.to_geo(&m).unwrap() {
        Geometry::MultiPolygon(mp) => {
            assert_eq!(mp.0.len(), 1);
            assert_eq!(mp.0[0].exterior.0.len(), 5);
            assert_eq!(mp.0[0].interiors.len(), 1);
            assert_eq!(
                mp.0[0].interiors[0].0,
                vec![c(2, 2), c(8, 2), c(8, 8), c(2, 8), c(2, 2)]
            );
        },
        _ => panic!("expected a multipolygon"),
    }
}

#[test]
fn test_boundary_relation_supported() {
    let mut elements = square_nodes();
    elements.push(way(10, vec![1, 2, 3, 4, 1]));
    let m = with(elements);
    let e = relation(20, vec![member(10, "outer")], &[("type", "boundary")]);
    match e.to_geo(&m).unwrap() {
        Geometry::MultiPolygon(mp) => {
            assert_eq!(mp.0.len(), 1);
            assert_eq!(mp.0[0].interiors.len(), 0);
        },
        _ => panic!("expected a multipolygon"),
    }
}

#[test]
fn test_element_map_lookup() {
    let response = Response {
        generator: String::from("test"),
        osm3s: OSM3S {
            timestamp_osm_base: String::new(),
            timestamp_areas_base: String::new(),
            copyright: String::new(),
        },
        elements: vec![node(1, 3, 4), way(10, vec![1])],
    };
    let m = response.element_map();
    assert_eq!(m.len(), 2);
    assert!(matches!(m.get(&1).unwrap().kind, ElementType::Node { lat: 4, lon: 3 }));
    assert!(m.get(&99).is_none());
}

#[test]
fn test_relation_skips_unresolved_members() {
    let mut elements = square_nodes();
    elements.push(way(10, vec![1, 2, 3, 4, 1]));
    let m = with(elements);
    let e = relation(
        20,
        vec![member(10, "outer"), member(99, "outer")],
        &[("type", "multipolygon")],
    );
    match e.to_geo(&m).unwrap() {
        Geometry::MultiPolygon(mp) => assert_eq!(mp.0.len(), 1),
        _ => panic!("expected a multipolygon"),
    }
}
