use std::collections::HashMap;

use overpass_geo::get_coords;
use overpass_geo::join_ways;
use overpass_geo::Coord;
use overpass_geo::Element;
use overpass_geo::ElementType;
use overpass_geo::Error;

fn node(id: u64, lon: i32, lat: i32) -> Element {
    Element { kind: ElementType::Node { lat, lon }, id, tags: None }
}

fn way(id: u64, nodes: Vec<u64>) -> Element {
    Element { kind: ElementType::Way { nodes }, id, tags: None }
}

fn with(elements: Vec<Element>) -> HashMap<u64, Element> {
    let mut m = HashMap::new();
    for e in elements {
        m.insert(e.id, e);
    }
    m
}

fn c(x: i32, y: i32) -> Coord {
    Coord { x, y }
}

#[test]
fn test_join_two_fragments() {
    let m = with(vec![
        node(1, 0, 0),
        node(2, 10, 0),
        node(3, 10, 10),
        node(4, 0, 10),
        way(10, vec![1, 2, 3]),
        way(11, vec![3, 4, 1]),
    ]);
    let rings = join_ways(&vec![10, 11], &m).unwrap();
    assert_eq!(rings.len(), 1);
    assert_eq!(rings[0].0, vec![c(0, 0), c(10, 0), c(10, 10), c(0, 10), c(0, 0)]);
}

#[test]
fn test_join_self_closed_fragment() {
    let m = with(vec![
        node(5, 0, 0),
        node(6, 10, 0),
        node(7, 5, 10),
        way(12, vec![5, 6, 7, 5]),
    ]);
    let rings = join_ways(&vec![12], &m).unwrap();
    assert_eq!(rings.len(), 1);
    assert_eq!(rings[0].0, vec![c(0, 0), c(10, 0), c(5, 10), c(0, 0)]);
}

// Fragments only extend chains registered before them, so an order where a
// fragment's start is registered only later never closes the ring.
#[test]
fn test_join_is_order_sensitive() {
    let m = with(vec![
        node(1, 0, 0),
        node(2, 10, 0),
        node(3, 5, 10),
        way(10, vec![1, 2]),
        way(11, vec![2, 3]),
        way(12, vec![3, 1]),
    ]);
    let rings = join_ways(&vec![10, 11, 12], &m).unwrap();
    assert_eq!(rings.len(), 0);
}

#[test]
fn test_join_duplicate_closed_ring_invalid() {
    let m = with(vec![
        node(5, 0, 0),
        node(6, 10, 0),
        node(7, 5, 10),
        way(12, vec![5, 6, 7, 5]),
        way(13, vec![5, 7, 6, 5]),
    ]);
    let r = join_ways(&vec![12, 13], &m);
    assert!(matches!(r, Err(Error::InvalidData)));
}

#[test]
fn test_join_skips_unresolved_members() {
    let m = with(vec![
        node(5, 0, 0),
        node(6, 10, 0),
        node(7, 5, 10),
        way(12, vec![5, 6, 7, 5]),
    ]);
    let rings = join_ways(&vec![99, 12], &m).unwrap();
    assert_eq!(rings.len(), 1);
}

#[test]
fn test_get_coords_in_order() {
    let m = with(vec![node(1, 3, 4), node(2, -5, 6)]);
    let coords = get_coords(&vec![1, 2, 1], &m).unwrap();
    assert_eq!(coords, vec![c(3, 4), c(-5, 6), c(3, 4)]);
}

#[test]
fn test_get_coords_missing_node() {
    let m = with(vec![node(1, 0, 0)]);
    let r = get_coords(&vec![1, 2], &m);
    assert!(matches!(r, Err(Error::NodeNotFound)));
}

#[test]
fn test_get_coords_wrong_kind() {
    let m = with(vec![node(1, 0, 0), way(2, vec![1])]);
    let r = get_coords(&vec![1, 2], &m);
    assert!(matches!(r, Err(Error::IncorrectType(_))));
}
