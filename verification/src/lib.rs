//! Conversion of Overpass-style map elements (nodes, ways, relations with
//! free-form tags) into planar geometry: points, line strings, polygons and
//! multipolygons.
//!
//! Coordinates are plain integers, read as fixed-point WGS84 degrees; the
//! scale is the caller's choice and nothing here depends on it.
#![verifier::loop_isolation(false)]

mod containment;
mod convert;
mod element;
mod geometry;
mod join;
mod polygon_feature;
mod tags;

pub use containment::coord_in_polygon_ls;
pub use containment::lemma_outside_bounding_box;
pub use containment::lemma_rectangle_interior_inside;
pub use containment::polygons_intersect_ls;
pub use containment::spec_any_inside;
pub use containment::spec_inside;
pub use convert::spec_to_geo;
pub use element::err_eq;
pub use element::Element;
pub use element::ElementType;
pub use element::Error;
pub use element::RelationMember;
pub use element::Response;
pub use element::OSM3S;
pub use geometry::Coord;
pub use geometry::GeoModel;
pub use geometry::Geometry;
pub use geometry::LineString;
pub use geometry::MultiPolygon;
pub use geometry::PolyModel;
pub use geometry::Polygon;
pub use join::get_coords;
pub use join::join_ways;
pub use join::spec_get_coords;
pub use join::spec_join_ways;
pub use polygon_feature::is_polygon_feature;
pub use polygon_feature::lemma_polygon_feature_order_independent;
pub use polygon_feature::polygon_feature_rule;
pub use polygon_feature::spec_is_polygon_feature;
pub use polygon_feature::Rule;
pub use tags::Tags;
