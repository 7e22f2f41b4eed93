//! The geometry values the conversion produces, and their mathematical
//! models.
//!
//! A coordinate holds integer fixed-point degrees; a line string is an
//! ordered coordinate sequence; a polygon is one exterior ring plus zero or
//! more interior rings (holes); a multipolygon is a sequence of polygons.
use vstd::prelude::*;

verus! {

/// A planar coordinate: `x` is longitude, `y` latitude, both in fixed-point
/// degrees at the caller's scale.
#[derive(Clone, Copy, PartialEq, Eq, Structural, Debug)]
pub struct Coord {
    pub x: i32,
    pub y: i32,
}

/// An ordered sequence of coordinates. Closed (first equals last, length
/// above one) it describes a ring; open, a polyline.
pub struct LineString(pub Vec<Coord>);

/// A polygon: a closed exterior ring and a set of interior rings (holes).
pub struct Polygon {
    pub exterior: LineString,
    pub interiors: Vec<LineString>,
}

/// A collection of polygons.
pub struct MultiPolygon(pub Vec<Polygon>);

/// The result of converting one element.
pub enum Geometry {
    Point(Coord),
    LineString(LineString),
    Polygon(Polygon),
    MultiPolygon(MultiPolygon),
}

/// Mathematical model of a polygon: its exterior ring and interior rings as
/// coordinate sequences.
pub struct PolyModel {
    pub exterior: Seq<Coord>,
    pub interiors: Seq<Seq<Coord>>,
}

/// Mathematical model of a geometry value.
pub enum GeoModel {
    Point(Coord),
    LineString(Seq<Coord>),
    Polygon(PolyModel),
    MultiPolygon(Seq<PolyModel>),
}

/// A coordinate sequence that comes back to its start: a ring.
pub open spec fn closed_seq(cs: Seq<Coord>) -> bool {
    cs.len() > 1 && cs[0] == cs[cs.len() - 1]
}

impl View for LineString {
    type V = Seq<Coord>;

    open spec fn view(&self) -> Seq<Coord> {
        self.0@
    }
}

impl View for Polygon {
    type V = PolyModel;

    open spec fn view(&self) -> PolyModel {
        PolyModel { exterior: self.exterior@, interiors: self.interiors@.map_values(|ls: LineString| ls@) }
    }
}

impl View for MultiPolygon {
    type V = Seq<PolyModel>;

    open spec fn view(&self) -> Seq<PolyModel> {
        self.0@.map_values(|p: Polygon| p@)
    }
}

impl View for Geometry {
    type V = GeoModel;

    open spec fn view(&self) -> GeoModel {
        match self {
            Geometry::Point(c) => GeoModel::Point(*c),
            Geometry::LineString(ls) => GeoModel::LineString(ls@),
            Geometry::Polygon(p) => GeoModel::Polygon(p@),
            Geometry::MultiPolygon(mp) => GeoModel::MultiPolygon(mp@),
        }
    }
}

impl LineString {
    pub fn new(coords: Vec<Coord>) -> (r: LineString)
        ensures
            r@ == coords@,
    {
        LineString(coords)
    }

    /// Whether the line string comes back to its start.
    pub fn is_closed(&self) -> (r: bool)
        ensures
            r == closed_seq(self@),
    {
        self.0.len() > 1 && self.0[0] == self.0[self.0.len() - 1]
    }
}

} // verus!
