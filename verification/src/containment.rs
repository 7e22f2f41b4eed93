//! Even-odd ray-casting containment: is a coordinate inside a closed ring?
//!
//! An edge `(a, b)` of the ring crosses the horizontal ray from `p` when its
//! endpoints straddle `p`'s latitude (exactly one strictly above) and `p` is
//! strictly left of the edge's x-intercept at that latitude. The point is
//! inside when the number of crossing edges is odd. The x-intercept
//! comparison is stated by cross-multiplication, which is the same rational
//! comparison without a division.
use vstd::prelude::*;

use crate::geometry::closed_seq;
use crate::geometry::Coord;
use crate::geometry::LineString;

verus! {

/// Whether the edge endpoints straddle `p`'s latitude: exactly one of them
/// lies strictly above it.
pub open spec fn straddles(p: Coord, a: Coord, b: Coord) -> bool {
    (a.y > p.y) != (b.y > p.y)
}

/// Whether `p` lies strictly left of the edge's x-intercept at `p`'s
/// latitude, stated by cross-multiplication: `p.x < a.x + (b.x - a.x) *
/// (p.y - a.y) / (b.y - a.y)` with both sides multiplied by `b.y - a.y`.
pub open spec fn left_of_intercept(p: Coord, a: Coord, b: Coord) -> bool {
    let dy = b.y - a.y;
    if dy > 0 {
        (p.x - a.x) * dy < (b.x - a.x) * (p.y - a.y)
    } else {
        (p.x - a.x) * dy > (b.x - a.x) * (p.y - a.y)
    }
}

/// Whether the edge `(a, b)` crosses the horizontal ray running left from `p`.
pub open spec fn edge_crosses(p: Coord, a: Coord, b: Coord) -> bool {
    straddles(p, a, b) && left_of_intercept(p, a, b)
}

/// Whether the `j`-th edge of `ring`, from its `j - 1`-th to its `j`-th
/// coordinate, crosses the ray from `p`.
pub open spec fn edge_crosses_at(p: Coord, ring: Seq<Coord>, j: int) -> bool {
    edge_crosses(p, ring[j - 1], ring[j])
}

/// How many of the first `n - 1` edges of `ring` cross the ray from `p`.
pub open spec fn crossings(p: Coord, ring: Seq<Coord>, n: int) -> nat
    decreases n,
{
    if n <= 1 {
        0
    } else {
        crossings(p, ring, n - 1) + (if edge_crosses_at(p, ring, n - 1) {
            1nat
        } else {
            0nat
        })
    }
}

/// `p` is inside the ring when an odd number of edges cross the ray from it.
pub open spec fn spec_inside(p: Coord, ring: Seq<Coord>) -> bool {
    crossings(p, ring, ring.len() as int) % 2 == 1
}

/// Calculate whether a point falls within the polygon denoted by a
/// LineString. The line string must be closed.
pub fn coord_in_polygon_ls(p: &Coord, polygon: &LineString) -> (inside: bool)
    requires
        closed_seq(polygon@),
    ensures
        inside == spec_inside(*p, polygon@),
{
    let n = polygon.0.len();
    let mut inside = false;
    let mut j: usize = 1;
    while j < n
        invariant
            1 <= j <= n,
            inside == (crossings(*p, polygon@, j as int) % 2 == 1),
        decreases n - j,
    {
        let ci = polygon.0[j - 1];
        let cj = polygon.0[j];
        if (ci.y > p.y) != (cj.y > p.y) {
            let dy: i128 = cj.y as i128 - ci.y as i128;
            let dxp: i128 = p.x as i128 - ci.x as i128;
            let dyp: i128 = p.y as i128 - ci.y as i128;
            let dx: i128 = cj.x as i128 - ci.x as i128;
            assert(-0x1_0000_0000 < dxp < 0x1_0000_0000 && -0x1_0000_0000 < dy < 0x1_0000_0000
                && -0x1_0000_0000 < dx < 0x1_0000_0000 && -0x1_0000_0000 < dyp < 0x1_0000_0000);
            assert(-0x1_0000_0000_0000_0000 < dxp * dy < 0x1_0000_0000_0000_0000
                && -0x1_0000_0000_0000_0000 < dx * dyp < 0x1_0000_0000_0000_0000)
                by (nonlinear_arith)
                requires
                    -0x1_0000_0000 < dxp < 0x1_0000_0000,
                    -0x1_0000_0000 < dy < 0x1_0000_0000,
                    -0x1_0000_0000 < dx < 0x1_0000_0000,
                    -0x1_0000_0000 < dyp < 0x1_0000_0000,
            ;
            let lhs: i128 = dxp * dy;
            let rhs: i128 = dx * dyp;
            let crosses = if dy > 0 {
                lhs < rhs
            } else {
                lhs > rhs
            };
            if crosses {
                inside = !inside;
            }
        }
        j = j + 1;
    }
    inside
}

/// An edge whose endpoints both lie at or left of `p` never crosses the ray:
/// its x-intercept lies between the endpoints, hence at or left of `p`.
proof fn lemma_edge_right_of_box(p: Coord, a: Coord, b: Coord)
    requires
        a.x <= p.x,
        b.x <= p.x,
    ensures
        !edge_crosses(p, a, b),
{
    if straddles(p, a, b) {
        let dy = b.y - a.y;
        let u = p.x - a.x;
        let v = b.x - a.x;
        let t = p.y - a.y;
        if dy > 0 {
            assert(0 <= t < dy);
            assert(u * dy >= v * t) by (nonlinear_arith)
                requires
                    0 <= t < dy,
                    u >= 0,
                    u >= v,
            ;
        } else {
            assert(dy < 0);
            assert(dy <= t < 0);
            assert(u * dy <= v * t) by (nonlinear_arith)
                requires
                    dy <= t < 0,
                    u >= 0,
                    u >= v,
            ;
        }
    }
}

/// An edge whose endpoints both lie strictly right of `p` crosses the ray
/// exactly when it straddles `p`'s latitude: the intercept is then always
/// right of `p`.
proof fn lemma_edge_left_of_box(p: Coord, a: Coord, b: Coord)
    requires
        a.x > p.x,
        b.x > p.x,
    ensures
        edge_crosses(p, a, b) == straddles(p, a, b),
{
    if straddles(p, a, b) {
        let dy = b.y - a.y;
        let u = p.x - a.x;
        let v = b.x - a.x;
        let t = p.y - a.y;
        if dy > 0 {
            assert(0 <= t < dy);
            assert(u * dy < v * t) by (nonlinear_arith)
                requires
                    0 <= t < dy,
                    u < 0,
                    u < v,
            ;
        } else {
            assert(dy < 0);
            assert(dy <= t < 0);
            assert(u * dy > v * t) by (nonlinear_arith)
                requires
                    dy <= t < 0,
                    u < 0,
                    u < v,
            ;
        }
    }
}

/// When no edge of `ring` crosses the ray from `p`, the crossing count is
/// zero.
proof fn lemma_crossings_zero(p: Coord, ring: Seq<Coord>, n: int)
    requires
        0 <= n <= ring.len(),
        forall|j: int| 1 <= j < ring.len() ==> !#[trigger] edge_crosses_at(p, ring, j),
    ensures
        crossings(p, ring, n) == 0,
    decreases n,
{
    if n > 1 {
        lemma_crossings_zero(p, ring, n - 1);
        assert(!edge_crosses_at(p, ring, n - 1));
    }
}

/// How many of the first `n - 1` edges of `ring` straddle `p`'s latitude.
spec fn straddle_count(p: Coord, ring: Seq<Coord>, n: int) -> nat
    decreases n,
{
    if n <= 1 {
        0
    } else {
        straddle_count(p, ring, n - 1) + (if straddles(p, ring[n - 2], ring[n - 1]) {
            1nat
        } else {
            0nat
        })
    }
}

/// Along a coordinate sequence, the straddle count is even exactly when the
/// first and last coordinates lie on the same side of `p`'s latitude.
proof fn lemma_straddle_parity(p: Coord, ring: Seq<Coord>, n: int)
    requires
        1 <= n <= ring.len(),
    ensures
        (straddle_count(p, ring, n) % 2 == 0) == ((ring[0].y > p.y) == (ring[n - 1].y > p.y)),
    decreases n,
{
    if n > 1 {
        lemma_straddle_parity(p, ring, n - 1);
    }
}

/// When every ring coordinate lies strictly right of `p`, crossings and
/// straddles agree edge for edge.
proof fn lemma_crossings_eq_straddles(p: Coord, ring: Seq<Coord>, n: int)
    requires
        0 <= n <= ring.len(),
        forall|i: int| 0 <= i < ring.len() ==> ring[i].x > p.x,
    ensures
        crossings(p, ring, n) == straddle_count(p, ring, n),
    decreases n,
{
    if n > 1 {
        lemma_crossings_eq_straddles(p, ring, n - 1);
        lemma_edge_left_of_box(p, ring[n - 2], ring[n - 1]);
    }
}

/// A point outside the ring's bounding box — at or left of no coordinate,
/// right of all, at or above all, or below all — is never inside the ring.
pub proof fn lemma_outside_bounding_box(p: Coord, ring: Seq<Coord>)
    requires
        closed_seq(ring),
        (forall|i: int| 0 <= i < ring.len() ==> ring[i].x <= p.x) || (forall|i: int|
            0 <= i < ring.len() ==> ring[i].x > p.x) || (forall|i: int|
            0 <= i < ring.len() ==> ring[i].y <= p.y) || (forall|i: int|
            0 <= i < ring.len() ==> ring[i].y > p.y),
    ensures
        !spec_inside(p, ring),
{
    let n = ring.len() as int;
    if forall|i: int| 0 <= i < ring.len() ==> ring[i].x > p.x {
        lemma_crossings_eq_straddles(p, ring, n);
        lemma_straddle_parity(p, ring, n);
    } else {
        assert forall|j: int| 1 <= j < ring.len() implies !#[trigger] edge_crosses_at(
            p,
            ring,
            j,
        ) by {
            if forall|i: int| 0 <= i < ring.len() ==> ring[i].x <= p.x {
                lemma_edge_right_of_box(p, ring[j - 1], ring[j]);
            }
        }
        lemma_crossings_zero(p, ring, n);
    }
}

/// Every interior point of an axis-aligned rectangle ring — `a` its bottom-
/// left corner, `b` its top-right, walked counter-clockwise — is inside it;
/// the left and bottom edges count as interior under this formulation, the
/// right and top ones do not.
pub proof fn lemma_rectangle_interior_inside(p: Coord, ring: Seq<Coord>, a: Coord, b: Coord)
    requires
        a.x < b.x,
        a.y < b.y,
        ring == seq![
            a,
            Coord { x: b.x, y: a.y },
            b,
            Coord { x: a.x, y: b.y },
            a,
        ],
        a.x <= p.x < b.x,
        a.y <= p.y < b.y,
    ensures
        spec_inside(p, ring),
{
    let dy = b.y - a.y;
    assert(!edge_crosses_at(p, ring, 1));
    assert((p.x - b.x) * dy < 0) by (nonlinear_arith)
        requires
            p.x < b.x,
            dy > 0,
    ;
    assert(edge_crosses_at(p, ring, 2));
    assert(!edge_crosses_at(p, ring, 3));
    assert((p.x - a.x) * (a.y - b.y) <= 0) by (nonlinear_arith)
        requires
            p.x >= a.x,
            a.y < b.y,
    ;
    assert((a.x - a.x) * (p.y - b.y) == 0) by (nonlinear_arith);
    assert(!edge_crosses_at(p, ring, 4));
    assert(crossings(p, ring, 1) == 0);
    assert(crossings(p, ring, 2) == 0);
    assert(crossings(p, ring, 3) == 1);
    assert(crossings(p, ring, 4) == 1);
    assert(crossings(p, ring, 5) == 1);
}

/// Whether any coordinate of `inner` lies inside the closed ring `outer`.
pub open spec fn spec_any_inside(inner: Seq<Coord>, outer: Seq<Coord>) -> bool {
    exists|i: int| 0 <= i < inner.len() && spec_inside(inner[i], outer)
}

/// Whether any coordinate of `inner` falls within the closed ring `outer`.
pub fn polygons_intersect_ls(outer: &LineString, inner: &LineString) -> (r: bool)
    requires
        closed_seq(outer@),
    ensures
        r == spec_any_inside(inner@, outer@),
{
    let mut i: usize = 0;
    while i < inner.0.len()
        invariant
            0 <= i <= inner@.len(),
            forall|k: int| 0 <= k < i ==> !spec_inside(inner@[k], outer@),
        decreases inner@.len() - i,
    {
        if coord_in_polygon_ls(&inner.0[i], outer) {
            return true;
        }
        i = i + 1;
    }
    false
}

} // verus!
