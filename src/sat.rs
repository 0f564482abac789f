//! The separating axis test for two rectangles.
use crate::vec2::{Vec2, COORD_LIMIT};
use vstd::prelude::*;

verus! {

/// Every vertex of the quadrilateral has coordinates within `COORD_LIMIT`.
pub open spec fn quad_in_range(q: Seq<Vec2>) -> bool {
    q.len() == 4 && forall|i: int| 0 <= i < 4 ==> #[trigger] q[i].in_range()
}

/// The vector from vertex `i` to vertex `j`.
pub open spec fn edge_x(q: Seq<Vec2>, i: int, j: int) -> int {
    q[j].x - q[i].x
}

pub open spec fn edge_y(q: Seq<Vec2>, i: int, j: int) -> int {
    q[j].y - q[i].y
}

/// Dot product of the vectors from vertex 0 to vertices `i` and `j`.
pub open spec fn pivot_dot(q: Seq<Vec2>, i: int, j: int) -> int {
    edge_x(q, 0, i) * edge_x(q, 0, j) + edge_y(q, 0, i) * edge_y(q, 0, j)
}

/// The quadrilateral with vertices `i` and `j` exchanged.
pub open spec fn swap_spec(q: Seq<Vec2>, i: int, j: int) -> Seq<Vec2> {
    q.update(i, q[j]).update(j, q[i])
}

/// The vertex order that puts the diagonal from vertex 0 at position 2: when the
/// vectors to vertices 1 and 3 are not orthogonal, one of them is the diagonal.
pub open spec fn reorder_spec(q: Seq<Vec2>) -> Seq<Vec2> {
    if pivot_dot(q, 1, 3) != 0 {
        if pivot_dot(q, 1, 2) != 0 {
            swap_spec(q, 1, 2)
        } else {
            swap_spec(q, 3, 2)
        }
    } else {
        q
    }
}

/// The edges from vertex 0 to vertices 1 and 3 are orthogonal: a corner of a
/// rectangle listed in perimeter order.
pub open spec fn is_canonical(q: Seq<Vec2>) -> bool {
    pivot_dot(q, 1, 3) == 0
}

/// The projection of point `p` on the axis `(ax, ay)`, scaled by the axis length.
pub open spec fn proj(ax: int, ay: int, p: Vec2) -> int {
    ax * p.x + ay * p.y
}

pub open spec fn min_of(a: int, b: int) -> int {
    if a <= b { a } else { b }
}

pub open spec fn max_of(a: int, b: int) -> int {
    if a >= b { a } else { b }
}

pub open spec fn proj_min(ax: int, ay: int, q: Seq<Vec2>) -> int {
    min_of(min_of(min_of(proj(ax, ay, q[0]), proj(ax, ay, q[1])), proj(ax, ay, q[2])), proj(ax, ay, q[3]))
}

pub open spec fn proj_max(ax: int, ay: int, q: Seq<Vec2>) -> int {
    max_of(max_of(max_of(proj(ax, ay, q[0]), proj(ax, ay, q[1])), proj(ax, ay, q[2])), proj(ax, ay, q[3]))
}

/// The projections of `a` and `b` on the axis do not overlap, or only touch.
pub open spec fn separates(ax: int, ay: int, a: Seq<Vec2>, b: Seq<Vec2>) -> bool {
    max_of(proj_min(ax, ay, a), proj_min(ax, ay, b)) >= min_of(proj_max(ax, ay, a), proj_max(ax, ay, b))
}

/// Neither edge direction of the canonical quadrilateral `c` separates `a` from `b`.
pub open spec fn no_axis_of(c: Seq<Vec2>, a: Seq<Vec2>, b: Seq<Vec2>) -> bool {
    !separates(edge_x(c, 0, 1), edge_y(c, 0, 1), a, b)
    && !separates(edge_x(c, 0, 3), edge_y(c, 0, 3), a, b)
}

/// The two rectangles overlap: no edge direction of either one separates them.
pub open spec fn intersects_spec(b1: Seq<Vec2>, b2: Seq<Vec2>) -> bool {
    let c1 = reorder_spec(b1);
    let c2 = reorder_spec(b2);
    no_axis_of(c1, c1, c2) && no_axis_of(c2, c1, c2)
}

/// After reordering, the quadrilateral lists a rectangle in perimeter order: the
/// edges at vertex 0 are orthogonal and the opposite vertices share a midpoint.
pub open spec fn is_rectangle_listing(q: Seq<Vec2>) -> bool {
    let c = reorder_spec(q);
    is_canonical(c) && c[0].x + c[2].x == c[1].x + c[3].x && c[0].y + c[2].y == c[1].y + c[3].y
}

/// Puts the four vertices of a rectangle, given in any order, in perimeter order.
pub fn reorder_vertices(r: [Vec2; 4]) -> (out: [Vec2; 4])
    requires
        quad_in_range(r@),
    ensures
        out@ == reorder_spec(r@),
{
    assert(r[0].in_range() && r[1].in_range() && r[2].in_range() && r[3].in_range());
    let v01 = r[1].sub(r[0]);
    let v02 = r[2].sub(r[0]);
    let v03 = r[3].sub(r[0]);
    let d13 = v01.dot(v03);
    let d12 = v01.dot(v02);
    if d13 != 0 {
        if d12 != 0 {
            let out = [r[0], r[2], r[1], r[3]];
            assert(out@ =~= swap_spec(r@, 1, 2));
            out
        } else {
            let out = [r[0], r[1], r[3], r[2]];
            assert(out@ =~= swap_spec(r@, 3, 2));
            out
        }
    } else {
        r
    }
}

/// The dot product of `point` with the axis `ax`, which is the point's coordinate
/// along the axis times the axis length. Points rank along an axis the same way
/// for every positive multiple of it, so the exact test needs no normalisation.
fn scaled_coordinate(ax: Vec2, point: Vec2) -> (r: i128)
    requires
        ax.bounded_by(0x4000_0000),
        point.in_range(),
    ensures
        r == proj(ax.x as int, ax.y as int, point),
{
    let r = point.dot(ax);
    assert(r == proj(ax.x as int, ax.y as int, point)) by (nonlinear_arith)
        requires
            r == point.x * ax.x + point.y * ax.y,
    ;
    r
}

fn min128(a: i128, b: i128) -> (r: i128)
    ensures
        r == min_of(a as int, b as int),
{
    if a <= b { a } else { b }
}

fn max128(a: i128, b: i128) -> (r: i128)
    ensures
        r == max_of(a as int, b as int),
{
    if a >= b { a } else { b }
}

/// Whether the axis `ax` separates the quadrilaterals `a` and `b`.
pub fn separated_on(ax: Vec2, a: &[Vec2; 4], b: &[Vec2; 4]) -> (r: bool)
    requires
        ax.bounded_by(0x4000_0000),
        quad_in_range(a@),
        quad_in_range(b@),
    ensures
        r == separates(ax.x as int, ax.y as int, a@, b@),
{
    assert(a[0].in_range() && a[1].in_range() && a[2].in_range() && a[3].in_range());
    assert(b[0].in_range() && b[1].in_range() && b[2].in_range() && b[3].in_range());
    let pa0 = scaled_coordinate(ax, a[0]);
    let pa1 = scaled_coordinate(ax, a[1]);
    let pa2 = scaled_coordinate(ax, a[2]);
    let pa3 = scaled_coordinate(ax, a[3]);
    let a_min = min128(min128(min128(pa0, pa1), pa2), pa3);
    let a_max = max128(max128(max128(pa0, pa1), pa2), pa3);
    let pb0 = scaled_coordinate(ax, b[0]);
    let pb1 = scaled_coordinate(ax, b[1]);
    let pb2 = scaled_coordinate(ax, b[2]);
    let pb3 = scaled_coordinate(ax, b[3]);
    let b_min = min128(min128(min128(pb0, pb1), pb2), pb3);
    let b_max = max128(max128(max128(pb0, pb1), pb2), pb3);
    max128(a_min, b_min) >= min128(a_max, b_max)
}

/// Whether two rectangles, each given by its four vertices in any order, overlap.
/// Rectangles whose projections only touch on some edge direction do not.
pub fn sat2d(b1: [Vec2; 4], b2: [Vec2; 4]) -> (r: bool)
    requires
        quad_in_range(b1@),
        quad_in_range(b2@),
        is_rectangle_listing(b1@),
        is_rectangle_listing(b2@),
    ensures
        r == intersects_spec(b1@, b2@),
{
    let c1 = reorder_vertices(b1);
    let c2 = reorder_vertices(b2);
    assert(quad_in_range(c1@)) by {
        assert(b1[0].in_range() && b1[1].in_range() && b1[2].in_range() && b1[3].in_range());
    }
    assert(quad_in_range(c2@)) by {
        assert(b2[0].in_range() && b2[1].in_range() && b2[2].in_range() && b2[3].in_range());
    }
    assert(c1[0].in_range() && c1[1].in_range() && c1[3].in_range());
    assert(c2[0].in_range() && c2[1].in_range() && c2[3].in_range());
    let e11 = c1[1].sub(c1[0]);
    let e13 = c1[3].sub(c1[0]);
    let e21 = c2[1].sub(c2[0]);
    let e23 = c2[3].sub(c2[0]);
    if separated_on(e11, &c1, &c2) {
        return false;
    }
    if separated_on(e13, &c1, &c2) {
        return false;
    }
    if separated_on(e21, &c1, &c2) {
        return false;
    }
    if separated_on(e23, &c1, &c2) {
        return false;
    }
    true
}

} // verus!
