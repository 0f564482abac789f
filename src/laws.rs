//! Properties of the overlap test that relate several calls.
use crate::sat::{
    edge_x, edge_y, intersects_spec, is_canonical, is_rectangle_listing, pivot_dot, proj_max,
    proj_min, reorder_spec, separates,
};
use crate::vec2::Vec2;
use vstd::prelude::*;

verus! {

/// Reordering a quadrilateral that is already in perimeter order leaves it as it is.
pub proof fn lemma_reorder_canonical_identity(q: Seq<Vec2>)
    requires
        q.len() == 4,
        is_canonical(q),
    ensures
        reorder_spec(q) == q,
{
}

/// An axis separates `a` from `b` exactly when it separates `b` from `a`.
pub proof fn lemma_separates_symmetric(ax: int, ay: int, a: Seq<Vec2>, b: Seq<Vec2>)
    ensures
        separates(ax, ay, a, b) == separates(ax, ay, b, a),
{
}

/// The overlap test does not depend on which rectangle comes first.
pub proof fn lemma_intersects_symmetric(a: Seq<Vec2>, b: Seq<Vec2>)
    requires
        a.len() == 4,
        b.len() == 4,
    ensures
        intersects_spec(a, b) == intersects_spec(b, a),
{
    let ca = reorder_spec(a);
    let cb = reorder_spec(b);
    lemma_separates_symmetric(ca[1].x - ca[0].x, ca[1].y - ca[0].y, ca, cb);
    lemma_separates_symmetric(ca[3].x - ca[0].x, ca[3].y - ca[0].y, ca, cb);
    lemma_separates_symmetric(cb[1].x - cb[0].x, cb[1].y - cb[0].y, ca, cb);
    lemma_separates_symmetric(cb[3].x - cb[0].x, cb[3].y - cb[0].y, ca, cb);
}

/// The vertices of `q` in the order given by four distinct indices.
pub open spec fn permuted(q: Seq<Vec2>, i0: int, i1: int, i2: int, i3: int) -> Seq<Vec2> {
    seq![q[i0], q[i1], q[i2], q[i3]]
}

pub open spec fn is_index_order(i0: int, i1: int, i2: int, i3: int) -> bool {
    0 <= i0 < 4 && 0 <= i1 < 4 && 0 <= i2 < 4 && 0 <= i3 < 4
    && i0 != i1 && i0 != i2 && i0 != i3 && i1 != i2 && i1 != i3 && i2 != i3
}

/// The extent of a quadrilateral along an axis does not depend on the order of its vertices.
pub proof fn lemma_extent_order_free(ax: int, ay: int, q: Seq<Vec2>, i0: int, i1: int, i2: int, i3: int)
    requires
        q.len() == 4,
        is_index_order(i0, i1, i2, i3),
    ensures
        proj_min(ax, ay, permuted(q, i0, i1, i2, i3)) == proj_min(ax, ay, q),
        proj_max(ax, ay, permuted(q, i0, i1, i2, i3)) == proj_max(ax, ay, q),
{
}

/// An axis and its opposite separate the same pairs.
pub proof fn lemma_separates_opposite(ax: int, ay: int, a: Seq<Vec2>, b: Seq<Vec2>)
    requires
        a.len() == 4,
        b.len() == 4,
    ensures
        separates(-ax, -ay, a, b) == separates(ax, ay, a, b),
{
    assert forall|p: Vec2| #[trigger] crate::sat::proj(-ax, -ay, p) == -crate::sat::proj(ax, ay, p) by {
        assert((-ax) * p.x + (-ay) * p.y == -(ax * p.x + ay * p.y)) by (nonlinear_arith);
    }
}

/// The dot product of two integer combinations of orthogonal vectors `e` and `f`.
proof fn lemma_dot_combination(
    ux: int, uy: int, vx: int, vy: int,
    ex: int, ey: int, fx: int, fy: int,
    a1: int, b1: int, a2: int, b2: int,
)
    requires
        ux == a1 * ex + b1 * fx,
        uy == a1 * ey + b1 * fy,
        vx == a2 * ex + b2 * fx,
        vy == a2 * ey + b2 * fy,
        ex * fx + ey * fy == 0,
    ensures
        ux * vx + uy * vy == a1 * a2 * (ex * ex + ey * ey) + b1 * b2 * (fx * fx + fy * fy),
{
    vstd::arithmetic::mul::lemma_mul_is_distributive_add(ux, a2 * ex, b2 * fx);
    vstd::arithmetic::mul::lemma_mul_is_distributive_add(uy, a2 * ey, b2 * fy);
    vstd::arithmetic::mul::lemma_mul_is_distributive_add_other_way(a2 * ex, a1 * ex, b1 * fx);
    vstd::arithmetic::mul::lemma_mul_is_distributive_add_other_way(b2 * fx, a1 * ex, b1 * fx);
    vstd::arithmetic::mul::lemma_mul_is_distributive_add_other_way(a2 * ey, a1 * ey, b1 * fy);
    vstd::arithmetic::mul::lemma_mul_is_distributive_add_other_way(b2 * fy, a1 * ey, b1 * fy);
    assert((a1 * ex) * (a2 * ex) == a1 * a2 * (ex * ex)) by (nonlinear_arith);
    assert((a1 * ey) * (a2 * ey) == a1 * a2 * (ey * ey)) by (nonlinear_arith);
    assert((b1 * fx) * (b2 * fx) == b1 * b2 * (fx * fx)) by (nonlinear_arith);
    assert((b1 * fy) * (b2 * fy) == b1 * b2 * (fy * fy)) by (nonlinear_arith);
    assert((a1 * ex) * (b2 * fx) == a1 * b2 * (ex * fx)) by (nonlinear_arith);
    assert((a1 * ey) * (b2 * fy) == a1 * b2 * (ey * fy)) by (nonlinear_arith);
    assert((b1 * fx) * (a2 * ex) == b1 * a2 * (ex * fx)) by (nonlinear_arith);
    assert((b1 * fy) * (a2 * ey) == b1 * a2 * (ey * fy)) by (nonlinear_arith);
    vstd::arithmetic::mul::lemma_mul_is_distributive_add(a1 * b2, ex * fx, ey * fy);
    vstd::arithmetic::mul::lemma_mul_is_distributive_add(b1 * a2, ex * fx, ey * fy);
    vstd::arithmetic::mul::lemma_mul_basics(a1 * b2);
    vstd::arithmetic::mul::lemma_mul_basics(b1 * a2);
    vstd::arithmetic::mul::lemma_mul_is_distributive_add(a1 * a2, ex * ex, ey * ey);
    vstd::arithmetic::mul::lemma_mul_is_distributive_add(b1 * b2, fx * fx, fy * fy);
}

/// The quadrilateral lists a rectangle with nonzero sides in perimeter order.
pub open spec fn is_rectangle(q: Seq<Vec2>) -> bool {
    q.len() == 4
    && edge_x(q, 1, 2) == edge_x(q, 0, 3)
    && edge_y(q, 1, 2) == edge_y(q, 0, 3)
    && pivot_dot(q, 1, 3) == 0
    && pivot_dot(q, 1, 1) > 0
    && pivot_dot(q, 3, 3) > 0
}

/// Dot product of the vectors from vertex `i` to vertices `j` and `k`.
pub open spec fn corner_dot(q: Seq<Vec2>, i: int, j: int, k: int) -> int {
    edge_x(q, i, j) * edge_x(q, i, k) + edge_y(q, i, j) * edge_y(q, i, k)
}

/// The vertex opposite vertex `i` in perimeter order.
pub open spec fn opposite(i: int) -> int {
    (i + 2) % 4
}

/// From any corner of a rectangle, the vectors to two other corners are orthogonal
/// exactly when neither of them is the opposite corner.
proof fn lemma_corner_dot(q: Seq<Vec2>, i: int, j: int, k: int)
    requires
        is_rectangle(q),
        0 <= i < 4, 0 <= j < 4, 0 <= k < 4,
        i != j, i != k, j != k,
    ensures
        (corner_dot(q, i, j, k) != 0) == (j == opposite(i) || k == opposite(i)),
{
    let ex = edge_x(q, 0, 1);
    let ey = edge_y(q, 0, 1);
    let fx = edge_x(q, 0, 3);
    let fy = edge_y(q, 0, 3);
    if i == 0 && j == 1 && k == 2 {
        lemma_dot_combination(
            edge_x(q, i, j), edge_y(q, i, j), edge_x(q, i, k), edge_y(q, i, k),
            ex, ey, fx, fy, 1, 0, 1, 1,
        );
    } else if i == 0 && j == 1 && k == 3 {
        lemma_dot_combination(
            edge_x(q, i, j), edge_y(q, i, j), edge_x(q, i, k), edge_y(q, i, k),
            ex, ey, fx, fy, 1, 0, 0, 1,
        );
    } else if i == 0 && j == 2 && k == 1 {
        lemma_dot_combination(
            edge_x(q, i, j), edge_y(q, i, j), edge_x(q, i, k), edge_y(q, i, k),
            ex, ey, fx, fy, 1, 1, 1, 0,
        );
    } else if i == 0 && j == 2 && k == 3 {
        lemma_dot_combination(
            edge_x(q, i, j), edge_y(q, i, j), edge_x(q, i, k), edge_y(q, i, k),
            ex, ey, fx, fy, 1, 1, 0, 1,
        );
    } else if i == 0 && j == 3 && k == 1 {
        lemma_dot_combination(
            edge_x(q, i, j), edge_y(q, i, j), edge_x(q, i, k), edge_y(q, i, k),
            ex, ey, fx, fy, 0, 1, 1, 0,
        );
    } else if i == 0 && j == 3 && k == 2 {
        lemma_dot_combination(
            edge_x(q, i, j), edge_y(q, i, j), edge_x(q, i, k), edge_y(q, i, k),
            ex, ey, fx, fy, 0, 1, 1, 1,
        );
    } else if i == 1 && j == 0 && k == 2 {
        lemma_dot_combination(
            edge_x(q, i, j), edge_y(q, i, j), edge_x(q, i, k), edge_y(q, i, k),
            ex, ey, fx, fy, -1, 0, 0, 1,
        );
    } else if i == 1 && j == 0 && k == 3 {
        lemma_dot_combination(
            edge_x(q, i, j), edge_y(q, i, j), edge_x(q, i, k), edge_y(q, i, k),
            ex, ey, fx, fy, -1, 0, -1, 1,
        );
    } else if i == 1 && j == 2 && k == 0 {
        lemma_dot_combination(
            edge_x(q, i, j), edge_y(q, i, j), edge_x(q, i, k), edge_y(q, i, k),
            ex, ey, fx, fy, 0, 1, -1, 0,
        );
    } else if i == 1 && j == 2 && k == 3 {
        lemma_dot_combination(
            edge_x(q, i, j), edge_y(q, i, j), edge_x(q, i, k), edge_y(q, i, k),
            ex, ey, fx, fy, 0, 1, -1, 1,
        );
    } else if i == 1 && j == 3 && k == 0 {
        lemma_dot_combination(
            edge_x(q, i, j), edge_y(q, i, j), edge_x(q, i, k), edge_y(q, i, k),
            ex, ey, fx, fy, -1, 1, -1, 0,
        );
    } else if i == 1 && j == 3 && k == 2 {
        lemma_dot_combination(
            edge_x(q, i, j), edge_y(q, i, j), edge_x(q, i, k), edge_y(q, i, k),
            ex, ey, fx, fy, -1, 1, 0, 1,
        );
    } else if i == 2 && j == 0 && k == 1 {
        lemma_dot_combination(
            edge_x(q, i, j), edge_y(q, i, j), edge_x(q, i, k), edge_y(q, i, k),
            ex, ey, fx, fy, -1, -1, 0, -1,
        );
    } else if i == 2 && j == 0 && k == 3 {
        lemma_dot_combination(
            edge_x(q, i, j), edge_y(q, i, j), edge_x(q, i, k), edge_y(q, i, k),
            ex, ey, fx, fy, -1, -1, -1, 0,
        );
    } else if i == 2 && j == 1 && k == 0 {
        lemma_dot_combination(
            edge_x(q, i, j), edge_y(q, i, j), edge_x(q, i, k), edge_y(q, i, k),
            ex, ey, fx, fy, 0, -1, -1, -1,
        );
    } else if i == 2 && j == 1 && k == 3 {
        lemma_dot_combination(
            edge_x(q, i, j), edge_y(q, i, j), edge_x(q, i, k), edge_y(q, i, k),
            ex, ey, fx, fy, 0, -1, -1, 0,
        );
    } else if i == 2 && j == 3 && k == 0 {
        lemma_dot_combination(
            edge_x(q, i, j), edge_y(q, i, j), edge_x(q, i, k), edge_y(q, i, k),
            ex, ey, fx, fy, -1, 0, -1, -1,
        );
    } else if i == 2 && j == 3 && k == 1 {
        lemma_dot_combination(
            edge_x(q, i, j), edge_y(q, i, j), edge_x(q, i, k), edge_y(q, i, k),
            ex, ey, fx, fy, -1, 0, 0, -1,
        );
    } else if i == 3 && j == 0 && k == 1 {
        lemma_dot_combination(
            edge_x(q, i, j), edge_y(q, i, j), edge_x(q, i, k), edge_y(q, i, k),
            ex, ey, fx, fy, 0, -1, 1, -1,
        );
    } else if i == 3 && j == 0 && k == 2 {
        lemma_dot_combination(
            edge_x(q, i, j), edge_y(q, i, j), edge_x(q, i, k), edge_y(q, i, k),
            ex, ey, fx, fy, 0, -1, 1, 0,
        );
    } else if i == 3 && j == 1 && k == 0 {
        lemma_dot_combination(
            edge_x(q, i, j), edge_y(q, i, j), edge_x(q, i, k), edge_y(q, i, k),
            ex, ey, fx, fy, 1, -1, 0, -1,
        );
    } else if i == 3 && j == 1 && k == 2 {
        lemma_dot_combination(
            edge_x(q, i, j), edge_y(q, i, j), edge_x(q, i, k), edge_y(q, i, k),
            ex, ey, fx, fy, 1, -1, 1, 0,
        );
    } else if i == 3 && j == 2 && k == 0 {
        lemma_dot_combination(
            edge_x(q, i, j), edge_y(q, i, j), edge_x(q, i, k), edge_y(q, i, k),
            ex, ey, fx, fy, 1, 0, 0, -1,
        );
    } else if i == 3 && j == 2 && k == 1 {
        lemma_dot_combination(
            edge_x(q, i, j), edge_y(q, i, j), edge_x(q, i, k), edge_y(q, i, k),
            ex, ey, fx, fy, 1, 0, 1, -1,
        );
    }
}

/// Reordering any listing of a rectangle's vertices keeps the first vertex and
/// puts the opposite corner at position 2, so the result is in perimeter order.
pub proof fn lemma_reorder_rectangle(q: Seq<Vec2>, i0: int, i1: int, i2: int, i3: int) -> (js: (int, int))
    requires
        is_rectangle(q),
        is_index_order(i0, i1, i2, i3),
    ensures
        is_index_order(i0, js.0, opposite(i0), js.1),
        reorder_spec(permuted(q, i0, i1, i2, i3)) == permuted(q, i0, js.0, opposite(i0), js.1),
        is_canonical(reorder_spec(permuted(q, i0, i1, i2, i3))),
        is_rectangle_listing(permuted(q, i0, i1, i2, i3)),
{
    let r = permuted(q, i0, i1, i2, i3);
    lemma_corner_dot(q, i0, i1, i3);
    lemma_corner_dot(q, i0, i1, i2);
    assert(pivot_dot(r, 1, 3) == corner_dot(q, i0, i1, i3));
    assert(pivot_dot(r, 1, 2) == corner_dot(q, i0, i1, i2));
    let js = if pivot_dot(r, 1, 3) != 0 {
        if pivot_dot(r, 1, 2) != 0 { (i2, i3) } else { (i1, i2) }
    } else {
        (i1, i3)
    };
    assert(reorder_spec(r) =~= permuted(q, i0, js.0, opposite(i0), js.1));
    lemma_corner_dot(q, i0, js.0, js.1);
    assert(pivot_dot(reorder_spec(r), 1, 3) == corner_dot(q, i0, js.0, js.1));
    if i0 == 0 {
    } else if i0 == 1 {
    } else if i0 == 2 {
    } else {
    }
    js
}

/// Reordering the vertices of a rectangle, listed in any order, a second time
/// changes nothing.
pub proof fn lemma_reorder_idempotent(q: Seq<Vec2>, i0: int, i1: int, i2: int, i3: int)
    requires
        is_rectangle(q),
        is_index_order(i0, i1, i2, i3),
    ensures
        reorder_spec(reorder_spec(permuted(q, i0, i1, i2, i3))) == reorder_spec(permuted(q, i0, i1, i2, i3)),
{
    let _ = lemma_reorder_rectangle(q, i0, i1, i2, i3);
    lemma_reorder_canonical_identity(reorder_spec(permuted(q, i0, i1, i2, i3)));
}

/// The two edges of a rectangle at one corner run along its two sides, each up
/// to sign.
proof fn lemma_neighbor_edges(q: Seq<Vec2>, i: int, j1: int, j3: int)
    requires
        is_rectangle(q),
        is_index_order(i, j1, opposite(i), j3),
    ensures
        ({
            let ex = edge_x(q, 0, 1);
            let ey = edge_y(q, 0, 1);
            let fx = edge_x(q, 0, 3);
            let fy = edge_y(q, 0, 3);
            let ax1 = edge_x(q, i, j1);
            let ay1 = edge_y(q, i, j1);
            let ax3 = edge_x(q, i, j3);
            let ay3 = edge_y(q, i, j3);
            ((ax1 == ex && ay1 == ey) || (ax1 == -ex && ay1 == -ey)) && ((ax3 == fx && ay3 == fy) || (ax3 == -fx && ay3 == -fy))
            || ((ax1 == fx && ay1 == fy) || (ax1 == -fx && ay1 == -fy)) && ((ax3 == ex && ay3 == ey) || (ax3 == -ex && ay3 == -ey))
        }),
{
    if i == 0 {
    } else if i == 1 {
    } else if i == 2 {
    } else {
    }
}

/// The overlap test gives the same answer for every order in which the vertices
/// of the first rectangle are listed.
#[verifier::rlimit(50)]
pub proof fn lemma_intersects_first_order_free(
    q: Seq<Vec2>,
    b: Seq<Vec2>,
    i0: int,
    i1: int,
    i2: int,
    i3: int,
)
    requires
        is_rectangle(q),
        b.len() == 4,
        is_index_order(i0, i1, i2, i3),
    ensures
        intersects_spec(permuted(q, i0, i1, i2, i3), b) == intersects_spec(q, b),
{
    let c = reorder_spec(permuted(q, i0, i1, i2, i3));
    let cb = reorder_spec(b);
    let js = lemma_reorder_rectangle(q, i0, i1, i2, i3);
    let (j1, j3) = js;
    let j2 = opposite(i0);
    assert(is_canonical(q));
    lemma_reorder_canonical_identity(q);
    let ex = edge_x(q, 0, 1);
    let ey = edge_y(q, 0, 1);
    let fx = edge_x(q, 0, 3);
    let fy = edge_y(q, 0, 3);
    lemma_extent_order_free(ex, ey, q, i0, j1, j2, j3);
    lemma_extent_order_free(fx, fy, q, i0, j1, j2, j3);
    lemma_extent_order_free(-ex, -ey, q, i0, j1, j2, j3);
    lemma_extent_order_free(-fx, -fy, q, i0, j1, j2, j3);
    lemma_extent_order_free(edge_x(cb, 0, 1), edge_y(cb, 0, 1), q, i0, j1, j2, j3);
    lemma_extent_order_free(edge_x(cb, 0, 3), edge_y(cb, 0, 3), q, i0, j1, j2, j3);
    lemma_separates_opposite(ex, ey, q, cb);
    lemma_separates_opposite(fx, fy, q, cb);
    lemma_neighbor_edges(q, i0, j1, j3);
    assert(edge_x(c, 0, 1) == edge_x(q, i0, j1) && edge_y(c, 0, 1) == edge_y(q, i0, j1));
    assert(edge_x(c, 0, 3) == edge_x(q, i0, j3) && edge_y(c, 0, 3) == edge_y(q, i0, j3));
}

/// The overlap test of two rectangles gives the same answer for every order in
/// which the vertices of either one are listed.
pub proof fn lemma_intersects_order_free(
    q1: Seq<Vec2>,
    q2: Seq<Vec2>,
    i0: int,
    i1: int,
    i2: int,
    i3: int,
    k0: int,
    k1: int,
    k2: int,
    k3: int,
)
    requires
        is_rectangle(q1),
        is_rectangle(q2),
        is_index_order(i0, i1, i2, i3),
        is_index_order(k0, k1, k2, k3),
    ensures
        intersects_spec(permuted(q1, i0, i1, i2, i3), permuted(q2, k0, k1, k2, k3))
            == intersects_spec(q1, q2),
{
    let p1 = permuted(q1, i0, i1, i2, i3);
    let p2 = permuted(q2, k0, k1, k2, k3);
    lemma_intersects_first_order_free(q1, p2, i0, i1, i2, i3);
    lemma_intersects_symmetric(q1, p2);
    lemma_intersects_first_order_free(q2, q1, k0, k1, k2, k3);
    lemma_intersects_symmetric(q2, q1);
}

/// The quadrilateral lists an axis-aligned square of side one, counter-clockwise
/// from its lower left corner.
pub open spec fn is_unit_square(q: Seq<Vec2>) -> bool {
    q.len() == 4
    && q[1].x == q[0].x + 1 && q[1].y == q[0].y
    && q[2].x == q[0].x + 1 && q[2].y == q[0].y + 1
    && q[3].x == q[0].x && q[3].y == q[0].y + 1
}

/// Two axis-aligned unit squares whose corners lie at least a side apart along
/// either axis do not overlap, whatever order their vertices are listed in.
pub proof fn lemma_unit_squares_apart(
    q1: Seq<Vec2>,
    q2: Seq<Vec2>,
    i0: int,
    i1: int,
    i2: int,
    i3: int,
    k0: int,
    k1: int,
    k2: int,
    k3: int,
)
    requires
        is_unit_square(q1),
        is_unit_square(q2),
        q2[0].x - q1[0].x >= 1 || q1[0].x - q2[0].x >= 1
            || q2[0].y - q1[0].y >= 1 || q1[0].y - q2[0].y >= 1,
        is_index_order(i0, i1, i2, i3),
        is_index_order(k0, k1, k2, k3),
    ensures
        !intersects_spec(permuted(q1, i0, i1, i2, i3), permuted(q2, k0, k1, k2, k3)),
{
    assert(pivot_dot(q1, 1, 3) == 0 && pivot_dot(q1, 1, 1) == 1 && pivot_dot(q1, 3, 3) == 1);
    assert(pivot_dot(q2, 1, 3) == 0 && pivot_dot(q2, 1, 1) == 1 && pivot_dot(q2, 3, 3) == 1);
    lemma_reorder_canonical_identity(q1);
    lemma_reorder_canonical_identity(q2);
    assert forall|p: Vec2| #[trigger] crate::sat::proj(1, 0, p) == p.x && crate::sat::proj(0, 1, p) == p.y by {}
    assert(edge_x(q1, 0, 1) == 1 && edge_y(q1, 0, 1) == 0 && edge_x(q1, 0, 3) == 0 && edge_y(q1, 0, 3) == 1);
    lemma_intersects_order_free(q1, q2, i0, i1, i2, i3, k0, k1, k2, k3);
}

/// The quadrilateral lists the axis-aligned rectangle `[x0, x1] x [y0, y1]`,
/// counter-clockwise from its lower left corner.
pub open spec fn is_box(q: Seq<Vec2>, x0: int, y0: int, x1: int, y1: int) -> bool {
    q.len() == 4 && x0 < x1 && y0 < y1
    && q[0].x == x0 && q[0].y == y0
    && q[1].x == x1 && q[1].y == y0
    && q[2].x == x1 && q[2].y == y1
    && q[3].x == x0 && q[3].y == y1
}

proof fn lemma_scaled_order(w: int, a: int, b: int, c: int, d: int)
    requires
        w > 0,
        a <= b < c <= d,
    ensures
        w * a <= w * b < w * c <= w * d,
{
    assert(w * a <= w * b) by (nonlinear_arith)
        requires
            w > 0,
            a <= b,
    ;
    assert(w * b < w * c) by (nonlinear_arith)
        requires
            w > 0,
            b < c,
    ;
    assert(w * c <= w * d) by (nonlinear_arith)
        requires
            w > 0,
            c <= d,
    ;
}

/// Along an axis-aligned direction, an axis-aligned rectangle inside another
/// overlaps it.
proof fn lemma_nested_not_separated(a: Seq<Vec2>, b: Seq<Vec2>, w: int, x0: int, x1: int, u0: int, u1: int, horizontal: bool)
    requires
        a.len() == 4,
        b.len() == 4,
        w > 0,
        x0 <= u0 < u1 <= x1,
        horizontal ==> a[0].x == x0 && a[1].x == x1 && a[2].x == x1 && a[3].x == x0,
        horizontal ==> b[0].x == u0 && b[1].x == u1 && b[2].x == u1 && b[3].x == u0,
        !horizontal ==> a[0].y == x0 && a[1].y == x0 && a[2].y == x1 && a[3].y == x1,
        !horizontal ==> b[0].y == u0 && b[1].y == u0 && b[2].y == u1 && b[3].y == u1,
    ensures
        horizontal ==> !separates(w, 0, a, b) && !separates(w, 0, b, a),
        !horizontal ==> !separates(0, w, a, b) && !separates(0, w, b, a),
{
    lemma_scaled_order(w, x0, u0, u1, x1);
    assert forall|p: Vec2| #[trigger] crate::sat::proj(w, 0, p) == w * p.x && crate::sat::proj(0, w, p) == w * p.y by {}
}

/// An axis-aligned rectangle lying inside another overlaps it, whatever order
/// the vertices of either are listed in, and whichever comes first.
pub proof fn lemma_contained_box_overlaps(
    a: Seq<Vec2>,
    b: Seq<Vec2>,
    x0: int,
    y0: int,
    x1: int,
    y1: int,
    u0: int,
    v0: int,
    u1: int,
    v1: int,
    i0: int,
    i1: int,
    i2: int,
    i3: int,
    k0: int,
    k1: int,
    k2: int,
    k3: int,
)
    requires
        is_box(a, x0, y0, x1, y1),
        is_box(b, u0, v0, u1, v1),
        x0 <= u0 && u1 <= x1 && y0 <= v0 && v1 <= y1,
        is_index_order(i0, i1, i2, i3),
        is_index_order(k0, k1, k2, k3),
    ensures
        intersects_spec(permuted(a, i0, i1, i2, i3), permuted(b, k0, k1, k2, k3)),
        intersects_spec(permuted(b, k0, k1, k2, k3), permuted(a, i0, i1, i2, i3)),
{
    assert(pivot_dot(a, 1, 3) == 0 && pivot_dot(b, 1, 3) == 0);
    assert(pivot_dot(a, 1, 1) > 0 && pivot_dot(a, 3, 3) > 0) by (nonlinear_arith)
        requires
            pivot_dot(a, 1, 1) == (x1 - x0) * (x1 - x0) + 0 * 0,
            pivot_dot(a, 3, 3) == 0 * 0 + (y1 - y0) * (y1 - y0),
            x0 < x1,
            y0 < y1,
    ;
    assert(pivot_dot(b, 1, 1) > 0 && pivot_dot(b, 3, 3) > 0) by (nonlinear_arith)
        requires
            pivot_dot(b, 1, 1) == (u1 - u0) * (u1 - u0) + 0 * 0,
            pivot_dot(b, 3, 3) == 0 * 0 + (v1 - v0) * (v1 - v0),
            u0 < u1,
            v0 < v1,
    ;
    lemma_reorder_canonical_identity(a);
    lemma_reorder_canonical_identity(b);
    lemma_nested_not_separated(a, b, x1 - x0, x0, x1, u0, u1, true);
    lemma_nested_not_separated(a, b, y1 - y0, y0, y1, v0, v1, false);
    lemma_nested_not_separated(a, b, u1 - u0, x0, x1, u0, u1, true);
    lemma_nested_not_separated(a, b, v1 - v0, y0, y1, v0, v1, false);
    assert(intersects_spec(a, b));
    lemma_intersects_symmetric(a, b);
    lemma_intersects_order_free(a, b, i0, i1, i2, i3, k0, k1, k2, k3);
    lemma_intersects_order_free(b, a, k0, k1, k2, k3, i0, i1, i2, i3);
}

} // verus!
