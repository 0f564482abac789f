use obb_sat::sat::{reorder_vertices, sat2d, separated_on};
use obb_sat::vec2::Vec2;

fn v(x: i64, y: i64) -> Vec2 {
    Vec2::new(x, y)
}

fn orders(b: [Vec2; 4]) -> Vec<[Vec2; 4]> {
    let mut out = Vec::new();
    let idx: [usize; 4] = [0, 1, 2, 3];
    for a in idx {
        for c in idx {
            for d in idx {
                for e in idx {
                    if a != c && a != d && a != e && c != d && c != e && d != e {
                        out.push([b[a], b[c], b[d], b[e]]);
                    }
                }
            }
        }
    }
    out
}

fn permute_test(b1: [Vec2; 4], b2: [Vec2; 4], intersect: bool) {
    for p1 in orders(b1) {
        for p2 in orders(b2) {
            assert_eq!(sat2d(p1, p2), intersect, "b1: {:?}, b2: {:?}", p1, p2);
            assert_eq!(sat2d(p2, p1), intersect, "b2: {:?}, b1: {:?}", p2, p1);
        }
    }
}

// Coordinates are twice those of the unit-square scenarios, so that halves are integers.

#[test]
fn test_sat1() {
    let b1 = [v(0, 0), v(2, 0), v(2, 2), v(0, 2)];
    let b2 = [v(3, 1), v(5, 1), v(5, 3), v(3, 3)];
    permute_test(b1, b2, false);
}

#[test]
fn test_sat2() {
    let b1 = [v(0, 0), v(2, 0), v(2, 2), v(0, 2)];
    let b2 = [v(1, 1), v(3, 1), v(3, 3), v(1, 3)];
    permute_test(b1, b2, true);
}

#[test]
fn test_sat3() {
    let b1 = [v(0, 0), v(2, 0), v(2, 2), v(0, 2)];
    let b2 = [v(1, 1), v(2, 2), v(3, 1), v(2, 0)];
    permute_test(b1, b2, true);
}

#[test]
fn test_sat4() {
    let b1 = [v(0, 0), v(4, 0), v(4, 4), v(0, 4)];
    let b2 = [v(1, 1), v(3, 1), v(3, 3), v(1, 3)];
    permute_test(b1, b2, true);
}

#[test]
fn test_sat5() {
    let b1 = [v(0, 0), v(2, 0), v(2, 8), v(0, 8)];
    let b2 = [v(3, 1), v(5, 1), v(5, 9), v(3, 9)];
    permute_test(b1, b2, false);
}

#[test]
fn edge_touching_is_not_overlap() {
    let b1 = [v(0, 0), v(2, 0), v(2, 2), v(0, 2)];
    let b2 = [v(2, 0), v(4, 0), v(4, 2), v(2, 2)];
    permute_test(b1, b2, false);
}

#[test]
fn corner_touching_is_not_overlap() {
    let b1 = [v(0, 0), v(2, 0), v(2, 2), v(0, 2)];
    let b2 = [v(2, 2), v(4, 2), v(4, 4), v(2, 4)];
    permute_test(b1, b2, false);
}

#[test]
fn rotated_square_overlapping_diamond() {
    let b1 = [v(0, 0), v(4, 0), v(4, 4), v(0, 4)];
    let b2 = [v(2, -1), v(5, 2), v(2, 5), v(-1, 2)];
    permute_test(b1, b2, true);
}

#[test]
fn diamond_separated_by_its_own_edge() {
    // Axis-aligned projections overlap; only the diamond's edge direction separates.
    let b1 = [v(0, 0), v(2, 0), v(2, 2), v(0, 2)];
    let b2 = [v(3, 2), v(4, 3), v(3, 4), v(2, 3)];
    permute_test(b1, b2, false);
}

#[test]
fn reorder_keeps_canonical_order() {
    let b = [v(0, 0), v(2, 0), v(2, 2), v(0, 2)];
    assert_eq!(reorder_vertices(b), b);
}

#[test]
fn reorder_moves_diagonal_from_position_one() {
    let b = [v(0, 0), v(2, 2), v(2, 0), v(0, 2)];
    assert_eq!(reorder_vertices(b), [v(0, 0), v(2, 0), v(2, 2), v(0, 2)]);
}

#[test]
fn reorder_moves_diagonal_from_position_three() {
    let b = [v(0, 0), v(2, 0), v(0, 2), v(2, 2)];
    assert_eq!(reorder_vertices(b), [v(0, 0), v(2, 0), v(2, 2), v(0, 2)]);
}

#[test]
fn separated_on_uses_the_tie_break() {
    let a = [v(0, 0), v(2, 0), v(2, 2), v(0, 2)];
    let b = [v(2, 0), v(4, 0), v(4, 2), v(2, 2)];
    let c = [v(1, 0), v(3, 0), v(3, 2), v(1, 2)];
    assert!(separated_on(v(1, 0), &a, &b));
    assert!(!separated_on(v(0, 1), &a, &b));
    assert!(!separated_on(v(1, 0), &a, &c));
    assert!(separated_on(v(-3, 0), &a, &b));
}

#[test]
fn vector_arithmetic_is_exact() {
    let a = v(3, -4);
    let b = v(-5, 7);
    assert_eq!(a.dot(b), -43);
    assert_eq!(a.length_sq(), 25);
    assert_eq!(a.add(b), v(-2, 3));
    assert_eq!(a.sub(b), v(8, -11));
}

#[test]
fn large_coordinates_do_not_overflow() {
    let m = 16777216;
    let b1 = [v(-m, -m), v(m, -m), v(m, m), v(-m, m)];
    let b2 = [v(m - 1, m - 1), v(m, m - 1), v(m, m), v(m - 1, m)];
    permute_test(b1, b2, true);
}
