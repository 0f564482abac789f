//! Plane vectors with integer coordinates.
use vstd::prelude::*;

verus! {

/// Largest magnitude of a vertex coordinate: every integer up to it is also an
/// exact `f32`, and every product the overlap test forms fits in an `i128`.
pub const COORD_LIMIT: i64 = 16777216;

/// A vector (or a point) of the plane.
#[derive(Clone, Copy, Debug, PartialEq, Eq, Structural)]
pub struct Vec2 {
    pub x: i64,
    pub y: i64,
}

/// The dot product of two vectors given by their coordinates.
pub open spec fn dot_of(ax: int, ay: int, bx: int, by: int) -> int {
    ax * bx + ay * by
}

impl Vec2 {
    /// Both coordinates lie within `COORD_LIMIT` of zero.
    pub open spec fn in_range(self) -> bool {
        -COORD_LIMIT <= self.x <= COORD_LIMIT && -COORD_LIMIT <= self.y <= COORD_LIMIT
    }

    /// Both coordinates lie within `lim` of zero.
    pub open spec fn bounded_by(self, lim: int) -> bool {
        -lim <= self.x <= lim && -lim <= self.y <= lim
    }

    pub open spec fn dot_spec(self, o: Vec2) -> int {
        dot_of(self.x as int, self.y as int, o.x as int, o.y as int)
    }

    pub open spec fn add_spec(self, o: Vec2) -> (int, int) {
        (self.x + o.x, self.y + o.y)
    }

    pub open spec fn sub_spec(self, o: Vec2) -> (int, int) {
        (self.x - o.x, self.y - o.y)
    }

    pub fn new(x: i64, y: i64) -> (r: Vec2)
        ensures
            r.x == x,
            r.y == y,
    {
        Vec2 { x, y }
    }

    /// The dot product, exact.
    pub fn dot(&self, other: Vec2) -> (r: i128)
        requires
            self.bounded_by(0x8000_0000_0000),
            other.bounded_by(0x8000_0000_0000),
        ensures
            r == self.dot_spec(other),
    {
        let ax = self.x as i128;
        let ay = self.y as i128;
        let bx = other.x as i128;
        let by = other.y as i128;
        assert(-0x4000_0000_0000_0000_0000_0000 <= ax * bx <= 0x4000_0000_0000_0000_0000_0000)
            by (nonlinear_arith)
            requires
                -0x8000_0000_0000 <= ax <= 0x8000_0000_0000,
                -0x8000_0000_0000 <= bx <= 0x8000_0000_0000,
        ;
        assert(-0x4000_0000_0000_0000_0000_0000 <= ay * by <= 0x4000_0000_0000_0000_0000_0000)
            by (nonlinear_arith)
            requires
                -0x8000_0000_0000 <= ay <= 0x8000_0000_0000,
                -0x8000_0000_0000 <= by <= 0x8000_0000_0000,
        ;
        ax * bx + ay * by
    }

    /// The squared Euclidean length, exact.
    pub fn length_sq(&self) -> (r: i128)
        requires
            self.bounded_by(0x8000_0000_0000),
        ensures
            r == self.dot_spec(*self),
            r >= 0,
    {
        let r = self.dot(*self);
        assert(self.x * self.x >= 0 && self.y * self.y >= 0) by (nonlinear_arith);
        r
    }

    /// The sum of two vectors.
    pub fn add(&self, other: Vec2) -> (r: Vec2)
        requires
            self.bounded_by(0x1000_0000_0000_0000),
            other.bounded_by(0x1000_0000_0000_0000),
        ensures
            (r.x as int, r.y as int) == self.add_spec(other),
    {
        Vec2 { x: self.x + other.x, y: self.y + other.y }
    }

    /// The difference of two vectors.
    pub fn sub(&self, other: Vec2) -> (r: Vec2)
        requires
            self.bounded_by(0x1000_0000_0000_0000),
            other.bounded_by(0x1000_0000_0000_0000),
        ensures
            (r.x as int, r.y as int) == self.sub_spec(other),
    {
        Vec2 { x: self.x - other.x, y: self.y - other.y }
    }
}

} // verus!
