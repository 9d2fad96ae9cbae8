use vstd::prelude::*;

verus! {

/// Largest coordinate magnitude the library handles. Keeping every
/// coordinate within this bound keeps every squared norm and squared
/// distance comfortably inside `i64`.
pub const COORD_LIMIT: i64 = 2_000_000;

/// Fixed-point value of one half. The point sampler draws each coordinate
/// from `[-UNIT_HALF, UNIT_HALF]`, the cube standing for `[-0.5, 0.5]` at a
/// resolution of one millionth of a unit.
pub const UNIT_HALF: i64 = 500_000;

/// A point of the cloud. Coordinates are fixed-point integers: one unit of
/// geometric length is `2 * UNIT_HALF` coordinate steps. A point is
/// identified only by its position in the cloud's ordered sequence.
#[derive(Clone, Copy, PartialEq, Eq, Structural, Debug)]
pub struct Point {
    pub x: i64,
    pub y: i64,
    pub z: i64,
}

impl Point {
    /// Every coordinate is within the magnitude the library handles.
    pub open spec fn in_bounds(self) -> bool {
        &&& -COORD_LIMIT <= self.x <= COORD_LIMIT
        &&& -COORD_LIMIT <= self.y <= COORD_LIMIT
        &&& -COORD_LIMIT <= self.z <= COORD_LIMIT
    }

    /// The point lies in the sampling cube `[-0.5, 0.5]^3`.
    pub open spec fn in_unit_cube(self) -> bool {
        &&& -UNIT_HALF <= self.x <= UNIT_HALF
        &&& -UNIT_HALF <= self.y <= UNIT_HALF
        &&& -UNIT_HALF <= self.z <= UNIT_HALF
    }

    /// Squared Euclidean norm, in squared coordinate steps.
    pub open spec fn norm_sq(self) -> int {
        self.x * self.x + self.y * self.y + self.z * self.z
    }

    /// Computes the squared norm. Squared lengths are used throughout: they
    /// compare exactly the way the lengths themselves do.
    pub fn squared_norm(&self) -> (r: i64)
        requires
            self.in_bounds(),
        ensures
            r == self.norm_sq(),
    {
        proof {
            lemma_square_bounds(self.x as int, COORD_LIMIT as int);
            lemma_square_bounds(self.y as int, COORD_LIMIT as int);
            lemma_square_bounds(self.z as int, COORD_LIMIT as int);
        }
        self.x * self.x + self.y * self.y + self.z * self.z
    }
}

/// Squared Euclidean distance between two points, in squared coordinate
/// steps.
pub open spec fn dist_sq(p: Point, q: Point) -> int {
    (q.x - p.x) * (q.x - p.x) + (q.y - p.y) * (q.y - p.y) + (q.z - p.z) * (q.z - p.z)
}

/// A square of a bounded value is bounded and never negative.
pub proof fn lemma_square_bounds(v: int, bound: int)
    requires
        -bound <= v <= bound,
    ensures
        0 <= v * v <= bound * bound,
{
    assert(0 <= v * v <= bound * bound) by (nonlinear_arith)
        requires
            -bound <= v <= bound,
    ;
}

/// A squared norm is never negative.
pub proof fn lemma_norm_sq_nonneg(p: Point)
    ensures
        p.norm_sq() >= 0,
{
    assert(p.x * p.x >= 0) by (nonlinear_arith);
    assert(p.y * p.y >= 0) by (nonlinear_arith);
    assert(p.z * p.z >= 0) by (nonlinear_arith);
}

/// A squared distance is never negative.
pub proof fn lemma_dist_sq_nonneg(p: Point, q: Point)
    ensures
        dist_sq(p, q) >= 0,
{
    let dx = q.x - p.x;
    let dy = q.y - p.y;
    let dz = q.z - p.z;
    assert(dx * dx >= 0) by (nonlinear_arith);
    assert(dy * dy >= 0) by (nonlinear_arith);
    assert(dz * dz >= 0) by (nonlinear_arith);
}

/// A point of the sampling cube has squared norm at most
/// `3 * UNIT_HALF * UNIT_HALF`, the squared norm of a cube corner.
pub proof fn lemma_unit_cube_norm_sq(p: Point)
    requires
        p.in_unit_cube(),
    ensures
        p.norm_sq() <= 3 * UNIT_HALF * UNIT_HALF,
{
    lemma_square_bounds(p.x as int, UNIT_HALF as int);
    lemma_square_bounds(p.y as int, UNIT_HALF as int);
    lemma_square_bounds(p.z as int, UNIT_HALF as int);
}

/// Computes the squared distance between the points at positions `i` and
/// `j` of the cloud.
pub fn distance(points: &Vec<Point>, i: usize, j: usize) -> (d: i64)
    requires
        i < points@.len(),
        j < points@.len(),
        points@[i as int].in_bounds(),
        points@[j as int].in_bounds(),
    ensures
        d == dist_sq(points@[i as int], points@[j as int]),
{
    let p = points[i];
    let q = points[j];
    let dx = q.x - p.x;
    let dy = q.y - p.y;
    let dz = q.z - p.z;
    proof {
        lemma_square_bounds(dx as int, 2 * COORD_LIMIT as int);
        lemma_square_bounds(dy as int, 2 * COORD_LIMIT as int);
        lemma_square_bounds(dz as int, 2 * COORD_LIMIT as int);
    }
    dx * dx + dy * dy + dz * dz
}

} // verus!
