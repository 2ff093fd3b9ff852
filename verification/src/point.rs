//! Lattice points, positions in thirds of a lattice step, and distances.

use vstd::prelude::*;

verus! {

/// A position on the integer lattice.
#[derive(Clone, Copy, Debug, PartialEq, Eq, Structural)]
pub struct Point {
    pub x: i32,
    pub y: i32,
}

/// A position in thirds of a lattice step: `Fine { x: 3, y: 6 }` is the
/// lattice point `(1, 2)`, `Fine { x: 4, y: 6 }` lies a third of a step to
/// its right. The control points of a cubic are held so, which lets the
/// thirds of any edge between lattice points be written down exactly.
#[derive(Clone, Copy, Debug, PartialEq, Eq, Structural)]
pub struct Fine {
    pub x: i64,
    pub y: i64,
}

impl Fine {
    /// Whether the position lies within the span of the lattice.
    pub open spec fn wf(self) -> bool {
        &&& 3 * i32::MIN <= self.x <= 3 * i32::MAX
        &&& 3 * i32::MIN <= self.y <= 3 * i32::MAX
    }

    /// Decides `wf`.
    pub fn is_wf(&self) -> (b: bool)
        ensures
            b == self.wf(),
    {
        3 * (i32::MIN as i64) <= self.x && self.x <= 3 * (i32::MAX as i64) && 3 * (i32::MIN as i64)
            <= self.y && self.y <= 3 * (i32::MAX as i64)
    }

    /// Squared Euclidean distance to a lattice point, in ninths: the square
    /// of the distance counted in thirds of a step.
    pub open spec fn dist_sq(self, other: Point) -> int {
        (self.x - 3 * other.x) * (self.x - 3 * other.x) + (self.y - 3 * other.y) * (self.y - 3
            * other.y)
    }

    /// Whether the lattice point `other` lies strictly inside the disc of
    /// the given radius, in lattice steps, around `self`. A point exactly on
    /// the rim is outside.
    pub open spec fn within(self, other: Point, radius: int) -> bool {
        self.dist_sq(other) < 9 * (radius * radius)
    }

    /// Decides `within` without overflow, whatever the coordinates.
    pub fn is_within(&self, other: &Point, radius: u32) -> (b: bool)
        ensures
            b == self.within(*other, radius as int),
    {
        let dx: i128 = self.x as i128 - 3 * (other.x as i128);
        let dy: i128 = self.y as i128 - 3 * (other.y as i128);
        let r: i128 = 3 * (radius as i128);
        assert(9 * (radius * radius) == r * r) by (nonlinear_arith)
            requires
                r == 3 * radius,
        ;
        assert(0 <= r * r <= 0x10_0000_0000_0000_0000) by (nonlinear_arith)
            requires
                0 <= r <= 0x4_0000_0000,
        ;
        if dx > r || dx < -r || dy > r || dy < -r {
            // farther than the radius along one axis alone
            assert(dx * dx + dy * dy >= r * r) by (nonlinear_arith)
                requires
                    dx > r || dx < -r || dy > r || dy < -r,
                    r >= 0,
            ;
            return false;
        }
        assert(0 <= dx * dx <= 0x10_0000_0000_0000_0000 && 0 <= dy * dy
            <= 0x10_0000_0000_0000_0000) by (nonlinear_arith)
            requires
                -0x4_0000_0000 <= dx <= 0x4_0000_0000,
                -0x4_0000_0000 <= dy <= 0x4_0000_0000,
        ;
        dx * dx + dy * dy < r * r
    }

    /// The position mirrored in the diagonal.
    pub open spec fn spec_transpose(self) -> Fine {
        Fine { x: self.y, y: self.x }
    }

    #[verifier::when_used_as_spec(spec_transpose)]
    pub fn transpose(self) -> (f: Fine)
        ensures
            f == self.spec_transpose(),
            self.wf() ==> f.wf(),
    {
        Fine { x: self.y, y: self.x }
    }
}

/// The distance from a lattice point, held in thirds, is the distance from
/// the lattice point: three times as many thirds as steps.
pub proof fn lemma_fine_distance(p: Point, other: Point, radius: int)
    ensures
        p.spec_fine().dist_sq(other) == 9 * p.dist_sq(other),
        p.spec_fine().within(other, radius) <==> p.within(other, radius),
        p.spec_fine().wf(),
{
    let dx = p.x - other.x;
    let dy = p.y - other.y;
    assert((3 * p.x - 3 * other.x) * (3 * p.x - 3 * other.x) == 9 * (dx * dx)) by (nonlinear_arith)
        requires
            dx == p.x - other.x,
    ;
    assert((3 * p.y - 3 * other.y) * (3 * p.y - 3 * other.y) == 9 * (dy * dy)) by (nonlinear_arith)
        requires
            dy == p.y - other.y,
    ;
}

impl Point {
    pub fn new(x: i32, y: i32) -> (p: Point)
        ensures
            p == (Point { x, y }),
    {
        Point { x, y }
    }

    /// Squared Euclidean distance between two lattice points.
    pub open spec fn dist_sq(self, other: Point) -> int {
        (self.x - other.x) * (self.x - other.x) + (self.y - other.y) * (self.y - other.y)
    }

    /// Whether `other` lies strictly inside the disc of the given radius
    /// around `self`. A point exactly on the rim is outside.
    pub open spec fn within(self, other: Point, radius: int) -> bool {
        self.dist_sq(other) < radius * radius
    }

    /// The same position, in thirds of a lattice step.
    pub open spec fn spec_fine(self) -> Fine {
        Fine { x: (3 * self.x) as i64, y: (3 * self.y) as i64 }
    }

    #[verifier::when_used_as_spec(spec_fine)]
    pub fn fine(self) -> (f: Fine)
        ensures
            f == self.spec_fine(),
            f.wf(),
    {
        Fine { x: 3 * (self.x as i64), y: 3 * (self.y as i64) }
    }

    /// The point mirrored in the diagonal: abscissa and ordinate swapped.
    pub open spec fn spec_transpose(self) -> Point {
        Point { x: self.y, y: self.x }
    }

    #[verifier::when_used_as_spec(spec_transpose)]
    pub fn transpose(self) -> (p: Point)
        ensures
            p == self.spec_transpose(),
    {
        Point { x: self.y, y: self.x }
    }
}

} // verus!
