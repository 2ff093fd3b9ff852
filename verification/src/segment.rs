//! Segments: straight edges, quadratics and cubics, with their extents,
//! their cubic form and their samples.

use vstd::prelude::*;
use crate::arith::{floor_div, round_div};
use crate::point::{Fine, Point};

verus! {

/// A drawable piece of a path: a straight edge or a Bezier curve, from its
/// first point to its last, steered by the points between them. The two
/// control points of a cubic are held in thirds of a lattice step.
#[derive(Clone, Copy, Debug, PartialEq, Eq, Structural)]
pub enum Segment {
    Line(Point, Point),
    Quad(Point, Point, Point),
    Cubic(Point, Fine, Fine, Point),
}

/// A closed interval of lattice coordinates, `lo <= hi`.
#[derive(Clone, Copy, Debug, PartialEq, Eq, Structural)]
pub struct Span {
    pub lo: i32,
    pub hi: i32,
}

pub open spec fn min2(a: int, b: int) -> int {
    if a <= b {
        a
    } else {
        b
    }
}

pub open spec fn max2(a: int, b: int) -> int {
    if a >= b {
        a
    } else {
        b
    }
}

/// The cubic Bernstein form at parameter `k / n`, times `n * n * n`, on the
/// end values `a` and `d` and on control values held in thirds: `c1` and
/// `c2` are three times the control values, which is the factor that the
/// two middle terms of the form carry.
pub open spec fn bernstein3(a: int, c1: int, c2: int, d: int, k: int, n: int) -> int {
    (n - k) * (n - k) * (n - k) * a + ((n - k) * (n - k) * k) * c1 + ((n - k) * k * k) * c2 + k
        * k * k * d
}

/// The coordinate of the lattice line at or next below a coordinate held
/// in thirds.
pub open spec fn thirds_floor(c: int) -> int {
    c / 3
}

/// The coordinate of the lattice line at or next above a coordinate held
/// in thirds.
pub open spec fn thirds_ceil(c: int) -> int {
    -((-c) / 3)
}

/// The quadratic Bernstein form on `a, b, c` at parameter `k / n`, times `n * n`.
pub open spec fn bernstein2(a: int, b: int, c: int, k: int, n: int) -> int {
    (n - k) * (n - k) * a + 2 * ((n - k) * k) * b + k * k * c
}

/// The linear interpolation between `a` and `b` at parameter `k / n`, times `n`.
pub open spec fn bernstein1(a: int, b: int, k: int, n: int) -> int {
    (n - k) * a + k * b
}

/// Parameter steps per segment when a curve is drawn as a polyline.
pub const STEPS: u32 = 10;

impl Span {
    pub open spec fn wf(self) -> bool {
        self.lo <= self.hi
    }

    /// The interval between two coordinates, in either order.
    pub fn between(a: i32, b: i32) -> (s: Span)
        ensures
            s.wf(),
            s.lo == min2(a as int, b as int),
            s.hi == max2(a as int, b as int),
    {
        if a <= b {
            Span { lo: a, hi: b }
        } else {
            Span { lo: b, hi: a }
        }
    }

    /// Whether the two intervals share no coordinate.
    pub open spec fn disjoint(self, other: Span) -> bool {
        self.hi < other.lo || other.hi < self.lo
    }

    /// Whether the interval holds `v`.
    pub open spec fn covers(self, v: int) -> bool {
        self.lo <= v <= self.hi
    }

    /// The smallest interval that holds both.
    pub open spec fn spec_join(self, other: Span) -> Span {
        Span {
            lo: if self.lo <= other.lo {
                self.lo
            } else {
                other.lo
            },
            hi: if self.hi >= other.hi {
                self.hi
            } else {
                other.hi
            },
        }
    }

    #[verifier::when_used_as_spec(spec_join)]
    pub fn join(self, other: Span) -> (s: Span)
        ensures
            s == self.spec_join(other),
            s.lo == min2(self.lo as int, other.lo as int),
            s.hi == max2(self.hi as int, other.hi as int),
            self.wf() ==> s.wf(),
    {
        Span {
            lo: if self.lo <= other.lo {
                self.lo
            } else {
                other.lo
            },
            hi: if self.hi >= other.hi {
                self.hi
            } else {
                other.hi
            },
        }
    }
}

impl Segment {
    /// The point at which the segment begins.
    pub open spec fn spec_start(self) -> Point {
        match self {
            Segment::Line(q0, _) => q0,
            Segment::Quad(q0, _, _) => q0,
            Segment::Cubic(q0, _, _, _) => q0,
        }
    }

    /// The point at which the segment ends.
    pub open spec fn spec_end(self) -> Point {
        match self {
            Segment::Line(_, q1) => q1,
            Segment::Quad(_, _, q2) => q2,
            Segment::Cubic(_, _, _, q3) => q3,
        }
    }

    #[verifier::when_used_as_spec(spec_start)]
    pub fn start(self) -> (p: Point)
        ensures
            p == self.spec_start(),
    {
        match self {
            Segment::Line(q0, _) => q0,
            Segment::Quad(q0, _, _) => q0,
            Segment::Cubic(q0, _, _, _) => q0,
        }
    }

    #[verifier::when_used_as_spec(spec_end)]
    pub fn end(self) -> (p: Point)
        ensures
            p == self.spec_end(),
    {
        match self {
            Segment::Line(_, q1) => q1,
            Segment::Quad(_, _, q2) => q2,
            Segment::Cubic(_, _, _, q3) => q3,
        }
    }

    /// The segment mirrored in the diagonal.
    pub open spec fn spec_transpose(self) -> Segment {
        match self {
            Segment::Line(q0, q1) => Segment::Line(q0.transpose(), q1.transpose()),
            Segment::Quad(q0, q1, q2) => Segment::Quad(
                q0.transpose(),
                q1.transpose(),
                q2.transpose(),
            ),
            Segment::Cubic(q0, q1, q2, q3) => Segment::Cubic(
                q0.transpose(),
                q1.transpose(),
                q2.transpose(),
                q3.transpose(),
            ),
        }
    }

    #[verifier::when_used_as_spec(spec_transpose)]
    pub fn transpose(self) -> (s: Segment)
        ensures
            s == self.spec_transpose(),
            self.wf() ==> s.wf(),
    {
        match self {
            Segment::Line(q0, q1) => Segment::Line(q0.transpose(), q1.transpose()),
            Segment::Quad(q0, q1, q2) => Segment::Quad(
                q0.transpose(),
                q1.transpose(),
                q2.transpose(),
            ),
            Segment::Cubic(q0, q1, q2, q3) => Segment::Cubic(
                q0.transpose(),
                q1.transpose(),
                q2.transpose(),
                q3.transpose(),
            ),
        }
    }

    /// Whether the control points lie within the span of the lattice.
    pub open spec fn wf(self) -> bool {
        self matches Segment::Cubic(_, c1, c2, _) ==> c1.wf() && c2.wf()
    }

    /// The interval of abscissas of the segment's points, widened to
    /// lattice lines. A Bezier curve stays inside the hull of its points, so
    /// the segment lies between the two vertical lines at `lo` and `hi`.
    pub open spec fn spec_x_span(self) -> Span {
        match self {
            Segment::Line(q0, q1) => Span {
                lo: min2(q0.x as int, q1.x as int) as i32,
                hi: max2(q0.x as int, q1.x as int) as i32,
            },
            Segment::Quad(q0, q1, q2) => Span {
                lo: min2(min2(q0.x as int, q1.x as int), q2.x as int) as i32,
                hi: max2(max2(q0.x as int, q1.x as int), q2.x as int) as i32,
            },
            Segment::Cubic(q0, c1, c2, q3) => Span {
                lo: min2(
                    min2(q0.x as int, thirds_floor(c1.x as int)),
                    min2(thirds_floor(c2.x as int), q3.x as int),
                ) as i32,
                hi: max2(
                    max2(q0.x as int, thirds_ceil(c1.x as int)),
                    max2(thirds_ceil(c2.x as int), q3.x as int),
                ) as i32,
            },
        }
    }

    #[verifier::when_used_as_spec(spec_x_span)]
    pub fn x_span(self) -> (s: Span)
        requires
            self.wf(),
        ensures
            s == self.spec_x_span(),
            s.wf(),
    {
        match self {
            Segment::Line(q0, q1) => Span::between(q0.x, q1.x),
            Segment::Quad(q0, q1, q2) => Span::between(q0.x, q1.x).join(Span::between(q2.x, q2.x)),
            Segment::Cubic(q0, c1, c2, q3) => {
                let lo1: i32 = floor_div(c1.x as i128, 3) as i32;
                let hi1: i32 = (-floor_div(-(c1.x as i128), 3)) as i32;
                let lo2: i32 = floor_div(c2.x as i128, 3) as i32;
                let hi2: i32 = (-floor_div(-(c2.x as i128), 3)) as i32;
                Span::between(q0.x, q0.x).join(Span { lo: lo1, hi: hi1 }).join(
                    Span { lo: lo2, hi: hi2 },
                ).join(Span::between(q3.x, q3.x))
            },
        }
    }

    /// The interval of ordinates of the segment's points.
    pub open spec fn spec_y_span(self) -> Span {
        self.spec_transpose().spec_x_span()
    }

    #[verifier::when_used_as_spec(spec_y_span)]
    pub fn y_span(self) -> (s: Span)
        requires
            self.wf(),
        ensures
            s == self.spec_y_span(),
            s.wf(),
    {
        self.transpose().x_span()
    }

    /// The same curve as a cubic.
    ///
    /// This is degree elevation. The control points of a straight edge go
    /// to one third and two thirds of the way along it. A quadratic's control
    /// points go two thirds of the way from each end towards its own control
    /// point. Held in thirds of a lattice step, these are whole numbers: the
    /// cubic is exactly the curve that the segment was. A cubic is returned as
    /// it is.
    pub open spec fn spec_to_cubic(self) -> Segment {
        match self {
            Segment::Line(q0, q1) => Segment::Cubic(
                q0,
                Fine { x: (2 * q0.x + q1.x) as i64, y: (2 * q0.y + q1.y) as i64 },
                Fine { x: (q0.x + 2 * q1.x) as i64, y: (q0.y + 2 * q1.y) as i64 },
                q1,
            ),
            Segment::Quad(q0, q1, q2) => Segment::Cubic(
                q0,
                Fine { x: (q0.x + 2 * q1.x) as i64, y: (q0.y + 2 * q1.y) as i64 },
                Fine { x: (q2.x + 2 * q1.x) as i64, y: (q2.y + 2 * q1.y) as i64 },
                q2,
            ),
            Segment::Cubic(_, _, _, _) => self,
        }
    }

    #[verifier::when_used_as_spec(spec_to_cubic)]
    pub fn to_cubic(self) -> (c: Segment)
        ensures
            c == self.spec_to_cubic(),
            c is Cubic,
            c.spec_start() == self.spec_start(),
            c.spec_end() == self.spec_end(),
            self.wf() ==> c.wf(),
    {
        match self {
            Segment::Line(q0, q1) => Segment::Cubic(
                q0,
                Fine { x: 2 * (q0.x as i64) + q1.x as i64, y: 2 * (q0.y as i64) + q1.y as i64 },
                Fine { x: q0.x as i64 + 2 * (q1.x as i64), y: q0.y as i64 + 2 * (q1.y as i64) },
                q1,
            ),
            Segment::Quad(q0, q1, q2) => Segment::Cubic(
                q0,
                Fine { x: q0.x as i64 + 2 * (q1.x as i64), y: q0.y as i64 + 2 * (q1.y as i64) },
                Fine { x: q2.x as i64 + 2 * (q1.x as i64), y: q2.y as i64 + 2 * (q1.y as i64) },
                q2,
            ),
            Segment::Cubic(_, _, _, _) => self,
        }
    }

    /// Abscissa of the curve at parameter `k / n`, times `n * n * n`.
    pub open spec fn scaled_x(self, k: int, n: int) -> int {
        match self {
            Segment::Line(q0, q1) => n * n * bernstein1(q0.x as int, q1.x as int, k, n),
            Segment::Quad(q0, q1, q2) => n * bernstein2(
                q0.x as int,
                q1.x as int,
                q2.x as int,
                k,
                n,
            ),
            Segment::Cubic(q0, q1, q2, q3) => bernstein3(
                q0.x as int,
                q1.x as int,
                q2.x as int,
                q3.x as int,
                k,
                n,
            ),
        }
    }

    /// Ordinate of the curve at parameter `k / n`, times `n * n * n`.
    pub open spec fn scaled_y(self, k: int, n: int) -> int {
        self.spec_transpose().scaled_x(k, n)
    }

    /// The lattice point nearest to the curve's point at parameter `k / STEPS`.
    pub open spec fn sample(self, k: int) -> Point {
        Point {
            x: round_div(self.scaled_x(k, STEPS as int), 1000) as i32,
            y: round_div(self.scaled_y(k, STEPS as int), 1000) as i32,
        }
    }

    /// The samples at parameters `0/STEPS, 1/STEPS, .., STEPS/STEPS`: the
    /// corners of the polyline that stands for the curve when it is drawn.
    pub open spec fn spec_polyline(self) -> Seq<Point> {
        Seq::new(STEPS as nat + 1, |k: int| self.sample(k))
    }
}

/// A weighted sum of values between `lo` and `hi`, with weights that are not
/// negative, lies between `lo` and `hi` times the sum of the weights.
proof fn lemma_weighted_sum(
    w0: int,
    w1: int,
    w2: int,
    w3: int,
    a: int,
    b: int,
    c: int,
    d: int,
    lo: int,
    hi: int,
)
    requires
        w0 >= 0,
        w1 >= 0,
        w2 >= 0,
        w3 >= 0,
        lo <= a <= hi,
        lo <= b <= hi,
        lo <= c <= hi,
        lo <= d <= hi,
    ensures
        (w0 + w1 + w2 + w3) * lo <= w0 * a + w1 * b + w2 * c + w3 * d <= (w0 + w1 + w2 + w3) * hi,
{
    assert(w0 * lo <= w0 * a <= w0 * hi) by (nonlinear_arith)
        requires
            w0 >= 0,
            lo <= a <= hi,
    ;
    assert(w1 * lo <= w1 * b <= w1 * hi) by (nonlinear_arith)
        requires
            w1 >= 0,
            lo <= b <= hi,
    ;
    assert(w2 * lo <= w2 * c <= w2 * hi) by (nonlinear_arith)
        requires
            w2 >= 0,
            lo <= c <= hi,
    ;
    assert(w3 * lo <= w3 * d <= w3 * hi) by (nonlinear_arith)
        requires
            w3 >= 0,
            lo <= d <= hi,
    ;
    assert((w0 + w1 + w2 + w3) * lo == w0 * lo + w1 * lo + w2 * lo + w3 * lo) by (nonlinear_arith);
    assert((w0 + w1 + w2 + w3) * hi == w0 * hi + w1 * hi + w2 * hi + w3 * hi) by (nonlinear_arith);
}

/// The lattice coordinate nearest to a weighted mean: `sum / total`, where
/// `sum` lies between `total` times two coordinates.
fn nearest(sum: i128, total: i128) -> (r: i32)
    requires
        0 < total <= 1000,
        total * (i32::MIN as int) <= sum <= total * (i32::MAX as int),
    ensures
        r == round_div(sum as int, total as int),
{
    assert(-0x1_0000_0000_0000 <= sum <= 0x1_0000_0000_0000) by (nonlinear_arith)
        requires
            0 < total <= 1000,
            total * (-0x8000_0000) <= sum <= total * 0x7fff_ffff,
    ;
    let q: i128 = floor_div(2 * sum + total, 2 * total);
    proof {
        let lo = i32::MIN as int;
        let hi = i32::MAX as int;
        let num = 2 * sum + total;
        let den = 2 * total;
        vstd::arithmetic::div_mod::lemma_fundamental_div_mod(num as int, den as int);
        let r = num as int % den as int;
        assert(lo <= q <= hi) by (nonlinear_arith)
            requires
                num == den * q + r,
                0 <= r < den,
                den == 2 * total,
                num == 2 * sum + total,
                total > 0,
                total * lo <= sum <= total * hi,
        ;
    }
    q as i32
}

/// One coordinate of the sample at parameter `k / STEPS` of a straight edge.
fn sample_line(a: i32, b: i32, k: u32) -> (r: i32)
    requires
        k <= STEPS,
    ensures
        r == round_div(10 * 10 * bernstein1(a as int, b as int, k as int, 10), 1000),
{
    let t: i128 = k as i128;
    let m: i128 = 10 - t;
    let w0: i128 = 100 * m;
    let w1: i128 = 100 * t;
    proof {
        lemma_weighted_sum(
            w0 as int,
            w1 as int,
            0,
            0,
            a as int,
            b as int,
            a as int,
            a as int,
            i32::MIN as int,
            i32::MAX as int,
        );
        assert(10 * 10 * bernstein1(a as int, b as int, k as int, 10) == w0 * a + w1 * b)
            by (nonlinear_arith)
            requires
                w0 == 100 * (10 - k),
                w1 == 100 * k,
                bernstein1(a as int, b as int, k as int, 10) == (10 - k) * a + k * b,
        ;
    }
    assert(-0x400_0000_0000 <= w0 * (a as int) <= 0x400_0000_0000) by (nonlinear_arith)
        requires
            0 <= w0 <= 1000,
            -0x8000_0000 <= a <= 0x7fff_ffff,
    ;
    assert(-0x400_0000_0000 <= w1 * (b as int) <= 0x400_0000_0000) by (nonlinear_arith)
        requires
            0 <= w1 <= 1000,
            -0x8000_0000 <= b <= 0x7fff_ffff,
    ;
    nearest(w0 * (a as i128) + w1 * (b as i128), 1000)
}

/// One coordinate of the sample at parameter `k / STEPS` of a quadratic.
fn sample_quad(a: i32, b: i32, c: i32, k: u32) -> (r: i32)
    requires
        k <= STEPS,
    ensures
        r == round_div(10 * bernstein2(a as int, b as int, c as int, k as int, 10), 1000),
{
    let t: i128 = k as i128;
    let m: i128 = 10 - t;
    assert(0 <= m * m <= 100 && 0 <= m * t <= 100 && 0 <= t * t <= 100) by (nonlinear_arith)
        requires
            0 <= t <= 10,
            m == 10 - t,
    ;
    let w0: i128 = 10 * (m * m);
    let w1: i128 = 20 * (m * t);
    let w2: i128 = 10 * (t * t);
    proof {
        assert(w0 + w1 + w2 == 1000) by (nonlinear_arith)
            requires
                w0 == 10 * (m * m),
                w1 == 20 * (m * t),
                w2 == 10 * (t * t),
                m + t == 10,
        ;
        lemma_weighted_sum(
            w0 as int,
            w1 as int,
            w2 as int,
            0,
            a as int,
            b as int,
            c as int,
            a as int,
            i32::MIN as int,
            i32::MAX as int,
        );
        assert(10 * bernstein2(a as int, b as int, c as int, k as int, 10) == w0 * a + w1 * b
            + w2 * c) by (nonlinear_arith)
            requires
                w0 == 10 * ((10 - k) * (10 - k)),
                w1 == 20 * ((10 - k) * k),
                w2 == 10 * (k * k),
                bernstein2(a as int, b as int, c as int, k as int, 10) == (10 - k) * (10 - k) * a
                    + 2 * ((10 - k) * k) * b + k * k * c,
        ;
    }
    assert(-0x400_0000_0000 <= w0 * (a as int) <= 0x400_0000_0000) by (nonlinear_arith)
        requires
            0 <= w0 <= 1000,
            -0x8000_0000 <= a <= 0x7fff_ffff,
    ;
    assert(-0x400_0000_0000 <= w1 * (b as int) <= 0x400_0000_0000) by (nonlinear_arith)
        requires
            0 <= w1 <= 1000,
            -0x8000_0000 <= b <= 0x7fff_ffff,
    ;
    assert(-0x400_0000_0000 <= w2 * (c as int) <= 0x400_0000_0000) by (nonlinear_arith)
        requires
            0 <= w2 <= 1000,
            -0x8000_0000 <= c <= 0x7fff_ffff,
    ;
    nearest(w0 * (a as i128) + w1 * (b as i128) + w2 * (c as i128), 1000)
}

/// One coordinate of the sample at parameter `k / STEPS` of a cubic whose
/// control values `c1`, `c2` are held in thirds.
fn sample_cubic(a: i32, c1: i64, c2: i64, d: i32, k: u32) -> (r: i32)
    requires
        k <= STEPS,
        3 * i32::MIN <= c1 <= 3 * i32::MAX,
        3 * i32::MIN <= c2 <= 3 * i32::MAX,
    ensures
        r == round_div(bernstein3(a as int, c1 as int, c2 as int, d as int, k as int, 10), 1000),
{
    let t: i128 = k as i128;
    let m: i128 = 10 - t;
    assert(0 <= m * m <= 100 && 0 <= m * t <= 100 && 0 <= t * t <= 100) by (nonlinear_arith)
        requires
            0 <= t <= 10,
            m == 10 - t,
    ;
    let mm: i128 = m * m;
    let mt: i128 = m * t;
    let tt: i128 = t * t;
    assert(0 <= mm * m <= 1000 && 0 <= mm * t <= 1000 && 0 <= mt * t <= 1000 && 0 <= tt * t
        <= 1000) by (nonlinear_arith)
        requires
            0 <= t <= 10,
            0 <= m <= 10,
            0 <= mm <= 100,
            0 <= mt <= 100,
            0 <= tt <= 100,
    ;
    let w0: i128 = mm * m;
    let w1: i128 = mm * t;
    let w2: i128 = mt * t;
    let w3: i128 = tt * t;
    proof {
        assert(w0 + 3 * w1 + 3 * w2 + w3 == 1000) by (nonlinear_arith)
            requires
                w0 == m * m * m,
                w1 == m * m * t,
                w2 == m * t * t,
                w3 == t * t * t,
                m + t == 10,
        ;
        // three times the sum is a weighted sum of values in thirds
        lemma_weighted_sum(
            w0 as int,
            3 * w1,
            3 * w2,
            w3 as int,
            3 * a,
            c1 as int,
            c2 as int,
            3 * d,
            3 * i32::MIN,
            3 * i32::MAX,
        );
        assert(w0 * (3 * a) + (3 * w1) * c1 + (3 * w2) * c2 + w3 * (3 * d) == 3 * (w0 * a + w1 * c1
            + w2 * c2 + w3 * d)) by (nonlinear_arith);
        assert(bernstein3(a as int, c1 as int, c2 as int, d as int, k as int, 10) == w0 * a + w1
            * c1 + w2 * c2 + w3 * d);
    }
    assert(-0x400_0000_0000 <= w0 * (a as int) <= 0x400_0000_0000) by (nonlinear_arith)
        requires
            0 <= w0 <= 1000,
            -0x8000_0000 <= a <= 0x7fff_ffff,
    ;
    assert(-0x1000_0000_0000 <= w1 * (c1 as int) <= 0x1000_0000_0000) by (nonlinear_arith)
        requires
            0 <= w1 <= 1000,
            -0x2_0000_0000 <= c1 <= 0x2_0000_0000,
    ;
    assert(-0x1000_0000_0000 <= w2 * (c2 as int) <= 0x1000_0000_0000) by (nonlinear_arith)
        requires
            0 <= w2 <= 1000,
            -0x2_0000_0000 <= c2 <= 0x2_0000_0000,
    ;
    assert(-0x400_0000_0000 <= w3 * (d as int) <= 0x400_0000_0000) by (nonlinear_arith)
        requires
            0 <= w3 <= 1000,
            -0x8000_0000 <= d <= 0x7fff_ffff,
    ;
    nearest(w0 * (a as i128) + w1 * (c1 as i128) + w2 * (c2 as i128) + w3 * (d as i128), 1000)
}

impl Segment {
    /// The lattice point nearest to the curve's point at parameter
    /// `k / STEPS`.
    pub fn sample_at(&self, k: u32) -> (p: Point)
        requires
            k <= STEPS,
            self.wf(),
        ensures
            p == self.sample(k as int),
    {
        match *self {
            Segment::Line(q0, q1) => Point {
                x: sample_line(q0.x, q1.x, k),
                y: sample_line(q0.y, q1.y, k),
            },
            Segment::Quad(q0, q1, q2) => Point {
                x: sample_quad(q0.x, q1.x, q2.x, k),
                y: sample_quad(q0.y, q1.y, q2.y, k),
            },
            Segment::Cubic(q0, q1, q2, q3) => Point {
                x: sample_cubic(q0.x, q1.x, q2.x, q3.x, k),
                y: sample_cubic(q0.y, q1.y, q2.y, q3.y, k),
            },
        }
    }

    /// The corners of the polyline that stands for the curve when it is
    /// drawn: its samples at `STEPS + 1` evenly spaced parameters, from its
    /// start to its end.
    pub fn polyline(&self) -> (pts: Vec<Point>)
        requires
            self.wf(),
        ensures
            pts@ == self.spec_polyline(),
    {
        let mut pts: Vec<Point> = Vec::new();
        let mut k: u32 = 0;
        while k <= STEPS
            invariant
                self.wf(),
                0 <= k <= STEPS + 1,
                pts@.len() == k,
                forall|j: int| 0 <= j < k ==> pts@[j] == self.sample(j),
            decreases STEPS + 1 - k,
        {
            pts.push(self.sample_at(k));
            k += 1;
        }
        assert(pts@ =~= self.spec_polyline());
        pts
    }
}

} // verus!
