//! The elements that a path is made of.

use vstd::prelude::*;
use crate::point::{Fine, Point};

verus! {

/// One drawing instruction of a path.
///
/// `Move` starts a subpath; `Line`, `Quad` and `Cubic` each draw a segment
/// from the end point of the element before them; `Close` draws back to the
/// start of the subpath and carries no point of its own. The last point of an
/// element is its end point, the ones before it are control points. End
/// points, and the control point of a quadratic, are lattice points. The
/// control points of a cubic are held in thirds of a lattice step.
#[derive(Clone, Copy, Debug, PartialEq, Eq, Structural)]
pub enum PathElement {
    Move(Point),
    Line(Point),
    Quad(Point, Point),
    Cubic(Fine, Fine, Point),
    Close,
}

impl PathElement {
    /// The positions of the element's points, in order, in thirds of a
    /// lattice step.
    pub open spec fn points(self) -> Seq<Fine> {
        match self {
            PathElement::Move(p) => seq![p.spec_fine()],
            PathElement::Line(p) => seq![p.spec_fine()],
            PathElement::Quad(q1, q2) => seq![q1.spec_fine(), q2.spec_fine()],
            PathElement::Cubic(c1, c2, q3) => seq![c1, c2, q3.spec_fine()],
            PathElement::Close => Seq::empty(),
        }
    }

    /// Whether the control points lie within the span of the lattice.
    pub open spec fn wf(self) -> bool {
        self matches PathElement::Cubic(c1, c2, _) ==> c1.wf() && c2.wf()
    }

    /// Decides `wf`.
    pub fn is_wf(&self) -> (b: bool)
        ensures
            b == self.wf(),
    {
        match self {
            PathElement::Cubic(c1, c2, _) => c1.is_wf() && c2.is_wf(),
            _ => true,
        }
    }

    /// How many points the element carries.
    pub open spec fn spec_arity(self) -> nat {
        match self {
            PathElement::Move(_) => 1,
            PathElement::Line(_) => 1,
            PathElement::Quad(_, _) => 2,
            PathElement::Cubic(_, _, _) => 3,
            PathElement::Close => 0,
        }
    }

    /// The point at which the element leaves the pen, if it has one.
    pub open spec fn spec_end_point(self) -> Option<Point> {
        match self {
            PathElement::Move(p) => Some(p),
            PathElement::Line(p) => Some(p),
            PathElement::Quad(_, q2) => Some(q2),
            PathElement::Cubic(_, _, q3) => Some(q3),
            PathElement::Close => None,
        }
    }

    /// The element with its `i`-th point moved to the lattice point `p`; the
    /// element itself where it has no such point.
    pub open spec fn with_point(self, i: int, p: Point) -> PathElement {
        match self {
            PathElement::Move(_) => if i == 0 { PathElement::Move(p) } else { self },
            PathElement::Line(_) => if i == 0 { PathElement::Line(p) } else { self },
            PathElement::Quad(q1, q2) => if i == 0 {
                PathElement::Quad(p, q2)
            } else if i == 1 {
                PathElement::Quad(q1, p)
            } else {
                self
            },
            PathElement::Cubic(c1, c2, q3) => if i == 0 {
                PathElement::Cubic(p.spec_fine(), c2, q3)
            } else if i == 1 {
                PathElement::Cubic(c1, p.spec_fine(), q3)
            } else if i == 2 {
                PathElement::Cubic(c1, c2, p)
            } else {
                self
            },
            PathElement::Close => self,
        }
    }

    /// Moving a point in range changes exactly that point and keeps the kind.
    pub proof fn lemma_with_point(self, i: int, p: Point)
        ensures
            self.with_point(i, p).spec_arity() == self.spec_arity(),
            self.points().len() == self.spec_arity(),
            0 <= i < self.spec_arity() ==> self.with_point(i, p).points() == self.points().update(
                i,
                p.spec_fine(),
            ),
            !(0 <= i < self.spec_arity()) ==> self.with_point(i, p) == self,
            self.with_point(i, p) is Close <==> self is Close,
            self.with_point(i, p) is Move <==> self is Move,
            self.wf() ==> self.with_point(i, p).wf(),
    {
        if 0 <= i < self.spec_arity() {
            assert(self.with_point(i, p).points() =~= self.points().update(i, p.spec_fine()));
        }
    }

    /// How many points the element carries.
    pub fn arity(&self) -> (n: usize)
        ensures
            n == self.spec_arity(),
            n == self.points().len(),
            n <= 3,
    {
        match self {
            PathElement::Move(_) => 1,
            PathElement::Line(_) => 1,
            PathElement::Quad(_, _) => 2,
            PathElement::Cubic(_, _, _) => 3,
            PathElement::Close => 0,
        }
    }

    /// The position of the `i`-th point, or `None` where the element has
    /// fewer points.
    pub fn point(&self, i: usize) -> (r: Option<Fine>)
        ensures
            r == (if i < self.points().len() {
                Some(self.points()[i as int])
            } else {
                None
            }),
    {
        match self {
            PathElement::Move(p) => if i == 0 { Some(p.fine()) } else { None },
            PathElement::Line(p) => if i == 0 { Some(p.fine()) } else { None },
            PathElement::Quad(q1, q2) => if i == 0 {
                Some(q1.fine())
            } else if i == 1 {
                Some(q2.fine())
            } else {
                None
            },
            PathElement::Cubic(c1, c2, q3) => if i == 0 {
                Some(*c1)
            } else if i == 1 {
                Some(*c2)
            } else if i == 2 {
                Some(q3.fine())
            } else {
                None
            },
            PathElement::Close => None,
        }
    }

    /// The positions of all points of the element, in order; empty for
    /// `Close`.
    pub fn to_points(&self) -> (v: Vec<Fine>)
        ensures
            v@ == self.points(),
    {
        let mut v: Vec<Fine> = Vec::new();
        match self {
            PathElement::Move(p) => {
                v.push(p.fine());
            },
            PathElement::Line(p) => {
                v.push(p.fine());
            },
            PathElement::Quad(q1, q2) => {
                v.push(q1.fine());
                v.push(q2.fine());
            },
            PathElement::Cubic(c1, c2, q3) => {
                v.push(*c1);
                v.push(*c2);
                v.push(q3.fine());
            },
            PathElement::Close => {},
        }
        assert(v@ =~= self.points());
        v
    }

    /// The end point, or `None` for `Close`.
    pub fn end_point(&self) -> (r: Option<Point>)
        ensures
            r == self.spec_end_point(),
    {
        match self {
            PathElement::Move(p) => Some(*p),
            PathElement::Line(p) => Some(*p),
            PathElement::Quad(_, q2) => Some(*q2),
            PathElement::Cubic(_, _, q3) => Some(*q3),
            PathElement::Close => None,
        }
    }

    /// Moves the `i`-th point to the lattice point `p`. Returns whether the
    /// element has such a point; where it has none the element is left as it
    /// was.
    pub fn set_point(&mut self, i: usize, p: Point) -> (written: bool)
        ensures
            written == (i < old(self).points().len()),
            *final(self) == old(self).with_point(i as int, p),
    {
        let next: PathElement = match *self {
            PathElement::Move(_) => if i == 0 { PathElement::Move(p) } else { *self },
            PathElement::Line(_) => if i == 0 { PathElement::Line(p) } else { *self },
            PathElement::Quad(q1, q2) => if i == 0 {
                PathElement::Quad(p, q2)
            } else if i == 1 {
                PathElement::Quad(q1, p)
            } else {
                *self
            },
            PathElement::Cubic(c1, c2, q3) => if i == 0 {
                PathElement::Cubic(p.fine(), c2, q3)
            } else if i == 1 {
                PathElement::Cubic(c1, p.fine(), q3)
            } else if i == 2 {
                PathElement::Cubic(c1, c2, p)
            } else {
                *self
            },
            PathElement::Close => *self,
        };
        let written: bool = i < self.arity();
        *self = next;
        written
    }

    pub fn is_close(&self) -> (b: bool)
        ensures
            b == (*self is Close),
    {
        match self {
            PathElement::Close => true,
            _ => false,
        }
    }

    pub fn is_move(&self) -> (b: bool)
        ensures
            b == (*self is Move),
    {
        match self {
            PathElement::Move(_) => true,
            _ => false,
        }
    }
}

} // verus!
