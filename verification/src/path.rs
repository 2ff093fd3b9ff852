//! Paths, the segments they draw, and elevation in place.

use vstd::prelude::*;
use crate::element::PathElement;
use crate::point::Point;
use crate::segment::Segment;

verus! {

/// Whether a sequence of elements is a path: it begins with a `Move` unless
/// it is empty, holds a `Close` at most as its last element, and every
/// control point lies within the span of the lattice.
pub open spec fn valid_elements(els: Seq<PathElement>) -> bool {
    &&& els.len() > 0 ==> els[0] is Move
    &&& forall|i: int| 0 <= i < els.len() && #[trigger] els[i] is Close ==> i == els.len() - 1
    &&& forall|i: int| 0 <= i < els.len() ==> (#[trigger] els[i]).wf()
}

/// Whether every one of the segments has its control points within the
/// span of the lattice.
pub open spec fn fitting(segs: Seq<Segment>) -> bool {
    forall|i: int| 0 <= i < segs.len() ==> (#[trigger] segs[i]).wf()
}

/// What the first `n` elements of a valid path draw has its control points
/// within the span of the lattice.
pub proof fn lemma_drawn_fit(els: Seq<PathElement>, n: int)
    requires
        valid_elements(els),
    ensures
        fitting(drawn_segments(els, n)),
        forall|i: int|
            drawn_segment(els, i) is Some ==> (#[trigger] drawn_segment(els, i))->0.wf(),
    decreases n,
{
    assert forall|i: int| drawn_segment(els, i) is Some implies (#[trigger] drawn_segment(
        els,
        i,
    ))->0.wf() by {
        if 1 <= i < els.len() {
            assert(els[i].wf());
        }
    }
    if n > 0 {
        lemma_drawn_fit(els, n - 1);
    }
}

/// The segments of a valid path have their control points within the span
/// of the lattice.
pub proof fn lemma_segments_fit(els: Seq<PathElement>)
    requires
        valid_elements(els),
    ensures
        fitting(path_segments(els)),
        fitting(outline_segments(els)),
        forall|i: int|
            drawn_segment(els, i) is Some ==> (#[trigger] drawn_segment(els, i))->0.wf(),
{
    lemma_drawn_fit(els, els.len() as int);
}

/// Whether the last element is a `Close`.
pub open spec fn is_closed(els: Seq<PathElement>) -> bool {
    els.len() > 0 && els[els.len() - 1] is Close
}

/// The point of the last `Move` among `els[0..=i]`: the start of the subpath
/// that element `i` belongs to.
pub open spec fn subpath_start(els: Seq<PathElement>, i: int) -> Point
    decreases i + 1,
{
    if i < 0 || i >= els.len() {
        Point { x: 0, y: 0 }
    } else {
        match els[i] {
            PathElement::Move(p) => p,
            _ => subpath_start(els, i - 1),
        }
    }
}

/// The segment that element `i` draws: from the end point of the element
/// before it, through its control points, to its own end point. `Move` and
/// `Close` draw none, nor does anything outside the path.
pub open spec fn drawn_segment(els: Seq<PathElement>, i: int) -> Option<Segment> {
    if 1 <= i < els.len() {
        match (els[i - 1].spec_end_point(), els[i]) {
            (Some(q), PathElement::Line(p)) => Some(Segment::Line(q, p)),
            (Some(q), PathElement::Quad(q1, q2)) => Some(Segment::Quad(q, q1, q2)),
            (Some(q), PathElement::Cubic(q1, q2, q3)) => Some(Segment::Cubic(q, q1, q2, q3)),
            _ => None,
        }
    } else {
        None
    }
}

/// The segments drawn by the elements `els[0..n]`, in path order.
pub open spec fn drawn_segments(els: Seq<PathElement>, n: int) -> Seq<Segment>
    decreases n,
{
    if n <= 0 {
        Seq::empty()
    } else {
        match drawn_segment(els, n - 1) {
            Some(s) => drawn_segments(els, n - 1).push(s),
            None => drawn_segments(els, n - 1),
        }
    }
}

/// How many of the path's elements are not a `Close`.
pub open spec fn open_len(els: Seq<PathElement>) -> int {
    if is_closed(els) {
        els.len() - 1
    } else {
        els.len() as int
    }
}

/// The straight edge from where the pen rests after the last drawn element
/// back to the start of its subpath; `None` where the pen already rests there.
pub open spec fn closing_edge(els: Seq<PathElement>) -> Option<Segment> {
    let n = open_len(els);
    if n >= 1 {
        match els[n - 1].spec_end_point() {
            Some(pen) => if pen != subpath_start(els, n - 1) {
                Some(Segment::Line(pen, subpath_start(els, n - 1)))
            } else {
                None
            },
            None => None,
        }
    } else {
        None
    }
}

/// The segments of the path as it stands: what its elements draw, and the
/// closing edge where the path is closed.
pub open spec fn path_segments(els: Seq<PathElement>) -> Seq<Segment> {
    let drawn = drawn_segments(els, els.len() as int);
    match closing_edge(els) {
        Some(e) => if is_closed(els) {
            drawn.push(e)
        } else {
            drawn
        },
        None => drawn,
    }
}

/// The segments of the path's boundary: what its elements draw, and the
/// closing edge whether or not the path is closed.
pub open spec fn outline_segments(els: Seq<PathElement>) -> Seq<Segment> {
    let drawn = drawn_segments(els, els.len() as int);
    match closing_edge(els) {
        Some(e) => drawn.push(e),
        None => drawn,
    }
}

/// The elements with the segment of element `i` turned into its cubic, in the
/// same slot; the elements as they are where element `i` draws no segment.
pub open spec fn elevated(els: Seq<PathElement>, i: int) -> Seq<PathElement> {
    match drawn_segment(els, i) {
        Some(s) => match s.spec_to_cubic() {
            Segment::Cubic(_, c1, c2, p) => els.update(i, PathElement::Cubic(c1, c2, p)),
            _ => els,
        },
        None => els,
    }
}

/// The elements with point `k` of element `i` set to `p`; the elements as
/// they are where there is no such point.
pub open spec fn with_point(els: Seq<PathElement>, i: int, k: int, p: Point) -> Seq<PathElement> {
    if 0 <= i < els.len() {
        els.update(i, els[i].with_point(k, p))
    } else {
        els
    }
}

/// Whether the path has a point `k` in element `i`.
pub open spec fn has_point(els: Seq<PathElement>, i: int, k: int) -> bool {
    0 <= i < els.len() && 0 <= k < els[i].points().len()
}

/// A valid path with an element appended is valid exactly where the
/// element has its control points within the span of the lattice and the
/// path was open and not empty, or empty and the element a `Move`.
pub proof fn lemma_push_valid(els: Seq<PathElement>, el: PathElement)
    requires
        valid_elements(els),
    ensures
        valid_elements(els.push(el)) <==> (el.wf() && if els.len() == 0 {
            el is Move
        } else {
            !is_closed(els)
        }),
{
    let longer = els.push(el);
    assert(longer[els.len() as int] == el);
    if els.len() == 0 {
        assert(longer[0] == el);
    } else {
        assert(longer[0] == els[0]);
        assert(longer[els.len() - 1] == els[els.len() - 1]);
    }
    if el.wf() && (els.len() == 0 || !is_closed(els)) {
        assert forall|i: int| 0 <= i < longer.len() implies (#[trigger] longer[i]).wf() && (
        longer[i] is Close ==> i == longer.len() - 1) by {
            if i < els.len() {
                assert(longer[i] == els[i]);
                assert(els[i].wf());
                if els[i] is Close {
                }
            }
        }
    }
}

/// A valid path stays valid where an element is replaced by one that is a
/// `Close` if and only if the old one was, a `Move` in the first place, and
/// has its control points within the span of the lattice.
pub proof fn lemma_update_valid(els: Seq<PathElement>, i: int, el: PathElement)
    requires
        valid_elements(els),
        0 <= i < els.len(),
        el is Close <==> els[i] is Close,
        i == 0 ==> el is Move,
        el.wf(),
    ensures
        valid_elements(els.update(i, el)),
{
    let changed = els.update(i, el);
    assert forall|j: int| 0 <= j < changed.len() implies (#[trigger] changed[j]).wf() && (
    changed[j] is Close ==> j == changed.len() - 1) by {
        assert(els[j].wf());
        if changed[j] is Close {
            assert(els[j] is Close);
        }
    }
}

/// Setting a point keeps a path valid.
pub proof fn lemma_with_point_valid(els: Seq<PathElement>, i: int, k: int, p: Point)
    requires
        valid_elements(els),
    ensures
        valid_elements(with_point(els, i, k, p)),
        with_point(els, i, k, p).len() == els.len(),
{
    if 0 <= i < els.len() {
        els[i].lemma_with_point(k, p);
        lemma_update_valid(els, i, els[i].with_point(k, p));
    }
}

/// Elevation keeps a path valid.
pub proof fn lemma_elevated_valid(els: Seq<PathElement>, i: int)
    requires
        valid_elements(els),
    ensures
        valid_elements(elevated(els, i)),
        elevated(els, i).len() == els.len(),
{
    if drawn_segment(els, i) is Some {
        lemma_segments_fit(els);
        lemma_update_valid(els, i, elevated(els, i)[i]);
        assert(elevated(els, i) =~= els.update(i, elevated(els, i)[i]));
    }
}

/// A path: elements in drawing order.
pub struct Path {
    elements: Vec<PathElement>,
}

impl View for Path {
    type V = Seq<PathElement>;

    closed spec fn view(&self) -> Seq<PathElement> {
        self.elements@
    }
}

impl Path {
    /// The invariant of every path: `valid_elements` of what it holds.
    pub open spec fn wf(&self) -> bool {
        valid_elements(self@)
    }

    /// The empty path.
    pub fn new() -> (p: Path)
        ensures
            p@ == Seq::<PathElement>::empty(),
            p.wf(),
    {
        Path { elements: Vec::new() }
    }

    /// The path made of the given elements, where they are valid.
    pub fn from_elements(els: Vec<PathElement>) -> (r: Option<Path>)
        ensures
            r is Some <==> valid_elements(els@),
            r matches Some(p) ==> p@ == els@ && p.wf(),
    {
        let n: usize = els.len();
        if n > 0 && !els[0].is_move() {
            return None;
        }
        let mut i: usize = 0;
        while i < n
            invariant
                n == els.len(),
                0 <= i <= n,
                forall|j: int| 0 <= j < i && #[trigger] els@[j] is Close ==> j == n - 1,
                forall|j: int| 0 <= j < i ==> (#[trigger] els@[j]).wf(),
            decreases n - i,
        {
            if els[i].is_close() && i + 1 != n {
                return None;
            }
            if !els[i].is_wf() {
                return None;
            }
            i += 1;
        }
        Some(Path { elements: els })
    }

    pub fn len(&self) -> (n: usize)
        ensures
            n == self@.len(),
    {
        self.elements.len()
    }

    pub fn is_empty(&self) -> (b: bool)
        ensures
            b == (self@.len() == 0),
    {
        self.elements.len() == 0
    }

    /// The elements, in drawing order.
    pub fn elements(&self) -> (els: &Vec<PathElement>)
        ensures
            els@ == self@,
    {
        &self.elements
    }

    /// Element `i`, or `None` past the end.
    pub fn element(&self, i: usize) -> (r: Option<PathElement>)
        ensures
            r == (if i < self@.len() {
                Some(self@[i as int])
            } else {
                None
            }),
    {
        if i < self.elements.len() {
            Some(self.elements[i])
        } else {
            None
        }
    }

    /// Whether the path ends in a `Close`.
    pub fn closed(&self) -> (b: bool)
        ensures
            b == is_closed(self@),
    {
        let n: usize = self.elements.len();
        n > 0 && self.elements[n - 1].is_close()
    }

    /// Appends `el` where the result is still a path: a `Move` to an empty
    /// path, anything with its control points within the span of the lattice
    /// to an open one that is not empty. Returns whether it was appended;
    /// otherwise the path is unchanged.
    pub fn push(&mut self, el: PathElement) -> (pushed: bool)
        requires
            old(self).wf(),
        ensures
            final(self).wf(),
            pushed == valid_elements(old(self)@.push(el)),
            pushed == (el.wf() && if old(self)@.len() == 0 {
                el is Move
            } else {
                !is_closed(old(self)@)
            }),
            final(self)@ == (if pushed {
                old(self)@.push(el)
            } else {
                old(self)@
            }),
    {
        let ghost before = self@;
        let ok: bool = el.is_wf() && if self.elements.len() == 0 {
            el.is_move()
        } else {
            !self.closed()
        };
        proof {
            lemma_push_valid(before, el);
        }
        if ok {
            self.elements.push(el);
        }
        ok
    }

    /// Writes `p` into point slot `k` of element `i`. Returns whether the path
    /// has such a slot; otherwise it is unchanged.
    pub fn set_point(&mut self, i: usize, k: usize, p: Point) -> (written: bool)
        requires
            old(self).wf(),
        ensures
            final(self).wf(),
            written == has_point(old(self)@, i as int, k as int),
            final(self)@ == with_point(old(self)@, i as int, k as int, p),
            final(self)@.len() == old(self)@.len(),
    {
        if i >= self.elements.len() {
            return false;
        }
        let ghost before = self@;
        let mut el: PathElement = self.elements[i];
        let written: bool = el.set_point(k, p);
        self.elements.set(i, el);
        proof {
            before[i as int].lemma_with_point(k as int, p);
            lemma_with_point_valid(before, i as int, k as int, p);
        }
        written
    }
}

impl Path {
    /// The segment that element `i` draws, if it draws one.
    pub fn segment_at(&self, i: usize) -> (r: Option<Segment>)
        ensures
            r == drawn_segment(self@, i as int),
    {
        if i == 0 || i >= self.elements.len() {
            return None;
        }
        match (self.elements[i - 1].end_point(), self.elements[i]) {
            (Some(q), PathElement::Line(p)) => Some(Segment::Line(q, p)),
            (Some(q), PathElement::Quad(q1, q2)) => Some(Segment::Quad(q, q1, q2)),
            (Some(q), PathElement::Cubic(q1, q2, q3)) => Some(Segment::Cubic(q, q1, q2, q3)),
            _ => None,
        }
    }

    /// The segments that the elements draw, without any closing edge.
    fn drawn(&self) -> (segs: Vec<Segment>)
        ensures
            segs@ == drawn_segments(self@, self@.len() as int),
    {
        let mut segs: Vec<Segment> = Vec::new();
        let mut i: usize = 0;
        while i < self.elements.len()
            invariant
                0 <= i <= self.elements.len(),
                segs@ == drawn_segments(self@, i as int),
            decreases self.elements.len() - i,
        {
            match self.segment_at(i) {
                Some(s) => {
                    segs.push(s);
                },
                None => {},
            }
            i += 1;
        }
        segs
    }

    /// The start of the subpath that element `i` belongs to.
    fn start_of(&self, i: usize) -> (p: Point)
        requires
            i < self@.len(),
        ensures
            p == subpath_start(self@, i as int),
    {
        let mut j: usize = i;
        loop
            invariant
                j <= i < self.elements.len(),
                subpath_start(self@, j as int) == subpath_start(self@, i as int),
            decreases j,
        {
            match self.elements[j] {
                PathElement::Move(p) => {
                    return p;
                },
                _ => {},
            }
            if j == 0 {
                assert(subpath_start(self@, 0) == subpath_start(self@, -1));
                return Point { x: 0, y: 0 };
            }
            j -= 1;
        }
    }

    /// The edge that closes the last subpath, if its ends differ.
    fn closing(&self) -> (r: Option<Segment>)
        ensures
            r == closing_edge(self@),
    {
        let len: usize = self.elements.len();
        let n: usize = if self.closed() {
            len - 1
        } else {
            len
        };
        if n == 0 {
            return None;
        }
        match self.elements[n - 1].end_point() {
            Some(pen) => {
                let start: Point = self.start_of(n - 1);
                if pen != start {
                    Some(Segment::Line(pen, start))
                } else {
                    None
                }
            },
            None => None,
        }
    }

    /// The segments of the path as it stands.
    pub fn segments(&self) -> (segs: Vec<Segment>)
        ensures
            segs@ == path_segments(self@),
            self.wf() ==> fitting(segs@),
    {
        proof {
            if self.wf() {
                lemma_segments_fit(self@);
            }
        }
        let mut segs: Vec<Segment> = self.drawn();
        if self.closed() {
            match self.closing() {
                Some(e) => {
                    segs.push(e);
                },
                None => {},
            }
        }
        segs
    }

    /// The segments of the path's boundary: the path is taken as closed
    /// whether or not it ends in a `Close`. The path itself is not changed.
    pub fn outline(&self) -> (segs: Vec<Segment>)
        ensures
            segs@ == outline_segments(self@),
            self.wf() ==> fitting(segs@),
    {
        proof {
            if self.wf() {
                lemma_segments_fit(self@);
            }
        }
        let mut segs: Vec<Segment> = self.drawn();
        match self.closing() {
            Some(e) => {
                segs.push(e);
            },
            None => {},
        }
        segs
    }

    /// Turns the segment that element `i` draws into its cubic, in the same
    /// slot. Returns whether element `i` draws a segment; otherwise the path
    /// is unchanged.
    pub fn elevate(&mut self, i: usize) -> (raised: bool)
        requires
            old(self).wf(),
        ensures
            final(self).wf(),
            raised == drawn_segment(old(self)@, i as int).is_some(),
            final(self)@ == elevated(old(self)@, i as int),
            final(self)@.len() == old(self)@.len(),
    {
        let ghost before = self@;
        match self.segment_at(i) {
            Some(s) => {
                match s.to_cubic() {
                    Segment::Cubic(_, c1, c2, p) => {
                        self.elements.set(i, PathElement::Cubic(c1, c2, p));
                    },
                    _ => {},
                }
                proof {
                    lemma_elevated_valid(before, i as int);
                }
                true
            },
            None => false,
        }
    }
}

} // verus!
