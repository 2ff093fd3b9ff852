//! What is put on the screen: marks for the points, strokes for the segments.

use vstd::prelude::*;
use crate::editor::Selection;
use crate::element::PathElement;
use crate::path::{path_segments, Path};
use crate::point::{Fine, Point};
use crate::segment::{Segment, STEPS};

verus! {

/// One thing to put on the screen.
#[derive(Clone, Copy, Debug, PartialEq, Eq, Structural)]
pub enum Primitive {
    /// The mark of a path point, at a position in thirds of a lattice step:
    /// a disc where the point ends its element, a ring where it is a control
    /// point; `selected` where the selection refers to it.
    Marker { at: Fine, filled: bool, selected: bool },
    /// One straight piece of a drawn segment.
    Stroke { from: Point, to: Point },
}

/// The mark of the point that `sel` refers to in `el`.
pub open spec fn marker(el: PathElement, sel: Selection, selected: Option<Selection>) -> Primitive {
    Primitive::Marker {
        at: el.points()[sel.point_index as int],
        filled: sel.point_index + 1 == el.points().len(),
        selected: selected == Some(sel),
    }
}

/// The marks of the points of element `ei` of path `pi`, in point order.
pub open spec fn element_markers(
    el: PathElement,
    pi: usize,
    ei: usize,
    selected: Option<Selection>,
) -> Seq<Primitive> {
    Seq::new(
        el.points().len(),
        |k: int|
            marker(
                el,
                Selection { path_index: pi, element_index: ei, point_index: k as usize },
                selected,
            ),
    )
}

/// The marks of the points of the first `n` elements of path `pi`.
pub open spec fn path_markers(
    els: Seq<PathElement>,
    pi: usize,
    selected: Option<Selection>,
    n: int,
) -> Seq<Primitive>
    decreases n,
{
    if n <= 0 {
        Seq::empty()
    } else {
        path_markers(els, pi, selected, n - 1) + element_markers(
            els[n - 1],
            pi,
            (n - 1) as usize,
            selected,
        )
    }
}

/// The strokes of one segment: from each sample to the next, `STEPS` in all.
pub open spec fn segment_strokes(seg: Segment) -> Seq<Primitive> {
    Seq::new(
        STEPS as nat,
        |k: int| Primitive::Stroke { from: seg.sample(k), to: seg.sample(k + 1) },
    )
}

/// The strokes of the first `n` of the segments.
pub open spec fn strokes(segs: Seq<Segment>, n: int) -> Seq<Primitive>
    decreases n,
{
    if n <= 0 {
        Seq::empty()
    } else {
        strokes(segs, n - 1) + segment_strokes(segs[n - 1])
    }
}

/// What is drawn of path `pi`: the marks of its points, then the strokes of
/// its segments.
pub open spec fn path_picture(
    els: Seq<PathElement>,
    pi: usize,
    selected: Option<Selection>,
) -> Seq<Primitive> {
    path_markers(els, pi, selected, els.len() as int) + strokes(
        path_segments(els),
        path_segments(els).len() as int,
    )
}

/// What is drawn of the first `n` paths, path after path.
pub open spec fn picture(
    paths: Seq<Seq<PathElement>>,
    selected: Option<Selection>,
    n: int,
) -> Seq<Primitive>
    decreases n,
{
    if n <= 0 {
        Seq::empty()
    } else {
        picture(paths, selected, n - 1) + path_picture(paths[n - 1], (n - 1) as usize, selected)
    }
}

/// Appends the marks of the points of `el`.
fn draw_element(
    el: &PathElement,
    pi: usize,
    ei: usize,
    selected: Option<Selection>,
    out: &mut Vec<Primitive>,
)
    ensures
        final(out)@ == old(out)@ + element_markers(*el, pi, ei, selected),
{
    let n: usize = el.arity();
    let mut k: usize = 0;
    while k < n
        invariant
            n == el.points().len(),
            0 <= k <= n,
            out@ == old(out)@ + element_markers(*el, pi, ei, selected).subrange(0, k as int),
        decreases n - k,
    {
        match el.point(k) {
            Some(p) => {
                let chosen: bool = match selected {
                    Some(s) => s.path_index == pi && s.element_index == ei && s.point_index == k,
                    None => false,
                };
                out.push(Primitive::Marker { at: p, filled: k + 1 == n, selected: chosen });
                assert(out@ =~= old(out)@ + element_markers(*el, pi, ei, selected).subrange(
                    0,
                    k + 1,
                ));
            },
            None => {},
        }
        k += 1;
    }
    assert(element_markers(*el, pi, ei, selected).subrange(0, n as int) =~= element_markers(
        *el,
        pi,
        ei,
        selected,
    ));
}

/// Appends the strokes of `seg`.
fn draw_segment(seg: &Segment, out: &mut Vec<Primitive>)
    requires
        seg.wf(),
    ensures
        final(out)@ == old(out)@ + segment_strokes(*seg),
{
    let pts: Vec<Point> = seg.polyline();
    let mut k: usize = 0;
    while k < STEPS as usize
        invariant
            pts@ == seg.spec_polyline(),
            0 <= k <= STEPS,
            out@ == old(out)@ + segment_strokes(*seg).subrange(0, k as int),
        decreases STEPS - k,
    {
        out.push(Primitive::Stroke { from: pts[k], to: pts[k + 1] });
        assert(out@ =~= old(out)@ + segment_strokes(*seg).subrange(0, k + 1));
        k += 1;
    }
    assert(segment_strokes(*seg).subrange(0, STEPS as int) =~= segment_strokes(*seg));
}

/// Appends what is drawn of path `pi`.
pub fn draw_path(path: &Path, pi: usize, selected: Option<Selection>, out: &mut Vec<Primitive>)
    requires
        path.wf(),
    ensures
        final(out)@ == old(out)@ + path_picture(path@, pi, selected),
{
    let n: usize = path.len();
    let mut e: usize = 0;
    while e < n
        invariant
            n == path@.len(),
            0 <= e <= n,
            out@ == old(out)@ + path_markers(path@, pi, selected, e as int),
        decreases n - e,
    {
        let el: PathElement = path.elements()[e];
        draw_element(&el, pi, e, selected, out);
        assert(out@ =~= old(out)@ + path_markers(path@, pi, selected, e + 1));
        e += 1;
    }
    let ghost marked = out@;
    let segs: Vec<Segment> = path.segments();
    let mut i: usize = 0;
    while i < segs.len()
        invariant
            0 <= i <= segs.len(),
            crate::path::fitting(segs@),
            out@ == marked + strokes(segs@, i as int),
        decreases segs.len() - i,
    {
        let seg: Segment = segs[i];
        draw_segment(&seg, out);
        assert(out@ =~= marked + strokes(segs@, i + 1));
        i += 1;
    }
    assert(out@ =~= old(out)@ + path_picture(path@, pi, selected));
}

} // verus!
