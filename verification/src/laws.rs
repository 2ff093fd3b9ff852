//! What holds of the editing steps and of elevation, whatever the input.

use vstd::prelude::*;
use crate::editor::{
    is_first_hit,
    is_hit,
    lemma_first_hit_unique,
    names_point,
    picked,
    point_of,
    precedes,
    EditorState,
    Selection,
    PICK_RADIUS,
};
use crate::element::PathElement;
use crate::path::{
    drawn_segment,
    elevated,
    is_closed,
    lemma_elevated_valid,
    lemma_push_valid,
    lemma_with_point_valid,
    valid_elements,
};
use crate::point::{lemma_fine_distance, Point};
use crate::segment::{bernstein1, bernstein2, bernstein3, Segment};

verus! {

/// A pick selects a point only if it lies strictly closer to the pointer
/// than `PICK_RADIUS`, and selects the point `sel` if and only if `sel` is
/// such a point and no such point comes before it in scan order. A point at
/// exactly `PICK_RADIUS` from the pointer is never selected. Positions are
/// in thirds of a lattice step, so squared distances count ninths.
pub proof fn pick_threshold(paths: Seq<Seq<PathElement>>, sel: Selection, mouse: Point)
    ensures
        picked(paths, mouse) == Some(sel) <==> is_first_hit(paths, sel, mouse),
        picked(paths, mouse) == Some(sel) ==> names_point(paths, sel) && point_of(
            paths,
            sel,
        ).dist_sq(mouse) < 9 * (PICK_RADIUS * PICK_RADIUS),
        point_of(paths, sel).dist_sq(mouse) >= 9 * (PICK_RADIUS * PICK_RADIUS) ==> picked(
            paths,
            mouse,
        ) != Some(sel),
{
    if is_first_hit(paths, sel, mouse) {
        lemma_first_hit_unique(
            paths,
            sel,
            choose|s: Selection| is_first_hit(paths, s, mouse),
            mouse,
        );
    }
}

/// Where some point is a hit, some hit is the first.
proof fn lemma_first_hit_exists(paths: Seq<Seq<PathElement>>, t: Selection, mouse: Point)
    requires
        is_hit(paths, t, mouse),
    ensures
        exists|s: Selection| is_first_hit(paths, s, mouse),
    decreases t.path_index, t.element_index, t.point_index,
{
    if !is_first_hit(paths, t, mouse) {
        let earlier = choose|u: Selection| #[trigger] is_hit(paths, u, mouse) && precedes(u, t);
        lemma_first_hit_exists(paths, earlier, mouse);
    }
}

/// A pick selects nothing if and only if no point of the drawing lies
/// strictly closer to the pointer than `PICK_RADIUS`; and what it selects is
/// a hit that no other hit precedes.
pub proof fn pick_selects_nothing(paths: Seq<Seq<PathElement>>, mouse: Point)
    ensures
        picked(paths, mouse) is None <==> forall|t: Selection| !is_hit(paths, t, mouse),
        picked(paths, mouse) matches Some(s) ==> is_first_hit(paths, s, mouse),
{
    if exists|t: Selection| is_hit(paths, t, mouse) {
        let t = choose|t: Selection| is_hit(paths, t, mouse);
        lemma_first_hit_exists(paths, t, mouse);
    }
}

/// In a drawing with a single point, a pick selects that point if and only
/// if it lies strictly closer to the pointer than `PICK_RADIUS`.
pub proof fn pick_single_point(p: Point, mouse: Point)
    ensures
        picked(seq![seq![PathElement::Move(p)]], mouse) is Some <==> p.dist_sq(mouse) < PICK_RADIUS
            * PICK_RADIUS,
{
    let paths = seq![seq![PathElement::Move(p)]];
    let only = Selection { path_index: 0, element_index: 0, point_index: 0 };
    assert(paths[0][0].points()[0] == p.spec_fine());
    lemma_fine_distance(p, mouse, PICK_RADIUS as int);
    if p.within(mouse, PICK_RADIUS as int) {
        assert(is_hit(paths, only, mouse));
        assert forall|t: Selection| #[trigger] is_hit(paths, t, mouse) implies !precedes(
            t,
            only,
        ) by {}
        assert(is_first_hit(paths, only, mouse));
    } else {
        assert forall|t: Selection| !is_first_hit(paths, t, mouse) by {
            if is_hit(paths, t, mouse) {
                assert(t == only);
            }
        }
    }
}

/// Every editing step keeps the state valid.
pub proof fn steps_keep_validity(s: EditorState, mouse: Point)
    requires
        s.wf(),
    ensures
        s.pick(mouse).wf(),
        s.drag(mouse).wf(),
        s.paths.len() < usize::MAX ==> s.insert(mouse).wf(),
        s.close().wf(),
        s.elevate().wf(),
{
    // pick
    match picked(s.paths, mouse) {
        Some(t) => {
            assert(is_first_hit(s.paths, t, mouse));
        },
        None => {},
    }
    match s.selected {
        Some(sel) => {
            let i = sel.path_index as int;
            let e = sel.element_index as int;
            let k = sel.point_index as int;
            let target = s.paths[i];
            // drag
            target[e].lemma_with_point(k, mouse);
            lemma_with_point_valid(target, e, k, mouse);
            assert(valid_paths_at(s.drag(mouse).paths, s.paths, i));
            // close
            lemma_push_valid(target, PathElement::Close);
            if target.len() > 0 && !is_closed(target) {
                assert(target.push(PathElement::Close)[e] == target[e]);
                assert(valid_paths_at(s.close().paths, s.paths, i));
            }
            // elevate
            lemma_elevated_valid(target, e);
            assert(valid_paths_at(s.elevate().paths, s.paths, i));
            // insert into the selected path
            lemma_push_valid(target, PathElement::Line(mouse));
            if !s.starts_path() {
                assert(target.push(PathElement::Line(mouse))[e] == target[e]);
                assert(valid_paths_at(s.insert(mouse).paths, s.paths, i));
            }
        },
        None => {},
    }
    // insert as a new path
    if s.starts_path() && s.paths.len() < usize::MAX {
        let fresh = seq![PathElement::Move(mouse)];
        assert(valid_elements(fresh));
        let after = s.insert(mouse);
        assert(after.paths[s.paths.len() as int] == fresh);
        assert forall|j: int| 0 <= j < after.paths.len() implies valid_elements(
            #[trigger] after.paths[j],
        ) by {
            if j < s.paths.len() {
                assert(after.paths[j] == s.paths[j]);
            }
        }
        assert(fresh[0].points() == seq![mouse.spec_fine()]);
    }
}

/// Whether `after` is `before` with a valid path in place of path `i`.
spec fn valid_paths_at(
    after: Seq<Seq<PathElement>>,
    before: Seq<Seq<PathElement>>,
    i: int,
) -> bool {
    &&& after.len() == before.len()
    &&& forall|j: int| 0 <= j < before.len() && j != i ==> after[j] == before[j]
    &&& 0 <= i < after.len() ==> valid_elements(after[i])
}

/// An insertion without a selection adds exactly one path to the drawing,
/// and that path begins with a `Move` to the pointer. The paths that were
/// there are unchanged, and the new point is selected.
pub proof fn insert_without_selection(s: EditorState, mouse: Point)
    requires
        s.wf(),
        s.selected is None,
    ensures
        s.insert(mouse).paths.len() == s.paths.len() + 1,
        s.insert(mouse).paths.subrange(0, s.paths.len() as int) == s.paths,
        s.insert(mouse).paths[s.paths.len() as int] == seq![PathElement::Move(mouse)],
        s.insert(mouse).paths[s.paths.len() as int][0] == PathElement::Move(mouse),
        s.paths.len() < usize::MAX ==> s.insert(mouse).selected == Some(
            Selection { path_index: s.paths.len() as usize, element_index: 0, point_index: 0 },
        ),
{
    assert(s.insert(mouse).paths.subrange(0, s.paths.len() as int) =~= s.paths);
}

/// A second insertion right after a first appends a `Line` to the path that
/// the first one left selected: no path is added, the selection stays, and
/// the path grows by that one element.
pub proof fn insert_continues(s: EditorState, first: Point, second: Point)
    requires
        s.wf(),
        s.paths.len() < usize::MAX,
    ensures
        ({
            let s1 = s.insert(first);
            let s2 = s1.insert(second);
            let i = s1.selected->0.path_index as int;
            &&& s1.selected is Some
            &&& s2.selected == s1.selected
            &&& s2.paths.len() == s1.paths.len()
            &&& s2.paths[i] == s1.paths[i].push(PathElement::Line(second))
            &&& forall|j: int| 0 <= j < s1.paths.len() && j != i ==> s2.paths[j] == s1.paths[j]
        }),
{
    let s1 = s.insert(first);
    steps_keep_validity(s, first);
    let i = s1.selected->0.path_index as int;
    if s.starts_path() {
        assert(s1.paths[i] == seq![PathElement::Move(first)]);
        assert(!is_closed(s1.paths[i]));
    } else {
        let target = s.paths[i];
        assert(target.len() > 0);
        assert(s1.paths[i] == target.push(PathElement::Line(first)));
        assert(!is_closed(s1.paths[i]));
    }
    assert(!s1.starts_path());
    assert(s1.paths[i].len() > 0);
}

/// An insertion while the selected path is closed starts a new path: the
/// closed path, like every other path of the drawing, is unchanged, and the
/// new path begins with a `Move` to the pointer.
pub proof fn insert_after_closed(s: EditorState, mouse: Point)
    requires
        s.wf(),
        s.selected is Some,
        is_closed(s.paths[s.selected->0.path_index as int]),
    ensures
        s.insert(mouse).paths.len() == s.paths.len() + 1,
        forall|j: int| 0 <= j < s.paths.len() ==> s.insert(mouse).paths[j] == s.paths[j],
        s.insert(mouse).paths[s.selected->0.path_index as int].len()
            == s.paths[s.selected->0.path_index as int].len(),
        s.insert(mouse).paths[s.paths.len() as int] == seq![PathElement::Move(mouse)],
{
}

/// Closing appends at most one `Close`, and closing twice is closing once.
pub proof fn close_twice(s: EditorState)
    requires
        s.wf(),
    ensures
        s.close().close() == s.close(),
        s.close().paths.len() == s.paths.len(),
        forall|j: int|
            0 <= j < s.paths.len() ==> (#[trigger] s.close().paths[j]) == s.paths[j]
                || s.close().paths[j] == s.paths[j].push(PathElement::Close),
{
    match s.selected {
        Some(sel) => {
            let i = sel.path_index as int;
            let target = s.paths[i];
            if target.len() > 0 && !is_closed(target) {
                assert(is_closed(target.push(PathElement::Close)));
            }
        },
        None => {},
    }
}

/// Dragging twice to the same place is dragging once.
pub proof fn drag_twice(s: EditorState, mouse: Point)
    requires
        s.wf(),
    ensures
        s.drag(mouse).drag(mouse) == s.drag(mouse),
{
    match s.selected {
        Some(sel) => {
            let i = sel.path_index as int;
            let e = sel.element_index as int;
            let k = sel.point_index as int;
            let target = s.paths[i];
            let once = crate::path::with_point(target, e, k, mouse);
            let twice = crate::path::with_point(once, e, k, mouse);
            assert(once[e].with_point(k, mouse) == once[e]);
            assert(twice =~= once);
            assert(s.drag(mouse).drag(mouse).paths =~= s.drag(mouse).paths);
        },
        None => {},
    }
}

/// Elevation works in place: the path keeps its length, every other element
/// is unchanged, the elevated element keeps its end point, and the segment
/// it draws afterwards is the cubic of the segment it drew before.
pub proof fn elevation_in_place(els: Seq<PathElement>, i: int)
    requires
        valid_elements(els),
        drawn_segment(els, i) is Some,
    ensures
        elevated(els, i).len() == els.len(),
        valid_elements(elevated(els, i)),
        forall|j: int| 0 <= j < els.len() && j != i ==> elevated(els, i)[j] == els[j],
        elevated(els, i)[i] is Cubic,
        elevated(els, i)[i].spec_end_point() == els[i].spec_end_point(),
        drawn_segment(elevated(els, i), i) == Some(drawn_segment(els, i)->0.spec_to_cubic()),
{
    lemma_elevated_valid(els, i);
}

/// Elevation keeps the curve. Whatever the segment, its cubic begins and
/// ends where the segment does, and at every parameter `k / n` the cubic is
/// at the very place where the segment is.
pub proof fn elevation_keeps_the_curve(seg: Segment, k: int, n: int)
    ensures
        seg.spec_to_cubic().spec_start() == seg.spec_start(),
        seg.spec_to_cubic().spec_end() == seg.spec_end(),
        seg.spec_to_cubic().scaled_x(k, n) == seg.scaled_x(k, n),
        seg.spec_to_cubic().scaled_y(k, n) == seg.scaled_y(k, n),
{
    match seg {
        Segment::Line(a, b) => {
            lemma_line_raise(a.x as int, b.x as int, k, n);
            lemma_line_raise(a.y as int, b.y as int, k, n);
        },
        Segment::Quad(a, b, c) => {
            lemma_quad_raise(a.x as int, b.x as int, c.x as int, k, n);
            lemma_quad_raise(a.y as int, b.y as int, c.y as int, k, n);
        },
        Segment::Cubic(_, _, _, _) => {},
    }
}

/// Every straight edge turned into a cubic begins at `from`, ends at `to`,
/// and lies on the edge in between: at every parameter `k / n` from 0 to 1
/// the cubic is at `from` moved towards `to` by the fraction `k / n` of the
/// way, along both axes.
pub proof fn elevated_line_stays_on_line(from: Point, to: Point, k: int, n: int)
    requires
        0 <= k <= n,
        n > 0,
    ensures
        ({
            let cubic = Segment::Line(from, to).spec_to_cubic();
            let w = n * n * k;
            &&& cubic.spec_start() == from
            &&& cubic.spec_end() == to
            &&& 0 <= w <= n * n * n
            &&& cubic.scaled_x(k, n) == (n * n * n - w) * from.x + w * to.x
            &&& cubic.scaled_y(k, n) == (n * n * n - w) * from.y + w * to.y
            &&& cubic.scaled_x(0, n) == n * n * n * from.x
            &&& cubic.scaled_y(0, n) == n * n * n * from.y
            &&& cubic.scaled_x(n, n) == n * n * n * to.x
            &&& cubic.scaled_y(n, n) == n * n * n * to.y
        }),
{
    let line = Segment::Line(from, to);
    elevation_keeps_the_curve(line, k, n);
    elevation_keeps_the_curve(line, 0, n);
    elevation_keeps_the_curve(line, n, n);
    assert(0 <= n * n * k <= n * n * n) by (nonlinear_arith)
        requires
            0 <= k <= n,
    ;
    lemma_at_pace(from.x as int, to.x as int, k, n);
    lemma_at_pace(from.y as int, to.y as int, k, n);
    lemma_at_pace(from.x as int, to.x as int, 0, n);
    lemma_at_pace(from.y as int, to.y as int, 0, n);
    lemma_at_pace(from.x as int, to.x as int, n, n);
    lemma_at_pace(from.y as int, to.y as int, n, n);
    assert(n * n * 0 == 0 && n * n * n - n * n * n == 0) by (nonlinear_arith);
}

/// The control points of an elevated edge are its thirds, and those of an
/// elevated quadratic lie two thirds of the way from its ends to its control
/// point: in thirds of a lattice step, `2 * from + to` and `from + 2 * to`,
/// or `from + 2 * control` and `to + 2 * control`.
pub proof fn elevated_control_points(from: Point, control: Point, to: Point)
    ensures
        Segment::Line(from, to).spec_to_cubic() matches Segment::Cubic(_, c1, c2, _) && {
            &&& c1.x == 2 * from.x + to.x
            &&& c1.y == 2 * from.y + to.y
            &&& c2.x == from.x + 2 * to.x
            &&& c2.y == from.y + 2 * to.y
        },
        Segment::Quad(from, control, to).spec_to_cubic() matches Segment::Cubic(_, c1, c2, _) && {
            &&& c1.x == from.x + 2 * control.x
            &&& c1.y == from.y + 2 * control.y
            &&& c2.x == to.x + 2 * control.x
            &&& c2.y == to.y + 2 * control.y
        },
{
}

/// The linear form times `n * n`, as a weighted sum of its ends.
proof fn lemma_at_pace(a: int, b: int, k: int, n: int)
    ensures
        n * n * bernstein1(a, b, k, n) == (n * n * n - n * n * k) * a + (n * n * k) * b,
{
    let nn = n * n;
    assert(nn * ((n - k) * a + k * b) == (nn * n - nn * k) * a + (nn * k) * b) by (nonlinear_arith);
}

/// Degree elevation of the linear form: the cubic form on `a`, the thirds
/// `2a + b` and `a + 2b` (in thirds), and `b` is `n * n` times the linear
/// form on `a, b`.
proof fn lemma_line_raise(a: int, b: int, k: int, n: int)
    ensures
        bernstein3(a, 2 * a + b, a + 2 * b, b, k, n) == n * n * bernstein1(a, b, k, n),
{
    let m = n - k;
    let mm = m * m;
    let mk = m * k;
    let kk = k * k;
    let t1 = mm * m;
    let t2 = mm * k;
    let t3 = mk * k;
    let t4 = kk * k;
    assert(t2 * (2 * a + b) == 2 * (t2 * a) + t2 * b) by (nonlinear_arith);
    assert(t3 * (a + 2 * b) == t3 * a + 2 * (t3 * b)) by (nonlinear_arith);
    let s = m * a + k * b;
    assert(n * n == mm + 2 * mk + kk) by (nonlinear_arith)
        requires
            n == m + k,
            mm == m * m,
            mk == m * k,
            kk == k * k,
    ;
    assert((mm + 2 * mk + kk) * s == mm * (m * a) + mm * (k * b) + 2 * (mk * (m * a)) + 2 * (mk
        * (k * b)) + kk * (m * a) + kk * (k * b)) by (nonlinear_arith)
        requires
            s == m * a + k * b,
    ;
    assert(mm * (m * a) == t1 * a) by (nonlinear_arith)
        requires
            t1 == mm * m,
    ;
    assert(mm * (k * b) == t2 * b) by (nonlinear_arith)
        requires
            t2 == mm * k,
    ;
    assert(mk * (m * a) == t2 * a) by (nonlinear_arith)
        requires
            t2 == mm * k,
            mm == m * m,
            mk == m * k,
    ;
    assert(mk * (k * b) == t3 * b) by (nonlinear_arith)
        requires
            t3 == mk * k,
    ;
    assert(kk * (m * a) == t3 * a) by (nonlinear_arith)
        requires
            t3 == mk * k,
            mk == m * k,
            kk == k * k,
    ;
    assert(kk * (k * b) == t4 * b) by (nonlinear_arith)
        requires
            t4 == kk * k,
    ;
    assert(bernstein3(a, 2 * a + b, a + 2 * b, b, k, n) == t1 * a + t2 * (2 * a + b) + t3 * (a + 2
        * b) + t4 * b);
    assert(n * n * bernstein1(a, b, k, n) == (mm + 2 * mk + kk) * s);
}

/// Degree elevation of the quadratic form: the cubic form on `a`, the
/// control values `a + 2b` and `c + 2b` (in thirds), and `c` is `n` times
/// the quadratic form on `a, b, c`.
proof fn lemma_quad_raise(a: int, b: int, c: int, k: int, n: int)
    ensures
        bernstein3(a, a + 2 * b, c + 2 * b, c, k, n) == n * bernstein2(a, b, c, k, n),
{
    let m = n - k;
    let mm = m * m;
    let mk = m * k;
    let kk = k * k;
    let t1 = mm * m;
    let t2 = mm * k;
    let t3 = mk * k;
    let t4 = kk * k;
    assert(t2 * (a + 2 * b) == t2 * a + 2 * (t2 * b)) by (nonlinear_arith);
    assert(t3 * (c + 2 * b) == t3 * c + 2 * (t3 * b)) by (nonlinear_arith);
    let s = mm * a + (2 * mk) * b + kk * c;
    assert(n * s == m * (mm * a) + m * ((2 * mk) * b) + m * (kk * c) + k * (mm * a) + k * ((2
        * mk) * b) + k * (kk * c)) by (nonlinear_arith)
        requires
            n == m + k,
            s == mm * a + (2 * mk) * b + kk * c,
    ;
    assert(m * (mm * a) == t1 * a) by (nonlinear_arith)
        requires
            t1 == mm * m,
    ;
    assert(m * ((2 * mk) * b) == 2 * (t2 * b)) by (nonlinear_arith)
        requires
            t2 == mm * k,
            mm == m * m,
            mk == m * k,
    ;
    assert(m * (kk * c) == t3 * c) by (nonlinear_arith)
        requires
            t3 == mk * k,
            mk == m * k,
            kk == k * k,
    ;
    assert(k * (mm * a) == t2 * a) by (nonlinear_arith)
        requires
            t2 == mm * k,
    ;
    assert(k * ((2 * mk) * b) == 2 * (t3 * b)) by (nonlinear_arith)
        requires
            t3 == mk * k,
    ;
    assert(k * (kk * c) == t4 * c) by (nonlinear_arith)
        requires
            t4 == kk * k,
    ;
    assert(bernstein3(a, a + 2 * b, c + 2 * b, c, k, n) == t1 * a + t2 * (a + 2 * b) + t3 * (c + 2
        * b) + t4 * c);
    assert(n * bernstein2(a, b, c, k, n) == n * s);
}

} // verus!
