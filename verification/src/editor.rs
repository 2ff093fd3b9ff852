//! The editor: a drawing, a selection, and the steps that change them.

use vstd::prelude::*;
use crate::draw::{draw_path, path_picture, picture, Primitive};
use crate::element::PathElement;
use crate::path::{elevated, has_point, is_closed, valid_elements, with_point, Path};
use crate::point::{Fine, Point};
use crate::store::{valid_paths, PathStore};

verus! {

/// Radius of the disc around the pointer inside which a point can be picked.
pub const PICK_RADIUS: u32 = 5;

/// A reference to one point of a drawing: the path, the element in it, and
/// the point slot in the element.
#[derive(Clone, Copy, Debug, PartialEq, Eq, Structural)]
pub struct Selection {
    pub path_index: usize,
    pub element_index: usize,
    pub point_index: usize,
}

impl Selection {
    pub fn new(path_index: usize, element_index: usize, point_index: usize) -> (s: Selection)
        ensures
            s == (Selection { path_index, element_index, point_index }),
    {
        Selection { path_index, element_index, point_index }
    }
}

/// What the pointer and the keys ask for in one frame.
#[derive(Clone, Copy, Debug, PartialEq, Eq, Structural)]
pub struct Input {
    /// Where the pointer is.
    pub pointer: Point,
    /// Pick the point under the pointer.
    pub select: bool,
    /// Turn the selected segment into a cubic.
    pub elevate: bool,
    /// Move the selected point to the pointer.
    pub drag: bool,
    /// Add a point at the pointer.
    pub insert: bool,
    /// Close the selected path.
    pub close: bool,
}

/// The drawing and the selection, as values.
pub struct EditorState {
    pub paths: Seq<Seq<PathElement>>,
    pub selected: Option<Selection>,
}

/// Whether `sel` refers to a point that the drawing has.
pub open spec fn names_point(paths: Seq<Seq<PathElement>>, sel: Selection) -> bool {
    sel.path_index < paths.len() && has_point(
        paths[sel.path_index as int],
        sel.element_index as int,
        sel.point_index as int,
    )
}

/// The position of the point that `sel` refers to, in thirds of a lattice
/// step.
pub open spec fn point_of(paths: Seq<Seq<PathElement>>, sel: Selection) -> Fine {
    paths[sel.path_index as int][sel.element_index as int].points()[sel.point_index as int]
}

/// Whether `sel` refers to a point strictly closer to `mouse` than `PICK_RADIUS`.
pub open spec fn is_hit(paths: Seq<Seq<PathElement>>, sel: Selection, mouse: Point) -> bool {
    names_point(paths, sel) && point_of(paths, sel).within(mouse, PICK_RADIUS as int)
}

/// Scan order: by path, then by element, then by point slot.
pub open spec fn precedes(a: Selection, b: Selection) -> bool {
    a.path_index < b.path_index || (a.path_index == b.path_index && (a.element_index
        < b.element_index || (a.element_index == b.element_index && a.point_index
        < b.point_index)))
}

/// Whether `sel` is a hit that no other hit precedes.
pub open spec fn is_first_hit(paths: Seq<Seq<PathElement>>, sel: Selection, mouse: Point) -> bool {
    is_hit(paths, sel, mouse) && forall|t: Selection| #[trigger]
        is_hit(paths, t, mouse) ==> !precedes(t, sel)
}

/// The point that a pick at `mouse` selects: the first hit in scan order, or
/// nothing where no point is a hit.
pub open spec fn picked(paths: Seq<Seq<PathElement>>, mouse: Point) -> Option<Selection> {
    if exists|s: Selection| is_first_hit(paths, s, mouse) {
        Some(choose|s: Selection| is_first_hit(paths, s, mouse))
    } else {
        None
    }
}

/// A drawing has at most one first hit.
pub proof fn lemma_first_hit_unique(
    paths: Seq<Seq<PathElement>>,
    a: Selection,
    b: Selection,
    mouse: Point,
)
    requires
        is_first_hit(paths, a, mouse),
        is_first_hit(paths, b, mouse),
    ensures
        a == b,
{
    assert(!precedes(a, b));
    assert(!precedes(b, a));
}

impl EditorState {
    /// Every path is valid and the selection, if any, refers to a point that
    /// the drawing has.
    pub open spec fn wf(self) -> bool {
        &&& valid_paths(self.paths)
        &&& self.paths.len() <= usize::MAX
        &&& self.selected matches Some(s) ==> names_point(self.paths, s)
    }

    /// After a pick at `mouse`.
    pub open spec fn pick(self, mouse: Point) -> EditorState {
        EditorState { paths: self.paths, selected: picked(self.paths, mouse) }
    }

    /// After a drag to `mouse`: the selected point is there.
    pub open spec fn drag(self, mouse: Point) -> EditorState {
        match self.selected {
            Some(s) => if s.path_index < self.paths.len() {
                EditorState {
                    paths: self.paths.update(
                        s.path_index as int,
                        with_point(
                            self.paths[s.path_index as int],
                            s.element_index as int,
                            s.point_index as int,
                            mouse,
                        ),
                    ),
                    selected: self.selected,
                }
            } else {
                self
            },
            None => self,
        }
    }

    /// Whether an insertion starts a new path: nothing is selected, or the
    /// selected path is closed.
    pub open spec fn starts_path(self) -> bool {
        match self.selected {
            Some(s) => !(s.path_index < self.paths.len()) || is_closed(
                self.paths[s.path_index as int],
            ),
            None => true,
        }
    }

    /// After an insertion at `mouse`.
    pub open spec fn insert(self, mouse: Point) -> EditorState {
        if self.starts_path() {
            EditorState {
                paths: self.paths.push(seq![PathElement::Move(mouse)]),
                selected: Some(
                    Selection {
                        path_index: self.paths.len() as usize,
                        element_index: 0,
                        point_index: 0,
                    },
                ),
            }
        } else {
            let i = self.selected->0.path_index as int;
            let el = if self.paths[i].len() == 0 {
                PathElement::Move(mouse)
            } else {
                PathElement::Line(mouse)
            };
            EditorState { paths: self.paths.update(i, self.paths[i].push(el)), selected: self.selected }
        }
    }

    /// After closing the selected path: a `Close` is appended where the path
    /// is not empty and not closed yet.
    pub open spec fn close(self) -> EditorState {
        match self.selected {
            Some(s) => if s.path_index < self.paths.len() && self.paths[s.path_index as int].len()
                > 0 && !is_closed(self.paths[s.path_index as int]) {
                EditorState {
                    paths: self.paths.update(
                        s.path_index as int,
                        self.paths[s.path_index as int].push(PathElement::Close),
                    ),
                    selected: self.selected,
                }
            } else {
                self
            },
            None => self,
        }
    }

    /// After elevating the segment of the selected element.
    pub open spec fn elevate(self) -> EditorState {
        match self.selected {
            Some(s) => if s.path_index < self.paths.len() {
                EditorState {
                    paths: self.paths.update(
                        s.path_index as int,
                        elevated(self.paths[s.path_index as int], s.element_index as int),
                    ),
                    selected: self.selected,
                }
            } else {
                self
            },
            None => self,
        }
    }

    /// After one frame: what `input` asks for, in the order pick, elevate,
    /// drag, insert, close.
    pub open spec fn update(self, input: Input) -> EditorState {
        let s1 = if input.select {
            self.pick(input.pointer)
        } else {
            self
        };
        let s2 = if input.elevate {
            s1.elevate()
        } else {
            s1
        };
        let s3 = if input.drag {
            s2.drag(input.pointer)
        } else {
            s2
        };
        let s4 = if input.insert {
            s3.insert(input.pointer)
        } else {
            s3
        };
        if input.close {
            s4.close()
        } else {
            s4
        }
    }
}

/// The first point slot of `el` whose point is a hit, if there is one.
fn hit_in_element(el: &PathElement, mouse: Point) -> (r: Option<usize>)
    ensures
        match r {
            Some(k) => k < el.points().len() && el.points()[k as int].within(
                mouse,
                PICK_RADIUS as int,
            ) && forall|j: int|
                0 <= j < k ==> !(#[trigger] el.points()[j]).within(mouse, PICK_RADIUS as int),
            None => forall|j: int|
                0 <= j < el.points().len() ==> !(#[trigger] el.points()[j]).within(
                    mouse,
                    PICK_RADIUS as int,
                ),
        },
{
    let n: usize = el.arity();
    let mut k: usize = 0;
    while k < n
        invariant
            n == el.points().len(),
            0 <= k <= n,
            forall|j: int|
                0 <= j < k ==> !(#[trigger] el.points()[j]).within(mouse, PICK_RADIUS as int),
        decreases n - k,
    {
        match el.point(k) {
            Some(p) => {
                if p.is_within(&mouse, PICK_RADIUS) {
                    return Some(k);
                }
            },
            None => {},
        }
        k += 1;
    }
    None
}

/// The first element and point slot of `path` whose point is a hit.
fn hit_in_path(path: &Path, mouse: Point) -> (r: Option<(usize, usize)>)
    ensures
        match r {
            Some((e, k)) => has_point(path@, e as int, k as int) && path@[e as int].points()[k as int].within(
                mouse,
                PICK_RADIUS as int,
            ) && forall|i: int, j: int|
                has_point(path@, i, j) && (i < e || (i == e && j < k)) ==> !(
                #[trigger] path@[i].points()[j]).within(mouse, PICK_RADIUS as int),
            None => forall|i: int, j: int|
                has_point(path@, i, j) ==> !(#[trigger] path@[i].points()[j]).within(
                    mouse,
                    PICK_RADIUS as int,
                ),
        },
{
    let n: usize = path.len();
    let mut e: usize = 0;
    while e < n
        invariant
            n == path@.len(),
            0 <= e <= n,
            forall|i: int, j: int|
                has_point(path@, i, j) && i < e ==> !(#[trigger] path@[i].points()[j]).within(
                    mouse,
                    PICK_RADIUS as int,
                ),
        decreases n - e,
    {
        let el: PathElement = path.elements()[e];
        match hit_in_element(&el, mouse) {
            Some(k) => {
                return Some((e, k));
            },
            None => {},
        }
        e += 1;
    }
    None
}

/// The editor: a drawing and, at most, one selected point of it.
pub struct BezEditor {
    store: PathStore,
    selected: Option<Selection>,
}

impl View for BezEditor {
    type V = EditorState;

    closed spec fn view(&self) -> EditorState {
        EditorState { paths: self.store@, selected: self.selected }
    }
}

impl BezEditor {
    /// The invariant of every editor: `EditorState::wf` of what it holds.
    pub open spec fn wf(&self) -> bool {
        self@.wf()
    }

    /// An editor with an empty drawing and nothing selected.
    pub fn new() -> (ed: BezEditor)
        ensures
            ed.wf(),
            ed@.paths == Seq::<Seq<PathElement>>::empty(),
            ed@.selected is None,
    {
        BezEditor { store: PathStore::new(), selected: None }
    }

    /// An editor on the drawing `store`, with nothing selected.
    pub fn from_store(store: PathStore) -> (ed: BezEditor)
        requires
            store.wf(),
        ensures
            ed.wf(),
            ed@.paths == store@,
            ed@.selected is None,
    {
        proof {
            store.lemma_len_fits();
        }
        BezEditor { store, selected: None }
    }

    /// The drawing.
    pub fn store(&self) -> (s: &PathStore)
        ensures
            s@ == self@.paths,
    {
        &self.store
    }

    /// The path whose boundary is rasterised: the first path of the
    /// drawing, or nothing while the drawing is empty.
    pub fn boundary(&self) -> (r: Option<&Path>)
        requires
            self.wf(),
        ensures
            r is Some <==> self@.paths.len() > 0,
            r matches Some(p) ==> p@ == self@.paths[0] && p.wf(),
    {
        self.store.path(0)
    }

    /// The selection.
    pub fn selected(&self) -> (s: Option<Selection>)
        ensures
            s == self@.selected,
    {
        self.selected
    }

    /// The first point, in scan order, that lies strictly closer to `mouse`
    /// than `PICK_RADIUS`.
    pub fn find(&self, mouse: Point) -> (r: Option<Selection>)
        requires
            self.wf(),
        ensures
            r == picked(self@.paths, mouse),
            r matches Some(s) ==> is_first_hit(self@.paths, s, mouse),
            r is None <==> forall|t: Selection| !is_hit(self@.paths, t, mouse),
    {
        let n: usize = self.store.len();
        let ghost paths = self@.paths;
        let mut i: usize = 0;
        while i < n
            invariant
                self.wf(),
                paths == self@.paths,
                n == paths.len(),
                0 <= i <= n,
                forall|t: Selection| #[trigger] is_hit(paths, t, mouse) ==> t.path_index >= i,
            decreases n - i,
        {
            match self.store.path(i) {
                Some(path) => {
                    match hit_in_path(path, mouse) {
                        Some((e, k)) => {
                            let s = Selection { path_index: i, element_index: e, point_index: k };
                            proof {
                                assert(is_hit(paths, s, mouse));
                                assert forall|t: Selection| #[trigger]
                                    is_hit(paths, t, mouse) implies !precedes(t, s) by {
                                    if precedes(t, s) {
                                        assert(t.path_index == i);
                                        assert(has_point(
                                            path@,
                                            t.element_index as int,
                                            t.point_index as int,
                                        ));
                                        assert(!path@[t.element_index as int].points()[t.point_index as int].within(
                                            mouse,
                                            PICK_RADIUS as int,
                                        ));
                                    }
                                }
                                assert(is_first_hit(paths, s, mouse));
                                lemma_first_hit_unique(
                                    paths,
                                    s,
                                    choose|s: Selection| is_first_hit(paths, s, mouse),
                                    mouse,
                                );
                            }
                            return Some(s);
                        },
                        None => {
                            assert forall|t: Selection| #[trigger]
                                is_hit(paths, t, mouse) implies t.path_index >= i + 1 by {
                                if t.path_index == i {
                                    assert(has_point(
                                        path@,
                                        t.element_index as int,
                                        t.point_index as int,
                                    ));
                                    assert(!path@[t.element_index as int].points()[t.point_index as int].within(
                                        mouse,
                                        PICK_RADIUS as int,
                                    ));
                                }
                            }
                        },
                    }
                },
                None => {},
            }
            i += 1;
        }
        proof {
            assert forall|t: Selection| !is_hit(paths, t, mouse) by {
                if is_hit(paths, t, mouse) {
                    assert(t.path_index >= n);
                }
            }
            assert(!exists|s: Selection| is_first_hit(paths, s, mouse));
        }
        None
    }

    /// Selects the first point, in scan order, that lies strictly closer to
    /// `mouse` than `PICK_RADIUS`; where there is none, nothing is selected
    /// afterwards. The selection held before plays no part.
    pub fn pick(&mut self, mouse: Point)
        requires
            old(self).wf(),
        ensures
            final(self).wf(),
            final(self)@ == old(self)@.pick(mouse),
            final(self)@.selected matches Some(s) ==> is_first_hit(old(self)@.paths, s, mouse),
            final(self)@.selected is None <==> forall|t: Selection|
                !is_hit(old(self)@.paths, t, mouse),
    {
        let found: Option<Selection> = self.find(mouse);
        self.selected = found;
    }

    /// Moves the selected point to `mouse`. Without a selection nothing
    /// changes.
    pub fn drag(&mut self, mouse: Point)
        requires
            old(self).wf(),
        ensures
            final(self).wf(),
            final(self)@ == old(self)@.drag(mouse),
    {
        match self.selected {
            Some(s) => {
                let ghost before = self@.paths;
                self.store.set_point(s.path_index, s.element_index, s.point_index, mouse);
                proof {
                    before[s.path_index as int][s.element_index as int].lemma_with_point(
                        s.point_index as int,
                        mouse,
                    );
                }
            },
            None => {},
        }
    }

    /// Adds a point at `mouse`.
    ///
    /// Where nothing is selected, or the selected path is closed, a new path
    /// that holds `Move(mouse)` is appended to the drawing and its point
    /// becomes the selection. Otherwise `Line(mouse)` is appended to the
    /// selected path and the selection stays. No element is ever appended
    /// behind a `Close`.
    pub fn insert_point(&mut self, mouse: Point)
        requires
            old(self).wf(),
        ensures
            final(self).wf(),
            final(self)@ == old(self)@.insert(mouse),
    {
        let fresh: bool = match self.selected {
            Some(s) => s.path_index >= self.store.len() || self.store.closed(s.path_index),
            None => true,
        };
        if fresh {
            let mut path: Path = Path::new();
            path.push(PathElement::Move(mouse));
            assert(path@ == seq![PathElement::Move(mouse)]);
            let i: usize = self.store.add(path);
            self.selected = Some(Selection { path_index: i, element_index: 0, point_index: 0 });
        } else {
            match self.selected {
                Some(s) => {
                    let ghost target = self@.paths[s.path_index as int];
                    assert(target.len() > 0);
                    assert(valid_elements(target));
                    self.store.push_element(s.path_index, PathElement::Line(mouse));
                    assert(target.push(PathElement::Line(mouse))[s.element_index as int]
                        == target[s.element_index as int]);
                },
                None => {},
            }
        }
    }

    /// Closes the selected path: appends a `Close` where the path is not
    /// empty and not closed yet. Otherwise, and without a selection, nothing
    /// changes. No closing line is added: the `Close` alone stands for the
    /// edge back to the start.
    pub fn close_path(&mut self)
        requires
            old(self).wf(),
        ensures
            final(self).wf(),
            final(self)@ == old(self)@.close(),
    {
        match self.selected {
            Some(s) => {
                let ghost target = self@.paths[s.path_index as int];
                self.store.push_element(s.path_index, PathElement::Close);
                proof {
                    if s.path_index < old(self)@.paths.len() {
                        assert(valid_elements(target));
                        assert(target.len() > 0);
                        if !is_closed(target) {
                            assert(target.push(PathElement::Close)[s.element_index as int]
                                == target[s.element_index as int]);
                        }
                    }
                }
            },
            None => {},
        }
    }

    /// Turns the segment that the selected element draws into its cubic, in
    /// the same slot. Where the selected element draws no segment (a `Move`,
    /// a `Close`), and without a selection, nothing changes.
    pub fn elevate_segment(&mut self)
        requires
            old(self).wf(),
        ensures
            final(self).wf(),
            final(self)@ == old(self)@.elevate(),
    {
        match self.selected {
            Some(s) => {
                self.store.elevate(s.path_index, s.element_index);
            },
            None => {},
        }
    }

    /// What is to be drawn of the drawing: path after path, for each the
    /// marks of its points and then the strokes of its segments.
    pub fn draw(&self) -> (out: Vec<Primitive>)
        requires
            self.wf(),
        ensures
            out@ == picture(self@.paths, self@.selected, self@.paths.len() as int),
    {
        let mut out: Vec<Primitive> = Vec::new();
        let n: usize = self.store.len();
        let mut i: usize = 0;
        while i < n
            invariant
                self.wf(),
                n == self@.paths.len(),
                0 <= i <= n,
                out@ == picture(self@.paths, self@.selected, i as int),
            decreases n - i,
        {
            match self.store.path(i) {
                Some(path) => {
                    let ghost prior = out@;
                    draw_path(path, i, self.selected, &mut out);
                    assert(out@ == prior + path_picture(self@.paths[i as int], i, self@.selected));
                },
                None => {},
            }
            i += 1;
        }
        out
    }

    /// One frame of editing: what `input` asks for, in the order pick,
    /// elevate, drag, insert, close.
    pub fn update(&mut self, input: &Input)
        requires
            old(self).wf(),
        ensures
            final(self).wf(),
            final(self)@ == old(self)@.update(*input),
    {
        if input.select {
            self.pick(input.pointer);
        }
        if input.elevate {
            self.elevate_segment();
        }
        if input.drag {
            self.drag(input.pointer);
        }
        if input.insert {
            self.insert_point(input.pointer);
        }
        if input.close {
            self.close_path();
        }
    }
}

} // verus!
