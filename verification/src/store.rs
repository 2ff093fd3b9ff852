//! The paths of a drawing.

use vstd::prelude::*;
use crate::element::PathElement;
use crate::path::{elevated, has_point, is_closed, valid_elements, with_point, Path};
use crate::point::Point;

verus! {

/// The paths of a drawing, in the order in which they were created. A path's
/// position never changes, so it can be referred to by its index.
pub struct PathStore {
    paths: Vec<Path>,
}

impl View for PathStore {
    type V = Seq<Seq<PathElement>>;

    closed spec fn view(&self) -> Seq<Seq<PathElement>> {
        Seq::new(self.paths@.len(), |i: int| self.paths@[i]@)
    }
}

/// Whether every one of the paths is valid.
pub open spec fn valid_paths(paths: Seq<Seq<PathElement>>) -> bool {
    forall|i: int| 0 <= i < paths.len() ==> valid_elements(#[trigger] paths[i])
}

impl PathStore {
    pub open spec fn wf(&self) -> bool {
        valid_paths(self@)
    }

    /// A store never holds more paths than can be counted.
    pub proof fn lemma_len_fits(&self)
        ensures
            self@.len() <= usize::MAX,
    {
        assert(self.paths@.len() == self.paths.len());
    }

    /// The store without any path.
    pub fn new() -> (s: PathStore)
        ensures
            s@ == Seq::<Seq<PathElement>>::empty(),
            s.wf(),
    {
        let s = PathStore { paths: Vec::new() };
        assert(s@ =~= Seq::<Seq<PathElement>>::empty());
        s
    }

    pub fn len(&self) -> (n: usize)
        ensures
            n == self@.len(),
    {
        self.paths.len()
    }

    /// Path `i`, or `None` past the end.
    pub fn path(&self, i: usize) -> (r: Option<&Path>)
        requires
            self.wf(),
        ensures
            r is Some <==> i < self@.len(),
            r matches Some(p) ==> p@ == self@[i as int] && p.wf(),
    {
        if i < self.paths.len() {
            assert(self.paths@[i as int]@ == self@[i as int]);
            Some(&self.paths[i])
        } else {
            None
        }
    }

    /// Appends `path` as the newest path and returns its index.
    pub fn add(&mut self, path: Path) -> (i: usize)
        requires
            old(self).wf(),
            path.wf(),
        ensures
            final(self).wf(),
            i == old(self)@.len(),
            final(self)@ == old(self)@.push(path@),
            final(self)@.len() <= usize::MAX,
    {
        let i: usize = self.paths.len();
        self.paths.push(path);
        assert(self@ =~= old(self)@.push(path@));
        assert(self.paths@.len() == self.paths.len());
        i
    }

    /// Appends `el` to path `i` where `Path::push` would. Returns whether it
    /// was appended; otherwise, and where there is no path `i`, the store is
    /// unchanged.
    pub fn push_element(&mut self, i: usize, el: PathElement) -> (pushed: bool)
        requires
            old(self).wf(),
        ensures
            final(self).wf(),
            pushed == (i < old(self)@.len() && valid_elements(old(self)@[i as int].push(el))),
            pushed == (i < old(self)@.len() && el.wf() && (if old(self)@[i as int].len() == 0 {
                el is Move
            } else {
                !is_closed(old(self)@[i as int])
            })),
            final(self)@ == (if pushed {
                old(self)@.update(i as int, old(self)@[i as int].push(el))
            } else {
                old(self)@
            }),
    {
        if i >= self.paths.len() {
            return false;
        }
        assert(self.paths@[i as int]@ == self@[i as int]);
        let pushed: bool = self.paths[i].push(el);
        proof {
            if pushed {
                assert(self@ =~= old(self)@.update(i as int, old(self)@[i as int].push(el)));
            } else {
                assert(self@ =~= old(self)@);
            }
        }
        pushed
    }

    /// Writes `p` into point slot `k` of element `e` of path `i`. Returns
    /// whether there is such a slot; otherwise the store is unchanged.
    pub fn set_point(&mut self, i: usize, e: usize, k: usize, p: Point) -> (written: bool)
        requires
            old(self).wf(),
        ensures
            final(self).wf(),
            written == (i < old(self)@.len() && has_point(old(self)@[i as int], e as int, k as int)),
            final(self)@ == (if i < old(self)@.len() {
                old(self)@.update(i as int, with_point(old(self)@[i as int], e as int, k as int, p))
            } else {
                old(self)@
            }),
    {
        if i >= self.paths.len() {
            return false;
        }
        assert(self.paths@[i as int]@ == self@[i as int]);
        let written: bool = self.paths[i].set_point(e, k, p);
        assert(self@ =~= old(self)@.update(
            i as int,
            with_point(old(self)@[i as int], e as int, k as int, p),
        ));
        written
    }

    /// Turns the segment of element `e` of path `i` into its cubic, as
    /// `Path::elevate` does. Returns whether there is such a segment;
    /// otherwise the store is unchanged.
    pub fn elevate(&mut self, i: usize, e: usize) -> (raised: bool)
        requires
            old(self).wf(),
        ensures
            final(self).wf(),
            raised == (i < old(self)@.len() && crate::path::drawn_segment(
                old(self)@[i as int],
                e as int,
            ).is_some()),
            final(self)@ == (if i < old(self)@.len() {
                old(self)@.update(i as int, elevated(old(self)@[i as int], e as int))
            } else {
                old(self)@
            }),
    {
        if i >= self.paths.len() {
            return false;
        }
        assert(self.paths@[i as int]@ == self@[i as int]);
        let raised: bool = self.paths[i].elevate(e);
        assert(self@ =~= old(self)@.update(i as int, elevated(old(self)@[i as int], e as int)));
        raised
    }

    /// Whether path `i` exists and ends in a `Close`.
    pub fn closed(&self, i: usize) -> (b: bool)
        ensures
            b == (i < self@.len() && is_closed(self@[i as int])),
    {
        if i < self.paths.len() {
            assert(self.paths@[i as int]@ == self@[i as int]);
            self.paths[i].closed()
        } else {
            false
        }
    }
}

} // verus!
