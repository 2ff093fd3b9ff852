//! The sweep over intervals: admission, test, retirement.

use vstd::prelude::*;
use crate::arith::{floor_div, grid_ceil, grid_floor, lemma_grid_ceil, lemma_grid_floor};
use crate::segment::Span;
use crate::seqs::{lemma_push_fresh, lemma_push_holds, lemma_take_all, lemma_take_holds};

verus! {

/// Whether every interval is in order, `lo <= hi`.
pub open spec fn valid_spans(spans: Seq<Span>) -> bool {
    forall|i: int| 0 <= i < spans.len() ==> (#[trigger] spans[i]).wf()
}

/// The smallest interval that holds all of `spans`, which is not empty.
pub open spec fn hull(spans: Seq<Span>) -> Span
    decreases spans.len(),
{
    if spans.len() <= 1 {
        spans[0]
    } else {
        hull(spans.drop_last()).spec_join(spans.last())
    }
}

/// The first sweep line: the grid line at or next below the least `lo`.
pub open spec fn first_line(spans: Seq<Span>, pitch: int) -> int {
    grid_floor(hull(spans).lo as int, pitch)
}

/// The last sweep line: the grid line at or next above the greatest `hi`.
pub open spec fn last_line(spans: Seq<Span>, pitch: int) -> int {
    grid_ceil(hull(spans).hi as int, pitch)
}

/// Whether the sweep stops at `x`: the sweep lines are the grid lines from
/// the first to the last.
pub open spec fn is_sweep_line(spans: Seq<Span>, pitch: int, x: int) -> bool {
    spans.len() > 0 && first_line(spans, pitch) <= x <= last_line(spans, pitch) && x % pitch == 0
}

/// Whether an interval is tested at the sweep line `x`: it has begun by `x`
/// and had not ended before the sweep line before `x`.
pub open spec fn reaches(s: Span, x: int, pitch: int) -> bool {
    s.lo <= x && s.hi >= x - pitch
}

/// Whether no two of the intervals share a coordinate.
pub open spec fn pairwise_disjoint(spans: Seq<Span>) -> bool {
    forall|i: int, j: int|
        0 <= i < spans.len() && 0 <= j < spans.len() && i != j ==> (#[trigger] spans[i]).disjoint(
            #[trigger] spans[j],
        )
}

/// Whether any two of the intervals lie more than `pitch` apart.
pub open spec fn pairwise_apart(spans: Seq<Span>, pitch: int) -> bool {
    forall|i: int, j: int|
        0 <= i < spans.len() && 0 <= j < spans.len() && i != j ==> (#[trigger] spans[i]).hi + pitch
            < (#[trigger] spans[j]).lo || spans[j].hi + pitch < spans[i].lo
}

/// The hull holds every interval, and its ends are ends of intervals.
pub proof fn lemma_hull(spans: Seq<Span>)
    requires
        spans.len() > 0,
    ensures
        forall|i: int|
            0 <= i < spans.len() ==> hull(spans).lo <= (#[trigger] spans[i]).lo && spans[i].hi
                <= hull(spans).hi,
        exists|i: int| 0 <= i < spans.len() && spans[i].lo == hull(spans).lo,
        exists|i: int| 0 <= i < spans.len() && spans[i].hi == hull(spans).hi,
        valid_spans(spans) ==> hull(spans).wf(),
    decreases spans.len(),
{
    if spans.len() > 1 {
        let rest = spans.drop_last();
        lemma_hull(rest);
        let a = choose|i: int| 0 <= i < rest.len() && rest[i].lo == hull(rest).lo;
        let b = choose|i: int| 0 <= i < rest.len() && rest[i].hi == hull(rest).hi;
        assert(rest[a] == spans[a] && rest[b] == spans[b]);
        assert forall|i: int| 0 <= i < spans.len() implies hull(spans).lo <= (
        #[trigger] spans[i]).lo && spans[i].hi <= hull(spans).hi by {
            if i < rest.len() {
                assert(rest[i] == spans[i]);
            }
        }
        if hull(spans).lo == hull(rest).lo {
            assert(spans[a].lo == hull(spans).lo);
        } else {
            assert(spans[spans.len() - 1].lo == hull(spans).lo);
        }
        if hull(spans).hi == hull(rest).hi {
            assert(spans[b].hi == hull(spans).hi);
        } else {
            assert(spans[spans.len() - 1].hi == hull(spans).hi);
        }
        if valid_spans(spans) {
            assert(rest[a].wf());
        }
    } else {
        assert(spans[0].lo == hull(spans).lo);
        assert(spans[0].hi == hull(spans).hi);
    }
}

/// Whether the indices in `list` come in ascending order of the `lo` of
/// their intervals.
pub open spec fn ascending(spans: Seq<Span>, list: Seq<usize>) -> bool {
    forall|a: int, b: int|
        0 <= a <= b < list.len() ==> spans[(#[trigger] list[a]) as int].lo <= spans[(
        #[trigger] list[b]) as int].lo
}

/// Whether `order` lists the index `i`.
pub open spec fn lists(order: Seq<usize>, i: int) -> bool {
    exists|k: int| 0 <= k < order.len() && #[trigger] order[k] == i
}

/// Whether `order` lists the index `i` at a position from `from` up to, not
/// counting, `to`.
pub open spec fn lists_between(order: Seq<usize>, from: int, to: int, i: usize) -> bool {
    exists|k: int| from <= k < to && 0 <= k < order.len() && #[trigger] order[k] == i
}

/// Up to one position further, `order` lists what it listed, and the entry
/// at that position.
proof fn lemma_lists_one_more(order: Seq<usize>, from: int, to: int)
    requires
        0 <= from <= to < order.len(),
    ensures
        forall|i: usize| #[trigger]
            lists_between(order, from, to + 1, i) <==> lists_between(order, from, to, i)
                || order[to] == i,
{
    assert forall|i: usize| #[trigger]
        lists_between(order, from, to + 1, i) <==> lists_between(order, from, to, i) || order[to]
            == i by {
        if lists_between(order, from, to + 1, i) {
            let k = choose|k: int|
                from <= k < to + 1 && 0 <= k < order.len() && #[trigger] order[k] == i;
            if k < to {
                assert(from <= k < to && order[k] == i);
            }
        }
        if lists_between(order, from, to, i) {
            let k = choose|k: int| from <= k < to && 0 <= k < order.len() && #[trigger] order[k] == i;
            assert(from <= k < to + 1 && order[k] == i);
        }
        if order[to] == i {
            assert(from <= to < to + 1 && order[to] == i);
        }
    }
}

/// A list in ascending order, with an index appended whose `lo` is not
/// below any in the list, is in ascending order.
proof fn lemma_push_ascending(spans: Seq<Span>, list: Seq<usize>, v: usize)
    requires
        ascending(spans, list),
        forall|x: usize| #[trigger] list.contains(x) ==> spans[x as int].lo <= spans[v as int].lo,
    ensures
        ascending(spans, list.push(v)),
{
    let longer = list.push(v);
    assert forall|a: int, b: int| 0 <= a <= b < longer.len() implies spans[(
    #[trigger] longer[a]) as int].lo <= spans[(#[trigger] longer[b]) as int].lo by {
        if a < list.len() {
            assert(list.contains(list[a]));
            assert(longer[a] == list[a]);
        }
        if b < list.len() {
            assert(longer[b] == list[b]);
        }
    }
}

/// What a list in ascending order holds among its first `j` entries has a
/// `lo` not above that of entry `j`, and is not entry `j` where the list has
/// no repeats.
proof fn lemma_earlier_entries(spans: Seq<Span>, list: Seq<usize>, j: int)
    requires
        ascending(spans, list),
        0 <= j < list.len(),
    ensures
        forall|x: usize| #[trigger]
            list.take(j).contains(x) ==> spans[x as int].lo <= spans[list[j] as int].lo,
        list.no_duplicates() ==> !list.take(j).contains(list[j]),
        forall|x: usize| #[trigger] list.take(j).contains(x) ==> list.contains(x),
{
    assert forall|x: usize| #[trigger] list.take(j).contains(x) implies spans[x as int].lo
        <= spans[list[j] as int].lo && list.contains(x) && (list.no_duplicates() ==> x
        != list[j]) by {
        let k = choose|k: int| 0 <= k < list.take(j).len() && list.take(j)[k] == x;
        assert(list[k] == x);
        assert(spans[list[k] as int].lo <= spans[list[j] as int].lo);
    }
}

/// A sweep over intervals along one axis, stopping at the grid lines from
/// `first_line` to `last_line`.
///
/// At each line the sweep first admits the intervals that have begun, in
/// the order of their `lo`; the caller then tests the active ones against the
/// line; then the sweep retires those that end before the line. So the work
/// at a line is on the intervals near it, not on all of them.
pub struct Sweep {
    spans: Vec<Span>,
    /// The indices of `spans`, ordered by `lo`.
    order: Vec<usize>,
    /// How many entries of `order` have been admitted.
    admitted: usize,
    active: Vec<usize>,
    line: i64,
    last: i64,
    pitch: u32,
    retired: bool,
}

impl Sweep {
    /// The intervals swept, by index.
    pub closed spec fn spans(&self) -> Seq<Span> {
        self.spans@
    }

    /// The distance between two sweep lines.
    pub closed spec fn pitch(&self) -> int {
        self.pitch as int
    }

    /// The coordinate of the current sweep line. Before the first call of
    /// `next_line` it is one pitch before the first line.
    pub closed spec fn spec_line(&self) -> i64 {
        self.line
    }

    /// Whether the intervals that end before the current line are retired.
    pub closed spec fn spec_retired(&self) -> bool {
        self.retired
    }

    /// The indices of the active intervals.
    pub closed spec fn active_seq(&self) -> Seq<usize> {
        self.active@
    }

    /// What the sweep keeps for itself: the admission order and how far it
    /// has been used.
    pub closed spec fn bookkeeping(&self) -> bool {
        let n = self.spans@.len();
        &&& self.order@.len() == n
        &&& self.order@.no_duplicates()
        &&& forall|k: int| 0 <= k < n ==> (#[trigger] self.order@[k]) < n
        &&& ascending(self.spans@, self.order@)
        &&& forall|i: int| 0 <= i < n ==> #[trigger] lists(self.order@, i)
        &&& self.admitted <= n
        &&& forall|k: int|
            0 <= k < self.admitted ==> self.spans@[(#[trigger] self.order@[k]) as int].lo
                <= self.line
        &&& forall|k: int|
            self.admitted <= k < n ==> self.spans@[(#[trigger] self.order@[k]) as int].lo
                > self.line
        &&& n > 0 ==> self.last == last_line(self.spans@, self.pitch as int)
        &&& n == 0 ==> self.line == 0 && self.last == 0
    }

    /// The invariant of every sweep.
    ///
    /// The active intervals are known in closed form. Right after
    /// `next_line` they are the intervals that reach the line; after `retire`
    /// they are the intervals that cover it. They are listed in the order
    /// in which they were admitted, which is ascending in `lo`.
    pub open spec fn wf(&self) -> bool {
        let n = self.spans().len();
        &&& self.bookkeeping()
        &&& valid_spans(self.spans())
        &&& self.pitch() > 0
        &&& self.active_seq().no_duplicates()
        &&& ascending(self.spans(), self.active_seq())
        &&& forall|j: int|
            0 <= j < self.active_seq().len() ==> (#[trigger] self.active_seq()[j]) < n
        &&& forall|i: usize|
            i < n ==> (#[trigger] self.active_seq().contains(i) <==> if self.spec_retired() {
                self.spans()[i as int].covers(self.spec_line() as int)
            } else {
                reaches(self.spans()[i as int], self.spec_line() as int, self.pitch())
            })
        &&& n > 0 ==> {
            &&& first_line(self.spans(), self.pitch()) - self.pitch() <= self.spec_line()
                <= last_line(self.spans(), self.pitch())
            &&& (self.spec_line() as int) % self.pitch() == 0
        }
    }

    /// A sweep over `spans` with grid pitch `pitch`, placed before its first
    /// line, with nothing active.
    pub fn new(spans: Vec<Span>, pitch: u32) -> (s: Sweep)
        requires
            valid_spans(spans@),
            pitch > 0,
        ensures
            s.wf(),
            s.spans() == spans@,
            s.pitch() == pitch,
            s.spec_retired(),
            s.active_seq().len() == 0,
            spans@.len() > 0 ==> s.spec_line() == first_line(spans@, pitch as int) - pitch,
    {
        let n: usize = spans.len();
        let order: Vec<usize> = sorted_by_lo(&spans);
        if n == 0 {
            return Sweep {
                spans,
                order,
                admitted: 0,
                active: Vec::new(),
                line: 0,
                last: 0,
                pitch,
                retired: true,
            };
        }
        let bounds: Span = hull_of(&spans);
        proof {
            lemma_hull(spans@);
            lemma_grid_floor(bounds.lo as int, pitch as int);
            lemma_grid_ceil(bounds.hi as int, pitch as int);
        }
        let g: i128 = pitch as i128;
        let first: i128 = floor_div(bounds.lo as i128, g) * g;
        let last: i128 = -(floor_div(-(bounds.hi as i128), g) * g);
        let before: i128 = first - g;
        proof {
            let q = (bounds.lo as int) / (g as int);
            assert(before == (q - 1) * g + 0) by (nonlinear_arith)
                requires
                    before == q * g - g,
            ;
            vstd::arithmetic::div_mod::lemma_fundamental_div_mod_converse(
                before as int,
                g as int,
                q - 1,
                0,
            );
        }
        Sweep {
            spans,
            order,
            admitted: 0,
            active: Vec::new(),
            line: before as i64,
            last: last as i64,
            pitch,
            retired: true,
        }
    }

    /// The coordinate of the current sweep line.
    #[verifier::when_used_as_spec(spec_line)]
    pub fn line(&self) -> (x: i64)
        ensures
            x == self.spec_line(),
    {
        self.line
    }

    /// Whether the intervals that end before the current line are retired.
    #[verifier::when_used_as_spec(spec_retired)]
    pub fn retired(&self) -> (b: bool)
        ensures
            b == self.spec_retired(),
    {
        self.retired
    }

    /// The indices of the active intervals, each once.
    pub fn active(&self) -> (v: &Vec<usize>)
        ensures
            v@ == self.active_seq(),
    {
        &self.active
    }

    /// Drops the active intervals that end before the current line.
    fn drop_ended(&mut self)
        requires
            old(self).wf(),
        ensures
            final(self).wf(),
            final(self).retired,
            final(self).spans@ == old(self).spans@,
            final(self).order@ == old(self).order@,
            final(self).admitted == old(self).admitted,
            final(self).line == old(self).line,
            final(self).last == old(self).last,
            final(self).pitch == old(self).pitch,
            forall|i: usize|
                final(self).active@.contains(i) <==> old(self).active@.contains(i) && old(
                    self,
                ).spans@[i as int].hi >= old(self).line,
    {
        let mut kept: Vec<usize> = Vec::new();
        let mut j: usize = 0;
        while j < self.active.len()
            invariant
                *self == *old(self),
                self.wf(),
                0 <= j <= self.active.len(),
                kept@.no_duplicates(),
                ascending(self.spans@, kept@),
                forall|i: usize| #[trigger]
                    kept@.contains(i) <==> self.active@.take(j as int).contains(i)
                        && self.spans@[i as int].hi >= self.line,
            decreases self.active.len() - j,
        {
            let a: usize = self.active[j];
            assert(self.active_seq()[j as int] < self.spans().len());
            proof {
                lemma_take_holds(self.active@, j as int);
                lemma_earlier_entries(self.spans@, self.active@, j as int);
            }
            if self.spans[a].hi as i64 >= self.line {
                proof {
                    lemma_push_fresh(kept@, a);
                    lemma_push_holds(kept@, a);
                    lemma_push_ascending(self.spans@, kept@, a);
                }
                kept.push(a);
            }
            j += 1;
        }
        proof {
            lemma_take_all(self.active@);
            assert forall|m: int| 0 <= m < kept@.len() implies (#[trigger] kept@[m])
                < self.spans@.len() by {
                assert(kept@.contains(kept@[m]));
                let k = choose|k: int| 0 <= k < self.active@.len() && self.active@[k] == kept@[m];
                assert(self.active_seq()[k] < self.spans().len());
            }
            assert forall|i: usize| i < self.spans@.len() implies (#[trigger] kept@.contains(i)
                <==> self.spans@[i as int].covers(self.line as int)) by {
                assert(self.spans()[i as int].wf());
                assert(self.active_seq().contains(i) <==> if self.spec_retired() {
                    self.spans()[i as int].covers(self.spec_line() as int)
                } else {
                    reaches(self.spans()[i as int], self.spec_line() as int, self.pitch())
                });
            }
        }
        self.active = kept;
        self.retired = true;
    }

    /// Retires the active intervals that end before the current line. The
    /// ones left are those that cover the line.
    pub fn retire(&mut self)
        requires
            old(self).wf(),
        ensures
            final(self).wf(),
            final(self).spec_retired(),
            final(self).spans() == old(self).spans(),
            final(self).pitch() == old(self).pitch(),
            final(self).spec_line() == old(self).spec_line(),
            forall|i: usize|
                final(self).active_seq().contains(i) <==> old(self).active_seq().contains(i)
                    && old(self).spans()[i as int].hi >= old(self).spec_line(),
    {
        self.drop_ended();
    }

    /// Moves on to the next sweep line, where there is one, and admits the
    /// intervals that have begun by then. Returns whether there was a next
    /// line; where not, the sweep is unchanged.
    ///
    /// What was not retired at the line before is retired first. So the
    /// active intervals are those that reach the new line.
    pub fn next_line(&mut self) -> (more: bool)
        requires
            old(self).wf(),
        ensures
            final(self).wf(),
            final(self).spans() == old(self).spans(),
            final(self).pitch() == old(self).pitch(),
            more == (old(self).spans().len() > 0 && old(self).spec_line() + old(self).pitch()
                <= last_line(old(self).spans(), old(self).pitch())),
            more ==> final(self).spec_line() == old(self).spec_line() + old(self).pitch()
                && !final(self).spec_retired() && is_sweep_line(
                final(self).spans(),
                final(self).pitch(),
                final(self).spec_line() as int,
            ),
            !more ==> *final(self) == *old(self),
    {
        let n: usize = self.spans.len();
        if n == 0 {
            return false;
        }
        proof {
            lemma_hull(self.spans@);
            lemma_grid_ceil(hull(self.spans@).hi as int, self.pitch as int);
            lemma_grid_floor(hull(self.spans@).lo as int, self.pitch as int);
        }
        if self.line + (self.pitch as i64) > self.last {
            return false;
        }
        self.drop_ended();
        let ghost covered = self.active@;
        let ghost from = self.admitted;
        let ghost prev = self.line;
        let x: i64 = self.line + (self.pitch as i64);
        while self.admitted < n && self.spans[self.order[self.admitted]].lo as i64 <= x
            invariant
                n == self.spans@.len(),
                self.spans@ == old(self).spans@,
                self.pitch == old(self).pitch,
                self.last == old(self).last,
                self.order@ == old(self).order@,
                self.line == prev,
                self.retired,
                self.order@.len() == n,
                self.order@.no_duplicates(),
                ascending(self.spans@, self.order@),
                ascending(self.spans@, self.active@),
                forall|k: int|
                    from <= k < n ==> self.spans@[(#[trigger] self.order@[k]) as int].lo > prev,
                valid_spans(self.spans@),
                x == prev + self.pitch,
                self.pitch > 0,
                from <= self.admitted <= n,
                forall|k: int| 0 <= k < n ==> (#[trigger] self.order@[k]) < n,
                forall|k: int|
                    from <= k < self.admitted ==> prev < self.spans@[(
                    #[trigger] self.order@[k]) as int].lo <= x,
                forall|k: int|
                    0 <= k < from ==> self.spans@[(#[trigger] self.order@[k]) as int].lo <= prev,
                forall|i: usize|
                    i < n ==> (#[trigger] covered.contains(i) <==> self.spans@[i as int].covers(
                        prev as int,
                    )),
                self.active@.no_duplicates(),
                forall|j: int| 0 <= j < self.active@.len() ==> (#[trigger] self.active@[j]) < n,
                forall|i: usize|
                    #[trigger] self.active@.contains(i) <==> covered.contains(i) || lists_between(
                        self.order@,
                        from as int,
                        self.admitted as int,
                        i,
                    ),
            decreases n - self.admitted,
        {
            let a: usize = self.order[self.admitted];
            let ghost at = self.admitted as int;
            proof {
                lemma_lists_one_more(self.order@, from as int, at);
                assert(self.spans@[self.order@[at] as int].lo > prev);
                // what is active began no later than `a`, and is not `a`
                assert forall|i: usize| #[trigger] self.active@.contains(i) implies self.spans@[i as int].lo
                    <= self.spans@[a as int].lo && i != a by {
                    if covered.contains(i) {
                        assert(self.spans@[i as int].covers(prev as int));
                    } else {
                        let k = choose|k: int|
                            from <= k < at && 0 <= k < self.order@.len() && #[trigger] self.order@[k]
                                == i;
                        assert(self.spans@[self.order@[k] as int].lo
                            <= self.spans@[self.order@[at] as int].lo);
                    }
                }
                lemma_push_fresh(self.active@, a);
                lemma_push_holds(self.active@, a);
                lemma_push_ascending(self.spans@, self.active@, a);
            }
            self.active.push(a);
            self.admitted = self.admitted + 1;
        }
        self.line = x;
        self.retired = false;
        proof {
            let g = self.pitch as int;
            assert(x as int % g == 0) by {
                vstd::arithmetic::div_mod::lemma_fundamental_div_mod(prev as int, g);
                let q = prev as int / g;
                assert(x == (q + 1) * g + 0) by (nonlinear_arith)
                    requires
                        x == prev + g,
                        prev == g * q,
                ;
                vstd::arithmetic::div_mod::lemma_fundamental_div_mod_converse(
                    x as int,
                    g,
                    q + 1,
                    0,
                );
            }
            assert forall|i: usize| i < n implies (#[trigger] self.active@.contains(i) <==> reaches(
                self.spans@[i as int],
                x as int,
                g,
            )) by {
                let sp = self.spans@[i as int];
                assert(sp.wf());
                assert(lists(self.order@, i as int));
                let k = choose|k: int| 0 <= k < n && #[trigger] self.order@[k] == i as int;
                assert(covered.contains(i) <==> sp.covers(prev as int));
                if self.active@.contains(i) {
                    if !covered.contains(i) {
                        assert(lists_between(self.order@, from as int, self.admitted as int, i));
                        let k2 = choose|k2: int|
                            from <= k2 < self.admitted && 0 <= k2 < self.order@.len()
                                && #[trigger] self.order@[k2] == i;
                        assert(prev < self.spans@[self.order@[k2] as int].lo <= x);
                    }
                }
                if reaches(sp, x as int, g) {
                    if sp.lo <= prev {
                        assert(sp.covers(prev as int));
                    } else {
                        // begun after the line before: among the newly admitted
                        if k < from {
                            assert(self.spans@[self.order@[k] as int].lo <= prev);
                        }
                        if k >= self.admitted {
                            assert(self.admitted < n);
                            assert(self.spans@[self.order@[self.admitted as int] as int].lo
                                <= self.spans@[self.order@[k] as int].lo);
                        }
                        assert(from <= k < self.admitted && self.order@[k] == i);
                        assert(lists_between(self.order@, from as int, self.admitted as int, i));
                    }
                }
            }
            assert forall|k: int| self.admitted <= k < n implies self.spans@[(
            #[trigger] self.order@[k]) as int].lo > self.line by {
                assert(self.spans@[self.order@[self.admitted as int] as int].lo
                    <= self.spans@[self.order@[k] as int].lo);
            }
        }
        true
    }
}

/// Sweep order of two intervals: by `lo`, and by index where `lo` is equal.
spec fn comes_before(spans: Seq<Span>, i: usize, j: usize) -> bool {
    spans[i as int].lo < spans[j as int].lo || (spans[i as int].lo == spans[j as int].lo && i < j)
}

/// Whether each index in `list` comes before all that follow it.
spec fn in_sweep_order(spans: Seq<Span>, list: Seq<usize>) -> bool {
    forall|a: int, b: int|
        0 <= a < b < list.len() ==> comes_before(spans, #[trigger] list[a], #[trigger] list[b])
}

/// Whether `x` comes before every entry of `list` from position `from` on.
spec fn before_rest(spans: Seq<Span>, x: usize, list: Seq<usize>, from: int) -> bool {
    forall|k: int| from <= k < list.len() ==> comes_before(spans, x, #[trigger] list[k])
}

/// Merges two lists in sweep order into one. The indices of `left` lie
/// below `mid`, those of `right` at or above it.
fn merge(spans: &Vec<Span>, left: &Vec<usize>, right: &Vec<usize>, mid: usize) -> (out: Vec<usize>)
    requires
        in_sweep_order(spans@, left@),
        in_sweep_order(spans@, right@),
        forall|k: int| 0 <= k < left@.len() ==> (#[trigger] left@[k]) < mid,
        forall|k: int| 0 <= k < right@.len() ==> mid <= (#[trigger] right@[k]) < spans@.len(),
        mid <= spans@.len(),
        left@.len() + right@.len() <= usize::MAX,
    ensures
        out@.len() == left@.len() + right@.len(),
        in_sweep_order(spans@, out@),
        forall|x: usize| out@.contains(x) <==> left@.contains(x) || right@.contains(x),
{
    let mut out: Vec<usize> = Vec::new();
    let mut i: usize = 0;
    let mut j: usize = 0;
    while i < left.len() || j < right.len()
        invariant
            0 <= i <= left@.len(),
            0 <= j <= right@.len(),
            out@.len() == i + j,
            left@.len() + right@.len() <= usize::MAX,
            mid <= spans@.len(),
            in_sweep_order(spans@, left@),
            in_sweep_order(spans@, right@),
            forall|k: int| 0 <= k < left@.len() ==> (#[trigger] left@[k]) < mid,
            forall|k: int| 0 <= k < right@.len() ==> mid <= (#[trigger] right@[k]) < spans@.len(),
            in_sweep_order(spans@, out@),
            forall|a: int| 0 <= a < out@.len() ==> before_rest(spans@, #[trigger] out@[a], left@, i as int),
            forall|a: int| 0 <= a < out@.len() ==> before_rest(spans@, #[trigger] out@[a], right@, j as int),
            forall|x: usize|
                out@.contains(x) <==> left@.take(i as int).contains(x) || right@.take(
                    j as int,
                ).contains(x),
        decreases left@.len() - i + right@.len() - j,
    {
        let ghost prior = out@;
        let from_left: bool = j >= right.len() || (i < left.len() && spans[left[i]].lo
            <= spans[right[j]].lo);
        if from_left {
            let v: usize = left[i];
            proof {
                assert(before_rest(spans@, v, left@, i + 1));
                assert(before_rest(spans@, v, right@, j as int)) by {
                    assert forall|k: int| j <= k < right@.len() implies comes_before(
                        spans@,
                        v,
                        #[trigger] right@[k],
                    ) by {
                        if k > j {
                            assert(comes_before(spans@, right@[j as int], right@[k]));
                        }
                    }
                }
            }
            out.push(v);
            i += 1;
            proof {
                lemma_take_holds(left@, i - 1);
                lemma_push_holds(prior, v);
            }
        } else {
            let v: usize = right[j];
            proof {
                assert(before_rest(spans@, v, right@, j + 1));
                assert(before_rest(spans@, v, left@, i as int)) by {
                    assert forall|k: int| i <= k < left@.len() implies comes_before(
                        spans@,
                        v,
                        #[trigger] left@[k],
                    ) by {
                        if k > i {
                            assert(comes_before(spans@, left@[i as int], left@[k]));
                        }
                    }
                }
            }
            out.push(v);
            j += 1;
            proof {
                lemma_take_holds(right@, j - 1);
                lemma_push_holds(prior, v);
            }
        }
        proof {
            assert forall|a: int, b: int| 0 <= a < b < out@.len() implies comes_before(
                spans@,
                #[trigger] out@[a],
                #[trigger] out@[b],
            ) by {
                assert(out@[a] == prior[a]);
                if b < prior.len() {
                    assert(out@[b] == prior[b]);
                }
            }
            assert forall|a: int| 0 <= a < out@.len() implies before_rest(
                spans@,
                #[trigger] out@[a],
                left@,
                i as int,
            ) && before_rest(spans@, out@[a], right@, j as int) by {
                if a < prior.len() {
                    assert(out@[a] == prior[a]);
                }
            }
        }
    }
    proof {
        lemma_take_all(left@);
        lemma_take_all(right@);
    }
    out
}

/// The indices from `from` up to, not counting, `to`, in sweep order: a
/// merge sort.
fn sorted_range(spans: &Vec<Span>, from: usize, to: usize) -> (out: Vec<usize>)
    requires
        from <= to <= spans@.len(),
    ensures
        out@.len() == to - from,
        in_sweep_order(spans@, out@),
        forall|k: int| 0 <= k < out@.len() ==> from <= (#[trigger] out@[k]) < to,
        forall|x: usize| out@.contains(x) <==> from <= x < to,
    decreases to - from,
{
    if to - from <= 1 {
        let mut out: Vec<usize> = Vec::new();
        if to - from == 1 {
            out.push(from);
        }
        proof {
            assert forall|x: usize| out@.contains(x) <==> from <= x < to by {
                if from <= x < to {
                    assert(out@[0] == x);
                }
            }
        }
        return out;
    }
    let mid: usize = from + (to - from) / 2;
    let left: Vec<usize> = sorted_range(spans, from, mid);
    let right: Vec<usize> = sorted_range(spans, mid, to);
    let out: Vec<usize> = merge(spans, &left, &right, mid);
    proof {
        assert forall|k: int| 0 <= k < out@.len() implies from <= (#[trigger] out@[k]) < to by {
            assert(out@.contains(out@[k]));
        }
    }
    out
}

/// The indices of `spans`, ordered by `lo`; equal `lo` keep their order.
fn sorted_by_lo(spans: &Vec<Span>) -> (order: Vec<usize>)
    ensures
        order@.len() == spans@.len(),
        order@.no_duplicates(),
        forall|k: int| 0 <= k < order@.len() ==> (#[trigger] order@[k]) < spans@.len(),
        ascending(spans@, order@),
        forall|i: int| 0 <= i < spans@.len() ==> #[trigger] lists(order@, i),
{
    let order: Vec<usize> = sorted_range(spans, 0, spans.len());
    proof {
        assert forall|a: int, b: int| 0 <= a <= b < order@.len() implies spans@[(
        #[trigger] order@[a]) as int].lo <= spans@[(#[trigger] order@[b]) as int].lo by {
            if a < b {
                assert(comes_before(spans@, order@[a], order@[b]));
            }
        }
        assert forall|a: int, b: int|
            0 <= a < order@.len() && 0 <= b < order@.len() && a != b implies order@[a]
            != order@[b] by {
            if a < b {
                assert(comes_before(spans@, order@[a], order@[b]));
            } else {
                assert(comes_before(spans@, order@[b], order@[a]));
            }
        }
        assert forall|i: int| 0 <= i < spans@.len() implies #[trigger] lists(order@, i) by {
            assert(order@.contains(i as usize));
            let k = choose|k: int| 0 <= k < order@.len() && order@[k] == i as usize;
            assert(order@[k] == i);
        }
    }
    order
}

/// The smallest interval that holds all of `spans`.
fn hull_of(spans: &Vec<Span>) -> (h: Span)
    requires
        spans@.len() > 0,
    ensures
        h == hull(spans@),
{
    let mut h: Span = spans[0];
    let mut i: usize = 1;
    assert(spans@.subrange(0, 1)[0] == spans@[0]);
    while i < spans.len()
        invariant
            1 <= i <= spans.len(),
            h == hull(spans@.subrange(0, i as int)),
        decreases spans.len() - i,
    {
        assert(spans@.subrange(0, i + 1).drop_last() =~= spans@.subrange(0, i as int));
        h = h.join(spans[i]);
        i += 1;
    }
    assert(spans@.subrange(0, spans@.len() as int) =~= spans@);
    h
}

/// After `retire`, no two active intervals can share the line. So where no
/// two of the intervals share a coordinate, at most one is active.
pub proof fn disjoint_spans_one_active(sweep: &Sweep)
    requires
        sweep.wf(),
        sweep.spec_retired(),
        pairwise_disjoint(sweep.spans()),
    ensures
        sweep.active_seq().len() <= 1,
{
    let act = sweep.active_seq();
    if act.len() >= 2 {
        let a = act[0];
        let b = act[1];
        assert(act.contains(a) && act.contains(b));
        assert(sweep.spans()[a as int].covers(sweep.spec_line() as int));
        assert(sweep.spans()[b as int].covers(sweep.spec_line() as int));
        assert(sweep.spans()[a as int].disjoint(sweep.spans()[b as int]));
    }
}

/// Where any two of the intervals lie more than one pitch apart, at most
/// one is active at any time, before `retire` as well as after it.
pub proof fn apart_spans_one_active(sweep: &Sweep)
    requires
        sweep.wf(),
        pairwise_apart(sweep.spans(), sweep.pitch()),
    ensures
        sweep.active_seq().len() <= 1,
{
    let act = sweep.active_seq();
    if act.len() >= 2 {
        let a = act[0];
        let b = act[1];
        assert(act.contains(a) && act.contains(b));
        let sa = sweep.spans()[a as int];
        let sb = sweep.spans()[b as int];
        assert(sa.wf() && sb.wf());
        assert(sa.hi + sweep.pitch() < sb.lo || sb.hi + sweep.pitch() < sa.lo);
    }
}

} // verus!
