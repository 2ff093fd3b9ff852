//! The cells that a boundary crosses: straight edges intersected exactly,
//! curves through the crossings that the caller found for them.

use vstd::prelude::*;
use crate::arith::{floor_div, grid_floor, lemma_grid_floor};
use crate::cells::{Cell, CellSet};
use crate::path::{fitting, outline_segments, Path};
use crate::point::Point;
use crate::segment::{max2, min2, Segment, Span};
use crate::seqs::{
    lemma_push_fresh,
    lemma_push_holds,
    lemma_take_all,
    lemma_take_fresh,
    lemma_take_holds,
};
use crate::sweep::{is_sweep_line, reaches, valid_spans, Sweep};

verus! {

/// One test that the sweep asks for: segment `segment` against the sweep
/// line at `line`.
#[derive(Clone, Copy, Debug, PartialEq, Eq, Structural)]
pub struct Probe {
    pub segment: usize,
    pub line: i64,
}

/// One crossing of a curved segment with a sweep line, as found by whoever
/// intersects curves: segment `segment` meets the line at `line` at the
/// coordinate `at` along that line.
#[derive(Clone, Copy, Debug, PartialEq, Eq, Structural)]
pub struct Hit {
    pub segment: usize,
    pub line: i64,
    pub at: i32,
}

/// Whether the straight edge from `a` to `b` crosses the vertical line at
/// `x`. An edge that lies along the line does not cross it.
pub open spec fn edge_meets(a: Point, b: Point, x: int) -> bool {
    a.x != b.x && min2(a.x as int, b.x as int) <= x <= max2(a.x as int, b.x as int)
}

/// The ordinate at which the edge from `a` to `b` crosses the vertical line
/// at `x`, times the edge's width `|b.x - a.x|`.
pub open spec fn edge_height_scaled(a: Point, b: Point, x: int) -> int {
    if a.x < b.x {
        a.y * (b.x - a.x) + (x - a.x) * (b.y - a.y)
    } else {
        b.y * (a.x - b.x) + (x - b.x) * (a.y - b.y)
    }
}

/// The grid row of the point at which the edge from `a` to `b` crosses the
/// vertical line at `x`: the greatest multiple of `pitch` not above the
/// crossing's ordinate. The ordinate is taken exactly, as a fraction.
pub open spec fn edge_row(a: Point, b: Point, x: int, pitch: int) -> int {
    let width = max2(a.x as int, b.x as int) - min2(a.x as int, b.x as int);
    (edge_height_scaled(a, b, x) / (width * pitch)) * pitch
}

/// The row of a crossing is a grid line, the crossing lies in the row, and
/// the row is within one pitch of the edge's ordinates.
pub proof fn lemma_edge_row(a: Point, b: Point, x: int, pitch: int)
    requires
        edge_meets(a, b, x),
        pitch > 0,
    ensures
        ({
            let width = max2(a.x as int, b.x as int) - min2(a.x as int, b.x as int);
            let row = edge_row(a, b, x, pitch);
            &&& row % pitch == 0
            &&& row * width <= edge_height_scaled(a, b, x) < (row + pitch) * width
            &&& min2(a.y as int, b.y as int) - pitch < row <= max2(a.y as int, b.y as int)
        }),
{
    let width = max2(a.x as int, b.x as int) - min2(a.x as int, b.x as int);
    let h = edge_height_scaled(a, b, x);
    let q = h / (width * pitch);
    let row = q * pitch;
    assert(width * pitch > 0) by (nonlinear_arith)
        requires
            width > 0,
            pitch > 0,
    ;
    lemma_grid_floor(h, width * pitch);
    assert(q * (width * pitch) == row * width) by (nonlinear_arith)
        requires
            row == q * pitch,
    ;
    assert((row + pitch) * width == row * width + width * pitch) by (nonlinear_arith);
    vstd::arithmetic::div_mod::lemma_fundamental_div_mod_converse(row, pitch, q, 0);
    let lo = min2(a.y as int, b.y as int);
    let hi = max2(a.y as int, b.y as int);
    // the crossing's ordinate is between the ordinates of the ends
    let (l, r) = if a.x < b.x {
        (a, b)
    } else {
        (b, a)
    };
    let t = x - l.x;
    assert(lo * width <= h <= hi * width) by (nonlinear_arith)
        requires
            h == l.y * width + t * (r.y - l.y),
            0 <= t <= width,
            lo <= l.y <= hi,
            lo <= r.y <= hi,
    ;
    assert(row <= hi) by (nonlinear_arith)
        requires
            row * width <= h,
            h <= hi * width,
            width > 0,
    ;
    assert(lo - pitch < row) by (nonlinear_arith)
        requires
            lo * width <= h,
            h < (row + pitch) * width,
            width > 0,
    ;
}

/// The grid row in which the straight edge from `a` to `b` crosses the
/// vertical line at `x`, or `None` where it does not cross it.
pub fn edge_crossing(a: Point, b: Point, x: i64, pitch: u32) -> (r: Option<i64>)
    requires
        pitch > 0,
    ensures
        r is Some <==> edge_meets(a, b, x as int),
        r matches Some(row) ==> row == edge_row(a, b, x as int, pitch as int),
{
    if a.x == b.x {
        return None;
    }
    let (l, r) = if a.x < b.x {
        (a, b)
    } else {
        (b, a)
    };
    if x < l.x as i64 || x > r.x as i64 {
        return None;
    }
    let width: i128 = r.x as i128 - l.x as i128;
    let t: i128 = x as i128 - l.x as i128;
    let rise: i128 = r.y as i128 - l.y as i128;
    let g: i128 = pitch as i128;
    assert(-0x1_0000_0000_0000_0000 <= t * rise <= 0x1_0000_0000_0000_0000) by (nonlinear_arith)
        requires
            0 <= t <= 0x1_0000_0000,
            -0x1_0000_0000 <= rise <= 0x1_0000_0000,
    ;
    assert(-0x1_0000_0000_0000_0000 <= (l.y as int) * width <= 0x1_0000_0000_0000_0000)
        by (nonlinear_arith)
        requires
            0 <= width <= 0x1_0000_0000,
            -0x1_0000_0000 <= l.y <= 0x1_0000_0000,
    ;
    assert(0 < width * g <= 0x1_0000_0000_0000_0000) by (nonlinear_arith)
        requires
            0 < width <= 0x1_0000_0000,
            0 < g <= 0x1_0000_0000,
    ;
    let h: i128 = (l.y as i128) * width + t * rise;
    let q: i128 = floor_div(h, width * g);
    proof {
        lemma_edge_row(a, b, x as int, pitch as int);
        assert(edge_height_scaled(a, b, x as int) == h);
        assert(edge_row(a, b, x as int, pitch as int) == q * g);
    }
    let row: i128 = q * g;
    Some(row as i64)
}

/// The abscissa intervals of the segments, by index.
pub open spec fn spans_of(segs: Seq<Segment>) -> Seq<Span> {
    Seq::new(segs.len(), |i: int| segs[i].spec_x_span())
}

/// Whether the sweep over `spans` tests what `p` names: `p.line` is a sweep
/// line and the interval of `p.segment` reaches it.
pub open spec fn is_probe(spans: Seq<Span>, pitch: int, p: Probe) -> bool {
    p.segment < spans.len() && is_sweep_line(spans, pitch, p.line as int) && reaches(
        spans[p.segment as int],
        p.line as int,
        pitch,
    )
}

/// Whether `h` is a crossing of segment `i` with the line at `x`, in grid
/// row `row`.
pub open spec fn hit_gives(h: Hit, i: int, x: int, pitch: int, row: int) -> bool {
    h.segment == i && h.line == x && row == grid_floor(h.at as int, pitch)
}

/// Whether segment `i`, tested against the vertical line at `x`, is found to
/// cross it in grid row `row`. A straight edge is intersected exactly; for a
/// curve the crossings are those that `hits` lists for it at that line.
pub open spec fn crossing_row(
    seg: Segment,
    i: int,
    x: int,
    pitch: int,
    hits: Seq<Hit>,
    row: int,
) -> bool {
    match seg {
        Segment::Line(a, b) => edge_meets(a, b, x) && row == edge_row(a, b, x, pitch),
        _ => exists|m: int| 0 <= m < hits.len() && hit_gives(#[trigger] hits[m], i, x, pitch, row),
    }
}

/// Whether the test `p` finds a crossing in cell `c`.
pub open spec fn yields(segs: Seq<Segment>, pitch: int, hits: Seq<Hit>, p: Probe, c: Cell) -> bool {
    c.column == p.line && p.segment < segs.len() && crossing_row(
        segs[p.segment as int],
        p.segment as int,
        p.line as int,
        pitch,
        hits,
        c.row as int,
    )
}

/// Whether the column sweep over `segs` finds a crossing in cell `c`: one of
/// its tests yields `c`.
pub open spec fn is_column_cell(segs: Seq<Segment>, pitch: int, hits: Seq<Hit>, c: Cell) -> bool {
    exists|p: Probe| is_probe(spans_of(segs), pitch, p) && #[trigger] yields(segs, pitch, hits, p, c)
}

/// The sweep misses no crossing of a straight edge: where segment `i` is a
/// straight edge that crosses the grid line at `x`, the sweep tests it there.
pub proof fn edge_crossings_are_probed(segs: Seq<Segment>, pitch: int, i: usize, x: i64)
    requires
        pitch > 0,
        i < segs.len(),
        segs[i as int] matches Segment::Line(a, b) && edge_meets(a, b, x as int),
        (x as int) % pitch == 0,
    ensures
        is_probe(spans_of(segs), pitch, Probe { segment: i, line: x }),
{
    let spans = spans_of(segs);
    assert(spans[i as int] == segs[i as int].spec_x_span());
    crate::sweep::lemma_hull(spans);
    lemma_grid_floor(crate::sweep::hull(spans).lo as int, pitch);
    crate::arith::lemma_grid_ceil(crate::sweep::hull(spans).hi as int, pitch);
}

/// For straight edges the sweep finds what testing every edge against every
/// grid line would find: a cell is marked exactly where its column is a grid
/// line that some edge crosses in the cell's row.
pub proof fn sweep_of_edges_is_exhaustive(segs: Seq<Segment>, pitch: int, hits: Seq<Hit>, c: Cell)
    requires
        pitch > 0,
        forall|i: int| 0 <= i < segs.len() ==> #[trigger] segs[i] is Line,
    ensures
        is_column_cell(segs, pitch, hits, c) <==> (c.column as int) % pitch == 0 && exists|
            i: usize,
        |
            i < segs.len() && #[trigger] crossing_row(
                segs[i as int],
                i as int,
                c.column as int,
                pitch,
                hits,
                c.row as int,
            ),
{
    if is_column_cell(segs, pitch, hits, c) {
        let p = choose|p: Probe|
            is_probe(spans_of(segs), pitch, p) && #[trigger] yields(segs, pitch, hits, p, c);
        assert(p.segment < segs.len() && crossing_row(
            segs[p.segment as int],
            p.segment as int,
            c.column as int,
            pitch,
            hits,
            c.row as int,
        ));
    }
    if (c.column as int) % pitch == 0 && exists|i: usize|
        i < segs.len() && #[trigger] crossing_row(
            segs[i as int],
            i as int,
            c.column as int,
            pitch,
            hits,
            c.row as int,
        ) {
        let i = choose|i: usize|
            i < segs.len() && #[trigger] crossing_row(
                segs[i as int],
                i as int,
                c.column as int,
                pitch,
                hits,
                c.row as int,
            );
        assert(segs[i as int] is Line);
        edge_crossings_are_probed(segs, pitch, i, c.column);
        assert(yields(segs, pitch, hits, Probe { segment: i, line: c.column }, c));
    }
}

/// Two grid lines that differ lie at least one pitch apart.
proof fn lemma_grid_lines_apart(a: int, b: int, pitch: int)
    requires
        pitch > 0,
        a % pitch == 0,
        b % pitch == 0,
        a < b,
    ensures
        a + pitch <= b,
{
    vstd::arithmetic::div_mod::lemma_fundamental_div_mod(a, pitch);
    vstd::arithmetic::div_mod::lemma_fundamental_div_mod(b, pitch);
    let qa = a / pitch;
    let qb = b / pitch;
    assert(qa < qb) by (nonlinear_arith)
        requires
            pitch * qa < pitch * qb,
            pitch > 0,
    ;
    assert(pitch * qa + pitch <= pitch * qb) by (nonlinear_arith)
        requires
            qa + 1 <= qb,
            pitch > 0,
    ;
}

/// Whether the tests come line after line, in ascending order of `line`.
pub open spec fn by_line(probes: Seq<Probe>) -> bool {
    forall|a: int, b: int|
        0 <= a <= b < probes.len() ==> (#[trigger] probes[a]).line <= (#[trigger] probes[b]).line
}

/// Tests by line, with one appended whose line is not before any of
/// them, are by line.
proof fn lemma_push_by_line(probes: Seq<Probe>, p: Probe)
    requires
        by_line(probes),
        forall|q: Probe| #[trigger] probes.contains(q) ==> q.line <= p.line,
    ensures
        by_line(probes.push(p)),
{
    let longer = probes.push(p);
    assert forall|a: int, b: int| 0 <= a <= b < longer.len() implies (#[trigger] longer[a]).line
        <= (#[trigger] longer[b]).line by {
        if a < probes.len() {
            assert(probes.contains(probes[a]));
            assert(longer[a] == probes[a]);
        }
        if b < probes.len() {
            assert(longer[b] == probes[b]);
        }
    }
}

/// Every test of the sweep over `spans`: each sweep line with each interval
/// that is active when the sweep stops there, line after line.
pub fn sweep_probes(spans: Vec<Span>, pitch: u32) -> (probes: Vec<Probe>)
    requires
        valid_spans(spans@),
        pitch > 0,
    ensures
        probes@.no_duplicates(),
        by_line(probes@),
        forall|p: Probe| probes@.contains(p) <==> is_probe(spans@, pitch as int, p),
{
    let ghost sp = spans@;
    let ghost g = pitch as int;
    let mut sweep: Sweep = Sweep::new(spans, pitch);
    let mut probes: Vec<Probe> = Vec::new();
    loop
        invariant
            g == pitch,
            g > 0,
            sweep.wf(),
            sweep.spans() == sp,
            sweep.pitch() == g,
            probes@.no_duplicates(),
            by_line(probes@),
            forall|p: Probe| #[trigger]
                probes@.contains(p) <==> is_probe(sp, g, p) && p.line <= sweep.spec_line(),
        ensures
            forall|p: Probe| probes@.contains(p) <==> is_probe(sp, g, p),
            probes@.no_duplicates(),
            by_line(probes@),
        decreases crate::sweep::last_line(sp, g) - sweep.spec_line(),
    {
        let ghost before = sweep.spec_line();
        let more: bool = sweep.next_line();
        if !more {
            proof {
                assert forall|p: Probe| is_probe(sp, g, p) implies p.line <= sweep.spec_line() by {
                    if p.line > sweep.spec_line() {
                        lemma_grid_lines_apart(sweep.spec_line() as int, p.line as int, g);
                    }
                }
            }
            break ;
        }
        let x: i64 = sweep.line();
        let ghost done = probes@;
        let n: usize = sweep.active().len();
        let mut j: usize = 0;
        while j < n
            invariant
                sweep.wf(),
                !sweep.spec_retired(),
                x == sweep.spec_line(),
                n == sweep.active_seq().len(),
                0 <= j <= n,
                probes@.no_duplicates(),
                by_line(probes@),
                forall|p: Probe| #[trigger] done.contains(p) ==> p.line < x,
                forall|p: Probe| #[trigger]
                    probes@.contains(p) <==> done.contains(p) || (p.line == x
                        && sweep.active_seq().take(j as int).contains(p.segment)),
            decreases n - j,
        {
            let p = Probe { segment: sweep.active()[j], line: x };
            proof {
                lemma_take_holds(sweep.active_seq(), j as int);
                lemma_take_fresh(sweep.active_seq(), j as int);
                lemma_push_fresh(probes@, p);
                lemma_push_holds(probes@, p);
                lemma_push_by_line(probes@, p);
            }
            probes.push(p);
            j += 1;
        }
        proof {
            lemma_take_all(sweep.active_seq());
            assert forall|p: Probe| #[trigger]
                probes@.contains(p) <==> is_probe(sp, g, p) && p.line <= x by {
                if probes@.contains(p) && !done.contains(p) {
                    let k = choose|k: int|
                        0 <= k < sweep.active_seq().len() && sweep.active_seq()[k] == p.segment;
                    assert(sweep.active_seq()[k] < sp.len());
                }
                if is_probe(sp, g, p) && before < p.line <= x {
                    lemma_grid_lines_apart(before as int, p.line as int, g);
                    assert(sweep.active_seq().contains(p.segment));
                }
            }
        }
        sweep.retire();
    }
    probes
}

/// The abscissa interval of each segment.
fn spans_from(segs: &Vec<Segment>) -> (spans: Vec<Span>)
    requires
        fitting(segs@),
    ensures
        spans@ == spans_of(segs@),
        valid_spans(spans@),
{
    let mut spans: Vec<Span> = Vec::new();
    let mut i: usize = 0;
    while i < segs.len()
        invariant
            fitting(segs@),
            0 <= i <= segs.len(),
            spans@.len() == i,
            forall|k: int| 0 <= k < i ==> spans@[k] == (#[trigger] segs@[k]).spec_x_span(),
            valid_spans(spans@),
        decreases segs.len() - i,
    {
        spans.push(segs[i].x_span());
        i += 1;
    }
    assert(spans@ =~= spans_of(segs@));
    spans
}

/// The greatest multiple of `pitch` that is not above `v`.
pub fn grid_row(v: i32, pitch: u32) -> (row: i64)
    requires
        pitch > 0,
    ensures
        row == grid_floor(v as int, pitch as int),
{
    proof {
        lemma_grid_floor(v as int, pitch as int);
    }
    let q: i128 = floor_div(v as i128, pitch as i128);
    (q * (pitch as i128)) as i64
}

/// Puts into `cells` the cells that the test `p` yields.
fn probe_cells(
    segs: &Vec<Segment>,
    pitch: u32,
    hits: &Vec<Hit>,
    p: Probe,
    cells: &mut CellSet,
)
    requires
        pitch > 0,
        p.segment < segs@.len(),
        old(cells).wf(),
    ensures
        final(cells).wf(),
        forall|c: Cell| #[trigger]
            final(cells)@.contains(c) <==> old(cells)@.contains(c) || yields(
                segs@,
                pitch as int,
                hits@,
                p,
                c,
            ),
{
    match segs[p.segment] {
        Segment::Line(a, b) => {
            match edge_crossing(a, b, p.line, pitch) {
                Some(row) => {
                    cells.insert(Cell { column: p.line, row });
                },
                None => {},
            }
        },
        _ => {
            let ghost g = pitch as int;
            let mut m: usize = 0;
            while m < hits.len()
                invariant
                    g == pitch,
                    g > 0,
                    0 <= m <= hits.len(),
                    cells.wf(),
                    forall|c: Cell| #[trigger]
                        cells@.contains(c) <==> old(cells)@.contains(c) || (c.column == p.line
                            && exists|t: int|
                            0 <= t < m && hit_gives(
                                #[trigger] hits@[t],
                                p.segment as int,
                                p.line as int,
                                g,
                                c.row as int,
                            )),
                decreases hits.len() - m,
            {
                let h: Hit = hits[m];
                let ghost prior = cells@;
                if h.segment == p.segment && h.line == p.line {
                    let row: i64 = grid_row(h.at, pitch);
                    cells.insert(Cell { column: p.line, row });
                }
                assert forall|c: Cell| #[trigger]
                    cells@.contains(c) <==> old(cells)@.contains(c) || (c.column == p.line
                        && exists|t: int|
                        0 <= t < m + 1 && hit_gives(
                            #[trigger] hits@[t],
                            p.segment as int,
                            p.line as int,
                            g,
                            c.row as int,
                        )) by {
                    if cells@.contains(c) && !prior.contains(c) {
                        assert(hit_gives(
                            hits@[m as int],
                            p.segment as int,
                            p.line as int,
                            g,
                            c.row as int,
                        ));
                    }
                    if prior.contains(c) && !old(cells)@.contains(c) {
                        let t = choose|t: int|
                            0 <= t < m && hit_gives(
                                #[trigger] hits@[t],
                                p.segment as int,
                                p.line as int,
                                g,
                                c.row as int,
                            );
                        assert(0 <= t < m + 1 && hit_gives(
                            hits@[t],
                            p.segment as int,
                            p.line as int,
                            g,
                            c.row as int,
                        ));
                    }
                    if c.column == p.line && exists|t: int|
                        0 <= t < m + 1 && hit_gives(
                            #[trigger] hits@[t],
                            p.segment as int,
                            p.line as int,
                            g,
                            c.row as int,
                        ) {
                        let t = choose|t: int|
                            0 <= t < m + 1 && hit_gives(
                                #[trigger] hits@[t],
                                p.segment as int,
                                p.line as int,
                                g,
                                c.row as int,
                            );
                        if t < m {
                            assert(prior.contains(c));
                        }
                    }
                }
                m += 1;
            }
        },
    }
}

/// The cells in which the column sweep over `segs` finds a crossing.
///
/// The sweep stops at every grid line from the one at or next below the
/// least abscissa to the one at or next above the greatest. At each line it
/// tests the active segments. A straight edge is intersected exactly. For a
/// curve the crossings are taken from `hits`, which whoever intersects curves
/// has filled for the tests that `curve_probes` lists; where the segments are
/// all straight, `hits` plays no part. Each crossing marks the cell whose
/// column is the line and whose row holds the crossing.
pub fn column_cells(segs: &Vec<Segment>, pitch: u32, hits: &Vec<Hit>) -> (cells: CellSet)
    requires
        pitch > 0,
        fitting(segs@),
    ensures
        cells.wf(),
        forall|c: Cell| cells@.contains(c) <==> is_column_cell(segs@, pitch as int, hits@, c),
{
    let ghost g = pitch as int;
    let probes: Vec<Probe> = sweep_probes(spans_from(segs), pitch);
    let mut cells: CellSet = CellSet::new();
    let mut i: usize = 0;
    assert(spans_of(segs@).len() == segs@.len());
    while i < probes.len()
        invariant
            g == pitch,
            g > 0,
            0 <= i <= probes.len(),
            cells.wf(),
            spans_of(segs@).len() == segs@.len(),
            forall|p: Probe| probes@.contains(p) <==> is_probe(spans_of(segs@), g, p),
            forall|c: Cell| #[trigger]
                cells@.contains(c) <==> exists|p: Probe|
                    probes@.take(i as int).contains(p) && #[trigger] yields(segs@, g, hits@, p, c),
        decreases probes.len() - i,
    {
        let p: Probe = probes[i];
        proof {
            assert(probes@.contains(p));
            lemma_take_holds(probes@, i as int);
        }
        let ghost done = cells@;
        probe_cells(segs, pitch, hits, p, &mut cells);
        assert forall|c: Cell| #[trigger]
            cells@.contains(c) <==> exists|q: Probe|
                probes@.take(i + 1).contains(q) && #[trigger] yields(segs@, g, hits@, q, c) by {
            if done.contains(c) {
                let q = choose|q: Probe|
                    probes@.take(i as int).contains(q) && #[trigger] yields(segs@, g, hits@, q, c);
                assert(probes@.take(i + 1).contains(q));
            }
            if yields(segs@, g, hits@, p, c) {
                assert(probes@.take(i + 1).contains(p));
            }
            if exists|q: Probe|
                probes@.take(i + 1).contains(q) && #[trigger] yields(segs@, g, hits@, q, c) {
                let q = choose|q: Probe|
                    probes@.take(i + 1).contains(q) && #[trigger] yields(segs@, g, hits@, q, c);
                if q != p {
                    assert(probes@.take(i as int).contains(q));
                }
            }
        }
        i += 1;
    }
    proof {
        lemma_take_all(probes@);
    }
    cells
}

/// The tests of the column sweep over `segs` that fall on curves: the ones
/// whose crossings `column_cells` takes from its `hits`.
pub fn curve_probes(segs: &Vec<Segment>, pitch: u32) -> (probes: Vec<Probe>)
    requires
        pitch > 0,
        fitting(segs@),
    ensures
        forall|p: Probe|
            probes@.contains(p) <==> is_probe(spans_of(segs@), pitch as int, p) && !(
            segs@[p.segment as int] is Line),
{
    let all: Vec<Probe> = sweep_probes(spans_from(segs), pitch);
    let mut probes: Vec<Probe> = Vec::new();
    let mut i: usize = 0;
    assert(spans_of(segs@).len() == segs@.len());
    while i < all.len()
        invariant
            0 <= i <= all.len(),
            spans_of(segs@).len() == segs@.len(),
            forall|p: Probe| all@.contains(p) <==> is_probe(spans_of(segs@), pitch as int, p),
            forall|p: Probe| #[trigger]
                probes@.contains(p) <==> all@.take(i as int).contains(p) && !(
                segs@[p.segment as int] is Line),
        decreases all.len() - i,
    {
        let p: Probe = all[i];
        proof {
            assert(all@.contains(p));
            lemma_take_holds(all@, i as int);
        }
        let curved: bool = match segs[p.segment] {
            Segment::Line(_, _) => false,
            _ => true,
        };
        if curved {
            proof {
                lemma_push_holds(probes@, p);
            }
            probes.push(p);
        }
        i += 1;
    }
    proof {
        lemma_take_all(all@);
    }
    probes
}

/// The segments mirrored in the diagonal, by index.
pub open spec fn transposed(segs: Seq<Segment>) -> Seq<Segment> {
    Seq::new(segs.len(), |i: int| segs[i].spec_transpose())
}

/// Each segment mirrored in the diagonal: what the row sweep runs on.
pub fn transpose_segments(segs: &Vec<Segment>) -> (out: Vec<Segment>)
    ensures
        out@ == transposed(segs@),
        fitting(segs@) ==> fitting(out@),
{
    let mut out: Vec<Segment> = Vec::new();
    let mut i: usize = 0;
    while i < segs.len()
        invariant
            0 <= i <= segs.len(),
            out@.len() == i,
            forall|k: int| 0 <= k < i ==> out@[k] == (#[trigger] segs@[k]).spec_transpose(),
        decreases segs.len() - i,
    {
        out.push(segs[i].transpose());
        i += 1;
    }
    assert(out@ =~= transposed(segs@));
    out
}

/// Whether the row sweep over `segs` finds a crossing in cell `c`: the
/// column sweep over the mirrored segments finds one in the mirrored cell.
pub open spec fn is_row_cell(segs: Seq<Segment>, pitch: int, hits: Seq<Hit>, c: Cell) -> bool {
    is_column_cell(transposed(segs), pitch, hits, Cell { column: c.row, row: c.column })
}


/// The cell mirrored in the diagonal.
pub open spec fn mirrored(c: Cell) -> Cell {
    Cell { column: c.row, row: c.column }
}

/// The cells in which the row sweep over `segs` finds a crossing. It is the
/// column sweep with the axes exchanged: the sweep lines are horizontal, a
/// hit's `line` is an ordinate and its `at` an abscissa.
pub fn row_cells(segs: &Vec<Segment>, pitch: u32, hits: &Vec<Hit>) -> (cells: CellSet)
    requires
        pitch > 0,
        fitting(segs@),
    ensures
        cells.wf(),
        forall|c: Cell| cells@.contains(c) <==> is_row_cell(segs@, pitch as int, hits@, c),
{
    let turned: Vec<Segment> = transpose_segments(segs);
    let found: CellSet = column_cells(&turned, pitch, hits);
    let list: &Vec<Cell> = found.cells();
    let mut cells: CellSet = CellSet::new();
    let mut i: usize = 0;
    while i < list.len()
        invariant
            0 <= i <= list.len(),
            cells.wf(),
            forall|c: Cell| #[trigger]
                cells@.contains(c) <==> list@.take(i as int).contains(mirrored(c)),
        decreases list.len() - i,
    {
        let d: Cell = list[i];
        proof {
            lemma_take_holds(list@, i as int);
        }
        cells.insert(Cell { column: d.row, row: d.column });
        assert forall|c: Cell| #[trigger]
            cells@.contains(c) <==> list@.take(i + 1).contains(mirrored(c)) by {
            assert(mirrored(c) == d <==> c == mirrored(d));
        }
        i += 1;
    }
    proof {
        lemma_take_all(list@);
        assert forall|c: Cell| cells@.contains(c) <==> is_row_cell(
            segs@,
            pitch as int,
            hits@,
            c,
        ) by {
            assert(list@.contains(mirrored(c)) <==> found@.contains(mirrored(c)));
        }
    }
    cells
}

/// Whether the boundary of the path `els` crosses a grid line in cell `c`:
/// the column sweep or the row sweep over the path's outline finds a
/// crossing there.
pub open spec fn is_crossed(
    els: Seq<crate::element::PathElement>,
    pitch: int,
    column_hits: Seq<Hit>,
    row_hits: Seq<Hit>,
    c: Cell,
) -> bool {
    is_column_cell(outline_segments(els), pitch, column_hits, c) || is_row_cell(
        outline_segments(els),
        pitch,
        row_hits,
        c,
    )
}

/// The grid cells in which the boundary of `path` crosses a grid line of
/// pitch `pitch`.
///
/// The path is taken as closed, without being changed. Its outline is swept
/// by columns and by rows, and a cell is crossed where either sweep finds a
/// crossing. Segment indices in the hits count the segments of
/// `path.outline()`.
pub fn crossed_cells(
    path: &Path,
    pitch: u32,
    column_hits: &Vec<Hit>,
    row_hits: &Vec<Hit>,
) -> (cells: CellSet)
    requires
        pitch > 0,
        path.wf(),
    ensures
        cells.wf(),
        forall|c: Cell|
            cells@.contains(c) <==> is_crossed(path@, pitch as int, column_hits@, row_hits@, c),
{
    let segs: Vec<Segment> = path.outline();
    let mut cells: CellSet = column_cells(&segs, pitch, column_hits);
    let rows: CellSet = row_cells(&segs, pitch, row_hits);
    cells.merge(&rows);
    cells
}

} // verus!
