use bezgrid::raster::{
    column_cells, crossed_cells, curve_probes, edge_crossing, row_cells, transpose_segments, Hit,
    Probe,
};
use bezgrid::{Cell, CellSet, Fine, Path, PathElement, Point, Segment};

fn pt(x: i32, y: i32) -> Point {
    Point::new(x, y)
}

/// The position of the lattice point `(x, y)`, in thirds.
fn at(x: i32, y: i32) -> Fine {
    Point::new(x, y).fine()
}

fn sorted(mut v: Vec<i64>) -> Vec<i64> {
    v.sort();
    v
}

fn square() -> Path {
    Path::from_elements(vec![
        PathElement::Move(pt(0, 0)),
        PathElement::Line(pt(40, 0)),
        PathElement::Line(pt(40, 40)),
        PathElement::Line(pt(0, 40)),
        PathElement::Close,
    ])
    .unwrap()
}

fn columns_of(cells: &CellSet) -> Vec<i64> {
    let mut cols: Vec<i64> = cells.cells().iter().map(|c| c.column).collect();
    cols.sort();
    cols.dedup();
    cols
}

#[test]
fn edge_crossing_is_exact() {
    // y = x / 2
    assert_eq!(edge_crossing(pt(0, 0), pt(10, 5), 4, 1), Some(2));
    assert_eq!(edge_crossing(pt(0, 0), pt(10, 5), 5, 1), Some(2));
    assert_eq!(edge_crossing(pt(0, 0), pt(10, 5), 9, 5), Some(0));
    assert_eq!(edge_crossing(pt(0, 0), pt(10, 5), 10, 5), Some(5));
    // the same edge, drawn the other way
    assert_eq!(edge_crossing(pt(10, 5), pt(0, 0), 5, 1), Some(2));
    assert_eq!(edge_crossing(pt(10, 5), pt(0, 0), 10, 5), Some(5));
}

#[test]
fn edge_crossing_floors_negative_ordinates() {
    // y = -x / 3
    assert_eq!(edge_crossing(pt(0, 0), pt(3, -1), 1, 1), Some(-1));
    assert_eq!(edge_crossing(pt(0, 0), pt(3, -1), 1, 5), Some(-5));
    assert_eq!(edge_crossing(pt(0, 0), pt(3, -1), 0, 5), Some(0));
    assert_eq!(edge_crossing(pt(0, 0), pt(3, -1), 3, 1), Some(-1));
    assert_eq!(edge_crossing(pt(-3, -7), pt(-1, -7), -2, 5), Some(-10));
}

#[test]
fn edge_crossing_needs_the_line_between_the_ends() {
    assert_eq!(edge_crossing(pt(0, 0), pt(10, 5), -1, 5), None);
    assert_eq!(edge_crossing(pt(0, 0), pt(10, 5), 11, 5), None);
    assert_eq!(edge_crossing(pt(0, 0), pt(10, 5), i64::MIN, 5), None);
    assert_eq!(edge_crossing(pt(0, 0), pt(10, 5), i64::MAX, 5), None);
    assert_eq!(edge_crossing(pt(0, 0), pt(10, 5), 0, 5), Some(0));
}

#[test]
fn edge_along_the_line_does_not_cross_it() {
    assert_eq!(edge_crossing(pt(5, 0), pt(5, 40), 5, 5), None);
    assert_eq!(edge_crossing(pt(5, 7), pt(5, 7), 5, 5), None);
}

#[test]
fn edge_crossing_does_not_overflow_at_the_extremes() {
    let a = pt(i32::MIN, i32::MIN);
    let b = pt(i32::MAX, i32::MAX);
    assert_eq!(edge_crossing(a, b, 0, 1), Some(0));
    assert_eq!(edge_crossing(a, b, i32::MAX as i64, 1), Some(i32::MAX as i64));
    assert_eq!(edge_crossing(a, b, i32::MIN as i64, u32::MAX), Some(-(u32::MAX as i64)));
    let c = pt(i32::MIN, i32::MAX);
    let d = pt(i32::MAX, i32::MIN);
    assert_eq!(edge_crossing(c, d, -1, 1), Some(0));
    assert_eq!(edge_crossing(c, d, 0, 1), Some(-1));
}

#[test]
fn column_sweep_of_the_square_marks_top_and_bottom_at_its_sides() {
    let segs = square().outline();
    assert_eq!(segs.len(), 4);
    let cells = column_cells(&segs, 5, &vec![]);
    // the left and right sides lie along their grid lines; top and bottom cross them
    assert_eq!(sorted(cells.rows_at(0)), vec![0, 40]);
    assert_eq!(sorted(cells.rows_at(40)), vec![0, 40]);
    assert!(cells.contains(Cell { column: 0, row: 0 }));
    assert!(cells.contains(Cell { column: 40, row: 40 }));
    assert!(!cells.contains(Cell { column: 0, row: 5 }));
    assert!(!cells.contains(Cell { column: 40, row: 20 }));
}

#[test]
fn column_sweep_of_the_square_stops_at_every_grid_line() {
    let cells = column_cells(&square().outline(), 5, &vec![]);
    assert_eq!(columns_of(&cells), vec![0, 5, 10, 15, 20, 25, 30, 35, 40]);
    for x in columns_of(&cells) {
        assert_eq!(sorted(cells.rows_at(x)), vec![0, 40]);
    }
    assert_eq!(cells.len(), 18);
    assert!(cells.rows_at(45).is_empty());
    assert!(cells.rows_at(-5).is_empty());
    assert!(cells.rows_at(3).is_empty());
}

#[test]
fn row_sweep_of_the_square_marks_left_and_right() {
    let cells = row_cells(&square().outline(), 5, &vec![]);
    assert_eq!(cells.len(), 18);
    assert_eq!(columns_of(&cells), vec![0, 40]);
    assert_eq!(sorted(cells.rows_at(0)), vec![0, 5, 10, 15, 20, 25, 30, 35, 40]);
    assert_eq!(sorted(cells.rows_at(40)), vec![0, 5, 10, 15, 20, 25, 30, 35, 40]);
}

#[test]
fn crossed_cells_is_the_union_of_both_sweeps() {
    let cells = crossed_cells(&square(), 5, &vec![], &vec![]);
    // 18 + 18, the four corners counted once
    assert_eq!(cells.len(), 32);
    assert!(cells.contains(Cell { column: 0, row: 20 }));
    assert!(cells.contains(Cell { column: 20, row: 0 }));
    assert!(cells.contains(Cell { column: 40, row: 40 }));
    assert!(!cells.contains(Cell { column: 20, row: 20 }));
}

#[test]
fn crossed_cells_closes_an_open_path_for_the_sweep_only() {
    let open = Path::from_elements(vec![
        PathElement::Move(pt(0, 0)),
        PathElement::Line(pt(40, 0)),
        PathElement::Line(pt(40, 40)),
        PathElement::Line(pt(0, 40)),
    ])
    .unwrap();
    let cells = crossed_cells(&open, 5, &vec![], &vec![]);
    assert_eq!(cells.len(), 32);
    assert!(cells.contains(Cell { column: 0, row: 20 }));
    assert!(!open.closed());
    assert_eq!(open.len(), 4);
}

#[test]
fn crossed_cells_of_an_empty_or_single_point_path_is_empty() {
    assert_eq!(crossed_cells(&Path::new(), 5, &vec![], &vec![]).len(), 0);
    let dot = Path::from_elements(vec![PathElement::Move(pt(3, 3))]).unwrap();
    assert_eq!(crossed_cells(&dot, 5, &vec![], &vec![]).len(), 0);
}

#[test]
fn a_slanted_edge_is_binned_by_the_row_that_holds_the_crossing() {
    // y = 3 x / 4 from (0, 0) to (20, 15)
    let segs = vec![Segment::Line(pt(0, 0), pt(20, 15))];
    let cells = column_cells(&segs, 5, &vec![]);
    let mut got: Vec<(i64, i64)> = cells.cells().iter().map(|c| (c.column, c.row)).collect();
    got.sort();
    // crossings at 0, 3.75, 7.5, 11.25, 15
    assert_eq!(got, vec![(0, 0), (5, 0), (10, 5), (15, 10), (20, 15)]);
    let rows = row_cells(&segs, 5, &vec![]);
    let mut got: Vec<(i64, i64)> = rows.cells().iter().map(|c| (c.column, c.row)).collect();
    got.sort();
    // x = 4 y / 3: crossings at 0, 6.67, 13.33, 20
    assert_eq!(got, vec![(0, 0), (5, 5), (10, 10), (20, 15)]);
}

#[test]
fn edges_off_the_grid_are_swept_from_floor_to_ceil() {
    // from (-7, 2) to (7, 2): lines at -10, -5, 0, 5, 10; the edge meets the inner three
    let cells = column_cells(&vec![Segment::Line(pt(-7, 2), pt(7, 2))], 5, &vec![]);
    let mut got: Vec<(i64, i64)> = cells.cells().iter().map(|c| (c.column, c.row)).collect();
    got.sort();
    assert_eq!(got, vec![(-5, 0), (0, 0), (5, 0)]);
}

#[test]
fn two_edges_over_the_same_interval_are_both_tested() {
    let segs = vec![
        Segment::Line(pt(0, 0), pt(40, 0)),
        Segment::Line(pt(40, 40), pt(0, 40)),
    ];
    let cells = column_cells(&segs, 20, &vec![]);
    assert_eq!(cells.len(), 6);
    assert_eq!(sorted(cells.rows_at(20)), vec![0, 40]);
}

#[test]
fn crossings_in_one_cell_are_held_once() {
    let segs = vec![
        Segment::Line(pt(0, 1), pt(10, 1)),
        Segment::Line(pt(0, 2), pt(10, 2)),
    ];
    let cells = column_cells(&segs, 5, &vec![]);
    assert_eq!(cells.len(), 3);
    assert_eq!(cells.rows_at(5), vec![0]);
}

#[test]
fn curve_probes_list_the_tests_on_curves() {
    let segs = vec![
        Segment::Line(pt(0, 0), pt(10, 0)),
        Segment::Quad(pt(10, 0), pt(15, 10), pt(20, 0)),
    ];
    let mut probes = curve_probes(&segs, 5);
    probes.sort_by_key(|p| (p.line, p.segment));
    assert_eq!(
        probes,
        vec![
            Probe { segment: 1, line: 10 },
            Probe { segment: 1, line: 15 },
            Probe { segment: 1, line: 20 },
        ]
    );
    assert!(curve_probes(&vec![Segment::Line(pt(0, 0), pt(10, 0))], 5).is_empty());
}

#[test]
fn curve_hits_are_binned_where_the_sweep_asked_for_them() {
    let segs = vec![
        Segment::Line(pt(0, 0), pt(10, 0)),
        Segment::Quad(pt(10, 0), pt(15, 10), pt(20, 0)),
    ];
    let hits = vec![
        Hit { segment: 1, line: 15, at: 5 },
        Hit { segment: 1, line: 15, at: 7 },
        Hit { segment: 1, line: 20, at: -1 },
        // not a sweep line
        Hit { segment: 1, line: 17, at: 3 },
        // a sweep line that the curve does not reach
        Hit { segment: 1, line: 0, at: 3 },
        // a straight edge takes no hits
        Hit { segment: 0, line: 5, at: 33 },
        // no such segment
        Hit { segment: 2, line: 15, at: 44 },
    ];
    let cells = column_cells(&segs, 5, &hits);
    let mut got: Vec<(i64, i64)> = cells.cells().iter().map(|c| (c.column, c.row)).collect();
    got.sort();
    assert_eq!(got, vec![(0, 0), (5, 0), (10, 0), (15, 5), (20, -5)]);
}

#[test]
fn row_hits_name_an_ordinate_and_give_an_abscissa() {
    let segs = vec![Segment::Cubic(pt(0, 0), at(0, 10), at(10, 10), pt(10, 0))];
    let mirrored = transpose_segments(&segs);
    assert_eq!(mirrored, vec![Segment::Cubic(pt(0, 0), at(10, 0), at(10, 10), pt(0, 10))]);
    let mut probes = curve_probes(&mirrored, 5);
    probes.sort_by_key(|p| p.line);
    assert_eq!(
        probes,
        vec![
            Probe { segment: 0, line: 0 },
            Probe { segment: 0, line: 5 },
            Probe { segment: 0, line: 10 },
        ]
    );
    let hits = vec![Hit { segment: 0, line: 5, at: 1 }, Hit { segment: 0, line: 5, at: 9 }];
    let cells = row_cells(&segs, 5, &hits);
    let mut got: Vec<(i64, i64)> = cells.cells().iter().map(|c| (c.column, c.row)).collect();
    got.sort();
    assert_eq!(got, vec![(0, 5), (5, 5)]);
}

#[test]
fn cell_set_holds_each_cell_once() {
    let mut s = CellSet::new();
    assert_eq!(s.len(), 0);
    assert!(s.insert(Cell { column: 5, row: 10 }));
    assert!(!s.insert(Cell { column: 5, row: 10 }));
    assert!(s.insert(Cell { column: 10, row: 5 }));
    assert!(s.insert(Cell { column: 5, row: 0 }));
    assert_eq!(s.len(), 3);
    assert!(s.contains(Cell { column: 10, row: 5 }));
    assert!(!s.contains(Cell { column: 10, row: 10 }));
    assert_eq!(s.rows_at(5), vec![10, 0]);
    assert_eq!(s.rows_at(10), vec![5]);
    assert!(s.rows_at(0).is_empty());
    assert_eq!(
        s.cells(),
        &vec![
            Cell { column: 5, row: 10 },
            Cell { column: 10, row: 5 },
            Cell { column: 5, row: 0 }
        ]
    );
}

#[test]
fn cell_set_merge_is_the_union() {
    let mut a = CellSet::new();
    a.insert(Cell { column: 0, row: 0 });
    a.insert(Cell { column: 5, row: 0 });
    let mut b = CellSet::new();
    b.insert(Cell { column: 5, row: 0 });
    b.insert(Cell { column: 5, row: 5 });
    a.merge(&b);
    assert_eq!(a.len(), 3);
    assert!(a.contains(Cell { column: 0, row: 0 }));
    assert!(a.contains(Cell { column: 5, row: 0 }));
    assert!(a.contains(Cell { column: 5, row: 5 }));
    assert_eq!(b.len(), 2);
}

#[test]
fn cell_set_holds_many_cells_once_each() {
    let mut s = CellSet::new();
    for round in 0..3 {
        for column in -40..40i64 {
            for row in -40..40i64 {
                let added = s.insert(Cell { column: column * 5, row: row * 5 });
                assert_eq!(added, round == 0);
            }
        }
    }
    assert_eq!(s.len(), 80 * 80);
    assert!(s.contains(Cell { column: -200, row: 195 }));
    assert!(!s.contains(Cell { column: -200, row: 200 }));
    assert!(!s.contains(Cell { column: 195, row: -201 }));
    assert_eq!(s.rows_at(0).len(), 80);
}

#[test]
fn cell_set_tells_cells_at_the_extremes_apart() {
    let corners = [
        Cell { column: i64::MIN, row: i64::MIN },
        Cell { column: i64::MIN, row: i64::MAX },
        Cell { column: i64::MAX, row: i64::MIN },
        Cell { column: i64::MAX, row: i64::MAX },
        Cell { column: 0, row: i64::MIN },
        Cell { column: -1, row: i64::MAX },
        Cell { column: 0, row: 0 },
        Cell { column: 1, row: -1 },
    ];
    let mut s = CellSet::new();
    for c in corners {
        assert!(!s.contains(c));
        assert!(s.insert(c));
        assert!(s.contains(c));
    }
    assert_eq!(s.len(), corners.len());
    for c in corners {
        assert!(!s.insert(c));
    }
}
