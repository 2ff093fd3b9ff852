use bezgrid::{Fine, Point, Segment, Span};

fn pt(x: i32, y: i32) -> Point {
    Point::new(x, y)
}

/// The position of the lattice point `(x, y)`, in thirds.
fn at(x: i32, y: i32) -> Fine {
    Point::new(x, y).fine()
}

fn fine(x: i64, y: i64) -> Fine {
    Fine { x, y }
}

#[test]
fn point_transpose_swaps_coordinates() {
    assert_eq!(pt(3, -7).transpose(), pt(-7, 3));
}

#[test]
fn span_between_orders_its_ends() {
    assert_eq!(Span::between(5, -2), Span { lo: -2, hi: 5 });
    assert_eq!(Span::between(-2, 5), Span { lo: -2, hi: 5 });
    assert_eq!(Span::between(4, 4), Span { lo: 4, hi: 4 });
    assert_eq!(Span::between(0, 3).join(Span::between(-5, 1)), Span { lo: -5, hi: 3 });
}

#[test]
fn segment_ends() {
    let l = Segment::Line(pt(0, 1), pt(2, 3));
    let q = Segment::Quad(pt(0, 1), pt(9, 9), pt(2, 3));
    let c = Segment::Cubic(pt(0, 1), at(9, 9), at(8, 8), pt(2, 3));
    for s in [l, q, c] {
        assert_eq!(s.start(), pt(0, 1));
        assert_eq!(s.end(), pt(2, 3));
    }
}

#[test]
fn segment_spans_cover_all_control_points() {
    let l = Segment::Line(pt(7, 1), pt(2, 3));
    assert_eq!(l.x_span(), Span { lo: 2, hi: 7 });
    assert_eq!(l.y_span(), Span { lo: 1, hi: 3 });
    let q = Segment::Quad(pt(0, 0), pt(5, 10), pt(10, 0));
    assert_eq!(q.x_span(), Span { lo: 0, hi: 10 });
    assert_eq!(q.y_span(), Span { lo: 0, hi: 10 });
    let c = Segment::Cubic(pt(0, 0), at(-4, 3), at(12, -6), pt(10, 0));
    assert_eq!(c.x_span(), Span { lo: -4, hi: 12 });
    assert_eq!(c.y_span(), Span { lo: -6, hi: 3 });
    // control points between lattice lines widen the span to the next line
    let d = Segment::Cubic(pt(0, 0), fine(-13, 10), fine(37, -19), pt(10, 0));
    assert_eq!(d.x_span(), Span { lo: -5, hi: 13 });
    assert_eq!(d.y_span(), Span { lo: -7, hi: 4 });
    let e = Segment::Cubic(pt(0, 0), fine(1, 2), fine(2, 1), pt(0, 0));
    assert_eq!(e.x_span(), Span { lo: 0, hi: 1 });
    assert_eq!(e.y_span(), Span { lo: 0, hi: 1 });
}

#[test]
fn segment_transpose_swaps_every_point() {
    let c = Segment::Cubic(pt(0, 1), at(2, 3), at(4, 5), pt(6, 7));
    assert_eq!(c.transpose(), Segment::Cubic(pt(1, 0), at(3, 2), at(5, 4), pt(7, 6)));
    assert_eq!(c.transpose().transpose(), c);
}

#[test]
fn line_to_cubic_puts_the_control_points_at_the_thirds() {
    let l = Segment::Line(pt(0, 30), pt(30, -60));
    assert_eq!(l.to_cubic(), Segment::Cubic(pt(0, 30), at(10, 0), at(20, -30), pt(30, -60)));
    // a point has its thirds on itself
    let dot = Segment::Line(pt(5, 5), pt(5, 5));
    assert_eq!(dot.to_cubic(), Segment::Cubic(pt(5, 5), at(5, 5), at(5, 5), pt(5, 5)));
    let up = Segment::Line(pt(30, 0), pt(30, 30));
    assert_eq!(up.to_cubic(), Segment::Cubic(pt(30, 0), at(30, 10), at(30, 20), pt(30, 30)));
}

#[test]
fn line_to_cubic_holds_thirds_between_lattice_points_exactly() {
    let l = Segment::Line(pt(1, 2), pt(31, 12));
    // (11, 5 1/3) and (21, 8 2/3)
    assert_eq!(l.to_cubic(), Segment::Cubic(pt(1, 2), fine(33, 16), fine(63, 26), pt(31, 12)));
    let m = Segment::Line(pt(0, 0), pt(10, 20));
    // (3 1/3, 6 2/3) and (6 2/3, 13 1/3)
    assert_eq!(m.to_cubic(), Segment::Cubic(pt(0, 0), fine(10, 20), fine(20, 40), pt(10, 20)));
    let n = Segment::Line(pt(0, 0), pt(-1, 2));
    assert_eq!(n.to_cubic(), Segment::Cubic(pt(0, 0), fine(-1, 2), fine(-2, 4), pt(-1, 2)));
}

/// The place of the cubic on `a, c1, c2, d` at `k / n`, times `3 n^3`, along
/// one axis; `c1` and `c2` are in thirds.
fn cubic_at(a: i64, c1: i64, c2: i64, d: i64, k: i64, n: i64) -> i64 {
    let m = n - k;
    3 * (m * m * m * a + k * k * k * d) + 3 * (m * m * k * c1 + m * k * k * c2)
}

fn assert_on_segment(from: Point, to: Point) {
    let cubic = Segment::Line(from, to).to_cubic();
    assert_eq!(cubic.start(), from);
    assert_eq!(cubic.end(), to);
    let (c1, c2) = match cubic {
        Segment::Cubic(_, c1, c2, _) => (c1, c2),
        _ => panic!("not a cubic"),
    };
    for n in [1i64, 3, 7, 27] {
        for k in 0..=n {
            let x = cubic_at(from.x as i64, c1.x, c2.x, to.x as i64, k, n);
            let y = cubic_at(from.y as i64, c1.y, c2.y, to.y as i64, k, n);
            // the line's own point at k / n, times 3 n^3
            let lx = 3 * n * n * ((n - k) * from.x as i64 + k * to.x as i64);
            let ly = 3 * n * n * ((n - k) * from.y as i64 + k * to.y as i64);
            assert_eq!((x, y), (lx, ly));
            // so it is on the line through the ends, and between them
            let dx = (to.x - from.x) as i64;
            let dy = (to.y - from.y) as i64;
            let (rx, ry) = (x - 3 * n * n * n * from.x as i64, y - 3 * n * n * n * from.y as i64);
            assert_eq!(rx * dy - ry * dx, 0);
            let along = rx * dx + ry * dy;
            assert!(0 <= along && along <= 3 * n * n * n * (dx * dx + dy * dy));
        }
    }
}

#[test]
fn every_elevated_line_stays_on_the_line() {
    assert_on_segment(pt(0, 0), pt(10, 20));
    assert_on_segment(pt(0, 0), pt(1, 2));
    assert_on_segment(pt(3, -4), pt(45, 17));
    assert_on_segment(pt(30, 0), pt(30, 30));
    assert_on_segment(pt(-7, 5), pt(-8, 5));
    assert_on_segment(pt(5, 5), pt(5, 5));
    assert_on_segment(pt(100, -100), pt(-101, 102));
}

#[test]
fn elevated_line_is_on_the_line_at_a_third_of_the_way() {
    // (0, 0) to (10, 20) at t = 1 / 3: the line is at (10/3, 20/3)
    let cubic = Segment::Line(pt(0, 0), pt(10, 20)).to_cubic();
    let (c1, c2) = match cubic {
        Segment::Cubic(_, c1, c2, _) => (c1, c2),
        _ => panic!("not a cubic"),
    };
    let x = cubic_at(0, c1.x, c2.x, 10, 1, 3);
    let y = cubic_at(0, c1.y, c2.y, 20, 1, 3);
    // times 3 * 27
    assert_eq!((x, y), (270, 540));
}

#[test]
fn quad_to_cubic_holds_its_control_points_exactly() {
    let q = Segment::Quad(pt(0, 0), pt(3, 6), pt(9, 0));
    // (2, 4) and (5, 4)
    assert_eq!(q.to_cubic(), Segment::Cubic(pt(0, 0), at(2, 4), at(5, 4), pt(9, 0)));
    let r = Segment::Quad(pt(0, 0), pt(1, -1), pt(0, -1));
    // (2/3, -2/3) and (2/3, -1)
    assert_eq!(r.to_cubic(), Segment::Cubic(pt(0, 0), fine(2, -2), fine(2, -3), pt(0, -1)));
    let s = Segment::Quad(pt(-1, 0), pt(0, 0), pt(-2, 2));
    // (-1/3, 0) and (-2/3, 2/3)
    assert_eq!(s.to_cubic(), Segment::Cubic(pt(-1, 0), fine(-1, 0), fine(-2, 2), pt(-2, 2)));
}

#[test]
fn elevated_quad_is_the_same_curve() {
    let quads = [
        (pt(0, 0), pt(1, -1), pt(0, -1)),
        (pt(0, 0), pt(10, 21), pt(20, 0)),
        (pt(-100, 37), pt(55, -81), pt(13, 14)),
    ];
    for (a, b, c) in quads {
        let (c1, c2) = match Segment::Quad(a, b, c).to_cubic() {
            Segment::Cubic(_, c1, c2, _) => (c1, c2),
            _ => panic!("not a cubic"),
        };
        for n in [1i64, 2, 5, 16] {
            for k in 0..=n {
                let m = n - k;
                let x = cubic_at(a.x as i64, c1.x, c2.x, c.x as i64, k, n);
                let y = cubic_at(a.y as i64, c1.y, c2.y, c.y as i64, k, n);
                // the quadratic's own point at k / n, times 3 n^3
                let qx = 3 * n * (m * m * a.x as i64 + 2 * m * k * b.x as i64 + k * k * c.x as i64);
                let qy = 3 * n * (m * m * a.y as i64 + 2 * m * k * b.y as i64 + k * k * c.y as i64);
                assert_eq!((x, y), (qx, qy));
            }
        }
    }
}

#[test]
fn cubic_to_cubic_is_itself() {
    let c = Segment::Cubic(pt(0, 1), at(2, 3), at(4, 5), pt(6, 7));
    assert_eq!(c.to_cubic(), c);
}

#[test]
fn to_cubic_does_not_overflow_at_the_extremes() {
    let q = Segment::Quad(pt(i32::MAX, i32::MIN), pt(i32::MAX, i32::MIN), pt(i32::MIN, i32::MAX));
    match q.to_cubic() {
        Segment::Cubic(start, c1, _, end) => {
            assert_eq!(start, pt(i32::MAX, i32::MIN));
            assert_eq!(c1, at(i32::MAX, i32::MIN));
            assert_eq!(end, pt(i32::MIN, i32::MAX));
        }
        _ => panic!("not a cubic"),
    }
}

#[test]
fn line_polyline_is_evenly_spaced() {
    let l = Segment::Line(pt(0, 0), pt(10, -20));
    let pts = l.polyline();
    assert_eq!(pts.len(), 11);
    for (k, p) in pts.iter().enumerate() {
        assert_eq!(*p, pt(k as i32, -2 * k as i32));
    }
}

#[test]
fn samples_round_halves_up() {
    let l = Segment::Line(pt(0, 0), pt(5, -5));
    let xs: Vec<i32> = l.polyline().iter().map(|p| p.x).collect();
    let ys: Vec<i32> = l.polyline().iter().map(|p| p.y).collect();
    assert_eq!(xs, vec![0, 1, 1, 2, 2, 3, 3, 4, 4, 5, 5]);
    assert_eq!(ys, vec![0, 0, -1, -1, -2, -2, -3, -3, -4, -4, -5]);
}

#[test]
fn quad_samples_follow_the_bernstein_form() {
    let q = Segment::Quad(pt(0, 0), pt(10, 20), pt(20, 0));
    // y(t) = 40 t (1 - t)
    let ys: Vec<i32> = q.polyline().iter().map(|p| p.y).collect();
    assert_eq!(ys, vec![0, 4, 6, 8, 10, 10, 10, 8, 6, 4, 0]);
    let xs: Vec<i32> = q.polyline().iter().map(|p| p.x).collect();
    assert_eq!(xs, vec![0, 2, 4, 6, 8, 10, 12, 14, 16, 18, 20]);
    assert_eq!(q.sample_at(3), pt(6, 8));
}

#[test]
fn cubic_samples_follow_the_bernstein_form() {
    let c = Segment::Cubic(pt(0, 0), at(0, 10), at(10, 10), pt(10, 0));
    // x(t) = 30 t^2 - 20 t^3, y(t) = 30 t (1 - t)
    assert_eq!(c.sample_at(0), pt(0, 0));
    assert_eq!(c.sample_at(1), pt(0, 3));
    assert_eq!(c.sample_at(5), pt(5, 8));
    assert_eq!(c.sample_at(9), pt(10, 3));
    assert_eq!(c.sample_at(10), pt(10, 0));
}

#[test]
fn samples_do_not_overflow_at_the_extremes() {
    let c = Segment::Cubic(
        pt(i32::MIN, i32::MAX),
        at(i32::MAX, i32::MIN),
        at(i32::MIN, i32::MAX),
        pt(i32::MAX, i32::MIN));
    let pts = c.polyline();
    assert_eq!(pts[0], pt(i32::MIN, i32::MAX));
    assert_eq!(pts[10], pt(i32::MAX, i32::MIN));
}

#[test]
fn cubic_samples_take_control_points_between_lattice_points() {
    // the cubic of the edge from (0, 0) to (10, 20) is sampled as the edge is
    let edge = Segment::Line(pt(0, 0), pt(10, 20));
    assert_eq!(edge.to_cubic().polyline(), edge.polyline());
    let quad = Segment::Quad(pt(0, 0), pt(10, 21), pt(20, 0));
    assert_eq!(quad.to_cubic().polyline(), quad.polyline());
}

#[test]
fn fine_positions_compare_distances_in_thirds() {
    let spot = fine(10, 20);
    // (3 1/3, 6 2/3) is within 5 of (0, 3) and of (7, 10), and not of (8, 10)
    assert!(spot.is_within(&pt(0, 3), 5));
    assert!(spot.is_within(&pt(7, 10), 5));
    assert!(!spot.is_within(&pt(8, 10), 5));
    // exactly 5 away: (3, 4) in thirds is (9, 12)
    assert!(!fine(9, 12).is_within(&pt(0, 0), 5));
    assert!(fine(9, 11).is_within(&pt(0, 0), 5));
    assert!(!fine(i64::MAX, i64::MIN).is_within(&pt(i32::MIN, i32::MAX), u32::MAX));
    assert!(!fine(i64::MIN, 0).is_within(&pt(i32::MAX, 0), 5));
    assert_eq!(pt(-2, 7).fine(), fine(-6, 21));
    assert_eq!(fine(1, 2).transpose(), fine(2, 1));
}
