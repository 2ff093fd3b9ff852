use bezgrid::raster::{sweep_probes, Probe};
use bezgrid::{Span, Sweep};

fn sorted(v: &Vec<usize>) -> Vec<usize> {
    let mut w = v.clone();
    w.sort();
    w
}

#[test]
fn sweep_over_nothing_has_no_line() {
    let mut s = Sweep::new(vec![], 5);
    assert!(s.active().is_empty());
    assert!(!s.next_line());
    assert!(s.active().is_empty());
    assert!(sweep_probes(vec![], 5).is_empty());
}

#[test]
fn sweep_starts_one_pitch_before_the_first_grid_line() {
    let s = Sweep::new(vec![Span::between(7, 12)], 5);
    assert_eq!(s.line(), 0);
    assert!(s.retired());
    assert!(s.active().is_empty());
    let t = Sweep::new(vec![Span::between(-7, 12)], 5);
    assert_eq!(t.line(), -15);
    let u = Sweep::new(vec![Span::between(10, 12)], 5);
    assert_eq!(u.line(), 5);
}

#[test]
fn sweep_stops_at_every_grid_line_from_floor_to_ceil() {
    let mut s = Sweep::new(vec![Span::between(7, 12), Span::between(3, 4)], 5);
    let mut lines = Vec::new();
    while s.next_line() {
        lines.push(s.line());
        s.retire();
    }
    // from floor(3 / 5) * 5 to ceil(12 / 5) * 5
    assert_eq!(lines, vec![0, 5, 10, 15]);
    assert!(!s.next_line());
    assert_eq!(s.line(), 15);
}

#[test]
fn sweep_admits_then_retires() {
    let mut s = Sweep::new(vec![Span::between(0, 3), Span::between(5, 8)], 5);
    assert_eq!(s.line(), -5);

    assert!(s.next_line());
    assert_eq!(s.line(), 0);
    assert!(!s.retired());
    assert_eq!(sorted(s.active()), vec![0]);
    s.retire();
    assert!(s.retired());
    assert_eq!(sorted(s.active()), vec![0]);

    assert!(s.next_line());
    assert_eq!(s.line(), 5);
    // the first interval ended at 3, after the line before: it is tested once more
    assert_eq!(sorted(s.active()), vec![0, 1]);
    s.retire();
    assert_eq!(sorted(s.active()), vec![1]);

    assert!(s.next_line());
    assert_eq!(s.line(), 10);
    assert_eq!(sorted(s.active()), vec![1]);
    s.retire();
    assert!(s.active().is_empty());

    assert!(!s.next_line());
}

#[test]
fn sweep_retires_by_itself_when_the_caller_does_not() {
    let mut s = Sweep::new(vec![Span::between(0, 3), Span::between(12, 13)], 5);
    assert!(s.next_line());
    assert!(s.next_line());
    assert_eq!(s.line(), 5);
    assert_eq!(sorted(s.active()), vec![0]);
    assert!(s.next_line());
    assert_eq!(s.line(), 10);
    assert!(s.active().is_empty());
    assert!(s.next_line());
    assert_eq!(s.line(), 15);
    assert_eq!(sorted(s.active()), vec![1]);
    assert!(!s.next_line());
}

#[test]
fn sweep_admits_in_order_of_lo_whatever_the_input_order() {
    let spans = vec![
        Span::between(20, 30),
        Span::between(0, 30),
        Span::between(10, 30),
        Span::between(0, 2),
    ];
    let mut s = Sweep::new(spans, 10);
    assert!(s.next_line());
    assert_eq!(sorted(s.active()), vec![1, 3]);
    s.retire();
    assert!(s.next_line());
    assert_eq!(sorted(s.active()), vec![1, 2, 3]);
    s.retire();
    assert_eq!(sorted(s.active()), vec![1, 2]);
    assert!(s.next_line());
    // in the order of admission, which is ascending in `lo`
    assert_eq!(s.active(), &vec![1, 2, 0]);
    s.retire();
    assert_eq!(s.active(), &vec![1, 2, 0]);
    assert!(s.next_line());
    assert_eq!(s.line(), 30);
    assert_eq!(sorted(s.active()), vec![0, 1, 2]);
    s.retire();
    assert_eq!(sorted(s.active()), vec![0, 1, 2]);
    assert!(!s.next_line());
}

#[test]
fn intervals_with_equal_ends_are_all_kept() {
    let mut s = Sweep::new(vec![Span::between(0, 40), Span::between(0, 40), Span::between(0, 0)], 5);
    assert!(s.next_line());
    assert_eq!(sorted(s.active()), vec![0, 1, 2]);
    s.retire();
    assert!(s.next_line());
    assert_eq!(sorted(s.active()), vec![0, 1, 2]);
    s.retire();
    assert_eq!(sorted(s.active()), vec![0, 1]);
}

#[test]
fn disjoint_intervals_leave_at_most_one_active_after_retiring() {
    let spans = vec![
        Span::between(41, 47),
        Span::between(0, 3),
        Span::between(5, 8),
        Span::between(9, 40),
        Span::between(-12, -1),
    ];
    let mut s = Sweep::new(spans, 5);
    let mut steps = 0;
    let mut two_before_retiring = false;
    while s.next_line() {
        if s.active().len() > 1 {
            two_before_retiring = true;
        }
        s.retire();
        assert!(s.active().len() <= 1);
        steps += 1;
    }
    // from -15 to 50
    assert_eq!(steps, 14);
    // an interval that ended between two lines is still there when the next is admitted
    assert!(two_before_retiring);
}

#[test]
fn intervals_more_than_a_pitch_apart_are_never_active_together() {
    let spans = vec![Span::between(0, 3), Span::between(9, 12), Span::between(18, 40)];
    let mut s = Sweep::new(spans, 5);
    while s.next_line() {
        assert!(s.active().len() <= 1);
        s.retire();
        assert!(s.active().len() <= 1);
    }
}

#[test]
fn probes_pair_each_line_with_what_is_active_there() {
    let mut probes = sweep_probes(vec![Span::between(0, 3), Span::between(5, 8)], 5);
    probes.sort_by_key(|p| (p.line, p.segment));
    assert_eq!(
        probes,
        vec![
            Probe { segment: 0, line: 0 },
            Probe { segment: 0, line: 5 },
            Probe { segment: 1, line: 5 },
            Probe { segment: 1, line: 10 },
        ]
    );
}

#[test]
fn sweep_works_at_the_extremes_of_the_lattice() {
    let mut s = Sweep::new(vec![Span::between(i32::MIN, i32::MIN + 1)], u32::MAX);
    assert!(s.next_line());
    assert_eq!(s.line(), -(u32::MAX as i64));
    assert!(s.active().is_empty());
    s.retire();
    assert!(s.next_line());
    assert_eq!(s.line(), 0);
    assert_eq!(s.active().len(), 1);
    s.retire();
    assert!(s.active().is_empty());
    assert!(!s.next_line());
    let mut t = Sweep::new(vec![Span::between(i32::MAX - 1, i32::MAX)], u32::MAX);
    assert!(t.next_line());
    assert_eq!(t.line(), 0);
    assert!(t.active().is_empty());
    assert!(t.next_line());
    assert_eq!(t.line(), u32::MAX as i64);
    assert_eq!(t.active().len(), 1);
    assert!(!t.next_line());
}

#[test]
fn probes_come_line_after_line() {
    let spans = vec![Span::between(12, 31), Span::between(-4, 9), Span::between(3, 18)];
    let probes = sweep_probes(spans, 5);
    // the lines run from -5 to 35; the intervals are tested at 5, 3 and 4 of them
    assert_eq!(probes.len(), 5 + 3 + 4);
    for pair in probes.windows(2) {
        assert!(pair[0].line <= pair[1].line);
    }
    assert_eq!(probes[0], Probe { segment: 1, line: 0 });
    assert_eq!(probes[probes.len() - 1], Probe { segment: 0, line: 35 });
}

#[test]
fn probes_are_what_testing_every_interval_at_every_line_would_give() {
    // intervals in no particular order, many with equal ends
    let mut spans = Vec::new();
    let mut seed: i64 = 12345;
    for _ in 0..200 {
        seed = (seed * 1103515245 + 12345) % 2147483648;
        let a = (seed % 301 - 150) as i32;
        seed = (seed * 1103515245 + 12345) % 2147483648;
        let b = a + (seed % 23) as i32;
        spans.push(Span::between(a, b));
    }
    let pitch = 7i64;
    let lo = spans.iter().map(|s| s.lo as i64).min().unwrap();
    let hi = spans.iter().map(|s| s.hi as i64).max().unwrap();
    let first = lo.div_euclid(pitch) * pitch;
    let last = -((-hi).div_euclid(pitch) * pitch);
    let mut expect = Vec::new();
    let mut x = first;
    while x <= last {
        for (i, s) in spans.iter().enumerate() {
            if s.lo as i64 <= x && s.hi as i64 >= x - pitch {
                expect.push(Probe { segment: i, line: x });
            }
        }
        x += pitch;
    }
    let mut got = sweep_probes(spans.clone(), pitch as u32);
    for pair in got.windows(2) {
        assert!(pair[0].line <= pair[1].line);
    }
    got.sort_by_key(|p| (p.line, p.segment));
    assert_eq!(got, expect);

    // and the active intervals come in ascending order of `lo` at every line
    let mut sweep = Sweep::new(spans.clone(), pitch as u32);
    while sweep.next_line() {
        for pair in sweep.active().windows(2) {
            assert!(spans[pair[0]].lo <= spans[pair[1]].lo);
        }
        sweep.retire();
        for &i in sweep.active() {
            assert!(spans[i].lo as i64 <= sweep.line() && sweep.line() <= spans[i].hi as i64);
        }
    }
}
