use contour_simplify::geometry::Point;
use contour_simplify::simplify::{line_simplification, vec2d_perp_sq};

fn pts(coords: &[(i32, i32)]) -> Vec<Point> {
    coords.iter().map(|&(x, y)| Point { x, y }).collect()
}

#[test]
fn collinear_points_collapse_to_the_ends() {
    let line = pts(&[(0, 0), (1, 0), (2, 0), (3, 0)]);
    assert_eq!(line_simplification(&line, 2), pts(&[(0, 0), (3, 0)]));
}

#[test]
fn right_angle_is_kept() {
    let line = pts(&[(0, 0), (0, 10), (10, 10)]);
    assert_eq!(vec2d_perp_sq(line[0], line[2], line[1]), 50);
    assert_eq!(line_simplification(&line, 1), line);
}

#[test]
fn closed_square_keeps_its_corners() {
    let line = pts(&[(0, 0), (0, 5), (5, 5), (5, 0), (0, 0)]);
    assert_eq!(line_simplification(&line, 2), line);
}

#[test]
fn short_curves_are_unchanged() {
    let empty: Vec<Point> = Vec::new();
    assert_eq!(line_simplification(&empty, 2), empty);
    let one = pts(&[(7, -3)]);
    assert_eq!(line_simplification(&one, 2), one);
    let two = pts(&[(7, -3), (100, 40)]);
    assert_eq!(line_simplification(&two, 2), two);
    let twice = pts(&[(4, 4), (4, 4)]);
    assert_eq!(line_simplification(&twice, 0), twice);
}

#[test]
fn closed_curve_that_collapses_ends_before_its_last_point() {
    let line = pts(&[(0, 0), (1, 1), (3, 0), (0, 0)]);
    // reference line from (0,0) to (3,0); (1,1) is one unit off, under the tolerance
    assert_eq!(line_simplification(&line, 2), pts(&[(0, 0), (3, 0)]));
}

#[test]
fn coinciding_reference_points_collapse_the_curve() {
    let line = pts(&[(0, 0), (5, 5), (0, 0), (0, 0)]);
    assert_eq!(vec2d_perp_sq(line[0], line[2], line[1]), 0);
    assert_eq!(line_simplification(&line, 2), pts(&[(0, 0), (0, 0)]));
    assert_eq!(line_simplification(&line, 0), pts(&[(0, 0), (0, 0)]));
}

#[test]
fn zero_tolerance_keeps_every_point_off_the_line() {
    let line = pts(&[(0, 0), (1, 0), (2, 1), (3, 0), (4, 0)]);
    assert_eq!(line_simplification(&line, 0), line);
    let bent = pts(&[(0, 0), (2, 2), (4, 4), (6, 2), (8, 0)]);
    assert_eq!(line_simplification(&bent, 0), pts(&[(0, 0), (4, 4), (8, 0)]));
    let straight = pts(&[(0, 0), (1, 1), (2, 2), (5, 5)]);
    assert_eq!(line_simplification(&straight, 0), pts(&[(0, 0), (5, 5)]));
}

#[test]
fn deviation_equal_to_the_tolerance_is_kept() {
    // (5,3) is exactly three units off the line from (0,0) to (10,0)
    let line = pts(&[(0, 0), (5, 3), (10, 0)]);
    assert_eq!(vec2d_perp_sq(line[0], line[2], line[1]), 9);
    assert_eq!(line_simplification(&line, 3), line);
    assert_eq!(line_simplification(&line, 4), pts(&[(0, 0), (10, 0)]));
}

#[test]
fn earliest_of_equal_deviations_is_the_cut() {
    // (2,4) and (6,4) are equally far from the line; the cut falls on (2,4),
    // and from there (6,4) is kept while (4,4) is not
    let line = pts(&[(0, 0), (2, 4), (4, 4), (6, 4), (8, 0)]);
    assert_eq!(line_simplification(&line, 2), pts(&[(0, 0), (2, 4), (6, 4), (8, 0)]));
}

#[test]
fn the_join_holds_the_cut_point_once() {
    let line = pts(&[(0, 0), (10, 0), (10, 10), (0, 10)]);
    let out = line_simplification(&line, 1);
    assert_eq!(out, line);
    assert_eq!(out.iter().filter(|p| **p == Point { x: 10, y: 0 }).count(), 1);
}

#[test]
fn projection_is_rounded_down() {
    let begin = Point { x: 5, y: 5 };
    let end = Point { x: 0, y: 0 };
    let p = Point { x: 5, y: 0 };
    // 25 - 625 / 50 = 25 - 12
    assert_eq!(vec2d_perp_sq(begin, end, p), 13);
}

#[test]
fn reference_points_lie_on_their_line() {
    let begin = Point { x: -3, y: 8 };
    let end = Point { x: 11, y: -2 };
    assert_eq!(vec2d_perp_sq(begin, end, begin), 0);
    assert_eq!(vec2d_perp_sq(begin, end, end), 0);
}

#[test]
fn wider_tolerance_never_lengthens() {
    let line = pts(&[(0, 0), (1, 3), (2, -1), (4, 6), (7, 5), (9, 9), (12, 0), (15, 2), (20, 0)]);
    let mut last = line.len();
    for dist in 0..12u32 {
        let out = line_simplification(&line, dist);
        assert!(out.len() <= last);
        assert!(out.len() >= 2);
        assert_eq!(out[0], line[0]);
        assert_eq!(out[out.len() - 1], line[line.len() - 1]);
        last = out.len();
    }
    assert_eq!(last, 2);
}

#[test]
fn reducing_an_open_curve_again_changes_nothing() {
    let line = pts(&[(0, 0), (1, 3), (2, -1), (4, 6), (7, 5), (9, 9), (12, 0), (15, 2), (20, 0)]);
    for dist in 0..8u32 {
        let once = line_simplification(&line, dist);
        for again in 0..=dist {
            assert_eq!(line_simplification(&once, again), once);
        }
    }
}

#[test]
fn reducing_again_with_a_wider_tolerance_may_reduce_further() {
    let line = pts(&[(0, 0), (0, 10), (10, 10)]);
    let once = line_simplification(&line, 1);
    assert_eq!(once, line);
    assert_eq!(line_simplification(&once, 100), pts(&[(0, 0), (10, 10)]));
}

#[test]
fn reducing_a_closed_curve_again_may_reduce_further() {
    let line = pts(&[(0, 0), (0, 10), (1, 0), (0, 0)]);
    let once = line_simplification(&line, 2);
    assert_eq!(once, pts(&[(0, 0), (0, 10), (0, 0)]));
    assert_eq!(line_simplification(&once, 2), pts(&[(0, 0), (0, 10)]));
}

#[test]
fn largest_supported_coordinates() {
    let line = pts(&[(0, 0), (32767, 0), (32767, 32767), (0, 32767)]);
    assert_eq!(line_simplification(&line, 2), line);
    let diagonal = pts(&[(0, 0), (16384, 16383), (32767, 32767)]);
    assert_eq!(line_simplification(&diagonal, 2), pts(&[(0, 0), (32767, 32767)]));
}
