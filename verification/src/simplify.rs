//! Ramer-Douglas-Peucker reduction of a polyline.
//!
//! A curve of three or more points is measured against a reference line
//! through its first point and its reference end. Where no point strays from
//! that line by the tolerance, the curve collapses to the two reference
//! points; otherwise it is cut at the farthest point and both parts are
//! reduced in turn.

use crate::geometry::{
    dot, dot_from, lemma_cauchy_schwarz, lemma_squared_distance_basics, squared_distance,
    vec2d_dist, vec2d_mult, vec2d_sub, Point,
};
use vstd::prelude::*;

verus! {

/// The squared distance of `p` from the line through `begin` and `end`:
/// the squared distance from `begin` to `p`, less the squared length of the
/// projection of `p` onto the line, rounded down. Where `begin` and `end`
/// coincide there is no line, and every point counts as lying on it.
pub open spec fn perp_sq(begin: Point, end: Point, p: Point) -> int {
    if begin == end {
        0
    } else {
        squared_distance(begin, p) - (dot_from(begin, end, p) * dot_from(begin, end, p))
            / squared_distance(end, begin)
    }
}

/// The second point of the reference line of `s`: the last point, or the one
/// before it where a curve of three or more points returns to its start.
pub open spec fn reference_end(s: Seq<Point>) -> Point
    recommends
        s.len() >= 2,
{
    if s.len() >= 3 && s.first() == s.last() {
        s[s.len() - 2]
    } else {
        s.last()
    }
}

/// The earliest index among the first `n` points of `s` at which the distance
/// from the line through `begin` and `end` is greatest.
pub open spec fn farthest_upto(s: Seq<Point>, begin: Point, end: Point, n: nat) -> int
    decreases n,
{
    if n <= 1 {
        0
    } else {
        let k = farthest_upto(s, begin, end, (n - 1) as nat);
        if perp_sq(begin, end, s[n - 1]) > perp_sq(begin, end, s[k]) {
            n - 1
        } else {
            k
        }
    }
}

/// The index at which `s` is cut: the earliest point farthest from the
/// reference line of `s`.
pub open spec fn split_index(s: Seq<Point>) -> int
    recommends
        s.len() >= 2,
{
    farthest_upto(s, s[0], reference_end(s), s.len())
}

/// The greatest squared distance of a point of `s` from its reference line.
pub open spec fn max_deviation(s: Seq<Point>) -> int
    recommends
        s.len() >= 2,
{
    perp_sq(s[0], reference_end(s), s[split_index(s)])
}

/// Whether a curve of three or more points is replaced by its two reference
/// points: no point leaves the reference line, or none by as much as `dist`.
pub open spec fn collapses(s: Seq<Point>, dist: nat) -> bool
    recommends
        s.len() >= 3,
{
    max_deviation(s) == 0 || max_deviation(s) < dist * dist
}

/// The reduction of `s` within the tolerance `dist`.
pub open spec fn simplified(s: Seq<Point>, dist: nat) -> Seq<Point>
    decreases s.len(),
    via simplified_terminates
{
    if s.len() < 3 {
        s
    } else if collapses(s, dist) {
        seq![s[0], reference_end(s)]
    } else {
        let k = split_index(s);
        simplified(s.subrange(0, k + 1), dist) + simplified(
            s.subrange(k, s.len() as int),
            dist,
        ).drop_first()
    }
}

#[via_fn]
proof fn simplified_terminates(s: Seq<Point>, dist: nat) {
    if s.len() >= 3 && !collapses(s, dist) {
        lemma_split_interior(s);
    }
}

/// Every squared distance between two points of `s` fits in an `i32`.
pub open spec fn distances_fit(s: Seq<Point>) -> bool {
    forall|i: int, j: int|
        0 <= i < s.len() && 0 <= j < s.len() ==> squared_distance(#[trigger] s[i], #[trigger] s[j])
            <= i32::MAX
}

/// The distance from a line is never negative and never more than the
/// distance from the line's first point.
pub proof fn lemma_perp_sq_bounds(begin: Point, end: Point, p: Point)
    ensures
        0 <= perp_sq(begin, end, p) <= squared_distance(begin, p),
{
    lemma_squared_distance_basics(begin, p);
    if begin != end {
        lemma_squared_distance_basics(end, begin);
        lemma_cauchy_schwarz(begin, end, p);
        let l = squared_distance(end, begin);
        let x = squared_distance(begin, p);
        let d = dot_from(begin, end, p);
        let d2 = d * d;
        assert(d2 >= 0) by (nonlinear_arith)
            requires
                d2 == d * d,
        ;
        assert(0 <= d2 / l <= x) by (nonlinear_arith)
            requires
                l > 0,
                0 <= d2 <= l * x,
        ;
    }
}

/// Both points that span a line lie on it.
pub proof fn lemma_perp_sq_of_reference(begin: Point, end: Point)
    ensures
        perp_sq(begin, end, begin) == 0,
        perp_sq(begin, end, end) == 0,
{
    if begin != end {
        lemma_squared_distance_basics(end, begin);
        lemma_squared_distance_basics(begin, begin);
        let l = squared_distance(end, begin);
        let zero = dot_from(begin, end, begin);
        assert(zero == 0) by (nonlinear_arith)
            requires
                zero == (end.x - begin.x) * (begin.x - begin.x) + (end.y - begin.y) * (begin.y
                    - begin.y),
        ;
        assert((zero * zero) / l == 0) by (nonlinear_arith)
            requires
                zero == 0,
                l > 0,
        ;
        let d = dot_from(begin, end, end);
        assert(d == l);
        assert(squared_distance(begin, end) == l);
        assert((d * d) / l == l) by (nonlinear_arith)
            requires
                d == l,
                l > 0,
        ;
    }
}

/// `farthest_upto` names an index below `n` whose distance is the greatest of
/// the first `n`, and greater than every distance before it.
pub proof fn lemma_farthest_upto(s: Seq<Point>, begin: Point, end: Point, n: nat)
    requires
        1 <= n <= s.len(),
    ensures
        0 <= farthest_upto(s, begin, end, n) < n,
        forall|j: int|
            0 <= j < n ==> perp_sq(begin, end, #[trigger] s[j]) <= perp_sq(
                begin,
                end,
                s[farthest_upto(s, begin, end, n)],
            ),
        forall|j: int|
            0 <= j < farthest_upto(s, begin, end, n) ==> perp_sq(begin, end, #[trigger] s[j])
                < perp_sq(begin, end, s[farthest_upto(s, begin, end, n)]),
    decreases n,
{
    if n > 1 {
        lemma_farthest_upto(s, begin, end, (n - 1) as nat);
    }
}

/// The earliest greatest distance is found at one index only.
pub proof fn lemma_farthest_unique(s: Seq<Point>, begin: Point, end: Point, n: nat, k: int)
    requires
        1 <= n <= s.len(),
        0 <= k < n,
        forall|j: int|
            0 <= j < n ==> perp_sq(begin, end, #[trigger] s[j]) <= perp_sq(begin, end, s[k]),
        forall|j: int| 0 <= j < k ==> perp_sq(begin, end, #[trigger] s[j]) < perp_sq(begin, end, s[k]),
    ensures
        farthest_upto(s, begin, end, n) == k,
{
    lemma_farthest_upto(s, begin, end, n);
    let f = farthest_upto(s, begin, end, n);
    if f < k {
        assert(perp_sq(begin, end, s[f]) < perp_sq(begin, end, s[k]));
    }
    if k < f {
        assert(perp_sq(begin, end, s[k]) < perp_sq(begin, end, s[f]));
    }
}

/// A curve that has a point off its reference line is cut strictly between
/// its first and its last point, at a point that differs from both.
pub proof fn lemma_split_interior(s: Seq<Point>)
    requires
        s.len() >= 3,
        max_deviation(s) != 0,
    ensures
        0 < split_index(s) < s.len() - 1,
        max_deviation(s) > 0,
        s[split_index(s)] != s.first(),
        s[split_index(s)] != s.last(),
{
    let begin = s[0];
    let end = reference_end(s);
    lemma_farthest_upto(s, begin, end, s.len());
    lemma_perp_sq_of_reference(begin, end);
    lemma_perp_sq_bounds(begin, end, s[split_index(s)]);
}

/// The reduction of a curve of two or more points has at least two points
/// and no more than the curve; a shorter curve is its own reduction.
pub proof fn lemma_simplified_len(s: Seq<Point>, dist: nat)
    ensures
        simplified(s, dist).len() <= s.len(),
        s.len() >= 2 ==> simplified(s, dist).len() >= 2,
        s.len() < 3 ==> simplified(s, dist) == s,
    decreases s.len(),
{
    if s.len() >= 3 && !collapses(s, dist) {
        lemma_split_interior(s);
        let k = split_index(s);
        lemma_simplified_len(s.subrange(0, k + 1), dist);
        lemma_simplified_len(s.subrange(k, s.len() as int), dist);
    }
}

/// The reduction starts where the curve starts. It ends where the curve ends,
/// unless the curve returns to its start and collapses: then it ends at the
/// reference end, the point before the last.
pub proof fn lemma_simplified_endpoints(s: Seq<Point>, dist: nat)
    requires
        s.len() >= 1,
    ensures
        simplified(s, dist).len() >= 1,
        simplified(s, dist).first() == s.first(),
        simplified(s, dist).last() == if s.len() >= 3 && collapses(s, dist) {
            reference_end(s)
        } else {
            s.last()
        },
    decreases s.len(),
{
    if s.len() >= 3 && !collapses(s, dist) {
        lemma_split_interior(s);
        let k = split_index(s);
        let left = s.subrange(0, k + 1);
        let right = s.subrange(k, s.len() as int);
        lemma_simplified_endpoints(left, dist);
        lemma_simplified_endpoints(right, dist);
        lemma_simplified_len(left, dist);
        lemma_simplified_len(right, dist);
        lemma_cut_parts_open(s);
        if right.len() >= 3 {
            assert(reference_end(right) == right.last());
        }
    }
}

/// Both parts of a cut curve are open: neither returns to its own start.
pub proof fn lemma_cut_parts_open(s: Seq<Point>)
    requires
        s.len() >= 3,
        max_deviation(s) != 0,
    ensures
        s.subrange(0, split_index(s) + 1).first() != s.subrange(0, split_index(s) + 1).last(),
        s.subrange(split_index(s), s.len() as int).first() != s.subrange(
            split_index(s),
            s.len() as int,
        ).last(),
{
    lemma_split_interior(s);
}

/// The squared distance of `p` from the line through `begin` and `end`.
pub fn vec2d_perp_sq(begin: Point, end: Point, p: Point) -> (d: i32)
    requires
        squared_distance(begin, p) <= i32::MAX,
        squared_distance(end, begin) <= i32::MAX,
    ensures
        d == perp_sq(begin, end, p),
{
    if begin == end {
        return 0;
    }
    proof {
        lemma_perp_sq_bounds(begin, end, p);
        lemma_squared_distance_basics(end, begin);
        lemma_squared_distance_basics(begin, p);
        lemma_cauchy_schwarz(begin, end, p);
        crate::geometry::lemma_difference_bounded(end, begin);
        crate::geometry::lemma_difference_bounded(p, begin);
        lemma_squared_distance_basics(p, begin);
    }
    let span = vec2d_dist(end, begin);
    let reach = vec2d_dist(begin, p);
    let along = vec2d_sub(end, begin);
    let toward = vec2d_sub(p, begin);
    let ghost d = dot_from(begin, end, p);
    assert(dot(along, toward) == d);
    assert(-0x7fff_ffff <= d <= 0x7fff_ffff && d * d <= 0x7fff_ffff * 0x7fff_ffff)
        by (nonlinear_arith)
        requires
            d * d <= span * reach,
            0 <= span <= 0x7fff_ffff,
            0 <= reach <= 0x7fff_ffff,
    ;
    let projected: i64 = vec2d_mult(along, toward) as i64;
    assert(projected * projected >= 0) by (nonlinear_arith);
    let squared: u64 = (projected * projected) as u64;
    let shadow: u64 = squared / (span as u64);
    reach - (shadow as i32)
}

/// The earliest point of `line[lo..=hi]` farthest from the line through
/// `begin` and `end`: its index within the range, and its squared distance.
fn farthest_in_range(line: &Vec<Point>, lo: usize, hi: usize, begin: Point, end: Point) -> (r: (
    usize,
    i32,
))
    requires
        lo <= hi < line.len(),
        squared_distance(end, begin) <= i32::MAX,
        forall|j: int| lo <= j <= hi ==> squared_distance(begin, #[trigger] line@[j]) <= i32::MAX,
    ensures
        r.0 == farthest_upto(
            line@.subrange(lo as int, hi + 1),
            begin,
            end,
            (hi + 1 - lo) as nat,
        ),
        r.1 == perp_sq(begin, end, line@[lo + r.0]),
        lo + r.0 <= hi,
{
    let ghost s = line@.subrange(lo as int, hi + 1);
    let mut best: usize = 0;
    let mut most: i32 = vec2d_perp_sq(begin, end, line[lo]);
    let mut i: usize = 1;
    let count: usize = hi - lo + 1;
    while i < count
        invariant
            lo <= hi < line.len(),
            count == hi - lo + 1,
            1 <= i <= count,
            s == line@.subrange(lo as int, hi + 1),
            squared_distance(end, begin) <= i32::MAX,
            forall|j: int|
                lo <= j <= hi ==> squared_distance(begin, #[trigger] line@[j]) <= i32::MAX,
            best == farthest_upto(s, begin, end, i as nat),
            best < i,
            most == perp_sq(begin, end, s[best as int]),
        decreases count - i,
    {
        let here = vec2d_perp_sq(begin, end, line[lo + i]);
        assert(s[i as int] == line@[lo + i]);
        if here > most {
            best = i;
            most = here;
        }
        i = i + 1;
    }
    (best, most)
}

/// The square of the tolerance, against which squared distances are held.
fn squared_tolerance(dist: u32) -> (t: u64)
    ensures
        t == dist * dist,
{
    let wide: u64 = dist as u64;
    assert(wide * wide <= 0xffff_ffff * 0xffff_ffff) by (nonlinear_arith)
        requires
            0 <= wide <= 0xffff_ffff,
    ;
    wide * wide
}

/// Where a curve is cut, the tail of its reduction is the tail of the left
/// part's reduction followed by the tail of the right part's.
proof fn lemma_cut_tail(s: Seq<Point>, dist: nat)
    requires
        s.len() >= 3,
        !collapses(s, dist),
    ensures
        0 < split_index(s) < s.len() - 1,
        simplified(s, dist).drop_first() == simplified(
            s.subrange(0, split_index(s) + 1),
            dist,
        ).drop_first() + simplified(s.subrange(split_index(s), s.len() as int), dist).drop_first(),
{
    lemma_split_interior(s);
    let k = split_index(s);
    let left = simplified(s.subrange(0, k + 1), dist);
    let right = simplified(s.subrange(k, s.len() as int), dist).drop_first();
    lemma_simplified_endpoints(s.subrange(0, k + 1), dist);
    assert((left + right).drop_first() =~= left.drop_first() + right);
}

/// Appends to `out` the reduction of `line[lo..=hi]` without its first point.
fn simplify_range(line: &Vec<Point>, lo: usize, hi: usize, dist: u32, out: &mut Vec<Point>)
    requires
        lo <= hi < line.len(),
        distances_fit(line@),
    ensures
        final(out)@ == old(out)@ + simplified(
            line@.subrange(lo as int, hi + 1),
            dist as nat,
        ).drop_first(),
    decreases hi - lo,
{
    let ghost s = line@.subrange(lo as int, hi + 1);
    let ghost before = out@;
    if hi == lo {
        assert(out@ =~= before + simplified(s, dist as nat).drop_first());
        return ;
    }
    if hi - lo == 1 {
        out.push(line[hi]);
        assert(out@ =~= before + simplified(s, dist as nat).drop_first());
        return ;
    }
    let begin = line[lo];
    let end = if line[lo] == line[hi] {
        line[hi - 1]
    } else {
        line[hi]
    };
    assert(begin == s[0] && end == reference_end(s));
    let (k, most) = farthest_in_range(line, lo, hi, begin, end);
    let tolerance = squared_tolerance(dist);
    proof {
        lemma_perp_sq_bounds(begin, end, s[k as int]);
    }
    if most == 0 || (most as u64) < tolerance {
        out.push(end);
        assert(out@ =~= before + simplified(s, dist as nat).drop_first());
        return ;
    }
    proof {
        lemma_cut_tail(s, dist as nat);
        assert(s.subrange(0, k + 1) =~= line@.subrange(lo as int, lo + k + 1));
        assert(s.subrange(k as int, s.len() as int) =~= line@.subrange(lo + k, hi + 1));
    }
    simplify_range(line, lo, lo + k, dist, out);
    simplify_range(line, lo + k, hi, dist, out);
    assert(out@ =~= before + simplified(s, dist as nat).drop_first());
}

/// Reduces `line` by the Ramer-Douglas-Peucker scheme: the result keeps the
/// points at which `line` strays from its reference lines by `dist` or more.
pub fn line_simplification(line: &Vec<Point>, dist: u32) -> (out: Vec<Point>)
    requires
        distances_fit(line@),
    ensures
        out@ == simplified(line@, dist as nat),
        out.len() <= line.len(),
        line.len() >= 2 ==> out.len() >= 2,
        line.len() < 3 ==> out@ == line@,
        line.len() >= 1 ==> out@.first() == line@.first(),
        line.len() >= 1 ==> out@.last() == if line.len() >= 3 && collapses(line@, dist as nat) {
            reference_end(line@)
        } else {
            line@.last()
        },
{
    let mut out: Vec<Point> = Vec::new();
    proof {
        lemma_simplified_len(line@, dist as nat);
    }
    if line.len() == 0 {
        assert(out@ =~= simplified(line@, dist as nat));
        return out;
    }
    out.push(line[0]);
    simplify_range(line, 0, line.len() - 1, dist, &mut out);
    proof {
        lemma_simplified_endpoints(line@, dist as nat);
        assert(line@.subrange(0, line.len() as int) =~= line@);
        assert(out@ =~= simplified(line@, dist as nat));
    }
    out
}

} // verus!
