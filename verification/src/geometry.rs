//! Integer points of the plane, squared distances and dot products.

use vstd::prelude::*;

verus! {

/// The largest coordinate magnitude for which the square of a vector's length
/// always fits in an `i32`: the integer part of the square root of
/// `i32::MAX / 2`.
pub const MAX_COORD: i32 = 32767;

/// A point, or a vector, with integer coordinates.
#[derive(Debug, Clone, Copy, PartialEq, Eq, Structural)]
pub struct Point {
    pub x: i32,
    pub y: i32,
}

/// The square of the Euclidean distance between `p` and `q`.
pub open spec fn squared_distance(p: Point, q: Point) -> int {
    (p.x - q.x) * (p.x - q.x) + (p.y - q.y) * (p.y - q.y)
}

/// The dot product of `p` and `q`, read as vectors.
pub open spec fn dot(p: Point, q: Point) -> int {
    p.x * q.x + p.y * q.y
}

/// The dot product of the vectors from `origin` to `p` and from `origin` to `q`.
pub open spec fn dot_from(origin: Point, p: Point, q: Point) -> int {
    (p.x - origin.x) * (q.x - origin.x) + (p.y - origin.y) * (q.y - origin.y)
}

/// Both coordinates lie between zero and `MAX_COORD`.
pub open spec fn in_range(p: Point) -> bool {
    0 <= p.x <= MAX_COORD && 0 <= p.y <= MAX_COORD
}

/// A squared distance is never negative, it is symmetric, and it is zero
/// exactly between a point and itself.
pub proof fn lemma_squared_distance_basics(p: Point, q: Point)
    ensures
        squared_distance(p, q) >= 0,
        squared_distance(p, q) == squared_distance(q, p),
        squared_distance(p, q) == 0 <==> p == q,
{
    let dx = p.x - q.x;
    let dy = p.y - q.y;
    assert(dx * dx >= 0 && dy * dy >= 0 && (dx * dx == 0 <==> dx == 0) && (dy * dy == 0 <==> dy
        == 0)) by (nonlinear_arith);
    assert((p.x - q.x) * (p.x - q.x) == (q.x - p.x) * (q.x - p.x)) by (nonlinear_arith);
    assert((p.y - q.y) * (p.y - q.y) == (q.y - p.y) * (q.y - p.y)) by (nonlinear_arith);
}

/// Each coordinate difference of two points is bounded by their squared
/// distance.
pub proof fn lemma_difference_bounded(p: Point, q: Point)
    ensures
        (p.x - q.x) * (p.x - q.x) <= squared_distance(p, q),
        (p.y - q.y) * (p.y - q.y) <= squared_distance(p, q),
        squared_distance(p, q) <= i32::MAX ==> -46340 <= p.x - q.x <= 46340 && -46340 <= p.y
            - q.y <= 46340,
{
    let dx = p.x - q.x;
    let dy = p.y - q.y;
    assert(dx * dx >= 0 && dy * dy >= 0) by (nonlinear_arith);
    assert(dx * dx <= 0x7fff_ffff ==> -46340 <= dx <= 46340) by (nonlinear_arith);
    assert(dy * dy <= 0x7fff_ffff ==> -46340 <= dy <= 46340) by (nonlinear_arith);
}

/// The Cauchy-Schwarz inequality on integers: `(ac + bd)^2 <= (a^2 + b^2)(c^2 + d^2)`.
pub proof fn lemma_cauchy_schwarz_int(a: int, b: int, c: int, d: int)
    ensures
        (a * c + b * d) * (a * c + b * d) <= (a * a + b * b) * (c * c + d * d),
{
    let u = a * c;
    let v = b * d;
    let s = a * d;
    let t = b * c;
    assert((u + v) * (u + v) == u * u + 2 * (u * v) + v * v) by (nonlinear_arith);
    assert((s - t) * (s - t) == s * s - 2 * (s * t) + t * t) by (nonlinear_arith);
    assert((s - t) * (s - t) >= 0) by (nonlinear_arith);
    assert(u * v == s * t) by (nonlinear_arith)
        requires
            u == a * c,
            v == b * d,
            s == a * d,
            t == b * c,
    ;
    let aa = a * a;
    let bb = b * b;
    let cc = c * c;
    let dd = d * d;
    assert((aa + bb) * (cc + dd) == aa * cc + aa * dd + bb * cc + bb * dd) by (nonlinear_arith);
    assert(aa * cc == u * u) by (nonlinear_arith)
        requires
            aa == a * a,
            cc == c * c,
            u == a * c,
    ;
    assert(aa * dd == s * s) by (nonlinear_arith)
        requires
            aa == a * a,
            dd == d * d,
            s == a * d,
    ;
    assert(bb * cc == t * t) by (nonlinear_arith)
        requires
            bb == b * b,
            cc == c * c,
            t == b * c,
    ;
    assert(bb * dd == v * v) by (nonlinear_arith)
        requires
            bb == b * b,
            dd == d * d,
            v == b * d,
    ;
}

/// The Cauchy-Schwarz inequality at `origin`: the square of the dot product of
/// two vectors is at most the product of their squared lengths.
pub proof fn lemma_cauchy_schwarz(origin: Point, p: Point, q: Point)
    ensures
        dot_from(origin, p, q) * dot_from(origin, p, q) <= squared_distance(origin, p)
            * squared_distance(origin, q),
{
    let a = p.x - origin.x;
    let b = p.y - origin.y;
    let c = q.x - origin.x;
    let d = q.y - origin.y;
    lemma_cauchy_schwarz_int(a, b, c, d);
    assert((origin.x - p.x) * (origin.x - p.x) == a * a) by (nonlinear_arith)
        requires
            a == p.x - origin.x,
    ;
    assert((origin.y - p.y) * (origin.y - p.y) == b * b) by (nonlinear_arith)
        requires
            b == p.y - origin.y,
    ;
    assert((origin.x - q.x) * (origin.x - q.x) == c * c) by (nonlinear_arith)
        requires
            c == q.x - origin.x,
    ;
    assert((origin.y - q.y) * (origin.y - q.y) == d * d) by (nonlinear_arith)
        requires
            d == q.y - origin.y,
    ;
}

/// Two points in range are at a squared distance that fits in an `i32`.
pub proof fn lemma_in_range_distance_fits(p: Point, q: Point)
    requires
        in_range(p),
        in_range(q),
    ensures
        squared_distance(p, q) <= i32::MAX,
{
    let dx = p.x - q.x;
    let dy = p.y - q.y;
    assert(-32767 <= dx <= 32767 ==> dx * dx <= 32767 * 32767) by (nonlinear_arith);
    assert(-32767 <= dy <= 32767 ==> dy * dy <= 32767 * 32767) by (nonlinear_arith);
}

/// The squared distance between `p` and `q`.
pub fn vec2d_dist(p: Point, q: Point) -> (d: i32)
    requires
        squared_distance(p, q) <= i32::MAX,
    ensures
        d == squared_distance(p, q),
{
    proof {
        lemma_difference_bounded(p, q);
    }
    let dx: i64 = p.x as i64 - q.x as i64;
    let dy: i64 = p.y as i64 - q.y as i64;
    assert(dx * dx <= 46340 * 46340 && dy * dy <= 46340 * 46340) by (nonlinear_arith)
        requires
            -46340 <= dx <= 46340,
            -46340 <= dy <= 46340,
    ;
    let sum: i64 = dx * dx + dy * dy;
    sum as i32
}

/// The componentwise difference `p - q`.
pub fn vec2d_sub(p: Point, q: Point) -> (r: Point)
    requires
        i32::MIN <= p.x - q.x <= i32::MAX,
        i32::MIN <= p.y - q.y <= i32::MAX,
    ensures
        r.x == p.x - q.x,
        r.y == p.y - q.y,
{
    Point { x: p.x - q.x, y: p.y - q.y }
}

/// The dot product of `p` and `q`.
pub fn vec2d_mult(p: Point, q: Point) -> (d: i32)
    requires
        i32::MIN <= dot(p, q) <= i32::MAX,
    ensures
        d == dot(p, q),
{
    let ax: i64 = p.x as i64;
    let ay: i64 = p.y as i64;
    let bx: i64 = q.x as i64;
    let by: i64 = q.y as i64;
    assert(-0x4000_0000_0000_0000 <= ax * bx <= 0x4000_0000_0000_0000 && -0x4000_0000_0000_0000
        <= ay * by <= 0x4000_0000_0000_0000) by (nonlinear_arith)
        requires
            -0x8000_0000 <= ax <= 0x7fff_ffff,
            -0x8000_0000 <= ay <= 0x7fff_ffff,
            -0x8000_0000 <= bx <= 0x7fff_ffff,
            -0x8000_0000 <= by <= 0x7fff_ffff,
    ;
    let px: i64 = ax * bx;
    let py: i64 = ay * by;
    let sum: i64 = px + py;
    sum as i32
}

} // verus!
