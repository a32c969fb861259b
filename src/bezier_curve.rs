use crate::point::{floor_div, Point};
use vstd::prelude::*;

verus! {

/// A cubic Bézier segment given by its four control points.
#[derive(Clone, Copy, Debug, PartialEq, Eq, Structural)]
pub struct BezierCurve {
    pub start: Point,
    pub control1: Point,
    pub control2: Point,
    pub end: Point,
}

/// The cubic Bernstein polynomial at `t = n / d`, multiplied by `d^3`, for one
/// coordinate with control values `a`, `b`, `c`, `e`.
pub open spec fn bernstein_scaled(a: int, b: int, c: int, e: int, n: int, d: int) -> int {
    let m = d - n;
    a * (m * m * m) + 3 * b * (m * m * n) + 3 * c * (m * n * n) + e * (n * n * n)
}

/// The x coordinate of the curve at `t = n / d`, scaled by `d^3`.
pub open spec fn scaled_x(c: BezierCurve, n: int, d: int) -> int {
    bernstein_scaled(c.start.x as int, c.control1.x as int, c.control2.x as int, c.end.x as int, n, d)
}

/// The y coordinate of the curve at `t = n / d`, scaled by `d^3`.
pub open spec fn scaled_y(c: BezierCurve, n: int, d: int) -> int {
    bernstein_scaled(c.start.y as int, c.control1.y as int, c.control2.y as int, c.end.y as int, n, d)
}

pub open spec fn fits_i32(v: int) -> bool {
    i32::MIN <= v <= i32::MAX
}

/// The curve's point at parameter `t = n / d`, each coordinate rounded down to
/// a whole step; `None` when `d` is zero or a coordinate leaves the `i32` range.
pub open spec fn bezier_at(c: BezierCurve, n: int, d: int) -> Option<Point> {
    let d3 = d * d * d;
    let x = scaled_x(c, n, d) / d3;
    let y = scaled_y(c, n, d) / d3;
    if d != 0 && fits_i32(x) && fits_i32(y) {
        Some(Point { x: x as i32, y: y as i32 })
    } else {
        None
    }
}

proof fn lemma_term_bound(a: int, u: int, v: int, w: int)
    requires
        -0x80000000 <= a <= 0x80000000,
        -0x20000 <= u <= 0x20000,
        -0x20000 <= v <= 0x20000,
        -0x20000 <= w <= 0x20000,
    ensures
        -0x400000000 <= u * v <= 0x400000000,
        -0x8000000000000 <= u * v * w <= 0x8000000000000,
        -0x20000000000000000000000 <= a * (u * v * w) <= 0x20000000000000000000000,
{
    assert(-0x400000000 <= u * v <= 0x400000000) by (nonlinear_arith)
        requires
            -0x20000 <= u <= 0x20000,
            -0x20000 <= v <= 0x20000,
    ;
    assert(-0x8000000000000 <= u * v * w <= 0x8000000000000) by (nonlinear_arith)
        requires
            -0x400000000 <= u * v <= 0x400000000,
            -0x20000 <= w <= 0x20000,
    ;
    assert(-0x20000000000000000000000 <= a * (u * v * w) <= 0x20000000000000000000000)
        by (nonlinear_arith)
        requires
            -0x80000000 <= a <= 0x80000000,
            -0x8000000000000 <= u * v * w <= 0x8000000000000,
    ;
}

/// One coordinate of the curve at `t = n / d`, scaled by `d^3`.
fn bernstein_exec(a: i32, b: i32, c: i32, e: i32, n: i128, d: i128) -> (r: i128)
    requires
        -0x8000 <= n <= 0x8000,
        0 <= d <= 0x10000,
    ensures
        r == bernstein_scaled(a as int, b as int, c as int, e as int, n as int, d as int),
        -0x100000000000000000000000 <= r <= 0x100000000000000000000000,
{
    let m: i128 = d - n;
    proof {
        lemma_term_bound(a as int, m as int, m as int, m as int);
        lemma_term_bound(b as int, m as int, m as int, n as int);
        lemma_term_bound(c as int, m as int, n as int, n as int);
        lemma_term_bound(e as int, n as int, n as int, n as int);
        assert(3 * b * (m * m * n) == 3 * (b * (m * m * n))) by (nonlinear_arith);
        assert(3 * c * (m * n * n) == 3 * (c * (m * n * n))) by (nonlinear_arith);
    }
    let mmm: i128 = m * m * m;
    let mmn: i128 = m * m * n;
    let mnn: i128 = m * n * n;
    let nnn: i128 = n * n * n;
    (a as i128) * mmm + 3 * ((b as i128) * mmn) + 3 * ((c as i128) * mnn) + (e as i128) * nnn
}

impl BezierCurve {
    pub fn new(start: Point, control1: Point, control2: Point, end: Point) -> (r: Self)
        ensures
            r == (BezierCurve { start, control1, control2, end }),
    {
        BezierCurve { start, control1, control2, end }
    }

    /// The point of the curve at parameter `t = t_num / t_den`, by the cubic
    /// Bernstein polynomial; parameters outside `[0, 1]` extrapolate.
    /// Each coordinate is rounded down to a whole step. `None` when `t_den` is
    /// zero or the point lies outside the `i32` range.
    pub fn point_at(&self, t_num: i16, t_den: u16) -> (r: Option<Point>)
        ensures
            r == bezier_at(*self, t_num as int, t_den as int),
    {
        if t_den == 0 {
            return None;
        }
        let n: i128 = t_num as i128;
        let d: i128 = t_den as i128;
        proof {
            lemma_term_bound(1, d as int, d as int, d as int);
        }
        let d3: i128 = d * d * d;
        assert(d3 > 0) by (nonlinear_arith)
            requires
                d3 == d * d * d,
                d > 0,
        ;
        let sx = bernstein_exec(self.start.x, self.control1.x, self.control2.x, self.end.x, n, d);
        let sy = bernstein_exec(self.start.y, self.control1.y, self.control2.y, self.end.y, n, d);
        let x = floor_div(sx, d3);
        let y = floor_div(sy, d3);
        if x < i32::MIN as i128 || x > i32::MAX as i128 || y < i32::MIN as i128 || y
            > i32::MAX as i128 {
            None
        } else {
            Some(Point { x: x as i32, y: y as i32 })
        }
    }
}

/// At `t = 0` a curve is at its start point, and at `t = 1` at its end point,
/// whatever fraction represents the parameter.
pub proof fn lemma_point_at_ends(c: BezierCurve, d: int)
    requires
        d > 0,
    ensures
        bezier_at(c, 0, d) == Some(c.start),
        bezier_at(c, d, d) == Some(c.end),
{
    let d3 = d * d * d;
    assert(d3 > 0) by (nonlinear_arith)
        requires
            d3 == d * d * d,
            d > 0,
    ;
    assert(scaled_x(c, 0, d) == c.start.x
        * d3) by (nonlinear_arith)
        requires
            d3 == d * d * d,
    ;
    assert(scaled_y(c, 0, d) == c.start.y
        * d3) by (nonlinear_arith)
        requires
            d3 == d * d * d,
    ;
    assert(scaled_x(c, d, d) == c.end.x * d3)
        by (nonlinear_arith)
        requires
            d3 == d * d * d,
    ;
    assert(scaled_y(c, d, d) == c.end.y * d3)
        by (nonlinear_arith)
        requires
            d3 == d * d * d,
    ;
    vstd::arithmetic::div_mod::lemma_div_multiples_vanish(c.start.x as int, d3);
    vstd::arithmetic::div_mod::lemma_div_multiples_vanish(c.start.y as int, d3);
    vstd::arithmetic::div_mod::lemma_div_multiples_vanish(c.end.x as int, d3);
    vstd::arithmetic::div_mod::lemma_div_multiples_vanish(c.end.y as int, d3);
    assert(d3 * c.start.x == c.start.x * d3) by (nonlinear_arith);
    assert(d3 * c.start.y == c.start.y * d3) by (nonlinear_arith);
    assert(d3 * c.end.x == c.end.x * d3) by (nonlinear_arith);
    assert(d3 * c.end.y == c.end.y * d3) by (nonlinear_arith);
}

} // verus!
