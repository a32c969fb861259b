use crate::bezier_curve::BezierCurve;
use crate::point::{floor_div, Point};
use crate::weights::{lemma_weight_sum_monotone, weight_sum};
use vstd::prelude::*;

verus! {

/// Largest total weight that `interpolate_curves` accepts: weighted sums of
/// `i32` coordinates then stay within `i128`.
pub const MAX_TOTAL_WEIGHT: u128 = 0x800000000000000000000000;

/// Errors reported to the caller.
#[derive(Clone, Copy, Debug, PartialEq, Eq, Structural)]
pub enum CurveError {
    /// Arguments that the operation cannot work on: curves and weights of
    /// different lengths, or a total weight of zero or above `MAX_TOTAL_WEIGHT`.
    InvalidArgument,
}

/// One of the four control points of a cubic Bézier curve.
#[derive(Clone, Copy, Debug, PartialEq, Eq, Structural)]
pub enum Role {
    Start,
    Control1,
    Control2,
    End,
}

pub open spec fn role_point(c: BezierCurve, role: Role) -> Point {
    match role {
        Role::Start => c.start,
        Role::Control1 => c.control1,
        Role::Control2 => c.control2,
        Role::End => c.end,
    }
}

/// The x coordinate of `p`, or its y coordinate when `want_y`.
pub open spec fn coord(p: Point, want_y: bool) -> int {
    if want_y {
        p.y as int
    } else {
        p.x as int
    }
}

/// Sum over the first `i` curves of weight times the chosen coordinate of the
/// chosen control point.
pub open spec fn weighted(c: Seq<BezierCurve>, w: Seq<u128>, role: Role, want_y: bool, i: int) -> int
    decreases i,
{
    if i <= 0 {
        0
    } else {
        weighted(c, w, role, want_y, i - 1) + w[i - 1] * coord(role_point(c[i - 1], role), want_y)
    }
}

/// Weighted average of one control point over all curves, each coordinate
/// rounded down to a whole step.
pub open spec fn blended_point(c: Seq<BezierCurve>, w: Seq<u128>, role: Role) -> Point {
    let total = weight_sum(w, w.len() as int);
    Point {
        x: (weighted(c, w, role, false, c.len() as int) / total) as i32,
        y: (weighted(c, w, role, true, c.len() as int) / total) as i32,
    }
}

/// The curve whose control points are the weighted averages of the inputs'.
pub open spec fn blended(c: Seq<BezierCurve>, w: Seq<u128>) -> BezierCurve {
    BezierCurve {
        start: blended_point(c, w, Role::Start),
        control1: blended_point(c, w, Role::Control1),
        control2: blended_point(c, w, Role::Control2),
        end: blended_point(c, w, Role::End),
    }
}

/// Inputs that `interpolate_curves` accepts.
pub open spec fn blend_accepts(c: Seq<BezierCurve>, w: Seq<u128>) -> bool {
    c.len() == w.len() && 0 < weight_sum(w, w.len() as int) <= MAX_TOTAL_WEIGHT
}

proof fn lemma_weighted_bounds(
    c: Seq<BezierCurve>,
    w: Seq<u128>,
    role: Role,
    want_y: bool,
    lo: int,
    hi: int,
    i: int,
)
    requires
        0 <= i <= c.len(),
        c.len() == w.len(),
        forall|k: int| 0 <= k < i ==> lo <= #[trigger] coord(role_point(c[k], role), want_y) <= hi,
    ensures
        lo * weight_sum(w, i) <= weighted(c, w, role, want_y, i) <= hi * weight_sum(w, i),
    decreases i,
{
    if i > 0 {
        lemma_weighted_bounds(c, w, role, want_y, lo, hi, i - 1);
        let x = coord(role_point(c[i - 1], role), want_y);
        let wi = w[i - 1] as int;
        assert(lo * wi <= wi * x <= hi * wi) by (nonlinear_arith)
            requires
                lo <= x <= hi,
                wi >= 0,
        ;
        assert(lo * weight_sum(w, i) == lo * weight_sum(w, i - 1) + lo * wi) by (nonlinear_arith)
            requires
                weight_sum(w, i) == weight_sum(w, i - 1) + wi,
        ;
        assert(hi * weight_sum(w, i) == hi * weight_sum(w, i - 1) + hi * wi) by (nonlinear_arith)
            requires
                weight_sum(w, i) == weight_sum(w, i - 1) + wi,
        ;
    }
}

/// With non-negative weights of positive total, each coordinate of each blended
/// control point lies between the least and the greatest of the inputs'
/// corresponding coordinates.
pub proof fn lemma_blend_convex(
    c: Seq<BezierCurve>,
    w: Seq<u128>,
    role: Role,
    want_y: bool,
    lo: int,
    hi: int,
)
    requires
        c.len() == w.len(),
        weight_sum(w, w.len() as int) > 0,
        forall|k: int| 0 <= k < c.len() ==> lo <= #[trigger] coord(role_point(c[k], role), want_y) <= hi,
    ensures
        lo <= weighted(c, w, role, want_y, c.len() as int) / weight_sum(w, w.len() as int) <= hi,
{
    let n = c.len() as int;
    let t = weight_sum(w, n);
    let s = weighted(c, w, role, want_y, n);
    lemma_weighted_bounds(c, w, role, want_y, lo, hi, n);
    assert(lo * t == t * lo && hi * t == t * hi) by (nonlinear_arith);
    vstd::arithmetic::div_mod::lemma_div_is_ordered(lo * t, s, t);
    vstd::arithmetic::div_mod::lemma_div_is_ordered(s, hi * t, t);
    vstd::arithmetic::div_mod::lemma_div_multiples_vanish(lo, t);
    vstd::arithmetic::div_mod::lemma_div_multiples_vanish(hi, t);
}

fn role_point_of(c: &BezierCurve, role: Role) -> (r: Point)
    ensures
        r == role_point(*c, role),
{
    match role {
        Role::Start => c.start,
        Role::Control1 => c.control1,
        Role::Control2 => c.control2,
        Role::End => c.end,
    }
}

/// One coordinate of one blended control point.
fn blend_coord(
    curves: &Vec<BezierCurve>,
    weights: &Vec<u128>,
    role: Role,
    want_y: bool,
    total: u128,
) -> (r: i32)
    requires
        blend_accepts(curves@, weights@),
        total == weight_sum(weights@, weights@.len() as int),
    ensures
        r == weighted(curves@, weights@, role, want_y, curves@.len() as int) / (total as int),
{
    let n = curves.len();
    let mut acc: i128 = 0;
    let mut i: usize = 0;
    while i < n
        invariant
            n == curves@.len(),
            blend_accepts(curves@, weights@),
            total == weight_sum(weights@, weights@.len() as int),
            i <= n,
            acc == weighted(curves@, weights@, role, want_y, i as int),
        decreases n - i,
    {
        let p = role_point_of(&curves[i], role);
        let x: i32 = if want_y {
            p.y
        } else {
            p.x
        };
        let wi = weights[i];
        proof {
            lemma_weighted_bounds(curves@, weights@, role, want_y, i32::MIN as int, i32::MAX as int, i + 1);
            lemma_weight_sum_monotone(weights@, i + 1, n as int);
            lemma_weight_sum_monotone(weights@, i as int, i + 1);
            let t = weight_sum(weights@, i + 1);
            assert(i32::MIN * t >= -0x80000000000000000000000000000000 && i32::MAX * t
                < 0x80000000000000000000000000000000) by (nonlinear_arith)
                requires
                    0 <= t <= 0x800000000000000000000000,
            ;
            assert(-0x40000000000000000000000000000000 <= wi * x <= 0x40000000000000000000000000000000)
                by (nonlinear_arith)
                requires
                    0 <= wi <= 0x800000000000000000000000,
                    -0x80000000 <= x <= 0x80000000,
            ;
        }
        assert(x as int == coord(role_point(curves@[i as int], role), want_y));
        assert(acc + wi * x == weighted(curves@, weights@, role, want_y, i + 1));
        assert(-0x80000000000000000000000000000000 <= acc + wi * x < 0x80000000000000000000000000000000);
        acc = acc + (wi as i128) * (x as i128);
        i = i + 1;
    }
    proof {
        lemma_blend_convex(curves@, weights@, role, want_y, i32::MIN as int, i32::MAX as int);
        lemma_weighted_bounds(curves@, weights@, role, want_y, i32::MIN as int, i32::MAX as int, n as int);
        assert(i32::MIN * total > -0x80000000000000000000000000000000) by (nonlinear_arith)
            requires
                0 < total <= 0x800000000000000000000000,
        ;
    }
    floor_div(acc, total as i128) as i32
}

fn blend_point(curves: &Vec<BezierCurve>, weights: &Vec<u128>, role: Role, total: u128) -> (r:
    Point)
    requires
        blend_accepts(curves@, weights@),
        total == weight_sum(weights@, weights@.len() as int),
    ensures
        r == blended_point(curves@, weights@, role),
{
    proof {
        lemma_blend_convex(curves@, weights@, role, false, i32::MIN as int, i32::MAX as int);
        lemma_blend_convex(curves@, weights@, role, true, i32::MIN as int, i32::MAX as int);
    }
    let x = blend_coord(curves, weights, role, false, total);
    let y = blend_coord(curves, weights, role, true, total);
    Point { x, y }
}

/// The weighted average of the curves, control point by control point, divided
/// by the total weight (so weights need not be normalized beforehand).
/// `InvalidArgument` when the two sequences differ in length, or the total
/// weight is zero or above `MAX_TOTAL_WEIGHT`.
pub fn interpolate_curves(curves: &Vec<BezierCurve>, weights: &Vec<u128>) -> (r: Result<
    BezierCurve,
    CurveError,
>)
    ensures
        blend_accepts(curves@, weights@) ==> r == Ok::<BezierCurve, CurveError>(
            blended(curves@, weights@),
        ),
        !blend_accepts(curves@, weights@) ==> r == Err::<BezierCurve, CurveError>(
            CurveError::InvalidArgument,
        ),
{
    if curves.len() != weights.len() {
        return Err(CurveError::InvalidArgument);
    }
    let n = weights.len();
    let mut total: u128 = 0;
    let mut i: usize = 0;
    while i < n
        invariant
            n == weights@.len(),
            i <= n,
            total == weight_sum(weights@, i as int),
            total <= MAX_TOTAL_WEIGHT,
        decreases n - i,
    {
        if weights[i] > MAX_TOTAL_WEIGHT - total {
            proof {
                lemma_weight_sum_monotone(weights@, i + 1, n as int);
            }
            return Err(CurveError::InvalidArgument);
        }
        total = total + weights[i];
        i = i + 1;
    }
    if total == 0 {
        return Err(CurveError::InvalidArgument);
    }
    let start = blend_point(curves, weights, Role::Start, total);
    let control1 = blend_point(curves, weights, Role::Control1, total);
    let control2 = blend_point(curves, weights, Role::Control2, total);
    let end = blend_point(curves, weights, Role::End, total);
    Ok(BezierCurve { start, control1, control2, end })
}

} // verus!
