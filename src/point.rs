use vstd::prelude::*;

verus! {

/// Number of integer steps in one unit of the plane (coordinates are in millionths).
pub const UNIT: i32 = 1000000;

/// A point of the plane, in fixed-point coordinates.
#[derive(Clone, Copy, Debug, PartialEq, Eq, Structural)]
pub struct Point {
    pub x: i32,
    pub y: i32,
}

/// Squared Euclidean distance between two points.
pub open spec fn sq_dist(p: Point, q: Point) -> int {
    (p.x - q.x) * (p.x - q.x) + (p.y - q.y) * (p.y - q.y)
}

/// `r` is the integer square root of `n`, rounded down.
pub open spec fn is_root(n: int, r: int) -> bool {
    0 <= r && r * r <= n && n < (r + 1) * (r + 1)
}

/// The integer square root of `n` (rounded down), for `n >= 0`.
pub open spec fn root(n: int) -> int {
    choose|r: int| is_root(n, r)
}

/// Euclidean distance between two points, rounded down to a whole step.
pub open spec fn dist(p: Point, q: Point) -> int {
    root(sq_dist(p, q))
}

pub proof fn lemma_root_unique(n: int, a: int, b: int)
    requires
        is_root(n, a),
        is_root(n, b),
    ensures
        a == b,
{
    if a < b {
        assert((a + 1) * (a + 1) <= b * b) by (nonlinear_arith)
            requires
                0 <= a,
                a + 1 <= b,
        ;
    } else if b < a {
        assert((b + 1) * (b + 1) <= a * a) by (nonlinear_arith)
            requires
                0 <= b,
                b + 1 <= a,
        ;
    }
}

/// Whenever `r` is the rounded-down root of `n`, `root(n)` is `r`.
pub proof fn lemma_root_is(n: int, r: int)
    requires
        is_root(n, r),
    ensures
        root(n) == r,
{
    assert(is_root(n, root(n)));
    lemma_root_unique(n, r, root(n));
}

/// Every non-negative integer has a rounded-down square root.
pub proof fn lemma_root_exists(n: int)
    requires
        n >= 0,
    ensures
        is_root(n, root(n)),
    decreases n,
{
    if n == 0 {
        assert(is_root(0, 0));
    } else {
        lemma_root_exists(n - 1);
        let r = root(n - 1);
        if (r + 1) * (r + 1) <= n {
            assert((r + 1) * (r + 1) < (r + 2) * (r + 2)) by (nonlinear_arith)
                requires
                    r >= 0,
            ;
            assert(is_root(n, r + 1));
        } else {
            assert(is_root(n, r));
        }
    }
}

/// Distances are non-negative, and zero exactly between equal points.
pub proof fn lemma_dist_zero_iff_equal(p: Point, q: Point)
    ensures
        dist(p, q) >= 0,
        dist(p, q) == 0 <==> p == q,
{
    lemma_sq_dist_nonneg(p, q);
    lemma_root_exists(sq_dist(p, q));
    let dx = p.x - q.x;
    let dy = p.y - q.y;
    if dist(p, q) == 0 {
        assert(dx * dx + dy * dy < 1);
        assert(dx == 0 && dy == 0) by (nonlinear_arith)
            requires
                dx * dx + dy * dy < 1,
        ;
    }
    if p == q {
        assert(dx * dx + dy * dy == 0) by (nonlinear_arith)
            requires
                dx == 0,
                dy == 0,
        ;
        lemma_root_zero();
    }
}

pub proof fn lemma_root_zero()
    ensures
        root(0) == 0,
{
    lemma_root_is(0, 0);
}

pub proof fn lemma_sq_dist_nonneg(p: Point, q: Point)
    ensures
        0 <= sq_dist(p, q),
        sq_dist(p, q) == sq_dist(q, p),
        sq_dist(p, q) < 0x20000000000000000,
{
    let dx = p.x - q.x;
    let dy = p.y - q.y;
    assert(0 <= dx * dx && 0 <= dy * dy) by (nonlinear_arith);
    assert(dx * dx == (-dx) * (-dx)) by (nonlinear_arith);
    assert(dy * dy == (-dy) * (-dy)) by (nonlinear_arith);
    assert(dx * dx <= 0x10000000000000000) by (nonlinear_arith)
        requires
            -0x100000000 <= dx <= 0x100000000,
    ;
    assert(dy * dy < 0x10000000000000000) by (nonlinear_arith)
        requires
            -0x100000000 < dy < 0x100000000,
    ;
}

/// Rounded-down square root of `n`.
pub fn isqrt(n: u128) -> (r: u64)
    requires
        n < 0x100000000000000000,
    ensures
        is_root(n as int, r as int),
        r == root(n as int),
        r < 0x400000000,
{
    let mut lo: u128 = 0;
    let mut hi: u128 = 0x400000000;
    while hi - lo > 1
        invariant
            lo < hi <= 0x400000000,
            lo * lo <= n,
            n < hi * hi,
        decreases hi - lo,
    {
        let mid: u128 = lo + (hi - lo) / 2;
        assert(mid * mid <= 0x400000000 * 0x400000000) by (nonlinear_arith)
            requires
                mid <= 0x400000000,
        ;
        if mid * mid <= n {
            lo = mid;
        } else {
            hi = mid;
        }
    }
    assert(hi == lo + 1);
    proof {
        lemma_root_is(n as int, lo as int);
    }
    lo as u64
}

/// Squared distance between two points, computed exactly.
pub fn squared_distance(p: Point, q: Point) -> (r: u128)
    ensures
        r == sq_dist(p, q),
{
    proof {
        lemma_sq_dist_nonneg(p, q);
    }
    let dx: i128 = p.x as i128 - q.x as i128;
    let dy: i128 = p.y as i128 - q.y as i128;
    assert(dx * dx <= 0x10000000000000000 && 0 <= dx * dx) by (nonlinear_arith)
        requires
            -0x100000000 <= dx <= 0x100000000,
    ;
    assert(dy * dy <= 0x10000000000000000 && 0 <= dy * dy) by (nonlinear_arith)
        requires
            -0x100000000 <= dy <= 0x100000000,
    ;
    (dx * dx + dy * dy) as u128
}

/// Euclidean distance between two points, rounded down to a whole step.
pub fn distance(p: Point, q: Point) -> (r: u64)
    ensures
        r == dist(p, q),
        r < 0x400000000,
{
    proof {
        lemma_sq_dist_nonneg(p, q);
    }
    isqrt(squared_distance(p, q))
}

/// Division rounded towards negative infinity, for a positive divisor.
pub fn floor_div(n: i128, d: i128) -> (q: i128)
    requires
        d > 0,
        n > i128::MIN,
    ensures
        q == n / d,
{
    if n >= 0 {
        let q: u128 = (n as u128) / (d as u128);
        proof {
            vstd::arithmetic::div_mod::lemma_div_is_ordered_by_denominator(n as int, 1, d as int);
        }
        q as i128
    } else {
        let m: u128 = (-n) as u128 + (d as u128 - 1);
        let q: u128 = m / (d as u128);
        proof {
            let (mi, di, qi) = (m as int, d as int, q as int);
            vstd::arithmetic::div_mod::lemma_fundamental_div_mod(mi, di);
            assert(qi == mi / di);
            assert(di * qi == qi * di) by (nonlinear_arith);
            assert(qi * di <= mi < qi * di + di);
            assert(qi <= -n) by (nonlinear_arith)
                requires
                    qi * di <= -n + di - 1,
                    di >= 1,
                    -n >= 1,
            ;
            assert((-qi) * di == -(qi * di)) by (nonlinear_arith);
            vstd::arithmetic::div_mod::lemma_fundamental_div_mod_converse(
                n as int,
                di,
                -qi,
                n + qi * di,
            );
        }
        -(q as i128)
    }
}

} // verus!
