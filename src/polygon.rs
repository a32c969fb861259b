use crate::point::{floor_div, sq_dist, squared_distance, Point};
use vstd::prelude::*;

verus! {

/// The horizontal ray from `p` towards positive x crosses the edge from `a` to `b`:
/// the edge straddles the ray's height and meets it to the right of `p`,
/// decided exactly by cross-multiplying with the edge's height difference.
pub open spec fn edge_crosses(p: Point, a: Point, b: Point) -> bool {
    let dy = b.y - a.y;
    let lhs = (p.x - a.x) * dy;
    let rhs = (b.x - a.x) * (p.y - a.y);
    ((a.y > p.y) != (b.y > p.y)) && if dy > 0 {
        lhs < rhs
    } else {
        lhs > rhs
    }
}

/// Index of the vertex before `i`, wrapping from the first to the last.
pub open spec fn prev_index(n: int, i: int) -> int {
    if i == 0 {
        n - 1
    } else {
        i - 1
    }
}

/// Number of edges among the first `i` (edge `k` joins vertex `k` to the one before)
/// that the ray from `p` crosses.
pub open spec fn crossings(p: Point, v: Seq<Point>, i: int) -> nat
    decreases i,
{
    if i <= 0 {
        0
    } else {
        crossings(p, v, i - 1) + if edge_crosses(p, v[i - 1], v[prev_index(v.len() as int, i - 1)]) {
            1nat
        } else {
            0nat
        }
    }
}

/// `p` is inside the polygon by the parity of ray crossings.
pub open spec fn inside(p: Point, v: Seq<Point>) -> bool {
    crossings(p, v, v.len() as int) % 2 == 1
}

/// Projection of `p` onto the segment from `a` to `b`, with the projection
/// parameter clamped to `[0, 1]` and each coordinate rounded down; `a` when the
/// segment has no length.
pub open spec fn closest_on_edge(p: Point, a: Point, b: Point) -> Point {
    let ex = b.x - a.x;
    let ey = b.y - a.y;
    let ee = ex * ex + ey * ey;
    let dot = (p.x - a.x) * ex + (p.y - a.y) * ey;
    if ee == 0 || dot <= 0 {
        a
    } else if dot >= ee {
        b
    } else {
        Point { x: (a.x + (ex * dot) / ee) as i32, y: (a.y + (ey * dot) / ee) as i32 }
    }
}

/// The closest point of edge `i` (from vertex `i` to the next, wrapping) to `p`.
pub open spec fn edge_point(p: Point, v: Seq<Point>, i: int) -> Point {
    closest_on_edge(p, v[i], v[(i + 1) % (v.len() as int)])
}

pub fn point_in_polygon(point: Point, vertices: &Vec<Point>) -> (r: bool)
    ensures
        r == inside(point, vertices@),
{
    let n = vertices.len();
    let mut inside_now = false;
    let mut i: usize = 0;
    while i < n
        invariant
            n == vertices@.len(),
            i <= n,
            inside_now == (crossings(point, vertices@, i as int) % 2 == 1),
        decreases n - i,
    {
        let j: usize = if i == 0 {
            n - 1
        } else {
            i - 1
        };
        let a = vertices[i];
        let b = vertices[j];
        let dy: i128 = b.y as i128 - a.y as i128;
        let dpx: i128 = point.x as i128 - a.x as i128;
        let dpy: i128 = point.y as i128 - a.y as i128;
        let ex: i128 = b.x as i128 - a.x as i128;
        assert(-0x10000000000000000 <= dpx * dy <= 0x10000000000000000) by (nonlinear_arith)
            requires
                -0x100000000 <= dpx <= 0x100000000,
                -0x100000000 <= dy <= 0x100000000,
        ;
        assert(-0x10000000000000000 <= ex * dpy <= 0x10000000000000000) by (nonlinear_arith)
            requires
                -0x100000000 <= ex <= 0x100000000,
                -0x100000000 <= dpy <= 0x100000000,
        ;
        let lhs: i128 = dpx * dy;
        let rhs: i128 = ex * dpy;
        let straddles = (a.y > point.y) != (b.y > point.y);
        let crosses = straddles && if dy > 0 {
            lhs < rhs
        } else {
            lhs > rhs
        };
        assert(crosses == edge_crosses(point, vertices@[i as int], vertices@[j as int]));
        if crosses {
            inside_now = !inside_now;
        }
        i = i + 1;
    }
    inside_now
}

proof fn lemma_scaled_share(e: int, dot: int, ee: int)
    requires
        0 < dot < ee,
    ensures
        e >= 0 ==> 0 <= (e * dot) / ee <= e,
        e < 0 ==> e <= (e * dot) / ee <= 0,
{
    vstd::arithmetic::div_mod::lemma_div_multiples_vanish(e, ee);
    vstd::arithmetic::div_mod::lemma_div_multiples_vanish(0, ee);
    assert(ee * e == e * ee) by (nonlinear_arith);
    if e >= 0 {
        assert(0 <= e * dot <= e * ee) by (nonlinear_arith)
            requires
                e >= 0,
                0 < dot < ee,
        ;
        vstd::arithmetic::div_mod::lemma_div_is_ordered(0, e * dot, ee);
        vstd::arithmetic::div_mod::lemma_div_is_ordered(e * dot, e * ee, ee);
    } else {
        assert(e * ee <= e * dot <= 0) by (nonlinear_arith)
            requires
                e < 0,
                0 < dot < ee,
        ;
        vstd::arithmetic::div_mod::lemma_div_is_ordered(e * ee, e * dot, ee);
        vstd::arithmetic::div_mod::lemma_div_is_ordered(e * dot, 0, ee);
    }
}

/// The point of the segment from `v1` to `v2` nearest to `point` (rounded down
/// to whole steps); `v1` when the segment has no length.
pub fn closest_point_on_edge(point: Point, v1: Point, v2: Point) -> (r: Point)
    ensures
        r == closest_on_edge(point, v1, v2),
{
    let ex: i128 = v2.x as i128 - v1.x as i128;
    let ey: i128 = v2.y as i128 - v1.y as i128;
    let px: i128 = point.x as i128 - v1.x as i128;
    let py: i128 = point.y as i128 - v1.y as i128;
    assert(0 <= ex * ex <= 0x10000000000000000 && 0 <= ey * ey <= 0x10000000000000000)
        by (nonlinear_arith)
        requires
            -0x100000000 <= ex <= 0x100000000,
            -0x100000000 <= ey <= 0x100000000,
    ;
    assert(-0x10000000000000000 <= px * ex <= 0x10000000000000000 && -0x10000000000000000 <= py
        * ey <= 0x10000000000000000) by (nonlinear_arith)
        requires
            -0x100000000 <= ex <= 0x100000000,
            -0x100000000 <= ey <= 0x100000000,
            -0x100000000 <= px <= 0x100000000,
            -0x100000000 <= py <= 0x100000000,
    ;
    let ee: i128 = ex * ex + ey * ey;
    let dot: i128 = px * ex + py * ey;
    if ee == 0 || dot <= 0 {
        v1
    } else if dot >= ee {
        v2
    } else {
        assert(-0x2000000000000000000000000 <= ex * dot <= 0x2000000000000000000000000 && -0x2000000000000000000000000
            <= ey * dot <= 0x2000000000000000000000000) by (nonlinear_arith)
            requires
                -0x100000000 <= ex <= 0x100000000,
                -0x100000000 <= ey <= 0x100000000,
                0 < dot <= 0x20000000000000000,
        ;
        let qx = floor_div(ex * dot, ee);
        let qy = floor_div(ey * dot, ee);
        proof {
            lemma_scaled_share(ex as int, dot as int, ee as int);
            lemma_scaled_share(ey as int, dot as int, ee as int);
        }
        Point { x: (v1.x as i128 + qx) as i32, y: (v1.y as i128 + qy) as i32 }
    }
}

/// `r` is the closest point to `p` of edge `k`, no edge has a closer one, and
/// no earlier edge has one as close.
pub open spec fn is_nearest_edge_point(p: Point, v: Seq<Point>, k: int, r: Point) -> bool {
    &&& 0 <= k < v.len()
    &&& r == edge_point(p, v, k)
    &&& forall|i: int| 0 <= i < v.len() ==> sq_dist(p, #[trigger] edge_point(p, v, i)) >= sq_dist(p, r)
    &&& forall|i: int| 0 <= i < k ==> sq_dist(p, #[trigger] edge_point(p, v, i)) > sq_dist(p, r)
}

/// `point` itself when it lies inside the polygon; otherwise the nearest of the
/// edges' closest points, the first edge winning a tie.
pub fn clamp_to_polygon(point: Point, vertices: &Vec<Point>) -> (r: Point)
    requires
        vertices@.len() > 0,
    ensures
        inside(point, vertices@) ==> r == point,
        !inside(point, vertices@) ==> exists|k: int| is_nearest_edge_point(point, vertices@, k, r),
{
    if point_in_polygon(point, vertices) {
        return point;
    }
    let n = vertices.len();
    let mut closest = closest_point_on_edge(point, vertices[0], vertices[1 % n]);
    let mut min_distance = squared_distance(point, closest);
    let ghost mut best_k: int = 0;
    let mut i: usize = 1;
    while i < n
        invariant
            n == vertices@.len(),
            1 <= i <= n,
            0 <= best_k < i,
            closest == edge_point(point, vertices@, best_k),
            min_distance == sq_dist(point, closest),
            forall|k: int| 0 <= k < i ==> sq_dist(point, #[trigger] edge_point(point, vertices@, k)) >= min_distance,
            forall|k: int| 0 <= k < best_k ==> sq_dist(point, #[trigger] edge_point(point, vertices@, k)) > min_distance,
        decreases n - i,
    {
        let edge = closest_point_on_edge(point, vertices[i], vertices[(i + 1) % n]);
        let d = squared_distance(point, edge);
        assert(edge == edge_point(point, vertices@, i as int));
        if d < min_distance {
            closest = edge;
            min_distance = d;
            proof {
                best_k = i as int;
            }
        }
        i = i + 1;
    }
    assert(is_nearest_edge_point(point, vertices@, best_k, closest));
    closest
}

/// The closest point of an edge lies between the edge's endpoints in each
/// coordinate: a clamped point outside the polygon ends on its boundary, up to
/// the rounding of the projection to whole steps.
pub proof fn lemma_edge_point_between(p: Point, a: Point, b: Point)
    ensures
        ({
            let r = closest_on_edge(p, a, b);
            &&& (a.x <= r.x <= b.x || b.x <= r.x <= a.x)
            &&& (a.y <= r.y <= b.y || b.y <= r.y <= a.y)
        }),
{
    let ex = b.x - a.x;
    let ey = b.y - a.y;
    let ee = ex * ex + ey * ey;
    let dot = (p.x - a.x) * ex + (p.y - a.y) * ey;
    if ee != 0 && dot > 0 && dot < ee {
        lemma_scaled_share(ex, dot, ee);
        lemma_scaled_share(ey, dot, ee);
    }
}

} // verus!
