use crate::point::{dist, distance, Point};
use vstd::prelude::*;

verus! {

/// Smallest distance used in weighting (a tenth of a unit), so that a point on
/// a vertex gives no singular weight.
pub const WEIGHT_EPSILON: u64 = 100000;

/// Distance from `p` to `q`, raised to at least `WEIGHT_EPSILON`.
pub open spec fn floored_dist(p: Point, q: Point) -> int {
    if dist(p, q) < WEIGHT_EPSILON {
        WEIGHT_EPSILON as int
    } else {
        dist(p, q)
    }
}

/// Largest floored distance from `p` to the first `i` vertices (zero for none).
pub open spec fn max_floored(p: Point, v: Seq<Point>, i: int) -> int
    decreases i,
{
    if i <= 0 {
        0
    } else if max_floored(p, v, i - 1) < floored_dist(p, v[i - 1]) {
        floored_dist(p, v[i - 1])
    } else {
        max_floored(p, v, i - 1)
    }
}

/// Unnormalized weight of vertex `i`: the margin by which it is nearer than the
/// farthest vertex, plus `WEIGHT_EPSILON`, squared.
pub open spec fn raw_weight(p: Point, v: Seq<Point>, i: int) -> int {
    let base = max_floored(p, v, v.len() as int) - floored_dist(p, v[i]) + WEIGHT_EPSILON;
    base * base
}

/// Sum of the first `i` entries of `w`.
pub open spec fn weight_sum(w: Seq<u128>, i: int) -> int
    decreases i,
{
    if i <= 0 {
        0
    } else {
        weight_sum(w, i - 1) + w[i - 1]
    }
}

pub proof fn lemma_weight_sum_monotone(w: Seq<u128>, i: int, j: int)
    requires
        0 <= i <= j <= w.len(),
    ensures
        0 <= weight_sum(w, i) <= weight_sum(w, j),
    decreases j,
{
    if j > 0 {
        if i < j {
            lemma_weight_sum_monotone(w, i, j - 1);
        } else {
            lemma_weight_sum_monotone(w, i - 1, j - 1);
        }
    }
}

proof fn lemma_max_floored_bounds(p: Point, v: Seq<Point>, i: int)
    requires
        0 <= i <= v.len(),
    ensures
        forall|k: int| 0 <= k < i ==> floored_dist(p, v[k]) <= max_floored(p, v, i),
        i > 0 ==> WEIGHT_EPSILON <= max_floored(p, v, i),
    decreases i,
{
    if i > 0 {
        lemma_max_floored_bounds(p, v, i - 1);
    }
}

/// Inverse-distance weights of the vertices for `point`: vertex `i` gets
/// `raw_weight`, and its normalized weight is that over the sum of all of them.
pub fn calculate_weights(point: Point, vertices: &Vec<Point>) -> (r: Vec<u128>)
    ensures
        r@.len() == vertices@.len(),
        forall|i: int| 0 <= i < r@.len() ==> r@[i] == raw_weight(point, vertices@, i),
{
    let n = vertices.len();
    let mut dists: Vec<u64> = Vec::new();
    let mut max_distance: u64 = 0;
    let mut i: usize = 0;
    while i < n
        invariant
            n == vertices@.len(),
            i <= n,
            dists@.len() == i,
            forall|k: int| 0 <= k < i ==> dists@[k] == floored_dist(point, vertices@[k]),
            max_distance == max_floored(point, vertices@, i as int),
            max_distance < 0x400000000,
        decreases n - i,
    {
        let d0 = distance(point, vertices[i]);
        let d = if d0 < WEIGHT_EPSILON {
            WEIGHT_EPSILON
        } else {
            d0
        };
        dists.push(d);
        if max_distance < d {
            max_distance = d;
        }
        i = i + 1;
    }
    proof {
        lemma_max_floored_bounds(point, vertices@, n as int);
    }
    let mut weights: Vec<u128> = Vec::new();
    let mut k: usize = 0;
    while k < n
        invariant
            n == vertices@.len(),
            k <= n,
            dists@.len() == n,
            forall|j: int| 0 <= j < n ==> dists@[j] == floored_dist(point, vertices@[j]),
            forall|j: int| 0 <= j < n ==> floored_dist(point, vertices@[j]) <= max_distance,
            max_distance == max_floored(point, vertices@, n as int),
            max_distance < 0x400000000,
            weights@.len() == k,
            forall|j: int| 0 <= j < k ==> weights@[j] == raw_weight(point, vertices@, j),
        decreases n - k,
    {
        let base: u128 = (max_distance - dists[k]) as u128 + WEIGHT_EPSILON as u128;
        assert(base * base < 0x10000000000000000000) by (nonlinear_arith)
            requires
                base < 0x800000000,
        ;
        weights.push(base * base);
        k = k + 1;
    }
    weights
}

/// Every vertex gets a positive weight, so the weights normalized by their sum
/// are all positive and add up to one.
pub proof fn lemma_weights_positive(p: Point, v: Seq<Point>)
    ensures
        forall|i: int| 0 <= i < v.len() ==> #[trigger] raw_weight(p, v, i) > 0,
{
    lemma_max_floored_bounds(p, v, v.len() as int);
    assert forall|i: int| 0 <= i < v.len() implies #[trigger] raw_weight(p, v, i) > 0 by {
        let base = max_floored(p, v, v.len() as int) - floored_dist(p, v[i]) + WEIGHT_EPSILON;
        assert(base > 0);
        assert(base * base > 0) by (nonlinear_arith)
            requires
                base > 0,
        ;
    }
}

/// The weights of a non-empty polygon's vertices are positive and each is at
/// most their sum: divided by that sum they lie in `(0, 1]` and add up to one.
pub proof fn lemma_weights_normalize(p: Point, v: Seq<Point>, w: Seq<u128>)
    requires
        v.len() > 0,
        w.len() == v.len(),
        forall|i: int| 0 <= i < w.len() ==> w[i] == raw_weight(p, v, i),
    ensures
        weight_sum(w, w.len() as int) > 0,
        forall|i: int| 0 <= i < w.len() ==> 0 < #[trigger] w[i] <= weight_sum(w, w.len() as int),
{
    lemma_weights_positive(p, v);
    let n = w.len() as int;
    assert forall|i: int| 0 <= i < n implies 0 < #[trigger] w[i] <= weight_sum(w, n) by {
        assert(raw_weight(p, v, i) > 0);
        lemma_weight_sum_monotone(w, 0, i);
        lemma_weight_sum_monotone(w, i + 1, n);
    }
    assert(w[0] > 0);
}

} // verus!
