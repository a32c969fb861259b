use crate::bezier_curve::BezierCurve;
use crate::point::{dist, distance, lemma_dist_zero_iff_equal, lemma_root_zero, lemma_sq_dist_nonneg, sq_dist};
use vstd::prelude::*;
use vstd::set_lib::{lemma_int_range, lemma_len_subset, set_int_range};

verus! {

/// Sum of the distances between corresponding control points of two curves.
pub open spec fn similarity(a: BezierCurve, b: BezierCurve) -> int {
    dist(a.start, b.start) + dist(a.control1, b.control1) + dist(a.control2, b.control2) + dist(
        a.end,
        b.end,
    )
}

/// Similarity of the database entry at `i` to the reference curve.
pub open spec fn score(reference: BezierCurve, db: Seq<BezierCurve>, i: int) -> int {
    similarity(reference, db[i])
}

/// Ranking order: lower similarity first, equal similarity by database position.
pub open spec fn ranks_before(reference: BezierCurve, db: Seq<BezierCurve>, i: int, j: int) -> bool {
    score(reference, db, i) < score(reference, db, j) || (score(reference, db, i) == score(
        reference,
        db,
        j,
    ) && i < j)
}

/// `r` lists positions of `db` in ranking order, and every position left out
/// ranks after every position listed.
pub open spec fn is_ranked_prefix(reference: BezierCurve, db: Seq<BezierCurve>, r: Seq<usize>) -> bool {
    &&& forall|k: int| 0 <= k < r.len() ==> r[k] < db.len()
    &&& forall|k1: int, k2: int|
        0 <= k1 < k2 < r.len() ==> ranks_before(reference, db, r[k1] as int, r[k2] as int)
    &&& forall|j: int, k: int|
        0 <= j < db.len() && !r.contains(j as usize) && 0 <= k < r.len() ==> ranks_before(
            reference,
            db,
            r[k] as int,
            j,
        )
}

/// Position `k` may come next after the positions already chosen, the last of
/// which (if any) is `last`.
spec fn follows(reference: BezierCurve, db: Seq<BezierCurve>, has_last: bool, last: int, k: int) -> bool {
    !has_last || ranks_before(reference, db, last, k)
}

pub fn curve_similarity(a: &BezierCurve, b: &BezierCurve) -> (r: u64)
    ensures
        r == similarity(*a, *b),
{
    distance(a.start, b.start) + distance(a.control1, b.control1) + distance(a.control2, b.control2)
        + distance(a.end, b.end)
}

/// A curve is at similarity zero from itself, and similarity does not depend
/// on the order of its two arguments.
pub proof fn lemma_similarity_identity_symmetric(a: BezierCurve, b: BezierCurve)
    ensures
        similarity(a, a) == 0,
        similarity(a, b) == similarity(b, a),
{
    lemma_root_zero();
    assert(sq_dist(a.start, a.start) == 0);
    assert(sq_dist(a.control1, a.control1) == 0);
    assert(sq_dist(a.control2, a.control2) == 0);
    assert(sq_dist(a.end, a.end) == 0);
    lemma_sq_dist_nonneg(a.start, b.start);
    lemma_sq_dist_nonneg(a.control1, b.control1);
    lemma_sq_dist_nonneg(a.control2, b.control2);
    lemma_sq_dist_nonneg(a.end, b.end);
}

/// Similarity is zero exactly between curves with the same four control points,
/// and positive otherwise.
pub proof fn lemma_similarity_zero_iff_equal(a: BezierCurve, b: BezierCurve)
    ensures
        similarity(a, b) >= 0,
        similarity(a, b) == 0 <==> a == b,
{
    lemma_dist_zero_iff_equal(a.start, b.start);
    lemma_dist_zero_iff_equal(a.control1, b.control1);
    lemma_dist_zero_iff_equal(a.control2, b.control2);
    lemma_dist_zero_iff_equal(a.end, b.end);
}

/// A ranked selection lists curves by non-decreasing similarity to the reference.
pub proof fn lemma_ranked_prefix_sorted(reference: BezierCurve, db: Seq<BezierCurve>, r: Seq<usize>)
    requires
        is_ranked_prefix(reference, db, r),
    ensures
        forall|k1: int, k2: int|
            0 <= k1 <= k2 < r.len() ==> similarity(reference, db[r[k1] as int]) <= similarity(
                reference,
                db[r[k2] as int],
            ),
{
    assert forall|k1: int, k2: int| 0 <= k1 <= k2 < r.len() implies similarity(
        reference,
        db[r[k1] as int],
    ) <= similarity(reference, db[r[k2] as int]) by {
        if k1 < k2 {
            assert(ranks_before(reference, db, r[k1] as int, r[k2] as int));
        }
    }
}

/// A sequence of fewer than `n` distinct positions misses some position below `n`.
proof fn lemma_some_left_out(r: Seq<usize>, n: int)
    requires
        r.len() < n <= usize::MAX,
        r.no_duplicates(),
    ensures
        exists|j: int| 0 <= j < n && !#[trigger] r.contains(j as usize),
{
    if forall|j: int| 0 <= j < n ==> #[trigger] r.contains(j as usize) {
        let ri = r.map_values(|x: usize| x as int);
        assert(ri.no_duplicates()) by {
            assert forall|a: int, b: int| 0 <= a < ri.len() && 0 <= b < ri.len() && a != b implies ri[a]
                != ri[b] by {
                assert(r[a] != r[b]);
            }
        }
        assert(set_int_range(0, n).subset_of(ri.to_set())) by {
            assert forall|j: int| set_int_range(0, n).contains(j) implies ri.to_set().contains(j) by {
                assert(r.contains(j as usize));
                let k = choose|k: int| 0 <= k < r.len() && r[k] == j as usize;
                assert(r[k] as int == j);
                assert(ri[k] == j);
            }
        }
        ri.unique_seq_to_set();
        lemma_int_range(0, n);
        vstd::seq_lib::seq_to_set_is_finite(ri);
        lemma_len_subset(set_int_range(0, n), ri.to_set());
    }
}

/// The positions of the `count` database curves most similar to `input`
/// (all of them when the database is smaller), most similar first; curves of
/// equal similarity keep their database order.
pub fn find_similar_curves(input: &BezierCurve, database: &Vec<BezierCurve>, count: usize) -> (r:
    Vec<usize>)
    ensures
        r@.len() == if count < database@.len() {
            count as int
        } else {
            database@.len() as int
        },
        is_ranked_prefix(*input, database@, r@),
{
    let n = database.len();
    let mut scores: Vec<u64> = Vec::new();
    let mut i: usize = 0;
    while i < n
        invariant
            n == database@.len(),
            i <= n,
            scores@.len() == i,
            forall|k: int| 0 <= k < i ==> scores@[k] == score(*input, database@, k),
        decreases n - i,
    {
        let s = curve_similarity(input, &database[i]);
        scores.push(s);
        i = i + 1;
    }
    let mut result: Vec<usize> = Vec::new();
    while result.len() < count && result.len() < n
        invariant
            n == database@.len(),
            scores@.len() == n,
            forall|k: int| 0 <= k < n ==> scores@[k] == score(*input, database@, k),
            result@.len() <= count,
            result@.len() <= n,
            is_ranked_prefix(*input, database@, result@),
            result@.len() > 0 ==> forall|j: int|
                0 <= j < n && ranks_before(*input, database@, j, result@.last() as int)
                    ==> result@.contains(j as usize),
        decreases n - result@.len(),
    {
        let ghost prev = result@;
        let has_last = result.len() > 0;
        let last: usize = if has_last {
            result[result.len() - 1]
        } else {
            0
        };
        let mut found = false;
        let mut best: usize = 0;
        let mut j: usize = 0;
        while j < n
            invariant
                n == database@.len(),
                scores@.len() == n,
                forall|k: int| 0 <= k < n ==> scores@[k] == score(*input, database@, k),
                j <= n,
                result@ == prev,
                has_last == (prev.len() > 0),
                has_last ==> last == prev.last() && last < n,
                found ==> best < j && follows(*input, database@, has_last, last as int, best as int),
                forall|k: int|
                    0 <= k < j && #[trigger] follows(*input, database@, has_last, last as int, k)
                        ==> found && (k == best || ranks_before(*input, database@, best as int, k)),
            decreases n - j,
        {
            let candidate = !has_last || scores[last] < scores[j] || (scores[last] == scores[j]
                && last < j);
            proof {
                assert(scores@[j as int] == score(*input, database@, j as int));
                if has_last {
                    assert(scores@[last as int] == score(*input, database@, last as int));
                }
                assert(candidate == follows(*input, database@, has_last, last as int, j as int));
                if found {
                    assert(scores@[best as int] == score(*input, database@, best as int));
                }
            }
            if candidate {
                if !found || scores[j] < scores[best] {
                    best = j;
                    found = true;
                }
            }
            j = j + 1;
        }
        proof {
            assert(prev.no_duplicates()) by {
                assert forall|a: int, b: int| 0 <= a < prev.len() && 0 <= b < prev.len() && a != b implies prev[a]
                    != prev[b] by {
                    if a < b {
                        assert(ranks_before(*input, database@, prev[a] as int, prev[b] as int));
                    } else {
                        assert(ranks_before(*input, database@, prev[b] as int, prev[a] as int));
                    }
                }
            }
            lemma_some_left_out(prev, n as int);
            let j0 = choose|j0: int| 0 <= j0 < n && !#[trigger] prev.contains(j0 as usize);
            if has_last {
                assert(prev[prev.len() - 1] == last);
                if j0 == last as int {
                    assert(prev.contains(last));
                } else if ranks_before(*input, database@, j0, last as int) {
                    assert(prev.contains(j0 as usize));
                }
            }
            assert(follows(*input, database@, has_last, last as int, j0));
            assert(found);
        }
        result.push(best);
        proof {
            let r = result@;
            assert(r.last() == best);
            assert forall|k: int| 0 <= k < prev.len() implies ranks_before(
                *input,
                database@,
                r[k] as int,
                best as int,
            ) by {
                assert(r[k] == prev[k]);
                assert(prev[prev.len() - 1] == last);
                if k < prev.len() - 1 {
                    assert(ranks_before(*input, database@, prev[k] as int, last as int));
                }
            }
            assert forall|j: int|
                0 <= j < n && ranks_before(*input, database@, j, best as int) implies r.contains(
                j as usize,
            ) by {
                if has_last && !ranks_before(*input, database@, last as int, j) {
                    if j == last {
                        assert(r[prev.len() - 1] == last);
                    } else {
                        assert(prev.contains(j as usize));
                        let kk = choose|kk: int| 0 <= kk < prev.len() && prev[kk] == j as usize;
                        assert(r[kk] == j);
                    }
                } else {
                    assert(follows(*input, database@, has_last, last as int, j));
                }
            }
            assert forall|j: int, k: int|
                0 <= j < n && !r.contains(j as usize) && 0 <= k < r.len() implies ranks_before(
                *input,
                database@,
                r[k] as int,
                j,
            ) by {
                assert(!prev.contains(j as usize)) by {
                    if prev.contains(j as usize) {
                        let kk = choose|kk: int| 0 <= kk < prev.len() && prev[kk] == j as usize;
                        assert(r[kk] == j);
                    }
                }
                assert(j != best) by {
                    assert(r[prev.len() as int] == best);
                }
                if !has_last || ranks_before(*input, database@, last as int, j) {
                    assert(follows(*input, database@, has_last, last as int, j));
                } else {
                    if j == last {
                        assert(prev.contains(last)) by {
                            assert(prev[prev.len() - 1] == last);
                        }
                    }
                    assert(ranks_before(*input, database@, j, last as int));
                    assert(prev.contains(j as usize));
                }
                if k < prev.len() {
                    assert(r[k] == prev[k]);
                }
            }
        }
    }
    result
}

} // verus!
