use curve_blend::bezier_curve::BezierCurve;
use curve_blend::database::{create_curve_database, create_input_curve};
use curve_blend::interpolation::{interpolate_curves, CurveError, MAX_TOTAL_WEIGHT};
use curve_blend::point::{distance, isqrt, Point, UNIT};
use curve_blend::polygon::{clamp_to_polygon, closest_point_on_edge, point_in_polygon};
use curve_blend::similarity::{curve_similarity, find_similar_curves};
use curve_blend::weights::calculate_weights;

fn pt(x: i32, y: i32) -> Point {
    Point { x, y }
}

fn units(x: i32, y: i32) -> Point {
    Point { x: x * UNIT, y: y * UNIT }
}

fn curve(a: Point, b: Point, c: Point, d: Point) -> BezierCurve {
    BezierCurve::new(a, b, c, d)
}

fn square() -> Vec<Point> {
    vec![pt(0, 0), pt(10, 0), pt(10, 10), pt(0, 10)]
}

fn pentagon() -> Vec<Point> {
    vec![
        pt(0, -1000000),
        pt(951057, -309017),
        pt(587785, 809017),
        pt(-587785, 809017),
        pt(-951057, -309017),
    ]
}

#[test]
fn integer_square_root_rounds_down() {
    assert_eq!(isqrt(0), 0);
    assert_eq!(isqrt(24), 4);
    assert_eq!(isqrt(25), 5);
    assert_eq!(isqrt(26), 5);
    assert_eq!(distance(pt(0, 0), pt(3, 4)), 5);
    assert_eq!(distance(pt(i32::MIN, i32::MIN), pt(i32::MAX, i32::MAX)), 6074000998);
}

#[test]
fn point_at_ends_of_the_parameter_range() {
    let c = create_input_curve();
    for d in [1u16, 2, 7, 20, 1000] {
        assert_eq!(c.point_at(0, d), Some(c.start));
        assert_eq!(c.point_at(d as i16, d), Some(c.end));
    }
}

#[test]
fn point_at_midpoint_is_exact() {
    let c = curve(pt(0, 0), pt(0, 8), pt(8, 8), pt(8, 0));
    assert_eq!(c.point_at(1, 2), Some(pt(4, 6)));
    assert_eq!(c.point_at(10, 20), Some(pt(4, 6)));
}

#[test]
fn point_at_extrapolates_and_rejects_zero_denominator() {
    let c = curve(pt(0, 0), pt(1, 1), pt(2, 2), pt(3, 3));
    assert_eq!(c.point_at(2, 1), Some(pt(6, 6)));
    assert_eq!(c.point_at(-1, 1), Some(pt(-3, -3)));
    assert_eq!(c.point_at(1, 0), None);
    let far = curve(pt(0, 0), pt(i32::MAX, 0), pt(i32::MAX, 0), pt(i32::MAX, 0));
    assert_eq!(far.point_at(2, 1), None);
}

#[test]
fn similarity_of_a_curve_with_itself_is_zero_and_symmetric() {
    let db = create_curve_database();
    let input = create_input_curve();
    for c in &db {
        assert_eq!(curve_similarity(c, c), 0);
        assert_eq!(curve_similarity(&input, c), curve_similarity(c, &input));
    }
}

#[test]
fn similarity_of_reference_and_slight_curve() {
    let db = create_curve_database();
    let input = create_input_curve();
    // distance((40,-40),(33,-33)) + distance((60,-40),(66,-33)), about 19.1 units
    assert_eq!(curve_similarity(&input, &db[0]), 9899494 + 9219544);
    assert_eq!(curve_similarity(&input, &db[0]), 19119038);
}

#[test]
fn similar_curves_are_ranked_most_similar_first() {
    let db = create_curve_database();
    let input = create_input_curve();
    let r = find_similar_curves(&input, &db, 5);
    assert_eq!(r, vec![0, 4, 1, 2, 3]);
    for k in 1..r.len() {
        assert!(curve_similarity(&input, &db[r[k - 1]]) <= curve_similarity(&input, &db[r[k]]));
    }
}

#[test]
fn similar_curves_count_is_clamped_to_database_size() {
    let db = create_curve_database();
    let input = create_input_curve();
    assert_eq!(find_similar_curves(&input, &db, 2), vec![0, 4]);
    assert_eq!(find_similar_curves(&input, &db, 9).len(), 5);
    assert_eq!(find_similar_curves(&input, &db, 0), Vec::<usize>::new());
    assert_eq!(find_similar_curves(&input, &Vec::new(), 3), Vec::<usize>::new());
}

#[test]
fn similar_curves_ties_keep_database_order() {
    let input = create_input_curve();
    let a = curve(units(0, 0), units(1, 0), units(2, 0), units(3, 0));
    let db = vec![a, input, a, input, a];
    assert_eq!(find_similar_curves(&input, &db, 5), vec![1, 3, 0, 2, 4]);
}

#[test]
fn point_in_square() {
    let sq = square();
    assert!(point_in_polygon(pt(5, 5), &sq));
    assert!(point_in_polygon(pt(1, 9), &sq));
    assert!(!point_in_polygon(pt(15, 5), &sq));
    assert!(!point_in_polygon(pt(-1, 5), &sq));
    assert!(!point_in_polygon(pt(5, 11), &sq));
    assert!(!point_in_polygon(pt(5, 5), &Vec::new()));
}

#[test]
fn point_on_square_boundary_is_classified_consistently() {
    let sq = square();
    assert!(point_in_polygon(pt(0, 5), &sq));
    assert!(!point_in_polygon(pt(10, 5), &sq));
}

#[test]
fn closest_point_on_edge_clamps_projection() {
    assert_eq!(closest_point_on_edge(pt(5, 7), pt(0, 0), pt(10, 0)), pt(5, 0));
    assert_eq!(closest_point_on_edge(pt(-5, 7), pt(0, 0), pt(10, 0)), pt(0, 0));
    assert_eq!(closest_point_on_edge(pt(15, -3), pt(0, 0), pt(10, 0)), pt(10, 0));
    assert_eq!(closest_point_on_edge(pt(3, 0), pt(0, 0), pt(2, 2)), pt(1, 1));
    assert_eq!(closest_point_on_edge(pt(4, 4), pt(1, 2), pt(1, 2)), pt(1, 2));
}

#[test]
fn clamp_keeps_inside_points() {
    let sq = square();
    assert_eq!(clamp_to_polygon(pt(5, 5), &sq), pt(5, 5));
    assert_eq!(clamp_to_polygon(pt(1, 2), &sq), pt(1, 2));
    let pg = pentagon();
    assert_eq!(clamp_to_polygon(pt(0, 0), &pg), pt(0, 0));
}

#[test]
fn clamp_moves_outside_points_to_the_boundary() {
    let sq = square();
    assert_eq!(clamp_to_polygon(pt(15, 5), &sq), pt(10, 5));
    assert_eq!(clamp_to_polygon(pt(20, 20), &sq), pt(10, 10));
    assert_eq!(clamp_to_polygon(pt(5, -7), &sq), pt(5, 0));
    assert_eq!(clamp_to_polygon(pt(-3, 4), &sq), pt(0, 4));
}

#[test]
fn weights_at_pentagon_centre_are_equal() {
    let w = calculate_weights(pt(0, 0), &pentagon());
    let total: u128 = w.iter().sum();
    assert_eq!(w.len(), 5);
    for &x in &w {
        let share = x as f64 / total as f64;
        assert!((share - 0.2).abs() < 1e-5);
    }
}

#[test]
fn weights_are_positive_and_favour_near_vertices() {
    let pg = pentagon();
    let w = calculate_weights(pt(0, -900000), &pg);
    let total: u128 = w.iter().sum();
    assert!(w.iter().all(|&x| x > 0));
    let shares: Vec<f64> = w.iter().map(|&x| x as f64 / total as f64).collect();
    assert!((shares.iter().sum::<f64>() - 1.0).abs() < 1e-5);
    assert!(w[0] > w[1] && w[0] > w[4]);
    assert!(w[1] > w[2]);
}

#[test]
fn weights_exact_values() {
    // distances 0 (raised to 100000) and 1000000 from the two vertices
    let w = calculate_weights(pt(0, 0), &vec![pt(0, 0), pt(UNIT, 0)]);
    assert_eq!(w, vec![1000000u128 * 1000000, 100000u128 * 100000]);
    let same = calculate_weights(pt(5, 5), &vec![pt(0, 0), pt(0, 0), pt(0, 0)]);
    assert_eq!(same, vec![10000000000u128; 3]);
    assert_eq!(calculate_weights(pt(5, 5), &Vec::new()), Vec::<u128>::new());
}

#[test]
fn blend_of_two_lines_with_equal_weights() {
    let a = curve(pt(0, 0), pt(1, 1), pt(2, 2), pt(3, 3));
    let b = curve(pt(0, 0), pt(3, 3), pt(6, 6), pt(9, 9));
    let r = interpolate_curves(&vec![a, b], &vec![1, 1]).unwrap();
    assert_eq!(r, curve(pt(0, 0), pt(2, 2), pt(4, 4), pt(6, 6)));
    let r2 = interpolate_curves(&vec![a, b], &vec![500000, 500000]).unwrap();
    assert_eq!(r2, r);
}

#[test]
fn blend_stays_within_input_range() {
    let db = create_curve_database();
    let w = vec![3u128, 1, 4, 1, 5];
    let r = interpolate_curves(&db, &w).unwrap();
    let pick = |c: &BezierCurve| [c.start, c.control1, c.control2, c.end];
    let out = pick(&r);
    for role in 0..4 {
        let xs: Vec<i32> = db.iter().map(|c| pick(c)[role].x).collect();
        let ys: Vec<i32> = db.iter().map(|c| pick(c)[role].y).collect();
        assert!(*xs.iter().min().unwrap() <= out[role].x && out[role].x <= *xs.iter().max().unwrap());
        assert!(*ys.iter().min().unwrap() <= out[role].y && out[role].y <= *ys.iter().max().unwrap());
    }
}

#[test]
fn blend_rounds_down() {
    let a = curve(pt(0, 0), pt(0, 0), pt(0, 0), pt(-1, 1));
    let b = curve(pt(1, 1), pt(0, 0), pt(0, 0), pt(0, 0));
    let r = interpolate_curves(&vec![a, b], &vec![1, 1]).unwrap();
    assert_eq!(r.start, pt(0, 0));
    assert_eq!(r.end, pt(-1, 0));
}

#[test]
fn blend_rejects_mismatched_lengths() {
    let db = create_curve_database();
    assert_eq!(interpolate_curves(&db, &vec![1, 1]), Err(CurveError::InvalidArgument));
}

#[test]
fn blend_rejects_zero_or_excessive_total_weight() {
    let db = create_curve_database();
    assert_eq!(interpolate_curves(&db, &vec![0; 5]), Err(CurveError::InvalidArgument));
    assert_eq!(interpolate_curves(&Vec::new(), &Vec::new()), Err(CurveError::InvalidArgument));
    assert_eq!(
        interpolate_curves(&db, &vec![MAX_TOTAL_WEIGHT, 1, 0, 0, 0]),
        Err(CurveError::InvalidArgument)
    );
    assert!(interpolate_curves(&db, &vec![MAX_TOTAL_WEIGHT, 0, 0, 0, 0]).is_ok());
    assert_eq!(
        interpolate_curves(&db, &vec![u128::MAX, u128::MAX, 0, 0, 0]),
        Err(CurveError::InvalidArgument)
    );
}

#[test]
fn database_holds_five_sample_curves() {
    let db = create_curve_database();
    assert_eq!(db.len(), 5);
    assert_eq!(db[2], curve(units(0, 0), units(100, -66), units(0, -66), units(100, 0)));
    assert_eq!(create_input_curve().control1, units(40, -40));
}

#[test]
fn pipeline_from_pointer_to_blended_curve() {
    let db = create_curve_database();
    let input = create_input_curve();
    let chosen = find_similar_curves(&input, &db, 5);
    let curves: Vec<BezierCurve> = chosen.iter().map(|&i| db[i]).collect();
    let pg = pentagon();
    let p = clamp_to_polygon(pt(0, -5000000), &pg);
    assert_eq!(p, pt(0, -1000000));
    let w = calculate_weights(p, &pg);
    let r = interpolate_curves(&curves, &w).unwrap();
    assert_eq!(r.start, pt(0, 0));
    assert_eq!(r.end.x, 100 * UNIT);
}
