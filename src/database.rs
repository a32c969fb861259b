use crate::bezier_curve::BezierCurve;
use crate::point::Point;
use vstd::prelude::*;

verus! {

/// The curve through the four control points given in whole units.
pub open spec fn curve_in_units(
    sx: int,
    sy: int,
    ax: int,
    ay: int,
    bx: int,
    by: int,
    ex: int,
    ey: int,
) -> BezierCurve {
    BezierCurve {
        start: Point { x: (sx * 1000000) as i32, y: (sy * 1000000) as i32 },
        control1: Point { x: (ax * 1000000) as i32, y: (ay * 1000000) as i32 },
        control2: Point { x: (bx * 1000000) as i32, y: (by * 1000000) as i32 },
        end: Point { x: (ex * 1000000) as i32, y: (ey * 1000000) as i32 },
    }
}

fn units(x: i32, y: i32) -> (r: Point)
    requires
        -2000 <= x <= 2000,
        -2000 <= y <= 2000,
    ensures
        r == (Point { x: (x * 1000000) as i32, y: (y * 1000000) as i32 }),
{
    Point { x: x * 1000000, y: y * 1000000 }
}

/// The sample curves: a slight curve, an S-curve, a loop, a sharp turn and a zigzag.
pub fn create_curve_database() -> (r: Vec<BezierCurve>)
    ensures
        r@ == seq![
            curve_in_units(0, 0, 33, -33, 66, -33, 100, 0),
            curve_in_units(0, 0, 33, -50, 66, 50, 100, 0),
            curve_in_units(0, 0, 100, -66, 0, -66, 100, 0),
            curve_in_units(0, 0, 20, 0, 20, 80, 100, 80),
            curve_in_units(0, 0, 33, -40, 66, 40, 100, 0),
        ],
{
    let mut r: Vec<BezierCurve> = Vec::new();
    r.push(BezierCurve::new(units(0, 0), units(33, -33), units(66, -33), units(100, 0)));
    r.push(BezierCurve::new(units(0, 0), units(33, -50), units(66, 50), units(100, 0)));
    r.push(BezierCurve::new(units(0, 0), units(100, -66), units(0, -66), units(100, 0)));
    r.push(BezierCurve::new(units(0, 0), units(20, 0), units(20, 80), units(100, 80)));
    r.push(BezierCurve::new(units(0, 0), units(33, -40), units(66, 40), units(100, 0)));
    assert(r@ =~= seq![
        curve_in_units(0, 0, 33, -33, 66, -33, 100, 0),
        curve_in_units(0, 0, 33, -50, 66, 50, 100, 0),
        curve_in_units(0, 0, 100, -66, 0, -66, 100, 0),
        curve_in_units(0, 0, 20, 0, 20, 80, 100, 80),
        curve_in_units(0, 0, 33, -40, 66, 40, 100, 0),
    ]);
    r
}

/// The reference curve that the database is ranked against.
pub fn create_input_curve() -> (r: BezierCurve)
    ensures
        r == curve_in_units(0, 0, 40, -40, 60, -40, 100, 0),
{
    BezierCurve::new(units(0, 0), units(40, -40), units(60, -40), units(100, 0))
}

} // verus!
