//! Fixed-point plane geometry shared by the curve model and its callers.

use vstd::prelude::*;

verus! {

/// Fixed-point subunits per pixel. One Chaikin pass divides by four, and
/// `16384 == 4^7`, so all seven precomputed passes are exact whenever the
/// control points sit on integer pixel positions.
pub const COORD_UNIT: i64 = 16384;

/// Largest magnitude a coordinate may carry, `2^59` subunits. The bound is
/// what the machine forces: the subdivision kernel forms `3*a + b`, which must
/// stay inside `i64`.
pub const COORD_LIMIT: i64 = 0x0800_0000_0000_0000;

/// A point of the plane in fixed-point subunits.
#[derive(Clone, Copy, Debug, PartialEq, Eq, Structural)]
pub struct Point {
    pub x: i64,
    pub y: i64,
}

/// A user-placed anchor of the polyline, with its selection flag.
#[derive(Clone, Copy, Debug, PartialEq, Eq, Structural)]
pub struct ControlPoint {
    pub position: Point,
    pub selected: bool,
}

impl ControlPoint {
    /// A fresh, unselected control point at `(x, y)`.
    pub fn new(x: i64, y: i64) -> (r: ControlPoint)
        ensures
            r == (ControlPoint { position: (Point { x, y }), selected: false }),
    {
        ControlPoint { position: Point { x, y }, selected: false }
    }
}

/// A coordinate the model accepts: bounded so that subdivision arithmetic
/// cannot overflow.
pub open spec fn in_range(c: int) -> bool {
    -(COORD_LIMIT as int) <= c <= COORD_LIMIT as int
}

/// Both coordinates of a point are in range.
pub open spec fn point_in_range(p: Point) -> bool {
    in_range(p.x as int) && in_range(p.y as int)
}

/// The mathematical value of a point: a pair of integers.
pub open spec fn pv(p: Point) -> (int, int) {
    (p.x as int, p.y as int)
}

/// The mathematical value of a polyline.
pub open spec fn poly_view(s: Seq<Point>) -> Seq<(int, int)> {
    s.map_values(|p: Point| pv(p))
}

/// The weighted average `(3*a + b) / 4`, rounded toward negative infinity:
/// the coordinate of the Chaikin point one quarter of the way from `a` to `b`.
pub open spec fn quarter(a: int, b: int) -> int {
    (3 * a + b) / 4
}

/// A quarter-point of two in-range coordinates is again in range.
pub proof fn lemma_quarter_in_range(a: int, b: int)
    requires
        in_range(a),
        in_range(b),
    ensures
        in_range(quarter(a, b)),
{
    let lim = COORD_LIMIT as int;
    assert(-4 * lim <= 3 * a + b <= 4 * lim);
    vstd::arithmetic::div_mod::lemma_div_is_ordered(-4 * lim, 3 * a + b, 4);
    vstd::arithmetic::div_mod::lemma_div_is_ordered(3 * a + b, 4 * lim, 4);
    vstd::arithmetic::div_mod::lemma_div_multiples_vanish(-lim, 4);
    vstd::arithmetic::div_mod::lemma_div_multiples_vanish(lim, 4);
    assert(4 * -lim == -4 * lim);
}

/// Division by four rounded toward negative infinity, exact on the whole
/// range the subdivision kernel produces.
pub fn floor_div4(t: i64) -> (r: i64)
    requires
        -0x2000_0000_0000_0000 <= t <= 0x2000_0000_0000_0000,
    ensures
        r as int == (t as int) / 4,
{
    let u: u64 = (t + 0x2000_0000_0000_0000) as u64;
    let q: u64 = u / 4;
    proof {
        vstd::arithmetic::div_mod::lemma_hoist_over_denominator(
            t as int,
            0x0800_0000_0000_0000,
            4,
        );
        assert(0x0800_0000_0000_0000 * 4 == 0x2000_0000_0000_0000int);
    }
    (q as i64) - 0x0800_0000_0000_0000
}

/// A number strictly outside `[-r, r]` has a square strictly above `r * r`.
pub proof fn lemma_outside_radius(d: int, r: int)
    requires
        r >= 0,
        d > r || d < -r,
    ensures
        d * d > r * r,
{
    if d > r {
        assert(d * d > r * r) by (nonlinear_arith)
            requires
                d > r,
                r >= 0,
        ;
    } else {
        assert(d * d > r * r) by (nonlinear_arith)
            requires
                d < -r,
                r >= 0,
        ;
    }
}

} // verus!
