//! Measurements drawn on a page: counts, polylines, polygons and rectangles.
//!
//! Every derived quantity is exact: polygon areas come from the shoelace sum,
//! rectangle extents from the normalized corners, and perimeters from
//! fixed-point segment lengths (thousandths of a pixel). Degenerate geometry
//! (a polygon under three vertices, a polyline under two, a rectangle of zero
//! area) fails with `EmptyGeometry` as soon as a quantity is asked of it.

use vstd::prelude::*;

use crate::error::TakeoffError;
use crate::frac::{frac_wf, Frac};
use crate::geometry::{
    abs_i, bbox_wf, cent_x_partial, cent_y_partial, frac_point_wf, lemma_cent_shift,
    lemma_mul_bound, lemma_perimeter_translate, lemma_shoelace_partial_bound,
    lemma_shoelace_translate,
    polygon_centroid_weighted, polygon_perimeter_milli, polygon_perimeter_milli_exec,
    polyline_len_milli, polyline_length_milli, pt_wf, pts_wf, shoelace, spec_bbox, sum_x_partial,
    sum_y_partial, twice_signed_area, vertex_mean, bbox_of_points, BBox, FracPoint, Point2,
};
use vstd::string::StringExecFns;

verus! {

/// A measurement drawn on a page, tagged by its geometric kind. Every variant
/// carries its own id, the id of the page it lies on, and the id of the group
/// that aggregates it.
#[derive(Debug)]
pub enum Measurement {
    Count { id: String, page_id: String, group_id: String, point: Point2 },
    Polyline { id: String, page_id: String, group_id: String, points: Vec<Point2> },
    Polygon { id: String, page_id: String, group_id: String, points: Vec<Point2> },
    Rectangle { id: String, page_id: String, group_id: String, points: (Point2, Point2) },
}

/// The measurement's id.
pub open spec fn m_id(m: &Measurement) -> Seq<char> {
    match m {
        Measurement::Count { id, .. } => id@,
        Measurement::Polyline { id, .. } => id@,
        Measurement::Polygon { id, .. } => id@,
        Measurement::Rectangle { id, .. } => id@,
    }
}

/// The id of the page the measurement lies on.
pub open spec fn m_page_id(m: &Measurement) -> Seq<char> {
    match m {
        Measurement::Count { page_id, .. } => page_id@,
        Measurement::Polyline { page_id, .. } => page_id@,
        Measurement::Polygon { page_id, .. } => page_id@,
        Measurement::Rectangle { page_id, .. } => page_id@,
    }
}

/// The id of the group the measurement belongs to.
pub open spec fn m_group_id(m: &Measurement) -> Seq<char> {
    match m {
        Measurement::Count { group_id, .. } => group_id@,
        Measurement::Polyline { group_id, .. } => group_id@,
        Measurement::Polygon { group_id, .. } => group_id@,
        Measurement::Rectangle { group_id, .. } => group_id@,
    }
}

/// The vertices of the measurement, in order (a rectangle contributes its two
/// given corners).
pub open spec fn m_points_seq(m: &Measurement) -> Seq<Point2> {
    match m {
        Measurement::Count { point, .. } => seq![*point],
        Measurement::Polyline { points, .. } => points@,
        Measurement::Polygon { points, .. } => points@,
        Measurement::Rectangle { points, .. } => seq![points.0, points.1],
    }
}

/// All coordinates lie in the admissible range.
pub open spec fn measurement_wf(m: &Measurement) -> bool {
    pts_wf(m_points_seq(m))
}

/// Whether the measurement has enough geometry for areas, perimeters,
/// centroids and containment tests: a polygon needs at least three vertices,
/// a polyline two, and a rectangle a non-zero extent in both axes.
pub open spec fn has_geometry(m: &Measurement) -> bool {
    match m {
        Measurement::Count { .. } => true,
        Measurement::Polyline { points, .. } => points@.len() >= 2,
        Measurement::Polygon { points, .. } => points@.len() >= 3,
        Measurement::Rectangle { points, .. } => points.0.x != points.1.x && points.0.y
            != points.1.y,
    }
}

/// Numerator of the measurement's pixel area: zero for counts and polylines,
/// the absolute shoelace sum for polygons (denominator two), width times
/// height for rectangles.
pub open spec fn spec_area_num(m: &Measurement) -> int {
    match m {
        Measurement::Count { .. } => 0,
        Measurement::Polyline { .. } => 0,
        Measurement::Polygon { points, .. } => abs_i(shoelace(points@)),
        Measurement::Rectangle { points, .. } => abs_i(points.0.x - points.1.x) * abs_i(
            points.0.y - points.1.y,
        ),
    }
}

/// Denominator of the measurement's pixel area.
pub open spec fn spec_area_den(m: &Measurement) -> int {
    match m {
        Measurement::Polygon { .. } => 2,
        _ => 1,
    }
}

/// Numerator of the measurement's pixel perimeter: zero for counts,
/// fixed-point path lengths for polylines and polygons (denominator one
/// thousand), twice width plus height for rectangles.
pub open spec fn spec_perim_num(m: &Measurement) -> int {
    match m {
        Measurement::Count { .. } => 0,
        Measurement::Polyline { points, .. } => polyline_len_milli(points@),
        Measurement::Polygon { points, .. } => polygon_perimeter_milli(points@),
        Measurement::Rectangle { points, .. } => 2 * (abs_i(points.0.x - points.1.x) + abs_i(
            points.0.y - points.1.y,
        )),
    }
}

/// Denominator of the measurement's pixel perimeter.
pub open spec fn spec_perim_den(m: &Measurement) -> int {
    match m {
        Measurement::Polyline { .. } => 1000,
        Measurement::Polygon { .. } => 1000,
        _ => 1,
    }
}

/// Numerator of the centroid's x coordinate: the point itself for counts, the
/// coordinate sum for polylines (mean), the signed-area-weighted sum for
/// polygons with non-zero area (falling back to the vertex mean when the
/// shoelace sum vanishes), the corner sum for rectangles.
pub open spec fn spec_centroid_x_num(m: &Measurement) -> int {
    match m {
        Measurement::Count { point, .. } => point.x as int,
        Measurement::Polyline { points, .. } => sum_x_partial(points@, points@.len() as int),
        Measurement::Polygon { points, .. } => {
            let a2 = shoelace(points@);
            if a2 > 0 {
                cent_x_partial(points@, points@.len() as int)
            } else if a2 < 0 {
                -cent_x_partial(points@, points@.len() as int)
            } else {
                sum_x_partial(points@, points@.len() as int)
            }
        },
        Measurement::Rectangle { points, .. } => points.0.x + points.1.x,
    }
}

/// Numerator of the centroid's y coordinate.
pub open spec fn spec_centroid_y_num(m: &Measurement) -> int {
    match m {
        Measurement::Count { point, .. } => point.y as int,
        Measurement::Polyline { points, .. } => sum_y_partial(points@, points@.len() as int),
        Measurement::Polygon { points, .. } => {
            let a2 = shoelace(points@);
            if a2 > 0 {
                cent_y_partial(points@, points@.len() as int)
            } else if a2 < 0 {
                -cent_y_partial(points@, points@.len() as int)
            } else {
                sum_y_partial(points@, points@.len() as int)
            }
        },
        Measurement::Rectangle { points, .. } => points.0.y + points.1.y,
    }
}

/// The centroid's (shared) denominator.
pub open spec fn spec_centroid_den(m: &Measurement) -> int {
    match m {
        Measurement::Count { .. } => 1,
        Measurement::Polyline { points, .. } => points@.len() as int,
        Measurement::Polygon { points, .. } => {
            let a2 = shoelace(points@);
            if a2 != 0 {
                3 * abs_i(a2)
            } else {
                points@.len() as int
            }
        },
        Measurement::Rectangle { .. } => 2,
    }
}

/// The two measurements are the same in kind, ids and geometry.
pub open spec fn m_equiv(a: &Measurement, b: &Measurement) -> bool {
    &&& (a is Count <==> b is Count)
    &&& (a is Polyline <==> b is Polyline)
    &&& (a is Polygon <==> b is Polygon)
    &&& (a is Rectangle <==> b is Rectangle)
    &&& m_id(a) == m_id(b)
    &&& m_page_id(a) == m_page_id(b)
    &&& m_group_id(a) == m_group_id(b)
    &&& m_points_seq(a) == m_points_seq(b)
}

/// An element-wise copy of a point vector.
fn copy_points(points: &Vec<Point2>) -> (r: Vec<Point2>)
    ensures
        r@ == points@,
{
    let mut r: Vec<Point2> = Vec::new();
    let mut i: usize = 0;
    while i < points.len()
        invariant
            0 <= i <= points@.len(),
            r@ == points@.subrange(0, i as int),
        decreases points@.len() - i,
    {
        r.push(points[i]);
        proof {
            assert(r@ =~= points@.subrange(0, i as int + 1));
        }
        i = i + 1;
    }
    proof {
        assert(points@.subrange(0, points@.len() as int) =~= points@);
    }
    r
}

/// The point shifted by `(dx, dy)` stays in the admissible range.
pub open spec fn shift_in_range(p: Point2, dx: int, dy: int) -> bool {
    -1_000_000 <= p.x + dx <= 1_000_000 && -1_000_000 <= p.y + dy <= 1_000_000
}

/// Integer division rounding toward zero.
pub open spec fn frac_trunc(n: int, d: int) -> int {
    if n == 0 {
        0
    } else if n > 0 {
        n / d
    } else {
        -((-n) / d)
    }
}

/// The difference between a target coordinate and a centroid coordinate is a
/// whole number of pixels: the numerator of the exact difference is divisible
/// by its denominator.
pub open spec fn delta_integral(t: Frac, c: Frac) -> bool {
    (t.num * c.den - c.num * t.den) % (t.den * c.den) == 0
}

/// Whether the recentring offset between a target coordinate and a centroid
/// coordinate can be formed in machine arithmetic, lies exactly on the pixel
/// grid, and lands in the range a translation can take.
pub open spec fn recenter_delta_fits(t: Frac, c: Frac) -> bool {
    &&& crate::frac::fits_i128(t.num * c.den)
    &&& crate::frac::fits_i128(c.num * t.den)
    &&& crate::frac::fits_i128(t.num * c.den - c.num * t.den)
    &&& crate::frac::fits_i128(t.den * c.den)
    &&& delta_integral(t, c)
    &&& abs_i(frac_trunc(t.num * c.den - c.num * t.den, t.den * c.den)) <= 2_000_000
}

/// The centroid as a fractional point (the exact value `get_centroid`
/// returns).
pub open spec fn spec_centroid(m: &Measurement) -> FracPoint {
    FracPoint {
        x: Frac {
            num: spec_centroid_x_num(m) as i128,
            den: spec_centroid_den(m) as i128,
        },
        y: Frac {
            num: spec_centroid_y_num(m) as i128,
            den: spec_centroid_den(m) as i128,
        },
    }
}

/// The whole-pixel x offset that recentres `m` at `t`: the difference of the
/// target and the centroid; recentring succeeds only when this truncated
/// quotient is the exact difference, so nothing is lost to it.
pub open spec fn spec_delta_x(m: &Measurement, t: FracPoint) -> int {
    frac_trunc(
        t.x.num * spec_centroid(m).x.den - spec_centroid(m).x.num * t.x.den,
        t.x.den * spec_centroid(m).x.den,
    )
}

/// The whole-pixel y offset that recentres `m` at `t`.
pub open spec fn spec_delta_y(m: &Measurement, t: FracPoint) -> int {
    frac_trunc(
        t.y.num * spec_centroid(m).y.den - spec_centroid(m).y.num * t.y.den,
        t.y.den * spec_centroid(m).y.den,
    )
}

/// When recentring succeeds: the measurement has geometry, both offsets can
/// be formed, and every shifted vertex stays in the coordinate range.
pub open spec fn recenter_ok(m: &Measurement, t: FracPoint) -> bool {
    &&& has_geometry(m)
    &&& recenter_delta_fits(t.x, spec_centroid(m).x)
    &&& recenter_delta_fits(t.y, spec_centroid(m).y)
    &&& forall|i: int| 0 <= i < m_points_seq(m).len() ==> shift_in_range(
        #[trigger] m_points_seq(m)[i],
        spec_delta_x(m, t),
        spec_delta_y(m, t),
    )
}

/// What a successful recentring returns: the same kind and ids, with every
/// vertex shifted by the exact whole-pixel offsets.
pub open spec fn recentered_matches(m: &Measurement, t: FracPoint, r: &Measurement) -> bool {
    let dx = spec_delta_x(m, t);
    let dy = spec_delta_y(m, t);
    &&& (m is Count <==> r is Count)
    &&& (m is Polyline <==> r is Polyline)
    &&& (m is Polygon <==> r is Polygon)
    &&& (m is Rectangle <==> r is Rectangle)
    &&& m_id(r) == m_id(m)
    &&& m_page_id(r) == m_page_id(m)
    &&& m_group_id(r) == m_group_id(m)
    &&& m_points_seq(r).len() == m_points_seq(m).len()
    &&& forall|i: int| 0 <= i < m_points_seq(m).len() ==> (#[trigger] m_points_seq(r)[i]).x
        == m_points_seq(m)[i].x + dx && m_points_seq(r)[i].y == m_points_seq(m)[i].y + dy
}

/// Whether the exact fractional recentring of `m` at `t` fits the machine
/// range: the two exact offsets can be formed, and so can every translated
/// coordinate over the common denominators.
pub open spec fn frac_recenter_fits(m: &Measurement, t: FracPoint) -> bool {
    let pts = m_points_seq(m);
    let cd = spec_centroid_den(m);
    let cx = spec_centroid_x_num(m);
    let cy = spec_centroid_y_num(m);
    let ddx = t.x.den * cd;
    let ddy = t.y.den * cd;
    let dnx = t.x.num * cd - cx * t.x.den;
    let dny = t.y.num * cd - cy * t.y.den;
    &&& crate::frac::fits_i128(t.x.num * cd)
    &&& crate::frac::fits_i128(cx * t.x.den)
    &&& crate::frac::fits_i128(dnx)
    &&& crate::frac::fits_i128(ddx)
    &&& crate::frac::fits_i128(t.y.num * cd)
    &&& crate::frac::fits_i128(cy * t.y.den)
    &&& crate::frac::fits_i128(dny)
    &&& crate::frac::fits_i128(ddy)
    &&& forall|i: int| 0 <= i < pts.len() ==> crate::frac::fits_i128(
        (#[trigger] pts[i]).x * ddx,
    ) && crate::frac::fits_i128(pts[i].x * ddx + dnx) && crate::frac::fits_i128(pts[i].y * ddy)
        && crate::frac::fits_i128(pts[i].y * ddy + dny)
}

/// Shift every point by `(dx, dy)`; `None` exactly when a shifted point
/// leaves the admissible range.
fn translate_points(points: &Vec<Point2>, dx: i64, dy: i64) -> (r: Option<Vec<Point2>>)
    requires
        pts_wf(points@),
        -2_000_000 <= dx <= 2_000_000,
        -2_000_000 <= dy <= 2_000_000,
    ensures
        r is Some <==> (forall|i: int| 0 <= i < points@.len() ==> shift_in_range(
            #[trigger] points@[i],
            dx as int,
            dy as int,
        )),
        r is Some ==> r->0@.len() == points@.len() && (forall|i: int|
            0 <= i < points@.len() ==> (#[trigger] r->0@[i]).x == points@[i].x + dx
                && r->0@[i].y == points@[i].y + dy),
{
    let mut out: Vec<Point2> = Vec::new();
    let mut i: usize = 0;
    while i < points.len()
        invariant
            0 <= i <= points@.len(),
            pts_wf(points@),
            -2_000_000 <= dx <= 2_000_000,
            -2_000_000 <= dy <= 2_000_000,
            out@.len() == i,
            forall|j: int| 0 <= j < i ==> shift_in_range(#[trigger] points@[j], dx as int, dy as int),
            forall|j: int| 0 <= j < i ==> (#[trigger] out@[j]).x == points@[j].x + dx
                && out@[j].y == points@[j].y + dy,
        decreases points@.len() - i,
    {
        proof {
            assert(pt_wf(points@[i as int]));
        }
        let nx = points[i].x + dx;
        let ny = points[i].y + dy;
        if nx < -1_000_000 || nx > 1_000_000 || ny < -1_000_000 || ny > 1_000_000 {
            proof {
                assert(!shift_in_range(points@[i as int], dx as int, dy as int));
            }
            return None;
        }
        out.push(Point2 { x: nx, y: ny });
        i = i + 1;
    }
    Some(out)
}

/// The whole-pixel offset between a target coordinate and a centroid
/// coordinate; `None` exactly when it cannot be formed, does not lie exactly
/// on the pixel grid, or is too large for any translation to stay in range.
/// When a value is returned, the offset equals the exact rational difference:
/// nothing is rounded away.
fn recenter_delta(t: Frac, c: Frac) -> (r: Option<i64>)
    requires
        crate::frac::frac_wf(t),
        crate::frac::frac_wf(c),
    ensures
        r is Some <==> recenter_delta_fits(t, c),
        r is Some ==> r->0 == frac_trunc(t.num * c.den - c.num * t.den, t.den * c.den)
            && -2_000_000 <= r->0 <= 2_000_000,
        r is Some ==> t.num * c.den - c.num * t.den == r->0 * (t.den * c.den),
{
    let p1 = match t.num.checked_mul(c.den) {
        Some(v) => v,
        None => {
            return None;
        },
    };
    let p2 = match c.num.checked_mul(t.den) {
        Some(v) => v,
        None => {
            return None;
        },
    };
    let n = match p1.checked_sub(p2) {
        Some(v) => v,
        None => {
            return None;
        },
    };
    let d = match t.den.checked_mul(c.den) {
        Some(v) => v,
        None => {
            return None;
        },
    };
    proof {
        assert(d > 0) by (nonlinear_arith)
            requires
                d == t.den * c.den,
                t.den > 0,
                c.den > 0,
        ;
    }
    let a = crate::frac::abs_u128(n);
    proof {
        vstd::arithmetic::div_mod::lemma_div_basics_5(a as int, d as int);
        vstd::arithmetic::div_mod::lemma_fundamental_div_mod(a as int, d as int);
    }
    let q = a / (d as u128);
    let rem = a % (d as u128);
    if rem != 0 {
        proof {
            // The exact difference is off the pixel grid: its magnitude's
            // remainder is non-zero, so the signed remainder is too.
            assert(a as int == (d as int) * (q as int) + rem as int);
            if n < 0 {
                assert(n as int == (-(q as int) - 1) * (d as int) + ((d as int) - (rem as int)))
                    by (nonlinear_arith)
                    requires
                        a as int == (d as int) * (q as int) + rem as int,
                        n as int == -(a as int),
                ;
                assert(0 <= (d as int) - (rem as int) < d as int);
                vstd::arithmetic::div_mod::lemma_fundamental_div_mod_converse_mod(
                    n as int,
                    d as int,
                    -(q as int) - 1,
                    (d as int) - (rem as int),
                );
            }
            assert(!delta_integral(t, c));
        }
        return None;
    }
    if q > 2_000_000 {
        return None;
    }
    proof {
        assert(a as int == d * (q as int));
        if n >= 0 {
            assert(n as int == (q as int) * ((t.den * c.den) as int)) by (nonlinear_arith)
                requires
                    a as int == d * (q as int),
                    n == a,
                    d == t.den * c.den,
            ;
            vstd::arithmetic::div_mod::lemma_mod_multiples_basic(q as int, d as int);
        } else {
            assert(n as int == (-(q as int)) * ((t.den * c.den) as int)) by (nonlinear_arith)
                requires
                    a as int == d * (q as int),
                    n as int == -(a as int),
                    d == t.den * c.den,
            ;
            vstd::arithmetic::div_mod::lemma_mod_multiples_basic(-(q as int), d as int);
        }
    }
    if n >= 0 {
        Some(q as i64)
    } else {
        Some(-(q as i64))
    }
}

impl Measurement {
    /// A copy of the measurement, equal in kind, ids and geometry.
    pub fn duplicate(&self) -> (r: Measurement)
        ensures
            m_equiv(self, &r),
    {
        match self {
            Measurement::Count { id, page_id, group_id, point } => Measurement::Count {
                id: id.clone(),
                page_id: page_id.clone(),
                group_id: group_id.clone(),
                point: *point,
            },
            Measurement::Polyline { id, page_id, group_id, points } => {
                let ps = copy_points(points);
                Measurement::Polyline {
                    id: id.clone(),
                    page_id: page_id.clone(),
                    group_id: group_id.clone(),
                    points: ps,
                }
            },
            Measurement::Polygon { id, page_id, group_id, points } => {
                let ps = copy_points(points);
                Measurement::Polygon {
                    id: id.clone(),
                    page_id: page_id.clone(),
                    group_id: group_id.clone(),
                    points: ps,
                }
            },
            Measurement::Rectangle { id, page_id, group_id, points } => Measurement::Rectangle {
                id: id.clone(),
                page_id: page_id.clone(),
                group_id: group_id.clone(),
                points: (points.0, points.1),
            },
        }
    }

    /// The measurement's id.
    pub fn id(&self) -> (r: &String)
        ensures
            r@ == m_id(self),
    {
        match self {
            Measurement::Count { id, .. } => id,
            Measurement::Polyline { id, .. } => id,
            Measurement::Polygon { id, .. } => id,
            Measurement::Rectangle { id, .. } => id,
        }
    }

    /// The id of the page the measurement lies on.
    pub fn page_id(&self) -> (r: &String)
        ensures
            r@ == m_page_id(self),
    {
        match self {
            Measurement::Count { page_id, .. } => page_id,
            Measurement::Polyline { page_id, .. } => page_id,
            Measurement::Polygon { page_id, .. } => page_id,
            Measurement::Rectangle { page_id, .. } => page_id,
        }
    }

    /// The id of the group the measurement belongs to.
    pub fn group_id(&self) -> (r: &String)
        ensures
            r@ == m_group_id(self),
    {
        match self {
            Measurement::Count { group_id, .. } => group_id,
            Measurement::Polyline { group_id, .. } => group_id,
            Measurement::Polygon { group_id, .. } => group_id,
            Measurement::Rectangle { group_id, .. } => group_id,
        }
    }

    /// How many vertices the measurement carries: one for a count, the vertex
    /// count for polylines and polygons, four for a rectangle.
    pub fn points(&self) -> (r: usize)
        ensures
            r == match self {
                Measurement::Count { .. } => 1int,
                Measurement::Polyline { points, .. } => points@.len() as int,
                Measurement::Polygon { points, .. } => points@.len() as int,
                Measurement::Rectangle { .. } => 4int,
            },
    {
        match self {
            Measurement::Count { .. } => 1,
            Measurement::Polyline { points, .. } => points.len(),
            Measurement::Polygon { points, .. } => points.len(),
            Measurement::Rectangle { .. } => 4,
        }
    }

    /// Every measurement counts once.
    pub fn count(&self) -> (r: u64)
        ensures
            r == 1,
    {
        1
    }

    /// The pixel-space area, exactly: zero for counts and polylines, half the
    /// absolute shoelace sum for polygons, width times height for rectangles.
    /// Fails with `EmptyGeometry` exactly when the geometry is degenerate.
    pub fn pixel_area(&self) -> (r: Result<Frac, TakeoffError>)
        requires
            measurement_wf(self),
        ensures
            r is Ok <==> has_geometry(self),
            r is Ok ==> frac_wf(r->Ok_0) && r->Ok_0.num == spec_area_num(self)
                && r->Ok_0.den == spec_area_den(self),
            r is Err ==> r->Err_0 is EmptyGeometry && r->Err_0->EmptyGeometry_what@
                == "measurement geometry"@,
    {
        if !self.check_geometry() {
            return Err(
                TakeoffError::EmptyGeometry { what: String::from_str("measurement geometry") },
            );
        }
        match self {
            Measurement::Count { .. } => Ok(Frac::from_int(0)),
            Measurement::Polyline { .. } => Ok(Frac::from_int(0)),
            Measurement::Polygon { points, .. } => {
                let n = points.len();
                let a2 = twice_signed_area(points);
                proof {
                    lemma_shoelace_partial_bound(points@, points@.len() as int);
                    assert((n as int) * 2_000_000_000_000 < i128::MAX) by (nonlinear_arith)
                        requires
                            0 <= n as int <= 0x1_0000_0000_0000_0000int,
                    ;
                }
                let num = if a2 >= 0 {
                    a2
                } else {
                    -a2
                };
                Ok(Frac { num, den: 2 })
            },
            Measurement::Rectangle { points, .. } => {
                let w = if points.0.x >= points.1.x {
                    points.0.x - points.1.x
                } else {
                    points.1.x - points.0.x
                };
                let h = if points.0.y >= points.1.y {
                    points.0.y - points.1.y
                } else {
                    points.1.y - points.0.y
                };
                proof {
                    assert(pt_wf(m_points_seq(self)[0]));
                    assert(pt_wf(m_points_seq(self)[1]));
                    lemma_mul_bound(w as int, h as int, 2_000_000);
                }
                Ok(Frac { num: (w as i128) * (h as i128), den: 1 })
            },
        }
    }

    /// The pixel-space perimeter, exactly (in fixed point for diagonal
    /// segments): zero for counts, the open path length for polylines, the
    /// closed path length for polygons, twice width plus height for
    /// rectangles. Fails with `EmptyGeometry` exactly when the geometry is
    /// degenerate.
    pub fn pixel_perimeter(&self) -> (r: Result<Frac, TakeoffError>)
        requires
            measurement_wf(self),
        ensures
            r is Ok <==> has_geometry(self),
            r is Ok ==> frac_wf(r->Ok_0) && r->Ok_0.num == spec_perim_num(self)
                && r->Ok_0.den == spec_perim_den(self),
            r is Err ==> r->Err_0 is EmptyGeometry && r->Err_0->EmptyGeometry_what@
                == "measurement geometry"@,
    {
        if !self.check_geometry() {
            return Err(
                TakeoffError::EmptyGeometry { what: String::from_str("measurement geometry") },
            );
        }
        match self {
            Measurement::Count { .. } => Ok(Frac::from_int(0)),
            Measurement::Polyline { points, .. } => {
                let len = polyline_length_milli(points);
                Ok(Frac { num: len, den: 1000 })
            },
            Measurement::Polygon { points, .. } => {
                let len = polygon_perimeter_milli_exec(points);
                Ok(Frac { num: len, den: 1000 })
            },
            Measurement::Rectangle { points, .. } => {
                let w = if points.0.x >= points.1.x {
                    points.0.x - points.1.x
                } else {
                    points.1.x - points.0.x
                };
                let h = if points.0.y >= points.1.y {
                    points.0.y - points.1.y
                } else {
                    points.1.y - points.0.y
                };
                proof {
                    assert(pt_wf(m_points_seq(self)[0]));
                    assert(pt_wf(m_points_seq(self)[1]));
                }
                Ok(Frac { num: 2 * ((w as i128) + (h as i128)), den: 1 })
            },
        }
    }

    /// Whether the geometry is sufficient for derived quantities.
    pub fn check_geometry(&self) -> (r: bool)
        ensures
            r == has_geometry(self),
    {
        match self {
            Measurement::Count { .. } => true,
            Measurement::Polyline { points, .. } => points.len() >= 2,
            Measurement::Polygon { points, .. } => points.len() >= 3,
            Measurement::Rectangle { points, .. } => points.0.x != points.1.x && points.0.y
                != points.1.y,
        }
    }

    /// The centroid, as exact fractions: the point itself for counts, the
    /// vertex mean for polylines (and zero-area polygons), the
    /// signed-area-weighted centroid for polygons, the midpoint for
    /// rectangles. Fails with `EmptyGeometry` exactly when the geometry is
    /// degenerate.
    pub fn get_centroid(&self) -> (r: Result<FracPoint, TakeoffError>)
        requires
            measurement_wf(self),
        ensures
            r is Ok <==> has_geometry(self),
            r is Ok ==> frac_point_wf(r->Ok_0) && r->Ok_0.x.num == spec_centroid_x_num(self)
                && r->Ok_0.y.num == spec_centroid_y_num(self) && r->Ok_0.x.den
                == spec_centroid_den(self) && r->Ok_0.y.den == spec_centroid_den(self),
            r is Ok ==> r->Ok_0 == spec_centroid(self),
            r is Err ==> r->Err_0 is EmptyGeometry && r->Err_0->EmptyGeometry_what@
                == "measurement geometry"@,
    {
        if !self.check_geometry() {
            return Err(
                TakeoffError::EmptyGeometry { what: String::from_str("measurement geometry") },
            );
        }
        match self {
            Measurement::Count { point, .. } => Ok(
                FracPoint {
                    x: Frac { num: point.x as i128, den: 1 },
                    y: Frac { num: point.y as i128, den: 1 },
                },
            ),
            Measurement::Polyline { points, .. } => Ok(vertex_mean(points)),
            Measurement::Polygon { points, .. } => {
                let n = points.len();
                let a2 = twice_signed_area(points);
                proof {
                    lemma_shoelace_partial_bound(points@, points@.len() as int);
                    assert((n as int) * 2_000_000_000_000 * 3 < i128::MAX) by (nonlinear_arith)
                        requires
                            0 <= n as int <= 0x1_0000_0000_0000_0000int,
                    ;
                }
                if a2 != 0 {
                    Ok(polygon_centroid_weighted(points, a2))
                } else {
                    Ok(vertex_mean(points))
                }
            },
            Measurement::Rectangle { points, .. } => {
                proof {
                    assert(pt_wf(m_points_seq(self)[0]));
                    assert(pt_wf(m_points_seq(self)[1]));
                }
                Ok(
                    FracPoint {
                        x: Frac { num: (points.0.x as i128) + (points.1.x as i128), den: 2 },
                        y: Frac { num: (points.0.y as i128) + (points.1.y as i128), den: 2 },
                    },
                )
            },
        }
    }

    /// A new measurement of the same kind and ids whose centroid lands at
    /// `target` exactly: every vertex is shifted by the exact difference of
    /// `target` and the current centroid, which must be a whole number of
    /// pixels. Fails with `EmptyGeometry` when the geometry is degenerate and
    /// with `OutOfRange` when the exact offset does not lie on the pixel
    /// grid, cannot be formed, or a shifted vertex would leave the coordinate
    /// range; nothing is ever rounded. For targets off the pixel grid,
    /// `recentred_vertices` returns the exactly translated fractional
    /// geometry instead.
    pub fn with_centroid_at(&self, target: FracPoint) -> (r: Result<Measurement, TakeoffError>)
        requires
            measurement_wf(self),
            frac_point_wf(target),
        ensures
            r is Ok <==> recenter_ok(self, target),
            r is Ok ==> recentered_matches(self, target, &r->Ok_0),
            r is Ok ==> target.x.num * spec_centroid_den(self) - spec_centroid_x_num(self)
                * target.x.den == spec_delta_x(self, target) * (target.x.den * spec_centroid_den(
                self,
            )),
            r is Ok ==> target.y.num * spec_centroid_den(self) - spec_centroid_y_num(self)
                * target.y.den == spec_delta_y(self, target) * (target.y.den * spec_centroid_den(
                self,
            )),
            r is Err && r->Err_0 is EmptyGeometry <==> !has_geometry(self),
            r is Err ==> r->Err_0 is EmptyGeometry || r->Err_0 is OutOfRange,
            r is Err ==> (match r->Err_0 {
                TakeoffError::EmptyGeometry { what } => what@ == "measurement geometry"@,
                TakeoffError::OutOfRange { what } => what@ == "recentring offset"@ || what@
                    == "recentred geometry"@,
                _ => false,
            }),
    {
        let c = match self.get_centroid() {
            Ok(v) => v,
            Err(e) => {
                return Err(e);
            },
        };
        let ddx = match recenter_delta(target.x, c.x) {
            Some(v) => v,
            None => {
                return Err(
                    TakeoffError::OutOfRange { what: String::from_str("recentring offset") },
                );
            },
        };
        let ddy = match recenter_delta(target.y, c.y) {
            Some(v) => v,
            None => {
                return Err(
                    TakeoffError::OutOfRange { what: String::from_str("recentring offset") },
                );
            },
        };
        match self {
            Measurement::Count { id, page_id, group_id, point } => {
                proof {
                    assert(pt_wf(m_points_seq(self)[0]));
                }
                let nx = point.x + ddx;
                let ny = point.y + ddy;
                if nx < -1_000_000 || nx > 1_000_000 || ny < -1_000_000 || ny > 1_000_000 {
                    Err(TakeoffError::OutOfRange { what: String::from_str("recentred geometry") })
                } else {
                    Ok(
                        Measurement::Count {
                            id: id.clone(),
                            page_id: page_id.clone(),
                            group_id: group_id.clone(),
                            point: Point2 { x: nx, y: ny },
                        },
                    )
                }
            },
            Measurement::Polyline { id, page_id, group_id, points } => {
                match translate_points(points, ddx, ddy) {
                    Some(ps) => Ok(
                        Measurement::Polyline {
                            id: id.clone(),
                            page_id: page_id.clone(),
                            group_id: group_id.clone(),
                            points: ps,
                        },
                    ),
                    None => Err(
                        TakeoffError::OutOfRange { what: String::from_str("recentred geometry") },
                    ),
                }
            },
            Measurement::Polygon { id, page_id, group_id, points } => {
                match translate_points(points, ddx, ddy) {
                    Some(ps) => Ok(
                        Measurement::Polygon {
                            id: id.clone(),
                            page_id: page_id.clone(),
                            group_id: group_id.clone(),
                            points: ps,
                        },
                    ),
                    None => Err(
                        TakeoffError::OutOfRange { what: String::from_str("recentred geometry") },
                    ),
                }
            },
            Measurement::Rectangle { id, page_id, group_id, points } => {
                proof {
                    assert(pt_wf(m_points_seq(self)[0]));
                    assert(pt_wf(m_points_seq(self)[1]));
                }
                let ax = points.0.x + ddx;
                let ay = points.0.y + ddy;
                let bx = points.1.x + ddx;
                let by = points.1.y + ddy;
                if ax < -1_000_000 || ax > 1_000_000 || ay < -1_000_000 || ay > 1_000_000 || bx
                    < -1_000_000 || bx > 1_000_000 || by < -1_000_000 || by > 1_000_000 {
                    Err(TakeoffError::OutOfRange { what: String::from_str("recentred geometry") })
                } else {
                    Ok(
                        Measurement::Rectangle {
                            id: id.clone(),
                            page_id: page_id.clone(),
                            group_id: group_id.clone(),
                            points: (Point2 { x: ax, y: ay }, Point2 { x: bx, y: by }),
                        },
                    )
                }
            },
        }
    }

    /// The vertex positions recentred at `target` exactly, as fractional
    /// points: every vertex is translated by the exact rational difference of
    /// `target` and the current centroid, with nothing rounded. This serves
    /// targets that do not lie on the pixel grid, where `with_centroid_at`
    /// refuses; the result's coordinates share the denominator of that
    /// difference. Fails with `EmptyGeometry` exactly when the geometry is
    /// degenerate and with `OutOfRange` exactly when the exact arithmetic
    /// leaves the machine range.
    pub fn recentred_vertices(&self, target: FracPoint) -> (r: Result<
        Vec<FracPoint>,
        TakeoffError,
    >)
        requires
            measurement_wf(self),
            frac_point_wf(target),
        ensures
            r is Ok <==> has_geometry(self) && frac_recenter_fits(self, target),
            r is Err && r->Err_0 is EmptyGeometry <==> !has_geometry(self),
            r is Err ==> r->Err_0 is EmptyGeometry || r->Err_0 is OutOfRange,
            r is Err ==> (match r->Err_0 {
                TakeoffError::EmptyGeometry { what } => what@ == "measurement geometry"@,
                TakeoffError::OutOfRange { what } => what@ == "recentring offset"@ || what@
                    == "recentred vertex"@,
                _ => false,
            }),
            r is Ok ==> ({
                let pts = m_points_seq(self);
                let cd = spec_centroid_den(self);
                let ddx = target.x.den * cd;
                let ddy = target.y.den * cd;
                let dnx = target.x.num * cd - spec_centroid_x_num(self) * target.x.den;
                let dny = target.y.num * cd - spec_centroid_y_num(self) * target.y.den;
                &&& r->Ok_0@.len() == pts.len()
                &&& forall|i: int| 0 <= i < pts.len() ==> frac_point_wf(#[trigger] r->Ok_0@[i])
                    && r->Ok_0@[i].x.num == (#[trigger] pts[i]).x * ddx + dnx
                    && r->Ok_0@[i].x.den == ddx && r->Ok_0@[i].y.num == pts[i].y * ddy + dny
                    && r->Ok_0@[i].y.den == ddy
            }),
    {
        let c = match self.get_centroid() {
            Ok(v) => v,
            Err(e) => {
                return Err(e);
            },
        };
        let p1x = match target.x.num.checked_mul(c.x.den) {
            Some(v) => v,
            None => {
                return Err(
                    TakeoffError::OutOfRange { what: String::from_str("recentring offset") },
                );
            },
        };
        let p2x = match c.x.num.checked_mul(target.x.den) {
            Some(v) => v,
            None => {
                return Err(
                    TakeoffError::OutOfRange { what: String::from_str("recentring offset") },
                );
            },
        };
        let dnx = match p1x.checked_sub(p2x) {
            Some(v) => v,
            None => {
                return Err(
                    TakeoffError::OutOfRange { what: String::from_str("recentring offset") },
                );
            },
        };
        let ddx = match target.x.den.checked_mul(c.x.den) {
            Some(v) => v,
            None => {
                return Err(
                    TakeoffError::OutOfRange { what: String::from_str("recentring offset") },
                );
            },
        };
        let p1y = match target.y.num.checked_mul(c.y.den) {
            Some(v) => v,
            None => {
                return Err(
                    TakeoffError::OutOfRange { what: String::from_str("recentring offset") },
                );
            },
        };
        let p2y = match c.y.num.checked_mul(target.y.den) {
            Some(v) => v,
            None => {
                return Err(
                    TakeoffError::OutOfRange { what: String::from_str("recentring offset") },
                );
            },
        };
        let dny = match p1y.checked_sub(p2y) {
            Some(v) => v,
            None => {
                return Err(
                    TakeoffError::OutOfRange { what: String::from_str("recentring offset") },
                );
            },
        };
        let ddy = match target.y.den.checked_mul(c.y.den) {
            Some(v) => v,
            None => {
                return Err(
                    TakeoffError::OutOfRange { what: String::from_str("recentring offset") },
                );
            },
        };
        proof {
            assert(ddx > 0 && ddy > 0) by (nonlinear_arith)
                requires
                    ddx == target.x.den * c.x.den,
                    ddy == target.y.den * c.y.den,
                    target.x.den > 0,
                    target.y.den > 0,
                    c.x.den > 0,
                    c.y.den > 0,
            ;
        }
        let pts = self.collect_vertices();
        let mut out: Vec<FracPoint> = Vec::new();
        let mut i: usize = 0;
        while i < pts.len()
            invariant
                0 <= i <= pts@.len(),
                pts@ == m_points_seq(self),
                has_geometry(self),
                ddx as int == target.x.den * spec_centroid_den(self),
                ddy as int == target.y.den * spec_centroid_den(self),
                dnx as int == target.x.num * spec_centroid_den(self) - spec_centroid_x_num(self)
                    * target.x.den,
                dny as int == target.y.num * spec_centroid_den(self) - spec_centroid_y_num(self)
                    * target.y.den,
                crate::frac::fits_i128(target.x.num * spec_centroid_den(self)),
                crate::frac::fits_i128(spec_centroid_x_num(self) * target.x.den),
                crate::frac::fits_i128(target.y.num * spec_centroid_den(self)),
                crate::frac::fits_i128(spec_centroid_y_num(self) * target.y.den),
                ddx > 0,
                ddy > 0,
                out@.len() == i,
                forall|j: int| 0 <= j < i ==> crate::frac::fits_i128(
                    (#[trigger] pts@[j]).x * (ddx as int),
                ) && crate::frac::fits_i128(pts@[j].x * (ddx as int) + dnx as int)
                    && crate::frac::fits_i128(pts@[j].y * (ddy as int)) && crate::frac::fits_i128(
                    pts@[j].y * (ddy as int) + dny as int,
                ),
                forall|j: int| 0 <= j < i ==> frac_point_wf(#[trigger] out@[j]) && out@[j].x.num
                    == pts@[j].x * (ddx as int) + dnx && out@[j].x.den == ddx && out@[j].y.num
                    == pts@[j].y * (ddy as int) + dny && out@[j].y.den == ddy,
            decreases pts@.len() - i,
        {
            let px = match (pts[i].x as i128).checked_mul(ddx) {
                Some(v) => v,
                None => {
                    proof {
                        assert(!frac_recenter_fits(self, target));
                    }
                    return Err(
                        TakeoffError::OutOfRange { what: String::from_str("recentred vertex") },
                    );
                },
            };
            let xn = match px.checked_add(dnx) {
                Some(v) => v,
                None => {
                    proof {
                        assert(!frac_recenter_fits(self, target));
                    }
                    return Err(
                        TakeoffError::OutOfRange { what: String::from_str("recentred vertex") },
                    );
                },
            };
            let py = match (pts[i].y as i128).checked_mul(ddy) {
                Some(v) => v,
                None => {
                    proof {
                        assert(!frac_recenter_fits(self, target));
                    }
                    return Err(
                        TakeoffError::OutOfRange { what: String::from_str("recentred vertex") },
                    );
                },
            };
            let yn = match py.checked_add(dny) {
                Some(v) => v,
                None => {
                    proof {
                        assert(!frac_recenter_fits(self, target));
                    }
                    return Err(
                        TakeoffError::OutOfRange { what: String::from_str("recentred vertex") },
                    );
                },
            };
            out.push(
                FracPoint { x: Frac { num: xn, den: ddx }, y: Frac { num: yn, den: ddy } },
            );
            i = i + 1;
        }
        Ok(out)
    }

    /// Whether every coordinate lies in the admissible range, for hosts
    /// validating input at the boundary before relying on the contracts.
    pub fn check_wf(&self) -> (r: bool)
        ensures
            r == measurement_wf(self),
    {
        match self {
            Measurement::Count { point, .. } => {
                let ok = crate::geometry::pt_wf_exec(point);
                proof {
                    if ok {
                        assert(forall|i: int| 0 <= i < m_points_seq(self).len()
                            ==> pt_wf(#[trigger] m_points_seq(self)[i]));
                    } else {
                        assert(!pt_wf(m_points_seq(self)[0]));
                    }
                }
                ok
            },
            Measurement::Polyline { points, .. } => crate::geometry::pts_wf_exec(points),
            Measurement::Polygon { points, .. } => crate::geometry::pts_wf_exec(points),
            Measurement::Rectangle { points, .. } => {
                let ok = crate::geometry::pt_wf_exec(&points.0) && crate::geometry::pt_wf_exec(
                    &points.1,
                );
                proof {
                    if ok {
                        assert(forall|i: int| 0 <= i < m_points_seq(self).len()
                            ==> pt_wf(#[trigger] m_points_seq(self)[i]));
                    } else {
                        assert(!pt_wf(m_points_seq(self)[0]) || !pt_wf(m_points_seq(self)[1]));
                    }
                }
                ok
            },
        }
    }

    /// The measurement's vertices, flattened in order.
    pub fn collect_vertices(&self) -> (r: Vec<Point2>)
        ensures
            r@ == m_points_seq(self),
    {
        match self {
            Measurement::Count { point, .. } => {
                let mut v: Vec<Point2> = Vec::new();
                v.push(*point);
                proof {
                    assert(v@ =~= m_points_seq(self));
                }
                v
            },
            Measurement::Polyline { points, .. } => copy_points(points),
            Measurement::Polygon { points, .. } => copy_points(points),
            Measurement::Rectangle { points, .. } => {
                let mut v: Vec<Point2> = Vec::new();
                v.push(points.0);
                v.push(points.1);
                proof {
                    assert(v@ =~= m_points_seq(self));
                }
                v
            },
        }
    }

    /// The axis-aligned hull of the measurement's vertices, used for
    /// containment tests against area scales. Fails with `EmptyGeometry`
    /// exactly when the geometry is degenerate.
    pub fn to_geometry(&self) -> (r: Result<BBox, TakeoffError>)
        requires
            measurement_wf(self),
        ensures
            r is Ok <==> has_geometry(self),
            r is Ok ==> r->Ok_0 == spec_bbox(m_points_seq(self)) && bbox_wf(r->Ok_0),
            r is Err ==> r->Err_0 is EmptyGeometry && r->Err_0->EmptyGeometry_what@
                == "measurement geometry"@,
    {
        if !self.check_geometry() {
            return Err(
                TakeoffError::EmptyGeometry { what: String::from_str("measurement geometry") },
            );
        }
        match self {
            Measurement::Count { point, .. } => {
                let b = BBox { min_x: point.x, min_y: point.y, max_x: point.x, max_y: point.y };
                proof {
                    assert(b == spec_bbox(m_points_seq(self)));
                }
                Ok(b)
            },
            Measurement::Polyline { points, .. } => {
                match bbox_of_points(points) {
                    Some(b) => Ok(b),
                    None => Err(
                        TakeoffError::EmptyGeometry { what: String::from_str("measurement geometry") },
                    ),
                }
            },
            Measurement::Polygon { points, .. } => {
                match bbox_of_points(points) {
                    Some(b) => Ok(b),
                    None => Err(TakeoffError::EmptyGeometry { what: String::from_str("measurement geometry") }),
                }
            },
            Measurement::Rectangle { points, .. } => {
                let a = points.0;
                let c = points.1;
                let b = BBox {
                    min_x: if a.x <= c.x {
                        a.x
                    } else {
                        c.x
                    },
                    min_y: if a.y <= c.y {
                        a.y
                    } else {
                        c.y
                    },
                    max_x: if a.x >= c.x {
                        a.x
                    } else {
                        c.x
                    },
                    max_y: if a.y >= c.y {
                        a.y
                    } else {
                        c.y
                    },
                };
                proof {
                    let s = m_points_seq(self);
                    assert(s.len() == 2);
                    assert(s.drop_last() =~= seq![a]);
                    assert(seq![a].len() == 1 && seq![a][0] == a);
                    assert(spec_bbox(seq![a]) == BBox {
                        min_x: a.x,
                        min_y: a.y,
                        max_x: a.x,
                        max_y: a.y,
                    });
                    assert(s.last() == c);
                    assert(b == spec_bbox(s));
                }
                Ok(b)
            },
        }
    }
}

/// Translating every point by a fixed vector shifts the coordinate sums by
/// the count times the vector.
proof fn lemma_sum_shift(s: Seq<Point2>, t: Seq<Point2>, dx: int, dy: int, k: int)
    requires
        s.len() == t.len(),
        forall|i: int| 0 <= i < s.len() ==> (#[trigger] t[i]).x == s[i].x + dx && t[i].y == s[i].y
            + dy,
        0 <= k <= s.len(),
    ensures
        sum_x_partial(t, k) == sum_x_partial(s, k) + k * dx,
        sum_y_partial(t, k) == sum_y_partial(s, k) + k * dy,
    decreases k,
{
    if k > 0 {
        lemma_sum_shift(s, t, dx, dy, k - 1);
        assert((k - 1) * dx + dx == k * dx) by (nonlinear_arith);
        assert((k - 1) * dy + dy == k * dy) by (nonlinear_arith);
    } else {
        assert(0 * dx == 0 && 0 * dy == 0) by (nonlinear_arith);
    }
}

/// Exact landing: when recentring succeeds, the result's centroid equals the
/// target exactly as a rational, because the applied offset is the exact
/// difference of target and centroid and every centroid form (point, vertex
/// mean, midpoint, signed-area-weighted) shifts with its vertices.
pub proof fn lemma_recenter_lands(m: &Measurement, t: FracPoint, r: &Measurement)
    requires
        recentered_matches(m, t, r),
        has_geometry(m),
        frac_point_wf(t),
        t.x.num * spec_centroid_den(m) - spec_centroid_x_num(m) * t.x.den == spec_delta_x(m, t) * (
        t.x.den * spec_centroid_den(m)),
        t.y.num * spec_centroid_den(m) - spec_centroid_y_num(m) * t.y.den == spec_delta_y(m, t) * (
        t.y.den * spec_centroid_den(m)),
    ensures
        spec_centroid_x_num(r) * t.x.den == t.x.num * spec_centroid_den(r),
        spec_centroid_y_num(r) * t.y.den == t.y.num * spec_centroid_den(r),
{
    let dx = spec_delta_x(m, t);
    let dy = spec_delta_y(m, t);
    match m {
        Measurement::Count { point, .. } => {
            let px = point.x as int;
            let py = point.y as int;
            assert(m_points_seq(r)[0].x == px + dx && m_points_seq(r)[0].y == py + dy);
            assert(spec_centroid_x_num(r) == px + dx && spec_centroid_den(r) == 1);
            assert((px + dx) * t.x.den == t.x.num * 1) by (nonlinear_arith)
                requires
                    t.x.num * 1 - px * t.x.den == dx * (t.x.den * 1),
            ;
            assert((py + dy) * t.y.den == t.y.num * 1) by (nonlinear_arith)
                requires
                    t.y.num * 1 - py * t.y.den == dy * (t.y.den * 1),
            ;
        },
        Measurement::Polyline { points, .. } => {
            let s = m_points_seq(m);
            let sr = m_points_seq(r);
            let n = s.len() as int;
            lemma_sum_shift(s, sr, dx, dy, n);
            assert(spec_centroid_x_num(r) == sum_x_partial(s, n) + n * dx);
            assert(spec_centroid_y_num(r) == sum_y_partial(s, n) + n * dy);
            assert(spec_centroid_den(r) == n);
            let sx = sum_x_partial(s, n);
            let sy = sum_y_partial(s, n);
            assert((sx + n * dx) * t.x.den == t.x.num * n) by (nonlinear_arith)
                requires
                    t.x.num * n - sx * t.x.den == dx * (t.x.den * n),
            ;
            assert((sy + n * dy) * t.y.den == t.y.num * n) by (nonlinear_arith)
                requires
                    t.y.num * n - sy * t.y.den == dy * (t.y.den * n),
            ;
        },
        Measurement::Polygon { .. } => {
            let s = m_points_seq(m);
            let sr = m_points_seq(r);
            let n = s.len() as int;
            let a2 = shoelace(s);
            lemma_shoelace_translate(s, sr, dx, dy);
            assert(shoelace(sr) == a2);
            if a2 == 0 {
                lemma_sum_shift(s, sr, dx, dy, n);
                let sx = sum_x_partial(s, n);
                let sy = sum_y_partial(s, n);
                assert(spec_centroid_x_num(r) == sx + n * dx && spec_centroid_den(r) == n);
                assert(spec_centroid_y_num(r) == sy + n * dy);
                assert((sx + n * dx) * t.x.den == t.x.num * n) by (nonlinear_arith)
                    requires
                        t.x.num * n - sx * t.x.den == dx * (t.x.den * n),
                ;
                assert((sy + n * dy) * t.y.den == t.y.num * n) by (nonlinear_arith)
                    requires
                        t.y.num * n - sy * t.y.den == dy * (t.y.den * n),
                ;
            } else {
                lemma_cent_shift(s, sr, dx, dy);
                let cx = cent_x_partial(s, n);
                let cy = cent_y_partial(s, n);
                assert(cent_x_partial(sr, n) == cx + 3 * dx * a2);
                assert(cent_y_partial(sr, n) == cy + 3 * dy * a2);
                if a2 > 0 {
                    assert(spec_centroid_x_num(r) == cx + 3 * dx * a2 && spec_centroid_den(r) == 3
                        * a2 && spec_centroid_den(m) == 3 * a2);
                    assert((cx + 3 * dx * a2) * t.x.den == t.x.num * (3 * a2))
                        by (nonlinear_arith)
                        requires
                            t.x.num * (3 * a2) - cx * t.x.den == dx * (t.x.den * (3 * a2)),
                    ;
                    assert((cy + 3 * dy * a2) * t.y.den == t.y.num * (3 * a2))
                        by (nonlinear_arith)
                        requires
                            t.y.num * (3 * a2) - cy * t.y.den == dy * (t.y.den * (3 * a2)),
                    ;
                } else {
                    assert(spec_centroid_x_num(r) == -(cx + 3 * dx * a2) && spec_centroid_den(r)
                        == 3 * (-a2) && spec_centroid_den(m) == 3 * (-a2));
                    assert((-(cx + 3 * dx * a2)) * t.x.den == t.x.num * (3 * (-a2)))
                        by (nonlinear_arith)
                        requires
                            t.x.num * (3 * (-a2)) - (-cx) * t.x.den == dx * (t.x.den * (3 * (-a2))),
                    ;
                    assert((-(cy + 3 * dy * a2)) * t.y.den == t.y.num * (3 * (-a2)))
                        by (nonlinear_arith)
                        requires
                            t.y.num * (3 * (-a2)) - (-cy) * t.y.den == dy * (t.y.den * (3 * (-a2))),
                    ;
                }
            }
        },
        Measurement::Rectangle { points, .. } => {
            let ax = points.0.x as int;
            let bx = points.1.x as int;
            let ay = points.0.y as int;
            let by = points.1.y as int;
            assert(m_points_seq(r)[0].x == ax + dx && m_points_seq(r)[1].x == bx + dx);
            assert(m_points_seq(r)[0].y == ay + dy && m_points_seq(r)[1].y == by + dy);
            assert(spec_centroid_x_num(r) == (ax + dx) + (bx + dx) && spec_centroid_den(r) == 2);
            assert(((ax + dx) + (bx + dx)) * t.x.den == t.x.num * 2) by (nonlinear_arith)
                requires
                    t.x.num * 2 - (ax + bx) * t.x.den == dx * (t.x.den * 2),
            ;
            assert(((ay + dy) + (by + dy)) * t.y.den == t.y.num * 2) by (nonlinear_arith)
                requires
                    t.y.num * 2 - (ay + by) * t.y.den == dy * (t.y.den * 2),
            ;
        },
    }
}

/// Translation invariance: a recentred measurement has the same pixel area
/// and the same pixel perimeter as the original, whatever the target, since
/// every vertex moves by the same whole-pixel vector.
pub proof fn lemma_translation_invariance(m: &Measurement, t: FracPoint, r: &Measurement)
    requires
        recentered_matches(m, t, r),
    ensures
        spec_area_num(r) == spec_area_num(m),
        spec_area_den(r) == spec_area_den(m),
        spec_perim_num(r) == spec_perim_num(m),
        spec_perim_den(r) == spec_perim_den(m),
{
    let dx = spec_delta_x(m, t);
    let dy = spec_delta_y(m, t);
    match m {
        Measurement::Count { .. } => {
        },
        Measurement::Polyline { points, .. } => {
            lemma_perimeter_translate(m_points_seq(m), m_points_seq(r), dx, dy);
        },
        Measurement::Polygon { points, .. } => {
            lemma_shoelace_translate(m_points_seq(m), m_points_seq(r), dx, dy);
            lemma_perimeter_translate(m_points_seq(m), m_points_seq(r), dx, dy);
        },
        Measurement::Rectangle { points, .. } => {
            assert(m_points_seq(r)[0].x == m_points_seq(m)[0].x + dx);
            assert(m_points_seq(r)[1].x == m_points_seq(m)[1].x + dx);
            assert(m_points_seq(r)[0].y == m_points_seq(m)[0].y + dy);
            assert(m_points_seq(r)[1].y == m_points_seq(m)[1].y + dy);
        },
    }
}

/// Centroid idempotence: recentring a measurement at its own centroid leaves
/// the geometry (and with it the ids and the kind) unchanged, because the
/// exact offset of a coordinate from itself is zero.
pub proof fn lemma_centroid_idempotent(m: &Measurement, r: &Measurement)
    requires
        recentered_matches(m, spec_centroid(m), r),
    ensures
        m_id(r) == m_id(m),
        m_page_id(r) == m_page_id(m),
        m_group_id(r) == m_group_id(m),
        m_points_seq(r) == m_points_seq(m),
{
    let c = spec_centroid(m);
    assert(c.x.num * c.x.den - c.x.num * c.x.den == 0);
    assert(c.y.num * c.y.den - c.y.num * c.y.den == 0);
    assert(spec_delta_x(m, c) == 0 && spec_delta_y(m, c) == 0);
    assert(m_points_seq(r) =~= m_points_seq(m));
}

} // verus!
