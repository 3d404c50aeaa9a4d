//! Pixel-space geometry primitives.
//!
//! Coordinates are whole pixels in a bounded range, so polygon areas
//! (shoelace) and axis-aligned extents are exact integers. Euclidean segment
//! lengths are carried in fixed point: a segment contributes the integer
//! square root of its squared length scaled to thousandths of a pixel, which
//! pins each length to a single well-defined value.

use vstd::prelude::*;

use crate::frac::{frac_wf, Frac};

verus! {

/// Largest admissible coordinate magnitude, in pixels. Keeping coordinates in
/// this range lets every intermediate product fit its machine integer.
pub const MAX_COORD: i64 = 1_000_000;

/// A pixel-space point.
#[derive(Debug, Clone, Copy, PartialEq, Eq, Structural)]
pub struct Point2 {
    pub x: i64,
    pub y: i64,
}

/// A point with exact fractional coordinates (centroids).
#[derive(Debug, Clone, Copy, PartialEq, Eq, Structural)]
pub struct FracPoint {
    pub x: Frac,
    pub y: Frac,
}

/// Well-formedness of a fractional point.
pub open spec fn frac_point_wf(p: FracPoint) -> bool {
    frac_wf(p.x) && frac_wf(p.y)
}

/// The point lies in the admissible coordinate range.
pub open spec fn pt_wf(p: Point2) -> bool {
    -MAX_COORD <= p.x <= MAX_COORD && -MAX_COORD <= p.y <= MAX_COORD
}

/// Every point of the sequence lies in the admissible range.
pub open spec fn pts_wf(s: Seq<Point2>) -> bool {
    forall|i: int| 0 <= i < s.len() ==> pt_wf(#[trigger] s[i])
}

/// Exact range test for one point, for hosts validating input.
pub fn pt_wf_exec(p: &Point2) -> (r: bool)
    ensures
        r == pt_wf(*p),
{
    -1_000_000 <= p.x && p.x <= 1_000_000 && -1_000_000 <= p.y && p.y <= 1_000_000
}

/// Exact range test for a point sequence, for hosts validating input.
pub fn pts_wf_exec(points: &Vec<Point2>) -> (r: bool)
    ensures
        r == pts_wf(points@),
{
    let mut i: usize = 0;
    while i < points.len()
        invariant
            0 <= i <= points@.len(),
            forall|j: int| 0 <= j < i ==> pt_wf(#[trigger] points@[j]),
        decreases points@.len() - i,
    {
        if !pt_wf_exec(&points[i]) {
            return false;
        }
        i = i + 1;
    }
    true
}

/// An axis-aligned bounding box, corners inclusive.
#[derive(Debug, Clone, Copy, PartialEq, Eq, Structural)]
pub struct BBox {
    pub min_x: i64,
    pub min_y: i64,
    pub max_x: i64,
    pub max_y: i64,
}

/// Well-formedness: the corners are ordered.
pub open spec fn bbox_wf(b: BBox) -> bool {
    b.min_x <= b.max_x && b.min_y <= b.max_y
}

/// The box `inner` lies entirely within `outer` (edges inclusive).
pub open spec fn bbox_contains(outer: BBox, inner: BBox) -> bool {
    outer.min_x <= inner.min_x && inner.max_x <= outer.max_x && outer.min_y <= inner.min_y
        && inner.max_y <= outer.max_y
}

/// Exact containment test of one box in another.
pub fn bbox_contains_exec(outer: &BBox, inner: &BBox) -> (r: bool)
    ensures
        r == bbox_contains(*outer, *inner),
{
    outer.min_x <= inner.min_x && inner.max_x <= outer.max_x && outer.min_y <= inner.min_y
        && inner.max_y <= outer.max_y
}

/// The bounding box every point of `s` lies in, as four folds.
pub open spec fn spec_bbox(s: Seq<Point2>) -> BBox
    decreases s.len(),
{
    if s.len() <= 1 {
        BBox { min_x: s[0].x, min_y: s[0].y, max_x: s[0].x, max_y: s[0].y }
    } else {
        let rest = spec_bbox(s.drop_last());
        let p = s.last();
        BBox {
            min_x: if p.x < rest.min_x {
                p.x
            } else {
                rest.min_x
            },
            min_y: if p.y < rest.min_y {
                p.y
            } else {
                rest.min_y
            },
            max_x: if p.x > rest.max_x {
                p.x
            } else {
                rest.max_x
            },
            max_y: if p.y > rest.max_y {
                p.y
            } else {
                rest.max_y
            },
        }
    }
}

/// Axis-aligned hull of a non-empty point sequence; `None` when empty.
pub fn bbox_of_points(points: &Vec<Point2>) -> (r: Option<BBox>)
    ensures
        r is Some <==> points@.len() > 0,
        r is Some ==> r->0 == spec_bbox(points@),
        r is Some ==> bbox_wf(r->0),
{
    if points.len() == 0 {
        return None;
    }
    let first = points[0];
    let mut b = BBox { min_x: first.x, min_y: first.y, max_x: first.x, max_y: first.y };
    let mut i: usize = 1;
    proof {
        assert(points@.subrange(0, 1).len() == 1);
        assert(points@.subrange(0, 1)[0] == points@[0]);
        assert(b == spec_bbox(points@.subrange(0, 1)));
    }
    while i < points.len()
        invariant
            1 <= i <= points@.len(),
            b == spec_bbox(points@.subrange(0, i as int)),
            bbox_wf(b),
        decreases points@.len() - i,
    {
        let p = points[i];
        proof {
            let pre = points@.subrange(0, i as int);
            let cur = points@.subrange(0, i as int + 1);
            assert(cur.drop_last() =~= pre);
            assert(cur.last() == points@[i as int]);
        }
        b = BBox {
            min_x: if p.x < b.min_x {
                p.x
            } else {
                b.min_x
            },
            min_y: if p.y < b.min_y {
                p.y
            } else {
                b.min_y
            },
            max_x: if p.x > b.max_x {
                p.x
            } else {
                b.max_x
            },
            max_y: if p.y > b.max_y {
                p.y
            } else {
                b.max_y
            },
        };
        i = i + 1;
    }
    proof {
        assert(points@.subrange(0, points@.len() as int) =~= points@);
    }
    Some(b)
}

/// The hull of well-formed points lies in the coordinate range.
pub proof fn lemma_bbox_in_range(s: Seq<Point2>)
    requires
        s.len() > 0,
        pts_wf(s),
    ensures
        -MAX_COORD <= spec_bbox(s).min_x <= spec_bbox(s).max_x <= MAX_COORD,
        -MAX_COORD <= spec_bbox(s).min_y <= spec_bbox(s).max_y <= MAX_COORD,
    decreases s.len(),
{
    assert(pt_wf(s[0]));
    if s.len() > 1 {
        assert(pt_wf(s.last()));
        assert(pts_wf(s.drop_last())) by {
            assert(forall|i: int| 0 <= i < s.len() - 1 ==> s.drop_last()[i] == s[i]);
        }
        lemma_bbox_in_range(s.drop_last());
    }
}

/// The cyclic shoelace term at index `i`: the cross product of vertex `i`
/// and its successor (wrapping at the end).
pub open spec fn cross_term(s: Seq<Point2>, i: int) -> int {
    let j = if i + 1 == s.len() {
        0int
    } else {
        i + 1
    };
    s[i].x * s[j].y - s[j].x * s[i].y
}

/// Sum of the first `n` shoelace terms.
pub open spec fn shoelace_partial(s: Seq<Point2>, n: int) -> int
    decreases n,
{
    if n <= 0 {
        0
    } else {
        shoelace_partial(s, n - 1) + cross_term(s, n - 1)
    }
}

/// Twice the signed area of the closed polygon on `s`, by the shoelace
/// formula.
pub open spec fn shoelace(s: Seq<Point2>) -> int {
    shoelace_partial(s, s.len() as int)
}

/// Absolute value.
pub open spec fn abs_i(v: int) -> int {
    if v >= 0 {
        v
    } else {
        -v
    }
}

/// Bound on a product of two bounded factors.
pub(crate) proof fn lemma_mul_bound(a: int, b: int, m: int)
    requires
        -m <= a <= m,
        -m <= b <= m,
        m >= 0,
    ensures
        -(m * m) <= a * b <= m * m,
{
    assert(-(m * m) <= a * b <= m * m) by (nonlinear_arith)
        requires
            -m <= a <= m,
            -m <= b <= m,
            m >= 0,
    ;
}

/// Bound on a product from separate bounds on its factors.
pub(crate) proof fn lemma_mul_bound2(a: int, b: int, ma: int, mb: int)
    requires
        -ma <= a <= ma,
        -mb <= b <= mb,
        ma >= 0,
        mb >= 0,
    ensures
        -(ma * mb) <= a * b <= ma * mb,
{
    assert(-(ma * mb) <= a * b <= ma * mb) by (nonlinear_arith)
        requires
            -ma <= a <= ma,
            -mb <= b <= mb,
            ma >= 0,
            mb >= 0,
    ;
}

/// Each shoelace term of a well-formed sequence is bounded by twice the
/// squared coordinate limit.
proof fn lemma_cross_term_bound(s: Seq<Point2>, i: int)
    requires
        pts_wf(s),
        0 <= i < s.len(),
    ensures
        -2_000_000_000_000 <= cross_term(s, i) <= 2_000_000_000_000,
{
    let j = if i + 1 == s.len() {
        0int
    } else {
        i + 1
    };
    lemma_mul_bound(s[i].x as int, s[j].y as int, 1_000_000);
    lemma_mul_bound(s[j].x as int, s[i].y as int, 1_000_000);
}

/// Partial shoelace sums grow at most linearly.
pub(crate) proof fn lemma_shoelace_partial_bound(s: Seq<Point2>, n: int)
    requires
        pts_wf(s),
        0 <= n <= s.len(),
    ensures
        -(n * 2_000_000_000_000) <= shoelace_partial(s, n) <= n * 2_000_000_000_000,
    decreases n,
{
    if n > 0 {
        lemma_shoelace_partial_bound(s, n - 1);
        lemma_cross_term_bound(s, n - 1);
        assert((n - 1) * 2_000_000_000_000 + 2_000_000_000_000 == n * 2_000_000_000_000)
            by (nonlinear_arith);
    }
}

/// Twice the signed shoelace area of the polygon on `points`, exactly.
pub fn twice_signed_area(points: &Vec<Point2>) -> (r: i128)
    requires
        pts_wf(points@),
    ensures
        r == shoelace(points@),
{
    let n = points.len();
    let mut acc: i128 = 0;
    let mut i: usize = 0;
    while i < n
        invariant
            n == points@.len(),
            0 <= i <= n,
            pts_wf(points@),
            acc == shoelace_partial(points@, i as int),
            -((i as int) * 2_000_000_000_000) <= acc <= (i as int) * 2_000_000_000_000,
        decreases n - i,
    {
        let j = if i + 1 == n {
            0
        } else {
            i + 1
        };
        let xi = points[i].x as i128;
        let yi = points[i].y as i128;
        let xj = points[j].x as i128;
        let yj = points[j].y as i128;
        proof {
            assert(pt_wf(points@[i as int]));
            assert(pt_wf(points@[j as int]));
            lemma_mul_bound(xi as int, yj as int, 1_000_000);
            lemma_mul_bound(xj as int, yi as int, 1_000_000);
            lemma_cross_term_bound(points@, i as int);
            assert((i as int) * 2_000_000_000_000 + 2_000_000_000_000 == (i as int + 1)
                * 2_000_000_000_000) by (nonlinear_arith);
        }
        acc = acc + (xi * yj - xj * yi);
        i = i + 1;
    }
    acc
}

/// Reversing the vertex order negates the shoelace sum over the first `m`
/// terms, mapped onto the tail of the original sum.
proof fn lemma_shoelace_reverse_partial(s: Seq<Point2>, r: Seq<Point2>, m: int)
    requires
        r == s.reverse(),
        s.len() >= 1,
        0 <= m <= s.len() - 1,
    ensures
        shoelace_partial(r, m) == -(shoelace_partial(s, s.len() - 1) - shoelace_partial(
            s,
            s.len() - 1 - m,
        )),
    decreases m,
{
    let n = s.len() as int;
    if m > 0 {
        lemma_shoelace_reverse_partial(s, r, m - 1);
        // The m-th reversed term is the negated (n-1-m)-th original term.
        assert(r[m - 1] == s[n - m]);
        assert(r[m] == s[n - 1 - m]);
        assert(cross_term(r, m - 1) == -cross_term(s, n - 1 - m));
        assert(shoelace_partial(s, n - m) == shoelace_partial(s, n - 1 - m) + cross_term(
            s,
            n - 1 - m,
        ));
    }
}

/// Reversing a closed polygon negates its shoelace sum, so the absolute
/// (unsigned) area is the same in either winding.
pub proof fn lemma_shoelace_reverse(s: Seq<Point2>)
    ensures
        shoelace(s.reverse()) == -shoelace(s),
{
    let n = s.len() as int;
    let r = s.reverse();
    if n == 0 {
    } else {
        lemma_shoelace_reverse_partial(s, r, n - 1);
        assert(r[n - 1] == s[0]);
        assert(r[0] == s[n - 1]);
        assert(cross_term(r, n - 1) == -cross_term(s, n - 1));
        assert(shoelace(r) == shoelace_partial(r, n - 1) + cross_term(r, n - 1));
        assert(shoelace(s) == shoelace_partial(s, n - 1) + cross_term(s, n - 1));
    }
}

/// Translating the first `m + 1` vertices shifts the first `m` shoelace terms
/// by a telescoping amount.
proof fn lemma_shoelace_translate_partial(s: Seq<Point2>, t: Seq<Point2>, dx: int, dy: int, m: int)
    requires
        s.len() == t.len(),
        s.len() >= 1,
        forall|i: int| 0 <= i < s.len() ==> (#[trigger] t[i]).x == s[i].x + dx && t[i].y == s[i].y
            + dy,
        0 <= m <= s.len() - 1,
    ensures
        shoelace_partial(t, m) == shoelace_partial(s, m) + dx * (s[m].y - s[0].y) + dy * (s[0].x
            - s[m].x),
    decreases m,
{
    if m == 0 {
        assert(dx * (s[0].y - s[0].y) == 0) by (nonlinear_arith);
        assert(dy * (s[0].x - s[0].x) == 0) by (nonlinear_arith);
    } else {
        lemma_shoelace_translate_partial(s, t, dx, dy, m - 1);
        assert(shoelace_partial(t, m) == shoelace_partial(t, m - 1) + cross_term(t, m - 1));
        assert(shoelace_partial(s, m) == shoelace_partial(s, m - 1) + cross_term(s, m - 1));
        let sx1 = s[m - 1].x as int;
        let sy1 = s[m - 1].y as int;
        let sx2 = s[m].x as int;
        let sy2 = s[m].y as int;
        assert((sx1 + dx) * (sy2 + dy) - ((sx2 + dx) * (sy1 + dy)) == (sx1 * sy2 - sx2 * sy1) + dx
            * (sy2 - sy1) + dy * (sx1 - sx2)) by (nonlinear_arith);
        assert(cross_term(t, m - 1) == (sx1 + dx) * (sy2 + dy) - ((sx2 + dx) * (sy1 + dy)));
        assert(cross_term(s, m - 1) == sx1 * sy2 - sx2 * sy1);
        assert(dx * (sy1 - s[0].y) + dx * (sy2 - sy1) == dx * (sy2 - s[0].y)) by (nonlinear_arith);
        assert(dy * (s[0].x - sx1) + dy * (sx1 - sx2) == dy * (s[0].x - sx2)) by (nonlinear_arith);
    }
}

/// Translating every vertex by the same vector leaves the shoelace sum (and
/// with it the polygon's area) unchanged.
pub proof fn lemma_shoelace_translate(s: Seq<Point2>, t: Seq<Point2>, dx: int, dy: int)
    requires
        s.len() == t.len(),
        forall|i: int| 0 <= i < s.len() ==> (#[trigger] t[i]).x == s[i].x + dx && t[i].y == s[i].y
            + dy,
    ensures
        shoelace(t) == shoelace(s),
{
    let n = s.len() as int;
    if n == 0 {
    } else {
        lemma_shoelace_translate_partial(s, t, dx, dy, n - 1);
        let sxn = s[n - 1].x as int;
        let syn = s[n - 1].y as int;
        let sx0 = s[0].x as int;
        let sy0 = s[0].y as int;
        assert((sxn + dx) * (sy0 + dy) - ((sx0 + dx) * (syn + dy)) == (sxn * sy0 - sx0 * syn) + dx
            * (sy0 - syn) + dy * (sxn - sx0)) by (nonlinear_arith);
        assert(cross_term(t, n - 1) == (sxn + dx) * (sy0 + dy) - ((sx0 + dx) * (syn + dy)));
        assert(cross_term(s, n - 1) == sxn * sy0 - sx0 * syn);
        assert(dx * (syn - sy0) + dx * (sy0 - syn) == 0) by (nonlinear_arith);
        assert(dy * (sx0 - sxn) + dy * (sxn - sx0) == 0) by (nonlinear_arith);
        assert(shoelace(t) == shoelace_partial(t, n - 1) + cross_term(t, n - 1));
        assert(shoelace(s) == shoelace_partial(s, n - 1) + cross_term(s, n - 1));
    }
}

/// The integer square root: the largest `r` with `r * r <= v`.
pub open spec fn sqrt_floor(v: int) -> int
    decreases v,
{
    if v <= 0 {
        0
    } else {
        let r = sqrt_floor(v - 1);
        if (r + 1) * (r + 1) <= v {
            r + 1
        } else {
            r
        }
    }
}

/// The defining bounds of the integer square root.
pub proof fn lemma_sqrt_floor_bounds(v: int)
    requires
        v >= 0,
    ensures
        sqrt_floor(v) >= 0,
        sqrt_floor(v) * sqrt_floor(v) <= v,
        v < (sqrt_floor(v) + 1) * (sqrt_floor(v) + 1),
    decreases v,
{
    if v > 0 {
        lemma_sqrt_floor_bounds(v - 1);
        let r = sqrt_floor(v - 1);
        if (r + 1) * (r + 1) <= v {
            assert(v < ((r + 1) + 1) * ((r + 1) + 1)) by (nonlinear_arith)
                requires
                    r >= 0,
                    v - 1 < (r + 1) * (r + 1),
            ;
        }
    }
}

/// Any value satisfying the square-root bounds is the integer square root.
pub proof fn lemma_sqrt_floor_unique(v: int, r: int)
    requires
        v >= 0,
        r >= 0,
        r * r <= v,
        v < (r + 1) * (r + 1),
    ensures
        r == sqrt_floor(v),
{
    lemma_sqrt_floor_bounds(v);
    let q = sqrt_floor(v);
    assert(r == q) by (nonlinear_arith)
        requires
            r >= 0,
            q >= 0,
            r * r <= v,
            v < (r + 1) * (r + 1),
            q * q <= v,
            v < (q + 1) * (q + 1),
    ;
}

/// Integer square root by bisection.
pub fn isqrt(v: u64) -> (r: u64)
    requires
        v <= 8_000_000_000_000_000_000,
    ensures
        r == sqrt_floor(v as int),
{
    if v == 0 {
        proof {
            lemma_sqrt_floor_unique(0, 0);
        }
        return 0;
    }
    let mut lo: u64 = 0;
    let mut hi: u64 = 3_000_000_000;
    proof {
        assert((3_000_000_000u64 as int) * (3_000_000_000u64 as int) > v as int);
    }
    while lo + 1 < hi
        invariant
            lo < hi <= 3_000_000_000,
            (lo as int) * (lo as int) <= v as int,
            (hi as int) * (hi as int) > v as int,
            v <= 8_000_000_000_000_000_000,
        decreases hi - lo,
    {
        let mid = lo + (hi - lo) / 2;
        proof {
            assert((mid as int) * (mid as int) <= (3_000_000_000int) * (3_000_000_000int))
                by (nonlinear_arith)
                requires
                    0 <= mid as int <= 3_000_000_000int,
            ;
        }
        if mid * mid <= v {
            lo = mid;
        } else {
            hi = mid;
        }
    }
    proof {
        lemma_sqrt_floor_unique(v as int, lo as int);
    }
    lo
}

/// Squared Euclidean distance between two points, exactly.
pub open spec fn seg_d2(p: Point2, q: Point2) -> int {
    (p.x - q.x) * (p.x - q.x) + (p.y - q.y) * (p.y - q.y)
}

/// The squared distance between two points, exactly.
pub fn seg_d2_exec(p: &Point2, q: &Point2) -> (r: i64)
    requires
        pt_wf(*p),
        pt_wf(*q),
    ensures
        r == seg_d2(*p, *q),
        0 <= r <= 8_000_000_000_000,
{
    proof {
        lemma_mul_bound(p.x - q.x, p.x - q.x, 2_000_000);
        lemma_mul_bound(p.y - q.y, p.y - q.y, 2_000_000);
        assert((p.x - q.x) * (p.x - q.x) >= 0) by (nonlinear_arith);
        assert((p.y - q.y) * (p.y - q.y) >= 0) by (nonlinear_arith);
    }
    (p.x - q.x) * (p.x - q.x) + (p.y - q.y) * (p.y - q.y)
}

/// Length of the segment `p q` in thousandths of a pixel, rounded down: the
/// integer square root of the squared distance scaled by a million.
pub open spec fn seg_len_milli(p: Point2, q: Point2) -> int {
    sqrt_floor(seg_d2(p, q) * 1_000_000)
}

/// Fixed-point segment length (thousandths of a pixel).
pub fn seg_len_milli_exec(p: &Point2, q: &Point2) -> (r: u64)
    requires
        pt_wf(*p),
        pt_wf(*q),
    ensures
        r == seg_len_milli(*p, *q),
        r <= 3_000_000_000,
{
    let dx = p.x - q.x;
    let dy = p.y - q.y;
    proof {
        lemma_mul_bound(dx as int, dx as int, 2_000_000);
        lemma_mul_bound(dy as int, dy as int, 2_000_000);
        assert(dx * dx >= 0) by (nonlinear_arith);
        assert(dy * dy >= 0) by (nonlinear_arith);
    }
    let d2 = dx * dx + dy * dy;
    let v = (d2 as u64) * 1_000_000;
    let r = isqrt(v);
    proof {
        lemma_sqrt_floor_bounds(v as int);
        assert(r <= 3_000_000_000) by (nonlinear_arith)
            requires
                r as int * (r as int) <= v as int,
                v <= 8_000_000_000_000_000_000,
                r >= 0,
        ;
    }
    r
}

/// Sum of the fixed-point lengths of the first `m` segments of the open path
/// on `s`.
pub open spec fn path_len_partial(s: Seq<Point2>, m: int) -> int
    decreases m,
{
    if m <= 0 {
        0
    } else {
        path_len_partial(s, m - 1) + seg_len_milli(s[m - 1], s[m])
    }
}

/// Fixed-point length of the open polyline on `s` (thousandths of a pixel).
pub open spec fn polyline_len_milli(s: Seq<Point2>) -> int {
    path_len_partial(s, s.len() - 1)
}

/// Fixed-point perimeter of the closed polygon on `s`: the open path plus the
/// closing segment.
pub open spec fn polygon_perimeter_milli(s: Seq<Point2>) -> int {
    if s.len() == 0 {
        0
    } else {
        polyline_len_milli(s) + seg_len_milli(s[s.len() - 1], s[0])
    }
}

/// Translating both endpoints of every segment by the same vector leaves the
/// fixed-point path lengths unchanged.
proof fn lemma_path_translate(s: Seq<Point2>, t: Seq<Point2>, dx: int, dy: int, m: int)
    requires
        s.len() == t.len(),
        forall|i: int| 0 <= i < s.len() ==> (#[trigger] t[i]).x == s[i].x + dx && t[i].y == s[i].y
            + dy,
        0 <= m < s.len(),
    ensures
        path_len_partial(t, m) == path_len_partial(s, m),
    decreases m,
{
    if m > 0 {
        lemma_path_translate(s, t, dx, dy, m - 1);
        assert(seg_d2(t[m - 1], t[m]) == seg_d2(s[m - 1], s[m]));
    }
}

/// Translating every vertex by the same vector leaves the fixed-point length
/// of the open polyline and the perimeter of the closed polygon unchanged.
pub proof fn lemma_perimeter_translate(s: Seq<Point2>, t: Seq<Point2>, dx: int, dy: int)
    requires
        s.len() == t.len(),
        forall|i: int| 0 <= i < s.len() ==> (#[trigger] t[i]).x == s[i].x + dx && t[i].y == s[i].y
            + dy,
    ensures
        polyline_len_milli(t) == polyline_len_milli(s),
        polygon_perimeter_milli(t) == polygon_perimeter_milli(s),
{
    if s.len() == 0 {
    } else {
        lemma_path_translate(s, t, dx, dy, s.len() - 1);
        assert(seg_d2(t[s.len() - 1], t[0]) == seg_d2(s[s.len() - 1], s[0]));
    }
}

/// Sum of the x coordinates of the first `n` points.
pub open spec fn sum_x_partial(s: Seq<Point2>, n: int) -> int
    decreases n,
{
    if n <= 0 {
        0
    } else {
        sum_x_partial(s, n - 1) + s[n - 1].x
    }
}

/// Sum of the y coordinates of the first `n` points.
pub open spec fn sum_y_partial(s: Seq<Point2>, n: int) -> int
    decreases n,
{
    if n <= 0 {
        0
    } else {
        sum_y_partial(s, n - 1) + s[n - 1].y
    }
}

/// The arithmetic mean of the vertices, as exact fractions.
pub fn vertex_mean(points: &Vec<Point2>) -> (r: FracPoint)
    requires
        pts_wf(points@),
        points@.len() >= 1,
    ensures
        frac_point_wf(r),
        r.x.num == sum_x_partial(points@, points@.len() as int) && r.x.den == points@.len(),
        r.y.num == sum_y_partial(points@, points@.len() as int) && r.y.den == points@.len(),
{
    let n = points.len();
    let mut sx: i128 = 0;
    let mut sy: i128 = 0;
    let mut i: usize = 0;
    while i < n
        invariant
            n == points@.len(),
            0 <= i <= n,
            pts_wf(points@),
            sx == sum_x_partial(points@, i as int),
            sy == sum_y_partial(points@, i as int),
            -((i as int) * 1_000_000) <= sx <= (i as int) * 1_000_000,
            -((i as int) * 1_000_000) <= sy <= (i as int) * 1_000_000,
        decreases n - i,
    {
        proof {
            assert(pt_wf(points@[i as int]));
            assert((i as int) * 1_000_000 + 1_000_000 == (i as int + 1) * 1_000_000)
                by (nonlinear_arith);
        }
        sx = sx + (points[i].x as i128);
        sy = sy + (points[i].y as i128);
        i = i + 1;
    }
    FracPoint { x: Frac { num: sx, den: n as i128 }, y: Frac { num: sy, den: n as i128 } }
}

/// Numerator of the signed-area-weighted centroid's x coordinate, over the
/// first `n` shoelace terms.
pub open spec fn cent_x_partial(s: Seq<Point2>, n: int) -> int
    decreases n,
{
    if n <= 0 {
        0
    } else {
        let j = if n == s.len() {
            0int
        } else {
            n
        };
        cent_x_partial(s, n - 1) + (s[n - 1].x + s[j].x) * cross_term(s, n - 1)
    }
}

/// Numerator of the signed-area-weighted centroid's y coordinate.
pub open spec fn cent_y_partial(s: Seq<Point2>, n: int) -> int
    decreases n,
{
    if n <= 0 {
        0
    } else {
        let j = if n == s.len() {
            0int
        } else {
            n
        };
        cent_y_partial(s, n - 1) + (s[n - 1].y + s[j].y) * cross_term(s, n - 1)
    }
}

/// One non-wrapping term of the weighted centroid numerator under a uniform
/// shift: the term gains three times the shift times its cross product, plus
/// telescoping endpoint corrections.
proof fn lemma_cent_term_shift(a: int, b: int, c: int, d: int, dx: int, dy: int)
    ensures
        (a + b + 2 * dx) * ((a * d - b * c) + (dx * (d - c) + dy * (a - b))) == (a + b) * (a * d
            - b * c) + 3 * dx * (a * d - b * c) + dx * (b * d - a * c) + dy * (a * a - b * b) + 2
            * (dx * dx) * (d - c) + 2 * (dx * dy) * (a - b),
        (c + d + 2 * dy) * ((a * d - b * c) + (dx * (d - c) + dy * (a - b))) == (c + d) * (a * d
            - b * c) + 3 * dy * (a * d - b * c) + dx * (d * d - c * c) + dy * (a * c - b * d) + 2
            * (dy * dx) * (d - c) + 2 * (dy * dy) * (a - b),
{
    let cc = a * d - b * c;
    let e = dx * (d - c) + dy * (a - b);
    vstd::arithmetic::mul::lemma_mul_is_distributive_add_other_way(cc + e, a + b, 2 * dx);
    vstd::arithmetic::mul::lemma_mul_is_distributive_add(a + b, cc, e);
    vstd::arithmetic::mul::lemma_mul_is_distributive_add(2 * dx, cc, e);
    vstd::arithmetic::mul::lemma_mul_is_distributive_add(a + b, dx * (d - c), dy * (a - b));
    assert((a + b) * (dx * (d - c)) == dx * ((a + b) * (d - c))) by (nonlinear_arith);
    assert((a + b) * (d - c) == cc + (b * d - a * c)) by (nonlinear_arith)
        requires
            cc == a * d - b * c,
    ;
    assert((a + b) * (dy * (a - b)) == dy * (a * a - b * b)) by (nonlinear_arith);
    assert((a + b) * e == dx * (cc + (b * d - a * c)) + dy * (a * a - b * b));
    assert((2 * dx) * e == 2 * (dx * dx) * (d - c) + 2 * (dx * dy) * (a - b)) by (nonlinear_arith)
        requires
            e == dx * (d - c) + dy * (a - b),
    ;
    assert(dx * (cc + (b * d - a * c)) == dx * cc + dx * (b * d - a * c)) by (nonlinear_arith);
    assert((2 * dx) * cc + dx * cc == 3 * dx * cc) by (nonlinear_arith);
    assert(3 * dx * cc == 3 * dx * (a * d - b * c));
    vstd::arithmetic::mul::lemma_mul_is_distributive_add_other_way(cc + e, c + d, 2 * dy);
    vstd::arithmetic::mul::lemma_mul_is_distributive_add(c + d, cc, e);
    vstd::arithmetic::mul::lemma_mul_is_distributive_add(2 * dy, cc, e);
    vstd::arithmetic::mul::lemma_mul_is_distributive_add(c + d, dx * (d - c), dy * (a - b));
    assert((c + d) * (dx * (d - c)) == dx * ((c + d) * (d - c))) by (nonlinear_arith);
    assert((c + d) * (d - c) == d * d - c * c) by (nonlinear_arith);
    assert((c + d) * (dy * (a - b)) == dy * ((c + d) * (a - b))) by (nonlinear_arith);
    assert((c + d) * (a - b) == cc + (a * c - b * d)) by (nonlinear_arith)
        requires
            cc == a * d - b * c,
    ;
    assert((c + d) * e == dx * (d * d - c * c) + dy * (cc + (a * c - b * d)));
    assert((2 * dy) * e == 2 * (dy * dx) * (d - c) + 2 * (dy * dy) * (a - b)) by (nonlinear_arith)
        requires
            e == dx * (d - c) + dy * (a - b),
    ;
    assert(dy * (cc + (a * c - b * d)) == dy * cc + dy * (a * c - b * d)) by (nonlinear_arith);
    assert((2 * dy) * cc + dy * cc == 3 * dy * cc) by (nonlinear_arith);
}

/// A shifted cross product expands into the original plus the shift terms.
proof fn lemma_cross_shift(a: int, b: int, c: int, d: int, dx: int, dy: int)
    ensures
        (a + dx) * (d + dy) - ((b + dx) * (c + dy)) == (a * d - b * c) + (dx * (d - c) + dy * (a
            - b)),
{
    assert((a + dx) * (d + dy) - ((b + dx) * (c + dy)) == (a * d - b * c) + (dx * (d - c) + dy * (a
        - b))) by (nonlinear_arith);
}

/// Shifting every vertex moves the first `m` weighted centroid numerator
/// terms by three shifts times the partial shoelace sum, up to telescoping
/// endpoint corrections that vanish once the polygon closes.
proof fn lemma_cent_shift_partial(s: Seq<Point2>, t: Seq<Point2>, dx: int, dy: int, m: int)
    requires
        s.len() == t.len(),
        s.len() >= 1,
        forall|i: int| 0 <= i < s.len() ==> (#[trigger] t[i]).x == s[i].x + dx && t[i].y == s[i].y
            + dy,
        0 <= m <= s.len() - 1,
    ensures
        cent_x_partial(t, m) == cent_x_partial(s, m) + 3 * dx * shoelace_partial(s, m) + dx * (
        s[m].x * s[m].y - s[0].x * s[0].y) + dy * (s[0].x * s[0].x - s[m].x * s[m].x) + 2 * (dx
            * dx) * (s[m].y - s[0].y) + 2 * (dx * dy) * (s[0].x - s[m].x),
        cent_y_partial(t, m) == cent_y_partial(s, m) + 3 * dy * shoelace_partial(s, m) + dx * (
        s[m].y * s[m].y - s[0].y * s[0].y) + dy * (s[0].x * s[0].y - s[m].x * s[m].y) + 2 * (dy
            * dx) * (s[m].y - s[0].y) + 2 * (dy * dy) * (s[0].x - s[m].x),
    decreases m,
{
    if m == 0 {
        assert(dx * 0 == 0 && dy * 0 == 0 && 2 * (dx * dx) * 0 == 0 && 2 * (dx * dy) * 0 == 0 && 2
            * (dy * dx) * 0 == 0 && 2 * (dy * dy) * 0 == 0 && 3 * dx * 0 == 0 && 3 * dy * 0 == 0)
            by (nonlinear_arith);
        assert(dx * (s[0].x * s[0].y - s[0].x * s[0].y) == 0 && dy * (s[0].x * s[0].x - s[0].x
            * s[0].x) == 0 && dy * (s[0].x * s[0].y - s[0].x * s[0].y) == 0 && dx * (s[0].y
            * s[0].y - s[0].y * s[0].y) == 0 && 2 * (dx * dx) * (s[0].y - s[0].y) == 0 && 2 * (dx
            * dy) * (s[0].x - s[0].x) == 0 && 2 * (dy * dx) * (s[0].y - s[0].y) == 0 && 2 * (dy
            * dy) * (s[0].x - s[0].x) == 0) by (nonlinear_arith);
    } else {
        lemma_cent_shift_partial(s, t, dx, dy, m - 1);
        let a = s[m - 1].x as int;
        let b = s[m].x as int;
        let c = s[m - 1].y as int;
        let d = s[m].y as int;
        lemma_cross_shift(a, b, c, d, dx, dy);
        assert(cross_term(t, m - 1) == (a + dx) * (d + dy) - ((b + dx) * (c + dy)));
        assert(cross_term(t, m - 1) == (a * d - b * c) + (dx * (d - c) + dy * (a - b)));
        assert(cent_x_partial(t, m) == cent_x_partial(t, m - 1) + (a + b + 2 * dx) * ((a * d - b
            * c) + (dx * (d - c) + dy * (a - b))));
        assert(cent_y_partial(t, m) == cent_y_partial(t, m - 1) + (c + d + 2 * dy) * ((a * d - b
            * c) + (dx * (d - c) + dy * (a - b))));
        assert(cent_x_partial(s, m) == cent_x_partial(s, m - 1) + (a + b) * (a * d - b * c));
        assert(cent_y_partial(s, m) == cent_y_partial(s, m - 1) + (c + d) * (a * d - b * c));
        assert(shoelace_partial(s, m) == shoelace_partial(s, m - 1) + (a * d - b * c));
        lemma_cent_term_shift(a, b, c, d, dx, dy);
        // Fold each telescoping correction one step forward.
        assert(3 * dx * (shoelace_partial(s, m - 1) + (a * d - b * c)) == 3 * dx
            * shoelace_partial(s, m - 1) + 3 * dx * (a * d - b * c)) by (nonlinear_arith);
        assert(3 * dy * (shoelace_partial(s, m - 1) + (a * d - b * c)) == 3 * dy
            * shoelace_partial(s, m - 1) + 3 * dy * (a * d - b * c)) by (nonlinear_arith);
        assert(dx * (b * d - s[0].x * s[0].y) == dx * (a * c - s[0].x * s[0].y) + dx * (b * d - a
            * c)) by (nonlinear_arith);
        assert(dy * (s[0].x * s[0].x - b * b) == dy * (s[0].x * s[0].x - a * a) + dy * (a * a - b
            * b)) by (nonlinear_arith);
        assert(2 * (dx * dx) * (d - s[0].y) == 2 * (dx * dx) * (c - s[0].y) + 2 * (dx * dx) * (d
            - c)) by (nonlinear_arith);
        assert(2 * (dx * dy) * (s[0].x - b) == 2 * (dx * dy) * (s[0].x - a) + 2 * (dx * dy) * (a
            - b)) by (nonlinear_arith);
        assert(dx * (d * d - s[0].y * s[0].y) == dx * (c * c - s[0].y * s[0].y) + dx * (d * d - c
            * c)) by (nonlinear_arith);
        assert(dy * (s[0].x * s[0].y - b * d) == dy * (s[0].x * s[0].y - a * c) + dy * (a * c - b
            * d)) by (nonlinear_arith);
        assert(2 * (dy * dx) * (d - s[0].y) == 2 * (dy * dx) * (c - s[0].y) + 2 * (dy * dx) * (d
            - c)) by (nonlinear_arith);
        assert(2 * (dy * dy) * (s[0].x - b) == 2 * (dy * dy) * (s[0].x - a) + 2 * (dy * dy) * (a
            - b)) by (nonlinear_arith);
    }
}

/// Shifting every vertex of a closed polygon moves each weighted centroid
/// numerator by exactly three times the shift times the shoelace sum.
pub proof fn lemma_cent_shift(s: Seq<Point2>, t: Seq<Point2>, dx: int, dy: int)
    requires
        s.len() == t.len(),
        s.len() >= 1,
        forall|i: int| 0 <= i < s.len() ==> (#[trigger] t[i]).x == s[i].x + dx && t[i].y == s[i].y
            + dy,
    ensures
        cent_x_partial(t, s.len() as int) == cent_x_partial(s, s.len() as int) + 3 * dx
            * shoelace(s),
        cent_y_partial(t, s.len() as int) == cent_y_partial(s, s.len() as int) + 3 * dy
            * shoelace(s),
{
    let n = s.len() as int;
    lemma_cent_shift_partial(s, t, dx, dy, n - 1);
    let a = s[n - 1].x as int;
    let b = s[0].x as int;
    let c = s[n - 1].y as int;
    let d = s[0].y as int;
    lemma_cross_shift(a, b, c, d, dx, dy);
    // The wrapping term closes every telescope.
    assert(cross_term(t, n - 1) == (a + dx) * (d + dy) - ((b + dx) * (c + dy)));
    assert(cross_term(t, n - 1) == (a * d - b * c) + (dx * (d - c) + dy * (a - b)));
    assert(cent_x_partial(t, n) == cent_x_partial(t, n - 1) + (a + b + 2 * dx) * ((a * d - b * c)
        + (dx * (d - c) + dy * (a - b))));
    assert(cent_y_partial(t, n) == cent_y_partial(t, n - 1) + (c + d + 2 * dy) * ((a * d - b * c)
        + (dx * (d - c) + dy * (a - b))));
    assert(cent_x_partial(s, n) == cent_x_partial(s, n - 1) + (a + b) * (a * d - b * c));
    assert(cent_y_partial(s, n) == cent_y_partial(s, n - 1) + (c + d) * (a * d - b * c));
    assert(shoelace(s) == shoelace_partial(s, n - 1) + (a * d - b * c));
    lemma_cent_term_shift(a, b, c, d, dx, dy);
    assert(3 * dx * (shoelace_partial(s, n - 1) + (a * d - b * c)) == 3 * dx * shoelace_partial(
        s,
        n - 1,
    ) + 3 * dx * (a * d - b * c)) by (nonlinear_arith);
    assert(3 * dy * (shoelace_partial(s, n - 1) + (a * d - b * c)) == 3 * dy * shoelace_partial(
        s,
        n - 1,
    ) + 3 * dy * (a * d - b * c)) by (nonlinear_arith);
    // Telescope closures: the wrap corrections cancel the partial ones.
    assert(dx * (a * c - b * d) + dx * (b * d - a * c) == 0 && dy * (b * b - a * a) + dy * (a * a
        - b * b) == 0 && 2 * (dx * dx) * (c - d) + 2 * (dx * dx) * (d - c) == 0 && 2 * (dx * dy)
        * (b - a) + 2 * (dx * dy) * (a - b) == 0 && dx * (c * c - d * d) + dx * (d * d - c * c)
        == 0 && dy * (b * d - a * c) + dy * (a * c - b * d) == 0 && 2 * (dy * dx) * (c - d) + 2
        * (dy * dx) * (d - c) == 0 && 2 * (dy * dy) * (b - a) + 2 * (dy * dy) * (a - b) == 0)
        by (nonlinear_arith);
}

/// The signed-area-weighted centroid of a polygon with non-zero shoelace sum:
/// each coordinate is its weighted numerator over three times the shoelace
/// sum, with the sign arranged so the denominator is positive.
pub fn polygon_centroid_weighted(points: &Vec<Point2>, a2: i128) -> (r: FracPoint)
    requires
        pts_wf(points@),
        points@.len() >= 1,
        a2 == shoelace(points@),
        a2 != 0,
    ensures
        frac_point_wf(r),
        r.x.num as int == if shoelace(points@) > 0 {
            cent_x_partial(points@, points@.len() as int)
        } else {
            -cent_x_partial(points@, points@.len() as int)
        },
        r.y.num as int == if shoelace(points@) > 0 {
            cent_y_partial(points@, points@.len() as int)
        } else {
            -cent_y_partial(points@, points@.len() as int)
        },
        r.x.den as int == 3 * abs_i(shoelace(points@)),
        r.y.den as int == 3 * abs_i(shoelace(points@)),
{
    let n = points.len();
    let mut cx: i128 = 0;
    let mut cy: i128 = 0;
    let mut i: usize = 0;
    while i < n
        invariant
            n == points@.len(),
            0 <= i <= n,
            pts_wf(points@),
            cx == cent_x_partial(points@, i as int),
            cy == cent_y_partial(points@, i as int),
            -((i as int) * 4_000_000_000_000_000_000) <= cx <= (i as int)
                * 4_000_000_000_000_000_000,
            -((i as int) * 4_000_000_000_000_000_000) <= cy <= (i as int)
                * 4_000_000_000_000_000_000,
        decreases n - i,
    {
        let j = if i + 1 == n {
            0
        } else {
            i + 1
        };
        let xi = points[i].x as i128;
        let yi = points[i].y as i128;
        let xj = points[j].x as i128;
        let yj = points[j].y as i128;
        proof {
            assert(pt_wf(points@[i as int]));
            assert(pt_wf(points@[j as int]));
            lemma_mul_bound(xi as int, yj as int, 1_000_000);
            lemma_mul_bound(xj as int, yi as int, 1_000_000);
            lemma_cross_term_bound(points@, i as int);
            lemma_mul_bound2(
                xi as int + xj as int,
                cross_term(points@, i as int),
                2_000_000,
                2_000_000_000_000,
            );
            lemma_mul_bound2(
                yi as int + yj as int,
                cross_term(points@, i as int),
                2_000_000,
                2_000_000_000_000,
            );
            assert((i as int) * 4_000_000_000_000_000_000 + 4_000_000_000_000_000_000 == (i as int
                + 1) * 4_000_000_000_000_000_000) by (nonlinear_arith);
            assert((i as int + 1) * 4_000_000_000_000_000_000 <= 0x4000_0000_0000_0000_0000_0000_0000_0000int)
                by (nonlinear_arith)
                requires
                    0 <= i as int + 1 <= 0x1_0000_0000_0000_0000int,
            ;
        }
        let cross = xi * yj - xj * yi;
        cx = cx + (xi + xj) * cross;
        cy = cy + (yi + yj) * cross;
        i = i + 1;
    }
    proof {
        lemma_shoelace_partial_bound(points@, n as int);
        assert((n as int) * 2_000_000_000_000 * 3 < i128::MAX) by (nonlinear_arith)
            requires
                0 <= n as int <= 0x1_0000_0000_0000_0000int,
        ;
        assert(-((n as int) * 4_000_000_000_000_000_000) > i128::MIN) by (nonlinear_arith)
            requires
                0 <= n as int <= 0x1_0000_0000_0000_0000int,
        ;
    }
    let den = 3 * a2;
    if den > 0 {
        FracPoint { x: Frac { num: cx, den: den }, y: Frac { num: cy, den: den } }
    } else {
        proof {
            let a3 = 3 * shoelace(points@);
            assert((-(cx as int)) * a3 == cx * (-a3) && (-(cy as int)) * a3 == cy * (-a3))
                by (nonlinear_arith);
        }
        FracPoint { x: Frac { num: -cx, den: -den }, y: Frac { num: -cy, den: -den } }
    }
}

/// Length of the open polyline on `points` in thousandths of a pixel.
pub fn polyline_length_milli(points: &Vec<Point2>) -> (r: i128)
    requires
        pts_wf(points@),
        points@.len() >= 1,
    ensures
        r == polyline_len_milli(points@),
        0 <= r <= (points@.len() - 1) * 3_000_000_000,
{
    let n = points.len();
    let mut acc: i128 = 0;
    let mut i: usize = 0;
    while i < n - 1
        invariant
            n == points@.len(),
            1 <= n,
            0 <= i <= n - 1,
            pts_wf(points@),
            acc == path_len_partial(points@, i as int),
            0 <= acc <= (i as int) * 3_000_000_000,
        decreases n - 1 - i,
    {
        let s = seg_len_milli_exec(&points[i], &points[i + 1]);
        proof {
            assert((i as int) * 3_000_000_000 + 3_000_000_000 == (i as int + 1) * 3_000_000_000)
                by (nonlinear_arith);
        }
        acc = acc + (s as i128);
        i = i + 1;
    }
    acc
}

/// Perimeter of the closed polygon on `points` in thousandths of a pixel.
pub fn polygon_perimeter_milli_exec(points: &Vec<Point2>) -> (r: i128)
    requires
        pts_wf(points@),
        points@.len() >= 1,
    ensures
        r == polygon_perimeter_milli(points@),
        r >= 0,
{
    let n = points.len();
    let open_len = polyline_length_milli(points);
    let closing = seg_len_milli_exec(&points[n - 1], &points[0]);
    proof {
        assert((n as int - 1) * 3_000_000_000 + 3_000_000_000 <= i128::MAX) by (nonlinear_arith)
            requires
                1 <= n as int <= 0xffff_ffff_ffff_ffff,
        ;
    }
    open_len + (closing as i128)
}

} // verus!
