//! Polyline simplification by Ramer–Douglas–Peucker.
//!
//! The vertex farthest from the chord between the endpoints is retained when
//! its distance exceeds the tolerance, and the two halves are simplified
//! recursively; otherwise every intermediate vertex is dropped. Distances are
//! compared exactly on squares: the squared perpendicular distance of `p`
//! from the line through `a` and `b` is `cross² / |b - a|²`, so comparisons
//! against a fractional tolerance never round. Among equally far vertices the
//! first is chosen.

use vstd::prelude::*;

use crate::frac::Frac;
use crate::geometry::{pt_wf, pts_wf, seg_d2, seg_d2_exec, Point2};

verus! {

/// Admissible tolerance: non-negative, with numerator and denominator small
/// enough that every squared comparison fits the machine integers.
pub open spec fn tol_wf(t: Frac) -> bool {
    0 <= t.num <= 1_000_000 && 0 < t.den <= 1_000_000
}

/// Exact admissibility test for a tolerance.
pub fn tol_wf_exec(t: &Frac) -> (r: bool)
    ensures
        r == tol_wf(*t),
{
    0 <= t.num && t.num <= 1_000_000 && 0 < t.den && t.den <= 1_000_000
}

/// Cross product of the chord `a -> b` with `a -> p`: twice the area of the
/// triangle `(a, b, p)`.
pub open spec fn chord_cross(a: Point2, b: Point2, p: Point2) -> int {
    (b.x - a.x) * (p.y - a.y) - (b.y - a.y) * (p.x - a.x)
}

/// Whether vertex `i` lies strictly farther from the chord `(lo, hi)` than
/// vertex `j`. With a shared chord the comparison reduces to the squared
/// cross products; for a degenerate chord, to squared distances from `lo`.
pub open spec fn dist_gt(s: Seq<Point2>, lo: int, hi: int, i: int, j: int) -> bool {
    if s[lo] == s[hi] {
        seg_d2(s[i], s[lo]) > seg_d2(s[j], s[lo])
    } else {
        let ci = chord_cross(s[lo], s[hi], s[i]);
        let cj = chord_cross(s[lo], s[hi], s[j]);
        ci * ci > cj * cj
    }
}

/// The first index in `(lo, m]` at maximal distance from the chord.
pub open spec fn farthest_upto(s: Seq<Point2>, lo: int, hi: int, m: int) -> int
    decreases m - lo,
{
    if m <= lo + 1 {
        lo + 1
    } else {
        let b = farthest_upto(s, lo, hi, m - 1);
        if dist_gt(s, lo, hi, m, b) {
            m
        } else {
            b
        }
    }
}

/// The first index strictly between `lo` and `hi` farthest from the chord.
pub open spec fn farthest_index(s: Seq<Point2>, lo: int, hi: int) -> int {
    farthest_upto(s, lo, hi, hi - 1)
}

/// Whether vertex `k`'s distance from the chord `(lo, hi)` strictly exceeds
/// the tolerance, compared exactly on squares.
pub open spec fn exceeds_tol(s: Seq<Point2>, lo: int, hi: int, k: int, t: Frac) -> bool {
    if s[lo] == s[hi] {
        seg_d2(s[k], s[lo]) * (t.den * t.den) > t.num * t.num
    } else {
        let c = chord_cross(s[lo], s[hi], s[k]);
        c * c * (t.den * t.den) > (t.num * t.num) * seg_d2(s[lo], s[hi])
    }
}

/// The vertices the simplification keeps after `s[lo]`, up to and including
/// `s[hi]`.
pub open spec fn rdp_kept(s: Seq<Point2>, lo: int, hi: int, t: Frac) -> Seq<Point2>
    decreases hi - lo,
{
    if hi - lo <= 1 {
        seq![s[hi]]
    } else {
        let k = farthest_index(s, lo, hi);
        if lo < k < hi && exceeds_tol(s, lo, hi, k, t) {
            rdp_kept(s, lo, k, t) + rdp_kept(s, k, hi, t)
        } else {
            seq![s[hi]]
        }
    }
}

/// Bound on a product from separate bounds on its factors.
proof fn lemma_prod_bound(a: int, b: int, ma: int, mb: int)
    requires
        -ma <= a <= ma,
        -mb <= b <= mb,
        ma >= 0,
        mb >= 0,
    ensures
        -(ma * mb) <= a * b <= ma * mb,
{
    assert(-(ma * mb) <= a * b <= ma * mb) by (nonlinear_arith)
        requires
            -ma <= a <= ma,
            -mb <= b <= mb,
            ma >= 0,
            mb >= 0,
    ;
}

/// The chord cross product, exactly.
fn chord_cross_exec(a: &Point2, b: &Point2, p: &Point2) -> (r: i64)
    requires
        pt_wf(*a),
        pt_wf(*b),
        pt_wf(*p),
    ensures
        r == chord_cross(*a, *b, *p),
        -8_000_000_000_000 <= r <= 8_000_000_000_000,
{
    proof {
        lemma_prod_bound(b.x - a.x, p.y - a.y, 2_000_000, 2_000_000);
        lemma_prod_bound(b.y - a.y, p.x - a.x, 2_000_000, 2_000_000);
    }
    (b.x - a.x) * (p.y - a.y) - (b.y - a.y) * (p.x - a.x)
}

/// Exact distance comparison of two candidate vertices against a chord.
fn dist_gt_exec(points: &Vec<Point2>, lo: usize, hi: usize, i: usize, j: usize) -> (r: bool)
    requires
        pts_wf(points@),
        lo < points@.len(),
        hi < points@.len(),
        i < points@.len(),
        j < points@.len(),
    ensures
        r == dist_gt(points@, lo as int, hi as int, i as int, j as int),
{
    let a = points[lo];
    let b = points[hi];
    if a == b {
        let di = seg_d2_exec(&points[i], &a);
        let dj = seg_d2_exec(&points[j], &a);
        di > dj
    } else {
        let ci = chord_cross_exec(&a, &b, &points[i]);
        let cj = chord_cross_exec(&a, &b, &points[j]);
        proof {
            lemma_prod_bound(ci as int, ci as int, 8_000_000_000_000, 8_000_000_000_000);
            lemma_prod_bound(cj as int, cj as int, 8_000_000_000_000, 8_000_000_000_000);
        }
        (ci as i128) * (ci as i128) > (cj as i128) * (cj as i128)
    }
}

/// Exact tolerance test for the farthest vertex.
fn exceeds_tol_exec(points: &Vec<Point2>, lo: usize, hi: usize, k: usize, t: &Frac) -> (r: bool)
    requires
        pts_wf(points@),
        tol_wf(*t),
        lo < points@.len(),
        hi < points@.len(),
        k < points@.len(),
    ensures
        r == exceeds_tol(points@, lo as int, hi as int, k as int, *t),
{
    let a = points[lo];
    let b = points[hi];
    proof {
        lemma_prod_bound(t.den as int, t.den as int, 1_000_000, 1_000_000);
        lemma_prod_bound(t.num as int, t.num as int, 1_000_000, 1_000_000);
    }
    let den2 = t.den * t.den;
    let num2 = t.num * t.num;
    if a == b {
        let d = seg_d2_exec(&points[k], &a);
        proof {
            lemma_prod_bound(d as int, den2 as int, 8_000_000_000_000, 1_000_000_000_000);
        }
        (d as i128) * den2 > num2
    } else {
        let c = chord_cross_exec(&a, &b, &points[k]);
        let d2 = seg_d2_exec(&a, &b);
        proof {
            lemma_prod_bound(c as int, c as int, 8_000_000_000_000, 8_000_000_000_000);
        }
        let c2 = (c as i128) * (c as i128);
        proof {
            lemma_prod_bound(
                c2 as int,
                den2 as int,
                64_000_000_000_000_000_000_000_000,
                1_000_000_000_000,
            );
            lemma_prod_bound(num2 as int, d2 as int, 1_000_000_000_000, 8_000_000_000_000);
        }
        c2 * den2 > num2 * (d2 as i128)
    }
}

/// Simplify the open segment `(lo, hi)`, appending every kept vertex after
/// `s[lo]` (including `s[hi]`) to `out`.
fn rdp_rec(points: &Vec<Point2>, lo: usize, hi: usize, t: &Frac, out: &mut Vec<Point2>)
    requires
        pts_wf(points@),
        tol_wf(*t),
        lo < hi < points@.len(),
    ensures
        final(out)@ == old(out)@ + rdp_kept(points@, lo as int, hi as int, *t),
    decreases hi - lo,
{
    if hi - lo <= 1 {
        out.push(points[hi]);
        proof {
            assert(out@ =~= old(out)@ + rdp_kept(points@, lo as int, hi as int, *t));
        }
        return ;
    }
    let mut best: usize = lo + 1;
    let mut m: usize = lo + 1;
    while m < hi - 1
        invariant
            pts_wf(points@),
            lo < hi < points@.len(),
            hi - lo >= 2,
            lo + 1 <= m <= hi - 1,
            lo + 1 <= best <= m,
            best as int == farthest_upto(points@, lo as int, hi as int, m as int),
        decreases hi - 1 - m,
    {
        let c = m + 1;
        if dist_gt_exec(points, lo, hi, c, best) {
            best = c;
        }
        m = c;
    }
    proof {
        assert(best as int == farthest_index(points@, lo as int, hi as int));
    }
    if exceeds_tol_exec(points, lo, hi, best, t) {
        rdp_rec(points, lo, best, t, out);
        rdp_rec(points, best, hi, t, out);
        proof {
            assert(out@ =~= old(out)@ + rdp_kept(points@, lo as int, hi as int, *t));
        }
    } else {
        out.push(points[hi]);
        proof {
            assert(out@ =~= old(out)@ + rdp_kept(points@, lo as int, hi as int, *t));
        }
    }
}

/// Simplify a polyline by Ramer–Douglas–Peucker with the given tolerance.
/// Polylines with fewer than three vertices are returned unchanged; longer
/// ones keep their first vertex and exactly the vertices the recursion
/// retains.
pub fn simplify_polyline(points: &Vec<Point2>, tolerance: Frac) -> (r: Vec<Point2>)
    requires
        pts_wf(points@),
        tol_wf(tolerance),
    ensures
        points@.len() <= 2 ==> r@ == points@,
        points@.len() > 2 ==> r@ == seq![points@[0]] + rdp_kept(
            points@,
            0,
            points@.len() - 1,
            tolerance,
        ),
{
    let n = points.len();
    if n <= 2 {
        let mut r: Vec<Point2> = Vec::new();
        let mut i: usize = 0;
        while i < n
            invariant
                0 <= i <= n,
                n == points@.len(),
                r@ == points@.subrange(0, i as int),
            decreases n - i,
        {
            r.push(points[i]);
            proof {
                assert(r@ =~= points@.subrange(0, i as int + 1));
            }
            i = i + 1;
        }
        proof {
            assert(points@.subrange(0, n as int) =~= points@);
        }
        return r;
    }
    let mut out: Vec<Point2> = Vec::new();
    out.push(points[0]);
    rdp_rec(points, 0, n - 1, &tolerance, &mut out);
    proof {
        assert(out@ =~= seq![points@[0]] + rdp_kept(points@, 0, points@.len() - 1, tolerance));
    }
    out
}

/// The simplification of a segment keeps at least its last vertex and at most
/// one vertex per original position, and always ends at the segment's end.
pub proof fn lemma_rdp_kept_bounds(s: Seq<Point2>, lo: int, hi: int, t: Frac)
    requires
        0 <= lo < hi < s.len(),
    ensures
        1 <= rdp_kept(s, lo, hi, t).len() <= hi - lo,
        rdp_kept(s, lo, hi, t).last() == s[hi],
    decreases hi - lo,
{
    if hi - lo <= 1 {
    } else {
        let k = farthest_index(s, lo, hi);
        if lo < k < hi && exceeds_tol(s, lo, hi, k, t) {
            lemma_rdp_kept_bounds(s, lo, k, t);
            lemma_rdp_kept_bounds(s, k, hi, t);
        }
    }
}

/// Simplification never grows a polyline and preserves both endpoints.
pub proof fn lemma_simplify_monotone(s: Seq<Point2>, t: Frac)
    requires
        s.len() > 2,
    ensures
        ({
            let r = seq![s[0]] + rdp_kept(s, 0, s.len() - 1, t);
            1 <= r.len() <= s.len() && r[0] == s[0] && r.last() == s.last()
        }),
{
    lemma_rdp_kept_bounds(s, 0, s.len() - 1, t);
}

} // verus!
