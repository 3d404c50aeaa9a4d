//! Contours and the surfaces reconstructed from them.
//!
//! A contour is a set of polylines, each at a constant elevation, plus
//! isolated points of interest. Binding a scale turns it into a surface mesh:
//! one vertex per source vertex, with the elevation converted into the
//! scale's unit and multiplied by the pixel ratio, so that z lives in pixel
//! space. The surface is queried by exact inverse-distance-weighted
//! interpolation over the vertices, with the squared planar distance (at
//! least one) as the weight's denominator; a query that matches a vertex
//! exactly returns that vertex's z.

use vstd::prelude::*;

use crate::error::TakeoffError;
use crate::frac::{add_spec, div_spec, frac_wf, fits_i128, mul_spec, Frac};
use crate::geometry::{
    bbox_wf, pt_wf, pts_wf, seg_d2, seg_d2_exec, spec_bbox, bbox_of_points, BBox, Point2,
};
use crate::unit::{length_factor, Unit};
use vstd::string::StringExecFns;

verus! {

/// A polyline at a constant elevation.
#[derive(Debug)]
pub struct ContourLineInput {
    pub elevation: Frac,
    pub unit: Unit,
    pub points: Vec<Point2>,
}

/// An isolated elevation sample.
#[derive(Debug, Clone, Copy, PartialEq, Eq, Structural)]
pub struct ContourPointOfInterestInput {
    pub elevation: Frac,
    pub unit: Unit,
    pub point: Point2,
}

/// A contour: lines and points of interest on one page.
#[derive(Debug)]
pub struct ContourInput {
    pub id: String,
    pub name: Option<String>,
    pub page_id: String,
    pub lines: Vec<ContourLineInput>,
    pub points_of_interest: Vec<ContourPointOfInterestInput>,
}

/// A three-dimensional vertex: planar pixel coordinates with an exact
/// fractional elevation.
#[derive(Debug, Clone, Copy, PartialEq, Eq, Structural)]
pub struct Point3 {
    pub x: i64,
    pub y: i64,
    pub z: Frac,
}

/// One elevation sample: where it sits, its raw elevation and that
/// elevation's unit.
pub open spec fn line_samples(line: &ContourLineInput) -> Seq<(Point2, Frac, Unit)> {
    line.points@.map_values(|p: Point2| (p, line.elevation, line.unit))
}

/// The samples of the first `n` lines, flattened in order.
pub open spec fn flat_samples(lines: Seq<ContourLineInput>, n: int) -> Seq<(Point2, Frac, Unit)>
    decreases n,
{
    if n <= 0 {
        Seq::empty()
    } else {
        flat_samples(lines, n - 1) + line_samples(&lines[n - 1])
    }
}

/// Every sample of the contour, line vertices first (in line order), then
/// points of interest (in input order).
pub open spec fn contour_samples(c: &ContourInput) -> Seq<(Point2, Frac, Unit)> {
    flat_samples(c.lines@, c.lines@.len() as int) + c.points_of_interest@.map_values(
        |poi: ContourPointOfInterestInput| (poi.point, poi.elevation, poi.unit),
    )
}

/// The planar positions of all contour samples.
pub open spec fn contour_pts(c: &ContourInput) -> Seq<Point2> {
    contour_samples(c).map_values(|t: (Point2, Frac, Unit)| t.0)
}

/// Well-formedness: every coordinate in range, every elevation a well-formed
/// fraction.
pub open spec fn contour_wf(c: &ContourInput) -> bool {
    &&& forall|j: int| 0 <= j < c.lines@.len() ==> pts_wf((#[trigger] c.lines@[j]).points@)
        && frac_wf(c.lines@[j].elevation)
    &&& forall|j: int| 0 <= j < c.points_of_interest@.len() ==> pt_wf(
        (#[trigger] c.points_of_interest@[j]).point,
    ) && frac_wf(c.points_of_interest@[j].elevation)
}

/// Every sample of the first `n` lines is well-formed when the lines are.
proof fn lemma_flat_samples_wf(lines: Seq<ContourLineInput>, n: int)
    requires
        forall|j: int| 0 <= j < lines.len() ==> pts_wf((#[trigger] lines[j]).points@) && frac_wf(
            lines[j].elevation,
        ),
        n <= lines.len(),
    ensures
        forall|k: int| 0 <= k < flat_samples(lines, n).len() ==> pt_wf(
            (#[trigger] flat_samples(lines, n)[k]).0,
        ) && frac_wf(flat_samples(lines, n)[k].1),
    decreases n,
{
    if n > 0 {
        lemma_flat_samples_wf(lines, n - 1);
        assert(forall|k: int| 0 <= k < line_samples(&lines[n - 1]).len() ==> pt_wf(
            (#[trigger] line_samples(&lines[n - 1])[k]).0,
        ) && frac_wf(line_samples(&lines[n - 1])[k].1)) by {
            assert(forall|k: int| 0 <= k < lines[n - 1].points@.len() ==> pt_wf(
                #[trigger] lines[n - 1].points@[k],
            ));
        }
        let pre = flat_samples(lines, n - 1);
        let ls = line_samples(&lines[n - 1]);
        assert forall|k: int| 0 <= k < flat_samples(lines, n).len() implies pt_wf(
            (#[trigger] flat_samples(lines, n)[k]).0,
        ) && frac_wf(flat_samples(lines, n)[k].1) by {
            if k < pre.len() {
                assert(flat_samples(lines, n)[k] == pre[k]);
            } else {
                assert(flat_samples(lines, n)[k] == ls[k - pre.len()]);
            }
        }
    }
}

/// Every sample of a well-formed contour is well-formed.
pub proof fn lemma_contour_samples_wf(c: &ContourInput)
    requires
        contour_wf(c),
    ensures
        forall|k: int| 0 <= k < contour_samples(c).len() ==> pt_wf(
            (#[trigger] contour_samples(c)[k]).0,
        ) && frac_wf(contour_samples(c)[k].1),
        pts_wf(contour_pts(c)),
{
    lemma_flat_samples_wf(c.lines@, c.lines@.len() as int);
}

/// A surface: the contour's identity and the emitted vertices, z in pixel
/// space.
#[derive(Debug)]
pub struct SurfaceMesh {
    pub id: String,
    pub name: Option<String>,
    pub vertices: Vec<Point3>,
}

/// Planar positions of a vertex sequence.
pub open spec fn mesh_pts(verts: Seq<Point3>) -> Seq<Point2> {
    verts.map_values(|v: Point3| Point2 { x: v.x, y: v.y })
}

/// Well-formedness of a surface mesh.
pub open spec fn mesh_wf(m: &SurfaceMesh) -> bool {
    pts_wf(mesh_pts(m.vertices@)) && forall|i: int| 0 <= i < m.vertices@.len() ==> frac_wf(
        (#[trigger] m.vertices@[i]).z,
    )
}

/// `z` is exactly the elevation `e` (given in `from`) converted into `to` and
/// scaled by `ratio`, by cross-multiplication.
pub open spec fn z_rel(z: Frac, e: Frac, from: Unit, to: Unit, ratio: Frac) -> bool {
    z.num * ((e.den * length_factor(to)) * ratio.den) == ((e.num * length_factor(from))
        * ratio.num) * z.den
}

/// Whether the pixel-space elevation can be formed in machine arithmetic.
pub open spec fn z_fits(e: Frac, from: Unit, to: Unit, ratio: Frac) -> bool {
    &&& fits_i128(e.num * length_factor(from))
    &&& fits_i128((e.num * length_factor(from)) * ratio.num)
    &&& fits_i128(e.den * length_factor(to))
    &&& fits_i128((e.den * length_factor(to)) * ratio.den)
}

/// The pixel-space elevation: `e` converted from `from` into `to`, times
/// `ratio`, exactly. `None` exactly when it leaves the machine range.
fn z_pixel(e: Frac, from: Unit, to: Unit, ratio: Frac) -> (r: Option<Frac>)
    requires
        frac_wf(e),
        frac_wf(ratio),
    ensures
        r is Some <==> z_fits(e, from, to, ratio),
        r is Some ==> frac_wf(r->0) && z_rel(r->0, e, from, to, ratio),
{
    let f1 = from.base_factor();
    let f2 = to.base_factor();
    let n1 = match e.num.checked_mul(f1 as i128) {
        Some(v) => v,
        None => {
            return None;
        },
    };
    let n = match n1.checked_mul(ratio.num) {
        Some(v) => v,
        None => {
            return None;
        },
    };
    let d1 = match e.den.checked_mul(f2 as i128) {
        Some(v) => v,
        None => {
            return None;
        },
    };
    let d = match d1.checked_mul(ratio.den) {
        Some(v) => v,
        None => {
            return None;
        },
    };
    proof {
        assert(d1 > 0) by (nonlinear_arith)
            requires
                d1 == e.den * length_factor(to),
                e.den > 0,
                length_factor(to) > 0,
        ;
        assert(d > 0) by (nonlinear_arith)
            requires
                d == d1 * ratio.den,
                d1 > 0,
                ratio.den > 0,
        ;
    }
    Some(crate::frac::reduce(n, d))
}

/// A derived snapshot of a contour: one three-dimensional point per sample,
/// carrying the raw (unconverted) elevation, under the contour's identity.
#[derive(Debug)]
pub struct ContourMesh {
    pub id: String,
    pub name: Option<String>,
    pub points: Vec<Point3>,
}

/// The raw snapshot of a contour: one point per sample, in sample order
/// (line vertices first, then points of interest), each carrying its planar
/// position and its raw elevation — no unit conversion and no scaling, which
/// `to_surface_mesh` performs for a bound scale. The contour's id and name
/// carry over.
pub fn contour_mesh_from(input: &ContourInput) -> (r: ContourMesh)
    requires
        contour_wf(input),
    ensures
        r.id@ == input.id@,
        r.name is Some <==> input.name is Some,
        input.name is Some ==> r.name->0@ == input.name->0@,
        r.points@.len() == contour_samples(input).len(),
        forall|k: int| 0 <= k < contour_samples(input).len() ==> (#[trigger] r.points@[k]).x
            == contour_samples(input)[k].0.x && r.points@[k].y == contour_samples(input)[k].0.y
            && r.points@[k].z == contour_samples(input)[k].1,
{
    let mut verts: Vec<Point3> = Vec::new();
    let mut j: usize = 0;
    while j < input.lines.len()
        invariant
            0 <= j <= input.lines@.len(),
            verts@.len() == flat_samples(input.lines@, j as int).len(),
            forall|k: int| 0 <= k < verts@.len() ==> {
                let samples = flat_samples(input.lines@, j as int);
                (#[trigger] verts@[k]).x == samples[k].0.x && verts@[k].y == samples[k].0.y
                    && verts@[k].z == samples[k].1
            },
        decreases input.lines@.len() - j,
    {
        let line = &input.lines[j];
        let mut k: usize = 0;
        while k < line.points.len()
            invariant
                0 <= k <= line.points@.len(),
                0 <= j < input.lines@.len(),
                line == &input.lines@[j as int],
                verts@.len() == flat_samples(input.lines@, j as int).len() + k,
                forall|i: int| 0 <= i < verts@.len() ==> {
                    let samples = flat_samples(input.lines@, j as int) + line_samples(line).take(
                        k as int,
                    );
                    (#[trigger] verts@[i]).x == samples[i].0.x && verts@[i].y == samples[i].0.y
                        && verts@[i].z == samples[i].1
                },
            decreases line.points@.len() - k,
        {
            let p = line.points[k];
            verts.push(Point3 { x: p.x, y: p.y, z: line.elevation });
            proof {
                assert(line_samples(line).take(k as int + 1) =~= line_samples(line).take(
                    k as int,
                ).push((line.points@[k as int], line.elevation, line.unit)));
            }
            k = k + 1;
        }
        proof {
            assert(line_samples(line).take(line.points@.len() as int) =~= line_samples(line));
            assert(flat_samples(input.lines@, j as int + 1) == flat_samples(
                input.lines@,
                j as int,
            ) + line_samples(&input.lines@[j as int]));
        }
        j = j + 1;
    }
    let ghost line_part = flat_samples(input.lines@, input.lines@.len() as int);
    let mut k: usize = 0;
    while k < input.points_of_interest.len()
        invariant
            0 <= k <= input.points_of_interest@.len(),
            line_part == flat_samples(input.lines@, input.lines@.len() as int),
            verts@.len() == line_part.len() + k,
            forall|i: int| 0 <= i < verts@.len() ==> {
                let samples = line_part + input.points_of_interest@.take(k as int).map_values(
                    |poi: ContourPointOfInterestInput| (poi.point, poi.elevation, poi.unit),
                );
                (#[trigger] verts@[i]).x == samples[i].0.x && verts@[i].y == samples[i].0.y
                    && verts@[i].z == samples[i].1
            },
        decreases input.points_of_interest@.len() - k,
    {
        let poi = &input.points_of_interest[k];
        verts.push(Point3 { x: poi.point.x, y: poi.point.y, z: poi.elevation });
        proof {
            let f = |poi: ContourPointOfInterestInput| (poi.point, poi.elevation, poi.unit);
            assert(input.points_of_interest@.take(k as int + 1) =~= input.points_of_interest@
                .take(k as int).push(input.points_of_interest@[k as int]));
            assert(input.points_of_interest@.take(k as int + 1).map_values(f)
                =~= input.points_of_interest@.take(k as int).map_values(f).push(
                f(input.points_of_interest@[k as int]),
            ));
        }
        k = k + 1;
    }
    proof {
        assert(input.points_of_interest@.take(input.points_of_interest@.len() as int)
            =~= input.points_of_interest@);
    }
    ContourMesh { id: input.id.clone(), name: clone_name(&input.name), points: verts }
}

/// An equal copy of an optional name.
fn clone_name(name: &Option<String>) -> (r: Option<String>)
    ensures
        r is Some <==> name is Some,
        name is Some ==> r->0@ == name->0@,
{
    match name {
        Some(n) => Some(n.clone()),
        None => None,
    }
}

impl ContourInput {
    /// Whether every coordinate lies in range and every elevation is a
    /// well-formed fraction, for hosts validating input at the boundary.
    pub fn check_wf(&self) -> (r: bool)
        ensures
            r == contour_wf(self),
    {
        let mut j: usize = 0;
        while j < self.lines.len()
            invariant
                0 <= j <= self.lines@.len(),
                forall|i: int| 0 <= i < j ==> pts_wf((#[trigger] self.lines@[i]).points@)
                    && frac_wf(self.lines@[i].elevation),
            decreases self.lines@.len() - j,
        {
            let line = &self.lines[j];
            if !(crate::geometry::pts_wf_exec(&line.points) && line.elevation.den > 0) {
                return false;
            }
            j = j + 1;
        }
        let mut k: usize = 0;
        while k < self.points_of_interest.len()
            invariant
                0 <= k <= self.points_of_interest@.len(),
                forall|i: int| 0 <= i < self.lines@.len() ==> pts_wf(
                    (#[trigger] self.lines@[i]).points@,
                ) && frac_wf(self.lines@[i].elevation),
                forall|i: int| 0 <= i < k ==> pt_wf((#[trigger] self.points_of_interest@[i]).point)
                    && frac_wf(self.points_of_interest@[i].elevation),
            decreases self.points_of_interest@.len() - k,
        {
            let poi = &self.points_of_interest[k];
            if !(crate::geometry::pt_wf_exec(&poi.point) && poi.elevation.den > 0) {
                return false;
            }
            k = k + 1;
        }
        true
    }

    /// The axis-aligned hull of every contour point (line vertices and points
    /// of interest); `None` exactly when the contour has no points.
    pub fn bounding_box(&self) -> (r: Option<BBox>)
        requires
            contour_wf(self),
        ensures
            r is Some <==> contour_pts(self).len() > 0,
            r is Some ==> r->0 == spec_bbox(contour_pts(self)) && bbox_wf(r->0),
    {
        let flat = self.collect_points();
        bbox_of_points(&flat)
    }

    /// Every contour point, flattened in sample order.
    pub fn collect_points(&self) -> (r: Vec<Point2>)
        ensures
            r@ == contour_pts(self),
    {
        let mut out: Vec<Point2> = Vec::new();
        let mut j: usize = 0;
        while j < self.lines.len()
            invariant
                0 <= j <= self.lines@.len(),
                out@ == flat_samples(self.lines@, j as int).map_values(
                    |t: (Point2, Frac, Unit)| t.0,
                ),
            decreases self.lines@.len() - j,
        {
            let line = &self.lines[j];
            let mut k: usize = 0;
            while k < line.points.len()
                invariant
                    0 <= k <= line.points@.len(),
                    0 <= j < self.lines@.len(),
                    line == &self.lines@[j as int],
                    out@ == (flat_samples(self.lines@, j as int) + line_samples(line).take(
                        k as int,
                    )).map_values(|t: (Point2, Frac, Unit)| t.0),
                decreases line.points@.len() - k,
            {
                out.push(line.points[k]);
                proof {
                    assert(line_samples(line).take(k as int + 1) =~= line_samples(line).take(
                        k as int,
                    ).push((line.points@[k as int], line.elevation, line.unit)));
                    assert(out@ =~= (flat_samples(self.lines@, j as int) + line_samples(
                        line,
                    ).take(k as int + 1)).map_values(|t: (Point2, Frac, Unit)| t.0));
                }
                k = k + 1;
            }
            proof {
                assert(line_samples(line).take(line.points@.len() as int) =~= line_samples(line));
                assert(flat_samples(self.lines@, j as int + 1) == flat_samples(
                    self.lines@,
                    j as int,
                ) + line_samples(&self.lines@[j as int]));
            }
            j = j + 1;
        }
        let mut k: usize = 0;
        while k < self.points_of_interest.len()
            invariant
                0 <= k <= self.points_of_interest@.len(),
                out@ == (flat_samples(self.lines@, self.lines@.len() as int)
                    + self.points_of_interest@.take(k as int).map_values(
                    |poi: ContourPointOfInterestInput| (poi.point, poi.elevation, poi.unit),
                )).map_values(|t: (Point2, Frac, Unit)| t.0),
            decreases self.points_of_interest@.len() - k,
        {
            out.push(self.points_of_interest[k].point);
            proof {
                let f = |poi: ContourPointOfInterestInput| (poi.point, poi.elevation, poi.unit);
                assert(self.points_of_interest@.take(k as int + 1) =~= self.points_of_interest@
                    .take(k as int).push(self.points_of_interest@[k as int]));
                assert(self.points_of_interest@.take(k as int + 1).map_values(f)
                    =~= self.points_of_interest@.take(k as int).map_values(f).push(
                    f(self.points_of_interest@[k as int]),
                ));
                assert(out@ =~= (flat_samples(self.lines@, self.lines@.len() as int)
                    + self.points_of_interest@.take(k as int + 1).map_values(f)).map_values(
                    |t: (Point2, Frac, Unit)| t.0,
                ));
            }
            k = k + 1;
        }
        proof {
            assert(self.points_of_interest@.take(self.points_of_interest@.len() as int)
                =~= self.points_of_interest@);
            assert(out@ =~= contour_pts(self));
        }
        out
    }

    /// Build the surface mesh for a bound scale with pixel ratio `ratio` and
    /// unit `unit`: one vertex per sample, in sample order, with z the
    /// converted and scaled elevation. Fails with `OutOfRange` exactly when
    /// some elevation cannot be scaled in machine arithmetic.
    pub fn to_surface_mesh(&self, ratio: Frac, unit: Unit) -> (r: Result<
        SurfaceMesh,
        TakeoffError,
    >)
        requires
            contour_wf(self),
            frac_wf(ratio),
        ensures
            r is Ok <==> (forall|j: int|
                0 <= j < self.lines@.len() ==> z_fits(
                    (#[trigger] self.lines@[j]).elevation,
                    self.lines@[j].unit,
                    unit,
                    ratio,
                )) && (forall|j: int|
                0 <= j < self.points_of_interest@.len() ==> z_fits(
                    (#[trigger] self.points_of_interest@[j]).elevation,
                    self.points_of_interest@[j].unit,
                    unit,
                    ratio,
                )),
            r is Ok ==> ({
                let verts = r->Ok_0.vertices@;
                let samples = contour_samples(self);
                &&& verts.len() == samples.len()
                &&& forall|k: int| 0 <= k < samples.len() ==> (#[trigger] verts[k]).x
                    == samples[k].0.x && verts[k].y == samples[k].0.y && frac_wf(verts[k].z)
                    && z_rel(verts[k].z, samples[k].1, samples[k].2, unit, ratio)
            }),
            r is Ok ==> mesh_wf(&r->Ok_0),
            r is Ok ==> r->Ok_0.id@ == self.id@ && (r->Ok_0.name is Some <==> self.name is Some)
                && (self.name is Some ==> r->Ok_0.name->0@ == self.name->0@),
            r is Err ==> r->Err_0 is OutOfRange,
    {
        let mut verts: Vec<Point3> = Vec::new();
        let mut j: usize = 0;
        while j < self.lines.len()
            invariant
                0 <= j <= self.lines@.len(),
                contour_wf(self),
                frac_wf(ratio),
                verts@.len() == flat_samples(self.lines@, j as int).len(),
                forall|k: int| 0 <= k < verts@.len() ==> {
                    let samples = flat_samples(self.lines@, j as int);
                    (#[trigger] verts@[k]).x == samples[k].0.x && verts@[k].y == samples[k].0.y
                        && frac_wf(verts@[k].z) && z_rel(
                        verts@[k].z,
                        samples[k].1,
                        samples[k].2,
                        unit,
                        ratio,
                    )
                },
                forall|i: int| 0 <= i < j ==> z_fits(
                    (#[trigger] self.lines@[i]).elevation,
                    self.lines@[i].unit,
                    unit,
                    ratio,
                ),
            decreases self.lines@.len() - j,
        {
            let line = &self.lines[j];
            proof {
                if line.points@.len() > 0 {
                    assert(contour_samples(self).len() >= 0);
                }
            }
            let z = match z_pixel(line.elevation, line.unit, unit, ratio) {
                Some(z) => z,
                None => {
                    return Err(
                        TakeoffError::OutOfRange { what: String::from_str("surface elevation") },
                    );
                },
            };
            let mut k: usize = 0;
            while k < line.points.len()
                invariant
                    0 <= k <= line.points@.len(),
                    0 <= j < self.lines@.len(),
                    line == &self.lines@[j as int],
                    contour_wf(self),
                    frac_wf(ratio),
                    frac_wf(z),
                    z_rel(z, line.elevation, line.unit, unit, ratio),
                    verts@.len() == flat_samples(self.lines@, j as int).len() + k,
                    forall|i: int| 0 <= i < verts@.len() ==> {
                        let samples = flat_samples(self.lines@, j as int) + line_samples(
                            line,
                        ).take(k as int);
                        (#[trigger] verts@[i]).x == samples[i].0.x && verts@[i].y
                            == samples[i].0.y && frac_wf(verts@[i].z) && z_rel(
                            verts@[i].z,
                            samples[i].1,
                            samples[i].2,
                            unit,
                            ratio,
                        )
                    },
                    forall|i: int| 0 <= i < j ==> z_fits(
                        (#[trigger] self.lines@[i]).elevation,
                        self.lines@[i].unit,
                        unit,
                        ratio,
                    ),
                decreases line.points@.len() - k,
            {
                let p = line.points[k];
                verts.push(Point3 { x: p.x, y: p.y, z });
                proof {
                    assert(line_samples(line).take(k as int + 1) =~= line_samples(line).take(
                        k as int,
                    ).push((line.points@[k as int], line.elevation, line.unit)));
                }
                k = k + 1;
            }
            proof {
                assert(line_samples(line).take(line.points@.len() as int) =~= line_samples(line));
                assert(flat_samples(self.lines@, j as int + 1) == flat_samples(
                    self.lines@,
                    j as int,
                ) + line_samples(&self.lines@[j as int]));
            }
            j = j + 1;
        }
        let ghost line_part = flat_samples(self.lines@, self.lines@.len() as int);
        let mut k: usize = 0;
        while k < self.points_of_interest.len()
            invariant
                0 <= k <= self.points_of_interest@.len(),
                contour_wf(self),
                frac_wf(ratio),
                line_part == flat_samples(self.lines@, self.lines@.len() as int),
                verts@.len() == line_part.len() + k,
                forall|i: int| 0 <= i < verts@.len() ==> {
                    let samples = line_part + self.points_of_interest@.take(k as int).map_values(
                        |poi: ContourPointOfInterestInput| (poi.point, poi.elevation, poi.unit),
                    );
                    (#[trigger] verts@[i]).x == samples[i].0.x && verts@[i].y == samples[i].0.y
                        && frac_wf(verts@[i].z) && z_rel(
                        verts@[i].z,
                        samples[i].1,
                        samples[i].2,
                        unit,
                        ratio,
                    )
                },
                forall|i: int| 0 <= i < self.lines@.len() ==> z_fits(
                    (#[trigger] self.lines@[i]).elevation,
                    self.lines@[i].unit,
                    unit,
                    ratio,
                ),
                forall|i: int| 0 <= i < k ==> z_fits(
                    (#[trigger] self.points_of_interest@[i]).elevation,
                    self.points_of_interest@[i].unit,
                    unit,
                    ratio,
                ),
            decreases self.points_of_interest@.len() - k,
        {
            let poi = &self.points_of_interest[k];
            let z = match z_pixel(poi.elevation, poi.unit, unit, ratio) {
                Some(z) => z,
                None => {
                    return Err(
                        TakeoffError::OutOfRange { what: String::from_str("surface elevation") },
                    );
                },
            };
            verts.push(Point3 { x: poi.point.x, y: poi.point.y, z });
            proof {
                let f = |poi: ContourPointOfInterestInput| (poi.point, poi.elevation, poi.unit);
                assert(self.points_of_interest@.take(k as int + 1) =~= self.points_of_interest@
                    .take(k as int).push(self.points_of_interest@[k as int]));
                assert(self.points_of_interest@.take(k as int + 1).map_values(f)
                    =~= self.points_of_interest@.take(k as int).map_values(f).push(
                    f(self.points_of_interest@[k as int]),
                ));
            }
            k = k + 1;
        }
        proof {
            assert(self.points_of_interest@.take(self.points_of_interest@.len() as int)
                =~= self.points_of_interest@);
            assert(forall|i: int| 0 <= i < contour_samples(self).len() ==> contour_samples(self)[i]
                == (line_part + self.points_of_interest@.map_values(
                |poi: ContourPointOfInterestInput| (poi.point, poi.elevation, poi.unit),
            ))[i]);
        }
        let m = SurfaceMesh { id: self.id.clone(), name: clone_name(&self.name), vertices: verts };
        proof {
            lemma_contour_samples_wf(self);
            assert(mesh_pts(m.vertices@).len() == contour_pts(self).len());
            assert(forall|i: int| 0 <= i < mesh_pts(m.vertices@).len() ==> (#[trigger] mesh_pts(
                m.vertices@,
            )[i]) == contour_pts(self)[i]);
            assert(mesh_pts(m.vertices@) =~= contour_pts(self));
        }
        Ok(m)
    }
}

/// The point `(x, y)` lies in the box, edges inclusive.
pub open spec fn pt_in_bbox(b: BBox, x: int, y: int) -> bool {
    b.min_x <= x <= b.max_x && b.min_y <= y <= b.max_y
}

/// Vertex `i` sits exactly at `(x, y)`.
pub open spec fn match_at(verts: Seq<Point3>, x: int, y: int, i: int) -> bool {
    0 <= i < verts.len() && verts[i].x == x && verts[i].y == y
}

/// The first vertex index at `(x, y)` from position `i` on; the length when
/// there is none.
pub open spec fn first_match_from(verts: Seq<Point3>, x: int, y: int, i: int) -> int
    decreases verts.len() - i,
{
    if i < 0 || i >= verts.len() {
        verts.len() as int
    } else if verts[i].x == x && verts[i].y == y {
        i
    } else {
        first_match_from(verts, x, y, i + 1)
    }
}

/// The interpolation weight denominator for vertex `i` against the query
/// point `p`: the squared planar distance, at least one.
pub open spec fn idw_d(verts: Seq<Point3>, p: Point2, i: int) -> int {
    let d2 = seg_d2(Point2 { x: verts[i].x, y: verts[i].y }, p);
    if d2 < 1 {
        1
    } else {
        d2
    }
}

/// Denominator of the exact weight sum over the first `k` vertices.
pub open spec fn w_den(verts: Seq<Point3>, p: Point2, k: int) -> int
    decreases k,
{
    if k <= 0 {
        1
    } else {
        w_den(verts, p, k - 1) * idw_d(verts, p, k - 1)
    }
}

/// Numerator of the exact weight sum over the first `k` vertices.
pub open spec fn w_num(verts: Seq<Point3>, p: Point2, k: int) -> int
    decreases k,
{
    if k <= 0 {
        0
    } else {
        w_num(verts, p, k - 1) * idw_d(verts, p, k - 1) + w_den(verts, p, k - 1)
    }
}

/// Denominator of the exact weighted elevation sum over the first `k`
/// vertices.
pub open spec fn wz_den(verts: Seq<Point3>, p: Point2, k: int) -> int
    decreases k,
{
    if k <= 0 {
        1
    } else {
        wz_den(verts, p, k - 1) * (verts[k - 1].z.den * idw_d(verts, p, k - 1))
    }
}

/// Numerator of the exact weighted elevation sum over the first `k`
/// vertices.
pub open spec fn wz_num(verts: Seq<Point3>, p: Point2, k: int) -> int
    decreases k,
{
    if k <= 0 {
        0
    } else {
        wz_num(verts, p, k - 1) * (verts[k - 1].z.den * idw_d(verts, p, k - 1)) + wz_den(
            verts,
            p,
            k - 1,
        ) * verts[k - 1].z.num
    }
}

/// The exact interpolated elevation at `p`: the weighted sum over the weight
/// sum, by cross-multiplication of the two exact pairs.
pub open spec fn idw_rel(verts: Seq<Point3>, p: Point2, z: Frac) -> bool {
    let n = verts.len() as int;
    z.num * (wz_den(verts, p, n) * w_num(verts, p, n)) == (wz_num(verts, p, n) * w_den(
        verts,
        p,
        n,
    )) * z.den
}

/// `a` denotes a rational no greater than `b` (both well-formed).
pub open spec fn z_le(a: Frac, b: Frac) -> bool {
    a.num * b.den <= b.num * a.den
}

/// An upper bound on every vertex elevation bounds the exact weighted sums:
/// the weighted elevation sum stays at most the bound times the weight sum.
proof fn lemma_idw_upper(verts: Seq<Point3>, p: Point2, bound: Frac, k: int)
    requires
        0 <= k <= verts.len(),
        frac_wf(bound),
        forall|i: int| 0 <= i < verts.len() ==> frac_wf((#[trigger] verts[i]).z),
        forall|i: int| 0 <= i < verts.len() ==> z_le((#[trigger] verts[i]).z, bound),
    ensures
        wz_num(verts, p, k) * (w_den(verts, p, k) * bound.den) <= bound.num * (w_num(verts, p, k)
            * wz_den(verts, p, k)),
    decreases k,
{
    if k <= 0 {
        assert(wz_num(verts, p, 0) * (w_den(verts, p, 0) * bound.den) == 0 && bound.num * (w_num(
            verts,
            p,
            0,
        ) * wz_den(verts, p, 0)) == 0) by (nonlinear_arith)
            requires
                wz_num(verts, p, 0) == 0,
                w_num(verts, p, 0) == 0,
        ;
    } else {
        lemma_idw_upper(verts, p, bound, k - 1);
        lemma_idw_pos(verts, p, k - 1);
        let pn = wz_num(verts, p, k - 1);
        let q = wz_den(verts, p, k - 1);
        let nn = w_num(verts, p, k - 1);
        let dd = w_den(verts, p, k - 1);
        let zn = verts[k - 1].z.num as int;
        let zd = verts[k - 1].z.den as int;
        let di = idw_d(verts, p, k - 1);
        let bn = bound.num as int;
        let bd = bound.den as int;
        assert(di >= 1) by {
            assert(seg_d2(Point2 { x: verts[k - 1].x, y: verts[k - 1].y }, p) < 1 ==> idw_d(
                verts,
                p,
                k - 1,
            ) == 1);
        }
        assert(frac_wf(verts[k - 1].z) && z_le(verts[k - 1].z, bound));
        // Scale the induction bound by the new positive weight factors, scale
        // the per-vertex bound by the accumulated positive factors, and add.
        let f1 = zd * (di * di);
        let f2 = (q * dd) * di;
        assert(f1 >= 0 && f2 >= 0) by (nonlinear_arith)
            requires
                f1 == zd * (di * di),
                f2 == (q * dd) * di,
                q > 0,
                dd > 0,
                zd > 0,
                di >= 1,
        ;
        vstd::arithmetic::mul::lemma_mul_is_distributive_add_other_way(
            (dd * di) * bd,
            pn * (zd * di),
            q * zn,
        );
        assert((pn * (zd * di)) * ((dd * di) * bd) == (pn * (dd * bd)) * f1) by (nonlinear_arith)
            requires
                f1 == zd * (di * di),
        ;
        assert((q * zn) * ((dd * di) * bd) == (zn * bd) * f2) by (nonlinear_arith)
            requires
                f2 == (q * dd) * di,
        ;
        vstd::arithmetic::mul::lemma_mul_is_distributive_add_other_way(
            q * (zd * di),
            nn * di,
            dd,
        );
        vstd::arithmetic::mul::lemma_mul_is_distributive_add(
            bn,
            (nn * di) * (q * (zd * di)),
            dd * (q * (zd * di)),
        );
        assert(bn * ((nn * di) * (q * (zd * di))) == (bn * (nn * q)) * f1) by (nonlinear_arith)
            requires
                f1 == zd * (di * di),
        ;
        assert(bn * (dd * (q * (zd * di))) == (bn * zd) * f2) by (nonlinear_arith)
            requires
                f2 == (q * dd) * di,
        ;
        assert((pn * (dd * bd)) * f1 <= (bn * (nn * q)) * f1) by (nonlinear_arith)
            requires
                pn * (dd * bd) <= bn * (nn * q),
                f1 >= 0,
        ;
        assert((zn * bd) * f2 <= (bn * zd) * f2) by (nonlinear_arith)
            requires
                zn * bd <= bn * zd,
                f2 >= 0,
        ;
    }
}

/// A lower bound on every vertex elevation bounds the exact weighted sums
/// from below.
proof fn lemma_idw_lower(verts: Seq<Point3>, p: Point2, bound: Frac, k: int)
    requires
        0 <= k <= verts.len(),
        frac_wf(bound),
        forall|i: int| 0 <= i < verts.len() ==> frac_wf((#[trigger] verts[i]).z),
        forall|i: int| 0 <= i < verts.len() ==> z_le(bound, (#[trigger] verts[i]).z),
    ensures
        bound.num * (w_num(verts, p, k) * wz_den(verts, p, k)) <= wz_num(verts, p, k) * (w_den(
            verts,
            p,
            k,
        ) * bound.den),
    decreases k,
{
    if k <= 0 {
        assert(wz_num(verts, p, 0) * (w_den(verts, p, 0) * bound.den) == 0 && bound.num * (w_num(
            verts,
            p,
            0,
        ) * wz_den(verts, p, 0)) == 0) by (nonlinear_arith)
            requires
                wz_num(verts, p, 0) == 0,
                w_num(verts, p, 0) == 0,
        ;
    } else {
        lemma_idw_lower(verts, p, bound, k - 1);
        lemma_idw_pos(verts, p, k - 1);
        let pn = wz_num(verts, p, k - 1);
        let q = wz_den(verts, p, k - 1);
        let nn = w_num(verts, p, k - 1);
        let dd = w_den(verts, p, k - 1);
        let zn = verts[k - 1].z.num as int;
        let zd = verts[k - 1].z.den as int;
        let di = idw_d(verts, p, k - 1);
        let bn = bound.num as int;
        let bd = bound.den as int;
        assert(di >= 1) by {
            assert(seg_d2(Point2 { x: verts[k - 1].x, y: verts[k - 1].y }, p) < 1 ==> idw_d(
                verts,
                p,
                k - 1,
            ) == 1);
        }
        assert(frac_wf(verts[k - 1].z) && z_le(bound, verts[k - 1].z));
        let f1 = zd * (di * di);
        let f2 = (q * dd) * di;
        assert(f1 >= 0 && f2 >= 0) by (nonlinear_arith)
            requires
                f1 == zd * (di * di),
                f2 == (q * dd) * di,
                q > 0,
                dd > 0,
                zd > 0,
                di >= 1,
        ;
        vstd::arithmetic::mul::lemma_mul_is_distributive_add_other_way(
            (dd * di) * bd,
            pn * (zd * di),
            q * zn,
        );
        assert((pn * (zd * di)) * ((dd * di) * bd) == (pn * (dd * bd)) * f1) by (nonlinear_arith)
            requires
                f1 == zd * (di * di),
        ;
        assert((q * zn) * ((dd * di) * bd) == (zn * bd) * f2) by (nonlinear_arith)
            requires
                f2 == (q * dd) * di,
        ;
        vstd::arithmetic::mul::lemma_mul_is_distributive_add_other_way(
            q * (zd * di),
            nn * di,
            dd,
        );
        vstd::arithmetic::mul::lemma_mul_is_distributive_add(
            bn,
            (nn * di) * (q * (zd * di)),
            dd * (q * (zd * di)),
        );
        assert(bn * ((nn * di) * (q * (zd * di))) == (bn * (nn * q)) * f1) by (nonlinear_arith)
            requires
                f1 == zd * (di * di),
        ;
        assert(bn * (dd * (q * (zd * di))) == (bn * zd) * f2) by (nonlinear_arith)
            requires
                f2 == (q * dd) * di,
        ;
        assert((bn * (nn * q)) * f1 <= (pn * (dd * bd)) * f1) by (nonlinear_arith)
            requires
                bn * (nn * q) <= pn * (dd * bd),
                f1 >= 0,
        ;
        assert((bn * zd) * f2 <= (zn * bd) * f2) by (nonlinear_arith)
            requires
                bn * zd <= zn * bd,
                f2 >= 0,
        ;
    }
}

/// The index of a vertex with the greatest elevation among the first `k`.
pub open spec fn max_z_upto(verts: Seq<Point3>, k: int) -> int
    decreases k,
{
    if k <= 1 {
        0
    } else {
        let b = max_z_upto(verts, k - 1);
        if z_le(verts[b].z, verts[k - 1].z) {
            k - 1
        } else {
            b
        }
    }
}

/// The index of a vertex with the least elevation among the first `k`.
pub open spec fn min_z_upto(verts: Seq<Point3>, k: int) -> int
    decreases k,
{
    if k <= 1 {
        0
    } else {
        let b = min_z_upto(verts, k - 1);
        if z_le(verts[k - 1].z, verts[b].z) {
            k - 1
        } else {
            b
        }
    }
}

/// Comparison of well-formed fractions is transitive.
proof fn lemma_z_le_trans(a: Frac, b: Frac, c: Frac)
    requires
        frac_wf(a),
        frac_wf(b),
        frac_wf(c),
        z_le(a, b),
        z_le(b, c),
    ensures
        z_le(a, c),
{
    assert(a.num * c.den <= c.num * a.den) by (nonlinear_arith)
        requires
            a.num * b.den <= b.num * a.den,
            b.num * c.den <= c.num * b.den,
            a.den > 0,
            b.den > 0,
            c.den > 0,
    ;
}

/// The extreme-index vertices dominate every vertex among the first `k`.
proof fn lemma_extremes(verts: Seq<Point3>, k: int)
    requires
        1 <= k <= verts.len(),
        forall|i: int| 0 <= i < verts.len() ==> frac_wf((#[trigger] verts[i]).z),
    ensures
        0 <= max_z_upto(verts, k) < k,
        0 <= min_z_upto(verts, k) < k,
        forall|i: int| 0 <= i < k ==> z_le(
            (#[trigger] verts[i]).z,
            verts[max_z_upto(verts, k)].z,
        ),
        forall|i: int| 0 <= i < k ==> z_le(
            verts[min_z_upto(verts, k)].z,
            (#[trigger] verts[i]).z,
        ),
    decreases k,
{
    if k == 1 {
        assert(z_le(verts[0].z, verts[0].z));
    } else {
        lemma_extremes(verts, k - 1);
        let bmax = max_z_upto(verts, k - 1);
        let bmin = min_z_upto(verts, k - 1);
        assert(z_le(verts[k - 1].z, verts[k - 1].z));
        if z_le(verts[bmax].z, verts[k - 1].z) {
            assert forall|i: int| 0 <= i < k implies z_le(
                (#[trigger] verts[i]).z,
                verts[max_z_upto(verts, k)].z,
            ) by {
                if i < k - 1 {
                    lemma_z_le_trans(verts[i].z, verts[bmax].z, verts[k - 1].z);
                }
            }
        } else {
            assert(z_le(verts[k - 1].z, verts[bmax].z));
        }
        if z_le(verts[k - 1].z, verts[bmin].z) {
            assert forall|i: int| 0 <= i < k implies z_le(
                verts[min_z_upto(verts, k)].z,
                (#[trigger] verts[i]).z,
            ) by {
                if i < k - 1 {
                    lemma_z_le_trans(verts[k - 1].z, verts[bmin].z, verts[i].z);
                }
            }
        } else {
            assert(z_le(verts[bmin].z, verts[k - 1].z));
        }
    }
}

/// An upper bound on the accumulated sums carries to their quotient.
proof fn lemma_range_combine_upper(r: Frac, b: Frac, wn: int, wd: int, zn: int, zd: int)
    requires
        r.num * (zd * wn) == (zn * wd) * r.den,
        zn * (wd * b.den) <= b.num * (wn * zd),
        r.den > 0,
        b.den > 0,
        wn > 0,
        zd > 0,
        wd > 0,
    ensures
        z_le(r, b),
{
    assert(r.num * (zd * wn) * b.den == (zn * (wd * b.den)) * r.den) by (nonlinear_arith)
        requires
            r.num * (zd * wn) == (zn * wd) * r.den,
    ;
    assert((zn * (wd * b.den)) * r.den <= (b.num * (wn * zd)) * r.den) by (nonlinear_arith)
        requires
            zn * (wd * b.den) <= b.num * (wn * zd),
            r.den > 0,
    ;
    assert(r.num * (zd * wn) * b.den == (r.num * b.den) * (zd * wn)) by (nonlinear_arith);
    assert((b.num * (wn * zd)) * r.den == (b.num * r.den) * (zd * wn)) by (nonlinear_arith);
    assert(zd * wn > 0) by (nonlinear_arith)
        requires
            zd > 0,
            wn > 0,
    ;
    vstd::arithmetic::mul::lemma_mul_inequality_converse(
        r.num * b.den,
        b.num * r.den,
        zd * wn,
    );
}

/// A lower bound on the accumulated sums carries to their quotient.
proof fn lemma_range_combine_lower(r: Frac, b: Frac, wn: int, wd: int, zn: int, zd: int)
    requires
        r.num * (zd * wn) == (zn * wd) * r.den,
        b.num * (wn * zd) <= zn * (wd * b.den),
        r.den > 0,
        b.den > 0,
        wn > 0,
        zd > 0,
        wd > 0,
    ensures
        z_le(b, r),
{
    assert(r.num * (zd * wn) * b.den == (zn * (wd * b.den)) * r.den) by (nonlinear_arith)
        requires
            r.num * (zd * wn) == (zn * wd) * r.den,
    ;
    assert((b.num * (wn * zd)) * r.den <= (zn * (wd * b.den)) * r.den) by (nonlinear_arith)
        requires
            b.num * (wn * zd) <= zn * (wd * b.den),
            r.den > 0,
    ;
    assert(r.num * (zd * wn) * b.den == (r.num * b.den) * (zd * wn)) by (nonlinear_arith);
    assert((b.num * (wn * zd)) * r.den == (b.num * r.den) * (zd * wn)) by (nonlinear_arith);
    assert(zd * wn > 0) by (nonlinear_arith)
        requires
            zd > 0,
            wn > 0,
    ;
    vstd::arithmetic::mul::lemma_mul_inequality_converse(
        b.num * r.den,
        r.num * b.den,
        zd * wn,
    );
}

/// One interpolation step in exact machine arithmetic: vertex weight `1/di`
/// joins the weight sum, and the vertex's elevation times that weight joins
/// the weighted sum; `None` when a step leaves the machine range.
pub open spec fn idw_step_model(w: Frac, wz: Frac, z: Frac, di: int) -> Option<(Frac, Frac)> {
    let wt = Frac { num: 1, den: di as i128 };
    match add_spec(w, wt) {
        None => None,
        Some(w2) => match mul_spec(z, wt) {
            None => None,
            Some(t) => match add_spec(wz, t) {
                None => None,
                Some(wz2) => Some((w2, wz2)),
            },
        },
    }
}

/// The interpolation accumulators after the first `k` vertices, in exact
/// machine arithmetic.
pub open spec fn idw_acc_model(verts: Seq<Point3>, p: Point2, k: int) -> Option<(Frac, Frac)>
    decreases k,
{
    if k <= 0 {
        Some((Frac { num: 0, den: 1 }, Frac { num: 0, den: 1 }))
    } else {
        match idw_acc_model(verts, p, k - 1) {
            None => None,
            Some(acc) => idw_step_model(acc.0, acc.1, verts[k - 1].z, idw_d(verts, p, k - 1)),
        }
    }
}

/// What the surface query returns: nothing on an empty mesh or outside the
/// hull, the first matching vertex's elevation on an exact hit, and
/// otherwise the quotient of the exact accumulators when every step fits the
/// machine range.
pub open spec fn z_at_model(verts: Seq<Point3>, x: int, y: int) -> Option<Frac> {
    if verts.len() == 0 {
        None
    } else if !pt_in_bbox(spec_bbox(mesh_pts(verts)), x, y) {
        None
    } else if exists|i: int| match_at(verts, x, y, i) {
        Some(verts[first_match_from(verts, x, y, 0)].z)
    } else {
        match idw_acc_model(verts, Point2 { x: x as i64, y: y as i64 }, verts.len() as int) {
            None => None,
            Some(acc) => if acc.0.num == 0 {
                None
            } else {
                div_spec(acc.1, acc.0)
            },
        }
    }
}

/// A failed accumulator step fails all later ones.
proof fn lemma_idw_acc_none(verts: Seq<Point3>, p: Point2, k: int, n: int)
    requires
        0 <= k <= n,
        idw_acc_model(verts, p, k) is None,
    ensures
        idw_acc_model(verts, p, n) is None,
    decreases n,
{
    if n > k {
        lemma_idw_acc_none(verts, p, k, n - 1);
    }
}

/// The accumulator denominators are positive, and the weight numerator is
/// positive once a vertex has been seen.
proof fn lemma_idw_pos(verts: Seq<Point3>, p: Point2, k: int)
    requires
        0 <= k <= verts.len(),
        forall|i: int| 0 <= i < verts.len() ==> frac_wf((#[trigger] verts[i]).z),
    ensures
        w_den(verts, p, k) > 0,
        wz_den(verts, p, k) > 0,
        k > 0 ==> w_num(verts, p, k) > 0,
        w_num(verts, p, k) >= 0,
    decreases k,
{
    if k > 0 {
        lemma_idw_pos(verts, p, k - 1);
        assert(idw_d(verts, p, k - 1) >= 1) by {
            assert(seg_d2(Point2 { x: verts[k - 1].x, y: verts[k - 1].y }, p) < 1 ==> idw_d(
                verts,
                p,
                k - 1,
            ) == 1);
        }
        assert(w_den(verts, p, k) > 0 && wz_den(verts, p, k) > 0 && w_num(verts, p, k) > 0)
            by (nonlinear_arith)
            requires
                w_den(verts, p, k) == w_den(verts, p, k - 1) * idw_d(verts, p, k - 1),
                wz_den(verts, p, k) == wz_den(verts, p, k - 1) * (verts[k - 1].z.den * idw_d(
                    verts,
                    p,
                    k - 1,
                )),
                w_num(verts, p, k) == w_num(verts, p, k - 1) * idw_d(verts, p, k - 1) + w_den(
                    verts,
                    p,
                    k - 1,
                ),
                w_den(verts, p, k - 1) > 0,
                wz_den(verts, p, k - 1) > 0,
                w_num(verts, p, k - 1) >= 0,
                idw_d(verts, p, k - 1) >= 1,
                verts[k - 1].z.den > 0,
        ;
    }
}

/// One accumulation step of the weight sum, carried across an exact add.
proof fn lemma_w_step(wn: Frac, wnew: Frac, cn: int, cd: int, di: int)
    requires
        wn.num * cd == cn * wn.den,
        wn.den > 0,
        wnew.den > 0,
        cd > 0,
        di >= 1,
        wnew.num * (wn.den * di) == (wn.num * di + 1 * wn.den) * wnew.den,
    ensures
        wnew.num * (cd * di) == (cn * di + cd) * wnew.den,
{
    assert(wnew.num * (cd * di) == (cn * di + cd) * wnew.den) by (nonlinear_arith)
        requires
            wn.num * cd == cn * wn.den,
            wn.den > 0,
            cd > 0,
            di >= 1,
            wnew.num * (wn.den * di) == (wn.num * di + 1 * wn.den) * wnew.den,
    ;
}

/// One accumulation step of the weighted elevation sum, carried across an
/// exact multiply and add.
proof fn lemma_wz_step(wz: Frac, t: Frac, wznew: Frac, cn: int, cd: int, zn: int, zd: int, di: int)
    requires
        wz.num * cd == cn * wz.den,
        t.num * (zd * di) == zn * t.den,
        wznew.num * (wz.den * t.den) == (wz.num * t.den + t.num * wz.den) * wznew.den,
        wz.den > 0,
        t.den > 0,
        wznew.den > 0,
        cd > 0,
        zd > 0,
        di >= 1,
    ensures
        wznew.num * (cd * (zd * di)) == (cn * (zd * di) + cd * zn) * wznew.den,
{
    let a = wznew.num as int;
    let b = wznew.den as int;
    let c = wz.num as int;
    let d = wz.den as int;
    let e = t.num as int;
    let f = t.den as int;
    let zdd = zd * di;
    let big = b * (cd * zdd);
    assert(a * (d * f) * (cd * zdd) == (c * f + e * d) * b * (cd * zdd));
    vstd::arithmetic::mul::lemma_mul_is_associative(c * f + e * d, b, cd * zdd);
    vstd::arithmetic::mul::lemma_mul_is_distributive_add(big, c * f, e * d);
    vstd::arithmetic::mul::lemma_mul_is_commutative(c * f + e * d, big);
    vstd::arithmetic::mul::lemma_mul_is_commutative(c * f, big);
    vstd::arithmetic::mul::lemma_mul_is_commutative(e * d, big);
    assert((c * f) * big == (c * cd) * (f * zdd * b)) by (nonlinear_arith)
        requires
            big == b * (cd * zdd),
    ;
    assert((e * d) * big == (e * zdd) * (d * cd * b)) by (nonlinear_arith)
        requires
            big == b * (cd * zdd),
    ;
    assert((c * cd) * (f * zdd * b) == (cn * d) * (f * zdd * b));
    assert((e * zdd) * (d * cd * b) == (zn * f) * (d * cd * b));
    assert((cn * d) * (f * zdd * b) == (d * f) * ((cn * zdd) * b)) by (nonlinear_arith);
    assert((zn * f) * (d * cd * b) == (d * f) * ((cd * zn) * b)) by (nonlinear_arith);
    vstd::arithmetic::mul::lemma_mul_is_distributive_add(d * f, (cn * zdd) * b, (cd * zn) * b);
    vstd::arithmetic::mul::lemma_mul_is_distributive_add_other_way(b, cn * zdd, cd * zn);
    assert(a * (d * f) * (cd * zdd) == (d * f) * (a * (cd * zdd))) by (nonlinear_arith);
    assert((d * f) * (a * (cd * zdd)) == (d * f) * ((cn * zdd + cd * zn) * b));
    assert(d * f != 0) by (nonlinear_arith)
        requires
            d > 0,
            f > 0,
    ;
    vstd::arithmetic::mul::lemma_mul_equality_converse(
        d * f,
        a * (cd * zdd),
        (cn * zdd + cd * zn) * b,
    );
}

/// The final combination: the quotient of the two exact accumulator pairs.
proof fn lemma_idw_combine(w: Frac, wz: Frac, r: Frac, wn: int, wd: int, zn: int, zd: int)
    requires
        w.num * wd == wn * w.den,
        wz.num * zd == zn * wz.den,
        r.num * (wz.den * w.num) == (wz.num * w.den) * r.den,
        w.den > 0,
        wz.den > 0,
        r.den > 0,
        wd > 0,
        zd > 0,
    ensures
        r.num * (zd * wn) == (zn * wd) * r.den,
{
    assert(r.num * (wz.den * w.num) * (zd * wd) == (wz.num * w.den) * r.den * (zd * wd));
    assert(r.num * (wz.den * w.num) * (zd * wd) == (r.num * zd * wz.den) * (w.num * wd))
        by (nonlinear_arith);
    assert((r.num * zd * wz.den) * (w.num * wd) == (r.num * zd * wz.den) * (wn * w.den));
    assert((r.num * zd * wz.den) * (wn * w.den) == (wz.den * w.den) * (r.num * (zd * wn)))
        by (nonlinear_arith);
    assert((wz.num * w.den) * r.den * (zd * wd) == (wz.num * zd) * (w.den * r.den * wd))
        by (nonlinear_arith);
    assert((wz.num * zd) * (w.den * r.den * wd) == (zn * wz.den) * (w.den * r.den * wd));
    assert((zn * wz.den) * (w.den * r.den * wd) == (wz.den * w.den) * ((zn * wd) * r.den))
        by (nonlinear_arith);
    assert((wz.den * w.den) * (r.num * (zd * wn)) == (wz.den * w.den) * ((zn * wd) * r.den));
    assert(wz.den * w.den != 0) by (nonlinear_arith)
        requires
            wz.den > 0,
            w.den > 0,
    ;
    vstd::arithmetic::mul::lemma_mul_equality_converse(
        wz.den * w.den,
        r.num * (zd * wn),
        (zn * wd) * r.den,
    );
}

/// The sampled points of one lattice column at `x`, walking `y` upward in
/// steps of `st`: lattice points with an elevation appear in order, carrying
/// that elevation; the rest are skipped.
pub open spec fn scatter_col_model(verts: Seq<Point3>, b: BBox, st: int, x: int, y: int) -> Seq<
    Point3,
>
    decreases (if y > b.max_y { 0int } else { b.max_y - y + 1 }),
{
    if y > b.max_y || st < 1 {
        Seq::empty()
    } else {
        let rest = scatter_col_model(verts, b, st, x, y + st);
        match z_at_model(verts, x, y) {
            Some(z) => seq![Point3 { x: x as i64, y: y as i64, z }] + rest,
            None => rest,
        }
    }
}

/// The sampled points of the lattice from column `x` rightward, column by
/// column.
pub open spec fn scatter_grid_model(verts: Seq<Point3>, b: BBox, st: int, x: int) -> Seq<Point3>
    decreases (if x > b.max_x { 0int } else { b.max_x - x + 1 }),
{
    if x > b.max_x || st < 1 {
        Seq::empty()
    } else {
        scatter_col_model(verts, b, st, x, b.min_y as int) + scatter_grid_model(
            verts,
            b,
            st,
            x + st,
        )
    }
}

/// What `scatter` returns: nothing for a non-positive step or an empty mesh,
/// and otherwise exactly the lattice points of the hull (stepping by `step`,
/// capped at the coordinate range) whose elevation is defined, each carrying
/// it, in column-major order.
pub open spec fn scatter_model(verts: Seq<Point3>, step: int) -> Option<Seq<Point3>> {
    if step <= 0 || verts.len() == 0 {
        None
    } else {
        let st = if step > 4_000_000 {
            4_000_000int
        } else {
            step
        };
        let b = spec_bbox(mesh_pts(verts));
        Some(scatter_grid_model(verts, b, st, b.min_x as int))
    }
}

impl SurfaceMesh {
    /// The axis-aligned hull of the vertices' planar positions; `None`
    /// exactly when the mesh is empty.
    pub fn bounding_box(&self) -> (r: Option<BBox>)
        ensures
            r is Some <==> self.vertices@.len() > 0,
            r is Some ==> r->0 == spec_bbox(mesh_pts(self.vertices@)) && bbox_wf(r->0),
    {
        let mut flat: Vec<Point2> = Vec::new();
        let mut i: usize = 0;
        while i < self.vertices.len()
            invariant
                0 <= i <= self.vertices@.len(),
                flat@ == mesh_pts(self.vertices@).take(i as int),
            decreases self.vertices@.len() - i,
        {
            flat.push(Point2 { x: self.vertices[i].x, y: self.vertices[i].y });
            proof {
                assert(flat@ =~= mesh_pts(self.vertices@).take(i as int + 1));
            }
            i = i + 1;
        }
        proof {
            assert(mesh_pts(self.vertices@).take(self.vertices@.len() as int) =~= mesh_pts(
                self.vertices@,
            ));
        }
        bbox_of_points(&flat)
    }

    /// The surface elevation at `(x, y)`: the z of the first vertex exactly
    /// there, and otherwise the exact inverse-distance-weighted mean of all
    /// vertex elevations, with weight one over the squared planar distance
    /// (at least one); exactly what `z_at_model` describes. `None` exactly
    /// when the mesh is empty, when `(x, y)` lies outside the mesh's
    /// axis-aligned hull, or when the exact interpolation leaves the machine
    /// range.
    pub fn z_at(&self, x: i64, y: i64) -> (r: Option<Frac>)
        requires
            mesh_wf(self),
            -1_000_000 <= x <= 1_000_000,
            -1_000_000 <= y <= 1_000_000,
        ensures
            self.vertices@.len() == 0 ==> r is None,
            self.vertices@.len() > 0 && !pt_in_bbox(
                spec_bbox(mesh_pts(self.vertices@)),
                x as int,
                y as int,
            ) ==> r is None,
            self.vertices@.len() > 0 && pt_in_bbox(
                spec_bbox(mesh_pts(self.vertices@)),
                x as int,
                y as int,
            ) && (exists|i: int| match_at(self.vertices@, x as int, y as int, i)) ==> r is Some
                && r->0 == self.vertices@[first_match_from(self.vertices@, x as int, y as int, 0)].z,
            r is Some && !(exists|i: int| match_at(self.vertices@, x as int, y as int, i))
                ==> frac_wf(r->0) && idw_rel(self.vertices@, Point2 { x, y }, r->0),
            r is Some ==> frac_wf(r->0),
            r is Some ==> (exists|i: int| 0 <= i < self.vertices@.len() && z_le(
                (#[trigger] self.vertices@[i]).z,
                r->0,
            )) && (exists|i: int| 0 <= i < self.vertices@.len() && z_le(
                r->0,
                (#[trigger] self.vertices@[i]).z,
            )),
            r == z_at_model(self.vertices@, x as int, y as int),
    {
        let n = self.vertices.len();
        if n == 0 {
            return None;
        }
        let b = match self.bounding_box() {
            Some(b) => b,
            None => {
                return None;
            },
        };
        if x < b.min_x || x > b.max_x || y < b.min_y || y > b.max_y {
            return None;
        }
        proof {
            assert(pt_in_bbox(spec_bbox(mesh_pts(self.vertices@)), x as int, y as int));
        }
        let mut i: usize = 0;
        while i < n
            invariant
                n == self.vertices@.len(),
                n > 0,
                0 <= i <= n,
                mesh_wf(self),
                pt_in_bbox(spec_bbox(mesh_pts(self.vertices@)), x as int, y as int),
                forall|j: int| 0 <= j < i ==> !match_at(self.vertices@, x as int, y as int, j),
                first_match_from(self.vertices@, x as int, y as int, 0) == first_match_from(
                    self.vertices@,
                    x as int,
                    y as int,
                    i as int,
                ),
            decreases n - i,
        {
            let v = &self.vertices[i];
            if v.x == x && v.y == y {
                proof {
                    assert(match_at(self.vertices@, x as int, y as int, i as int));
                    assert(first_match_from(self.vertices@, x as int, y as int, i as int)
                        == i as int);
                    assert(frac_wf(self.vertices@[i as int].z));
                    assert(z_le(self.vertices@[i as int].z, self.vertices@[i as int].z));
                }
                return Some(v.z);
            }
            i = i + 1;
        }
        proof {
            assert(forall|j: int| !match_at(self.vertices@, x as int, y as int, j));
        }
        let p = Point2 { x, y };
        let mut w = Frac { num: 0, den: 1 };
        let mut wz = Frac { num: 0, den: 1 };
        let mut k: usize = 0;
        while k < n
            invariant
                n == self.vertices@.len(),
                n > 0,
                0 <= k <= n,
                mesh_wf(self),
                p == (Point2 { x, y }),
                pt_wf(p),
                pt_in_bbox(spec_bbox(mesh_pts(self.vertices@)), x as int, y as int),
                frac_wf(w),
                frac_wf(wz),
                forall|j: int| !match_at(self.vertices@, x as int, y as int, j),
                idw_acc_model(self.vertices@, p, k as int) == Some((w, wz)),
                w.num * w_den(self.vertices@, p, k as int) == w_num(self.vertices@, p, k as int)
                    * w.den,
                wz.num * wz_den(self.vertices@, p, k as int) == wz_num(self.vertices@, p, k as int)
                    * wz.den,
            decreases n - k,
        {
            let v = &self.vertices[k];
            proof {
                assert(pt_wf(mesh_pts(self.vertices@)[k as int]));
                lemma_idw_pos(self.vertices@, p, k as int);
            }
            let d2 = seg_d2_exec(&Point2 { x: v.x, y: v.y }, &p);
            let di: i64 = if d2 < 1 {
                1
            } else {
                d2
            };
            proof {
                assert(di as int == idw_d(self.vertices@, p, k as int));
            }
            let wt = Frac { num: 1, den: di as i128 };
            let w2 = match w.add(wt) {
                Some(v2) => v2,
                None => {
                    proof {
                        assert(idw_acc_model(self.vertices@, p, k as int + 1) is None);
                        lemma_idw_acc_none(self.vertices@, p, k as int + 1, n as int);
                    }
                    return None;
                },
            };
            let t = match v.z.mul(wt) {
                Some(v2) => v2,
                None => {
                    proof {
                        assert(idw_acc_model(self.vertices@, p, k as int + 1) is None);
                        lemma_idw_acc_none(self.vertices@, p, k as int + 1, n as int);
                    }
                    return None;
                },
            };
            let wz2 = match wz.add(t) {
                Some(v2) => v2,
                None => {
                    proof {
                        assert(idw_acc_model(self.vertices@, p, k as int + 1) is None);
                        lemma_idw_acc_none(self.vertices@, p, k as int + 1, n as int);
                    }
                    return None;
                },
            };
            proof {
                assert(idw_acc_model(self.vertices@, p, k as int + 1) == Some((w2, wz2)));
            }
            proof {
                lemma_w_step(
                    w,
                    w2,
                    w_num(self.vertices@, p, k as int),
                    w_den(self.vertices@, p, k as int),
                    di as int,
                );
                lemma_wz_step(
                    wz,
                    t,
                    wz2,
                    wz_num(self.vertices@, p, k as int),
                    wz_den(self.vertices@, p, k as int),
                    v.z.num as int,
                    v.z.den as int,
                    di as int,
                );
            }
            w = w2;
            wz = wz2;
            k = k + 1;
        }
        proof {
            lemma_idw_pos(self.vertices@, p, n as int);
            assert(w.num > 0) by (nonlinear_arith)
                requires
                    w.num * w_den(self.vertices@, p, n as int) == w_num(self.vertices@, p, n as int)
                        * w.den,
                    w_den(self.vertices@, p, n as int) > 0,
                    w_num(self.vertices@, p, n as int) > 0,
                    w.den > 0,
            ;
        }
        let r = match wz.div(w) {
            Some(v2) => v2,
            None => {
                proof {
                    assert(z_at_model(self.vertices@, x as int, y as int) is None);
                }
                return None;
            },
        };
        proof {
            lemma_idw_combine(
                w,
                wz,
                r,
                w_num(self.vertices@, p, n as int),
                w_den(self.vertices@, p, n as int),
                wz_num(self.vertices@, p, n as int),
                wz_den(self.vertices@, p, n as int),
            );
            lemma_extremes(self.vertices@, n as int);
            let mx = max_z_upto(self.vertices@, n as int);
            let mn = min_z_upto(self.vertices@, n as int);
            lemma_idw_upper(self.vertices@, p, self.vertices@[mx].z, n as int);
            lemma_idw_lower(self.vertices@, p, self.vertices@[mn].z, n as int);
            lemma_range_combine_upper(
                r,
                self.vertices@[mx].z,
                w_num(self.vertices@, p, n as int),
                w_den(self.vertices@, p, n as int),
                wz_num(self.vertices@, p, n as int),
                wz_den(self.vertices@, p, n as int),
            );
            lemma_range_combine_lower(
                r,
                self.vertices@[mn].z,
                w_num(self.vertices@, p, n as int),
                w_den(self.vertices@, p, n as int),
                wz_num(self.vertices@, p, n as int),
                wz_den(self.vertices@, p, n as int),
            );
            assert(0 <= mx < self.vertices@.len() && z_le(r, self.vertices@[mx].z));
            assert(0 <= mn < self.vertices@.len() && z_le(self.vertices@[mn].z, r));
        }
        Some(r)
    }

    /// Sample the surface on an integer lattice over its hull, stepping by
    /// `step` in both axes and skipping lattice points with no elevation:
    /// exactly the column-major listing `scatter_model` describes. `None`
    /// exactly when `step` is not positive or the mesh is empty.
    pub fn scatter(&self, step: i64) -> (r: Option<Vec<Point3>>)
        requires
            mesh_wf(self),
        ensures
            r is Some <==> step > 0 && self.vertices@.len() > 0,
            match r {
                Some(out) => Some(out@) == scatter_model(self.vertices@, step as int),
                None => scatter_model(self.vertices@, step as int) is None,
            },
            r is Some ==> forall|k: int| 0 <= k < r->0@.len() ==> pt_in_bbox(
                spec_bbox(mesh_pts(self.vertices@)),
                (#[trigger] r->0@[k]).x as int,
                r->0@[k].y as int,
            ) && frac_wf(r->0@[k].z),
    {
        if step <= 0 {
            return None;
        }
        // The hull spans at most the coordinate range, so any stride beyond
        // it samples the same lattice points; capping keeps the walk in
        // machine range.
        let st: i64 = if step > 4_000_000 {
            4_000_000
        } else {
            step
        };
        let b = match self.bounding_box() {
            Some(b) => b,
            None => {
                return None;
            },
        };
        proof {
            crate::geometry::lemma_bbox_in_range(mesh_pts(self.vertices@));
        }
        let mut out: Vec<Point3> = Vec::new();
        proof {
            assert(Seq::<Point3>::empty() + scatter_grid_model(
                self.vertices@,
                b,
                st as int,
                b.min_x as int,
            ) =~= scatter_grid_model(self.vertices@, b, st as int, b.min_x as int));
        }
        let mut x = b.min_x;
        while x <= b.max_x
            invariant
                mesh_wf(self),
                self.vertices@.len() > 0,
                1 <= st <= 4_000_000,
                b == spec_bbox(mesh_pts(self.vertices@)),
                bbox_wf(b),
                -1_000_000 <= b.min_x && b.max_x <= 1_000_000 && -1_000_000 <= b.min_y
                    && b.max_y <= 1_000_000,
                b.min_x <= x,
                st as int == (if step as int > 4_000_000 { 4_000_000int } else { step as int }),
                scatter_grid_model(self.vertices@, b, st as int, b.min_x as int) == out@
                    + scatter_grid_model(self.vertices@, b, st as int, x as int),
                forall|k: int| 0 <= k < out@.len() ==> pt_in_bbox(
                    b,
                    (#[trigger] out@[k]).x as int,
                    out@[k].y as int,
                ) && frac_wf(out@[k].z),
            decreases b.max_x - x + 4_000_001,
        {
            proof {
                assert(scatter_grid_model(self.vertices@, b, st as int, x as int)
                    == scatter_col_model(self.vertices@, b, st as int, x as int, b.min_y as int)
                    + scatter_grid_model(self.vertices@, b, st as int, x as int + st as int));
                assert(out@ + (scatter_col_model(
                    self.vertices@,
                    b,
                    st as int,
                    x as int,
                    b.min_y as int,
                ) + scatter_grid_model(self.vertices@, b, st as int, x as int + st as int)) =~= out@
                    + scatter_col_model(self.vertices@, b, st as int, x as int, b.min_y as int)
                    + scatter_grid_model(self.vertices@, b, st as int, x as int + st as int));
            }
            let mut y = b.min_y;
            while y <= b.max_y
                invariant
                    mesh_wf(self),
                    self.vertices@.len() > 0,
                    1 <= st <= 4_000_000,
                    b == spec_bbox(mesh_pts(self.vertices@)),
                    bbox_wf(b),
                    -1_000_000 <= b.min_x && b.max_x <= 1_000_000 && -1_000_000 <= b.min_y
                        && b.max_y <= 1_000_000,
                    b.min_x <= x <= b.max_x,
                    b.min_y <= y,
                    st as int == (if step as int > 4_000_000 { 4_000_000int } else { step as int }),
                    scatter_grid_model(self.vertices@, b, st as int, b.min_x as int) == out@
                        + scatter_col_model(self.vertices@, b, st as int, x as int, y as int)
                        + scatter_grid_model(self.vertices@, b, st as int, x as int + st as int),
                    forall|k: int| 0 <= k < out@.len() ==> pt_in_bbox(
                        b,
                        (#[trigger] out@[k]).x as int,
                        out@[k].y as int,
                    ) && frac_wf(out@[k].z),
                decreases b.max_y - y + 4_000_001,
            {
                proof {
                    assert(scatter_col_model(self.vertices@, b, st as int, x as int, y as int)
                        == match z_at_model(self.vertices@, x as int, y as int) {
                        Some(z) => seq![Point3 { x, y, z }] + scatter_col_model(
                            self.vertices@,
                            b,
                            st as int,
                            x as int,
                            y as int + st as int,
                        ),
                        None => scatter_col_model(
                            self.vertices@,
                            b,
                            st as int,
                            x as int,
                            y as int + st as int,
                        ),
                    });
                }
                let ghost old_out = out@;
                match self.z_at(x, y) {
                    Some(z) => {
                        out.push(Point3 { x, y, z });
                        proof {
                            assert(out@ + scatter_col_model(
                                self.vertices@,
                                b,
                                st as int,
                                x as int,
                                y as int + st as int,
                            ) =~= old_out + (seq![Point3 { x, y, z }] + scatter_col_model(
                                self.vertices@,
                                b,
                                st as int,
                                x as int,
                                y as int + st as int,
                            )));
                        }
                    },
                    None => {},
                }
                y = y + st;
            }
            proof {
                assert(scatter_col_model(self.vertices@, b, st as int, x as int, y as int)
                    =~= Seq::<Point3>::empty());
                assert(out@ + scatter_col_model(self.vertices@, b, st as int, x as int, y as int)
                    + scatter_grid_model(self.vertices@, b, st as int, x as int + st as int)
                    =~= out@ + scatter_grid_model(
                    self.vertices@,
                    b,
                    st as int,
                    x as int + st as int,
                ));
            }
            x = x + st;
        }
        proof {
            assert(scatter_grid_model(self.vertices@, b, st as int, x as int)
                =~= Seq::<Point3>::empty());
            assert(out@ + scatter_grid_model(self.vertices@, b, st as int, x as int) =~= out@);
        }
        Some(out)
    }
}

} // verus!
