//! Cut/fill volumetrics: a Riemann sum of signed elevation differences.
//!
//! The integration walks a lattice spaced by the cell size across the
//! surface's hull. At each lattice point the surface and the reference are
//! queried; where either has no elevation the cell counts as uncovered,
//! otherwise the signed difference contributes to fill (surface above the
//! reference) or to cut (surface below), weighted by the cell's area. All
//! accumulation is exact; the walk stops with `None` only when a sum leaves
//! the machine range.

use vstd::prelude::*;

use crate::contour::{mesh_pts, mesh_wf, z_at_model, Point3, SurfaceMesh};
use crate::frac::{abs_int, add_spec, fits_i128, frac_wf, reduce_spec, Frac};
use crate::geometry::{bbox_wf, spec_bbox, BBox};

verus! {

/// The reference against which cut and fill are measured: a horizontal plane
/// or another surface mesh.
#[derive(Debug)]
pub enum ReferenceSurface {
    Plane { z: Frac },
    Mesh { mesh: SurfaceMesh },
}

/// Well-formedness of a reference surface.
pub open spec fn reference_wf(r: &ReferenceSurface) -> bool {
    match r {
        ReferenceSurface::Plane { z } => frac_wf(*z),
        ReferenceSurface::Mesh { mesh } => mesh_wf(mesh),
    }
}

/// Pixel-space cut and fill volumes and the uncovered area.
#[derive(Debug, Clone, Copy, PartialEq, Eq, Structural)]
pub struct VolumetricResult {
    pub cut: Frac,
    pub fill: Frac,
    pub uncovered_area: Frac,
}

/// Well-formedness of a volumetric result: exact, non-negative quantities.
pub open spec fn volumetric_wf(v: VolumetricResult) -> bool {
    &&& frac_wf(v.cut) && v.cut.num >= 0
    &&& frac_wf(v.fill) && v.fill.num >= 0
    &&& frac_wf(v.uncovered_area) && v.uncovered_area.num >= 0
}

/// Whether one cell's exact difference and scaling fit the machine range.
pub open spec fn cell_fits(s: Frac, t: Frac, area: int) -> bool {
    &&& fits_i128(s.num * t.den)
    &&& fits_i128(t.num * s.den)
    &&& fits_i128(s.num * t.den - t.num * s.den)
    &&& fits_i128(s.den * t.den)
    &&& fits_i128(abs_int(s.num * t.den - t.num * s.den) * area)
}

/// What one lattice cell adds to cut, fill and uncovered area: with both
/// elevations defined, the positive part of the difference (times the cell
/// area) goes to fill when the surface is above and to cut when it is below;
/// with either missing, the cell area goes to uncovered. `None` exactly when
/// the exact arithmetic leaves the machine range.
pub open spec fn cell_model(zs: Option<Frac>, zr: Option<Frac>, area: int) -> Option<
    (Frac, Frac, Frac),
> {
    let zero = Frac { num: 0, den: 1 };
    if zs is None || zr is None {
        Some((zero, zero, Frac { num: area as i128, den: 1 }))
    } else {
        let s = zs->0;
        let t = zr->0;
        if !cell_fits(s, t, area) {
            None
        } else {
            let diff = s.num * t.den - t.num * s.den;
            if diff > 0 {
                Some((zero, reduce_spec(diff * area, s.den * t.den), zero))
            } else if diff < 0 {
                Some((reduce_spec((-diff) * area, s.den * t.den), zero, zero))
            } else {
                Some((zero, zero, zero))
            }
        }
    }
}

/// What one lattice cell adds to cut, fill and uncovered area: exactly
/// `cell_model`. The sign convention of the difference is also stated
/// directly: a surface above the reference fills, one below cuts, and
/// exactly one of the three parts is non-zero unless the difference is zero.
pub fn cell_contribution(zs: Option<Frac>, zr: Option<Frac>, cell_area: i64) -> (r: Option<
    (Frac, Frac, Frac),
>)
    requires
        zs is Some ==> frac_wf(zs->0),
        zr is Some ==> frac_wf(zr->0),
        cell_area >= 1,
    ensures
        r == cell_model(zs, zr, cell_area as int),
        (zs is None || zr is None) ==> r == Some(
            (
                Frac { num: 0, den: 1 },
                Frac { num: 0, den: 1 },
                Frac { num: cell_area as i128, den: 1 },
            ),
        ),
        r is Some ==> ({
            let (cut, fill, unc) = r->0;
            &&& frac_wf(cut) && cut.num >= 0
            &&& frac_wf(fill) && fill.num >= 0
            &&& frac_wf(unc) && unc.num >= 0
        }),
        (zs is Some && zr is Some && r is Some) ==> ({
            let (cut, fill, unc) = r->0;
            let s = zs->0;
            let t = zr->0;
            let diff = s.num * t.den - t.num * s.den;
            &&& unc == (Frac { num: 0, den: 1 })
            &&& diff > 0 ==> cut.num == 0 && fill.num * (s.den * t.den) == (diff * cell_area)
                * fill.den
            &&& diff < 0 ==> fill.num == 0 && cut.num * (s.den * t.den) == ((-diff) * cell_area)
                * cut.den
            &&& diff == 0 ==> cut.num == 0 && fill.num == 0
        }),
{
    let zero = Frac { num: 0, den: 1 };
    let s = match zs {
        Some(v) => v,
        None => {
            return Some((zero, zero, Frac { num: cell_area as i128, den: 1 }));
        },
    };
    let t = match zr {
        Some(v) => v,
        None => {
            return Some((zero, zero, Frac { num: cell_area as i128, den: 1 }));
        },
    };
    let p1 = match s.num.checked_mul(t.den) {
        Some(v) => v,
        None => {
            return None;
        },
    };
    let p2 = match t.num.checked_mul(s.den) {
        Some(v) => v,
        None => {
            return None;
        },
    };
    let diff = match p1.checked_sub(p2) {
        Some(v) => v,
        None => {
            return None;
        },
    };
    let dprod = match s.den.checked_mul(t.den) {
        Some(v) => v,
        None => {
            return None;
        },
    };
    proof {
        assert(dprod > 0) by (nonlinear_arith)
            requires
                dprod == s.den * t.den,
                s.den > 0,
                t.den > 0,
        ;
    }
    if diff > 0 {
        proof {
            assert(abs_int(s.num * t.den - t.num * s.den) == diff as int);
        }
        let fnum = match diff.checked_mul(cell_area as i128) {
            Some(v) => v,
            None => {
                return None;
            },
        };
        let fill = crate::frac::reduce(fnum, dprod);
        proof {
            assert(fill.num >= 0) by (nonlinear_arith)
                requires
                    fill.num * dprod == fnum * fill.den,
                    fnum > 0 || fnum == diff * cell_area,
                    diff > 0,
                    cell_area >= 1,
                    fnum == diff * cell_area,
                    dprod > 0,
                    fill.den > 0,
            ;
        }
        Some((zero, fill, zero))
    } else if diff < 0 {
        proof {
            assert(abs_int(s.num * t.den - t.num * s.den) == -(diff as int));
        }
        if diff == i128::MIN {
            proof {
                assert(abs_int(s.num * t.den - t.num * s.den) * (cell_area as int) > i128::MAX)
                    by (nonlinear_arith)
                    requires
                        s.num * t.den - t.num * s.den == i128::MIN as int,
                        cell_area >= 1,
                ;
            }
            return None;
        }
        let cnum = match (-diff).checked_mul(cell_area as i128) {
            Some(v) => v,
            None => {
                return None;
            },
        };
        let cut = crate::frac::reduce(cnum, dprod);
        proof {
            assert(cut.num >= 0) by (nonlinear_arith)
                requires
                    cut.num * dprod == cnum * cut.den,
                    cnum == (-(diff as int)) * cell_area,
                    diff < 0,
                    cell_area >= 1,
                    dprod > 0,
                    cut.den > 0,
            ;
        }
        Some((cut, zero, zero))
    } else {
        proof {
            assert(abs_int(s.num * t.den - t.num * s.den) == 0);
            assert(abs_int(s.num * t.den - t.num * s.den) * (cell_area as int) == 0)
                by (nonlinear_arith)
                requires
                    abs_int(s.num * t.den - t.num * s.den) == 0,
            ;
        }
        Some((zero, zero, zero))
    }
}

/// A sum of two non-negative exact quantities is non-negative.
proof fn lemma_add_nonneg(a: Frac, b: Frac, r: Frac)
    requires
        a.num >= 0,
        b.num >= 0,
        a.den > 0,
        b.den > 0,
        r.den > 0,
        r.num * (a.den * b.den) == (a.num * b.den + b.num * a.den) * r.den,
    ensures
        r.num >= 0,
{
    assert(r.num >= 0) by (nonlinear_arith)
        requires
            a.num >= 0,
            b.num >= 0,
            a.den > 0,
            b.den > 0,
            r.den > 0,
            r.num * (a.den * b.den) == (a.num * b.den + b.num * a.den) * r.den,
    ;
}

/// The reference elevation at a lattice point, as a specification value:
/// the plane's constant, or the reference mesh's interpolated elevation.
pub open spec fn ref_model(r: &ReferenceSurface, x: int, y: int) -> Option<Frac> {
    match r {
        ReferenceSurface::Plane { z } => Some(*z),
        ReferenceSurface::Mesh { mesh } => z_at_model(mesh.vertices@, x, y),
    }
}

/// The integration walk from lattice position `(x, y)` onward, with the cut,
/// fill and uncovered area accumulated so far: the current column finishes
/// first, then the remaining columns start again at the bottom edge. `None`
/// when an exact step leaves the machine range.
pub open spec fn vol_from(
    verts: Seq<Point3>,
    reference: &ReferenceSurface,
    b: BBox,
    c: int,
    area: int,
    x: int,
    y: int,
    cut: Frac,
    fill: Frac,
    unc: Frac,
) -> Option<(Frac, Frac, Frac)>
    decreases
            (if x >= b.max_x {
                0int
            } else {
                b.max_x - x
            }),
            (if y >= b.max_y {
                0int
            } else {
                b.max_y - y
            }),
{
    if c < 1 {
        None
    } else if x >= b.max_x {
        Some((cut, fill, unc))
    } else if y >= b.max_y {
        vol_from(verts, reference, b, c, area, x + c, b.min_y as int, cut, fill, unc)
    } else {
        match cell_model(z_at_model(verts, x, y), ref_model(reference, x, y), area) {
            None => None,
            Some(d) => match add_spec(cut, d.0) {
                None => None,
                Some(c2) => match add_spec(fill, d.1) {
                    None => None,
                    Some(f2) => match add_spec(unc, d.2) {
                        None => None,
                        Some(u2) => vol_from(
                            verts,
                            reference,
                            b,
                            c,
                            area,
                            x,
                            y + c,
                            c2,
                            f2,
                            u2,
                        ),
                    },
                },
            },
        }
    }
}

/// What the integration returns: nothing on an empty surface, and otherwise
/// the full walk over the surface's hull with the given cell size (one pixel
/// when absent or not positive, capped at the coordinate range), starting
/// from zero totals.
pub open spec fn volume_model(
    verts: Seq<Point3>,
    reference: &ReferenceSurface,
    cell_size: Option<i64>,
) -> Option<VolumetricResult> {
    if verts.len() == 0 {
        None
    } else {
        let c0 = match cell_size {
            Some(v) => if v > 0 {
                v as int
            } else {
                1int
            },
            None => 1int,
        };
        let c = if c0 > 4_000_000 {
            4_000_000int
        } else {
            c0
        };
        let b = spec_bbox(mesh_pts(verts));
        let zero = Frac { num: 0, den: 1 };
        match vol_from(
            verts,
            reference,
            b,
            c,
            c * c,
            b.min_x as int,
            b.min_y as int,
            zero,
            zero,
            zero,
        ) {
            None => None,
            Some(t) => Some(VolumetricResult { cut: t.0, fill: t.1, uncovered_area: t.2 }),
        }
    }
}

/// The reference elevation at a lattice point: the plane's constant, or the
/// reference mesh's interpolated elevation.
fn reference_z_at(reference: &ReferenceSurface, x: i64, y: i64) -> (r: Option<Frac>)
    requires
        reference_wf(reference),
        -1_000_000 <= x <= 1_000_000,
        -1_000_000 <= y <= 1_000_000,
    ensures
        r == ref_model(reference, x as int, y as int),
        r is Some ==> frac_wf(r->0),
        reference is Plane ==> r == Some(reference->Plane_z),
{
    match reference {
        ReferenceSurface::Plane { z } => Some(*z),
        ReferenceSurface::Mesh { mesh } => mesh.z_at(x, y),
    }
}

/// Integrate signed cut and fill of the surface against the reference over
/// the surface's hull, on a lattice spaced by `cell_size` (one pixel when
/// absent or not positive): exactly the walk `volume_model` describes.
/// Lattice points where either elevation is missing accumulate uncovered
/// area instead. `None` exactly when the surface is empty or an exact step
/// leaves the machine range.
pub fn volume_against(
    surface: &SurfaceMesh,
    reference: &ReferenceSurface,
    cell_size: Option<i64>,
) -> (r: Option<VolumetricResult>)
    requires
        mesh_wf(surface),
        reference_wf(reference),
    ensures
        r == volume_model(surface.vertices@, reference, cell_size),
        surface.vertices@.len() == 0 ==> r is None,
        r is Some ==> volumetric_wf(r->0),
{
    let c0 = match cell_size {
        Some(v) => if v > 0 {
            v
        } else {
            1
        },
        None => 1,
    };
    // The hull spans at most the coordinate range; a larger stride samples
    // the same lattice points and stays in machine range.
    let c: i64 = if c0 > 4_000_000 {
        4_000_000
    } else {
        c0
    };
    let b = match surface.bounding_box() {
        Some(b) => b,
        None => {
            return None;
        },
    };
    proof {
        crate::geometry::lemma_bbox_in_range(crate::contour::mesh_pts(surface.vertices@));
    }
    proof {
        crate::geometry::lemma_mul_bound(c as int, c as int, 4_000_000);
        assert(c * c >= 1) by (nonlinear_arith)
            requires
                c >= 1,
        ;
    }
    let area = c * c;
    let mut cut = Frac { num: 0, den: 1 };
    let mut fill = Frac { num: 0, den: 1 };
    let mut uncovered = Frac { num: 0, den: 1 };
    let mut x = b.min_x;
    while x < b.max_x
        invariant
            mesh_wf(surface),
            reference_wf(reference),
            surface.vertices@.len() > 0,
            1 <= c <= 4_000_000,
            area == c * c,
            1 <= area,
            bbox_wf(b),
            -1_000_000 <= b.min_x && b.max_x <= 1_000_000 && -1_000_000 <= b.min_y && b.max_y
                <= 1_000_000,
            b == spec_bbox(mesh_pts(surface.vertices@)),
            c as int == ({
                let c0 = match cell_size {
                    Some(v) => if v > 0 {
                        v as int
                    } else {
                        1int
                    },
                    None => 1int,
                };
                if c0 > 4_000_000 {
                    4_000_000int
                } else {
                    c0
                }
            }),
            b.min_x <= x,
            frac_wf(cut) && cut.num >= 0,
            frac_wf(fill) && fill.num >= 0,
            frac_wf(uncovered) && uncovered.num >= 0,
            vol_from(
                surface.vertices@,
                reference,
                b,
                c as int,
                area as int,
                x as int,
                b.min_y as int,
                cut,
                fill,
                uncovered,
            ) == vol_from(
                surface.vertices@,
                reference,
                b,
                c as int,
                area as int,
                b.min_x as int,
                b.min_y as int,
                Frac { num: 0, den: 1 },
                Frac { num: 0, den: 1 },
                Frac { num: 0, den: 1 },
            ),
        decreases b.max_x - x + 4_000_001,
    {
        let mut y = b.min_y;
        while y < b.max_y
            invariant
                mesh_wf(surface),
                reference_wf(reference),
                surface.vertices@.len() > 0,
                1 <= c <= 4_000_000,
                area == c * c,
                1 <= area,
                bbox_wf(b),
                -1_000_000 <= b.min_x && b.max_x <= 1_000_000 && -1_000_000 <= b.min_y && b.max_y
                    <= 1_000_000,
                b == spec_bbox(mesh_pts(surface.vertices@)),
                c as int == ({
                    let c0 = match cell_size {
                        Some(v) => if v > 0 {
                                v as int
                        } else {
                                1int
                        },
                        None => 1int,
                    };
                    if c0 > 4_000_000 {
                        4_000_000int
                    } else {
                        c0
                    }
                }),
                b.min_x <= x < b.max_x,
                b.min_y <= y,
                frac_wf(cut) && cut.num >= 0,
                frac_wf(fill) && fill.num >= 0,
                frac_wf(uncovered) && uncovered.num >= 0,
                vol_from(
                    surface.vertices@,
                    reference,
                    b,
                    c as int,
                    area as int,
                    x as int,
                    y as int,
                    cut,
                    fill,
                    uncovered,
                ) == vol_from(
                    surface.vertices@,
                    reference,
                    b,
                    c as int,
                    area as int,
                    b.min_x as int,
                    b.min_y as int,
                    Frac { num: 0, den: 1 },
                    Frac { num: 0, den: 1 },
                    Frac { num: 0, den: 1 },
                ),
            decreases b.max_y - y + 4_000_001,
        {
            let zs = surface.z_at(x, y);
            let zr = reference_z_at(reference, x, y);
            let (dc, df, du) = match cell_contribution(zs, zr, area) {
                Some(v) => v,
                None => {
                    proof {
                        assert(vol_from(
                            surface.vertices@,
                            reference,
                            b,
                            c as int,
                            area as int,
                            x as int,
                            y as int,
                            cut,
                            fill,
                            uncovered,
                        ) is None);
                    }
                    return None;
                },
            };
            let cut2 = match cut.add(dc) {
                Some(v) => v,
                None => {
                    proof {
                        assert(vol_from(
                            surface.vertices@,
                            reference,
                            b,
                            c as int,
                            area as int,
                            x as int,
                            y as int,
                            cut,
                            fill,
                            uncovered,
                        ) is None);
                    }
                    return None;
                },
            };
            let fill2 = match fill.add(df) {
                Some(v) => v,
                None => {
                    proof {
                        assert(vol_from(
                            surface.vertices@,
                            reference,
                            b,
                            c as int,
                            area as int,
                            x as int,
                            y as int,
                            cut,
                            fill,
                            uncovered,
                        ) is None);
                    }
                    return None;
                },
            };
            let unc2 = match uncovered.add(du) {
                Some(v) => v,
                None => {
                    proof {
                        assert(vol_from(
                            surface.vertices@,
                            reference,
                            b,
                            c as int,
                            area as int,
                            x as int,
                            y as int,
                            cut,
                            fill,
                            uncovered,
                        ) is None);
                    }
                    return None;
                },
            };
            proof {
                lemma_add_nonneg(cut, dc, cut2);
                lemma_add_nonneg(fill, df, fill2);
                lemma_add_nonneg(uncovered, du, unc2);
            }
            cut = cut2;
            fill = fill2;
            uncovered = unc2;
            y = y + c;
        }
        x = x + c;
    }
    Some(VolumetricResult { cut, fill, uncovered_area: uncovered })
}

/// Cut and fill expressed as real-world quantities in the scale's unit.
#[derive(Debug, Clone, Copy, PartialEq, Eq, Structural)]
pub struct VolumetricUnitResult {
    pub cut: crate::unit::UnitValue,
    pub fill: crate::unit::UnitValue,
    pub uncovered_area: crate::unit::UnitValue,
}

/// What the unit conversion of a volumetric result returns, as a
/// specification value: each part divided by the matching power of the
/// ratio, taken as a canonical quantity of the scale's unit.
pub open spec fn volume_to_unit_model(
    raw: VolumetricResult,
    ratio: Frac,
    unit: crate::unit::Unit,
) -> Option<VolumetricUnitResult> {
    match crate::scale::real_volume_spec(raw.cut, ratio) {
        None => None,
        Some(cr) => match crate::scale::real_volume_spec(raw.fill, ratio) {
            None => None,
            Some(fr) => match crate::scale::real_area_spec(raw.uncovered_area, ratio) {
                None => None,
                Some(ur) => match crate::unit::unit_value_new_spec(
                    cr,
                    unit,
                    crate::unit::UnitValueItemType::Volume,
                ) {
                    None => None,
                    Some(cu) => match crate::unit::unit_value_new_spec(
                        fr,
                        unit,
                        crate::unit::UnitValueItemType::Volume,
                    ) {
                        None => None,
                        Some(fu) => match crate::unit::unit_value_new_spec(
                            ur,
                            unit,
                            crate::unit::UnitValueItemType::Area,
                        ) {
                            None => None,
                            Some(uu) => Some(
                                VolumetricUnitResult {
                                    cut: cu,
                                    fill: fu,
                                    uncovered_area: uu,
                                },
                            ),
                        },
                    },
                },
            },
        },
    }
}

/// Convert a pixel-space volumetric result into real units: volumes divide by
/// the cubed ratio, the uncovered area by the squared ratio, and each is
/// taken as a quantity of the scale's unit in canonical form. `None` exactly
/// when a conversion leaves the machine range.
pub fn volume_to_unit(raw: &VolumetricResult, ratio: Frac, unit: crate::unit::Unit) -> (r: Option<
    VolumetricUnitResult,
>)
    requires
        volumetric_wf(*raw),
        frac_wf(ratio),
        ratio.num > 0,
    ensures
        r == volume_to_unit_model(*raw, ratio, unit),
        r is Some ==> crate::unit::unit_value_wf(r->0.cut) && r->0.cut.kind
            == crate::unit::UnitValueItemType::Volume,
        r is Some ==> crate::unit::unit_value_wf(r->0.fill) && r->0.fill.kind
            == crate::unit::UnitValueItemType::Volume,
        r is Some ==> crate::unit::unit_value_wf(r->0.uncovered_area) && r->0.uncovered_area.kind
            == crate::unit::UnitValueItemType::Area,
{
    let cut_real = match crate::scale::real_volume_of(raw.cut, ratio) {
        Some(v) => v,
        None => {
            return None;
        },
    };
    let fill_real = match crate::scale::real_volume_of(raw.fill, ratio) {
        Some(v) => v,
        None => {
            return None;
        },
    };
    let unc_real = match crate::scale::real_area_of(raw.uncovered_area, ratio) {
        Some(v) => v,
        None => {
            return None;
        },
    };
    let cut_u = match crate::unit::UnitValue::new(
        cut_real,
        unit,
        crate::unit::UnitValueItemType::Volume,
    ) {
        Some(v) => v,
        None => {
            return None;
        },
    };
    let fill_u = match crate::unit::UnitValue::new(
        fill_real,
        unit,
        crate::unit::UnitValueItemType::Volume,
    ) {
        Some(v) => v,
        None => {
            return None;
        },
    };
    let unc_u = match crate::unit::UnitValue::new(
        unc_real,
        unit,
        crate::unit::UnitValueItemType::Area,
    ) {
        Some(v) => v,
        None => {
            return None;
        },
    };
    Some(VolumetricUnitResult { cut: cut_u, fill: fill_u, uncovered_area: unc_u })
}

} // verus!
