//! Scales: how many pixels make one real-world unit.
//!
//! A page may carry a default scale and any number of area scales, each area
//! scale restricted to an axis-aligned rectangle. Resolution binds geometry
//! to the first area scale whose rectangle contains it, and otherwise to the
//! last default scale of the page; the iteration order is the order of the
//! given sequence.

use vstd::prelude::*;

use crate::error::TakeoffError;
use crate::frac::{div_fits, div_spec, fits_i128, frac_wf, reduce_spec, Frac};
use crate::geometry::{bbox_contains, bbox_wf, BBox, Point2};
use crate::unit::Unit;
use vstd::string::StringExecFns;

verus! {

/// How many pixels (`pixel_distance`) span how many real units
/// (`real_distance`) of `unit`.
#[derive(Debug, Clone, Copy, PartialEq, Eq, Structural)]
pub struct ScaleDefinition {
    pub pixel_distance: Frac,
    pub real_distance: Frac,
    pub unit: Unit,
}

/// Well-formedness: both distances are well-formed fractions.
pub open spec fn scale_def_wf(s: ScaleDefinition) -> bool {
    frac_wf(s.pixel_distance) && frac_wf(s.real_distance)
}

/// A scale is valid when both distances are strictly positive.
pub open spec fn scale_def_valid(s: ScaleDefinition) -> bool {
    s.pixel_distance.num > 0 && s.real_distance.num > 0
}

impl ScaleDefinition {
    /// Check that both distances are strictly positive; fails with
    /// `InvalidScale` exactly otherwise.
    pub fn validate(&self) -> (r: Result<(), TakeoffError>)
        requires
            scale_def_wf(*self),
        ensures
            r is Ok <==> scale_def_valid(*self),
            r is Err ==> r->Err_0 is InvalidScale,
            r is Err ==> (match r->Err_0 {
                TakeoffError::InvalidScale { detail } => if self.pixel_distance.num <= 0 {
                    detail@ == "pixel_distance must be positive"@
                } else {
                    detail@ == "real_distance must be positive"@
                },
                _ => false,
            }),
    {
        if self.pixel_distance.num <= 0 {
            return Err(
                TakeoffError::InvalidScale {
                    detail: String::from_str("pixel_distance must be positive"),
                },
            );
        }
        if self.real_distance.num <= 0 {
            return Err(
                TakeoffError::InvalidScale {
                    detail: String::from_str("real_distance must be positive"),
                },
            );
        }
        Ok(())
    }

    /// The ratio of pixels per real unit: `pixel_distance / real_distance`,
    /// exactly. Fails with `InvalidScale` exactly when a distance is not
    /// positive, and with `OutOfRange` exactly when the distances are valid
    /// but the exact quotient cannot be formed in the machine range.
    pub fn ratio(&self) -> (r: Result<Frac, TakeoffError>)
        requires
            scale_def_wf(*self),
        ensures
            r is Ok <==> scale_def_valid(*self) && div_fits(self.pixel_distance, self.real_distance),
            r is Ok ==> Some(r->Ok_0) == div_spec(self.pixel_distance, self.real_distance),
            r is Ok ==> frac_wf(r->Ok_0) && r->Ok_0.num > 0 && r->Ok_0.num * (self.pixel_distance.den
                * self.real_distance.num) == (self.pixel_distance.num * self.real_distance.den)
                * r->Ok_0.den,
            r is Err && r->Err_0 is InvalidScale <==> !scale_def_valid(*self),
            r is Err && r->Err_0 is OutOfRange <==> scale_def_valid(*self) && !div_fits(
                self.pixel_distance,
                self.real_distance,
            ),
            r is Err ==> (match r->Err_0 {
                TakeoffError::InvalidScale { detail } => if self.pixel_distance.num <= 0 {
                    detail@ == "pixel_distance must be positive"@
                } else {
                    detail@ == "real_distance must be positive"@
                },
                TakeoffError::OutOfRange { what } => what@ == "scale ratio"@,
                _ => false,
            }),
    {
        match self.validate() {
            Ok(()) => {},
            Err(e) => {
                return Err(e);
            },
        }
        match self.pixel_distance.div(self.real_distance) {
            Some(q) => {
                proof {
                    assert(q.num > 0) by (nonlinear_arith)
                        requires
                            q.num * (self.pixel_distance.den * self.real_distance.num) == (
                            self.pixel_distance.num * self.real_distance.den) * q.den,
                            self.pixel_distance.den > 0,
                            self.real_distance.num > 0,
                            self.pixel_distance.num > 0,
                            self.real_distance.den > 0,
                            q.den > 0,
                    ;
                }
                Ok(q)
            },
            None => Err(TakeoffError::OutOfRange { what: String::from_str("scale ratio") }),
        }
    }
}

/// A scale bound to a page: either the page's default, or an area scale that
/// applies inside an axis-aligned rectangle given by two opposite corners.
#[derive(Debug)]
pub enum Scale {
    Area { id: String, page_id: String, scale: ScaleDefinition, bounding_box: (Point2, Point2) },
    Default { id: String, page_id: String, scale: ScaleDefinition },
}

/// The scale's id.
pub open spec fn s_id(s: &Scale) -> Seq<char> {
    match s {
        Scale::Area { id, .. } => id@,
        Scale::Default { id, .. } => id@,
    }
}

/// The id of the page the scale belongs to.
pub open spec fn s_page_id(s: &Scale) -> Seq<char> {
    match s {
        Scale::Area { page_id, .. } => page_id@,
        Scale::Default { page_id, .. } => page_id@,
    }
}

/// The scale's definition.
pub open spec fn s_def(s: &Scale) -> ScaleDefinition {
    match s {
        Scale::Area { scale, .. } => *scale,
        Scale::Default { scale, .. } => *scale,
    }
}

/// Well-formedness of a scale.
pub open spec fn scale_wf(s: &Scale) -> bool {
    scale_def_wf(s_def(s))
}

/// The axis-aligned box spanned by two corners in any order.
pub open spec fn spec_norm_bbox(a: Point2, b: Point2) -> BBox {
    BBox {
        min_x: if a.x <= b.x {
            a.x
        } else {
            b.x
        },
        min_y: if a.y <= b.y {
            a.y
        } else {
            b.y
        },
        max_x: if a.x >= b.x {
            a.x
        } else {
            b.x
        },
        max_y: if a.y >= b.y {
            a.y
        } else {
            b.y
        },
    }
}

/// Whether the scale is an area scale whose rectangle contains the geometry
/// box, edges inclusive; always false for default scales.
pub open spec fn spec_scale_contains(s: &Scale, g: BBox) -> bool {
    match s {
        Scale::Area { bounding_box, .. } => bbox_contains(
            spec_norm_bbox(bounding_box.0, bounding_box.1),
            g,
        ),
        Scale::Default { .. } => false,
    }
}

impl Scale {
    /// A copy of the scale, equal in kind, ids, definition and rectangle.
    pub fn duplicate(&self) -> (r: Scale)
        ensures
            s_id(&r) == s_id(self),
            s_page_id(&r) == s_page_id(self),
            s_def(&r) == s_def(self),
            r is Area <==> self is Area,
            forall|g: BBox| spec_scale_contains(&r, g) == spec_scale_contains(self, g),
    {
        match self {
            Scale::Area { id, page_id, scale, bounding_box } => Scale::Area {
                id: id.clone(),
                page_id: page_id.clone(),
                scale: *scale,
                bounding_box: (bounding_box.0, bounding_box.1),
            },
            Scale::Default { id, page_id, scale } => Scale::Default {
                id: id.clone(),
                page_id: page_id.clone(),
                scale: *scale,
            },
        }
    }

    /// The scale's id.
    pub fn id(&self) -> (r: &String)
        ensures
            r@ == s_id(self),
    {
        match self {
            Scale::Area { id, .. } => id,
            Scale::Default { id, .. } => id,
        }
    }

    /// The id of the page the scale belongs to.
    pub fn page_id(&self) -> (r: &String)
        ensures
            r@ == s_page_id(self),
    {
        match self {
            Scale::Area { page_id, .. } => page_id,
            Scale::Default { page_id, .. } => page_id,
        }
    }

    /// The unit the scale converts into.
    pub fn get_unit(&self) -> (r: Unit)
        ensures
            r == s_def(self).unit,
    {
        match self {
            Scale::Area { scale, .. } => scale.unit,
            Scale::Default { scale, .. } => scale.unit,
        }
    }

    /// The rectangle of an area scale, normalized to an axis-aligned box;
    /// `None` for default scales.
    pub fn bounding_box_to_polygon(&self) -> (r: Option<BBox>)
        ensures
            r is Some <==> self is Area,
            r is Some ==> match self {
                Scale::Area { bounding_box, .. } => r->0 == spec_norm_bbox(
                    bounding_box.0,
                    bounding_box.1,
                ) && bbox_wf(r->0),
                _ => false,
            },
    {
        match self {
            Scale::Area { bounding_box, .. } => {
                let a = bounding_box.0;
                let b = bounding_box.1;
                Some(
                    BBox {
                        min_x: if a.x <= b.x {
                            a.x
                        } else {
                            b.x
                        },
                        min_y: if a.y <= b.y {
                            a.y
                        } else {
                            b.y
                        },
                        max_x: if a.x >= b.x {
                            a.x
                        } else {
                            b.x
                        },
                        max_y: if a.y >= b.y {
                            a.y
                        } else {
                            b.y
                        },
                    },
                )
            },
            Scale::Default { .. } => None,
        }
    }

    /// Whether this scale's rectangle contains the geometry box; always false
    /// for default scales.
    pub fn is_in_bounding_box(&self, geometry: &BBox) -> (r: bool)
        ensures
            r == spec_scale_contains(self, *geometry),
    {
        match self.bounding_box_to_polygon() {
            Some(b) => crate::geometry::bbox_contains_exec(&b, geometry),
            None => false,
        }
    }

    /// The ratio of pixels per real unit, from the scale's definition.
    pub fn ratio(&self) -> (r: Result<Frac, TakeoffError>)
        requires
            scale_wf(self),
        ensures
            r is Ok <==> scale_def_valid(s_def(self)) && div_fits(
                s_def(self).pixel_distance,
                s_def(self).real_distance,
            ),
            r is Ok ==> Some(r->Ok_0) == div_spec(
                s_def(self).pixel_distance,
                s_def(self).real_distance,
            ),
            r is Ok ==> frac_wf(r->Ok_0) && r->Ok_0.num > 0 && r->Ok_0.num * (s_def(
                self,
            ).pixel_distance.den * s_def(self).real_distance.num) == (s_def(
                self,
            ).pixel_distance.num * s_def(self).real_distance.den) * r->Ok_0.den,
            r is Err && r->Err_0 is InvalidScale <==> !scale_def_valid(s_def(self)),
            r is Err && r->Err_0 is OutOfRange <==> scale_def_valid(s_def(self)) && !div_fits(
                s_def(self).pixel_distance,
                s_def(self).real_distance,
            ),
    {
        match self {
            Scale::Area { scale, .. } => scale.ratio(),
            Scale::Default { scale, .. } => scale.ratio(),
        }
    }

    /// Check the scale's definition; fails with `InvalidScale` exactly when a
    /// distance is not positive.
    pub fn validate(&self) -> (r: Result<(), TakeoffError>)
        requires
            scale_wf(self),
        ensures
            r is Ok <==> scale_def_valid(s_def(self)),
            r is Err ==> r->Err_0 is InvalidScale,
    {
        match self {
            Scale::Area { scale, .. } => scale.validate(),
            Scale::Default { scale, .. } => scale.validate(),
        }
    }
}

/// A pixel length in real units, as a specification value: the exact
/// reduced quotient, or `None` when it cannot be formed.
pub open spec fn real_length_spec(v: Frac, ratio: Frac) -> Option<Frac> {
    if fits_i128(v.num * ratio.den) && fits_i128(v.den * ratio.num) {
        Some(reduce_spec(v.num * ratio.den, v.den * ratio.num))
    } else {
        None
    }
}

/// A pixel area in real square units, as a specification value.
pub open spec fn real_area_spec(v: Frac, ratio: Frac) -> Option<Frac> {
    if fits_i128(v.num * ratio.den) && fits_i128((v.num * ratio.den) * ratio.den) && fits_i128(
        v.den * ratio.num,
    ) && fits_i128((v.den * ratio.num) * ratio.num) {
        Some(reduce_spec((v.num * ratio.den) * ratio.den, (v.den * ratio.num) * ratio.num))
    } else {
        None
    }
}

/// A pixel volume in real cubic units, as a specification value.
pub open spec fn real_volume_spec(v: Frac, ratio: Frac) -> Option<Frac> {
    if fits_i128(v.num * ratio.den) && fits_i128((v.num * ratio.den) * ratio.den) && fits_i128(
        ((v.num * ratio.den) * ratio.den) * ratio.den,
    ) && fits_i128(v.den * ratio.num) && fits_i128((v.den * ratio.num) * ratio.num) && fits_i128(
        ((v.den * ratio.num) * ratio.num) * ratio.num,
    ) {
        Some(
            reduce_spec(
                ((v.num * ratio.den) * ratio.den) * ratio.den,
                ((v.den * ratio.num) * ratio.num) * ratio.num,
            ),
        )
    } else {
        None
    }
}

/// A pixel length expressed in real units: the value divided by the ratio,
/// exactly. `None` exactly when the products leave the machine range.
pub fn real_length_of(v: Frac, ratio: Frac) -> (r: Option<Frac>)
    requires
        frac_wf(v),
        frac_wf(ratio),
        ratio.num > 0,
    ensures
        r == real_length_spec(v, ratio),
        r is Some <==> fits_i128(v.num * ratio.den) && fits_i128(v.den * ratio.num),
        r is Some ==> r->0 == reduce_spec(v.num * ratio.den, v.den * ratio.num),
        r is Some ==> frac_wf(r->0) && r->0.num * (v.den * ratio.num) == (v.num * ratio.den)
            * r->0.den,
{
    let n = match v.num.checked_mul(ratio.den) {
        Some(x) => x,
        None => {
            return None;
        },
    };
    let d = match v.den.checked_mul(ratio.num) {
        Some(x) => x,
        None => {
            return None;
        },
    };
    proof {
        assert(d > 0) by (nonlinear_arith)
            requires
                d == v.den * ratio.num,
                v.den > 0,
                ratio.num > 0,
        ;
    }
    Some(crate::frac::reduce(n, d))
}

/// A pixel area expressed in real square units: the value divided by the
/// squared ratio, exactly. `None` exactly when the products leave the machine
/// range.
pub fn real_area_of(v: Frac, ratio: Frac) -> (r: Option<Frac>)
    requires
        frac_wf(v),
        frac_wf(ratio),
        ratio.num > 0,
    ensures
        r == real_area_spec(v, ratio),
        r is Some <==> fits_i128(v.num * ratio.den) && fits_i128((v.num * ratio.den) * ratio.den)
            && fits_i128(v.den * ratio.num) && fits_i128((v.den * ratio.num) * ratio.num),
        r is Some ==> r->0 == reduce_spec(
            (v.num * ratio.den) * ratio.den,
            (v.den * ratio.num) * ratio.num,
        ),
        r is Some ==> frac_wf(r->0) && r->0.num * (v.den * (ratio.num * ratio.num)) == (v.num
            * (ratio.den * ratio.den)) * r->0.den,
{
    let n1 = match v.num.checked_mul(ratio.den) {
        Some(x) => x,
        None => {
            return None;
        },
    };
    let n = match n1.checked_mul(ratio.den) {
        Some(x) => x,
        None => {
            return None;
        },
    };
    let d1 = match v.den.checked_mul(ratio.num) {
        Some(x) => x,
        None => {
            return None;
        },
    };
    let d = match d1.checked_mul(ratio.num) {
        Some(x) => x,
        None => {
            return None;
        },
    };
    proof {
        assert(d > 0 && d == v.den * (ratio.num * ratio.num) && n == v.num * (ratio.den
            * ratio.den)) by (nonlinear_arith)
            requires
                d1 == v.den * ratio.num,
                d == d1 * ratio.num,
                n1 == v.num * ratio.den,
                n == n1 * ratio.den,
                v.den > 0,
                ratio.num > 0,
        ;
    }
    Some(crate::frac::reduce(n, d))
}

/// A pixel volume expressed in real cubic units: the value divided by the
/// cubed ratio, exactly. `None` exactly when the products leave the machine
/// range.
pub fn real_volume_of(v: Frac, ratio: Frac) -> (r: Option<Frac>)
    requires
        frac_wf(v),
        frac_wf(ratio),
        ratio.num > 0,
    ensures
        r == real_volume_spec(v, ratio),
        r is Some <==> fits_i128(v.num * ratio.den) && fits_i128((v.num * ratio.den) * ratio.den)
            && fits_i128(((v.num * ratio.den) * ratio.den) * ratio.den) && fits_i128(
            v.den * ratio.num,
        ) && fits_i128((v.den * ratio.num) * ratio.num) && fits_i128(
            ((v.den * ratio.num) * ratio.num) * ratio.num,
        ),
        r is Some ==> r->0 == reduce_spec(
            ((v.num * ratio.den) * ratio.den) * ratio.den,
            ((v.den * ratio.num) * ratio.num) * ratio.num,
        ),
        r is Some ==> frac_wf(r->0) && r->0.num * (v.den * (ratio.num * (ratio.num * ratio.num)))
            == (v.num * (ratio.den * (ratio.den * ratio.den))) * r->0.den,
{
    let n1 = match v.num.checked_mul(ratio.den) {
        Some(x) => x,
        None => {
            return None;
        },
    };
    let n2 = match n1.checked_mul(ratio.den) {
        Some(x) => x,
        None => {
            return None;
        },
    };
    let n = match n2.checked_mul(ratio.den) {
        Some(x) => x,
        None => {
            return None;
        },
    };
    let d1 = match v.den.checked_mul(ratio.num) {
        Some(x) => x,
        None => {
            return None;
        },
    };
    let d2 = match d1.checked_mul(ratio.num) {
        Some(x) => x,
        None => {
            return None;
        },
    };
    let d = match d2.checked_mul(ratio.num) {
        Some(x) => x,
        None => {
            return None;
        },
    };
    proof {
        assert(d > 0 && d == v.den * (ratio.num * (ratio.num * ratio.num)) && n == v.num
            * (ratio.den * (ratio.den * ratio.den))) by (nonlinear_arith)
            requires
                d1 == v.den * ratio.num,
                d2 == d1 * ratio.num,
                d == d2 * ratio.num,
                n1 == v.num * ratio.den,
                n2 == n1 * ratio.den,
                n == n2 * ratio.den,
                v.den > 0,
                ratio.num > 0,
        ;
    }
    Some(crate::frac::reduce(n, d))
}

/// The scale-inversion identity: converting a scale's own pixel distance
/// through its ratio gives back exactly its real distance.
pub proof fn lemma_scale_inversion(s: ScaleDefinition, q: Frac, back: Frac)
    requires
        scale_def_wf(s),
        scale_def_valid(s),
        frac_wf(q),
        frac_wf(back),
        // q is the ratio, back is pixel_distance / q
        q.num * (s.pixel_distance.den * s.real_distance.num) == (s.pixel_distance.num
            * s.real_distance.den) * q.den,
        back.num * (s.pixel_distance.den * q.num) == (s.pixel_distance.num * q.den) * back.den,
        q.num > 0,
    ensures
        crate::frac::frac_eq(back, s.real_distance),
{
    let p = s.pixel_distance;
    let rd = s.real_distance;
    assert((p.den * q.num) * (back.num * rd.den) == (back.num * (p.den * q.num)) * rd.den)
        by (nonlinear_arith);
    assert((back.num * (p.den * q.num)) * rd.den == ((p.num * q.den) * back.den) * rd.den);
    assert(((p.num * q.den) * back.den) * rd.den == ((p.num * rd.den) * q.den) * back.den)
        by (nonlinear_arith);
    assert(((p.num * rd.den) * q.den) * back.den == (q.num * (p.den * rd.num)) * back.den);
    assert((q.num * (p.den * rd.num)) * back.den == (p.den * q.num) * (rd.num * back.den))
        by (nonlinear_arith);
    assert(p.den * q.num != 0) by (nonlinear_arith)
        requires
            p.den > 0,
            q.num > 0,
    ;
    vstd::arithmetic::mul::lemma_mul_equality_converse(
        p.den * q.num,
        back.num * rd.den,
        rd.num * back.den,
    );
}

/// There is an area scale at index `i` whose rectangle contains `g`.
pub open spec fn area_contains_at(s: Seq<Scale>, g: BBox, i: int) -> bool {
    0 <= i < s.len() && s[i] is Area && spec_scale_contains(&s[i], g)
}

/// There is a default scale at index `i`.
pub open spec fn default_at(s: Seq<Scale>, i: int) -> bool {
    0 <= i < s.len() && s[i] is Default
}

/// Scale resolution from position `i` with `last_def` the most recent default
/// seen so far: the first containing area scale wins; otherwise the last
/// default; otherwise nothing.
pub open spec fn spec_resolve_from(s: Seq<Scale>, g: BBox, i: int, last_def: Option<int>) -> Option<
    int,
>
    decreases s.len() - i,
{
    if i < 0 || i >= s.len() {
        last_def
    } else if s[i] is Area && spec_scale_contains(&s[i], g) {
        Some(i)
    } else if s[i] is Default {
        spec_resolve_from(s, g, i + 1, Some(i))
    } else {
        spec_resolve_from(s, g, i + 1, last_def)
    }
}

/// The index of the scale that binds to the geometry box `g`, if any.
pub open spec fn spec_resolve(s: Seq<Scale>, g: BBox) -> Option<int> {
    spec_resolve_from(s, g, 0, None)
}

/// The index of the scale that the geometry box binds to: the first area
/// scale containing it, else the last default scale, else `None`.
pub fn resolve_scale(scales: &Vec<Scale>, geometry: &BBox) -> (r: Option<usize>)
    ensures
        r is Some ==> r->0 < scales@.len(),
        r is Some <==> spec_resolve(scales@, *geometry) is Some,
        r is Some ==> Some(r->0 as int) == spec_resolve(scales@, *geometry),
{
    let n = scales.len();
    let mut last_def: Option<usize> = None;
    let mut i: usize = 0;
    while i < n
        invariant
            n == scales@.len(),
            0 <= i <= n,
            last_def is Some ==> last_def->0 < i,
            spec_resolve(scales@, *geometry) == spec_resolve_from(
                scales@,
                *geometry,
                i as int,
                match last_def {
                    Some(k) => Some(k as int),
                    None => None,
                },
            ),
        decreases n - i,
    {
        let is_area = matches!(&scales[i], Scale::Area { .. });
        if is_area {
            if scales[i].is_in_bounding_box(geometry) {
                return Some(i);
            }
        } else {
            last_def = Some(i);
        }
        i = i + 1;
    }
    last_def
}

/// Area-scale precedence: when any area scale contains the geometry,
/// resolution binds a containing area scale (the first); when none does but a
/// default scale exists, it binds a default scale (the last); only with
/// neither does it bind nothing.
pub proof fn lemma_area_scale_precedence(s: Seq<Scale>, g: BBox)
    ensures
        (exists|i: int| area_contains_at(s, g, i)) ==> spec_resolve(s, g) is Some
            && area_contains_at(s, g, spec_resolve(s, g)->0),
        (forall|i: int| !area_contains_at(s, g, i)) && (exists|i: int| default_at(s, i))
            ==> spec_resolve(s, g) is Some && default_at(s, spec_resolve(s, g)->0),
        (forall|i: int| !area_contains_at(s, g, i)) && (forall|i: int| !default_at(s, i))
            ==> spec_resolve(s, g) is None,
{
    lemma_resolve_from_props(s, g, 0, None);
}

/// Invariant-carrying induction behind the precedence law.
proof fn lemma_resolve_from_props(s: Seq<Scale>, g: BBox, i: int, last_def: Option<int>)
    requires
        0 <= i,
        last_def is Some ==> default_at(s, last_def->0) && last_def->0 < i,
    ensures
        (exists|j: int| i <= j && area_contains_at(s, g, j)) ==> spec_resolve_from(s, g, i, last_def)
            is Some && area_contains_at(s, g, spec_resolve_from(s, g, i, last_def)->0),
        (forall|j: int| i <= j ==> !area_contains_at(s, g, j)) && ((exists|j: int|
            i <= j && default_at(s, j)) || last_def is Some) ==> spec_resolve_from(s, g, i, last_def)
            is Some && default_at(s, spec_resolve_from(s, g, i, last_def)->0),
        (forall|j: int| i <= j ==> !area_contains_at(s, g, j)) && (forall|j: int|
            i <= j ==> !default_at(s, j)) && last_def is None ==> spec_resolve_from(
            s,
            g,
            i,
            last_def,
        ) is None,
    decreases s.len() - i,
{
    if i >= s.len() {
        assert(forall|j: int| i <= j ==> !area_contains_at(s, g, j));
    } else if s[i] is Area && spec_scale_contains(&s[i], g) {
        assert(area_contains_at(s, g, i));
    } else if s[i] is Default {
        lemma_resolve_from_props(s, g, i + 1, Some(i));
        assert(default_at(s, i));
    } else {
        lemma_resolve_from_props(s, g, i + 1, last_def);
        assert(forall|j: int| i <= j && area_contains_at(s, g, j) ==> i + 1 <= j);
        assert(forall|j: int| i <= j && default_at(s, j) ==> i + 1 <= j);
    }
}

} // verus!
