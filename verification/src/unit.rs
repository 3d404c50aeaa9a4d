//! Measurement units and exact conversions between them.
//!
//! Conversion factors go through a common base (a tenth of a millimetre), in
//! which every supported unit is a whole number: a yard is 9144, a foot 3048,
//! an inch 254, a metre 10000 and a centimetre 100 base units. Area and volume
//! conversions use the square and the cube of the same factors, so every
//! conversion is an exact fraction.

use vstd::prelude::*;

use crate::error::TakeoffError;
use crate::frac::{frac_is, frac_wf, mul_fits, mul_spec, Frac};
use vstd::string::StrSliceExecFns;
use vstd::string::StringExecFns;

verus! {

/// Measurement units supported by the system.
#[derive(Debug, Clone, Copy, PartialEq, Eq, Structural)]
pub enum Unit {
    Yards,
    Feet,
    Inches,
    Meters,
    Centimeters,
}

/// Length of one `u` in base units (tenths of a millimetre).
pub open spec fn length_factor(u: Unit) -> int {
    match u {
        Unit::Yards => 9144,
        Unit::Feet => 3048,
        Unit::Inches => 254,
        Unit::Meters => 10000,
        Unit::Centimeters => 100,
    }
}

/// ASCII upper-case letters fold to lower case; everything else is kept.
pub open spec fn lower_char(c: char) -> char {
    match c {
        'A' => 'a',
        'B' => 'b',
        'C' => 'c',
        'D' => 'd',
        'E' => 'e',
        'F' => 'f',
        'G' => 'g',
        'H' => 'h',
        'I' => 'i',
        'J' => 'j',
        'K' => 'k',
        'L' => 'l',
        'M' => 'm',
        'N' => 'n',
        'O' => 'o',
        'P' => 'p',
        'Q' => 'q',
        'R' => 'r',
        'S' => 's',
        'T' => 't',
        'U' => 'u',
        'V' => 'v',
        'W' => 'w',
        'X' => 'x',
        'Y' => 'y',
        'Z' => 'z',
        _ => c,
    }
}

/// A string folded to lower case, character by character.
pub open spec fn lower_seq(s: Seq<char>) -> Seq<char> {
    s.map_values(|c: char| lower_char(c))
}

/// The unit a string denotes, if any: the fold of the string must equal one
/// of the accepted tokens (full name, singular, or abbreviation).
pub open spec fn parse_unit(s: Seq<char>) -> Option<Unit> {
    let l = lower_seq(s);
    if l == "yards"@ || l == "yard"@ || l == "yd"@ {
        Some(Unit::Yards)
    } else if l == "feet"@ || l == "foot"@ || l == "ft"@ {
        Some(Unit::Feet)
    } else if l == "inches"@ || l == "inch"@ || l == "in"@ {
        Some(Unit::Inches)
    } else if l == "meters"@ || l == "meter"@ || l == "m"@ {
        Some(Unit::Meters)
    } else if l == "centimeters"@ || l == "centimeter"@ || l == "cm"@ {
        Some(Unit::Centimeters)
    } else {
        None
    }
}

/// Fold one character to ASCII lower case.
fn lower_char_exec(c: char) -> (r: char)
    ensures
        r == lower_char(c),
{
    match c {
        'A' => 'a',
        'B' => 'b',
        'C' => 'c',
        'D' => 'd',
        'E' => 'e',
        'F' => 'f',
        'G' => 'g',
        'H' => 'h',
        'I' => 'i',
        'J' => 'j',
        'K' => 'k',
        'L' => 'l',
        'M' => 'm',
        'N' => 'n',
        'O' => 'o',
        'P' => 'p',
        'Q' => 'q',
        'R' => 'r',
        'S' => 's',
        'T' => 't',
        'U' => 'u',
        'V' => 'v',
        'W' => 'w',
        'X' => 'x',
        'Y' => 'y',
        'Z' => 'z',
        _ => c,
    }
}

/// Whether `s`, folded to lower case, equals `t` as written.
fn str_eq_lower(s: &str, t: &str) -> (b: bool)
    ensures
        b == (lower_seq(s@) == t@),
{
    let n = s.unicode_len();
    let m = t.unicode_len();
    if n != m {
        proof {
            assert(lower_seq(s@).len() == s@.len());
        }
        return false;
    }
    let mut i: usize = 0;
    while i < n
        invariant
            n == s@.len(),
            n == t@.len(),
            i <= n,
            forall|j: int| 0 <= j < i ==> lower_char(s@[j]) == t@[j],
        decreases n - i,
    {
        let c = lower_char_exec(s.get_char(i));
        let d = t.get_char(i);
        if c != d {
            proof {
                assert(lower_seq(s@)[i as int] != t@[i as int]);
            }
            return false;
        }
        i = i + 1;
    }
    proof {
        assert(lower_seq(s@) =~= t@);
    }
    true
}

impl Unit {
    /// Length of one of this unit in base units (tenths of a millimetre).
    pub fn base_factor(&self) -> (r: i64)
        ensures
            r == length_factor(*self),
            1 <= r <= 10000,
    {
        match self {
            Unit::Yards => 9144,
            Unit::Feet => 3048,
            Unit::Inches => 254,
            Unit::Meters => 10000,
            Unit::Centimeters => 100,
        }
    }

    /// Convert a length from this unit to another, exactly.
    /// `None` exactly when the product leaves the machine range.
    pub fn convert(&self, value: Frac, to: &Unit) -> (r: Option<Frac>)
        requires
            frac_wf(value),
        ensures
            r == mul_spec(
                value,
                Frac { num: length_factor(*self) as i128, den: length_factor(*to) as i128 },
            ),
            r is Some <==> mul_fits(
                value,
                Frac { num: length_factor(*self) as i128, den: length_factor(*to) as i128 },
            ),
            r is Some ==> frac_wf(r->0) && frac_is(
                r->0,
                value.num * length_factor(*self),
                value.den * length_factor(*to),
            ),
    {
        let f = Frac::new(self.base_factor(), to.base_factor());
        value.mul(f)
    }

    /// Convert an area, using the squared length factors.
    pub fn convert_area(&self, value: Frac, to: &Unit) -> (r: Option<Frac>)
        requires
            frac_wf(value),
        ensures
            r == mul_spec(
                value,
                Frac {
                    num: (length_factor(*self) * length_factor(*self)) as i128,
                    den: (length_factor(*to) * length_factor(*to)) as i128,
                },
            ),
            r is Some <==> mul_fits(
                value,
                Frac {
                    num: (length_factor(*self) * length_factor(*self)) as i128,
                    den: (length_factor(*to) * length_factor(*to)) as i128,
                },
            ),
            r is Some ==> frac_wf(r->0) && frac_is(
                r->0,
                value.num * (length_factor(*self) * length_factor(*self)),
                value.den * (length_factor(*to) * length_factor(*to)),
            ),
    {
        let f1 = self.base_factor();
        let f2 = to.base_factor();
        let f = Frac::new(f1 * f1, f2 * f2);
        value.mul(f)
    }

    /// Convert a volume, using the cubed length factors.
    pub fn convert_volume(&self, value: Frac, to: &Unit) -> (r: Option<Frac>)
        requires
            frac_wf(value),
        ensures
            r == mul_spec(
                value,
                Frac {
                    num: (length_factor(*self) * length_factor(*self) * length_factor(
                        *self,
                    )) as i128,
                    den: (length_factor(*to) * length_factor(*to) * length_factor(*to)) as i128,
                },
            ),
            r is Some <==> mul_fits(
                value,
                Frac {
                    num: (length_factor(*self) * length_factor(*self) * length_factor(
                        *self,
                    )) as i128,
                    den: (length_factor(*to) * length_factor(*to) * length_factor(*to)) as i128,
                },
            ),
            r is Some ==> frac_wf(r->0) && frac_is(
                r->0,
                value.num * (length_factor(*self) * length_factor(*self) * length_factor(
                    *self,
                )),
                value.den * (length_factor(*to) * length_factor(*to) * length_factor(*to)),
            ),
    {
        let f1 = self.base_factor();
        let f2 = to.base_factor();
        let f = Frac::new(f1 * f1 * f1, f2 * f2 * f2);
        value.mul(f)
    }

    /// The display abbreviation for this unit.
    pub fn display(&self) -> (r: &'static str)
        ensures
            r@ == match *self {
                Unit::Yards => "yd"@,
                Unit::Feet => "ft"@,
                Unit::Inches => "in"@,
                Unit::Meters => "m"@,
                Unit::Centimeters => "cm"@,
            },
    {
        match self {
            Unit::Yards => "yd",
            Unit::Feet => "ft",
            Unit::Inches => "in",
            Unit::Meters => "m",
            Unit::Centimeters => "cm",
        }
    }

    /// The full name of this unit.
    pub fn unit_str(&self) -> (r: &'static str)
        ensures
            r@ == match *self {
                Unit::Yards => "Yards"@,
                Unit::Feet => "Feet"@,
                Unit::Inches => "Inches"@,
                Unit::Meters => "Meters"@,
                Unit::Centimeters => "Centimeters"@,
            },
    {
        match self {
            Unit::Yards => "Yards",
            Unit::Feet => "Feet",
            Unit::Inches => "Inches",
            Unit::Meters => "Meters",
            Unit::Centimeters => "Centimeters",
        }
    }

    /// Parse a unit string, case-insensitively, from its full name, singular
    /// name or abbreviation. Unrecognized strings fail with `UnknownUnit`
    /// carrying the offending input.
    pub fn from_str(s: &str) -> (r: Result<Unit, TakeoffError>)
        ensures
            r is Ok <==> parse_unit(s@) is Some,
            r is Ok ==> Some(r->Ok_0) == parse_unit(s@),
            r is Err ==> r->Err_0 is UnknownUnit && (match r->Err_0 {
                TakeoffError::UnknownUnit { input } => input@ == s@,
                _ => false,
            }),
    {
        if str_eq_lower(s, "yards") || str_eq_lower(s, "yard") || str_eq_lower(s, "yd") {
            Ok(Unit::Yards)
        } else if str_eq_lower(s, "feet") || str_eq_lower(s, "foot") || str_eq_lower(s, "ft") {
            Ok(Unit::Feet)
        } else if str_eq_lower(s, "inches") || str_eq_lower(s, "inch") || str_eq_lower(s, "in") {
            Ok(Unit::Inches)
        } else if str_eq_lower(s, "meters") || str_eq_lower(s, "meter") || str_eq_lower(s, "m") {
            Ok(Unit::Meters)
        } else if str_eq_lower(s, "centimeters") || str_eq_lower(s, "centimeter")
            || str_eq_lower(s, "cm") {
            Ok(Unit::Centimeters)
        } else {
            Err(TakeoffError::UnknownUnit { input: String::from_str(s) })
        }
    }
}

/// Unit conversion utilities.
pub struct UnitUtils;

impl UnitUtils {
    /// Convert a length value between units, exactly.
    pub fn convert(value: Frac, from: Unit, to: Unit) -> (r: Option<Frac>)
        requires
            frac_wf(value),
        ensures
            r == mul_spec(
                value,
                Frac { num: length_factor(from) as i128, den: length_factor(to) as i128 },
            ),
            r is Some <==> mul_fits(
                value,
                Frac { num: length_factor(from) as i128, den: length_factor(to) as i128 },
            ),
            r is Some ==> frac_wf(r->0) && frac_is(
                r->0,
                value.num * length_factor(from),
                value.den * length_factor(to),
            ),
    {
        from.convert(value, &to)
    }

    /// Convert an area value between units, exactly.
    pub fn convert_area(value: Frac, from: Unit, to: Unit) -> (r: Option<Frac>)
        requires
            frac_wf(value),
        ensures
            r == mul_spec(
                value,
                Frac {
                    num: (length_factor(from) * length_factor(from)) as i128,
                    den: (length_factor(to) * length_factor(to)) as i128,
                },
            ),
            r is Some <==> mul_fits(
                value,
                Frac {
                    num: (length_factor(from) * length_factor(from)) as i128,
                    den: (length_factor(to) * length_factor(to)) as i128,
                },
            ),
            r is Some ==> frac_wf(r->0) && frac_is(
                r->0,
                value.num * (length_factor(from) * length_factor(from)),
                value.den * (length_factor(to) * length_factor(to)),
            ),
    {
        from.convert_area(value, &to)
    }

    /// Convert a volume value between units, exactly.
    pub fn convert_volume(value: Frac, from: Unit, to: Unit) -> (r: Option<Frac>)
        requires
            frac_wf(value),
        ensures
            r == mul_spec(
                value,
                Frac {
                    num: (length_factor(from) * length_factor(from) * length_factor(
                        from,
                    )) as i128,
                    den: (length_factor(to) * length_factor(to) * length_factor(to)) as i128,
                },
            ),
            r is Some <==> mul_fits(
                value,
                Frac {
                    num: (length_factor(from) * length_factor(from) * length_factor(
                        from,
                    )) as i128,
                    den: (length_factor(to) * length_factor(to) * length_factor(to)) as i128,
                },
            ),
            r is Some ==> frac_wf(r->0) && frac_is(
                r->0,
                value.num * (length_factor(from) * length_factor(from) * length_factor(from)),
                value.den * (length_factor(to) * length_factor(to) * length_factor(to)),
            ),
    {
        from.convert_volume(value, &to)
    }

    /// All available units.
    pub fn all_units() -> (r: Vec<Unit>)
        ensures
            r@ == seq![
                Unit::Yards,
                Unit::Feet,
                Unit::Inches,
                Unit::Meters,
                Unit::Centimeters,
            ],
    {
        let mut v: Vec<Unit> = Vec::new();
        v.push(Unit::Yards);
        v.push(Unit::Feet);
        v.push(Unit::Inches);
        v.push(Unit::Meters);
        v.push(Unit::Centimeters);
        proof {
            assert(v@ =~= seq![
                Unit::Yards,
                Unit::Feet,
                Unit::Inches,
                Unit::Meters,
                Unit::Centimeters,
            ]);
        }
        v
    }

    /// The imperial units.
    pub fn imperial_units() -> (r: Vec<Unit>)
        ensures
            r@ == seq![Unit::Yards, Unit::Feet, Unit::Inches],
    {
        let mut v: Vec<Unit> = Vec::new();
        v.push(Unit::Yards);
        v.push(Unit::Feet);
        v.push(Unit::Inches);
        proof {
            assert(v@ =~= seq![Unit::Yards, Unit::Feet, Unit::Inches]);
        }
        v
    }

    /// The metric units.
    pub fn metric_units() -> (r: Vec<Unit>)
        ensures
            r@ == seq![Unit::Meters, Unit::Centimeters],
    {
        let mut v: Vec<Unit> = Vec::new();
        v.push(Unit::Meters);
        v.push(Unit::Centimeters);
        proof {
            assert(v@ =~= seq![Unit::Meters, Unit::Centimeters]);
        }
        v
    }
}

/// Which physical magnitude a `UnitValue` carries.
#[derive(Debug, Clone, Copy, PartialEq, Eq, Structural)]
pub enum UnitValueItemType {
    Area,
    Length,
    Volume,
}

/// The base-unit factor for one `u` at a given magnitude: the length factor,
/// its square, or its cube.
pub open spec fn magnitude_factor(m: UnitValueItemType, u: Unit) -> int {
    match m {
        UnitValueItemType::Length => length_factor(u),
        UnitValueItemType::Area => length_factor(u) * length_factor(u),
        UnitValueItemType::Volume => length_factor(u) * length_factor(u) * length_factor(u),
    }
}

/// A dimensioned quantity held exactly in canonical base units (tenths of a
/// millimetre, raised to the magnitude's power).
#[derive(Debug, Clone, Copy, PartialEq, Eq, Structural)]
pub struct UnitValue {
    pub kind: UnitValueItemType,
    pub canonical: Frac,
}

/// Well-formedness: the canonical quantity is a well-formed fraction.
pub open spec fn unit_value_wf(v: UnitValue) -> bool {
    frac_wf(v.canonical)
}

/// A quantity of `value` in `unit` at the given magnitude, as a
/// specification value: the exact canonical amount, or `None` when it cannot
/// be formed.
pub open spec fn unit_value_new_spec(value: Frac, unit: Unit, magnitude: UnitValueItemType) -> Option<
    UnitValue,
> {
    match mul_spec(value, Frac { num: magnitude_factor(magnitude, unit) as i128, den: 1 }) {
        None => None,
        Some(c) => Some(UnitValue { kind: magnitude, canonical: c }),
    }
}

impl UnitValue {
    /// A quantity of `value` in `unit` at the given magnitude, stored in
    /// canonical base units. `None` exactly when the exact product leaves the
    /// machine range.
    pub fn new(value: Frac, unit: Unit, magnitude: UnitValueItemType) -> (r: Option<UnitValue>)
        requires
            frac_wf(value),
        ensures
            r == unit_value_new_spec(value, unit, magnitude),
            r is Some <==> mul_fits(
                value,
                Frac { num: magnitude_factor(magnitude, unit) as i128, den: 1 },
            ),
            r is Some ==> Some(r->0.canonical) == mul_spec(
                value,
                Frac { num: magnitude_factor(magnitude, unit) as i128, den: 1 },
            ),
            r is Some ==> unit_value_wf(r->0) && r->0.kind == magnitude && frac_is(
                r->0.canonical,
                value.num * magnitude_factor(magnitude, unit),
                value.den as int,
            ),
    {
        let f = unit.base_factor();
        let factor = match magnitude {
            UnitValueItemType::Length => Frac::new(f, 1),
            UnitValueItemType::Area => Frac::new(f * f, 1),
            UnitValueItemType::Volume => Frac::new(f * f * f, 1),
        };
        match value.mul(factor) {
            Some(c) => Some(UnitValue { kind: magnitude, canonical: c }),
            None => None,
        }
    }

    /// An area quantity already in canonical base units.
    pub fn from_area(canonical: Frac) -> (r: UnitValue)
        requires
            frac_wf(canonical),
        ensures
            unit_value_wf(r),
            r.kind == UnitValueItemType::Area,
            r.canonical == canonical,
    {
        UnitValue { kind: UnitValueItemType::Area, canonical }
    }

    /// A length quantity already in canonical base units.
    pub fn from_length(canonical: Frac) -> (r: UnitValue)
        requires
            frac_wf(canonical),
        ensures
            unit_value_wf(r),
            r.kind == UnitValueItemType::Length,
            r.canonical == canonical,
    {
        UnitValue { kind: UnitValueItemType::Length, canonical }
    }

    /// A volume quantity already in canonical base units.
    pub fn from_volume(canonical: Frac) -> (r: UnitValue)
        requires
            frac_wf(canonical),
        ensures
            unit_value_wf(r),
            r.kind == UnitValueItemType::Volume,
            r.canonical == canonical,
    {
        UnitValue { kind: UnitValueItemType::Volume, canonical }
    }

    /// The quantity expressed in `to`, exactly. `None` exactly when the exact
    /// quotient leaves the machine range.
    pub fn get_converted_value(&self, to: Unit) -> (r: Option<Frac>)
        requires
            unit_value_wf(*self),
        ensures
            r == mul_spec(
                self.canonical,
                Frac { num: 1, den: magnitude_factor(self.kind, to) as i128 },
            ),
            r is Some <==> mul_fits(
                self.canonical,
                Frac { num: 1, den: magnitude_factor(self.kind, to) as i128 },
            ),
            r is Some ==> frac_wf(r->0) && frac_is(
                r->0,
                self.canonical.num as int,
                self.canonical.den * magnitude_factor(self.kind, to),
            ),
    {
        let f = to.base_factor();
        let divisor = match self.kind {
            UnitValueItemType::Length => Frac::new(1, f),
            UnitValueItemType::Area => Frac::new(1, f * f),
            UnitValueItemType::Volume => Frac::new(1, f * f * f),
        };
        self.canonical.mul(divisor)
    }
}

/// Converting to a second unit and back returns the original value exactly:
/// the two conversions use the same pair of factors in opposite roles, so
/// they cancel.
pub proof fn lemma_unit_round_trip(v: Frac, c1: Frac, c2: Frac, u1: Unit, u2: Unit)
    requires
        frac_wf(v),
        frac_wf(c1),
        frac_wf(c2),
        frac_is(c1, v.num * length_factor(u1), v.den * length_factor(u2)),
        frac_is(c2, c1.num * length_factor(u2), c1.den * length_factor(u1)),
    ensures
        crate::frac::frac_eq(c2, v),
{
    let f1 = length_factor(u1);
    let f2 = length_factor(u2);
    assert(f1 > 0 && f2 > 0);
    assert(c2.num * v.den == v.num * c2.den) by (nonlinear_arith)
        requires
            c1.num * (v.den * f2) == (v.num * f1) * c1.den,
            c2.num * (c1.den * f1) == (c1.num * f2) * c2.den,
            f1 > 0,
            f2 > 0,
            v.den > 0,
            c1.den > 0,
            c2.den > 0,
    ;
}

} // verus!
