//! Exact fractions over machine integers.
//!
//! Derived quantities (scale ratios, unit-converted lengths, areas, volumes)
//! are carried as fractions `num / den` with a positive denominator, so that
//! every arithmetic step is exact. Operations use checked machine arithmetic:
//! they return `None` exactly when an intermediate product or sum leaves the
//! `i128` range, and otherwise a fraction equivalent (by cross-multiplication)
//! to the exact result. Results are reduced by the greatest common divisor
//! when that is cheap, which keeps realistic pipelines far from the range
//! limits.

use vstd::prelude::*;

verus! {

/// An exact fraction; well-formed values keep `den > 0`.
#[derive(Debug, Clone, Copy, PartialEq, Eq, Structural)]
pub struct Frac {
    pub num: i128,
    pub den: i128,
}

/// Well-formedness: the denominator is strictly positive.
pub open spec fn frac_wf(f: Frac) -> bool {
    f.den > 0
}

/// `f` denotes the same rational as `n / d` (cross-multiplication).
pub open spec fn frac_is(f: Frac, n: int, d: int) -> bool {
    f.num * d == n * f.den
}

/// Two fractions denote the same rational.
pub open spec fn frac_eq(a: Frac, b: Frac) -> bool {
    a.num * b.den == b.num * a.den
}

/// The value lies in the `i128` range.
pub open spec fn fits_i128(v: int) -> bool {
    i128::MIN <= v <= i128::MAX
}

/// Whether `a * b` can be formed without leaving the `i128` range.
pub open spec fn mul_fits(a: Frac, b: Frac) -> bool {
    fits_i128(a.num * b.num) && fits_i128(a.den * b.den)
}

/// Whether `a + b` can be formed without leaving the `i128` range, along the
/// path the implementation takes (a common denominator is exploited).
pub open spec fn add_fits(a: Frac, b: Frac) -> bool {
    if a.den == b.den {
        fits_i128(a.num + b.num)
    } else {
        fits_i128(a.num * b.den) && fits_i128(b.num * a.den) && fits_i128(a.den * b.den)
            && fits_i128(a.num * b.den + b.num * a.den)
    }
}

/// Whether `a - b` can be formed without leaving the `i128` range.
pub open spec fn sub_fits(a: Frac, b: Frac) -> bool {
    if a.den == b.den {
        fits_i128(a.num - b.num)
    } else {
        fits_i128(a.num * b.den) && fits_i128(b.num * a.den) && fits_i128(a.den * b.den)
            && fits_i128(a.num * b.den - b.num * a.den)
    }
}

/// Whether `a / b` can be formed without leaving the `i128` range.
pub open spec fn div_fits(a: Frac, b: Frac) -> bool {
    &&& fits_i128(a.num * b.den)
    &&& fits_i128(a.den * b.num)
    &&& a.den * b.num != i128::MIN
    &&& (a.den * b.num > 0 || a.num * b.den != i128::MIN)
}

/// Absolute value.
pub open spec fn abs_int(v: int) -> int {
    if v >= 0 {
        v
    } else {
        -v
    }
}

/// Euclid's greatest common divisor of two non-negative integers.
pub open spec fn gcd_int(a: int, b: int) -> int
    decreases b,
{
    if b <= 0 {
        a
    } else {
        gcd_int(b, a % b)
    }
}

/// The gcd of two non-negative integers, not both zero, is positive and
/// divides both.
proof fn lemma_gcd_divides(a: int, b: int)
    requires
        a >= 0,
        b >= 0,
        a > 0 || b > 0,
    ensures
        gcd_int(a, b) >= 1,
        a % gcd_int(a, b) == 0,
        b % gcd_int(a, b) == 0,
    decreases b,
{
    if b == 0 {
        vstd::arithmetic::div_mod::lemma_mod_self_0(a);
        vstd::arithmetic::div_mod::lemma_mod_multiples_basic(0, a);
        assert(0int % a == 0);
    } else {
        let r = a % b;
        lemma_gcd_divides(b, r);
        let g = gcd_int(b, r);
        vstd::arithmetic::div_mod::lemma_fundamental_div_mod(a, b);
        vstd::arithmetic::div_mod::lemma_fundamental_div_mod(b, g);
        vstd::arithmetic::div_mod::lemma_fundamental_div_mod(r, g);
        let kb = b / g;
        let kr = r / g;
        assert(a == (kb * (a / b) + kr) * g) by (nonlinear_arith)
            requires
                a == b * (a / b) + r,
                b == g * kb + b % g,
                r == g * kr + r % g,
                b % g == 0,
                r % g == 0,
        ;
        vstd::arithmetic::div_mod::lemma_mod_multiples_basic(kb * (a / b) + kr, g);
    }
}

/// Dividing an exact multiple recovers the factor, for either sign of the
/// factor.
proof fn lemma_div_exact(q: int, g: int)
    requires
        g > 0,
    ensures
        (q * g) / g == q,
{
    vstd::arithmetic::div_mod::lemma_fundamental_div_mod(q * g, g);
    vstd::arithmetic::div_mod::lemma_mod_multiples_basic(q, g);
    assert(q * g == g * ((q * g) / g));
    assert(g * q == g * ((q * g) / g)) by (nonlinear_arith)
        requires
            q * g == g * ((q * g) / g),
    ;
    vstd::arithmetic::mul::lemma_mul_equality_converse(g, q, (q * g) / g);
}

/// The reduced representation of the rational `n / d` (with `d > 0`): zero
/// maps to `0 / 1`, and otherwise both parts are divided by their gcd when
/// it is non-trivial.
pub open spec fn reduce_spec(n: int, d: int) -> Frac {
    if n == 0 {
        Frac { num: 0, den: 1 }
    } else {
        let g = gcd_int(abs_int(n), d);
        if g > 1 {
            Frac { num: (n / g) as i128, den: (d / g) as i128 }
        } else {
            Frac { num: n as i128, den: d as i128 }
        }
    }
}

/// Euclid's algorithm; the result is exactly the specification gcd.
fn gcd_u128(a: u128, b: u128) -> (g: u128)
    requires
        b > 0,
    ensures
        g == gcd_int(a as int, b as int),
        g >= 1,
{
    let mut x: u128 = a;
    let mut y: u128 = b;
    while y > 0
        invariant
            gcd_int(x as int, y as int) == gcd_int(a as int, b as int),
            x > 0 || y > 0,
        decreases y,
    {
        let t = x % y;
        x = y;
        y = t;
    }
    proof {
        lemma_gcd_divides(a as int, b as int);
    }
    x
}

/// Magnitude of an `i128` as a `u128` (total, even at the minimum value).
pub(crate) fn abs_u128(n: i128) -> (r: u128)
    ensures
        r as int == if n >= 0 {
            n as int
        } else {
            -(n as int)
        },
{
    if n >= 0 {
        n as u128
    } else {
        ((-1i128 - n) as u128) + 1
    }
}

/// Divide numerator and denominator by their gcd; the result is exactly the
/// reduced representation and denotes the same rational.
pub(crate) fn reduce(n: i128, d: i128) -> (r: Frac)
    requires
        d > 0,
    ensures
        frac_wf(r),
        frac_is(r, n as int, d as int),
        r == reduce_spec(n as int, d as int),
{
    let a = abs_u128(n);
    let du = d as u128;
    if a == 0 {
        proof {
            assert(n == 0);
            assert(0int * (d as int) == 0 && (n as int) * 1 == 0) by (nonlinear_arith)
                requires
                    n == 0,
            ;
        }
        return Frac { num: 0, den: 1 };
    }
    let g = gcd_u128(a, du);
    proof {
        lemma_gcd_divides(a as int, du as int);
        assert(gcd_int(abs_int(n as int), d as int) == g);
    }
    if g > 1 && a % g == 0 && du % g == 0 {
        let aq = a / g;
        let dq = du / g;
        proof {
            assert(a == g * aq + a % g) by {
                vstd::arithmetic::div_mod::lemma_fundamental_div_mod(a as int, g as int);
            }
            assert(du == g * dq + du % g) by {
                vstd::arithmetic::div_mod::lemma_fundamental_div_mod(du as int, g as int);
            }
            assert(a == g * aq);
            assert(du == g * dq);
            assert(aq * du == a * dq) by (nonlinear_arith)
                requires
                    a == g * aq,
                    du == g * dq,
            ;
            assert(aq < a && dq <= du && dq >= 1) by (nonlinear_arith)
                requires
                    a == g * aq,
                    du == g * dq,
                    g > 1,
                    a >= 1,
                    du >= 1,
            ;
            // The exact quotients of numerator and denominator.
            lemma_div_exact(dq as int, g as int);
            assert((d as int) / (g as int) == dq) by {
                assert(d as int == (dq as int) * (g as int)) by (nonlinear_arith)
                    requires
                        du == g * dq,
                        d == du,
                ;
            }
        }
        let nq: i128 = if n >= 0 {
            aq as i128
        } else {
            -(aq as i128)
        };
        let r = Frac { num: nq, den: dq as i128 };
        proof {
            lemma_div_exact(nq as int, g as int);
            if n >= 0 {
                assert(n as int == (nq as int) * (g as int)) by (nonlinear_arith)
                    requires
                        a == g * aq,
                        nq == aq,
                        n == a,
                ;
                assert(r.num * d == n * r.den);
            } else {
                assert(n as int == (nq as int) * (g as int)) by (nonlinear_arith)
                    requires
                        a == g * aq,
                        nq == -(aq as int),
                        n == -(a as int),
                ;
                assert(aq * du == a * dq);
                assert((-(aq as int)) * d == n * dq) by (nonlinear_arith)
                    requires
                        aq * du == a * dq,
                        a == -(n as int),
                        du == d,
                ;
            }
            assert((n as int) / (g as int) == nq);
            assert(r == reduce_spec(n as int, d as int));
        }
        r
    } else {
        proof {
            assert(g == 1);
        }
        Frac { num: n, den: d }
    }
}

/// The exact product of two fractions, reduced; `None` exactly when an
/// intermediate leaves the machine range.
pub open spec fn mul_spec(a: Frac, b: Frac) -> Option<Frac> {
    if mul_fits(a, b) {
        Some(reduce_spec(a.num * b.num, a.den * b.den))
    } else {
        None
    }
}

/// The exact sum of two fractions, reduced (a shared denominator is kept
/// shared); `None` exactly when an intermediate leaves the machine range.
pub open spec fn add_spec(a: Frac, b: Frac) -> Option<Frac> {
    if add_fits(a, b) {
        if a.den == b.den {
            Some(reduce_spec(a.num + b.num, a.den as int))
        } else {
            Some(reduce_spec(a.num * b.den + b.num * a.den, a.den * b.den))
        }
    } else {
        None
    }
}

/// The exact difference of two fractions, reduced; `None` exactly when an
/// intermediate leaves the machine range.
pub open spec fn sub_spec(a: Frac, b: Frac) -> Option<Frac> {
    if sub_fits(a, b) {
        if a.den == b.den {
            Some(reduce_spec(a.num - b.num, a.den as int))
        } else {
            Some(reduce_spec(a.num * b.den - b.num * a.den, a.den * b.den))
        }
    } else {
        None
    }
}

/// The exact quotient of two fractions, reduced with a positive denominator;
/// `None` exactly when an intermediate leaves the machine range.
pub open spec fn div_spec(a: Frac, b: Frac) -> Option<Frac> {
    if div_fits(a, b) {
        if a.den * b.num > 0 {
            Some(reduce_spec(a.num * b.den, a.den * b.num))
        } else {
            Some(reduce_spec(-(a.num * b.den), -(a.den * b.num)))
        }
    } else {
        None
    }
}

impl Frac {
    /// The fraction `num / den`.
    pub fn new(num: i64, den: i64) -> (r: Frac)
        requires
            den > 0,
        ensures
            frac_wf(r),
            r.num == num && r.den == den,
    {
        Frac { num: num as i128, den: den as i128 }
    }

    /// The whole number `v`.
    pub fn from_int(v: i64) -> (r: Frac)
        ensures
            frac_wf(r),
            r.num == v && r.den == 1,
    {
        Frac { num: v as i128, den: 1 }
    }

    /// Exact product; `None` exactly when it leaves the machine range.
    pub fn mul(self, o: Frac) -> (r: Option<Frac>)
        requires
            frac_wf(self),
            frac_wf(o),
        ensures
            r == mul_spec(self, o),
            r is Some <==> mul_fits(self, o),
            r is Some ==> frac_wf(r->0) && frac_is(r->0, self.num * o.num, self.den * o.den),
    {
        let n = match self.num.checked_mul(o.num) {
            Some(v) => v,
            None => {
                return None;
            },
        };
        let d = match self.den.checked_mul(o.den) {
            Some(v) => v,
            None => {
                return None;
            },
        };
        proof {
            assert(d > 0) by (nonlinear_arith)
                requires
                    d == self.den * o.den,
                    self.den > 0,
                    o.den > 0,
            ;
        }
        Some(reduce(n, d))
    }

    /// Exact sum; `None` exactly when it leaves the machine range.
    pub fn add(self, o: Frac) -> (r: Option<Frac>)
        requires
            frac_wf(self),
            frac_wf(o),
        ensures
            r == add_spec(self, o),
            r is Some <==> add_fits(self, o),
            r is Some ==> frac_wf(r->0) && frac_is(
                r->0,
                self.num * o.den + o.num * self.den,
                self.den * o.den,
            ),
    {
        if self.den == o.den {
            let n = match self.num.checked_add(o.num) {
                Some(v) => v,
                None => {
                    return None;
                },
            };
            let r = reduce(n, self.den);
            proof {
                assert(r.num * (self.den * o.den) == (self.num * o.den + o.num * self.den)
                    * r.den) by (nonlinear_arith)
                    requires
                        r.num * self.den == (self.num + o.num) * r.den,
                        self.den == o.den,
                ;
            }
            Some(r)
        } else {
            let p1 = match self.num.checked_mul(o.den) {
                Some(v) => v,
                None => {
                    return None;
                },
            };
            let p2 = match o.num.checked_mul(self.den) {
                Some(v) => v,
                None => {
                    return None;
                },
            };
            let d = match self.den.checked_mul(o.den) {
                Some(v) => v,
                None => {
                    return None;
                },
            };
            let n = match p1.checked_add(p2) {
                Some(v) => v,
                None => {
                    return None;
                },
            };
            proof {
                assert(d > 0) by (nonlinear_arith)
                    requires
                        d == self.den * o.den,
                        self.den > 0,
                        o.den > 0,
                ;
            }
            Some(reduce(n, d))
        }
    }

    /// Exact difference; `None` exactly when it leaves the machine range.
    pub fn sub(self, o: Frac) -> (r: Option<Frac>)
        requires
            frac_wf(self),
            frac_wf(o),
        ensures
            r == sub_spec(self, o),
            r is Some <==> sub_fits(self, o),
            r is Some ==> frac_wf(r->0) && frac_is(
                r->0,
                self.num * o.den - o.num * self.den,
                self.den * o.den,
            ),
    {
        if self.den == o.den {
            let n = match self.num.checked_sub(o.num) {
                Some(v) => v,
                None => {
                    return None;
                },
            };
            let r = reduce(n, self.den);
            proof {
                assert(r.num * (self.den * o.den) == (self.num * o.den - o.num * self.den)
                    * r.den) by (nonlinear_arith)
                    requires
                        r.num * self.den == (self.num - o.num) * r.den,
                        self.den == o.den,
                ;
            }
            Some(r)
        } else {
            let p1 = match self.num.checked_mul(o.den) {
                Some(v) => v,
                None => {
                    return None;
                },
            };
            let p2 = match o.num.checked_mul(self.den) {
                Some(v) => v,
                None => {
                    return None;
                },
            };
            let d = match self.den.checked_mul(o.den) {
                Some(v) => v,
                None => {
                    return None;
                },
            };
            let n = match p1.checked_sub(p2) {
                Some(v) => v,
                None => {
                    return None;
                },
            };
            proof {
                assert(d > 0) by (nonlinear_arith)
                    requires
                        d == self.den * o.den,
                        self.den > 0,
                        o.den > 0,
                ;
            }
            Some(reduce(n, d))
        }
    }

    /// Exact quotient; `None` exactly when it leaves the machine range.
    /// The divisor must not denote zero.
    pub fn div(self, o: Frac) -> (r: Option<Frac>)
        requires
            frac_wf(self),
            frac_wf(o),
            o.num != 0,
        ensures
            r == div_spec(self, o),
            r is Some <==> div_fits(self, o),
            r is Some ==> frac_wf(r->0) && r->0.num * (self.den * o.num) == (self.num
                * o.den) * r->0.den,
    {
        let n = match self.num.checked_mul(o.den) {
            Some(v) => v,
            None => {
                return None;
            },
        };
        let d = match self.den.checked_mul(o.num) {
            Some(v) => v,
            None => {
                return None;
            },
        };
        if d == i128::MIN {
            return None;
        }
        proof {
            assert(d != 0) by (nonlinear_arith)
                requires
                    d == self.den * o.num,
                    self.den > 0,
                    o.num != 0,
            ;
        }
        if d > 0 {
            Some(reduce(n, d))
        } else {
            if n == i128::MIN {
                return None;
            }
            let nn = -n;
            let r = reduce(nn, -d);
            proof {
                assert(r.num * (self.den * o.num) == (self.num * o.den) * r.den)
                    by (nonlinear_arith)
                    requires
                        r.num * (-(d as int)) == (-(n as int)) * r.den,
                        d == self.den * o.num,
                        n == self.num * o.den,
                ;
            }
            Some(r)
        }
    }

    /// Whether two fractions denote the same rational; `None` exactly when a
    /// cross product leaves the machine range.
    pub fn eq_value(self, o: Frac) -> (r: Option<bool>)
        requires
            frac_wf(self),
            frac_wf(o),
        ensures
            r is Some <==> fits_i128(self.num * o.den) && fits_i128(o.num * self.den),
            r is Some ==> (r->0 <==> frac_eq(self, o)),
    {
        let a = match self.num.checked_mul(o.den) {
            Some(v) => v,
            None => {
                return None;
            },
        };
        let b = match o.num.checked_mul(self.den) {
            Some(v) => v,
            None => {
                return None;
            },
        };
        Some(a == b)
    }

    /// Sign of the denoted rational: `-1`, `0` or `1`.
    pub fn signum(self) -> (r: i64)
        requires
            frac_wf(self),
        ensures
            r == 1 <==> self.num > 0,
            r == 0 <==> self.num == 0,
            r == -1 <==> self.num < 0,
    {
        if self.num > 0 {
            1
        } else if self.num == 0 {
            0
        } else {
            -1
        }
    }
}

} // verus!
