//! Groups: named collections of measurements with aggregated totals.
//!
//! A group's totals are recomputed from the derived values of its current
//! measurements: areas and lengths sum the contributions of measurements that
//! have one (none at all gives no total), points sum the vertex counts, and
//! the count is the number of measurements.

use vstd::prelude::*;

use crate::frac::{add_spec, frac_wf, Frac};

verus! {

/// A named collection of measurements on one page.
#[derive(Debug)]
pub struct Group {
    pub id: String,
    pub name: Option<String>,
    pub page_id: String,
}

/// Whether any entry carries a value.
pub open spec fn any_present(s: Seq<Option<Frac>>) -> bool {
    exists|i: int| 0 <= i < s.len() && s[i] is Some
}

/// The running sum of the present values among the first `k` entries: the
/// outer `None` marks a sum that left the machine range, the inner `None`
/// that no entry so far carried a value.
pub open spec fn sum_model(values: Seq<Option<Frac>>, k: int) -> Option<Option<Frac>>
    decreases k,
{
    if k <= 0 {
        Some(None)
    } else {
        match sum_model(values, k - 1) {
            None => None,
            Some(acc) => match values[k - 1] {
                None => Some(acc),
                Some(v) => match acc {
                    None => Some(Some(v)),
                    Some(a) => match add_spec(a, v) {
                        None => None,
                        Some(s) => Some(Some(s)),
                    },
                },
            },
        }
    }
}

/// The sum of the present values, if any entry has one and every exact sum
/// fits the machine range.
pub open spec fn sum_present_spec(values: Seq<Option<Frac>>) -> Option<Frac> {
    match sum_model(values, values.len() as int) {
        None => None,
        Some(acc) => acc,
    }
}

/// Once the running sum has left the machine range it stays gone.
proof fn lemma_sum_model_none(values: Seq<Option<Frac>>, k: int, n: int)
    requires
        0 <= k <= n,
        sum_model(values, k) is None,
    ensures
        sum_model(values, n) is None,
    decreases n,
{
    if n > k {
        lemma_sum_model_none(values, k, n - 1);
    }
}

/// Exact sum of the present values: exactly `sum_present_spec`, so `None`
/// exactly when no entry carries a value or an exact sum leaves the machine
/// range, and otherwise the exact running sum. Entries without a value are
/// skipped, as the aggregation only counts measurements that have the
/// quantity.
pub fn sum_present(values: &Vec<Option<Frac>>) -> (r: Option<Frac>)
    requires
        forall|i: int| 0 <= i < values@.len() ==> ((#[trigger] values@[i]) is Some ==> frac_wf(
            values@[i]->0,
        )),
    ensures
        r == sum_present_spec(values@),
        !any_present(values@) ==> r is None,
        r is Some ==> frac_wf(r->0),
{
    let n = values.len();
    let mut acc: Option<Frac> = None;
    let mut i: usize = 0;
    while i < n
        invariant
            0 <= i <= n,
            n == values@.len(),
            forall|j: int| 0 <= j < values@.len() ==> ((#[trigger] values@[j]) is Some ==> frac_wf(
                values@[j]->0,
            )),
            acc is Some ==> frac_wf(acc->0),
            acc is None ==> forall|j: int| 0 <= j < i ==> !((#[trigger] values@[j]) is Some),
            acc is Some ==> any_present(values@),
            sum_model(values@, i as int) == Some(acc),
        decreases values@.len() - i,
    {
        match &values[i] {
            Some(v) => {
                match acc {
                    Some(a) => {
                        match a.add(*v) {
                            Some(s) => {
                                acc = Some(s);
                            },
                            None => {
                                proof {
                                    lemma_sum_model_none(
                                        values@,
                                        i as int + 1,
                                        values@.len() as int,
                                    );
                                }
                                return None;
                            },
                        }
                    },
                    None => {
                        acc = Some(*v);
                    },
                }
            },
            None => {},
        }
        i = i + 1;
    }
    proof {
        if acc is None {
            assert(!any_present(values@));
        }
    }
    acc
}

/// Exact sum of the first `k` vertex counts.
pub open spec fn spec_points_sum(counts: Seq<usize>, k: int) -> int
    decreases k,
{
    if k <= 0 {
        0
    } else {
        spec_points_sum(counts, k - 1) + counts[k - 1]
    }
}

/// The total vertex count of the group's measurements, exactly.
pub fn sum_points(counts: &Vec<usize>) -> (r: u128)
    ensures
        r == spec_points_sum(counts@, counts@.len() as int),
{
    let mut acc: u128 = 0;
    let mut i: usize = 0;
    while i < counts.len()
        invariant
            0 <= i <= counts@.len(),
            acc == spec_points_sum(counts@, i as int),
            acc <= (i as int) * 0xffff_ffff_ffff_ffff,
        decreases counts@.len() - i,
    {
        proof {
            assert((i as int) * 0xffff_ffff_ffff_ffff + 0xffff_ffff_ffff_ffff == (i as int + 1)
                * 0xffff_ffff_ffff_ffff) by (nonlinear_arith);
            assert((i as int + 1) * 0xffff_ffff_ffff_ffff < u128::MAX) by (nonlinear_arith)
                requires
                    0 <= i as int + 1 <= 0x1_0000_0000_0000_0000int,
            ;
        }
        acc = acc + (counts[i] as u128);
        i = i + 1;
    }
    acc
}

} // verus!
