//! Measured numbers as fixed-point decimals.
//!
//! A finite number `x` is held as the integer `x * SCALE` (nine fractional
//! digits).  A result that does not fit, or whose denominator is zero, is
//! `NonFinite`; a cell that could not be read is `Missing`.
use vstd::prelude::*;

verus! {

/// Units per 1.0 in the fixed-point representation.
pub const SCALE: i64 = 1_000_000_000;

/// A number in a table cell.
#[derive(Debug, Clone, Copy, PartialEq, Eq, Structural)]
pub enum Value {
    /// `x * SCALE` for a finite number `x`.
    Finite(i64),
    /// The result of a zero denominator, or out of range.
    NonFinite,
    /// Absent: the cell could not be read or extracted.
    Missing,
}

/// The exact integer `x` as a value: finite when it fits in `i64`.
pub open spec fn of_int(x: int) -> Value {
    if i64::MIN <= x <= i64::MAX {
        Value::Finite(x as i64)
    } else {
        Value::NonFinite
    }
}

pub open spec fn abs(x: int) -> int {
    if x < 0 {
        -x
    } else {
        x
    }
}

/// Division rounding towards zero.
pub open spec fn div_trunc(a: int, b: int) -> int {
    if (a < 0) == (b < 0) {
        abs(a) / abs(b)
    } else {
        -(abs(a) / abs(b))
    }
}

/// `a + b`: missing if either is missing, else non-finite if either is.
pub open spec fn spec_add(a: Value, b: Value) -> Value {
    match (a, b) {
        (Value::Missing, _) | (_, Value::Missing) => Value::Missing,
        (Value::Finite(x), Value::Finite(y)) => of_int(x + y),
        _ => Value::NonFinite,
    }
}

/// `a - b`: missing if either is missing, else non-finite if either is.
pub open spec fn spec_sub(a: Value, b: Value) -> Value {
    match (a, b) {
        (Value::Missing, _) | (_, Value::Missing) => Value::Missing,
        (Value::Finite(x), Value::Finite(y)) => of_int(x - y),
        _ => Value::NonFinite,
    }
}

/// Sum of the finite entries of `s`, in units.
pub open spec fn finite_total(s: Seq<Value>) -> int
    decreases s.len(),
{
    if s.len() == 0 {
        0
    } else {
        finite_total(s.drop_last()) + match s.last() {
            Value::Finite(x) => x as int,
            _ => 0,
        }
    }
}

/// Number of entries of `s` that are not missing.
pub open spec fn present_count(s: Seq<Value>) -> nat
    decreases s.len(),
{
    if s.len() == 0 {
        0
    } else {
        present_count(s.drop_last()) + if s.last() is Missing {
            0nat
        } else {
            1nat
        }
    }
}

/// Some entry of `s` is non-finite.
pub open spec fn has_non_finite(s: Seq<Value>) -> bool {
    exists|i: int| 0 <= i < s.len() && s[i] is NonFinite
}

/// Sum of a column, leaving missing cells out: missing when every cell is
/// missing (never zero), non-finite when a cell is.
pub open spec fn spec_sum(s: Seq<Value>) -> Value {
    if present_count(s) == 0 {
        Value::Missing
    } else if has_non_finite(s) {
        Value::NonFinite
    } else {
        of_int(finite_total(s))
    }
}

/// Arithmetic mean of a column, leaving missing cells out (rounded towards
/// zero to the fixed-point unit): missing when every cell is missing,
/// non-finite when a cell is.
pub open spec fn spec_mean(s: Seq<Value>) -> Value {
    if present_count(s) == 0 {
        Value::Missing
    } else if has_non_finite(s) {
        Value::NonFinite
    } else {
        of_int(div_trunc(finite_total(s), present_count(s) as int))
    }
}

/// `step * magnitude * (1 / delta)`: the response slope of one run, with
/// `step` the perturbation index and `magnitude` the perturbation per step
/// in units.
pub open spec fn spec_slope(step: Option<i32>, magnitude: i64, delta: Value) -> Value {
    match (step, delta) {
        (None, _) | (_, Value::Missing) => Value::Missing,
        (Some(p), Value::Finite(d)) => if d == 0 {
            Value::NonFinite
        } else {
            of_int(div_trunc(p * magnitude * SCALE, d as int))
        },
        _ => Value::NonFinite,
    }
}

/// `step * magnitude`: the perturbation applied to one run, in units.
pub open spec fn spec_scaled_step(step: Option<i32>, magnitude: i64) -> Value {
    match step {
        None => Value::Missing,
        Some(p) => of_int(p * magnitude),
    }
}

/// `div_trunc(n, d)`, computed on magnitudes.
fn quotient_towards_zero(n: i128, d: i128) -> (r: i128)
    requires
        d != 0,
        n > i128::MIN,
        d > i128::MIN,
    ensures
        r == div_trunc(n as int, d as int),
{
    let an: i128 = if n < 0 {
        -n
    } else {
        n
    };
    let ad: i128 = if d < 0 {
        -d
    } else {
        d
    };
    let q: i128 = an / ad;
    proof {
        vstd::arithmetic::div_mod::lemma_div_pos_is_pos(an as int, ad as int);
        vstd::arithmetic::div_mod::lemma_div_is_ordered_by_denominator(an as int, 1, ad as int);
    }
    if (n < 0) == (d < 0) {
        q
    } else {
        -q
    }
}

pub(crate) fn from_wide(x: i128) -> (r: Value)
    ensures
        r == of_int(x as int),
{
    if i64::MIN as i128 <= x && x <= i64::MAX as i128 {
        Value::Finite(x as i64)
    } else {
        Value::NonFinite
    }
}

impl Value {
    pub fn add(self, other: Value) -> (r: Value)
        ensures
            r == spec_add(self, other),
    {
        match (self, other) {
            (Value::Missing, _) | (_, Value::Missing) => Value::Missing,
            (Value::Finite(x), Value::Finite(y)) => from_wide(x as i128 + y as i128),
            _ => Value::NonFinite,
        }
    }

    pub fn sub(self, other: Value) -> (r: Value)
        ensures
            r == spec_sub(self, other),
    {
        match (self, other) {
            (Value::Missing, _) | (_, Value::Missing) => Value::Missing,
            (Value::Finite(x), Value::Finite(y)) => from_wide(x as i128 - y as i128),
            _ => Value::NonFinite,
        }
    }

    /// The finite number in units, if any.
    pub fn finite(self) -> (r: Option<i64>)
        ensures
            r == match self {
                Value::Finite(x) => Some(x),
                _ => None::<i64>,
            },
    {
        match self {
            Value::Finite(x) => Some(x),
            _ => None,
        }
    }
}

/// Running totals over a column: the exact sum of the finite cells, the
/// number of cells present, and whether one is non-finite.
fn column_totals(s: &Vec<Value>) -> (r: (i128, u64, bool))
    ensures
        r.0 == finite_total(s@),
        r.1 == present_count(s@),
        r.2 == has_non_finite(s@),
{
    let mut total: i128 = 0;
    let mut count: u64 = 0;
    let mut non_finite = false;
    let mut i: usize = 0;
    while i < s.len()
        invariant
            i <= s@.len(),
            total == finite_total(s@.subrange(0, i as int)),
            count == present_count(s@.subrange(0, i as int)),
            count <= i,
            -(i as int) * 0x8000_0000_0000_0000 <= total <= (i as int) * 0x8000_0000_0000_0000,
            non_finite == exists|j: int| 0 <= j < i && s@[j] is NonFinite,
        decreases s@.len() - i,
    {
        proof {
            assert(s@.subrange(0, i + 1).drop_last() =~= s@.subrange(0, i as int));
            assert(i + 1 <= usize::MAX);
            assert((i + 1) * 0x8000_0000_0000_0000 <= 0xFFFF_FFFF_FFFF_FFFF * 0x8000_0000_0000_0000)
                by (nonlinear_arith)
                requires
                    i + 1 <= 0xFFFF_FFFF_FFFF_FFFF,
            ;
        }
        match s[i] {
            Value::Finite(x) => {
                total = total + x as i128;
                count = count + 1;
            },
            Value::NonFinite => {
                count = count + 1;
                non_finite = true;
            },
            Value::Missing => {},
        }
        i = i + 1;
    }
    proof {
        assert(s@.subrange(0, s@.len() as int) =~= s@);
    }
    (total, count, non_finite)
}

/// Sum of a column (see `spec_sum`).
pub fn sum_column(s: &Vec<Value>) -> (r: Value)
    ensures
        r == spec_sum(s@),
{
    let (total, count, non_finite) = column_totals(s);
    if count == 0 {
        Value::Missing
    } else if non_finite {
        Value::NonFinite
    } else {
        from_wide(total)
    }
}

/// Arithmetic mean of a column (see `spec_mean`).
pub fn mean_column(s: &Vec<Value>) -> (r: Value)
    ensures
        r == spec_mean(s@),
{
    let (total, count, non_finite) = column_totals(s);
    if count == 0 {
        Value::Missing
    } else if non_finite {
        Value::NonFinite
    } else {
        let q = total / (count as i128);
        proof {
            assert(q as int == div_trunc(total as int, count as int));
        }
        from_wide(q)
    }
}

/// The response slope of one run (see `spec_slope`).
pub fn slope(step: Option<i32>, magnitude: i64, delta: Value) -> (r: Value)
    ensures
        r == spec_slope(step, magnitude, delta),
{
    match (step, delta) {
        (None, _) | (_, Value::Missing) => Value::Missing,
        (Some(p), Value::Finite(d)) => {
            if d == 0 {
                Value::NonFinite
            } else {
                proof {
                    let pm = (p as int) * (magnitude as int);
                    assert(abs(pm) <= 0x8000_0000 * 0x8000_0000_0000_0000) by (nonlinear_arith)
                        requires
                            abs(p as int) <= 0x8000_0000,
                            abs(magnitude as int) <= 0x8000_0000_0000_0000,
                            pm == (p as int) * (magnitude as int),
                    ;
                    assert(abs(pm * 1_000_000_000) <= 0x8000_0000 * 0x8000_0000_0000_0000 * 1_000_000_000)
                        by (nonlinear_arith)
                        requires
                            abs(pm) <= 0x8000_0000 * 0x8000_0000_0000_0000,
                    ;
                }
                let n = (p as i128) * (magnitude as i128) * (SCALE as i128);
                from_wide(quotient_towards_zero(n, d as i128))
            }
        },
        _ => Value::NonFinite,
    }
}

/// The perturbation applied to one run (see `spec_scaled_step`).
pub fn scaled_step(step: Option<i32>, magnitude: i64) -> (r: Value)
    ensures
        r == spec_scaled_step(step, magnitude),
{
    match step {
        None => Value::Missing,
        Some(p) => {
            proof {
                assert(abs(p * magnitude) <= 0x8000_0000 * 0x8000_0000_0000_0000) by (nonlinear_arith)
                    requires
                        abs(p as int) <= 0x8000_0000,
                        abs(magnitude as int) <= 0x8000_0000_0000_0000,
                ;
            }
            from_wide((p as i128) * (magnitude as i128))
        },
    }
}

} // verus!
