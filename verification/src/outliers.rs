//! Which rows of a column are outliers, and the entry that is kept of them.
//!
//! A missing value compares to nothing: a comparison with it has no result, and
//! a row without a result is not kept.

use crate::results::{F64Bits, OutlierEntry, OutlierView};
use vstd::prelude::*;

verus! {

/// The type of the values in a column, as far as they can be compared.
#[derive(Debug, Clone, Copy, PartialEq, Eq, Structural)]
pub enum Dtype {
    Float64,
    Float32,
    Int32,
    Int64,
    /// Any other type.
    Other,
}

/// A quantile of a column.
#[derive(Debug, Clone, Copy, PartialEq, Eq, Structural)]
pub enum QuantileValue {
    /// A 64-bit floating-point number.
    Float64(F64Bits),
    /// A value of any other type, or none.
    Other,
}

/// Why the outliers of a column cannot be told.
#[derive(Debug, Clone, Copy, PartialEq, Eq, Structural)]
pub enum ComputeError {
    /// The lower quartile is not a 64-bit floating-point number.
    LowerQuartile,
    /// The upper quartile is not a 64-bit floating-point number.
    UpperQuartile,
    /// The values cannot be compared.
    UnsupportedDtype,
}

impl ComputeError {
    /// The text of the error.
    pub open spec fn text(self) -> Seq<char> {
        match self {
            ComputeError::LowerQuartile => "Expected Float64 value for Q1"@,
            ComputeError::UpperQuartile => "Expected Float64 value for Q3"@,
            ComputeError::UnsupportedDtype => "Unsupported dtype for comparison"@,
        }
    }

    /// The text of the error.
    pub fn message(&self) -> (r: &'static str)
        ensures
            r@ == self.text(),
    {
        match self {
            ComputeError::LowerQuartile => "Expected Float64 value for Q1",
            ComputeError::UpperQuartile => "Expected Float64 value for Q3",
            ComputeError::UnsupportedDtype => "Unsupported dtype for comparison",
        }
    }
}

/// The quartiles of a column whose outliers can be told, or the first reason
/// why they cannot.
pub open spec fn checked_quartiles(q1: QuantileValue, q3: QuantileValue, dtype: Dtype) -> Result<
    (F64Bits, F64Bits),
    ComputeError,
> {
    match (q1, q3) {
        (QuantileValue::Other, _) => Err(ComputeError::LowerQuartile),
        (_, QuantileValue::Other) => Err(ComputeError::UpperQuartile),
        (QuantileValue::Float64(lower), QuantileValue::Float64(upper)) => if dtype
            == Dtype::Other {
            Err(ComputeError::UnsupportedDtype)
        } else {
            Ok((lower, upper))
        },
    }
}

/// Checks that the outliers of a column can be told.
pub fn check_quartiles(q1: QuantileValue, q3: QuantileValue, dtype: Dtype) -> (r: Result<
    (F64Bits, F64Bits),
    ComputeError,
>)
    ensures
        r == checked_quartiles(q1, q3, dtype),
{
    let lower: F64Bits = match q1 {
        QuantileValue::Float64(v) => v,
        QuantileValue::Other => {
            return Err(ComputeError::LowerQuartile);
        },
    };
    let upper: F64Bits = match q3 {
        QuantileValue::Float64(v) => v,
        QuantileValue::Other => {
            return Err(ComputeError::UpperQuartile);
        },
    };
    match dtype {
        Dtype::Other => Err(ComputeError::UnsupportedDtype),
        _ => Ok((lower, upper)),
    }
}

/// For each value, whether it is below `threshold`.
pub open spec fn below(values: Seq<Option<i64>>, threshold: i64) -> Seq<Option<bool>> {
    values.map_values(
        |v: Option<i64>|
            match v {
                Some(x) => Some(x < threshold),
                None => None,
            },
    )
}

/// For each value, whether it is above `threshold`.
pub open spec fn above(values: Seq<Option<i64>>, threshold: i64) -> Seq<Option<bool>> {
    values.map_values(
        |v: Option<i64>|
            match v {
                Some(x) => Some(x > threshold),
                None => None,
            },
    )
}

/// Whether one of two conditions holds: it does if one of them is known to, it
/// does not if neither does, and it is not known otherwise.
pub open spec fn one_holds(a: Option<bool>, b: Option<bool>) -> Option<bool> {
    if a == Some(true) || b == Some(true) {
        Some(true)
    } else if a == Some(false) && b == Some(false) {
        Some(false)
    } else {
        None
    }
}

/// For each row, whether the value of the column is below `threshold`.
pub fn below_mask(values: &Vec<Option<i64>>, threshold: i64) -> (r: Vec<Option<bool>>)
    ensures
        r@ == below(values@, threshold),
{
    let mut r: Vec<Option<bool>> = Vec::new();
    let mut i: usize = 0;
    while i < values.len()
        invariant
            i <= values.len(),
            r@ == below(values@, threshold).take(i as int),
        decreases values.len() - i,
    {
        r.push(
            match values[i] {
                Some(x) => Some(x < threshold),
                None => None,
            },
        );
        i = i + 1;
        assert(r@ =~= below(values@, threshold).take(i as int));
    }
    assert(below(values@, threshold).take(i as int) =~= below(values@, threshold));
    r
}

/// For each row, whether the value of the column is above `threshold`.
pub fn above_mask(values: &Vec<Option<i64>>, threshold: i64) -> (r: Vec<Option<bool>>)
    ensures
        r@ == above(values@, threshold),
{
    let mut r: Vec<Option<bool>> = Vec::new();
    let mut i: usize = 0;
    while i < values.len()
        invariant
            i <= values.len(),
            r@ == above(values@, threshold).take(i as int),
        decreases values.len() - i,
    {
        r.push(
            match values[i] {
                Some(x) => Some(x > threshold),
                None => None,
            },
        );
        i = i + 1;
        assert(r@ =~= above(values@, threshold).take(i as int));
    }
    assert(above(values@, threshold).take(i as int) =~= above(values@, threshold));
    r
}

/// The rows to keep: those for which one of the two conditions is known to
/// hold.
pub open spec fn kept(lower: Seq<Option<bool>>, upper: Seq<Option<bool>>) -> Seq<bool> {
    Seq::new(lower.len(), |i: int| one_holds(lower[i], upper[i]) == Some(true))
}

/// The rows with outliers: those that are known to be below the lower threshold
/// or above the upper one.
pub fn outlier_rows(lower: &Vec<Option<bool>>, upper: &Vec<Option<bool>>) -> (r: Vec<bool>)
    requires
        lower.len() == upper.len(),
    ensures
        r@ == kept(lower@, upper@),
{
    let mut r: Vec<bool> = Vec::new();
    let mut i: usize = 0;
    while i < lower.len()
        invariant
            i <= lower.len(),
            lower.len() == upper.len(),
            r@ == kept(lower@, upper@).take(i as int),
        decreases lower.len() - i,
    {
        let below: bool = match lower[i] {
            Some(b) => b,
            None => false,
        };
        let above: bool = match upper[i] {
            Some(b) => b,
            None => false,
        };
        r.push(below || above);
        i = i + 1;
        assert(r@ =~= kept(lower@, upper@).take(i as int));
    }
    assert(kept(lower@, upper@).take(i as int) =~= kept(lower@, upper@));
    r
}

/// The outliers of a column are its values outside of the two thresholds; a
/// missing value is none.
pub proof fn law_outliers(values: Seq<Option<i64>>, lower: i64, upper: i64, i: int)
    requires
        0 <= i < values.len(),
    ensures
        kept(below(values, lower), above(values, upper)).len() == values.len(),
        kept(below(values, lower), above(values, upper))[i] <==> (values[i] matches Some(x) && (x
            < lower || x > upper)),
{
}

/// The bits of negative infinity.
pub const NEG_INFINITY_BITS: F64Bits = 0xfff0_0000_0000_0000;

/// The bits of infinity.
pub const INFINITY_BITS: F64Bits = 0x7ff0_0000_0000_0000;

/// What is kept of a column: without a smallest or a largest value, the
/// infinities bound its values.
pub open spec fn entry_of(
    column: Seq<char>,
    min: Option<F64Bits>,
    max: Option<F64Bits>,
    lower_threshold: F64Bits,
    upper_threshold: F64Bits,
    outliers: Seq<u8>,
) -> OutlierView {
    OutlierView {
        predicate: column,
        min: match min {
            Some(v) => v,
            None => NEG_INFINITY_BITS,
        },
        max: match max {
            Some(v) => v,
            None => INFINITY_BITS,
        },
        lower_threshold,
        upper_threshold,
        outliers: Some(outliers),
    }
}

/// The entry that is kept of a column.
pub fn outlier_entry(
    column: String,
    min: Option<F64Bits>,
    max: Option<F64Bits>,
    lower_threshold: F64Bits,
    upper_threshold: F64Bits,
    outliers: Vec<u8>,
) -> (r: OutlierEntry)
    ensures
        r@ == entry_of(column@, min, max, lower_threshold, upper_threshold, outliers@),
{
    OutlierEntry {
        predicate: column,
        min: min.unwrap_or(NEG_INFINITY_BITS),
        max: max.unwrap_or(INFINITY_BITS),
        lower_threshold,
        upper_threshold,
        outliers: Some(outliers),
    }
}

/// Quartiles that are 64-bit floating-point numbers come out as they went in, the
/// lower as the lower and the upper as the upper, whatever the type of the values
/// is, as long as they can be compared.
pub proof fn law_quartiles_are_kept(q1: QuantileValue, q3: QuantileValue, dtype: Dtype)
    ensures
        checked_quartiles(q1, q3, dtype) is Ok <==> q1 is Float64 && q3 is Float64 && !(
        dtype is Other),
        checked_quartiles(q1, q3, dtype) matches Ok((lower, upper)) ==> q1
            == QuantileValue::Float64(lower) && q3 == QuantileValue::Float64(upper),
{
}

/// Of several reasons why outliers cannot be told, the lower quartile comes
/// before the upper one, and both before the type of the values.
pub proof fn law_first_reason_counts(q1: QuantileValue, q3: QuantileValue, dtype: Dtype)
    ensures
        q1 is Other <==> checked_quartiles(q1, q3, dtype) == Err::<(F64Bits, F64Bits), ComputeError>(
            ComputeError::LowerQuartile,
        ),
        q1 is Float64 && q3 is Other <==> checked_quartiles(q1, q3, dtype) == Err::<
            (F64Bits, F64Bits),
            ComputeError,
        >(ComputeError::UpperQuartile),
        q1 is Float64 && q3 is Float64 && dtype is Other <==> checked_quartiles(q1, q3, dtype)
            == Err::<(F64Bits, F64Bits), ComputeError>(ComputeError::UnsupportedDtype),
{
}

/// The comparisons of a column with a threshold: each value is below it, above it
/// or equal to it, and a missing value has no result.
pub proof fn law_masks(values: Seq<Option<i64>>, threshold: i64, i: int)
    ensures
        below(values, threshold).len() == values.len(),
        above(values, threshold).len() == values.len(),
        0 <= i < values.len() ==> (values[i] is None <==> below(values, threshold)[i] is None),
        0 <= i < values.len() ==> (values[i] is None <==> above(values, threshold)[i] is None),
        0 <= i < values.len() && values[i] is Some ==> {
            let x = values[i].unwrap();
            &&& below(values, threshold)[i] == Some(true) <==> x < threshold
            &&& above(values, threshold)[i] == Some(true) <==> x > threshold
        },
{
}

/// A row is kept if and only if one of its two results is known to be true.
pub proof fn law_kept(lower: Seq<Option<bool>>, upper: Seq<Option<bool>>, i: int)
    requires
        lower.len() == upper.len(),
    ensures
        kept(lower, upper).len() == lower.len(),
        0 <= i < lower.len() ==> (kept(lower, upper)[i] <==> lower[i] == Some(true) || upper[i]
            == Some(true)),
{
}

/// What is kept of a column is what was found of it: its name, its smallest and
/// largest values, the thresholds, and the bytes of its outliers, whatever they
/// are. Without a smallest or largest value there is an infinity in its place.
pub proof fn law_entry_holds_what_was_found(
    column: Seq<char>,
    min: Option<F64Bits>,
    max: Option<F64Bits>,
    lower_threshold: F64Bits,
    upper_threshold: F64Bits,
    outliers: Seq<u8>,
)
    ensures
        ({
            let e = entry_of(column, min, max, lower_threshold, upper_threshold, outliers);
            &&& e.predicate == column
            &&& min is Some ==> e.min == min.unwrap()
            &&& min is None ==> e.min == 0xfff0_0000_0000_0000
            &&& max is Some ==> e.max == max.unwrap()
            &&& max is None ==> e.max == 0x7ff0_0000_0000_0000
            &&& e.lower_threshold == lower_threshold
            &&& e.upper_threshold == upper_threshold
            &&& e.outliers == Some(outliers)
        }),
{
}

} // verus!
