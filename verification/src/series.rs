//! Integer series: the mathematical model that every contract speaks of.
//!
//! A sample is a price in ticks, a whole number of the smallest unit the caller
//! cares to resolve. Executable code holds ticks in `i64`; specifications lift
//! them to unbounded integers so that no formula has to mention overflow.

use vstd::prelude::*;

verus! {

/// The series as unbounded integers.
pub open spec fn as_ints(s: Seq<i64>) -> Seq<int> {
    s.map_values(|x: i64| x as int)
}

/// Whether a value can be stored in an `i64`.
pub open spec fn fits_i64(x: int) -> bool {
    i64::MIN <= x <= i64::MAX
}

/// Whether every value of the series can be stored in an `i64`.
pub open spec fn all_fit_i64(s: Seq<int>) -> bool {
    forall|i: int| 0 <= i < s.len() ==> fits_i64(#[trigger] s[i])
}

} // verus!
