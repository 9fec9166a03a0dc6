//! Why an input is refused.

use vstd::prelude::*;

verus! {

/// Why the solver refused its input.
///
/// `MalformedRecord`, `MissingBudget` and `InvalidNumber` are errors to
/// report; the others mark inputs that break the solver's preconditions
/// (a budget that is not a positive vector summing to one, a risk matrix
/// of the wrong shape, an asset without variance).
#[derive(Clone, Copy, Debug, PartialEq, Eq)]
pub enum SolveError {
    /// The CSV record at this position (counted from 0) could not be read.
    MalformedRecord { record: usize },
    /// The budget input holds no record.
    MissingBudget,
    /// This field of this record is not a number.
    InvalidNumber { record: usize, field: usize },
    /// The budget vector has no entry.
    EmptyBudget,
    /// This budget entry is not positive.
    NonPositiveBudget { index: usize },
    /// The budget entries up to this one already sum to more than one.
    BudgetAboveOne { index: usize },
    /// The budget entries do not sum to one, to the tolerances.
    BudgetNotNormalized,
    /// Row `row` of the lower triangle has `found` entries, not `expected`.
    RowLength { row: usize, found: usize, expected: usize },
    /// The budget has `budget` entries, the risk matrix `risk` rows.
    DimensionMismatch { budget: usize, risk: usize },
    /// The variance (diagonal entry) of this asset is not positive.
    ZeroVariance { asset: usize },
}

} // verus!
