// The solver on small portfolios whose risk parity weights are known.

use riskparity::ccd::{ccd_riskparity, variances};
use riskparity::control::{CcdOutcome, TOTAL_STEPS};
use riskparity::error::SolveError;
use riskparity::input::{
    budget_from_csv, budget_from_records, check_budget, parse_fields, risk_from_csv,
    risk_from_records,
};
use riskparity::lin_alg::{packed_index, quad_form};
use riskparity::scalar::{Scalar, Text};
use riskparity::solve::{check_inputs, solve_checked, solve_from_csv};

#[derive(Clone, Copy, Debug, PartialEq)]
struct F64(f64);

impl F64 {
    /// The value, with every value that is not a number replaced by one.
    fn fixed(x: f64) -> F64 {
        if x.is_nan() { F64(f64::NAN) } else { F64(x) }
    }
}

impl Scalar for F64 {
    // The specification functions are read by the verifier only; at run
    // time each stands for the operation it names.
    fn spec_zero() -> Self {
        Self::zero()
    }
    fn spec_one() -> Self {
        Self::one()
    }
    fn spec_from_u64(n: u64) -> Self {
        Self::from_u64(n)
    }
    fn spec_infinity() -> Self {
        Self::infinity()
    }
    fn spec_plus(self, other: Self) -> Self {
        self.plus(other)
    }
    fn spec_minus(self, other: Self) -> Self {
        self.minus(other)
    }
    fn spec_times(self, other: Self) -> Self {
        self.times(other)
    }
    fn spec_divided_by(self, other: Self) -> Self {
        self.divided_by(other)
    }
    fn spec_negated(self) -> Self {
        self.negated()
    }
    fn spec_square(self) -> Self {
        self.square()
    }
    fn spec_sqrt(self) -> Self {
        self.sqrt()
    }
    fn spec_ln(self) -> Self {
        self.ln()
    }
    fn spec_abs(self) -> Self {
        self.abs()
    }
    fn spec_maximum(self, other: Self) -> Self {
        self.maximum(other)
    }
    fn spec_less_than(self, other: Self) -> bool {
        self.less_than(other)
    }
    fn spec_greater_than(self, other: Self) -> bool {
        self.greater_than(other)
    }
    fn spec_at_most(self, other: Self) -> bool {
        self.at_most(other)
    }
    fn spec_total_order_at_most(self, other: Self) -> bool {
        self.total_order_at_most(other)
    }
    fn spec_parse(_text: Text) -> Option<Self> {
        unreachable!("the characters of a text are known to the verifier only")
    }

    fn zero() -> Self {
        F64(0.0)
    }
    fn one() -> Self {
        F64(1.0)
    }
    fn from_u64(n: u64) -> Self {
        F64(n as f64)
    }
    fn infinity() -> Self {
        F64(f64::INFINITY)
    }
    fn plus(self, other: Self) -> Self {
        F64::fixed(self.0 + other.0)
    }
    fn minus(self, other: Self) -> Self {
        F64::fixed(self.0 - other.0)
    }
    fn times(self, other: Self) -> Self {
        F64::fixed(self.0 * other.0)
    }
    fn divided_by(self, other: Self) -> Self {
        F64::fixed(self.0 / other.0)
    }
    fn negated(self) -> Self {
        F64::fixed(-self.0)
    }
    fn square(self) -> Self {
        F64::fixed(self.0.powi(2))
    }
    fn sqrt(self) -> Self {
        F64::fixed(self.0.sqrt())
    }
    fn ln(self) -> Self {
        F64::fixed(self.0.ln())
    }
    fn abs(self) -> Self {
        F64::fixed(self.0.abs())
    }
    fn maximum(self, other: Self) -> Self {
        F64::fixed(self.0.max(other.0))
    }
    fn less_than(self, other: Self) -> bool {
        self.0 < other.0
    }
    fn greater_than(self, other: Self) -> bool {
        self.0 > other.0
    }
    fn at_most(self, other: Self) -> bool {
        self.0 <= other.0
    }
    fn total_order_at_most(self, other: Self) -> bool {
        self.0.total_cmp(&other.0) != std::cmp::Ordering::Greater
    }
    fn parse(text: &str) -> Option<Self> {
        text.trim().parse::<f64>().ok().map(F64::fixed)
    }
}

fn solve_test_case(risk: &[f64], budget: &[f64]) -> Vec<f64> {
    let dim = budget.len();
    assert_eq!(risk.len(), dim * (dim + 1) / 2, "risk matrix has the wrong packed length");

    let mut risk_data = String::new();
    let mut start = 0;
    for row_len in 1..=dim {
        let row = &risk[start..start + row_len];
        risk_data.push_str(&row.iter().map(|x| x.to_string()).collect::<Vec<_>>().join(" "));
        risk_data.push('\n');
        start += row_len;
    }

    let budget_data = budget.iter().map(|x| x.to_string()).collect::<Vec<_>>().join(" ") + "\n";

    solve_from_csv::<F64>(budget_data.as_bytes(), risk_data.as_bytes())
        .unwrap()
        .weights
        .iter()
        .map(|w| w.0)
        .collect()
}

fn vector_equal(actual: &Vec<f64>, expected: &Vec<f64>, tol: f64) {
    assert_eq!(actual.len(), expected.len());
    for (i, (a, e)) in actual.iter().zip(expected).enumerate() {
        assert!((a - e).abs() < tol, "entry {i}: expected {e}, got {a}");
    }
}

#[test]
fn identity_matrix() {
    let weights = solve_test_case(
        &[
            1.0,
            0.0, 1.0,
            0.0, 0.0, 1.0,
        ],
        &[
            25.0 / 38.0,
            9.0 / 38.0,
            4.0 / 38.0,
        ],
    );
    vector_equal(&weights, &vec![0.5, 0.3, 0.2], 1e-7);
}

#[test]
fn diagonal_matrix() {
    let weights = solve_test_case(
        &[
            1.0,
            0.0, 4.0,
            0.0, 0.0, 9.0,
        ],
        &[
            25.0 / 97.0,
            36.0 / 97.0,
            36.0 / 97.0,
        ],
    );
    vector_equal(&weights, &vec![0.5, 0.3, 0.2], 1e-7);
}

#[test]
fn correlated_matrix() {
    let weights = solve_test_case(
        &[
            2.0,
            0.3, 1.5,
            0.2, 0.1, 1.0,
        ],
        &[
            122.0 / 659.0,
            420.0 / 659.0,
            117.0 / 659.0,
        ],
    );
    vector_equal(&weights, &vec![0.2, 0.5, 0.3], 1e-7);
}

#[test]
fn two_asset_correlated_matrix() {
    let budget = vec![
        3.0 / 4.0,
        1.0 / 4.0,
    ];

    let weights = solve_test_case(
        &[
            2.0,
            0.5, 1.0,
        ],
        &budget,
    );

    vector_equal(&weights, &vec![0.6, 0.4], 1e-7);
}

#[test]
fn four_asset_diagonal_matrix() {
    let budget = vec![
        2.0 / 13.0,
        9.0 / 26.0,
        9.0 / 26.0,
        2.0 / 13.0,
    ];
    let weights = solve_test_case(
        &[
            1.0,
            0.0, 4.0,
            0.0, 0.0, 9.0,
            0.0, 0.0, 0.0, 16.0,
        ],
        &budget,
    );

    vector_equal(&weights, &vec![0.4, 0.3, 0.2, 0.1], 1e-7);
}

#[test]
fn four_asset_correlated_matrix() {
    let budget = vec![
        31.0 / 452.0,
        43.0 / 226.0,
        111.0 / 452.0,
        56.0 / 113.0,
    ];

    let weights = solve_test_case(
        &[
            2.0,
            0.2, 1.5,
            0.1, 0.1, 1.0,
            0.1, 0.2, 0.1, 1.2,
        ],
        &budget,
    );

    vector_equal(&weights, &vec![0.1, 0.2, 0.3, 0.4], 1e-7);
}

#[test]
fn five_asset_identity_matrix() {
    let budget = vec![
        2.0 / 5.0,
        5.0 / 18.0,
        8.0 / 45.0,
        1.0 / 10.0,
        2.0 / 45.0,
    ];

    let weights = solve_test_case(
        &[
            1.0,
            0.0, 1.0,
            0.0, 0.0, 1.0,
            0.0, 0.0, 0.0, 1.0,
            0.0, 0.0, 0.0, 0.0, 1.0,
        ],
        &budget,
    );

    vector_equal(&weights, &vec![0.3, 0.25, 0.2, 0.15, 0.1], 1e-7);
}

#[test]
fn five_asset_equal_correlation_matrix() {
    let budget = vec![
        38.0 / 605.0,
        141.0 / 1210.0,
        112.0 / 605.0,
        65.0 / 242.0,
        222.0 / 605.0,
    ];

    let weights = solve_test_case(
        &[
            1.0,
            0.1, 1.0,
            0.1, 0.1, 1.0,
            0.1, 0.1, 0.1, 1.0,
            0.1, 0.1, 0.1, 0.1, 1.0,
        ],
        &budget,
    );

    vector_equal(&weights, &vec![0.1, 0.15, 0.2, 0.25, 0.3], 1e-7);
}

#[test]
fn six_asset_diagonal_matrix() {
    let budget = vec![
        5.0 / 37.0,
        32.0 / 185.0,
        48.0 / 185.0,
        36.0 / 185.0,
        4.0 / 37.0,
        24.0 / 185.0,
    ];

    let weights = solve_test_case(
        &[
            1.0,
            0.0, 2.0,
            0.0, 0.0, 3.0,
            0.0, 0.0, 0.0, 4.0,
            0.0, 0.0, 0.0, 0.0, 5.0,
            0.0, 0.0, 0.0, 0.0, 0.0, 6.0,
        ],
        &budget,
    );

    vector_equal(&weights, &vec![0.25, 0.2, 0.2, 0.15, 0.1, 0.1], 1e-7);
}

#[test]
fn six_asset_tridiagonal_matrix() {
    let budget = vec![
        1.0 / 77.0,
        4.0 / 77.0,
        9.0 / 77.0,
        16.0 / 77.0,
        7.0 / 22.0,
        45.0 / 154.0,
    ];

    let weights = solve_test_case(
        &[
            2.0,
            0.25, 2.0,
            0.0, 0.25, 2.0,
            0.0, 0.0, 0.25, 2.0,
            0.0, 0.0, 0.0, 0.25, 2.0,
            0.0, 0.0, 0.0, 0.0, 0.25, 2.0,
        ],
        &budget,
    );

    vector_equal(&weights, &vec![0.05, 0.1, 0.15, 0.2, 0.25, 0.25], 1e-7);
}

#[test]
fn eight_asset_dense_mixed_covariance() {
    let budget = vec![
        0.0312762445,
        0.0566855118,
        0.1081433001,
        0.1306501834,
        0.2116144699,
        0.1884297202,
        0.1132358793,
        0.1599646908,
    ];

    let weights = solve_test_case(
        &[
            1.2625,
            0.1700, 1.0625,
           -0.1300, 0.2125, 0.9075,
            0.4150, -0.0950, 0.1025, 0.8050,
            0.1900, 0.3150, -0.0500, 0.2725, 1.0550,
            0.0925, 0.1400, 0.4375, -0.0075, 0.1675, 0.9375,
           -0.1700, 0.1375, 0.1175, 0.2325, 0.0275, 0.1375, 0.7250,
            0.3350, 0.0100, 0.1125, 0.1975, 0.2700, -0.1850, 0.0700, 0.8675,
        ],
        &budget,
    );

    vector_equal(&weights, &vec![0.04, 0.07, 0.11, 0.13, 0.16, 0.18, 0.14, 0.17], 1e-7);
}

fn f(values: &[f64]) -> Vec<F64> {
    values.iter().map(|&x| F64(x)).collect()
}

fn plain(values: &[F64]) -> Vec<f64> {
    values.iter().map(|w| w.0).collect()
}

fn strings(fields: &[&str]) -> Vec<String> {
    fields.iter().map(|s| s.to_string()).collect()
}

#[test]
fn quad_form_of_identity() {
    let mat = f(&[1.0, 0.0, 1.0, 0.0, 0.0, 1.0]);
    assert_eq!(quad_form(&mat, &f(&[1.0, 2.0, 3.0])), F64(14.0));
}

#[test]
fn quad_form_uses_both_halves() {
    // [[2, 0.5], [0.5, 1]] at (1, 2): 2 + 2 * 0.5 * 2 + 4 = 8
    let mat = f(&[2.0, 0.5, 1.0]);
    assert_eq!(quad_form(&mat, &f(&[1.0, 2.0])), F64(8.0));
}

#[test]
fn quad_form_of_empty_vector() {
    assert_eq!(quad_form::<F64>(&vec![], &vec![]), F64(0.0));
}

#[test]
fn budget_is_the_last_record() {
    let b: Vec<F64> = budget_from_csv(b"0.5 0.5\n0.25 0.75\n").unwrap();
    assert_eq!(plain(&b), vec![0.25, 0.75]);
}

#[test]
fn budget_fields_are_trimmed_before_parsing() {
    let b: Vec<F64> = budget_from_records(&vec![Some(strings(&[" 0.5", "0.5 "]))]).unwrap();
    assert_eq!(plain(&b), vec![0.5, 0.5]);
}

#[test]
fn unreadable_earlier_budget_records_are_ignored() {
    let b: Vec<F64> = budget_from_records(&vec![None, Some(strings(&["1"]))]).unwrap();
    assert_eq!(plain(&b), vec![1.0]);
}

#[test]
fn missing_budget() {
    assert_eq!(budget_from_csv::<F64>(b""), Err(SolveError::MissingBudget));
    assert_eq!(solve_from_csv::<F64>(b"", b"1\n").err(), Some(SolveError::MissingBudget));
    assert_eq!(solve_checked::<F64>(b"", b"1\n").err(), Some(SolveError::MissingBudget));
}

#[test]
fn unreadable_last_budget_record() {
    // the second record has more fields than the first
    assert_eq!(
        budget_from_csv::<F64>(b"1\n0.5 0.5\n"),
        Err(SolveError::MalformedRecord { record: 1 })
    );
}

#[test]
fn budget_field_not_a_number() {
    assert_eq!(
        budget_from_csv::<F64>(b"0.5 half\n"),
        Err(SolveError::InvalidNumber { record: 0, field: 1 })
    );
}

#[test]
fn parse_fields_reports_first_bad_field() {
    assert_eq!(
        parse_fields::<F64>(&strings(&["1", "x", "y"]), 4),
        Err(SolveError::InvalidNumber { record: 4, field: 1 })
    );
    assert_eq!(plain(&parse_fields::<F64>(&strings(&["1", "2"]), 0).unwrap()), vec![1.0, 2.0]);
}

#[test]
fn empty_budget() {
    assert_eq!(check_budget::<F64>(&vec![]), Err(SolveError::EmptyBudget));
    assert_eq!(budget_from_records::<F64>(&vec![Some(vec![])]), Err(SolveError::EmptyBudget));
}

#[test]
fn budget_entry_not_positive() {
    assert_eq!(
        budget_from_csv::<F64>(b"0.5 0 0.5\n"),
        Err(SolveError::NonPositiveBudget { index: 1 })
    );
    assert_eq!(
        check_budget(&f(&[f64::NAN, 1.0])),
        Err(SolveError::NonPositiveBudget { index: 0 })
    );
}

#[test]
fn budget_above_one() {
    assert_eq!(
        budget_from_csv::<F64>(b"0.75 0.5 -1\n"),
        Err(SolveError::BudgetAboveOne { index: 1 })
    );
}

#[test]
fn budget_not_normalized() {
    assert_eq!(budget_from_csv::<F64>(b"0.25 0.25\n"), Err(SolveError::BudgetNotNormalized));
    // within the absolute tolerance
    assert!(check_budget(&f(&[0.5, 0.5 - 1e-11])).is_ok());
    // outside both tolerances
    assert_eq!(check_budget(&f(&[0.5, 0.5 - 1e-7])), Err(SolveError::BudgetNotNormalized));
}

#[test]
fn risk_rows_are_packed_in_order() {
    let r: Vec<F64> = risk_from_csv(b"1\n0.5 2\n0.1 0.2 3\n", 3).unwrap();
    assert_eq!(plain(&r), vec![1.0, 0.5, 2.0, 0.1, 0.2, 3.0]);
}

#[test]
fn risk_entries_read_from_either_half() {
    let r: Vec<F64> = risk_from_csv(b"1\n0.5 2\n0.1 0.2 3\n", 3).unwrap();
    assert_eq!(r[packed_index(2, 1, 3)], F64(0.2));
    assert_eq!(r[packed_index(1, 2, 3)], F64(0.2));
    assert_eq!(r[packed_index(0, 2, 3)], F64(0.1));
    assert_eq!(r[packed_index(1, 1, 3)], F64(2.0));
}

#[test]
fn risk_fields_are_trimmed() {
    let r: Vec<F64> = risk_from_csv(b"1\n0.5\t 2\t\n", 2).unwrap();
    assert_eq!(plain(&r), vec![1.0, 0.5, 2.0]);
}

#[test]
fn risk_row_of_wrong_length() {
    assert_eq!(
        risk_from_csv::<F64>(b"1\n0 1 0\n", 2),
        Err(SolveError::RowLength { row: 1, found: 3, expected: 2 })
    );
}

#[test]
fn risk_row_number_checked_before_its_length() {
    assert_eq!(
        risk_from_csv::<F64>(b"1\nx 1 0\n", 2),
        Err(SolveError::InvalidNumber { record: 1, field: 0 })
    );
}

#[test]
fn risk_dimension_mismatch() {
    assert_eq!(
        risk_from_csv::<F64>(b"1\n0 1\n", 3),
        Err(SolveError::DimensionMismatch { budget: 3, risk: 2 })
    );
}

#[test]
fn unreadable_risk_record() {
    assert_eq!(
        risk_from_records::<F64>(&vec![Some(strings(&["1"])), None], 2),
        Err(SolveError::MalformedRecord { record: 1 })
    );
    assert_eq!(
        risk_from_csv::<F64>(b"1\n\xff 1\n", 2),
        Err(SolveError::MalformedRecord { record: 1 })
    );
}

#[test]
fn zero_variance() {
    assert_eq!(
        variances(&f(&[1.0, 0.0, 0.0]), 2),
        Err(SolveError::ZeroVariance { asset: 1 })
    );
    assert_eq!(
        solve_checked::<F64>(b"0.5 0.5\n", b"1\n0 0\n").err(),
        Some(SolveError::ZeroVariance { asset: 1 })
    );
}

#[test]
fn variances_are_the_diagonal() {
    let v = variances(&f(&[1.0, 0.5, 2.0, 0.1, 0.2, 3.0]), 3).unwrap();
    assert_eq!(plain(&v), vec![1.0, 2.0, 3.0]);
}

#[test]
fn checked_solve_refuses_in_order() {
    // the budget is refused before the risk matrix is looked at
    assert_eq!(
        check_inputs::<F64>(b"0.25 0.25\n", b"garbage\n"),
        Err(SolveError::BudgetNotNormalized)
    );
    assert_eq!(
        check_inputs::<F64>(b"0.5 0.5\n", b"1\n0 1 0\n"),
        Err(SolveError::RowLength { row: 1, found: 3, expected: 2 })
    );
    assert_eq!(
        check_inputs::<F64>(b"0.5 0.5\n", b"1\n0 1\n0 0 1\n"),
        Err(SolveError::DimensionMismatch { budget: 2, risk: 3 })
    );
    assert_eq!(check_inputs::<F64>(b"0.5 0.5\n", b"1\n0 1\n"), Ok(()));
    let res = solve_checked::<F64>(b"0.5 0.5\n", b"1\n0 1\n").unwrap();
    vector_equal(&plain(&res.weights), &vec![0.5, 0.5], 1e-12);
}

#[test]
fn converged_result_reports_its_accuracy() {
    let res = ccd_riskparity(&f(&[1.0, 0.0, 1.0]), &f(&[0.5, 0.5]));
    assert_eq!(res.outcome, CcdOutcome::Converged);
    assert!(res.peak_accuracy.0 < 1e-8);
    assert!(res.sweeps >= 1);
    vector_equal(&plain(&res.weights), &vec![0.5, 0.5], 1e-12);
}

/// Numbers whose comparisons all fail, as with values that are not numbers.
#[derive(Clone, Copy, Debug, PartialEq)]
struct Incomparable(f64);

impl Scalar for Incomparable {
    // The specification functions are read by the verifier only; at run
    // time each stands for the operation it names.
    fn spec_zero() -> Self {
        Self::zero()
    }
    fn spec_one() -> Self {
        Self::one()
    }
    fn spec_from_u64(n: u64) -> Self {
        Self::from_u64(n)
    }
    fn spec_infinity() -> Self {
        Self::infinity()
    }
    fn spec_plus(self, other: Self) -> Self {
        self.plus(other)
    }
    fn spec_minus(self, other: Self) -> Self {
        self.minus(other)
    }
    fn spec_times(self, other: Self) -> Self {
        self.times(other)
    }
    fn spec_divided_by(self, other: Self) -> Self {
        self.divided_by(other)
    }
    fn spec_negated(self) -> Self {
        self.negated()
    }
    fn spec_square(self) -> Self {
        self.square()
    }
    fn spec_sqrt(self) -> Self {
        self.sqrt()
    }
    fn spec_ln(self) -> Self {
        self.ln()
    }
    fn spec_abs(self) -> Self {
        self.abs()
    }
    fn spec_maximum(self, other: Self) -> Self {
        self.maximum(other)
    }
    fn spec_less_than(self, other: Self) -> bool {
        self.less_than(other)
    }
    fn spec_greater_than(self, other: Self) -> bool {
        self.greater_than(other)
    }
    fn spec_at_most(self, other: Self) -> bool {
        self.at_most(other)
    }
    fn spec_total_order_at_most(self, other: Self) -> bool {
        self.total_order_at_most(other)
    }
    fn spec_parse(_text: Text) -> Option<Self> {
        unreachable!("the characters of a text are known to the verifier only")
    }

    fn zero() -> Self {
        Incomparable(0.0)
    }
    fn one() -> Self {
        Incomparable(1.0)
    }
    fn from_u64(n: u64) -> Self {
        Incomparable(n as f64)
    }
    fn infinity() -> Self {
        Incomparable(f64::INFINITY)
    }
    fn plus(self, other: Self) -> Self {
        Incomparable(self.0 + other.0)
    }
    fn minus(self, other: Self) -> Self {
        Incomparable(self.0 - other.0)
    }
    fn times(self, other: Self) -> Self {
        Incomparable(self.0 * other.0)
    }
    fn divided_by(self, other: Self) -> Self {
        Incomparable(self.0 / other.0)
    }
    fn negated(self) -> Self {
        Incomparable(-self.0)
    }
    fn square(self) -> Self {
        Incomparable(self.0 * self.0)
    }
    fn sqrt(self) -> Self {
        Incomparable(self.0.sqrt())
    }
    fn ln(self) -> Self {
        Incomparable(self.0.ln())
    }
    fn abs(self) -> Self {
        Incomparable(self.0.abs())
    }
    fn maximum(self, other: Self) -> Self {
        Incomparable(self.0.max(other.0))
    }
    fn less_than(self, _other: Self) -> bool {
        false
    }
    fn greater_than(self, _other: Self) -> bool {
        true
    }
    fn at_most(self, _other: Self) -> bool {
        false
    }
    fn total_order_at_most(self, _other: Self) -> bool {
        false
    }
    fn parse(text: &str) -> Option<Self> {
        text.trim().parse::<f64>().ok().map(Incomparable)
    }
}

#[test]
fn exhausted_without_any_best_weights() {
    let risk = vec![Incomparable(1.0), Incomparable(0.0), Incomparable(1.0)];
    let budget = vec![Incomparable(0.5), Incomparable(0.5)];
    let res = ccd_riskparity(&risk, &budget);
    assert_eq!(res.outcome, CcdOutcome::Exhausted);
    assert_eq!(res.sweeps, TOTAL_STEPS);
    assert!(res.weights.is_empty());
}

#[test]
fn quad_form_ignores_entries_past_the_triangle() {
    let mat = f(&[2.0, 0.5, 1.0]);
    let longer = f(&[2.0, 0.5, 1.0, f64::NAN, 7.0]);
    let x = f(&[1.0, 2.0]);
    assert_eq!(quad_form(&mat, &x), quad_form(&longer, &x));
}

#[test]
fn solver_reads_only_the_packed_triangle() {
    let budget = f(&[0.75, 0.25]);
    let exact = ccd_riskparity(&f(&[2.0, 0.5, 1.0]), &budget);
    let longer = ccd_riskparity(&f(&[2.0, 0.5, 1.0, f64::NAN, -3.0]), &budget);
    assert_eq!(plain(&exact.weights), plain(&longer.weights));
    assert_eq!(exact.outcome, longer.outcome);
    assert_eq!(exact.sweeps, longer.sweeps);
    vector_equal(&plain(&exact.weights), &vec![0.6, 0.4], 1e-7);
}

#[test]
fn earlier_budget_lines_do_not_matter() {
    let one: Vec<F64> = budget_from_csv(b"0.25 0.75\n").unwrap();
    let many: Vec<F64> = budget_from_csv(b"9 9\nx y\n0.25 0.75\n").unwrap();
    assert_eq!(one, many);
}

#[test]
fn negative_variance_is_refused() {
    assert_eq!(
        variances(&f(&[-1.0, 0.0, 1.0]), 2),
        Err(SolveError::ZeroVariance { asset: 0 })
    );
}
