# riskparity

Risk parity portfolio weights by cyclic coordinate descent, verified with
Verus.

Given a positive budget vector `b` summing to one and a covariance matrix
`S` (stored as the lower triangle of a symmetric matrix, packed row after
row), the solver minimises `x^T S x / 2 - sum_i b_i ln(x_i)` one coordinate
at a time and returns the weights scaled to sum to one.

Layout:

- `src/lin_alg.rs`: the packed layout (`row_start`, `packed_index`,
  `diag_index`, `packed_len`) with its laws (symmetry, range, a bijection
  between the lower triangle and the packed positions, reading back packed
  rows), and the quadratic form.
- `src/scalar.rs`: the `Scalar` trait, the arithmetic the solver needs of its
  numbers, each operation specified as a function of its arguments; the
  program instantiates it with `f64` (every result that is not a number
  replaced by one fixed value).
- `src/control.rs`: when the descent stops (sweep limit, stagnation,
  convergence), with its laws.
- `src/input.rs`: reading the budget and the risk matrix from CSV bytes, and
  the checks on their shapes.
- `src/ccd.rs`: the coordinate descent; `src/solve.rs`: the whole pipeline,
  with and without checking its inputs.
- `app/main.rs`: the program: reads `input/budget.csv` and
  `input/risk_matrix.csv`, writes `output/computed_weights.csv`.

The contracts state every result over the spec functions of `Scalar`: which
packed entries combine, in which order, into `x^T S x`, the row products
and each sweep; which field or value decides each error; and the weights as
the result of the descent (`ccd_spec`), which ends after at most 5000
sweeps. Two things are assumed without proof: that each `Scalar` operation
returns its spec function of its arguments (the numbers those functions give
are the scalar type's own, and the tests check them for `f64`), and that the
CSV reader `read_records` in `src/input.rs`, a call of the `csv` crate,
returns `csv_records` of its arguments, a function of them alone.

`ccd::ccd_riskparity` and `solve::solve_from_csv` require inputs that meet
the solver's preconditions (a positive budget summing to one, a lower
triangle of the right shape, positive variances); `solve::check_inputs`
tests them and `solve::solve_checked` refuses the others with the error that
names the first failure.
