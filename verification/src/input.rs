//! Reading the budget vector and the packed risk matrix from CSV text.
//!
//! Both inputs are space-separated CSV without a header row. The budget is
//! the last record; the risk matrix is the lower triangle of a symmetric
//! matrix, one row per record, fields trimmed of whitespace.

use vstd::prelude::*;

use crate::control::{TOL_O_INVERSE, TOL_W_INVERSE};
use crate::error::SolveError;
use crate::lin_alg::{flatten, is_lower_triangle, lemma_flatten_len, tri};
use crate::scalar::{reciprocal, spec_reciprocal, Scalar};

verus! {

/// The records that a `csv` reader reads from `bytes` with the field
/// delimiter `delimiter`, the first record taken as a header row when
/// `has_headers`, fields trimmed of whitespace when `trim_fields`, and
/// records of differing lengths accepted when `flexible`; a record that
/// could not be read is `None`.
pub uninterp spec fn csv_records(
    bytes: Seq<u8>,
    delimiter: u8,
    has_headers: bool,
    trim_fields: bool,
    flexible: bool,
) -> Seq<Option<Seq<Seq<char>>>>;

/// Reads every record of `bytes` with a reader that `csv::ReaderBuilder`
/// configures from the arguments (`Trim::All` when `trim_fields`, else
/// `Trim::None`), through its `records()` iterator, which goes on after a
/// record that fails. Claimed: the result is `csv_records` of the
/// arguments, a function of them alone; nothing is claimed of the CSV
/// grammar itself.
#[verifier::external_body]
fn read_records(
    bytes: &[u8],
    delimiter: u8,
    has_headers: bool,
    trim_fields: bool,
    flexible: bool,
) -> (records: Vec<Option<Vec<String>>>)
    ensures
        records.deep_view() == csv_records(bytes@, delimiter, has_headers, trim_fields, flexible),
{
    let trim = if trim_fields { csv::Trim::All } else { csv::Trim::None };
    csv::ReaderBuilder::new().has_headers(has_headers).delimiter(delimiter).trim(trim).flexible(
        flexible,
    ).from_reader(bytes).records().map(
        |r| r.ok().map(|rec| rec.iter().map(|f| f.to_string()).collect()),
    ).collect()
}

/// Fields of both inputs are separated by single spaces.
pub const FIELD_DELIMITER: u8 = 32;

/// The records of the budget input: no header row, fields kept as they are,
/// every record as long as the first.
pub open spec fn budget_records(bytes: Seq<u8>) -> Seq<Option<Seq<Seq<char>>>> {
    csv_records(bytes, FIELD_DELIMITER, false, false, false)
}

/// The records of the risk input: no header row, fields trimmed of
/// whitespace, records of any length.
pub open spec fn risk_records(bytes: Seq<u8>) -> Seq<Option<Seq<Seq<char>>>> {
    csv_records(bytes, FIELD_DELIMITER, false, true, true)
}

/// Record `k` was read and holds `k + 1` fields: row `k` of a lower
/// triangle.
pub open spec fn record_is_row(records: Seq<Option<Seq<Seq<char>>>>, k: int) -> bool {
    &&& records[k] is Some
    &&& records[k]->0.len() == k + 1
}

/// The records before `k` are rows of a lower triangle.
pub open spec fn rows_before(records: Seq<Option<Seq<Seq<char>>>>, k: int) -> bool {
    forall|j: int| #![trigger records[j]] 0 <= j < k ==> record_is_row(records, j)
}

/// A result of the library against a result of its specification: equal,
/// vectors taken by their contents.
pub open spec fn result_matches<S>(r: Result<Vec<S>, SolveError>, s: Result<Seq<S>, SolveError>) -> bool {
    match r {
        Ok(v) => s is Ok && v@ == s->Ok_0,
        Err(e) => s == Err::<Seq<S>, SolveError>(e),
    }
}

/// Reading the first `n` fields of record `record` as numbers, in order: the
/// numbers, or the first field that is not one.
pub open spec fn parse_prefix<S: Scalar>(fields: Seq<Seq<char>>, n: nat, record: usize) -> Result<
    Seq<S>,
    SolveError,
>
    decreases n,
{
    if n == 0 {
        Ok(Seq::empty())
    } else {
        let k = (n - 1) as nat;
        match parse_prefix::<S>(fields, k, record) {
            Err(e) => Err(e),
            Ok(v) => match S::spec_parse(fields[k as int]) {
                None => Err(SolveError::InvalidNumber { record, field: k as usize }),
                Some(x) => Ok(v.push(x)),
            },
        }
    }
}

/// Reading all fields of record `record` as numbers.
pub open spec fn parse_spec<S: Scalar>(fields: Seq<Seq<char>>, record: usize) -> Result<
    Seq<S>,
    SolveError,
> {
    parse_prefix::<S>(fields, fields.len(), record)
}

/// Reading fields succeeds exactly when every field is a number, gives the
/// numbers in order, and otherwise reports the first field that is not one.
pub proof fn lemma_parse_prefix<S: Scalar>(fields: Seq<Seq<char>>, n: nat, record: usize)
    requires
        n <= fields.len(),
        n <= usize::MAX,
    ensures
        parse_prefix::<S>(fields, n, record) is Ok <==> (forall|k: int|
            0 <= k < n ==> #[trigger] S::spec_parse(fields[k]) is Some),
        parse_prefix::<S>(fields, n, record) is Ok ==> parse_prefix::<S>(fields, n, record)->Ok_0
            == Seq::new(n, |k: int| S::spec_parse(fields[k])->0),
        parse_prefix::<S>(fields, n, record) is Err ==> (parse_prefix::<S>(
            fields,
            n,
            record,
        )->Err_0 matches SolveError::InvalidNumber { record: rec, field } && rec == record
            && field < n && S::spec_parse(fields[field as int]) is None && forall|k: int|
            0 <= k < field ==> #[trigger] S::spec_parse(fields[k]) is Some),
    decreases n,
{
    if n > 0 {
        let k = (n - 1) as nat;
        lemma_parse_prefix::<S>(fields, k, record);
        if parse_prefix::<S>(fields, k, record) is Err {
            let e = parse_prefix::<S>(fields, k, record)->Err_0;
            assert(parse_prefix::<S>(fields, n, record) == Err::<Seq<S>, SolveError>(e));
        } else if S::spec_parse(fields[k as int]) is None {
            assert(parse_prefix::<S>(fields, n, record) == Err::<Seq<S>, SolveError>(
                SolveError::InvalidNumber { record, field: k as usize },
            ));
        }
        if parse_prefix::<S>(fields, n, record) is Ok {
            assert(parse_prefix::<S>(fields, n, record)->Ok_0 =~= Seq::new(
                n,
                |j: int| S::spec_parse(fields[j])->0,
            ));
        }
    }
}

/// Once reading a prefix of the fields fails, reading a longer prefix fails
/// the same way.
proof fn lemma_parse_prefix_err_stays<S: Scalar>(
    fields: Seq<Seq<char>>,
    n: nat,
    m: nat,
    record: usize,
)
    requires
        n <= m,
        parse_prefix::<S>(fields, n, record) is Err,
    ensures
        parse_prefix::<S>(fields, m, record) == parse_prefix::<S>(fields, n, record),
    decreases m - n,
{
    if n < m {
        lemma_parse_prefix_err_stays::<S>(fields, n, (m - 1) as nat, record);
    }
}

/// The sum `b[0] + .. + b[k - 1]`, added from zero in order.
pub open spec fn prefix_sum<S: Scalar>(b: Seq<S>, k: nat) -> S
    decreases k,
{
    if k == 0 {
        S::spec_zero()
    } else {
        prefix_sum(b, (k - 1) as nat).spec_plus(b[k - 1])
    }
}

/// The sum is one to within `1 / TOL_O_INVERSE`, or to within
/// `1 / TOL_W_INVERSE` relative to `max(|sum|, 1)`.
pub open spec fn sums_to_one<S: Scalar>(sum: S) -> bool {
    let one = S::spec_one();
    let diff = one.spec_minus(sum).spec_abs();
    diff.spec_at_most(spec_reciprocal::<S>(TOL_O_INVERSE)) || diff.spec_at_most(
        spec_reciprocal::<S>(TOL_W_INVERSE).spec_times(sum.spec_abs().spec_maximum(one)),
    )
}

/// The budget checks from entry `k` on: each entry must be positive and the
/// running sum must not pass one; at the end the sum must be one.
pub open spec fn budget_checks_from<S: Scalar>(b: Seq<S>, k: nat) -> Result<(), SolveError>
    decreases b.len() - k,
{
    if k >= b.len() {
        if sums_to_one(prefix_sum(b, b.len())) {
            Ok(())
        } else {
            Err(SolveError::BudgetNotNormalized)
        }
    } else if !b[k as int].spec_greater_than(S::spec_zero()) {
        Err(SolveError::NonPositiveBudget { index: k as usize })
    } else if prefix_sum(b, k + 1).spec_greater_than(S::spec_one()) {
        Err(SolveError::BudgetAboveOne { index: k as usize })
    } else {
        budget_checks_from(b, k + 1)
    }
}

/// Entry `k` of the budget is positive.
pub open spec fn entry_positive<S: Scalar>(b: Seq<S>, k: int) -> bool {
    b[k].spec_greater_than(S::spec_zero())
}

/// The running sum up to and including entry `k` does not pass one.
pub open spec fn running_sum_at_most_one<S: Scalar>(b: Seq<S>, k: int) -> bool {
    !prefix_sum(b, (k + 1) as nat).spec_greater_than(S::spec_one())
}

/// The entries from `k` on are positive and keep the running sum at most one.
pub open spec fn entries_sound_from<S: Scalar>(b: Seq<S>, k: int, end: int) -> bool {
    forall|j: int|
        k <= j < end ==> #[trigger] entry_positive(b, j) && running_sum_at_most_one(b, j)
}

/// `|1 - sum| <= 1e-10`, the absolute tolerance on the budget's sum.
pub open spec fn within_absolute_tolerance<S: Scalar>(sum: S) -> bool {
    S::spec_one().spec_minus(sum).spec_abs().spec_at_most(
        S::spec_one().spec_divided_by(S::spec_from_u64(10_000_000_000)),
    )
}

/// `|1 - sum| <= 1e-8 * max(|sum|, 1)`, the relative tolerance on the
/// budget's sum.
pub open spec fn within_relative_tolerance<S: Scalar>(sum: S) -> bool {
    S::spec_one().spec_minus(sum).spec_abs().spec_at_most(
        S::spec_one().spec_divided_by(S::spec_from_u64(100_000_000)).spec_times(
            sum.spec_abs().spec_maximum(S::spec_one()),
        ),
    )
}

proof fn lemma_checks_from_accepts<S: Scalar>(b: Seq<S>, k: nat)
    requires
        k <= b.len(),
        entries_sound_from(b, k as int, b.len() as int),
        within_absolute_tolerance(prefix_sum(b, b.len()))
            || within_relative_tolerance(prefix_sum(b, b.len())),
    ensures
        budget_checks_from(b, k) == Ok::<(), SolveError>(()),
    decreases b.len() - k,
{
    if k < b.len() {
        assert(entry_positive(b, k as int) && running_sum_at_most_one(b, k as int));
        lemma_checks_from_accepts(b, k + 1);
    }
}

proof fn lemma_checks_from_sound<S: Scalar>(b: Seq<S>, k: nat)
    requires
        k <= b.len(),
        b.len() <= usize::MAX,
    ensures
        budget_checks_from(b, k) is Ok ==> entries_sound_from(b, k as int, b.len() as int) && (
        within_absolute_tolerance(prefix_sum(b, b.len())) || within_relative_tolerance(
            prefix_sum(b, b.len()),
        )),
        budget_checks_from(b, k) is Err ==> match budget_checks_from(b, k)->Err_0 {
            SolveError::NonPositiveBudget { index } => k <= index < b.len()
                && entries_sound_from(b, k as int, index as int) && !entry_positive(
                b,
                index as int,
            ),
            SolveError::BudgetAboveOne { index } => k <= index < b.len() && entries_sound_from(
                b,
                k as int,
                index as int,
            ) && entry_positive(b, index as int) && !running_sum_at_most_one(b, index as int),
            SolveError::BudgetNotNormalized => entries_sound_from(b, k as int, b.len() as int)
                && !within_absolute_tolerance(prefix_sum(b, b.len()))
                && !within_relative_tolerance(prefix_sum(b, b.len())),
            _ => false,
        },
    decreases b.len() - k,
{
    if k < b.len() {
        lemma_checks_from_sound(b, k + 1);
        if entry_positive(b, k as int) && running_sum_at_most_one(b, k as int) {
            assert(budget_checks_from(b, k) == budget_checks_from(b, k + 1));
            assert forall|e: int| k + 1 <= e <= b.len() && entries_sound_from(b, (k + 1) as int, e)
                implies entries_sound_from(b, k as int, e) by {
                assert forall|j: int| k <= j < e implies #[trigger] entry_positive(b, j)
                    && running_sum_at_most_one(b, j) by {
                    if j > k {
                        assert(entry_positive(b, j) && running_sum_at_most_one(b, j));
                    }
                }
            }
            if budget_checks_from(b, k) is Err {
                match budget_checks_from(b, k)->Err_0 {
                    SolveError::NonPositiveBudget { index } => {
                        assert(entries_sound_from(b, k as int, index as int));
                    },
                    SolveError::BudgetAboveOne { index } => {
                        assert(entries_sound_from(b, k as int, index as int));
                    },
                    _ => {},
                }
            }
        }
    }
}

/// A budget is accepted exactly when it has an entry, every entry is
/// positive, no running sum passes one, and its sum is one to within the
/// absolute tolerance 1e-10 or the relative tolerance
/// `1e-8 * max(|sum|, 1)`: either tolerance suffices.
pub proof fn lemma_budget_accepted_iff<S: Scalar>(b: Seq<S>)
    requires
        b.len() <= usize::MAX,
    ensures
        check_budget_spec(b) is Ok <==> (b.len() > 0 && entries_sound_from(b, 0, b.len() as int)
            && (within_absolute_tolerance(prefix_sum(b, b.len())) || within_relative_tolerance(
            prefix_sum(b, b.len()),
        ))),
{
    lemma_checks_from_sound(b, 0);
    if b.len() > 0 && entries_sound_from(b, 0, b.len() as int) && (within_absolute_tolerance(
        prefix_sum(b, b.len()),
    ) || within_relative_tolerance(prefix_sum(b, b.len()))) {
        lemma_checks_from_accepts(b, 0);
    }
}

/// A refused budget is refused for its first fault: an empty budget; the
/// first entry that is not positive; the first entry at which the running
/// sum passes one; or, all entries being sound, a sum off one by both
/// tolerances.
pub proof fn lemma_budget_refusal_names_first_fault<S: Scalar>(b: Seq<S>)
    requires
        b.len() <= usize::MAX,
        check_budget_spec(b) is Err,
    ensures
        match check_budget_spec(b)->Err_0 {
            SolveError::EmptyBudget => b.len() == 0,
            SolveError::NonPositiveBudget { index } => index < b.len() && entries_sound_from(
                b,
                0,
                index as int,
            ) && !entry_positive(b, index as int),
            SolveError::BudgetAboveOne { index } => index < b.len() && entries_sound_from(
                b,
                0,
                index as int,
            ) && entry_positive(b, index as int) && !running_sum_at_most_one(b, index as int),
            SolveError::BudgetNotNormalized => b.len() > 0 && entries_sound_from(
                b,
                0,
                b.len() as int,
            ) && !within_absolute_tolerance(prefix_sum(b, b.len()))
                && !within_relative_tolerance(prefix_sum(b, b.len())),
            _ => false,
        },
{
    lemma_checks_from_sound(b, 0);
}

/// What `check_budget` gives for the budget `b`.
pub open spec fn check_budget_spec<S: Scalar>(b: Seq<S>) -> Result<(), SolveError> {
    if b.len() == 0 {
        Err(SolveError::EmptyBudget)
    } else {
        budget_checks_from(b, 0)
    }
}

/// The budget read from the records of the budget input: the last record,
/// its fields read as numbers, then checked.
pub open spec fn budget_spec<S: Scalar>(recs: Seq<Option<Seq<Seq<char>>>>) -> Result<
    Seq<S>,
    SolveError,
> {
    if recs.len() == 0 {
        Err(SolveError::MissingBudget)
    } else {
        match recs.last() {
            None => Err(SolveError::MalformedRecord { record: (recs.len() - 1) as usize }),
            Some(f) => if f.len() == 0 {
                Err(SolveError::EmptyBudget)
            } else {
                match parse_spec::<S>(f, (recs.len() - 1) as usize) {
                    Err(e) => Err(e),
                    Ok(b) => match check_budget_spec(b) {
                        Err(e) => Err(e),
                        Ok(_) => Ok(b),
                    },
                }
            },
        }
    }
}

/// Earlier records of the budget input do not matter: two inputs whose last
/// records agree give the same budget when either gives one, and the same
/// result outright when they hold as many records (an error names the
/// record's position).
pub proof fn lemma_budget_reads_last_record<S: Scalar>(
    recs1: Seq<Option<Seq<Seq<char>>>>,
    recs2: Seq<Option<Seq<Seq<char>>>>,
)
    requires
        recs1.len() > 0,
        recs2.len() > 0,
        recs1.len() <= usize::MAX,
        recs2.len() <= usize::MAX,
        recs1.last() is Some ==> recs1.last()->0.len() <= usize::MAX,
        recs1.last() == recs2.last(),
    ensures
        recs1.len() == recs2.len() ==> budget_spec::<S>(recs1) == budget_spec::<S>(recs2),
        budget_spec::<S>(recs1) is Ok ==> budget_spec::<S>(recs2) == budget_spec::<S>(recs1),
{
    if let Some(f) = recs1.last() {
        if f.len() > 0 {
            lemma_parse_prefix::<S>(f, f.len(), (recs1.len() - 1) as usize);
            lemma_parse_prefix::<S>(f, f.len(), (recs2.len() - 1) as usize);
        }
    }
}

/// The rows of the risk matrix read from the first `n` records, in order,
/// or the first failure: a record not read, a field not a number, a row of
/// the wrong length.
pub open spec fn risk_rows<S: Scalar>(recs: Seq<Option<Seq<Seq<char>>>>, n: nat) -> Result<
    Seq<Seq<S>>,
    SolveError,
>
    decreases n,
{
    if n == 0 {
        Ok(Seq::empty())
    } else {
        let k = (n - 1) as nat;
        match risk_rows::<S>(recs, k) {
            Err(e) => Err(e),
            Ok(rows) => match recs[k as int] {
                None => Err(SolveError::MalformedRecord { record: k as usize }),
                Some(f) => match parse_spec::<S>(f, k as usize) {
                    Err(e) => Err(e),
                    Ok(row) => if row.len() != n {
                        Err(
                            SolveError::RowLength {
                                row: k as usize,
                                found: row.len() as usize,
                                expected: n as usize,
                            },
                        )
                    } else {
                        Ok(rows.push(row))
                    },
                },
            },
        }
    }
}

/// Once reading the first rows fails, reading more rows fails the same way.
proof fn lemma_risk_rows_err_stays<S: Scalar>(recs: Seq<Option<Seq<Seq<char>>>>, n: nat, m: nat)
    requires
        n <= m,
        risk_rows::<S>(recs, n) is Err,
    ensures
        risk_rows::<S>(recs, m) == risk_rows::<S>(recs, n),
    decreases m - n,
{
    if n < m {
        lemma_risk_rows_err_stays::<S>(recs, n, (m - 1) as nat);
    }
}

/// The packed risk matrix read from the records of the risk input, for a
/// budget of `dim` entries: the rows laid one after the other.
pub open spec fn risk_spec<S: Scalar>(recs: Seq<Option<Seq<Seq<char>>>>, dim: usize) -> Result<
    Seq<S>,
    SolveError,
> {
    match risk_rows::<S>(recs, recs.len()) {
        Err(e) => Err(e),
        Ok(rows) => if recs.len() != dim {
            Err(SolveError::DimensionMismatch { budget: dim, risk: recs.len() as usize })
        } else {
            Ok(flatten(rows))
        },
    }
}

/// The numbers written in the fields of record `record`, in order; the
/// first field that is not a number is reported.
pub fn parse_fields<S: Scalar>(fields: &Vec<String>, record: usize) -> (r: Result<
    Vec<S>,
    SolveError,
>)
    ensures
        result_matches(r, parse_spec::<S>(fields.deep_view(), record)),
        r is Ok <==> forall|k: int|
            0 <= k < fields.len() ==> #[trigger] S::spec_parse(fields[k]@) is Some,
        r is Ok ==> r->Ok_0@ == Seq::new(fields.len() as nat, |k: int| S::spec_parse(fields[k]@)->0),
        r is Err ==> (r->Err_0 matches SolveError::InvalidNumber { record: rec, field } && rec
            == record && field < fields.len() && S::spec_parse(fields[field as int]@) is None
            && forall|k: int| 0 <= k < field ==> #[trigger] S::spec_parse(fields[k]@) is Some),
{
    let ghost view = fields.deep_view();
    proof {
        assert forall|k: int| 0 <= k < fields.len() implies view[k] == #[trigger] fields[k]@ by {}
        lemma_parse_prefix::<S>(view, fields.len() as nat, record);
    }
    let mut values: Vec<S> = Vec::new();
    let mut k: usize = 0;
    while k < fields.len()
        invariant
            k <= fields.len(),
            view == fields.deep_view(),
            parse_prefix::<S>(view, k as nat, record) == Ok::<Seq<S>, SolveError>(values@),
        decreases fields.len() - k,
    {
        proof {
            assert(view[k as int] == fields[k as int]@);
        }
        match S::parse(fields[k].as_str()) {
            Some(x) => values.push(x),
            None => {
                proof {
                    lemma_parse_prefix_err_stays::<S>(
                        view,
                        (k + 1) as nat,
                        fields.len() as nat,
                        record,
                    );
                    lemma_parse_prefix::<S>(view, fields.len() as nat, record);
                    assert forall|j: int| 0 <= j < fields.len() implies view[j]
                        == #[trigger] fields[j]@ by {}
                }
                return Err(SolveError::InvalidNumber { record, field: k });
            },
        }
        k = k + 1;
    }
    Ok(values)
}

/// Checks a budget vector: it has an entry, every entry is positive, the
/// running sum never exceeds one, and the sum is one to within an absolute
/// tolerance `1 / TOL_O_INVERSE` or a tolerance `1 / TOL_W_INVERSE` relative
/// to `max(|sum|, 1)`. The first failing check is reported.
pub fn check_budget<S: Scalar>(budget: &Vec<S>) -> (r: Result<(), SolveError>)
    ensures
        r == check_budget_spec(budget@),
        (r == Err::<(), SolveError>(SolveError::EmptyBudget)) == (budget.len() == 0),
        r is Ok <==> (budget.len() > 0 && entries_sound_from(budget@, 0, budget.len() as int)
            && (within_absolute_tolerance(prefix_sum(budget@, budget.len() as nat))
            || within_relative_tolerance(prefix_sum(budget@, budget.len() as nat)))),
        r is Ok ==> forall|k: int| 0 <= k < budget.len() ==> #[trigger] entry_positive(budget@, k),
{
    proof {
        lemma_budget_accepted_iff(budget@);
    }
    if budget.len() == 0 {
        return Err(SolveError::EmptyBudget);
    }
    let zero = S::zero();
    let one = S::one();
    let mut sum = S::zero();
    let mut k: usize = 0;
    while k < budget.len()
        invariant
            k <= budget.len(),
            budget.len() > 0,
            check_budget_spec(budget@) is Ok <==> (budget.len() > 0 && entries_sound_from(
                budget@,
                0,
                budget.len() as int,
            ) && (within_absolute_tolerance(prefix_sum(budget@, budget.len() as nat))
                || within_relative_tolerance(prefix_sum(budget@, budget.len() as nat)))),
            zero == S::spec_zero(),
            one == S::spec_one(),
            sum == prefix_sum(budget@, k as nat),
            check_budget_spec(budget@) == budget_checks_from(budget@, k as nat),
        decreases budget.len() - k,
    {
        let b = budget[k];
        if !b.greater_than(zero) {
            return Err(SolveError::NonPositiveBudget { index: k });
        }
        sum = sum.plus(b);
        if sum.greater_than(one) {
            return Err(SolveError::BudgetAboveOne { index: k });
        }
        k = k + 1;
    }
    let diff = one.minus(sum).abs();
    let tol_o: S = reciprocal(TOL_O_INVERSE);
    let tol_w: S = reciprocal(TOL_W_INVERSE);
    if diff.at_most(tol_o) || diff.at_most(tol_w.times(sum.abs().maximum(one))) {
        Ok(())
    } else {
        Err(SolveError::BudgetNotNormalized)
    }
}

/// The budget vector from the records of the budget input: the last
/// record, its fields read as numbers, then checked by `check_budget`.
/// Earlier records, read or not, are ignored.
pub fn budget_from_records<S: Scalar>(records: &Vec<Option<Vec<String>>>) -> (r: Result<
    Vec<S>,
    SolveError,
>)
    ensures
        result_matches(r, budget_spec::<S>(records.deep_view())),
{
    let ghost recs = records.deep_view();
    let n = records.len();
    if n == 0 {
        return Err(SolveError::MissingBudget);
    }
    proof {
        assert(recs.last() == records[n - 1].deep_view());
    }
    match &records[n - 1] {
        None => Err(SolveError::MalformedRecord { record: n - 1 }),
        Some(fields) => {
            proof {
                assert(recs.last()->0 == fields.deep_view());
            }
            if fields.len() == 0 {
                return Err(SolveError::EmptyBudget);
            }
            match parse_fields(fields, n - 1) {
                Err(e) => Err(e),
                Ok(budget) => match check_budget(&budget) {
                    Err(e) => Err(e),
                    Ok(()) => Ok(budget),
                },
            }
        },
    }
}

/// The budget vector read from the bytes of the budget input (see
/// `budget_records` and `budget_from_records`).
pub fn budget_from_csv<S: Scalar>(bytes: &[u8]) -> (r: Result<Vec<S>, SolveError>)
    ensures
        result_matches(r, budget_spec::<S>(budget_records(bytes@))),
{
    let records = read_records(bytes, FIELD_DELIMITER, false, false, false);
    budget_from_records(&records)
}

/// What `risk_from_records` promises of its result for the records `recs`
/// and a budget of `dim` entries: the records are read in order and the
/// first that fails decides the error; the row count is checked last.
pub open spec fn risk_result_spec<S>(
    recs: Seq<Option<Seq<Seq<char>>>>,
    dim: usize,
    r: Result<Vec<S>, SolveError>,
) -> bool {
    &&& r is Ok ==> rows_before(recs, recs.len() as int) && recs.len() == dim && r->Ok_0.len()
        == tri(dim as nat)
    &&& r is Err ==> match r->Err_0 {
        SolveError::MalformedRecord { record } => record < recs.len() && rows_before(
            recs,
            record as int,
        ) && recs[record as int] is None,
        SolveError::InvalidNumber { record, field } => record < recs.len() && rows_before(
            recs,
            record as int,
        ) && recs[record as int] is Some && field < recs[record as int]->0.len(),
        SolveError::RowLength { row, found, expected } => row < recs.len() && rows_before(
            recs,
            row as int,
        ) && recs[row as int] is Some && found == recs[row as int]->0.len() && expected == row
            + 1 && found != expected,
        SolveError::DimensionMismatch { budget, risk } => rows_before(recs, recs.len() as int)
            && budget == dim && risk == recs.len() && risk != dim,
        _ => false,
    }
}

/// The packed risk matrix from the records of the risk input: record `k`
/// is row `k` of the lower triangle and must hold `k + 1` numbers; the rows
/// are laid one after the other, and there must be as many as the budget
/// has entries (`dim`).
pub fn risk_from_records<S: Scalar>(records: &Vec<Option<Vec<String>>>, dim: usize) -> (r: Result<
    Vec<S>,
    SolveError,
>)
    ensures
        result_matches(r, risk_spec::<S>(records.deep_view(), dim)),
        risk_result_spec(records.deep_view(), dim, r),
{
    let ghost recs = records.deep_view();
    let mut risk: Vec<S> = Vec::new();
    let ghost mut rows: Seq<Seq<S>> = Seq::empty();
    let mut n: usize = 0;
    while n < records.len()
        invariant
            recs == records.deep_view(),
            n <= records.len(),
            rows_before(recs, n as int),
            rows.len() == n,
            is_lower_triangle(rows),
            risk@ == flatten(rows),
            risk_rows::<S>(recs, n as nat) == Ok::<Seq<Seq<S>>, SolveError>(rows),
        decreases records.len() - n,
    {
        proof {
            assert(recs[n as int] == records[n as int].deep_view());
        }
        match &records[n] {
            None => {
                proof {
                    lemma_risk_rows_err_stays::<S>(recs, (n + 1) as nat, recs.len());
                }
                return Err(SolveError::MalformedRecord { record: n });
            },
            Some(fields) => {
                proof {
                    assert(recs[n as int]->0 == fields.deep_view());
                    assert(recs[n as int]->0.len() == fields.len());
                }
                let row: Vec<S> = match parse_fields(fields, n) {
                    Err(e) => {
                        proof {
                            lemma_risk_rows_err_stays::<S>(recs, (n + 1) as nat, recs.len());
                        }
                        return Err(e);
                    },
                    Ok(row) => row,
                };
                if row.len() != n + 1 {
                    proof {
                        lemma_risk_rows_err_stays::<S>(recs, (n + 1) as nat, recs.len());
                    }
                    return Err(
                        SolveError::RowLength { row: n, found: row.len(), expected: n + 1 },
                    );
                }
                let ghost before = risk@;
                let mut m: usize = 0;
                while m < row.len()
                    invariant
                        m <= row.len(),
                        risk@ == before + row@.take(m as int),
                    decreases row.len() - m,
                {
                    risk.push(row[m]);
                    m = m + 1;
                    assert(risk@ == before + row@.take(m as int));
                }
                proof {
                    assert(row@.take(row.len() as int) == row@);
                    let next = rows.push(row@);
                    assert(next.drop_last() == rows);
                    assert(is_lower_triangle(next)) by {
                        assert forall|k: int| 0 <= k < next.len() implies #[trigger] next[k].len()
                            == k + 1 by {
                            if k < rows.len() {
                                assert(next[k] == rows[k]);
                            }
                        }
                    }
                    rows = next;
                    assert(record_is_row(recs, n as int));
                }
            },
        }
        n = n + 1;
    }
    if records.len() != dim {
        return Err(SolveError::DimensionMismatch { budget: dim, risk: records.len() });
    }
    proof {
        lemma_flatten_len(rows);
    }
    Ok(risk)
}

/// The packed risk matrix read from the bytes of the risk input (see
/// `risk_records` and `risk_from_records`).
pub fn risk_from_csv<S: Scalar>(bytes: &[u8], dim: usize) -> (r: Result<Vec<S>, SolveError>)
    ensures
        result_matches(r, risk_spec::<S>(risk_records(bytes@), dim)),
        risk_result_spec(risk_records(bytes@), dim, r),
{
    let records = read_records(bytes, FIELD_DELIMITER, false, true, true);
    risk_from_records(&records, dim)
}

} // verus!
