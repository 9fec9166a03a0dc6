//! The whole computation from the two CSV inputs to the weights.

use vstd::prelude::*;

use crate::ccd::{ccd_riskparity, ccd_spec, lemma_variances_prefix, variances, variances_prefix, CcdResult};
use crate::control::CcdOutcome;
use crate::error::SolveError;
use crate::input::{
    budget_from_csv, budget_records, budget_spec, risk_from_csv, risk_records, risk_spec,
};
use crate::scalar::Scalar;

verus! {

/// The errors that report an input that could not be read, as opposed to
/// an input that breaks the solver's preconditions.
pub open spec fn is_read_error(e: SolveError) -> bool {
    match e {
        SolveError::MalformedRecord { .. } => true,
        SolveError::MissingBudget => true,
        SolveError::InvalidNumber { .. } => true,
        _ => false,
    }
}

/// What the whole computation gives for the budget records `b` and the risk
/// records `rr`: the budget, then the risk matrix for as many assets, then
/// its variances, then the descent; the first failure is the error.
pub open spec fn solve_spec<S: Scalar>(
    b: Seq<Option<Seq<Seq<char>>>>,
    rr: Seq<Option<Seq<Seq<char>>>>,
) -> Result<(Seq<S>, CcdOutcome, S, nat), SolveError> {
    match budget_spec::<S>(b) {
        Err(e) => Err(e),
        Ok(budget) => match risk_spec::<S>(rr, budget.len() as usize) {
            Err(e) => Err(e),
            Ok(risk) => match variances_prefix(risk, budget.len()) {
                Err(e) => Err(e),
                Ok(_) => Ok(ccd_spec(risk, budget)),
            },
        },
    }
}

/// The inputs on which the computation is defined: it either succeeds or
/// stops on an input that could not be read, never on a budget, a matrix
/// shape or a variance that breaks the solver's preconditions.
pub open spec fn solve_admissible<S: Scalar>(
    b: Seq<Option<Seq<Seq<char>>>>,
    rr: Seq<Option<Seq<Seq<char>>>>,
) -> bool {
    solve_spec::<S>(b, rr) is Err ==> is_read_error(solve_spec::<S>(b, rr)->Err_0)
}

/// A result of the computation against its specification.
pub open spec fn solve_result_matches<S>(
    r: Result<CcdResult<S>, SolveError>,
    s: Result<(Seq<S>, CcdOutcome, S, nat), SolveError>,
) -> bool {
    match r {
        Ok(res) => s is Ok && (res.weights@, res.outcome, res.peak_accuracy, res.sweeps as nat)
            == s->Ok_0,
        Err(e) => s == Err::<(Seq<S>, CcdOutcome, S, nat), SolveError>(e),
    }
}

/// Risk parity weights from the bytes of the budget input (a single row of
/// space-separated positive numbers summing to one) and of the risk input
/// (the lower triangle of the risk matrix, one row per line): the budget is
/// read first, then the risk matrix, then the descent runs. The inputs must
/// meet the solver's preconditions; an input that cannot be read is
/// reported.
pub fn solve_from_csv<S: Scalar>(budget_csv: &[u8], risk_csv: &[u8]) -> (r: Result<
    CcdResult<S>,
    SolveError,
>)
    requires
        solve_admissible::<S>(budget_records(budget_csv@), risk_records(risk_csv@)),
    ensures
        solve_result_matches(r, solve_spec::<S>(budget_records(budget_csv@), risk_records(risk_csv@))),
        r is Err ==> is_read_error(r->Err_0),
{
    let budget: Vec<S> = match budget_from_csv(budget_csv) {
        Err(e) => {
            return Err(e);
        },
        Ok(b) => b,
    };
    let risk: Vec<S> = match risk_from_csv(risk_csv, budget.len()) {
        Err(e) => {
            return Err(e);
        },
        Ok(r) => r,
    };
    proof {
        lemma_variances_prefix(risk@, budget.len() as nat);
    }
    Ok(ccd_riskparity(&risk, &budget))
}

/// Tests the inputs for everything the computation needs of them, in its
/// order: the budget, then the risk matrix, then its variances; the first
/// failure is reported.
pub fn check_inputs<S: Scalar>(budget_csv: &[u8], risk_csv: &[u8]) -> (r: Result<(), SolveError>)
    ensures
        r is Ok <==> solve_spec::<S>(budget_records(budget_csv@), risk_records(risk_csv@)) is Ok,
        r is Err ==> solve_spec::<S>(budget_records(budget_csv@), risk_records(risk_csv@))
            == Err::<(Seq<S>, CcdOutcome, S, nat), SolveError>(r->Err_0),
{
    let budget: Vec<S> = match budget_from_csv(budget_csv) {
        Err(e) => {
            return Err(e);
        },
        Ok(b) => b,
    };
    let risk: Vec<S> = match risk_from_csv(risk_csv, budget.len()) {
        Err(e) => {
            return Err(e);
        },
        Ok(r) => r,
    };
    match variances(&risk, budget.len()) {
        Err(e) => Err(e),
        Ok(_) => Ok(()),
    }
}

/// The computation on any inputs: those that break the solver's
/// preconditions are refused with the error that names the first failure,
/// the others go to `solve_from_csv`.
pub fn solve_checked<S: Scalar>(budget_csv: &[u8], risk_csv: &[u8]) -> (r: Result<
    CcdResult<S>,
    SolveError,
>)
    ensures
        solve_result_matches(r, solve_spec::<S>(budget_records(budget_csv@), risk_records(risk_csv@))),
{
    match check_inputs::<S>(budget_csv, risk_csv) {
        Err(e) => Err(e),
        Ok(()) => solve_from_csv(budget_csv, risk_csv),
    }
}

} // verus!
