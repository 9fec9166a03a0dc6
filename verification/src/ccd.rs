//! Risk parity weights by cyclic coordinate descent.
//!
//! The solver minimises `x^T S x / 2 - sum_i b_i ln(x_i)` over positive
//! weights `x`, one coordinate at a time, for a risk matrix `S` given by its
//! packed lower triangle and a positive budget `b`; the weights it returns
//! are scaled to sum to one.

use vstd::prelude::*;

use crate::control::{
    decide, lemma_stagnation_needs_stalled_run, next_stagnant, CcdOutcome, SweepControl,
    SweepReport, STAG, TOL_G_INVERSE, TOL_G_STAG_INVERSE, TOL_O_INVERSE, TOL_W_INVERSE,
    TOTAL_STEPS,
};
use crate::error::SolveError;
use crate::input::{prefix_sum, result_matches};
use crate::lin_alg::{
    diag_index, lemma_packed_pos_in_range, lemma_tri_monotone, packed_index, packed_pos,
    quad_form, quad_form_spec, row_dot, tri,
};
use crate::scalar::{copy_vec, exact_ring, exact_where_integral, reciprocal, spec_reciprocal, Scalar};

verus! {

/// The weights the solver settled on, and how it got there.
pub struct CcdResult<S> {
    /// The weights, scaled to sum to one.
    pub weights: Vec<S>,
    /// Why the descent stopped.
    pub outcome: CcdOutcome,
    /// The gradient accuracy `max_i |x_i (S x)_i - b_i|` of the weights
    /// before scaling: that of the last sweep when converged, else the best
    /// one seen.
    pub peak_accuracy: S,
    /// The number of sweeps done.
    pub sweeps: usize,
}

/// `b[0] * ln(x[0]) + .. + b[n - 1] * ln(x[n - 1])`, added from zero in
/// order.
pub open spec fn log_sum<S: Scalar>(budget: Seq<S>, weights: Seq<S>, n: nat) -> S
    decreases n,
{
    if n == 0 {
        S::spec_zero()
    } else {
        let k = (n - 1) as nat;
        log_sum(budget, weights, k).spec_plus(budget[k as int].spec_times(weights[k as int].spec_ln()))
    }
}

/// The objective `x^T S x / 2 - sum_i b_i ln(x_i)`, given `x^T S x`.
pub open spec fn objective_spec<S: Scalar>(portfolio_var: S, budget: Seq<S>, weights: Seq<S>) -> S {
    spec_reciprocal::<S>(2).spec_times(portfolio_var).spec_minus(
        log_sum(budget, weights, budget.len()),
    )
}

/// The largest of `values[0..k]` in the total order, the last one where
/// several are largest (`values[0]` where `k` is 0).
pub open spec fn max_total_spec<S: Scalar>(values: Seq<S>, k: nat) -> S
    decreases k,
{
    if k <= 1 {
        values[0]
    } else {
        let best = max_total_spec(values, (k - 1) as nat);
        if best.spec_total_order_at_most(values[k - 1]) {
            values[k - 1]
        } else {
            best
        }
    }
}

/// The weights scaled by their sum.
pub open spec fn normalize_spec<S: Scalar>(weights: Seq<S>) -> Seq<S> {
    Seq::new(
        weights.len(),
        |k: int| weights[k].spec_divided_by(prefix_sum(weights, weights.len())),
    )
}

/// The variances of the first `n` assets (the diagonal of the packed risk
/// matrix), or the first that is not positive.
pub open spec fn variances_prefix<S: Scalar>(risk: Seq<S>, n: nat) -> Result<Seq<S>, SolveError>
    decreases n,
{
    if n == 0 {
        Ok(Seq::empty())
    } else {
        let k = (n - 1) as nat;
        match variances_prefix(risk, k) {
            Err(e) => Err(e),
            Ok(v) => {
                let x = risk[(tri(k) + k) as int];
                if !x.spec_greater_than(S::spec_zero()) {
                    Err(SolveError::ZeroVariance { asset: k as usize })
                } else {
                    Ok(v.push(x))
                }
            },
        }
    }
}

/// The products `(S x)_n` of the rows of the packed matrix with the weights.
pub open spec fn row_products<S: Scalar>(risk: Seq<S>, weights: Seq<S>) -> Seq<S> {
    Seq::new(weights.len(), |n: int| row_dot(risk, weights, n as nat, weights.len()))
}

/// The gaps `|x_n (S x)_n - b_n|`.
pub open spec fn gaps_spec<S: Scalar>(weights: Seq<S>, rows: Seq<S>, budget: Seq<S>) -> Seq<S> {
    Seq::new(
        budget.len(),
        |n: int| weights[n].spec_times(rows[n]).spec_minus(budget[n]).spec_abs(),
    )
}

/// The gradient accuracy `max_n |x_n (S x)_n - b_n|`, in the total order.
pub open spec fn gradient_spec<S: Scalar>(weights: Seq<S>, rows: Seq<S>, budget: Seq<S>) -> S {
    max_total_spec(gaps_spec(weights, rows, budget), budget.len())
}

/// Whether a sweep from `old` to `weights` moved neither the weights nor the
/// objective by more than their relative tolerances.
pub open spec fn stalled_spec<S: Scalar>(weights: Seq<S>, old: Seq<S>, obj_new: S, obj_old: S) -> bool {
    let one = S::spec_one();
    let changes = Seq::new(weights.len(), |n: int| weights[n].spec_minus(old[n]).spec_abs());
    let sizes = Seq::new(weights.len(), |n: int| old[n].spec_abs());
    let weights_max_change = max_total_spec(changes, weights.len());
    let weights_old_max = max_total_spec(sizes, weights.len()).spec_maximum(one);
    let obj_max_change = obj_new.spec_minus(obj_old).spec_abs();
    let obj_old_max = obj_old.spec_abs().spec_maximum(one);
    weights_max_change.spec_divided_by(weights_old_max).spec_less_than(
        spec_reciprocal::<S>(TOL_W_INVERSE),
    ) && obj_max_change.spec_divided_by(obj_old_max).spec_less_than(
        spec_reciprocal::<S>(TOL_O_INVERSE),
    )
}

/// The descent along coordinate `n`, from the state (weights, row
/// products, `x^T S x`) `st`, with `old` the weights at the start of the
/// sweep: the weight becomes the minimiser along its coordinate, every row
/// product `m` moves by the change times entry `(m, n)`, and `x^T S x` by
/// the matching amount.
pub open spec fn coordinate_step<S: Scalar>(
    risk: Seq<S>,
    budget: Seq<S>,
    var: Seq<S>,
    old: Seq<S>,
    st: (Seq<S>, Seq<S>, S),
    n: nat,
) -> (Seq<S>, Seq<S>, S) {
    let (w, rows, pv) = st;
    let two = S::spec_from_u64(2);
    let four = S::spec_from_u64(4);
    let wn = w[n as int];
    let vn = var[n as int];
    let rn = rows[n as int];
    let root = rn.spec_minus(wn.spec_times(vn)).spec_square().spec_plus(
        four.spec_times(vn).spec_times(budget[n as int]),
    ).spec_sqrt();
    let updated = rn.spec_negated().spec_plus(wn.spec_times(vn)).spec_plus(root).spec_divided_by(
        two.spec_times(vn),
    );
    let rows2 = Seq::new(
        rows.len(),
        |m: int|
            rows[m].spec_plus(
                updated.spec_minus(old[n as int]).spec_times(risk[packed_pos(m as nat, n) as int]),
            ),
    );
    let change = vn.spec_times(old[n as int].spec_square().spec_minus(updated.spec_square())).spec_plus(
        two.spec_times(
            updated.spec_times(rows2[n as int]).spec_minus(old[n as int].spec_times(rn)),
        ),
    );
    (w.update(n as int, updated), rows2, pv.spec_plus(change))
}

/// The integer square root is exact on perfect squares.
proof fn lemma_isqrt_exact(q: int, s: int)
    requires
        q >= 0,
        s >= 0,
        q * q <= s * s,
        s * s < (q + 1) * (q + 1),
    ensures
        q == s,
{
    if q < s {
        assert((q + 1) * (q + 1) <= s * s) by (nonlinear_arith)
            requires
                q + 1 <= s,
                q >= 0,
        ;
    } else if q > s {
        assert((s + 1) * (s + 1) <= q * q) by (nonlinear_arith)
            requires
                s + 1 <= q,
                s >= 0,
        ;
        assert(s * s < (s + 1) * (s + 1)) by (nonlinear_arith)
            requires
                s >= 0,
        ;
    }
}

/// The algebra of one coordinate step: with `c = r - w v`, a weight `u`
/// with `2 v u = s - c`, where `s >= 0` and `s^2 = c^2 + 4 v b`, is
/// positive and solves `u (c + u v) = b`.
proof fn lemma_step_algebra(r: int, w: int, v: int, b: int, s: int, u: int)
    requires
        v > 0,
        b > 0,
        s >= 0,
        s * s == (r - w * v) * (r - w * v) + 4 * v * b,
        u * (2 * v) == s - (r - w * v),
    ensures
        u > 0,
        u * ((r - w * v) + u * v) == b,
{
    let c = r - w * v;
    assert(s > c) by (nonlinear_arith)
        requires
            s >= 0,
            v > 0,
            b > 0,
            s * s == c * c + 4 * v * b,
    ;
    assert(u > 0) by (nonlinear_arith)
        requires
            u * (2 * v) == s - c,
            s > c,
            v > 0,
    ;
    assert(u * (c + u * v) == b) by (nonlinear_arith)
        requires
            u * (2 * v) == s - c,
            s * s == c * c + 4 * v * b,
            v > 0,
    ;
}

/// One coordinate step solves its coordinate's risk parity equation: in
/// exact arithmetic (`val`), where the step's square root and division come
/// out exact, the new weight `x'_n` is positive and `x'_n (S x')_n = b_n`,
/// whatever the sign of the off-diagonal part of `(S x)_n`. The step starts
/// with coordinate `n` not yet moved in this sweep, its variance the
/// matrix's diagonal entry.
pub proof fn lemma_coordinate_step_solves_coordinate<S: Scalar>(
    val: spec_fn(S) -> int,
    risk: Seq<S>,
    budget: Seq<S>,
    var: Seq<S>,
    old: Seq<S>,
    st: (Seq<S>, Seq<S>, S),
    n: nat,
    s: int,
)
    requires
        exact_ring(val),
        exact_where_integral(val),
        n < st.0.len(),
        n < st.1.len(),
        n < var.len(),
        n < budget.len(),
        n < old.len(),
        st.0[n as int] == old[n as int],
        var[n as int] == risk[packed_pos(n, n) as int],
        val(var[n as int]) > 0,
        val(budget[n as int]) > 0,
        s >= 0,
        s * s == (val(st.1[n as int]) - val(st.0[n as int]) * val(var[n as int])) * (val(
            st.1[n as int],
        ) - val(st.0[n as int]) * val(var[n as int])) + 4 * val(var[n as int]) * val(
            budget[n as int],
        ),
        (s - (val(st.1[n as int]) - val(st.0[n as int]) * val(var[n as int]))) % (2 * val(
            var[n as int],
        )) == 0,
    ensures
        val(coordinate_step(risk, budget, var, old, st, n).0[n as int]) > 0,
        val(coordinate_step(risk, budget, var, old, st, n).0[n as int]) * val(
            coordinate_step(risk, budget, var, old, st, n).1[n as int],
        ) == val(budget[n as int]),
{
    let (w, rows, pv) = st;
    let two = S::spec_from_u64(2);
    let four = S::spec_from_u64(4);
    let wn = w[n as int];
    let vn = var[n as int];
    let rn = rows[n as int];
    let bn = budget[n as int];
    let arg = rn.spec_minus(wn.spec_times(vn)).spec_square().spec_plus(
        four.spec_times(vn).spec_times(bn),
    );
    let root = arg.spec_sqrt();
    let num = rn.spec_negated().spec_plus(wn.spec_times(vn)).spec_plus(root);
    let den = two.spec_times(vn);
    let updated = num.spec_divided_by(den);
    let (r, x, v, b) = (val(rn), val(wn), val(vn), val(bn));
    let c = r - x * v;
    assert(val(four) == 4 && val(two) == 2);
    assert(val(arg) == c * c + 4 * v * b);
    assert(val(arg) >= 0);
    lemma_isqrt_exact(val(root), s);
    assert(val(num) == s - c);
    assert(val(den) == 2 * v);
    assert(val(updated) * (2 * v) == s - c);
    lemma_step_algebra(r, x, v, b, s, val(updated));
    let next = coordinate_step(risk, budget, var, old, st, n);
    assert(next.0[n as int] == updated);
    assert(val(next.1[n as int]) == r + (val(updated) - x) * v);
    let u = val(updated);
    assert(r + (u - x) * v == c + u * v) by (nonlinear_arith)
        requires
            c == r - x * v,
    ;
}

/// The first `n` coordinate steps of a sweep.
pub open spec fn sweep_spec<S: Scalar>(
    risk: Seq<S>,
    budget: Seq<S>,
    var: Seq<S>,
    old: Seq<S>,
    st: (Seq<S>, Seq<S>, S),
    n: nat,
) -> (Seq<S>, Seq<S>, S)
    decreases n,
{
    if n == 0 {
        st
    } else {
        let k = (n - 1) as nat;
        coordinate_step(risk, budget, var, old, sweep_spec(risk, budget, var, old, st, k), k)
    }
}

/// The descent from the state after `sweeps` sweeps, with `stag` stalled
/// ones at its end: sweep, measure, let the `control` rules decide, and go
/// on or give the result (weights scaled to sum one, why it stopped, the
/// accuracy, the sweeps done).
pub open spec fn descent<S: Scalar>(
    risk: Seq<S>,
    budget: Seq<S>,
    var: Seq<S>,
    w: Seq<S>,
    rows: Seq<S>,
    pv: S,
    obj: S,
    best: Seq<S>,
    best_acc: S,
    sweeps: nat,
    stag: nat,
) -> (Seq<S>, CcdOutcome, S, nat)
    decreases TOTAL_STEPS - sweeps,
{
    let (w2, rows2, pv2) = sweep_spec(risk, budget, var, w, (w, rows, pv), budget.len());
    let obj2 = objective_spec(pv2, budget, w2);
    let grad = gradient_spec(w2, rows2, budget);
    let report = SweepReport {
        converged: grad.spec_less_than(spec_reciprocal::<S>(TOL_G_INVERSE)),
        improved: grad.spec_less_than(best_acc),
        stalled: stalled_spec(w2, w, obj2, obj),
        near_optimal: grad.spec_less_than(spec_reciprocal::<S>(TOL_G_STAG_INVERSE)),
    };
    let sweeps2 = sweeps + 1;
    let stag2 = next_stagnant(stag, report);
    let keep = !report.converged && report.improved;
    let best2 = if keep {
        w2
    } else {
        best
    };
    let best_acc2 = if keep {
        grad
    } else {
        best_acc
    };
    match decide(sweeps2, stag2, report) {
        Some(CcdOutcome::Converged) => (normalize_spec(w2), CcdOutcome::Converged, grad, sweeps2),
        Some(outcome) => (normalize_spec(best2), outcome, best_acc2, sweeps2),
        None => if sweeps2 < TOTAL_STEPS {
            descent(risk, budget, var, w2, rows2, pv2, obj2, best2, best_acc2, sweeps2, stag2)
        } else {
            (normalize_spec(best2), CcdOutcome::Exhausted, best_acc2, sweeps2)
        },
    }
}

/// The variances of the first `dim` assets: the diagonal of the packed risk
/// matrix.
pub open spec fn diagonal<S: Scalar>(risk: Seq<S>, dim: nat) -> Seq<S> {
    Seq::new(dim, |k: int| risk[(tri(k as nat) + k) as int])
}

/// Every variance of the first `dim` assets is positive.
pub open spec fn variances_positive<S: Scalar>(risk: Seq<S>, dim: nat) -> bool {
    forall|k: nat|
        k < dim ==> #[trigger] risk[(tri(k) + k) as int].spec_greater_than(S::spec_zero())
}

/// The solver's result on the packed risk matrix `risk` and the budget
/// `budget`: the descent from equal weights.
pub open spec fn ccd_spec<S: Scalar>(risk: Seq<S>, budget: Seq<S>) -> (Seq<S>, CcdOutcome, S, nat) {
    let dim = budget.len();
    let w0 = Seq::new(dim, |k: int| spec_reciprocal::<S>(dim as u64));
    let pv0 = quad_form_spec(risk, w0);
    let rows0 = row_products(risk, w0);
    let obj0 = objective_spec(pv0, budget, w0);
    descent(
        risk,
        budget,
        diagonal(risk, dim),
        w0,
        rows0,
        pv0,
        obj0,
        Seq::empty(),
        S::spec_infinity(),
        0,
        0,
    )
}

/// Reading the variances succeeds exactly when every diagonal entry is
/// positive, and otherwise reports the first asset whose entry is not.
pub proof fn lemma_variances_prefix<S: Scalar>(risk: Seq<S>, n: nat)
    requires
        n <= usize::MAX,
    ensures
        variances_prefix(risk, n) is Ok <==> variances_positive(risk, n),
        variances_prefix(risk, n) is Ok ==> variances_prefix(risk, n)->Ok_0 == diagonal(risk, n),
        variances_prefix(risk, n) is Err ==> (variances_prefix(risk, n)->Err_0 matches SolveError::ZeroVariance { asset } && asset < n
            && !risk[(tri(asset as nat) + asset) as int].spec_greater_than(S::spec_zero()) && forall|k: nat|
            k < asset ==> #[trigger] risk[(tri(k) + k) as int].spec_greater_than(S::spec_zero())),
    decreases n,
{
    if n > 0 {
        let k = (n - 1) as nat;
        lemma_variances_prefix(risk, k);
        if variances_prefix(risk, n) is Ok {
            assert(variances_prefix(risk, n)->Ok_0 =~= diagonal(risk, n));
        }
    }
}

/// The objective `x^T S x / 2 - sum_i b_i ln(x_i)`, given `x^T S x`.
fn objective<S: Scalar>(portfolio_var: S, budget: &Vec<S>, weights: &Vec<S>) -> (r: S)
    requires
        weights.len() == budget.len(),
    ensures
        r == objective_spec(portfolio_var, budget@, weights@),
{
    let mut logs = S::zero();
    let mut n: usize = 0;
    while n < budget.len()
        invariant
            weights.len() == budget.len(),
            n <= budget.len(),
            logs == log_sum(budget@, weights@, n as nat),
        decreases budget.len() - n,
    {
        logs = logs.plus(budget[n].times(weights[n].ln()));
        n = n + 1;
    }
    reciprocal::<S>(2).times(portfolio_var).minus(logs)
}

/// The largest of the values in the total order of the scalars, the last
/// one where several are largest.
fn max_total<S: Scalar>(values: &Vec<S>) -> (r: S)
    requires
        values.len() > 0,
    ensures
        r == max_total_spec(values@, values.len() as nat),
        exists|i: int| 0 <= i < values.len() && r == values[i],
{
    let mut best = values[0];
    let mut k: usize = 1;
    while k < values.len()
        invariant
            1 <= k <= values.len(),
            best == max_total_spec(values@, k as nat),
            exists|i: int| 0 <= i < k && best == values[i],
        decreases values.len() - k,
    {
        if best.total_order_at_most(values[k]) {
            best = values[k];
        }
        k = k + 1;
    }
    best
}

/// Scales the weights by their sum.
fn normalize<S: Scalar>(weights: &mut Vec<S>)
    ensures
        final(weights).len() == old(weights).len(),
        final(weights)@ == normalize_spec(old(weights)@),
{
    let ghost given = weights@;
    let mut scale = S::zero();
    let mut k: usize = 0;
    while k < weights.len()
        invariant
            k <= weights.len(),
            weights@ == given,
            scale == prefix_sum(given, k as nat),
        decreases weights.len() - k,
    {
        scale = scale.plus(weights[k]);
        k = k + 1;
    }
    let mut k: usize = 0;
    while k < weights.len()
        invariant
            k <= weights.len(),
            weights.len() == given.len(),
            scale == prefix_sum(given, given.len()),
            weights@ == Seq::new(
                given.len(),
                |j: int|
                    if j < k {
                        given[j].spec_divided_by(scale)
                    } else {
                        given[j]
                    },
            ),
        decreases weights.len() - k,
    {
        let w = weights[k].divided_by(scale);
        weights.set(k, w);
        k = k + 1;
    }
    assert(weights@ =~= normalize_spec(given));
}

/// Once reading the variances fails, reading more of them fails the same way.
proof fn lemma_variances_err_stays<S: Scalar>(risk: Seq<S>, n: nat, m: nat)
    requires
        n <= m,
        variances_prefix(risk, n) is Err,
    ensures
        variances_prefix(risk, m) == variances_prefix(risk, n),
    decreases m - n,
{
    if n < m {
        lemma_variances_err_stays(risk, n, (m - 1) as nat);
    }
}

/// The variances of the assets: the diagonal of the risk matrix, each of
/// which must be positive; the first asset whose variance is not is
/// reported.
pub fn variances<S: Scalar>(risk: &Vec<S>, dim: usize) -> (r: Result<Vec<S>, SolveError>)
    requires
        tri(dim as nat) <= risk.len(),
    ensures
        result_matches(r, variances_prefix(risk@, dim as nat)),
        r is Ok <==> variances_positive(risk@, dim as nat),
        r is Ok ==> r->Ok_0@ == diagonal(risk@, dim as nat),
        r is Ok ==> r->Ok_0.len() == dim,
        r is Err ==> (r->Err_0 matches SolveError::ZeroVariance { asset } && asset < dim),
{
    proof {
        lemma_variances_prefix(risk@, dim as nat);
    }
    let mut var: Vec<S> = Vec::new();
    let mut n: usize = 0;
    while n < dim
        invariant
            tri(dim as nat) <= risk.len(),
            n <= dim,
            var.len() == n,
            variances_prefix(risk@, n as nat) == Ok::<Seq<S>, SolveError>(var@),
        decreases dim - n,
    {
        let v = risk[diag_index(n, dim)];
        if !v.greater_than(S::zero()) {
            proof {
                lemma_variances_err_stays(risk@, (n + 1) as nat, dim as nat);
            }
            return Err(SolveError::ZeroVariance { asset: n });
        }
        var.push(v);
        n = n + 1;
    }
    Ok(var)
}

/// The products `(S x)_n` of each row of the risk matrix with the weights.
fn risk_weight_rows<S: Scalar>(risk: &Vec<S>, weights: &Vec<S>) -> (r: Vec<S>)
    requires
        tri(weights.len() as nat) <= risk.len(),
    ensures
        r.len() == weights.len(),
        r@ == row_products(risk@, weights@),
{
    let dim = weights.len();
    let mut rows: Vec<S> = Vec::new();
    let mut n: usize = 0;
    while n < dim
        invariant
            dim == weights.len(),
            tri(dim as nat) <= risk.len(),
            n <= dim,
            rows.len() == n,
            rows@ =~= row_products(risk@, weights@).take(n as int),
        decreases dim - n,
    {
        let mut acc = S::zero();
        let mut m: usize = 0;
        while m < dim
            invariant
                dim == weights.len(),
                tri(dim as nat) <= risk.len(),
                n < dim,
                m <= dim,
                acc == row_dot(risk@, weights@, n as nat, m as nat),
            decreases dim - m,
        {
            acc = acc.plus(weights[m].times(risk[packed_index(n, m, dim)]));
            m = m + 1;
        }
        rows.push(acc);
        n = n + 1;
    }
    assert(rows@ =~= row_products(risk@, weights@));
    rows
}

/// The gradient accuracy `max_n |x_n (S x)_n - b_n|`.
fn gradient_accuracy<S: Scalar>(weights: &Vec<S>, rows: &Vec<S>, budget: &Vec<S>) -> (r: S)
    requires
        weights.len() == budget.len(),
        rows.len() == budget.len(),
        budget.len() > 0,
    ensures
        r == gradient_spec(weights@, rows@, budget@),
{
    let mut gaps: Vec<S> = Vec::new();
    let mut n: usize = 0;
    while n < budget.len()
        invariant
            weights.len() == budget.len(),
            rows.len() == budget.len(),
            n <= budget.len(),
            gaps.len() == n,
            gaps@ =~= gaps_spec(weights@, rows@, budget@).take(n as int),
        decreases budget.len() - n,
    {
        gaps.push(weights[n].times(rows[n]).minus(budget[n]).abs());
        n = n + 1;
    }
    assert(gaps@ =~= gaps_spec(weights@, rows@, budget@));
    max_total(&gaps)
}

/// Whether one sweep moved neither the weights nor the objective by more
/// than their relative tolerances.
fn stalled<S: Scalar>(weights: &Vec<S>, weights_old: &Vec<S>, obj_new: S, obj_old: S) -> (r: bool)
    requires
        weights.len() == weights_old.len(),
        weights.len() > 0,
    ensures
        r == stalled_spec(weights@, weights_old@, obj_new, obj_old),
{
    let one = S::one();
    let ghost all_changes = Seq::new(
        weights.len() as nat,
        |j: int| weights[j].spec_minus(weights_old[j]).spec_abs(),
    );
    let ghost all_sizes = Seq::new(weights.len() as nat, |j: int| weights_old[j].spec_abs());
    let mut changes: Vec<S> = Vec::new();
    let mut sizes: Vec<S> = Vec::new();
    let mut n: usize = 0;
    while n < weights.len()
        invariant
            weights.len() == weights_old.len(),
            n <= weights.len(),
            changes.len() == n,
            sizes.len() == n,
            all_changes == Seq::new(
                weights.len() as nat,
                |j: int| weights[j].spec_minus(weights_old[j]).spec_abs(),
            ),
            all_sizes == Seq::new(weights.len() as nat, |j: int| weights_old[j].spec_abs()),
            changes@ =~= all_changes.take(n as int),
            sizes@ =~= all_sizes.take(n as int),
        decreases weights.len() - n,
    {
        changes.push(weights[n].minus(weights_old[n]).abs());
        sizes.push(weights_old[n].abs());
        n = n + 1;
    }
    assert(changes@ =~= all_changes);
    assert(sizes@ =~= all_sizes);
    let weights_max_change = max_total(&changes);
    let weights_old_max = max_total(&sizes).maximum(one);
    let obj_max_change = obj_new.minus(obj_old).abs();
    let obj_old_max = obj_old.abs().maximum(one);
    weights_max_change.divided_by(weights_old_max).less_than(reciprocal(TOL_W_INVERSE))
        && obj_max_change.divided_by(obj_old_max).less_than(reciprocal(TOL_O_INVERSE))
}

/// One sweep of coordinate descent: each weight in turn is set to the
/// minimiser of the objective along its coordinate, and the row products
/// and `x^T S x` are updated to match. Returns the new `x^T S x`.
fn sweep<S: Scalar>(
    risk: &Vec<S>,
    budget: &Vec<S>,
    var: &Vec<S>,
    weights: &mut Vec<S>,
    rows: &mut Vec<S>,
    weights_old: &Vec<S>,
    portfolio_var: S,
) -> (pv: S)
    requires
        tri(budget.len() as nat) <= risk.len(),
        var.len() == budget.len(),
        old(weights).len() == budget.len(),
        old(rows).len() == budget.len(),
        weights_old.len() == budget.len(),
    ensures
        final(weights).len() == budget.len(),
        final(rows).len() == budget.len(),
        (final(weights)@, final(rows)@, pv) == sweep_spec(
            risk@,
            budget@,
            var@,
            weights_old@,
            (old(weights)@, old(rows)@, portfolio_var),
            budget.len() as nat,
        ),
{
    let dim = budget.len();
    let ghost start = (weights@, rows@, portfolio_var);
    let two = S::from_u64(2);
    let four = S::from_u64(4);
    let mut portfolio_var = portfolio_var;
    let mut n: usize = 0;
    while n < dim
        invariant
            dim == budget.len(),
            tri(dim as nat) <= risk.len(),
            var.len() == dim,
            weights.len() == dim,
            rows.len() == dim,
            weights_old.len() == dim,
            n <= dim,
            two == S::spec_from_u64(2),
            four == S::spec_from_u64(4),
            (weights@, rows@, portfolio_var) == sweep_spec(
                risk@,
                budget@,
                var@,
                weights_old@,
                start,
                n as nat,
            ),
        decreases dim - n,
    {
        let ghost w_before = weights@;
        let ghost rows_before = rows@;
        let wn = weights[n];
        let vn = var[n];
        let rn = rows[n];
        let root = rn.minus(wn.times(vn)).square().plus(four.times(vn).times(budget[n])).sqrt();
        let updated = rn.negated().plus(wn.times(vn)).plus(root).divided_by(two.times(vn));
        weights.set(n, updated);
        let risk_weight_old = rows[n];
        let mut m: usize = 0;
        while m < dim
            invariant
                dim == budget.len(),
                tri(dim as nat) <= risk.len(),
                weights.len() == dim,
                rows.len() == dim,
                weights_old.len() == dim,
                n < dim,
                m <= dim,
                weights@ == w_before.update(n as int, updated),
                w_before.len() == dim,
                rows_before.len() == dim,
                rows@ == Seq::new(
                    dim as nat,
                    |j: int|
                        if j < m {
                            rows_before[j].spec_plus(
                                updated.spec_minus(weights_old@[n as int]).spec_times(
                                    risk@[packed_pos(j as nat, n as nat) as int],
                                ),
                            )
                        } else {
                            rows_before[j]
                        },
                ),
            decreases dim - m,
        {
            let ghost rows_now = rows@;
            let idx = packed_index(m, n, dim);
            assert(weights@[n as int] == updated);
            assert(rows_now[m as int] == rows_before[m as int]);
            let moved = weights[n].minus(weights_old[n]).times(risk[idx]);
            let r = rows[m].plus(moved);
            rows.set(m, r);
            m = m + 1;
            assert(rows@ =~= Seq::new(
                dim as nat,
                |j: int|
                    if j < m {
                        rows_before[j].spec_plus(
                            updated.spec_minus(weights_old@[n as int]).spec_times(
                                risk@[packed_pos(j as nat, n as nat) as int],
                            ),
                        )
                    } else {
                        rows_before[j]
                    },
            ));
        }
        let change = vn.times(weights_old[n].square().minus(weights[n].square())).plus(
            two.times(weights[n].times(rows[n]).minus(weights_old[n].times(risk_weight_old))),
        );
        portfolio_var = portfolio_var.plus(change);
        proof {
            let next = coordinate_step(
                risk@,
                budget@,
                var@,
                weights_old@,
                (w_before, rows_before, sweep_spec(risk@, budget@, var@, weights_old@, start, n as nat).2),
                n as nat,
            );
            assert(rows@ =~= next.1);
            assert(weights@ =~= next.0);
        }
        n = n + 1;
    }
    portfolio_var
}

/// The diagonal of the packed risk matrix.
fn diagonal_of<S: Scalar>(risk: &Vec<S>, dim: usize) -> (r: Vec<S>)
    requires
        tri(dim as nat) <= risk.len(),
    ensures
        r@ == diagonal(risk@, dim as nat),
{
    let mut var: Vec<S> = Vec::new();
    let mut n: usize = 0;
    while n < dim
        invariant
            tri(dim as nat) <= risk.len(),
            n <= dim,
            var@ =~= diagonal(risk@, dim as nat).take(n as int),
        decreases dim - n,
    {
        var.push(risk[diag_index(n, dim)]);
        n = n + 1;
    }
    assert(var@ =~= diagonal(risk@, dim as nat));
    var
}

/// Risk parity weights for the risk matrix `risk` (the packed lower
/// triangle of a covariance matrix) and the budget `budget`, by cyclic
/// coordinate descent from equal weights.
///
/// After each sweep the descent stops as the `control` module decides: when
/// the gradient accuracy is below `1 / TOL_G_INVERSE` (the weights of that
/// sweep are returned), after `STAG` consecutive stalled sweeps with the
/// accuracy below `1 / TOL_G_STAG_INVERSE`, or after `TOTAL_STEPS` sweeps
/// (in the last two cases the most accurate weights seen are returned).
/// The returned weights are scaled to sum to one.
pub fn ccd_riskparity<S: Scalar>(risk: &Vec<S>, budget: &Vec<S>) -> (r: CcdResult<S>)
    requires
        budget.len() > 0,
        tri(budget.len() as nat) <= risk.len(),
        variances_positive(risk@, budget.len() as nat),
    ensures
        (r.weights@, r.outcome, r.peak_accuracy, r.sweeps as nat) == ccd_spec(risk@, budget@),
        1 <= r.sweeps <= TOTAL_STEPS,
        r.outcome == CcdOutcome::Exhausted ==> r.sweeps == TOTAL_STEPS,
        r.outcome == CcdOutcome::Stagnated ==> STAG <= r.sweeps,
        r.outcome == CcdOutcome::Converged ==> r.weights.len() == budget.len(),
        r.weights.len() == budget.len() || r.weights.len() == 0,
{
    let dim = budget.len();
    let var = diagonal_of(risk, dim);
    let start: S = reciprocal(dim as u64);
    let mut weights: Vec<S> = Vec::new();
    let mut n: usize = 0;
    while n < dim
        invariant
            n <= dim,
            weights.len() == n,
            start == spec_reciprocal::<S>(dim as u64),
            weights@ =~= Seq::new(n as nat, |k: int| spec_reciprocal::<S>(dim as u64)),
        decreases dim - n,
    {
        weights.push(start);
        n = n + 1;
    }
    let mut portfolio_var = quad_form(risk, &weights);
    let mut rows = risk_weight_rows(risk, &weights);
    let mut obj_new = objective(portfolio_var, budget, &weights);

    let tol_g: S = reciprocal(TOL_G_INVERSE);
    let tol_g_stag: S = reciprocal(TOL_G_STAG_INVERSE);
    let mut control = SweepControl::new();
    let mut weights_best_found: Vec<S> = Vec::new();
    let mut grad_accuracy_best_found = S::infinity();
    let ghost target = ccd_spec(risk@, budget@);
    assert(target == descent(
        risk@,
        budget@,
        var@,
        weights@,
        rows@,
        portfolio_var,
        obj_new,
        weights_best_found@,
        grad_accuracy_best_found,
        control.history().len() as nat,
        control.stalled_run(),
    ));
    loop
        invariant
            dim == budget.len(),
            dim > 0,
            tri(dim as nat) <= risk.len(),
            tol_g == spec_reciprocal::<S>(TOL_G_INVERSE),
            tol_g_stag == spec_reciprocal::<S>(TOL_G_STAG_INVERSE),
            target == ccd_spec(risk@, budget@),
            target == descent(
                risk@,
                budget@,
                var@,
                weights@,
                rows@,
                portfolio_var,
                obj_new,
                weights_best_found@,
                grad_accuracy_best_found,
                control.history().len() as nat,
                control.stalled_run(),
            ),
            var.len() == dim,
            weights.len() == dim,
            rows.len() == dim,
            weights_best_found.len() == dim || weights_best_found.len() == 0,
            control.well_formed(),
            control.history().len() < TOTAL_STEPS,
        decreases TOTAL_STEPS - control.history().len(),
    {
        let weights_old = copy_vec(&weights);
        let obj_old = obj_new;
        portfolio_var = sweep(
            risk,
            budget,
            &var,
            &mut weights,
            &mut rows,
            &weights_old,
            portfolio_var,
        );
        obj_new = objective(portfolio_var, budget, &weights);

        let grad_accuracy = gradient_accuracy(&weights, &rows, budget);
        let report = SweepReport {
            converged: grad_accuracy.less_than(tol_g),
            improved: grad_accuracy.less_than(grad_accuracy_best_found),
            stalled: stalled(&weights, &weights_old, obj_new, obj_old),
            near_optimal: grad_accuracy.less_than(tol_g_stag),
        };
        let ghost k = control.history().len();
        let decision = control.advance(report);
        if decision.keep_best {
            grad_accuracy_best_found = grad_accuracy;
            weights_best_found = copy_vec(&weights);
        }
        let sweeps = control.sweeps();
        match decision.stop {
            Some(CcdOutcome::Converged) => {
                normalize(&mut weights);
                return CcdResult {
                    weights,
                    outcome: CcdOutcome::Converged,
                    peak_accuracy: grad_accuracy,
                    sweeps,
                };
            },
            Some(outcome) => {
                proof {
                    if outcome == CcdOutcome::Stagnated {
                        lemma_stagnation_needs_stalled_run(control.history(), k as nat);
                    }
                }
                normalize(&mut weights_best_found);
                return CcdResult {
                    weights: weights_best_found,
                    outcome,
                    peak_accuracy: grad_accuracy_best_found,
                    sweeps,
                };
            },
            None => {},
        }
    }
}

} // verus!
