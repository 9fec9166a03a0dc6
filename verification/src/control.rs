//! When the coordinate descent stops.
//!
//! After every sweep the solver reports what it observed; the controller
//! counts sweeps and consecutive stalled sweeps and decides whether to
//! keep the sweep's weights as the best found and whether to stop.

use vstd::prelude::*;

verus! {

/// The most sweeps the solver performs.
pub const TOTAL_STEPS: usize = 5000;

/// How many consecutive stalled sweeps count as stagnation.
pub const STAG: usize = 20;

/// The relative tolerance on the change of the weights is `1 / TOL_W_INVERSE`.
pub const TOL_W_INVERSE: u64 = 100_000_000;

/// The relative tolerance on the change of the objective is
/// `1 / TOL_O_INVERSE`.
pub const TOL_O_INVERSE: u64 = 10_000_000_000;

/// The convergence tolerance on the gradient is `1 / TOL_G_INVERSE`.
pub const TOL_G_INVERSE: u64 = 100_000_000;

/// The gradient tolerance under which stagnation ends the descent is
/// `1 / TOL_G_STAG_INVERSE`.
pub const TOL_G_STAG_INVERSE: u64 = 1_000_000;

/// Why the solver stopped.
#[derive(Clone, Copy, Debug, PartialEq, Eq)]
pub enum CcdOutcome {
    /// The gradient condition holds to the convergence tolerance.
    Converged,
    /// The weights and the objective stopped moving near the optimum.
    Stagnated,
    /// The sweep limit was reached.
    Exhausted,
}

/// What the solver observed in one sweep.
#[derive(Clone, Copy, Debug)]
pub struct SweepReport {
    /// The gradient accuracy is below the convergence tolerance.
    pub converged: bool,
    /// The gradient accuracy is below the best one seen so far.
    pub improved: bool,
    /// Neither the weights nor the objective moved by more than their
    /// relative tolerances.
    pub stalled: bool,
    /// The gradient accuracy is below the stagnation tolerance.
    pub near_optimal: bool,
}

/// What the controller decided after a sweep.
#[derive(Clone, Copy, Debug)]
pub struct SweepDecision {
    /// Keep this sweep's weights as the best found.
    pub keep_best: bool,
    /// Stop, and why; `None` to sweep again.
    pub stop: Option<CcdOutcome>,
}

/// The count of consecutive stalled sweeps after a sweep that began with
/// `stagnant` of them.
pub open spec fn next_stagnant(stagnant: nat, report: SweepReport) -> nat {
    if report.stalled {
        stagnant + 1
    } else {
        0
    }
}

/// The decision after sweep number `sweeps` (counted from 1), with
/// `stagnant` consecutive stalled sweeps counted after it.
pub open spec fn decide(sweeps: nat, stagnant: nat, report: SweepReport) -> Option<CcdOutcome> {
    if report.converged {
        Some(CcdOutcome::Converged)
    } else if report.stalled && stagnant >= STAG && report.near_optimal {
        Some(CcdOutcome::Stagnated)
    } else if sweeps == TOTAL_STEPS {
        Some(CcdOutcome::Exhausted)
    } else {
        None
    }
}

/// The count of consecutive stalled sweeps after the sweeps `0..=k` of a
/// run that reported `reports`.
pub open spec fn stagnant_after(reports: Seq<SweepReport>, k: nat) -> nat
    decreases k,
{
    let before = if k == 0 {
        0
    } else {
        stagnant_after(reports, (k - 1) as nat)
    };
    next_stagnant(before, reports[k as int])
}

/// Whether the solver stops after sweep `k` (counted from 0) of a run that
/// reported `reports`, and why.
pub open spec fn decision_at(reports: Seq<SweepReport>, k: nat) -> Option<CcdOutcome> {
    decide(k + 1, stagnant_after(reports, k), reports[k as int])
}

/// The solver stops after at most `TOTAL_STEPS` sweeps, whatever the
/// sweeps report.
pub proof fn lemma_stops_within_total_steps(reports: Seq<SweepReport>)
    requires
        reports.len() >= TOTAL_STEPS,
    ensures
        decision_at(reports, (TOTAL_STEPS - 1) as nat) is Some,
{
}

/// The solver reports convergence exactly after a sweep that met the
/// convergence tolerance.
pub proof fn lemma_converged_exactly_when_reported(reports: Seq<SweepReport>, k: nat)
    requires
        k < reports.len(),
    ensures
        (decision_at(reports, k) == Some(CcdOutcome::Converged)) == reports[k as int].converged,
{
}

/// The counter of stalled sweeps never exceeds the sweeps done, and where
/// it exceeds `d`, the sweep `d` places back was stalled.
pub proof fn lemma_stagnant_counts_stalled(reports: Seq<SweepReport>, k: nat, d: nat)
    requires
        k < reports.len(),
    ensures
        stagnant_after(reports, k) <= k + 1,
        d <= k && stagnant_after(reports, k) > d ==> reports[k - d].stalled,
    decreases k,
{
    if k > 0 {
        lemma_stagnant_counts_stalled(reports, (k - 1) as nat, (d - 1) as nat);
        if d > 0 && d <= k && stagnant_after(reports, k) > d {
            assert(reports[k as int].stalled);
            assert(stagnant_after(reports, (k - 1) as nat) > d - 1);
            assert((k - 1) - (d - 1) == k - d);
        }
    }
}

/// The solver reports stagnation only after `STAG` consecutive stalled
/// sweeps near the optimum.
pub proof fn lemma_stagnation_needs_stalled_run(reports: Seq<SweepReport>, k: nat)
    requires
        k < reports.len(),
        decision_at(reports, k) == Some(CcdOutcome::Stagnated),
    ensures
        k + 1 >= STAG,
        reports[k as int].near_optimal,
        !reports[k as int].converged,
        forall|t: int| k + 1 - STAG <= t <= k ==> #[trigger] reports[t].stalled,
{
    lemma_stagnant_counts_stalled(reports, k, 0);
    assert forall|t: int| k + 1 - STAG <= t <= k implies #[trigger] reports[t].stalled by {
        lemma_stagnant_counts_stalled(reports, k, (k - t) as nat);
    }
}

/// The sweep counters of a run of the solver.
pub struct SweepControl {
    sweeps: usize,
    stagnant: usize,
    reports: Ghost<Seq<SweepReport>>,
}

impl SweepControl {
    /// The reports of the sweeps done so far, oldest first.
    pub closed spec fn history(&self) -> Seq<SweepReport> {
        self.reports@
    }

    /// The number of consecutive stalled sweeps at the end of the history.
    pub closed spec fn stalled_run(&self) -> nat {
        self.stagnant as nat
    }

    /// The controller's counters agree with its history.
    pub closed spec fn well_formed(&self) -> bool {
        &&& self.sweeps == self.reports@.len()
        &&& self.sweeps <= TOTAL_STEPS
        &&& self.stagnant <= self.sweeps
        &&& self.sweeps > 0 ==> self.stagnant == stagnant_after(
            self.reports@,
            (self.sweeps - 1) as nat,
        )
        &&& self.sweeps == 0 ==> self.stagnant == 0
    }

    /// A controller before the first sweep.
    pub fn new() -> (c: Self)
        ensures
            c.well_formed(),
            c.history() == Seq::<SweepReport>::empty(),
            c.stalled_run() == 0,
    {
        SweepControl { sweeps: 0, stagnant: 0, reports: Ghost(Seq::empty()) }
    }

    /// The number of sweeps done.
    pub fn sweeps(&self) -> (n: usize)
        requires
            self.well_formed(),
        ensures
            n == self.history().len(),
            n <= TOTAL_STEPS,
    {
        self.sweeps
    }

    /// Records the report of one more sweep and decides: the sweep's
    /// weights become the best found when they improve on it without
    /// converging, and the solver stops as `decision_at` says.
    pub fn advance(&mut self, report: SweepReport) -> (d: SweepDecision)
        requires
            old(self).well_formed(),
            old(self).history().len() < TOTAL_STEPS,
        ensures
            final(self).well_formed(),
            final(self).history() == old(self).history().push(report),
            d.keep_best == (!report.converged && report.improved),
            d.stop == decision_at(final(self).history(), old(self).history().len() as nat),
            final(self).stalled_run() == next_stagnant(old(self).stalled_run(), report),
            d.stop == decide(
                final(self).history().len() as nat,
                final(self).stalled_run(),
                report,
            ),
    {
        let ghost k = self.sweeps as nat;
        let ghost before = self.reports@;
        let ghost h = before.push(report);
        proof {
            if k > 0 {
                lemma_stagnant_counts_stalled(before, (k - 1) as nat, 0);
                lemma_stagnant_after_prefix(before, h, (k - 1) as nat);
            }
        }
        self.sweeps = self.sweeps + 1;
        if report.stalled {
            self.stagnant = self.stagnant + 1;
        } else {
            self.stagnant = 0;
        }
        self.reports = Ghost(h);
        proof {
            assert(h[k as int] == report);
            assert(stagnant_after(h, k) == self.stagnant);
        }
        let stop = if report.converged {
            Some(CcdOutcome::Converged)
        } else if report.stalled && self.stagnant >= STAG && report.near_optimal {
            Some(CcdOutcome::Stagnated)
        } else if self.sweeps == TOTAL_STEPS {
            Some(CcdOutcome::Exhausted)
        } else {
            None
        };
        SweepDecision { keep_best: !report.converged && report.improved, stop }
    }
}

/// The stall counter after sweep `t` depends on the reports up to `t` only.
proof fn lemma_stagnant_after_prefix(a: Seq<SweepReport>, b: Seq<SweepReport>, t: nat)
    requires
        t < a.len(),
        t < b.len(),
        forall|i: int| 0 <= i <= t ==> a[i] == b[i],
    ensures
        stagnant_after(a, t) == stagnant_after(b, t),
    decreases t,
{
    if t > 0 {
        lemma_stagnant_after_prefix(a, b, (t - 1) as nat);
    }
}

} // verus!
