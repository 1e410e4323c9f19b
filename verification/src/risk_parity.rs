//! Control of the risk-parity iteration.
//!
//! The solver looks for weights under which every asset contributes the same
//! share of the portfolio's variance. It starts from uniform weights and
//! repeats: evaluate how far each contribution is from the common target; stop
//! if all are within tolerance; otherwise take a step, floor the weights at
//! zero and renormalise them. The host does the arithmetic. This module tells
//! it what to do next, judges what it reports, and ends the iteration after a
//! fixed number of steps whether or not the weights have settled.

use vstd::prelude::*;
use crate::binary64::{abs, below, is_zero, less_than, magnitude, nan, zero, INFINITY, ZERO};

verus! {

/// The number of steps after which the iteration ends, settled or not.
pub const MAX_ITERATIONS: usize = 100;

/// The encoding of 1e-8: contributions all closer than this to the target
/// count as equal.
pub const TOLERANCE: u64 = 0x3E45_798E_E230_8C3A;

/// The encoding of 1e-12, which the host adds to a marginal contribution
/// before it divides by it, so that a contribution of zero divides nothing.
pub const STEP_GUARD: u64 = 0x3D71_9799_812D_EA11;

/// What the host is to do next.
#[derive(Clone, Copy, Debug, PartialEq, Eq, Structural)]
pub enum Directive {
    /// Compute, at the current weights, each asset's risk contribution less
    /// the common target, and report them with `residuals`.
    Evaluate,
    /// Subtract from each weight its residual over its guarded marginal
    /// contribution, floor the weights at zero, and report their sum with
    /// `stepped`.
    Step,
    /// The weights sum to zero: set each to one over their number, and report
    /// with `renormalised`.
    ResetUniform,
    /// Divide each weight by the sum, and report with `renormalised`.
    DivideBySum,
    /// Hand out the current weights. Nothing follows.
    Return,
}

/// What the host can report.
pub enum Report {
    /// The residuals at the current weights, one encoding for each asset.
    Residuals(Seq<u64>),
    /// The encoding of the sum of the weights after a step.
    Stepped(u64),
    /// The weights have been renormalised.
    Renormalised,
}

/// Whether every residual that is a number is closer to zero than the
/// tolerance. One that is not a number is passed over, as it is by a running
/// maximum.
pub open spec fn within_tolerance(residuals: Seq<u64>) -> bool {
    forall|i: int|
        0 <= i < residuals.len() ==> nan(#[trigger] residuals[i]) || magnitude(residuals[i])
            < TOLERANCE
}

/// A weight after flooring: zero where it was below zero, else itself.
pub open spec fn floored(weight: u64) -> u64 {
    if below(weight, ZERO) {
        ZERO
    } else {
        weight
    }
}

/// Where an iteration stands: the steps completed, and what the host has been
/// told to do.
pub struct Progress {
    pub completed: nat,
    pub pending: Directive,
}

impl Progress {
    /// Nothing done yet; the uniform weights are to be evaluated.
    pub open spec fn start() -> Progress {
        Progress { completed: 0, pending: Directive::Evaluate }
    }

    /// No more steps than the cap, and nothing left to do once it is reached.
    pub open spec fn valid(self) -> bool {
        &&& self.completed <= MAX_ITERATIONS
        &&& self.pending != Directive::Return ==> self.completed < MAX_ITERATIONS
    }

    /// Whether the iteration is over.
    pub open spec fn finished(self) -> bool {
        self.pending == Directive::Return
    }

    /// Whether `report` answers the pending directive.
    pub open spec fn expects(self, report: Report) -> bool {
        match report {
            Report::Residuals(_) => self.pending == Directive::Evaluate,
            Report::Stepped(_) => self.pending == Directive::Step,
            Report::Renormalised => self.pending == Directive::ResetUniform || self.pending
                == Directive::DivideBySum,
        }
    }

    /// Residuals within tolerance end the iteration; others call for a step.
    pub open spec fn after_residuals(self, residuals: Seq<u64>) -> Progress {
        if self.pending != Directive::Evaluate {
            self
        } else if within_tolerance(residuals) {
            Progress { pending: Directive::Return, ..self }
        } else {
            Progress { pending: Directive::Step, ..self }
        }
    }

    /// Weights that sum to zero are reset; others are divided by the sum.
    pub open spec fn after_step(self, sum: u64) -> Progress {
        if self.pending != Directive::Step {
            self
        } else if zero(sum) {
            Progress { pending: Directive::ResetUniform, ..self }
        } else {
            Progress { pending: Directive::DivideBySum, ..self }
        }
    }

    /// Renormalising completes a step. Another evaluation follows unless the
    /// cap is reached.
    pub open spec fn after_renormalising(self) -> Progress {
        if self.pending != Directive::ResetUniform && self.pending != Directive::DivideBySum {
            self
        } else if self.completed + 1 < MAX_ITERATIONS {
            Progress { completed: self.completed + 1, pending: Directive::Evaluate }
        } else {
            Progress { completed: self.completed + 1, pending: Directive::Return }
        }
    }

    /// The progress after one report. A report that does not answer the
    /// pending directive changes nothing.
    pub open spec fn after(self, report: Report) -> Progress {
        match report {
            Report::Residuals(residuals) => self.after_residuals(residuals),
            Report::Stepped(sum) => self.after_step(sum),
            Report::Renormalised => self.after_renormalising(),
        }
    }

    /// The progress after a series of reports, from the start.
    pub open spec fn after_all(reports: Seq<Report>) -> Progress
        decreases reports.len(),
    {
        if reports.len() == 0 {
            Progress::start()
        } else {
            Progress::after_all(reports.drop_last()).after(reports.last())
        }
    }

    /// A bound on the reports that can still be heeded before the iteration
    /// is over.
    pub open spec fn budget(self) -> int {
        match self.pending {
            Directive::Return => 0,
            Directive::Evaluate => 3 * (MAX_ITERATIONS - self.completed),
            Directive::Step => 3 * (MAX_ITERATIONS - self.completed) - 1,
            Directive::ResetUniform | Directive::DivideBySum => 3 * (MAX_ITERATIONS
                - self.completed) - 2,
        }
    }
}

/// How many of the reports answered the directive that was pending when they
/// came.
pub open spec fn heeded(reports: Seq<Report>) -> nat
    decreases reports.len(),
{
    if reports.len() == 0 {
        0
    } else {
        let before = heeded(reports.drop_last());
        if Progress::after_all(reports.drop_last()).expects(reports.last()) {
            before + 1
        } else {
            before
        }
    }
}

/// One report keeps a valid progress valid, never undoes a step, and, where
/// it answers the pending directive, uses up some of the budget.
pub proof fn lemma_report_advances(progress: Progress, report: Report)
    requires
        progress.valid(),
    ensures
        progress.after(report).valid(),
        progress.after(report).completed >= progress.completed,
        progress.expects(report) ==> progress.after(report).budget() < progress.budget(),
        !progress.expects(report) ==> progress.after(report) == progress,
        progress.after(report).budget() >= 0,
{
}

/// Whatever the host reports, and in whatever order, the iteration never
/// takes more steps than the cap, and the reports it heeds are bounded: after
/// three for each step of the cap, the directive is `Return`.
pub proof fn lemma_iteration_is_capped(reports: Seq<Report>)
    ensures
        Progress::after_all(reports).valid(),
        Progress::after_all(reports).completed <= MAX_ITERATIONS,
        heeded(reports) + Progress::after_all(reports).budget() <= 3 * MAX_ITERATIONS,
        heeded(reports) >= 3 * MAX_ITERATIONS ==> Progress::after_all(reports).finished(),
    decreases reports.len(),
{
    if reports.len() > 0 {
        lemma_iteration_is_capped(reports.drop_last());
        lemma_report_advances(Progress::after_all(reports.drop_last()), reports.last());
    }
}

/// Once over, the iteration stays over: no report changes anything.
pub proof fn lemma_finished_is_final(progress: Progress, report: Report)
    requires
        progress.finished(),
    ensures
        progress.after(report) == progress,
{
}

/// Residuals within tolerance end the iteration at once, with no further
/// step.
pub proof fn lemma_settled_weights_return(progress: Progress, residuals: Seq<u64>)
    requires
        progress.pending == Directive::Evaluate,
        within_tolerance(residuals),
    ensures
        progress.after_residuals(residuals).finished(),
        progress.after_residuals(residuals).completed == progress.completed,
{
}

/// Decides whether the residuals are all within tolerance.
pub fn converged(residuals: &Vec<u64>) -> (r: bool)
    ensures
        r == within_tolerance(residuals@),
{
    let mut i: usize = 0;
    while i < residuals.len()
        invariant
            i <= residuals.len(),
            forall|k: int|
                0 <= k < i ==> nan(#[trigger] residuals[k]) || magnitude(residuals[k]) < TOLERANCE,
        decreases residuals.len() - i,
    {
        let size: u64 = abs(residuals[i]);
        if size <= INFINITY && size >= TOLERANCE {
            return false;
        }
        i += 1;
    }
    true
}

/// Floors one weight at zero.
pub fn floor_at_zero(weight: u64) -> (r: u64)
    ensures
        r == floored(weight),
        !below(r, ZERO),
{
    if less_than(weight, ZERO) {
        ZERO
    } else {
        weight
    }
}

/// Floors every weight at zero: no short positions.
pub fn floor_weights(weights: &mut Vec<u64>)
    ensures
        final(weights)@.len() == old(weights)@.len(),
        forall|i: int|
            0 <= i < old(weights)@.len() ==> #[trigger] final(weights)@[i] == floored(
                old(weights)@[i],
            ),
        forall|i: int| 0 <= i < final(weights)@.len() ==> !below(#[trigger] final(weights)@[i], ZERO),
{
    let mut i: usize = 0;
    while i < weights.len()
        invariant
            i <= weights.len(),
            weights@.len() == old(weights)@.len(),
            forall|k: int| 0 <= k < i ==> #[trigger] weights@[k] == floored(old(weights)@[k]),
            forall|k: int| i <= k < weights@.len() ==> #[trigger] weights@[k] == old(weights)@[k],
        decreases weights.len() - i,
    {
        let floored_weight: u64 = floor_at_zero(weights[i]);
        weights.set(i, floored_weight);
        i += 1;
    }
}

/// The state of one run of the solver.
pub struct Solver {
    completed: usize,
    pending: Directive,
}

impl View for Solver {
    type V = Progress;

    closed spec fn view(&self) -> Progress {
        Progress { completed: self.completed as nat, pending: self.pending }
    }
}

impl Solver {
    #[verifier::type_invariant]
    spec fn well_formed(self) -> bool {
        self@.valid()
    }

    /// A run that has done nothing yet.
    pub fn new() -> (solver: Solver)
        ensures
            solver@ == Progress::start(),
    {
        Solver { completed: 0, pending: Directive::Evaluate }
    }

    /// What the host is to do next.
    pub fn directive(&self) -> (d: Directive)
        ensures
            d == self@.pending,
    {
        self.pending
    }

    /// The steps completed so far.
    pub fn iterations(&self) -> (n: usize)
        ensures
            n == self@.completed,
            n <= MAX_ITERATIONS,
    {
        proof {
            use_type_invariant(self);
        }
        self.completed
    }

    /// Takes the residuals at the current weights.
    pub fn residuals(&mut self, residuals: &Vec<u64>)
        ensures
            final(self)@ == old(self)@.after_residuals(residuals@),
    {
        proof {
            use_type_invariant(&*self);
        }
        if self.pending == Directive::Evaluate {
            if converged(residuals) {
                self.pending = Directive::Return;
            } else {
                self.pending = Directive::Step;
            }
        }
    }

    /// Takes the sum of the weights after a step.
    pub fn stepped(&mut self, sum: u64)
        ensures
            final(self)@ == old(self)@.after_step(sum),
    {
        proof {
            use_type_invariant(&*self);
        }
        if self.pending == Directive::Step {
            if is_zero(sum) {
                self.pending = Directive::ResetUniform;
            } else {
                self.pending = Directive::DivideBySum;
            }
        }
    }

    /// Takes note that the weights have been renormalised.
    pub fn renormalised(&mut self)
        ensures
            final(self)@ == old(self)@.after_renormalising(),
    {
        proof {
            use_type_invariant(&*self);
        }
        if self.pending == Directive::ResetUniform || self.pending == Directive::DivideBySum {
            let completed: usize = self.completed + 1;
            let pending: Directive = if completed < MAX_ITERATIONS {
                Directive::Evaluate
            } else {
                Directive::Return
            };
            *self = Solver { completed, pending };
        }
    }
}

} // verus!
