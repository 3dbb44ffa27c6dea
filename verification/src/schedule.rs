//! The order of work in a fit by batch gradient descent.
//!
//! A fit runs a fixed number of rounds. Each round first computes the
//! hypothesis of every training row from the parameters as the round found
//! them, and only then updates every parameter from the complete hypothesis
//! vector. A `Schedule` hands these steps out one by one; the caller does the
//! arithmetic of each step.

use vstd::prelude::*;
use vstd::arithmetic::div_mod::lemma_fundamental_div_mod;
use vstd::arithmetic::div_mod::lemma_fundamental_div_mod_converse;
use crate::shape::FitError;
use crate::shape::check_shapes;
use crate::shape::shape_verdict;

verus! {

/// One unit of work of a fit.
#[derive(Clone, Copy, Debug, PartialEq, Eq, Structural)]
pub enum Step {
    /// Compute the hypothesis of the training row with this index from the
    /// current parameters.
    Hypothesis(usize),
    /// Update the parameter with this index from the hypothesis vector.
    Update(usize),
    /// The fit is over: the parameters are final.
    Done,
}

/// The part of a round that a schedule is in.
#[derive(Clone, Copy, Debug, PartialEq, Eq, Structural)]
enum Phase {
    /// The pass over the training rows.
    Hypothesis,
    /// The pass over the parameters.
    Update,
}

/// What a schedule stands for: the sizes of the fit and the number of steps
/// already handed out.
pub struct Plan {
    /// The number of training rows.
    pub rows: nat,
    /// The length of the parameter vector.
    pub params: nat,
    /// The number of rounds.
    pub iterations: nat,
    /// The number of steps handed out so far.
    pub issued: nat,
}

/// The step with number `k`, counted from 0, of a fit of `iterations` rounds
/// over `rows` training rows and `params` parameters: round `k / (rows +
/// params)` visits the rows in order and then the parameters in order; after
/// the last round every step is `Done`.
pub open spec fn step_at(rows: nat, params: nat, iterations: nat, k: nat) -> Step {
    let period = rows + params;
    if period == 0 || k >= iterations * period {
        Step::Done
    } else if k % period < rows {
        Step::Hypothesis((k % period) as usize)
    } else {
        Step::Update((k % period - rows) as usize)
    }
}

impl Plan {
    /// The number of steps of the whole fit.
    pub open spec fn total(self) -> nat {
        self.iterations * (self.rows + self.params)
    }

    /// No step is left.
    pub open spec fn finished(self) -> bool {
        self.issued >= self.total()
    }

    /// The step that is handed out next.
    pub open spec fn current(self) -> Step {
        step_at(self.rows, self.params, self.iterations, self.issued)
    }

    /// The plan after its next step was handed out; a finished plan stays as
    /// it is.
    pub open spec fn advanced(self) -> Plan {
        if self.finished() {
            self
        } else {
            Plan { issued: self.issued + 1, ..self }
        }
    }
}

/// The steps of a fit, handed out in order.
#[derive(Debug)]
pub struct Schedule {
    num_train: usize,
    num_feat: usize,
    iterations: u32,
    round: u32,
    phase: Phase,
    index: usize,
}

impl View for Schedule {
    type V = Plan;

    closed spec fn view(&self) -> Plan {
        Plan {
            rows: self.num_train as nat,
            params: self.num_feat as nat,
            iterations: self.iterations as nat,
            issued: (self.round * (self.num_train + self.num_feat) + match self.phase {
                Phase::Hypothesis => self.index as int,
                Phase::Update => self.num_train + self.index,
            }) as nat,
        }
    }
}

impl Schedule {
    /// There is a training row, and the place in the round lies inside the
    /// pass it belongs to; after the last round the place is the start of a
    /// round.
    #[verifier::type_invariant]
    closed spec fn wf(&self) -> bool {
        &&& self.num_train >= 1
        &&& self.round <= self.iterations
        &&& self.round == self.iterations ==> self.phase == Phase::Hypothesis && self.index == 0
        &&& self.round < self.iterations ==> match self.phase {
            Phase::Hypothesis => self.index < self.num_train,
            Phase::Update => self.index < self.num_feat,
        }
    }

    /// Plans a fit of `iterations` rounds for a training set of the given
    /// shape, or refuses the shape. No step has been handed out yet.
    pub fn new(
        widths: &[usize],
        num_labels: usize,
        num_feat: usize,
        iterations: u32,
    ) -> (made: Result<Schedule, FitError>)
        ensures
            match made {
                Ok(schedule) => {
                    &&& shape_verdict(widths@, num_labels, num_feat) is Ok
                    &&& schedule@ == (Plan {
                        rows: num_labels as nat,
                        params: num_feat as nat,
                        iterations: iterations as nat,
                        issued: 0,
                    })
                },
                Err(error) => shape_verdict(widths@, num_labels, num_feat) == Err::<(), FitError>(
                    error,
                ),
            },
            widths@.len() != num_labels ==> made matches Err(FitError::ShapeMismatch),
            widths@.len() == 0 && num_labels == 0 ==> made matches Err(FitError::EmptyTrainingSet),
    {
        match check_shapes(widths, num_labels, num_feat) {
            Err(error) => Err(error),
            Ok(()) => {
                assert(0 * (num_labels + num_feat) == 0) by (nonlinear_arith);
                Ok(
                    Schedule {
                        num_train: num_labels,
                        num_feat,
                        iterations,
                        round: 0,
                        phase: Phase::Hypothesis,
                        index: 0,
                    },
                )
            },
        }
    }

    /// Moves to a place in a round, all at once.
    fn place(&mut self, round: u32, phase: Phase, index: usize)
        requires
            old(self).num_train >= 1,
            round <= old(self).iterations,
            round == old(self).iterations ==> phase == Phase::Hypothesis && index == 0,
            round < old(self).iterations ==> match phase {
                Phase::Hypothesis => index < old(self).num_train,
                Phase::Update => index < old(self).num_feat,
            },
        ensures
            *final(self) == (Schedule { round, phase, index, ..*old(self) }),
    {
        *self = Schedule {
            num_train: self.num_train,
            num_feat: self.num_feat,
            iterations: self.iterations,
            round,
            phase,
            index,
        };
    }

    /// Hands out the next step and moves on. The index that a step carries
    /// lies inside the training set, or inside the parameter vector. Once the
    /// last round is through, and at once where there are no rounds, the step
    /// is `Done` and the schedule stays as it is.
    pub fn next(&mut self) -> (step: Step)
        ensures
            step == old(self)@.current(),
            final(self)@ == old(self)@.advanced(),
            step is Done <==> old(self)@.finished(),
            old(self)@.iterations == 0 ==> step is Done && *final(self) == *old(self),
            match step {
                Step::Hypothesis(row) => row < old(self)@.rows,
                Step::Update(param) => param < old(self)@.params,
                Step::Done => *final(self) == *old(self),
            },
    {
        let ghost period: int = self.num_train + self.num_feat;
        let ghost round: int = self.round as int;
        let ghost iterations: int = self.iterations as int;
        let ghost before: int = self@.issued as int;
        proof {
            use_type_invariant(&*self);
        }
        if self.round == self.iterations {
            return Step::Done;
        }
        proof {
            assert(round * period + period <= iterations * period) by (nonlinear_arith)
                requires
                    round < iterations,
                    period >= 1,
            ;
            assert((round + 1) * period == round * period + period) by (nonlinear_arith);
            assert(round * period >= 0) by (nonlinear_arith)
                requires
                    round >= 0,
                    period >= 1,
            ;
        }
        match self.phase {
            Phase::Hypothesis => {
                let row = self.index;
                proof {
                    lemma_fundamental_div_mod_converse(before, period, round, row as int);
                }
                if row + 1 < self.num_train {
                    self.place(self.round, Phase::Hypothesis, row + 1);
                } else if self.num_feat > 0 {
                    self.place(self.round, Phase::Update, 0);
                } else {
                    self.place(self.round + 1, Phase::Hypothesis, 0);
                }
                Step::Hypothesis(row)
            },
            Phase::Update => {
                let param = self.index;
                proof {
                    lemma_fundamental_div_mod_converse(
                        before,
                        period,
                        round,
                        self.num_train + param,
                    );
                }
                if param + 1 < self.num_feat {
                    self.place(self.round, Phase::Update, param + 1);
                } else {
                    self.place(self.round + 1, Phase::Hypothesis, 0);
                }
                Step::Update(param)
            },
        }
    }

    /// The number of training rows.
    pub fn num_train(&self) -> (rows: usize)
        ensures
            rows == self@.rows,
    {
        self.num_train
    }

    /// The length of the parameter vector.
    pub fn num_feat(&self) -> (params: usize)
        ensures
            params == self@.params,
    {
        self.num_feat
    }

    /// The number of rounds.
    pub fn iterations(&self) -> (rounds: u32)
        ensures
            rounds == self@.iterations,
    {
        self.iterations
    }

    /// Whether every step has been handed out.
    pub fn is_finished(&self) -> (over: bool)
        ensures
            over == self@.finished(),
    {
        proof {
            use_type_invariant(self);
            let period: int = self.num_train + self.num_feat;
            let round: int = self.round as int;
            let iterations: int = self.iterations as int;
            assert(round < iterations ==> round * period + period <= iterations * period)
                by (nonlinear_arith)
                requires
                    period >= 1,
            ;
            assert(round * period >= 0) by (nonlinear_arith)
                requires
                    round >= 0,
                    period >= 1,
            ;
        }
        self.round == self.iterations
    }
}

/// A fit of no rounds has no work: every step is `Done`, so no parameter is
/// ever updated and the parameter vector stays as the caller gave it.
pub proof fn lemma_no_rounds_no_steps(rows: nat, params: nat, k: nat)
    ensures
        step_at(rows, params, 0, k) == Step::Done,
{
    assert(0 * (rows + params) == 0) by (nonlinear_arith);
}

/// A fit over at least one row hands out `Done` from the step on that follows
/// its last round, and never before.
pub proof fn lemma_done_after_last_round(rows: nat, params: nat, iterations: nat, k: nat)
    requires
        rows >= 1,
    ensures
        step_at(rows, params, iterations, k) is Done <==> k >= iterations * (rows + params),
{
}

/// Each round, taken from its first step, visits every training row in
/// order and then every parameter in order: exactly `rows` hypothesis steps
/// followed by exactly `params` update steps.
pub proof fn lemma_round_layout(rows: nat, params: nat, iterations: nat, round: nat, offset: nat)
    requires
        rows <= usize::MAX,
        params <= usize::MAX,
        round < iterations,
        offset < rows + params,
    ensures
        step_at(rows, params, iterations, round * (rows + params) + offset) == if offset < rows {
            Step::Hypothesis(offset as usize)
        } else {
            Step::Update((offset - rows) as usize)
        },
{
    let period: int = (rows + params) as int;
    let k: int = round * period + offset;
    assert(round * period + period <= iterations * period) by (nonlinear_arith)
        requires
            round < iterations,
            period >= 1,
    ;
    assert(round * period >= 0) by (nonlinear_arith)
        requires
            round >= 0,
            period >= 1,
    ;
    lemma_fundamental_div_mod_converse(k, period, round as int, offset as int);
}

/// Batch descent: inside one round every hypothesis step comes before every
/// update step, so each hypothesis is computed from the parameters as the
/// round found them.
pub proof fn lemma_hypotheses_before_updates(
    rows: nat,
    params: nat,
    iterations: nat,
    first: nat,
    second: nat,
)
    requires
        rows + params > 0,
        first / (rows + params) == second / (rows + params),
        step_at(rows, params, iterations, first) is Hypothesis,
        step_at(rows, params, iterations, second) is Update,
    ensures
        first < second,
{
    let period: int = (rows + params) as int;
    lemma_fundamental_div_mod(first as int, period);
    lemma_fundamental_div_mod(second as int, period);
}

} // verus!
