//! The learning loop as a state machine.
//!
//! The caller performs each action, evaluates the resulting policy with its
//! performance oracle, and records the observation; the learner decides
//! what comes next. A run bootstraps with `BOOTSTRAP_STEPS` uniform samples,
//! then searches until the best score reaches the convergence threshold or
//! the iteration bound is spent.
use vstd::prelude::*;
use crate::history::{BOOTSTRAP_STEPS, HistoryLog};
use crate::vector::DimensionMismatch;

verus! {

/// Where a run stands.
#[derive(Debug, Clone, Copy, PartialEq, Eq, Structural)]
pub enum Phase {
    Bootstrap,
    Searching,
    /// The best score reached the threshold: terminal.
    Converged,
    /// The search used up its iterations without converging: terminal.
    Exhausted,
}

/// What the caller is to do next.
#[derive(Debug, Clone, Copy, PartialEq, Eq, Structural)]
pub enum Action {
    /// Evaluate a policy drawn uniformly from the unit cube.
    Explore,
    /// Evaluate the policy that the policy selector proposes.
    Propose,
    /// The run is over; `converged` tells whether the threshold was reached.
    Stop { converged: bool },
}

/// Why an observation was not recorded.
#[derive(Debug, Clone, Copy, PartialEq, Eq, Structural)]
pub enum RecordError {
    /// The run has already ended.
    Finished,
    /// The policy does not have the configured number of components.
    Dimension(DimensionMismatch),
}

/// Some score of `s` is at least `t`.
pub open spec fn reached(s: Seq<u64>, t: u64) -> bool {
    exists|i: int| 0 <= i < s.len() && s[i] >= t
}

/// The phase of a run whose log holds scores `s`, with convergence
/// threshold `t` and at most `max` search iterations.
pub open spec fn phase_of(s: Seq<u64>, t: u64, max: nat) -> Phase {
    if s.len() < BOOTSTRAP_STEPS {
        Phase::Bootstrap
    } else if s.len() > BOOTSTRAP_STEPS && reached(s, t) {
        Phase::Converged
    } else if s.len() - BOOTSTRAP_STEPS >= max {
        Phase::Exhausted
    } else {
        Phase::Searching
    }
}

/// The action that belongs to a phase.
pub open spec fn action_of(p: Phase) -> Action {
    match p {
        Phase::Bootstrap => Action::Explore,
        Phase::Searching => Action::Propose,
        Phase::Converged => Action::Stop { converged: true },
        Phase::Exhausted => Action::Stop { converged: false },
    }
}

/// One run of the search: its history and the rule that ends it.
pub struct Learner<T> {
    history: HistoryLog<T>,
    threshold: u64,
    max_iterations: usize,
    phase: Phase,
}

impl<T> Learner<T> {
    pub closed spec fn spec_history(&self) -> HistoryLog<T> {
        self.history
    }

    /// Score at or above which the run has converged.
    pub closed spec fn spec_threshold(&self) -> u64 {
        self.threshold
    }

    /// Most search iterations after the bootstrap.
    pub closed spec fn spec_max_iterations(&self) -> nat {
        self.max_iterations as nat
    }

    pub closed spec fn spec_phase(&self) -> Phase {
        self.phase
    }

    pub closed spec fn wf(&self) -> bool {
        &&& self.history.wf()
        &&& self.phase == phase_of(self.history.scores(), self.threshold, self.max_iterations as nat)
    }

    /// A fresh run over policies of `dims` components.
    pub fn new(dims: usize, threshold: u64, max_iterations: usize) -> (r: Self)
        requires
            dims >= 1,
        ensures
            r.wf(),
            r.spec_history().spec_dims() == dims,
            r.spec_history().scores().len() == 0,
            r.spec_threshold() == threshold,
            r.spec_max_iterations() == max_iterations,
            r.spec_phase() == Phase::Bootstrap,
    {
        Learner { history: HistoryLog::new(dims), threshold, max_iterations, phase: Phase::Bootstrap }
    }

    /// The observations made so far.
    pub fn history(&self) -> (r: &HistoryLog<T>)
        requires
            self.wf(),
        ensures
            *r == self.spec_history(),
            r.wf(),
    {
        &self.history
    }

    pub fn phase(&self) -> (r: Phase)
        ensures
            r == self.spec_phase(),
    {
        self.phase
    }

    /// What the caller is to do next.
    pub fn next_action(&self) -> (r: Action)
        ensures
            r == action_of(self.spec_phase()),
    {
        match self.phase {
            Phase::Bootstrap => Action::Explore,
            Phase::Searching => Action::Propose,
            Phase::Converged => Action::Stop { converged: true },
            Phase::Exhausted => Action::Stop { converged: false },
        }
    }

    /// Records the evaluation of the policy that the last action produced,
    /// and moves the run on. Every recorded step adds exactly one
    /// observation, so after `k` steps the log holds `k`.
    pub fn record(&mut self, policy: Vec<T>, score: u64) -> (r: Result<(), RecordError>)
        requires
            old(self).wf(),
        ensures
            final(self).wf(),
            final(self).spec_threshold() == old(self).spec_threshold(),
            final(self).spec_max_iterations() == old(self).spec_max_iterations(),
            final(self).spec_history().spec_dims() == old(self).spec_history().spec_dims(),
            r == Err::<(), RecordError>(RecordError::Finished) <==> (old(self).spec_phase() == Phase::Converged
                || old(self).spec_phase() == Phase::Exhausted),
            r matches Err(RecordError::Dimension(e)) ==> (old(self).spec_phase() == Phase::Bootstrap
                || old(self).spec_phase() == Phase::Searching) && policy@.len()
                != old(self).spec_history().spec_dims() && e.expected == old(self).spec_history().spec_dims()
                && e.found == policy@.len(),
            r is Ok <==> (old(self).spec_phase() == Phase::Bootstrap || old(self).spec_phase()
                == Phase::Searching) && policy@.len() == old(self).spec_history().spec_dims(),
            r is Ok ==> final(self).spec_history().scores() == old(self).spec_history().scores().push(score)
                && final(self).spec_history().policies() == old(self).spec_history().policies().push(policy@),
            r is Err ==> final(self).spec_history() == old(self).spec_history(),
            final(self).spec_phase() == phase_of(
                final(self).spec_history().scores(),
                old(self).spec_threshold(),
                old(self).spec_max_iterations(),
            ),
    {
        match self.phase {
            Phase::Converged | Phase::Exhausted => {
                return Err(RecordError::Finished);
            },
            _ => {},
        }
        match self.history.append(policy, score) {
            Err(e) => {
                return Err(RecordError::Dimension(e));
            },
            Ok(()) => {},
        }
        let n = self.history.len();
        let mut phase = Phase::Searching;
        if n < BOOTSTRAP_STEPS {
            phase = Phase::Bootstrap;
        } else if n > BOOTSTRAP_STEPS && self.best_reaches_threshold() {
            phase = Phase::Converged;
        } else if n - BOOTSTRAP_STEPS >= self.max_iterations {
            phase = Phase::Exhausted;
        }
        self.phase = phase;
        Ok(())
    }

    fn best_reaches_threshold(&self) -> (r: bool)
        requires
            self.history.wf(),
        ensures
            r <==> reached(self.history.scores(), self.threshold),
    {
        match self.history.best() {
            Err(_) => false,
            Ok(i) => {
                let b = self.history.score(i);
                proof {
                    if !(b >= self.threshold) {
                        assert forall|k: int| 0 <= k < self.history.scores().len() implies !(
                        self.history.scores()[k] >= self.threshold) by {
                            assert(self.history.scores()[k] <= self.history.scores()[i as int]);
                        }
                    }
                }
                b >= self.threshold
            },
        }
    }
}

} // verus!
