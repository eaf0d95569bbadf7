//! The accept-or-redraw decision of the exploration sampler.
//!
//! The sampler draws a candidate, measures it against the nearest
//! low-performing and the nearest high-performing observation, and either
//! keeps it or draws again. Redraws are bounded: once the bound is reached
//! the last candidate is kept, so sampling always yields a point.
use vstd::prelude::*;

verus! {

/// What was found out about one candidate.
#[derive(Debug, Clone, Copy, PartialEq, Eq, Structural)]
pub enum Probe {
    /// The log has no low-performing or no high-performing observation, so
    /// there is nothing to steer away from.
    Unbiased,
    /// The nearest low and the nearest high observation coincide, so the
    /// relative distance is undefined.
    Degenerate,
    /// The candidate lies at least half the low-to-high span away from the
    /// nearest low observation.
    Far,
    /// The candidate lies within half of that span; `rejected` is the
    /// outcome of the draw that, with probability growing with closeness and
    /// confidence, turns it down.
    Near { rejected: bool },
}

/// What to do with a candidate.
#[derive(Debug, Clone, Copy, PartialEq, Eq, Structural)]
pub enum Verdict {
    Accept,
    Redraw,
}

/// The state of one round of exploration sampling.
pub struct AvoidanceSampler {
    redraws: u32,
    limit: u32,
}

impl AvoidanceSampler {
    /// Redraws granted so far in this round.
    pub closed spec fn spec_redraws(&self) -> nat {
        self.redraws as nat
    }

    /// Most candidates one round may draw.
    pub closed spec fn spec_limit(&self) -> nat {
        self.limit as nat
    }

    pub closed spec fn wf(&self) -> bool {
        self.redraws < self.limit
    }

    /// A round that draws at most `limit` candidates.
    pub fn new(limit: u32) -> (r: Self)
        requires
            limit >= 1,
        ensures
            r.wf(),
            r.spec_redraws() == 0,
            r.spec_limit() == limit,
    {
        AvoidanceSampler { redraws: 0, limit }
    }

    /// Whether a candidate is turned down: only a near candidate whose
    /// rejection draw came up.
    pub open spec fn turned_down(p: Probe) -> bool {
        p matches Probe::Near { rejected: true }
    }

    /// Judges the latest candidate. It is drawn again only when it was turned
    /// down and the round may still draw another; every other candidate,
    /// and the last one the round may draw, is kept.
    pub fn judge(&mut self, probe: Probe) -> (r: Verdict)
        requires
            old(self).wf(),
        ensures
            final(self).wf(),
            final(self).spec_limit() == old(self).spec_limit(),
            r == (if Self::turned_down(probe) && old(self).spec_redraws() + 1 < old(self).spec_limit() {
                Verdict::Redraw
            } else {
                Verdict::Accept
            }),
            final(self).spec_redraws() == old(self).spec_redraws() + (if r == Verdict::Redraw {
                1int
            } else {
                0int
            }),
    {
        let turned_down = match probe {
            Probe::Near { rejected } => rejected,
            _ => false,
        };
        if turned_down && self.redraws + 1 < self.limit {
            self.redraws = self.redraws + 1;
            Verdict::Redraw
        } else {
            Verdict::Accept
        }
    }
}

} // verus!
