//! The append-only log of observations made during one run.
use vstd::prelude::*;
use crate::order::{best_position, is_best, is_ranking, lists, rank, select, selected};
use crate::vector::DimensionMismatch;

verus! {

/// Number of uniformly sampled observations that open every run. While the
/// log holds no more than this many, the search has no evidence to lean on.
pub const BOOTSTRAP_STEPS: usize = 3;

/// A query that needs at least one observation met an empty log.
#[derive(Debug, Clone, Copy, PartialEq, Eq, Structural)]
pub struct EmptyHistory;

/// Observations in the order they were made: each is a policy of `dims`
/// components and the score of its performance.
pub struct HistoryLog<T> {
    dims: usize,
    policies: Vec<Vec<T>>,
    scores: Vec<u64>,
}

/// `low` lists, in increasing order, exactly the positions whose score is under `t`.
pub open spec fn is_split_below(s: Seq<u64>, t: u64, low: Seq<usize>) -> bool {
    &&& forall|a: int, b: int| 0 <= a < b < low.len() ==> #[trigger] low[a] < #[trigger] low[b]
    &&& forall|a: int| 0 <= a < low.len() ==> #[trigger] low[a] < s.len() && s[low[a] as int] < t
    &&& forall|k: int| 0 <= k < s.len() && s[k] < t ==> #[trigger] lists(low, k)
}

/// `high` lists, in increasing order, exactly the positions whose score is at least `t`.
pub open spec fn is_split_above(s: Seq<u64>, t: u64, high: Seq<usize>) -> bool {
    &&& forall|a: int, b: int| 0 <= a < b < high.len() ==> #[trigger] high[a] < #[trigger] high[b]
    &&& forall|a: int| 0 <= a < high.len() ==> #[trigger] high[a] < s.len() && s[high[a] as int] >= t
    &&& forall|k: int| 0 <= k < s.len() && s[k] >= t ==> #[trigger] lists(high, k)
}

impl<T> HistoryLog<T> {
    /// Length of every policy in the log.
    pub closed spec fn spec_dims(&self) -> nat {
        self.dims as nat
    }

    /// The policies, oldest first.
    pub closed spec fn policies(&self) -> Seq<Seq<T>> {
        self.policies@.map_values(|p: Vec<T>| p@)
    }

    /// The scores, oldest first; `scores()[i]` belongs to `policies()[i]`.
    pub closed spec fn scores(&self) -> Seq<u64> {
        self.scores@
    }

    pub closed spec fn wf(&self) -> bool {
        &&& self.dims >= 1
        &&& self.policies@.len() == self.scores@.len()
        &&& forall|i: int| 0 <= i < self.policies@.len() ==> #[trigger] self.policies@[i]@.len() == self.dims
    }

    /// An empty log for policies of `dims` components.
    pub fn new(dims: usize) -> (r: Self)
        requires
            dims >= 1,
        ensures
            r.wf(),
            r.spec_dims() == dims,
            r.scores().len() == 0,
            r.policies().len() == 0,
    {
        HistoryLog { dims, policies: Vec::new(), scores: Vec::new() }
    }

    pub fn dims(&self) -> (r: usize)
        ensures
            r == self.spec_dims(),
    {
        self.dims
    }

    /// Number of observations.
    pub fn len(&self) -> (r: usize)
        requires
            self.wf(),
        ensures
            r == self.scores().len(),
            r == self.policies().len(),
    {
        self.scores.len()
    }

    pub fn is_empty(&self) -> (r: bool)
        requires
            self.wf(),
        ensures
            r <==> self.scores().len() == 0,
    {
        self.scores.len() == 0
    }

    /// Records `policy` with the score of its performance at the end of the
    /// log. A policy whose length is not `dims` is refused and the log stays
    /// as it was.
    pub fn append(&mut self, policy: Vec<T>, score: u64) -> (r: Result<(), DimensionMismatch>)
        requires
            old(self).wf(),
        ensures
            final(self).wf(),
            final(self).spec_dims() == old(self).spec_dims(),
            r is Ok <==> policy@.len() == old(self).spec_dims(),
            r matches Err(e) ==> e.expected == old(self).spec_dims() && e.found == policy@.len(),
            r is Ok ==> final(self).scores() == old(self).scores().push(score)
                && final(self).policies() == old(self).policies().push(policy@),
            r is Err ==> *final(self) == *old(self),
    {
        if policy.len() != self.dims {
            return Err(DimensionMismatch { expected: self.dims, found: policy.len() });
        }
        let ghost before = self.policies@;
        let ghost p = policy@;
        self.policies.push(policy);
        self.scores.push(score);
        proof {
            assert(self.policies@.map_values(|p: Vec<T>| p@) =~= before.map_values(
                |p: Vec<T>| p@,
            ).push(p));
        }
        Ok(())
    }

    /// The policy of observation `i`.
    pub fn policy(&self, i: usize) -> (r: &Vec<T>)
        requires
            self.wf(),
            i < self.scores().len(),
        ensures
            r@ == self.policies()[i as int],
            r@.len() == self.spec_dims(),
    {
        &self.policies[i]
    }

    /// The score of observation `i`.
    pub fn score(&self, i: usize) -> (r: u64)
        requires
            self.wf(),
            i < self.scores().len(),
        ensures
            r == self.scores()[i as int],
    {
        self.scores[i]
    }

    /// All scores, oldest first.
    pub fn score_list(&self) -> (r: &Vec<u64>)
        ensures
            r@ == self.scores(),
    {
        &self.scores
    }

    /// The observation with the highest score, the earliest among equals.
    pub fn best(&self) -> (r: Result<usize, EmptyHistory>)
        requires
            self.wf(),
        ensures
            r is Err <==> self.scores().len() == 0,
            r matches Ok(i) ==> is_best(self.scores(), i as int),
    {
        match best_position(&self.scores) {
            Some(i) => Ok(i),
            None => Err(EmptyHistory),
        }
    }

    /// Whether the run is still in its bootstrap phase: no more than
    /// `BOOTSTRAP_STEPS` observations. Then confidence is zero and the next
    /// policy starts from a uniform sample instead of an avoidance point.
    pub fn in_warmup(&self) -> (r: bool)
        requires
            self.wf(),
        ensures
            r <==> self.scores().len() <= BOOTSTRAP_STEPS,
    {
        self.scores.len() <= BOOTSTRAP_STEPS
    }

    /// The observation whose performance sets the confidence coefficient:
    /// `None` in the bootstrap phase, where the coefficient is zero whatever
    /// the log holds, else the best observation.
    pub fn confidence_basis(&self) -> (r: Option<usize>)
        requires
            self.wf(),
        ensures
            r is None <==> self.scores().len() <= BOOTSTRAP_STEPS,
            r matches Some(i) ==> is_best(self.scores(), i as int),
    {
        if self.in_warmup() {
            None
        } else {
            best_position(&self.scores)
        }
    }

    /// The observations ordered by descending score, equal scores oldest first.
    pub fn ranking(&self) -> (r: Vec<usize>)
        requires
            self.wf(),
        ensures
            is_ranking(self.scores(), r@),
    {
        rank(&self.scores)
    }

    /// The exploitation target: the head of the ranking after one forward
    /// pass in which the pair at `i` and `i + 1` is swapped when `flips[i]`.
    pub fn probabilistic_max(&self, flips: &Vec<bool>) -> (r: Result<usize, EmptyHistory>)
        requires
            self.wf(),
        ensures
            r is Err <==> self.scores().len() == 0,
            r matches Ok(i) ==> selected(self.scores(), flips@, i as int),
    {
        match select(&self.scores, flips) {
            Some(i) => Ok(i),
            None => Err(EmptyHistory),
        }
    }

    /// Splits the observations by score: those under `threshold`, and those
    /// at or above it, each oldest first.
    pub fn partition(&self, threshold: u64) -> (r: (Vec<usize>, Vec<usize>))
        requires
            self.wf(),
        ensures
            is_split_below(self.scores(), threshold, r.0@),
            is_split_above(self.scores(), threshold, r.1@),
    {
        let mut low: Vec<usize> = Vec::new();
        let mut high: Vec<usize> = Vec::new();
        let n = self.scores.len();
        let mut k: usize = 0;
        while k < n
            invariant
                n == self.scores@.len(),
                k <= n,
                forall|a: int, b: int| 0 <= a < b < low@.len() ==> #[trigger] low@[a] < #[trigger] low@[b],
                forall|a: int| 0 <= a < low@.len() ==> #[trigger] low@[a] < k && self.scores@[low@[a] as int] < threshold,
                forall|m: int| 0 <= m < k && self.scores@[m] < threshold ==> #[trigger] lists(low@, m),
                forall|a: int, b: int| 0 <= a < b < high@.len() ==> #[trigger] high@[a] < #[trigger] high@[b],
                forall|a: int| 0 <= a < high@.len() ==> #[trigger] high@[a] < k && self.scores@[high@[a] as int] >= threshold,
                forall|m: int| 0 <= m < k && self.scores@[m] >= threshold ==> #[trigger] lists(high@, m),
            decreases n - k,
        {
            if self.scores[k] < threshold {
                let ghost before = low@;
                low.push(k);
                proof {
                    assert forall|m: int| 0 <= m < k + 1 && self.scores@[m] < threshold implies #[trigger] lists(low@, m) by {
                        if m < k {
                            assert(lists(before, m));
                            let a = choose|a: int| 0 <= a < before.len() && before[a] as int == m;
                            assert(low@[a] == before[a]);
                        } else {
                            assert(low@[before.len() as int] == k);
                        }
                    }
                }
            } else {
                let ghost before = high@;
                high.push(k);
                proof {
                    assert forall|m: int| 0 <= m < k + 1 && self.scores@[m] >= threshold implies #[trigger] lists(high@, m) by {
                        if m < k {
                            assert(lists(before, m));
                            let a = choose|a: int| 0 <= a < before.len() && before[a] as int == m;
                            assert(high@[a] == before[a]);
                        } else {
                            assert(high@[before.len() as int] == k);
                        }
                    }
                }
            }
            k = k + 1;
        }
        (low, high)
    }
}

} // verus!
