//! Running statistics of one level attempt.
//!
//! Counts handled and dropped requests and keeps every handled request's
//! response time (its age at completion, in milliseconds).  The average
//! response time is recomputed whenever a sample is recorded; with zero
//! samples it is reported as `None` ("not applicable") rather than as a
//! degenerate value.

use vstd::prelude::*;

use crate::limits::{MAX_SIM_MS, MAX_TOTAL_REQUESTS};

verus! {

/// Sum of a sequence of response-time samples.
pub open spec fn seq_sum(s: Seq<u64>) -> int
    decreases s.len(),
{
    if s.len() == 0 {
        0
    } else {
        seq_sum(s.drop_last()) + s.last()
    }
}

/// The arithmetic mean of the samples, rounded down; `None` when there are
/// no samples.
pub open spec fn spec_avg(s: Seq<u64>) -> Option<u64> {
    if s.len() == 0 {
        None
    } else {
        Some((seq_sum(s) / (s.len() as int)) as u64)
    }
}

/// A sequence of samples each at most `bound` sums to at most
/// `len * bound`.
pub proof fn lemma_seq_sum_bounded(s: Seq<u64>, bound: u64)
    requires
        forall|i: int| 0 <= i < s.len() ==> s[i] <= bound,
    ensures
        0 <= seq_sum(s) <= s.len() * bound,
    decreases s.len(),
{
    if s.len() > 0 {
        lemma_seq_sum_bounded(s.drop_last(), bound);
        assert((s.len() - 1) * bound + bound == s.len() * bound) by (nonlinear_arith);
    }
}

/// Counts and response-time samples of one level attempt.
pub struct GameStats {
    /// How many requests were dropped.
    pub dropped_requests: usize,
    /// How many requests were handled successfully.
    pub handled_requests: usize,
    /// Response time of each handled request, in milliseconds.
    pub response_times: Vec<u64>,
    /// Mean of `response_times`, rounded down; `None` with zero samples.
    pub avg_response_time: Option<u64>,
}

impl GameStats {
    /// Every handled request left exactly one sample; samples are bounded
    /// by the simulation clock; counts stay below the global request cap.
    pub open spec fn wf(self) -> bool {
        &&& self.handled_requests == self.response_times@.len()
        &&& self.handled_requests + self.dropped_requests <= MAX_TOTAL_REQUESTS
        &&& forall|i: int| 0 <= i < self.response_times@.len() ==> self.response_times@[i] <= MAX_SIM_MS
    }

    /// Sum the recorded response times.
    pub fn sum_response_times(&self) -> (r: u64)
        requires
            self.wf(),
        ensures
            r == seq_sum(self.response_times@),
    {
        let mut total: u64 = 0;
        let mut i: usize = 0;
        while i < self.response_times.len()
            invariant
                self.wf(),
                i <= self.response_times@.len(),
                total == seq_sum(self.response_times@.subrange(0, i as int)),
            decreases self.response_times@.len() - i,
        {
            proof {
                lemma_seq_sum_bounded(self.response_times@.subrange(0, i as int), MAX_SIM_MS);
                assert(i * MAX_SIM_MS <= MAX_TOTAL_REQUESTS * MAX_SIM_MS) by (nonlinear_arith)
                    requires i <= MAX_TOTAL_REQUESTS;
                assert(self.response_times@.subrange(0, i + 1).drop_last()
                    =~= self.response_times@.subrange(0, i as int));
            }
            total = total + self.response_times[i];
            i = i + 1;
        }
        proof {
            assert(self.response_times@.subrange(0, self.response_times@.len() as int)
                =~= self.response_times@);
        }
        total
    }

    /// Recompute the mean of the recorded response times.  With zero
    /// samples the average is "not applicable", never a degenerate value.
    pub fn update_avg_response_time(&mut self)
        requires
            old(self).wf(),
        ensures
            final(self).wf(),
            final(self).avg_response_time == spec_avg(old(self).response_times@),
            final(self).dropped_requests == old(self).dropped_requests,
            final(self).handled_requests == old(self).handled_requests,
            final(self).response_times@ == old(self).response_times@,
    {
        if self.response_times.len() == 0 {
            self.avg_response_time = None;
        } else {
            let total = self.sum_response_times();
            let count = self.response_times.len();
            self.avg_response_time = Some(total / (count as u64));
        }
    }

    /// Record one handled request: keep its age as a response-time sample,
    /// bump the handled count, and refresh the average.
    pub fn record_handled(&mut self, age_ms: u64)
        requires
            old(self).wf(),
            age_ms <= MAX_SIM_MS,
            old(self).handled_requests + old(self).dropped_requests < MAX_TOTAL_REQUESTS,
        ensures
            final(self).wf(),
            final(self).handled_requests == old(self).handled_requests + 1,
            final(self).dropped_requests == old(self).dropped_requests,
            final(self).response_times@ == old(self).response_times@.push(age_ms),
            final(self).avg_response_time == spec_avg(old(self).response_times@.push(age_ms)),
    {
        self.response_times.push(age_ms);
        self.handled_requests = self.handled_requests + 1;
        self.update_avg_response_time();
    }

    /// Record one dropped request.  Dropped requests contribute no
    /// response-time sample.
    pub fn record_dropped(&mut self)
        requires
            old(self).wf(),
            old(self).handled_requests + old(self).dropped_requests < MAX_TOTAL_REQUESTS,
        ensures
            final(self).wf(),
            final(self).dropped_requests == old(self).dropped_requests + 1,
            final(self).handled_requests == old(self).handled_requests,
            final(self).response_times@ == old(self).response_times@,
            final(self).avg_response_time == old(self).avg_response_time,
    {
        self.dropped_requests = self.dropped_requests + 1;
    }
}

impl Default for GameStats {
    /// Fresh statistics: zero counts, no samples, average not applicable.
    fn default() -> (r: GameStats)
        ensures
            r.wf(),
            r.dropped_requests == 0,
            r.handled_requests == 0,
            r.response_times@.len() == 0,
            r.avg_response_time is None,
    {
        GameStats {
            dropped_requests: 0,
            handled_requests: 0,
            response_times: Vec::new(),
            avg_response_time: None,
        }
    }
}

} // verus!
