//! The level evaluator: grades a finished run against the level's pass
//! thresholds.
//!
//! Percentages are in permille (1000 = 100 %) and response times in
//! milliseconds, so both threshold comparisons are exact integer
//! comparisons of cross-products — no rounding enters the verdict.

use vstd::prelude::*;

use vstd::arithmetic::div_mod::lemma_multiply_divide_le;

use crate::game_stats::{seq_sum, GameStats};
use crate::limits::{MAX_SIM_MS, MAX_TOTAL_REQUESTS};

verus! {

/// Verdict state of one level attempt.  `pass_*` fields are the level's
/// thresholds; `current_*` fields are the achieved values.
pub struct LevelResults {
    /// Required handled share, in permille.
    pub pass_percentage: u32,
    /// Achieved handled share, in permille (rounded down); 0 when no
    /// request ever existed.
    pub current_percentage: u32,
    /// Highest passing average response time, in milliseconds.
    pub pass_avg_response_time: u64,
    /// Achieved average response time; `None` when nothing was handled.
    pub current_avg_response_time: Option<u64>,
    /// Whether both thresholds hold simultaneously.
    pub passed: bool,
}

impl LevelResults {
    /// Thresholds stay inside the supported ranges.
    pub open spec fn wf(self) -> bool {
        &&& self.pass_percentage <= 1000
        &&& self.pass_avg_response_time <= MAX_SIM_MS
    }
}

impl Default for LevelResults {
    /// No thresholds, nothing achieved, not passed.
    fn default() -> (r: LevelResults)
        ensures
            r.wf(),
            r.pass_percentage == 0,
            r.current_percentage == 0,
            r.pass_avg_response_time == 0,
            r.current_avg_response_time is None,
            !r.passed,
    {
        LevelResults {
            pass_percentage: 0,
            current_percentage: 0,
            pass_avg_response_time: 0,
            current_avg_response_time: None,
            passed: false,
        }
    }
}

/// The exact pass condition: the handled share reaches `pass_permille`
/// (with zero total requests grading as a share of zero), and the mean
/// response time is at most `pass_avg_ms`.  Both comparisons are stated
/// as cross-products, so they are exact.
pub open spec fn level_passed(
    handled: int,
    dropped: int,
    times: Seq<u64>,
    pass_permille: int,
    pass_avg_ms: int,
) -> bool {
    let total = handled + dropped;
    let share_ok = if total == 0 {
        0 >= pass_permille
    } else {
        1000 * handled >= pass_permille * total
    };
    let avg_ok = seq_sum(times) <= pass_avg_ms * times.len();
    share_ok && avg_ok
}

/// Grade the run: record the achieved handled share and average response
/// time, and decide the verdict.  Both thresholds are mandatory; with
/// zero requests the share grades as zero.
pub fn calculate_pass_or_not(game_stats: &GameStats, level_results: &mut LevelResults)
    requires
        game_stats.wf(),
        old(level_results).wf(),
    ensures
        final(level_results).wf(),
        final(level_results).pass_percentage == old(level_results).pass_percentage,
        final(level_results).pass_avg_response_time == old(
            level_results,
        ).pass_avg_response_time,
        final(level_results).current_percentage == {
            let total = game_stats.handled_requests + game_stats.dropped_requests;
            if total == 0 {
                0int
            } else {
                (1000 * game_stats.handled_requests) / (total as int)
            }
        },
        final(level_results).current_avg_response_time == game_stats.avg_response_time,
        final(level_results).passed == level_passed(
            game_stats.handled_requests as int,
            game_stats.dropped_requests as int,
            game_stats.response_times@,
            old(level_results).pass_percentage as int,
            old(level_results).pass_avg_response_time as int,
        ),
{
    let handled: u64 = game_stats.handled_requests as u64;
    let dropped: u64 = game_stats.dropped_requests as u64;
    let total: u64 = handled + dropped;

    let share_ok: bool;
    if total == 0 {
        level_results.current_percentage = 0;
        share_ok = level_results.pass_percentage == 0;
    } else {
        proof {
            assert((level_results.pass_percentage as int) * (total as int)
                <= 1000 * MAX_TOTAL_REQUESTS) by (nonlinear_arith)
                requires
                    level_results.pass_percentage <= 1000,
                    total <= MAX_TOTAL_REQUESTS,
            ;
            lemma_multiply_divide_le(1000 * handled as int, total as int, 1000);
            assert(1000 * (handled as int) <= (total as int) * 1000) by (nonlinear_arith)
                requires
                    handled <= total,
            ;
        }
        let share: u64 = (1000 * handled) / total;
        level_results.current_percentage = share as u32;
        share_ok = 1000 * handled >= (level_results.pass_percentage as u64) * total;
    }

    let sum = game_stats.sum_response_times();
    let count: u64 = game_stats.response_times.len() as u64;
    proof {
        assert((level_results.pass_avg_response_time as int) * (count as int)
            <= MAX_SIM_MS * MAX_TOTAL_REQUESTS) by (nonlinear_arith)
            requires
                level_results.pass_avg_response_time <= MAX_SIM_MS,
                count <= MAX_TOTAL_REQUESTS,
        ;
    }
    let avg_ok = sum <= level_results.pass_avg_response_time * count;

    level_results.current_avg_response_time = game_stats.avg_response_time;
    level_results.passed = share_ok && avg_ok;
}

} // verus!
