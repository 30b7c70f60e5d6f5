use webhost_sim::game_stats::GameStats;
use webhost_sim::results::{calculate_pass_or_not, LevelResults};

/// After recording ages of 1.0 s and 3.0 s the average is exactly 2.0 s;
/// with no samples it is reported as not applicable, never a degenerate
/// number.
#[test]
fn average_recomputation() {
    let mut stats = GameStats::default();
    assert_eq!(stats.avg_response_time, None);
    stats.record_handled(1000);
    assert_eq!(stats.avg_response_time, Some(1000));
    stats.record_handled(3000);
    assert_eq!(stats.avg_response_time, Some(2000));
    assert_eq!(stats.handled_requests, 2);
    assert_eq!(stats.response_times, vec![1000, 3000]);
}

/// Recomputing over zero samples yields "not applicable".
#[test]
fn average_of_nothing_is_not_applicable() {
    let mut stats = GameStats::default();
    stats.update_avg_response_time();
    assert_eq!(stats.avg_response_time, None);
    stats.record_dropped();
    stats.update_avg_response_time();
    assert_eq!(stats.avg_response_time, None);
    assert_eq!(stats.dropped_requests, 1);
}

/// Dropped requests count but contribute no response-time sample.
#[test]
fn dropped_requests_leave_no_sample() {
    let mut stats = GameStats::default();
    stats.record_handled(500);
    stats.record_dropped();
    stats.record_dropped();
    assert_eq!(stats.handled_requests, 1);
    assert_eq!(stats.dropped_requests, 2);
    assert_eq!(stats.response_times.len(), 1);
    assert_eq!(stats.avg_response_time, Some(500));
}

fn stats_with(handled: usize, dropped: usize, age_ms: u64) -> GameStats {
    let mut stats = GameStats::default();
    for _ in 0..handled {
        stats.record_handled(age_ms);
    }
    for _ in 0..dropped {
        stats.record_dropped();
    }
    stats
}

/// Evaluation determinism: 8 handled of 10 at a 5.0 s average passes
/// thresholds of 80 % and 6.0 s; tightening the response-time threshold
/// to 4.0 s fails the same run.
#[test]
fn evaluation_determinism() {
    let stats = stats_with(8, 2, 5000);
    let mut results = LevelResults::default();
    results.pass_percentage = 800;
    results.pass_avg_response_time = 6000;
    calculate_pass_or_not(&stats, &mut results);
    assert!(results.passed);
    assert_eq!(results.current_percentage, 800);
    assert_eq!(results.current_avg_response_time, Some(5000));

    results.pass_avg_response_time = 4000;
    calculate_pass_or_not(&stats, &mut results);
    assert!(!results.passed);
}

/// The handled-share threshold alone can fail a run.
#[test]
fn evaluation_fails_on_share() {
    let stats = stats_with(7, 3, 1000);
    let mut results = LevelResults::default();
    results.pass_percentage = 800;
    results.pass_avg_response_time = 6000;
    calculate_pass_or_not(&stats, &mut results);
    assert!(!results.passed);
    assert_eq!(results.current_percentage, 700);
}

/// With no requests at all the achieved share grades as zero.
#[test]
fn evaluation_of_empty_run() {
    let stats = GameStats::default();
    let mut results = LevelResults::default();
    results.pass_percentage = 800;
    results.pass_avg_response_time = 6000;
    calculate_pass_or_not(&stats, &mut results);
    assert!(!results.passed);
    assert_eq!(results.current_percentage, 0);
    assert_eq!(results.current_avg_response_time, None);
}

/// The share comparison is exact, not rounded: 799 of 1000 handled fails
/// an 80 % threshold even though it rounds to 80 %.
#[test]
fn evaluation_share_is_exact() {
    let stats = stats_with(799, 201, 100);
    let mut results = LevelResults::default();
    results.pass_percentage = 800;
    results.pass_avg_response_time = 6000;
    calculate_pass_or_not(&stats, &mut results);
    assert!(!results.passed);
    assert_eq!(results.current_percentage, 799);
}
