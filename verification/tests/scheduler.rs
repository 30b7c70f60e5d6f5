use webhost_sim::load_scenarios::LoadSchedule;

/// A full run of a 5s-up/5s-down ramp at 2 rps spawns exactly the
/// time-integral of the rate curve: 2 * (5/2 + 5/2) = 10 requests.
#[test]
fn ramp_profile_total_matches_integral() {
    let mut schedule = LoadSchedule::new(5000, 2, 5000, (1, 1));
    schedule.start(0);
    let mut total: u64 = 0;
    let mut now: u64 = 0;
    while !schedule.completed {
        now += 100;
        total += schedule.tick_spawn(now, 100);
    }
    assert_eq!(total, 10);
    assert!(schedule.completed);
}

/// Tick granularity does not change the total: the same ramp at 50 ms
/// ticks still spawns exactly 10 requests.
#[test]
fn ramp_profile_total_is_tick_size_independent() {
    let mut schedule = LoadSchedule::new(5000, 2, 5000, (1, 1));
    schedule.start(0);
    let mut total: u64 = 0;
    let mut now: u64 = 0;
    while !schedule.completed {
        now += 50;
        total += schedule.tick_spawn(now, 50);
    }
    assert_eq!(total, 10);
}

/// A zero ramp-up jumps straight to the peak rate instead of dividing by
/// zero: the first tick already carries rate close to max_rps.
#[test]
fn zero_rampup_starts_at_peak_rate() {
    let mut schedule = LoadSchedule::new(0, 10, 1000, (1, 1));
    schedule.start(0);
    // elapsed 100 of a 1000 ms ramp-down: rate 9 rps, tick share 0.9.
    assert_eq!(schedule.tick_spawn(100, 100), 0);
    // carried 0.9 + share 0.8 = 1.7: one whole request leaves.
    assert_eq!(schedule.tick_spawn(200, 100), 1);
}

/// Fractions carry across ticks: a whole run of a zero-ramp-up profile
/// spawns the floor of the exact integral, and nothing is lost earlier.
#[test]
fn fractional_accumulator_carries_across_ticks() {
    let mut schedule = LoadSchedule::new(0, 10, 1000, (1, 1));
    schedule.start(0);
    let mut total: u64 = 0;
    let mut now: u64 = 0;
    while !schedule.completed {
        now += 100;
        total += schedule.tick_spawn(now, 100);
    }
    // Left-endpoint samples of the descending ramp sum to 4.5 requests.
    assert_eq!(total, 4);
}

/// Past both ramps the schedule completes and spawns nothing more.
#[test]
fn schedule_completes_past_both_ramps() {
    let mut schedule = LoadSchedule::new(1000, 5, 1000, (1, 1));
    schedule.start(500);
    assert_eq!(schedule.tick_spawn(2600, 100), 0);
    assert!(schedule.completed);
    assert!(schedule.active);
}

/// Starting a schedule binds it to the given clock and leaves the rest.
#[test]
fn start_sets_start_time() {
    let mut schedule = LoadSchedule::new(1000, 5, 1000, (3, 7));
    assert!(!schedule.active);
    schedule.start(1234);
    assert!(schedule.active);
    assert!(!schedule.completed);
    assert_eq!(schedule.start_time, 1234);
    assert_eq!(schedule.request_sizes, (3, 7));
}
