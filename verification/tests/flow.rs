use webhost_sim::levels::{LoadNextLevel, ReloadCurrentLevel, ResetCurrentLevel};
use webhost_sim::server::{
    ChangeServerModeEvent, ResetUpgradesEvent, ServerMode, SetServerOutputEvent,
    UpgradeServerCPUEvent, UpgradeServerQueueEvent,
};
use webhost_sim::load_scenarios::StartLoadScenarios;
use webhost_sim::server::AddNewServer;
use webhost_sim::simulation::{Outcome, Simulation};

fn fresh_level_one() -> Simulation {
    let mut sim = Simulation::new();
    sim.handle_reset(&ResetCurrentLevel);
    sim
}

/// Run ticks until the results phase, checking the queue/serving
/// invariant after every tick, and return all outcome events.
fn run_to_results(sim: &mut Simulation, max_ticks: usize) -> Vec<Outcome> {
    let mut events = Vec::new();
    for _ in 0..max_ticks {
        let mut batch = sim.tick(100);
        events.append(&mut batch);
        for s in sim.servers.iter() {
            if s.current_request.is_none() {
                assert_eq!(s.queued_requests.len(), 0);
            }
        }
        if matches!(sim.game_state, webhost_sim::states::GameState::Results) {
            return events;
        }
    }
    panic!("run did not drain");
}

fn count(events: &[Outcome], f: impl Fn(&Outcome) -> bool) -> usize {
    events.iter().filter(|e| f(e)).count()
}

/// Resetting builds the level: its servers, its budget, its thresholds,
/// zeroed statistics and no requests.
#[test]
fn reset_builds_level() {
    let sim = fresh_level_one();
    assert_eq!(sim.servers.len(), 1);
    assert_eq!(sim.points.total, 5);
    assert_eq!(sim.points.assigned, 0);
    assert_eq!(sim.stats.handled_requests, 0);
    assert_eq!(sim.stats.dropped_requests, 0);
    assert_eq!(sim.requests.len(), 0);
    assert_eq!(sim.results.pass_percentage, 1000);
    assert_eq!(sim.results.pass_avg_response_time, 10_000);
    assert!(matches!(sim.game_state, webhost_sim::states::GameState::Planning));
}

/// A full level run conserves requests: every spawned request is either
/// handled or dropped by the time the run drains, and each handled one
/// left exactly one response-time sample.
#[test]
fn full_run_conserves_requests() {
    let mut sim = fresh_level_one();
    sim.handle_upgrade_server_cpu(&UpgradeServerCPUEvent(0)).unwrap();
    sim.handle_upgrade_server_cpu(&UpgradeServerCPUEvent(0)).unwrap();
    sim.handle_upgrade_queue_size(&UpgradeServerQueueEvent(0)).unwrap();
    sim.handle_upgrade_queue_size(&UpgradeServerQueueEvent(0)).unwrap();
    sim.start_load_scenarios(&StartLoadScenarios);
    let events = run_to_results(&mut sim, 600);
    let spawned = count(&events, |e| matches!(e, Outcome::Spawned(_)));
    let handled = count(&events, |e| matches!(e, Outcome::Handled(_)));
    let dropped = count(&events, |e| matches!(e, Outcome::Dropped(_)));
    assert_eq!(spawned, 10);
    assert_eq!(handled + dropped, 10);
    assert_eq!(sim.stats.handled_requests, handled);
    assert_eq!(sim.stats.dropped_requests, dropped);
    assert_eq!(sim.stats.response_times.len(), handled);
    assert_eq!(sim.requests.len(), 0);
}

/// Self-loop guard: a proxy whose only output is itself drops every
/// completion — the whole run ends with 100 % dropped.
#[test]
fn self_loop_proxy_drops_everything() {
    let mut sim = fresh_level_one();
    sim.handle_change_server_mode(&ChangeServerModeEvent(0));
    assert!(matches!(sim.servers[0].mode, ServerMode::Proxy));
    sim.handle_select_outputs(&SetServerOutputEvent(0));
    sim.make_connections(vec![0]);
    assert_eq!(sim.servers[0].outputs, vec![0]);
    sim.start_load_scenarios(&StartLoadScenarios);
    let events = run_to_results(&mut sim, 600);
    let spawned = count(&events, |e| matches!(e, Outcome::Spawned(_)));
    assert_eq!(spawned, 10);
    assert_eq!(sim.stats.dropped_requests, 10);
    assert_eq!(sim.stats.handled_requests, 0);
    let results = sim.evaluate();
    assert!(!results.passed);
}

/// A proxy with a real output forwards its completions there.
#[test]
fn proxy_forwards_to_output() {
    let mut sim = Simulation::new();
    sim.handle_reset(&ResetCurrentLevel);
    sim.handle_load_next_level(&LoadNextLevel);
    assert_eq!(sim.points.total, 15);
    sim.remove_all_servers();
    sim.add_new_server(AddNewServer(2));
    // Park the second server far away so every spawn routes to the first.
    sim.servers[0].x = 0;
    sim.servers[0].y = 0;
    sim.servers[1].x = 100_000;
    sim.servers[1].y = 0;
    // First server proxies to the second.
    sim.handle_change_server_mode(&ChangeServerModeEvent(0));
    sim.handle_select_outputs(&SetServerOutputEvent(0));
    sim.make_connections(vec![1]);
    // Make both ends fast enough to avoid overload drops.
    for _ in 0..2 {
        sim.handle_upgrade_server_cpu(&UpgradeServerCPUEvent(0)).unwrap();
    }
    for _ in 0..2 {
        sim.handle_upgrade_server_cpu(&UpgradeServerCPUEvent(1)).unwrap();
    }
    for _ in 0..6 {
        sim.handle_upgrade_queue_size(&UpgradeServerQueueEvent(1)).unwrap();
    }
    sim.start_load_scenarios(&StartLoadScenarios);
    let events = run_to_results(&mut sim, 2000);
    let spawned = count(&events, |e| matches!(e, Outcome::Spawned(_)));
    let handled = count(&events, |e| matches!(e, Outcome::Handled(_)));
    let dropped = count(&events, |e| matches!(e, Outcome::Dropped(_)));
    let forwarded = count(&events, |e| matches!(e, Outcome::Forwarded(_, _)));
    assert_eq!(spawned, 50);
    assert!(forwarded > 0);
    for e in events.iter() {
        if let Outcome::Forwarded(_, target) = e {
            assert_eq!(*target, 1);
        }
    }
    assert_eq!(handled + dropped, 50);
    assert_eq!(sim.stats.handled_requests, handled);
}

/// Upgrade refund: three CPU upgrades raise the power from 1 to 4 for
/// 1 + 2 + 3 = 6 points, and resetting the upgrades returns exactly 6.
#[test]
fn upgrade_refund_is_triangular() {
    let mut sim = Simulation::new();
    sim.handle_reset(&ResetCurrentLevel);
    sim.handle_load_next_level(&LoadNextLevel);
    assert_eq!(sim.points.total, 15);
    for _ in 0..3 {
        sim.handle_upgrade_server_cpu(&UpgradeServerCPUEvent(0)).unwrap();
    }
    assert_eq!(sim.servers[0].processing_power, 4);
    assert_eq!(sim.points.assigned, 6);
    sim.handle_reset_upgrades(&ResetUpgradesEvent(0));
    assert_eq!(sim.points.assigned, 0);
    assert_eq!(sim.servers[0].processing_power, 1);
    assert_eq!(sim.servers[0].queue_size, 0);
    assert_eq!(sim.points.total, 15);
}

/// An upgrade bought while a request could be in service leaves the
/// running timer alone: the new duration applies only from the next
/// request entering service.
#[test]
fn upgrades_do_not_restart_the_timer() {
    let mut sim = fresh_level_one();
    let before = (
        sim.servers[0].current_progress.remaining_ms,
        sim.servers[0].current_progress.total_ms,
    );
    sim.handle_upgrade_server_cpu(&UpgradeServerCPUEvent(0)).unwrap();
    sim.handle_upgrade_queue_size(&UpgradeServerQueueEvent(0)).unwrap();
    assert_eq!(sim.servers[0].processing_power, 2);
    assert_eq!(sim.servers[0].queue_size, 1);
    assert_eq!(
        (
            sim.servers[0].current_progress.remaining_ms,
            sim.servers[0].current_progress.total_ms,
        ),
        before
    );
    // Resetting the upgrades does restart the timer, at the power-1 duration.
    sim.handle_reset_upgrades(&ResetUpgradesEvent(0));
    assert_eq!(sim.servers[0].current_progress.total_ms, 2000);
    assert_eq!(sim.servers[0].current_progress.remaining_ms, 2000);
}

/// An upgrade beyond the budget is rejected and changes nothing.
#[test]
fn upgrade_without_points_is_rejected() {
    let mut sim = fresh_level_one();
    assert!(sim.handle_upgrade_server_cpu(&UpgradeServerCPUEvent(0)).is_ok());
    assert!(sim.handle_upgrade_server_cpu(&UpgradeServerCPUEvent(0)).is_ok());
    assert_eq!(sim.points.assigned, 3);
    // The next CPU upgrade would cost 3, but only 2 points are left.
    assert!(sim.handle_upgrade_server_cpu(&UpgradeServerCPUEvent(0)).is_err());
    assert_eq!(sim.points.assigned, 3);
    assert_eq!(sim.servers[0].processing_power, 3);
}

/// Reset clears all requests, zeroes the statistics and restores the
/// budget to the level's grant.
#[test]
fn reset_clears_everything() {
    let mut sim = fresh_level_one();
    sim.handle_upgrade_server_cpu(&UpgradeServerCPUEvent(0)).unwrap();
    sim.start_load_scenarios(&StartLoadScenarios);
    for _ in 0..40 {
        sim.tick(100);
    }
    assert!(sim.stats.handled_requests + sim.stats.dropped_requests + sim.requests.len() > 0
        || sim.servers[0].current_request.is_some());
    sim.handle_reset(&ResetCurrentLevel);
    assert_eq!(sim.requests.len(), 0);
    assert_eq!(sim.servers.len(), 1);
    assert!(sim.servers[0].current_request.is_none());
    assert_eq!(sim.servers[0].processing_power, 1);
    assert_eq!(sim.stats.handled_requests, 0);
    assert_eq!(sim.stats.dropped_requests, 0);
    assert_eq!(sim.stats.response_times.len(), 0);
    assert_eq!(sim.points.total, 5);
    assert_eq!(sim.points.assigned, 0);
}

/// Reload keeps the built servers and their upgrades but discards all
/// requests and statistics.
#[test]
fn reload_keeps_upgrades() {
    let mut sim = fresh_level_one();
    sim.handle_upgrade_server_cpu(&UpgradeServerCPUEvent(0)).unwrap();
    sim.start_load_scenarios(&StartLoadScenarios);
    for _ in 0..40 {
        sim.tick(100);
    }
    sim.handle_reload(&ReloadCurrentLevel);
    assert_eq!(sim.requests.len(), 0);
    assert!(sim.servers[0].current_request.is_none());
    assert_eq!(sim.servers[0].queued_requests.len(), 0);
    assert_eq!(sim.servers[0].processing_power, 2);
    assert_eq!(sim.points.assigned, 1);
    assert_eq!(sim.points.total, 5);
    assert_eq!(sim.stats.handled_requests, 0);
    assert_eq!(sim.stats.dropped_requests, 0);
    assert!(matches!(sim.game_state, webhost_sim::states::GameState::Planning));
}

/// Past the last level the game completes.
#[test]
fn game_completes_after_last_level() {
    let mut sim = Simulation::new();
    sim.handle_reset(&ResetCurrentLevel);
    sim.handle_load_next_level(&LoadNextLevel);
    sim.handle_load_next_level(&LoadNextLevel);
    assert_eq!(sim.levels.current, 2);
    sim.handle_load_next_level(&LoadNextLevel);
    assert!(matches!(sim.game_state, webhost_sim::states::GameState::GameCompleted));
    assert_eq!(sim.levels.current, 2);
}

/// Leaving proxy mode clears the output connections.
#[test]
fn leaving_proxy_mode_clears_outputs() {
    let mut sim = fresh_level_one();
    sim.handle_change_server_mode(&ChangeServerModeEvent(0));
    sim.handle_select_outputs(&SetServerOutputEvent(0));
    sim.make_connections(vec![0]);
    assert_eq!(sim.servers[0].outputs.len(), 1);
    sim.handle_change_server_mode(&ChangeServerModeEvent(0));
    assert!(matches!(sim.servers[0].mode, ServerMode::Process));
    assert_eq!(sim.servers[0].outputs.len(), 0);
    assert_eq!(sim.servers[0].current_output_index, 0);
}
