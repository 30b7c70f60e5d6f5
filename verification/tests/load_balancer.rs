use webhost_sim::load_balancer::{
    LoadBalancer, LoadBalancingAlgorithm, LOAD_BALANCER_STARTING_MILLIS,
};
use webhost_sim::timer::Timer;

fn balancer() -> LoadBalancer {
    LoadBalancer {
        processing_power: 1,
        queued_requests: Vec::new(),
        max_queue_size: 2,
        available_targets: vec![10, 20, 30],
        algorithm: LoadBalancingAlgorithm::RoundRobin,
        next_target_index: 0,
        current_progress: Timer::new(LOAD_BALANCER_STARTING_MILLIS),
    }
}

/// The queue is FIFO: requests leave in arrival order.
#[test]
fn queue_is_fifo() {
    let mut lb = balancer();
    assert!(!lb.has_requests());
    assert_eq!(lb.get_request(), None);
    lb.add_request(1);
    lb.add_request(2);
    lb.add_request(3);
    assert!(lb.has_requests());
    assert_eq!(lb.get_request(), Some(1));
    assert_eq!(lb.get_request(), Some(2));
    assert_eq!(lb.get_request(), Some(3));
    assert_eq!(lb.get_request(), None);
}

/// The queue counts as full at its maximum size.
#[test]
fn queue_full_at_max_size() {
    let mut lb = balancer();
    assert!(!lb.is_queue_full());
    lb.add_request(1);
    assert!(!lb.is_queue_full());
    lb.add_request(2);
    assert!(lb.is_queue_full());
    lb.add_request(3);
    assert!(lb.is_queue_full());
}

/// Targets are picked in order and the cursor wraps past the last one.
#[test]
fn round_robin_targets_wrap() {
    let mut lb = balancer();
    assert_eq!(lb.chose_next_target(), Some(10));
    assert_eq!(lb.chose_next_target(), Some(20));
    assert_eq!(lb.chose_next_target(), Some(30));
    assert_eq!(lb.chose_next_target(), Some(10));
    assert_eq!(lb.next_target_index, 1);
}

/// Resetting progress restarts the timer at the balancer's base duration.
#[test]
fn reset_progress_restarts_timer() {
    let mut lb = balancer();
    lb.current_progress.tick(20);
    assert_eq!(lb.current_progress.remaining_ms, 30);
    lb.reset_progress();
    assert_eq!(lb.current_progress.remaining_ms, LOAD_BALANCER_STARTING_MILLIS);
    assert_eq!(lb.current_progress.total_ms, LOAD_BALANCER_STARTING_MILLIS);
}
