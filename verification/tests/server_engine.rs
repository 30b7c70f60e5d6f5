use webhost_sim::requests::Request;
use webhost_sim::server::{Server, ServerMode, UpgradePoints};

fn request(id: u64) -> Request {
    let mut r = Request::default();
    r.id = id;
    r
}

/// A request fills the free service slot first; later ones queue behind
/// it in order (the queue/serving invariant: an empty service slot means
/// an empty queue).
#[test]
fn add_request_fills_slot_then_queue() {
    let mut s = Server::default();
    assert!(s.current_request.is_none());
    assert_eq!(s.queued_requests.len(), 0);
    s.add_request(request(1));
    assert_eq!(s.current_request.as_ref().map(|r| r.id), Some(1));
    assert_eq!(s.queued_requests.len(), 0);
    s.add_request(request(2));
    s.add_request(request(3));
    assert_eq!(s.current_request.as_ref().map(|r| r.id), Some(1));
    assert_eq!(s.queued_requests.len(), 2);
    assert_eq!(s.queued_requests[0].id, 2);
    assert_eq!(s.queued_requests[1].id, 3);
}

/// Busy boundary: with queue allowance 0, one request in service already
/// makes the server busy; an idle server is never busy, whatever the
/// allowance.
#[test]
fn is_busy_boundary() {
    let mut s = Server::default();
    assert_eq!(s.queue_size, 0);
    assert!(!s.is_busy());
    s.add_request(request(1));
    assert!(s.is_busy());
    let mut idle = Server::default();
    idle.queue_size = 0;
    assert!(!idle.is_busy());
    idle.queue_size = 5;
    assert!(!idle.is_busy());
}

/// Completing pulls the front of the queue into service and restarts the
/// timer at the full duration.
#[test]
fn complete_current_advances_queue() {
    let mut s = Server::default();
    s.add_request(request(1));
    s.add_request(request(2));
    s.add_request(request(3));
    let done = s.complete_current();
    assert_eq!(done.id, 1);
    assert_eq!(s.current_request.as_ref().map(|r| r.id), Some(2));
    assert_eq!(s.queued_requests.len(), 1);
    assert_eq!(s.current_progress.remaining_ms, s.current_progress.total_ms);
    let done = s.complete_current();
    assert_eq!(done.id, 2);
    let done = s.complete_current();
    assert_eq!(done.id, 3);
    // The invariant holds at the end: empty slot, empty queue.
    assert!(s.current_request.is_none());
    assert_eq!(s.queued_requests.len(), 0);
}

/// Processing duration is the baseline over the power; proxy mode is
/// twice as fast per unit of power.
#[test]
fn reset_progress_duration_formula() {
    let mut s = Server::default();
    s.processing_power = 4;
    s.reset_progress();
    assert_eq!(s.current_progress.total_ms, 500);
    s.mode = ServerMode::Proxy;
    s.reset_progress();
    assert_eq!(s.current_progress.total_ms, 250);
    s.processing_power = 3;
    s.mode = ServerMode::Process;
    s.reset_progress();
    assert_eq!(s.current_progress.total_ms, 666);
}

/// Round-robin fairness: over 10 forwards across 3 outputs, every output
/// receives 3 or 4 of them, and the cursor cycles 1, 2, 0, 1, ...
#[test]
fn round_robin_counts_within_one() {
    let mut s = Server::default();
    s.mode = ServerMode::Proxy;
    s.outputs = vec![10, 20, 30];
    let mut counts = [0usize; 3];
    let mut first = Vec::new();
    for _ in 0..10 {
        let target = s.next_output();
        first.push(target);
        let slot = s.current_output_index;
        counts[slot] += 1;
        assert_eq!(s.outputs[slot], target);
    }
    assert_eq!(&first[0..4], &[20, 30, 10, 20]);
    for &c in counts.iter() {
        assert!(c == 3 || c == 4);
    }
    assert_eq!(counts.iter().sum::<usize>(), 10);
}

/// Exactly 3 * k forwards over 3 outputs give each output exactly k.
#[test]
fn round_robin_exact_on_multiples() {
    let mut s = Server::default();
    s.mode = ServerMode::Proxy;
    s.outputs = vec![7, 8, 9];
    let mut counts = [0usize; 3];
    for _ in 0..12 {
        s.next_output();
        counts[s.current_output_index] += 1;
    }
    assert_eq!(counts, [4, 4, 4]);
}

/// The budget check: points can be spent only while assigned stays within
/// the total.
#[test]
fn can_spend_points_boundary() {
    let p = UpgradePoints { total: 5, assigned: 3 };
    assert!(p.can_spend_points(2));
    assert!(!p.can_spend_points(3));
    assert!(p.can_spend_points(0));
    let empty = UpgradePoints { total: 0, assigned: 0 };
    assert!(empty.can_spend_points(0));
    assert!(!empty.can_spend_points(1));
}

/// The one-shot timer reports "just finished" exactly on the tick that
/// reaches zero.
#[test]
fn timer_just_finished_once() {
    let mut t = webhost_sim::timer::Timer::new(250);
    assert!(!t.tick(100));
    assert!(!t.tick(100));
    assert!(t.tick(100));
    assert_eq!(t.remaining_ms, 0);
    assert!(!t.tick(100));
    assert!(t.finished());
}
