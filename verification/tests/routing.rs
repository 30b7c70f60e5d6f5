use webhost_sim::requests::{find_closest, Request, REQUEST_SIZE_MAX, REQUEST_SIZE_MIN};
use webhost_sim::server::Server;

fn server_at(x: i64, y: i64) -> Server {
    let mut s = Server::default();
    s.x = x;
    s.y = y;
    s
}

/// The router picks the server with the smallest Euclidean distance.
#[test]
fn nearest_server_wins() {
    let servers = vec![server_at(100, 0), server_at(10, 10), server_at(-500, 3)];
    assert_eq!(find_closest(0, 0, &servers), Some(1));
    assert_eq!(find_closest(-400, 0, &servers), Some(2));
    assert_eq!(find_closest(90, 5, &servers), Some(0));
}

/// Distance ties break toward the lowest server id, for determinism.
#[test]
fn ties_break_to_lowest_id() {
    let servers = vec![server_at(-10, 0), server_at(10, 0), server_at(0, 10)];
    assert_eq!(find_closest(0, 0, &servers), Some(0));
}

/// With no servers there is no routing target.
#[test]
fn no_servers_no_target() {
    let servers: Vec<Server> = Vec::new();
    assert_eq!(find_closest(0, 0, &servers), None);
}

/// Request sizes are sampled once at creation and stay in the documented
/// range, whatever the random source returns.
#[test]
fn request_sizes_stay_in_range() {
    for _ in 0..200 {
        let r = Request::default();
        assert!(REQUEST_SIZE_MIN <= r.size && r.size < REQUEST_SIZE_MAX);
        assert_eq!(r.destination, None);
        assert_eq!(r.age_ms, 0);
    }
}
