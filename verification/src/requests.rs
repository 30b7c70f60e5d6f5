//! Requests and the nearest-server routing policy.
//!
//! A request carries an opaque id, a size sampled once at creation, its age
//! in milliseconds, its screen position, and an optional destination server.
//! Unrouted requests are assigned to the server nearest to them (ties broken
//! by the lowest server id, for determinism).

use vstd::prelude::*;

use rand::Rng;

use crate::limits::{MAX_COORD, MAX_SIM_MS};
use crate::server::Server;

verus! {

/// Smallest request size (inclusive).
pub const REQUEST_SIZE_MIN: usize = 1;

/// Largest request size (exclusive).
pub const REQUEST_SIZE_MAX: usize = 32;

/// One request travelling through the simulation.
#[derive(Clone, Copy)]
pub struct Request {
    /// Opaque identity, assigned by the simulation at spawn time.
    pub id: u64,
    /// Target server, `None` until the router assigns one.
    pub destination: Option<usize>,
    /// Time since creation, in milliseconds.
    pub age_ms: u64,
    /// Size, sampled once at creation; reserved for future rules.
    pub size: usize,
    /// Screen position, supplied by the presentation layer.
    pub x: i64,
    pub y: i64,
}

impl Request {
    /// Validity relative to a simulation with `n_servers` servers.
    pub open spec fn rq_wf(self, n_servers: int) -> bool {
        &&& (self.destination is Some ==> self.destination->0 < n_servers)
        &&& self.age_ms <= MAX_SIM_MS
        &&& REQUEST_SIZE_MIN <= self.size < REQUEST_SIZE_MAX
        &&& -MAX_COORD <= self.x <= MAX_COORD
        &&& -MAX_COORD <= self.y <= MAX_COORD
    }
}

/// Relies on `rand::Rng::gen_range` over an `i64` range: returns a value
/// uniformly sampled from `[lo, hi)`.  It panics only on an empty range,
/// which the precondition rules out.
#[verifier::external_body]
pub(crate) fn sample_in_range(lo: i64, hi: i64) -> (r: i64)
    requires
        lo < hi,
    ensures
        lo <= r < hi,
{
    rand::thread_rng().gen_range(lo..hi)
}

impl Default for Request {
    /// A fresh, unrouted request of random size.  Identity and position are
    /// assigned by the simulation when it spawns the request.
    fn default() -> (r: Request)
        ensures
            r.id == 0,
            r.destination is None,
            r.age_ms == 0,
            REQUEST_SIZE_MIN <= r.size < REQUEST_SIZE_MAX,
            r.x == 0,
            r.y == 0,
    {
        let size = sample_in_range(REQUEST_SIZE_MIN as i64, REQUEST_SIZE_MAX as i64);
        Request {
            id: 0,
            destination: None,
            age_ms: 0,
            size: size as usize,
            x: 0,
            y: 0,
        }
    }
}

/// Squared Euclidean distance between a point and a server's position.
pub open spec fn dist2(x: int, y: int, s: Server) -> int {
    (s.x - x) * (s.x - x) + (s.y - y) * (s.y - y)
}

/// Server `j` is the router's choice for a request at `(x, y)`: no server
/// is strictly closer, and no server with a smaller id is as close.
pub open spec fn is_nearest(servers: Seq<Server>, x: int, y: int, j: int) -> bool {
    &&& 0 <= j < servers.len()
    &&& forall|k: int| 0 <= k < servers.len()
        ==> dist2(x, y, servers[j]) <= #[trigger] dist2(x, y, servers[k])
    &&& forall|k: int| 0 <= k < j ==> dist2(x, y, servers[j]) < #[trigger] dist2(x, y, servers[k])
}

/// Index of the server closest to `(x, y)`, ties broken by the lowest
/// index; `None` exactly when there is no server.
pub fn find_closest(x: i64, y: i64, servers: &Vec<Server>) -> (r: Option<usize>)
    requires
        -MAX_COORD <= x <= MAX_COORD,
        -MAX_COORD <= y <= MAX_COORD,
        forall|i: int| 0 <= i < servers@.len() ==> {
            &&& -MAX_COORD <= #[trigger] servers@[i].x <= MAX_COORD
            &&& -MAX_COORD <= servers@[i].y <= MAX_COORD
        },
    ensures
        r is None <==> servers@.len() == 0,
        r is Some ==> is_nearest(servers@, x as int, y as int, r->0 as int),
{
    if servers.len() == 0 {
        return None;
    }
    let mut best: usize = 0;
    let mut best_d: i64 = squared_distance(x, y, servers[0].x, servers[0].y);
    let mut i: usize = 1;
    while i < servers.len()
        invariant
            -MAX_COORD <= x <= MAX_COORD,
            -MAX_COORD <= y <= MAX_COORD,
            forall|k: int| 0 <= k < servers@.len() ==> {
                &&& -MAX_COORD <= #[trigger] servers@[k].x <= MAX_COORD
                &&& -MAX_COORD <= servers@[k].y <= MAX_COORD
            },
            0 < servers@.len(),
            best < i,
            i <= servers@.len(),
            best_d == dist2(x as int, y as int, servers@[best as int]),
            forall|k: int| 0 <= k < i ==> best_d <= #[trigger] dist2(x as int, y as int, servers@[k]),
            forall|k: int| 0 <= k < best ==> best_d < #[trigger] dist2(x as int, y as int, servers@[k]),
        decreases servers@.len() - i,
    {
        let d = squared_distance(x, y, servers[i].x, servers[i].y);
        if d < best_d {
            best = i;
            best_d = d;
        }
        i = i + 1;
    }
    Some(best)
}

/// Squared Euclidean distance between two points with bounded coordinates.
fn squared_distance(x: i64, y: i64, sx: i64, sy: i64) -> (d: i64)
    requires
        -MAX_COORD <= x <= MAX_COORD,
        -MAX_COORD <= y <= MAX_COORD,
        -MAX_COORD <= sx <= MAX_COORD,
        -MAX_COORD <= sy <= MAX_COORD,
    ensures
        d == (sx - x) * (sx - x) + (sy - y) * (sy - y),
{
    let dx = sx - x;
    let dy = sy - y;
    proof {
        assert(dx * dx <= 4_000_000_000_000 && dx * dx >= 0) by (nonlinear_arith)
            requires -2_000_000 <= dx <= 2_000_000;
        assert(dy * dy <= 4_000_000_000_000 && dy * dy >= 0) by (nonlinear_arith)
            requires -2_000_000 <= dy <= 2_000_000;
    }
    dx * dx + dy * dy
}

} // verus!
