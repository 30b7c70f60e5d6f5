//! Servers: per-server queue and processing timer, proxy round-robin, and
//! the upgrade-point economy.
//!
//! A server either processes requests itself (`Process` mode) or forwards
//! completed work round-robin over its configured outputs (`Proxy` mode).
//! Its invariant: the service slot `current_request` is `None` only while
//! the queue is empty.

use vstd::prelude::*;

use vstd::arithmetic::div_mod::{
    lemma_fundamental_div_mod, lemma_fundamental_div_mod_converse, lemma_mod_bound,
};

use crate::limits::{MAX_COORD, MAX_POINTS};
use crate::requests::Request;
use crate::timer::Timer;

verus! {

/// Base processing duration of a server at processing power 1, in
/// milliseconds.
pub const BASELINE_MS_PROCESSING: u64 = 2000;

/// Highest processing power a server can reach; follows from the upgrade
/// budget cap, and keeps every processing duration at least 1 ms.
pub const MAX_POWER: usize = 1000;

/// What a server does with a request whose timer has finished.
#[derive(Debug, Clone, Copy, PartialEq, Eq, Structural)]
pub enum ServerMode {
    /// Handle the request itself.
    Process,
    /// Forward the request round-robin to one of the configured outputs.
    Proxy,
}

/// The server whose output connections are being edited, if any.
pub struct SelectedServerForOutputs(pub Option<usize>);

/// Command: spawn this many fresh servers.
pub struct AddNewServer(pub usize);

/// Command: buy a CPU upgrade for the given server.
pub struct UpgradeServerCPUEvent(pub usize);

/// Command: buy a queue-slot upgrade for the given server.
pub struct UpgradeServerQueueEvent(pub usize);

/// Command: toggle the given server between Process and Proxy mode.
pub struct ChangeServerModeEvent(pub usize);

/// Command: begin selecting the output connections of the given server.
pub struct SetServerOutputEvent(pub usize);

/// Command: undo the given server's upgrades and refund their cost.
pub struct ResetUpgradesEvent(pub usize);

/// The player's upgrade budget: `assigned` of `total` points are currently
/// invested in server upgrades.
pub struct UpgradePoints {
    pub total: usize,
    pub assigned: usize,
}

impl UpgradePoints {
    /// Whether `to_spend` more points fit into the budget.
    pub fn can_spend_points(&self, to_spend: usize) -> (r: bool)
        ensures
            r == (self.assigned + to_spend <= self.total),
    {
        to_spend <= self.total && self.assigned <= self.total - to_spend
    }
}

impl Default for UpgradePoints {
    /// An empty budget with nothing assigned.
    fn default() -> (r: UpgradePoints)
        ensures
            r.total == 0,
            r.assigned == 0,
    {
        UpgradePoints { total: 0, assigned: 0 }
    }
}

/// Points refunded for a server's accumulated CPU upgrades: the Nth
/// upgrade costs N points, so a server at power `p` is owed the
/// triangular sum `(p-1)*p/2`.
pub open spec fn cpu_refund(power: int) -> int {
    if power > 1 {
        ((power - 1) * power) / 2
    } else {
        0
    }
}

/// Points currently invested in one server: its accumulated CPU upgrade
/// costs plus one point per queue slot.
pub open spec fn points_spent(s: Server) -> int {
    cpu_refund(s.processing_power as int) + s.queue_size
}

/// Upgrade costs accumulate exactly into the refund: buying the upgrade
/// that raises power from `p` to `p + 1` costs `p` points, and raises the
/// owed refund by exactly those `p` points.  Hence resetting a server's
/// upgrades returns exactly what was spent on them.
pub proof fn lemma_cpu_refund_accumulates(p: int)
    requires
        p >= 1,
    ensures
        cpu_refund(p + 1) == cpu_refund(p) + p,
{
    if p == 1 {
        assert(cpu_refund(2) == 1);
    } else {
        assert(p * (p + 1) == (p - 1) * p + 2 * p) by (nonlinear_arith);
        assert(((p - 1) * p + p * 2) / 2 == ((p - 1) * p) / 2 + p) by {
            vstd::arithmetic::div_mod::lemma_hoist_over_denominator((p - 1) * p, p, 2);
        }
    }
}

/// Processing duration of a server, in milliseconds: the baseline divided
/// by the processing power; proxying is twice as fast per unit of power.
pub open spec fn processing_duration_ms(mode: ServerMode, power: usize) -> int {
    if mode is Process {
        (BASELINE_MS_PROCESSING as int) / (power as int)
    } else {
        (BASELINE_MS_PROCESSING as int) / (power as int * 2)
    }
}

/// A server: queue, service slot, timer, and proxy configuration.
pub struct Server {
    pub mode: ServerMode,
    pub processing_power: usize,
    /// How many requests may wait in the queue beside the one in service
    /// before the server counts as busy.
    pub queue_size: usize,
    /// Waiting requests, FIFO (front at index 0).
    pub queued_requests: Vec<Request>,
    /// The request currently in service, if any.
    pub current_request: Option<Request>,
    /// Counts down to zero; at zero the request in service is done.
    pub current_progress: Timer,
    /// Ids of the servers a proxy forwards to.
    pub outputs: Vec<usize>,
    /// Round-robin cursor: index of the output used last.
    pub current_output_index: usize,
    /// Screen position, supplied by the presentation layer.
    pub x: i64,
    pub y: i64,
}

impl Server {
    /// Validity relative to a simulation with `n_servers` servers.
    pub open spec fn wf(self, n_servers: int) -> bool {
        &&& self.current_request is None ==> self.queued_requests@.len() == 0
        &&& 1 <= self.processing_power <= MAX_POWER
        &&& self.queue_size <= MAX_POINTS
        &&& self.current_progress.wf()
        &&& forall|i: int| 0 <= i < self.outputs@.len() ==> #[trigger] self.outputs@[i] < n_servers
        &&& if self.outputs@.len() == 0 {
            self.current_output_index == 0
        } else {
            self.current_output_index < self.outputs@.len()
        }
        &&& self.current_request is Some ==> self.current_request->0.rq_wf(n_servers)
        &&& forall|i: int| 0 <= i < self.queued_requests@.len()
            ==> (#[trigger] self.queued_requests@[i]).rq_wf(n_servers)
        &&& -MAX_COORD <= self.x <= MAX_COORD
        &&& -MAX_COORD <= self.y <= MAX_COORD
    }

    /// How many requests this server currently holds (queued plus the one
    /// in service).
    pub open spec fn load(self) -> int {
        self.queued_requests@.len() + if self.current_request is Some {
            1int
        } else {
            0int
        }
    }

    /// Restart the progress timer at the full duration for the server's
    /// current mode and power.
    pub fn reset_progress(&mut self)
        requires
            1 <= old(self).processing_power <= MAX_POWER,
        ensures
            final(self).current_progress.total_ms == processing_duration_ms(
                old(self).mode,
                old(self).processing_power,
            ),
            final(self).current_progress.remaining_ms == final(self).current_progress.total_ms,
            final(self).current_progress.total_ms >= 1,
            *final(self) == (Server { current_progress: final(self).current_progress, ..*old(self) }),
    {
        let duration: u64 = match self.mode {
            ServerMode::Process => {
                proof {
                    vstd::arithmetic::div_mod::lemma_div_non_zero(
                        BASELINE_MS_PROCESSING as int,
                        old(self).processing_power as int,
                    );
                }
                BASELINE_MS_PROCESSING / (self.processing_power as u64)
            }
            ServerMode::Proxy => {
                proof {
                    vstd::arithmetic::div_mod::lemma_div_non_zero(
                        BASELINE_MS_PROCESSING as int,
                        old(self).processing_power as int * 2,
                    );
                }
                BASELINE_MS_PROCESSING / ((self.processing_power as u64) * 2)
            }
        };
        self.current_progress = Timer::new(duration);
    }

    /// Accept a request: into the service slot if it is free, else at the
    /// back of the queue.
    pub fn add_request(&mut self, request: Request)
        ensures
            old(self).current_request is Some ==> {
                &&& final(self).queued_requests@ == old(self).queued_requests@.push(request)
                &&& final(self).current_request == old(self).current_request
            },
            old(self).current_request is None ==> {
                &&& final(self).queued_requests@ == old(self).queued_requests@
                &&& final(self).current_request == Some(request)
            },
            *final(self) == (Server {
                queued_requests: final(self).queued_requests,
                current_request: final(self).current_request,
                ..*old(self)
            }),
    {
        match self.current_request {
            Some(_) => {
                self.queued_requests.push(request);
            }
            None => {
                self.current_request = Some(request);
            }
        }
    }

    /// A server is busy when a request is in service and the queue has no
    /// slack left.  A server with `queue_size == 0` and an occupied
    /// service slot is busy; one with a free service slot never is.
    pub fn is_busy(&self) -> (r: bool)
        ensures
            r == (self.current_request is Some
                && self.queued_requests@.len() >= self.queue_size),
    {
        self.current_request.is_some() && self.queued_requests.len() >= self.queue_size
    }

    /// Take the completed request out of the service slot, move the front
    /// of the queue into service (if any), and restart the timer.
    pub fn complete_current(&mut self) -> (done: Request)
        requires
            old(self).current_request is Some,
            1 <= old(self).processing_power <= MAX_POWER,
        ensures
            done == old(self).current_request->0,
            old(self).queued_requests@.len() > 0 ==> {
                &&& final(self).current_request == Some(old(self).queued_requests@[0])
                &&& final(self).queued_requests@ == old(self).queued_requests@.subrange(
                    1,
                    old(self).queued_requests@.len() as int,
                )
            },
            old(self).queued_requests@.len() == 0 ==> {
                &&& final(self).current_request is None
                &&& final(self).queued_requests@.len() == 0
            },
            final(self).current_progress.total_ms == processing_duration_ms(
                old(self).mode,
                old(self).processing_power,
            ),
            final(self).current_progress.remaining_ms == final(self).current_progress.total_ms,
            final(self).load() == old(self).load() - 1,
            *final(self) == (Server {
                queued_requests: final(self).queued_requests,
                current_request: final(self).current_request,
                current_progress: final(self).current_progress,
                ..*old(self)
            }),
    {
        let done = self.current_request.take().unwrap();
        if self.queued_requests.len() > 0 {
            let next = self.queued_requests.remove(0);
            self.current_request = Some(next);
        } else {
            self.current_request = None;
        }
        self.reset_progress();
        done
    }

    /// Discard all held requests and restart the timer; configuration
    /// (mode, power, queue allowance, outputs) is untouched.
    pub fn clear_requests(&mut self)
        requires
            1 <= old(self).processing_power <= MAX_POWER,
        ensures
            final(self).queued_requests@.len() == 0,
            final(self).current_request is None,
            final(self).current_progress.total_ms == processing_duration_ms(
                old(self).mode,
                old(self).processing_power,
            ),
            final(self).current_progress.remaining_ms == final(self).current_progress.total_ms,
            *final(self) == (Server {
                queued_requests: final(self).queued_requests,
                current_request: None,
                current_progress: final(self).current_progress,
                ..*old(self)
            }),
    {
        self.queued_requests = Vec::new();
        self.current_request = None;
        self.reset_progress();
    }

    /// Advance the round-robin cursor (wrapping to the front past the last
    /// output) and return the id of the output it now points at.
    pub fn next_output(&mut self) -> (target: usize)
        requires
            old(self).outputs@.len() > 0,
            old(self).current_output_index < old(self).outputs@.len(),
        ensures
            final(self).current_output_index as int == forward_slot(
                old(self).current_output_index as int,
                0,
                old(self).outputs@.len() as int,
            ),
            target == final(self).outputs@[final(self).current_output_index as int],
            *final(self) == (Server {
                current_output_index: final(self).current_output_index,
                ..*old(self)
            }),
    {
        let len = self.outputs.len();
        if self.current_output_index == len - 1 || self.current_output_index > len - 1 {
            self.current_output_index = 0;
        } else {
            self.current_output_index = self.current_output_index + 1;
        }
        proof {
            let c = old(self).current_output_index as int;
            let m = old(self).outputs@.len() as int;
            if c + 1 == m {
                assert((c + 1) % m == 0) by {
                    lemma_fundamental_div_mod_converse(c + 1, m, 1, 0);
                }
            } else {
                assert((c + 1) % m == c + 1) by {
                    lemma_fundamental_div_mod_converse(c + 1, m, 0, c + 1);
                }
            }
        }
        self.outputs[self.current_output_index]
    }
}

impl Default for Server {
    /// A fresh processing server: power 1, no queue slack, empty queue,
    /// idle timer at the baseline duration, no outputs.
    fn default() -> (r: Server)
        ensures
            r.mode is Process,
            r.processing_power == 1,
            r.queue_size == 0,
            r.queued_requests@.len() == 0,
            r.current_request is None,
            r.current_progress.total_ms == BASELINE_MS_PROCESSING,
            r.current_progress.remaining_ms == BASELINE_MS_PROCESSING,
            r.outputs@.len() == 0,
            r.current_output_index == 0,
            r.x == 0,
            r.y == 0,
    {
        Server {
            mode: ServerMode::Process,
            processing_power: 1,
            queue_size: 0,
            queued_requests: Vec::new(),
            current_request: None,
            current_progress: Timer::new(BASELINE_MS_PROCESSING),
            outputs: Vec::new(),
            current_output_index: 0,
            x: 0,
            y: 0,
        }
    }
}

/// The queue/serving invariant: a well-formed server whose service slot
/// is empty has an empty queue — work never waits behind an idle slot.
/// Every operation of the simulation preserves `wf`, so this holds at
/// every tick.
pub proof fn lemma_idle_server_has_empty_queue(s: Server, n_servers: int)
    requires
        s.wf(n_servers),
        s.current_request is None,
    ensures
        s.queued_requests@.len() == 0,
{
}

/// The output slot used by the `k`-th forward performed by a proxy whose
/// round-robin cursor stands at `cursor`: the cursor advances before each
/// forward and wraps past the last output.
pub open spec fn forward_slot(cursor: int, k: int, len: int) -> int {
    (cursor + 1 + k) % len
}

/// How many integers in `[a, b)` are congruent to `r` modulo `m`.  Applied
/// to `[cursor + 1, cursor + 1 + n)` this counts how many of `n`
/// successive forwards a proxy sends to output slot `r`.
pub open spec fn count_mod(a: int, b: int, m: int, r: int) -> int
    decreases b - a,
{
    if b <= a {
        0
    } else {
        count_mod(a, b - 1, m, r) + if (b - 1) % m == r {
            1int
        } else {
            0int
        }
    }
}

/// Dividing by `m` steps up by one exactly at the multiples of `m`.
proof fn lemma_div_step(x: int, m: int)
    requires
        m > 0,
    ensures
        x / m - (x - 1) / m == if x % m == 0 {
            1int
        } else {
            0int
        },
{
    lemma_fundamental_div_mod(x, m);
    lemma_mod_bound(x, m);
    let q = x / m;
    let s = x % m;
    if s == 0 {
        assert(x - 1 == (q - 1) * m + (m - 1)) by (nonlinear_arith)
            requires
                x == m * q + s,
                s == 0,
        ;
        lemma_fundamental_div_mod_converse(x - 1, m, q - 1, m - 1);
    } else {
        assert(x - 1 == q * m + (s - 1)) by (nonlinear_arith)
            requires
                x == m * q + s,
        ;
        lemma_fundamental_div_mod_converse(x - 1, m, q, s - 1);
    }
}

/// An integer `j` is congruent to `r` modulo `m` exactly when `j - r` is a
/// multiple of `m`.
proof fn lemma_mod_hit(j: int, r: int, m: int)
    requires
        m > 0,
        0 <= r < m,
    ensures
        (j % m == r) <==> ((j - r) % m == 0),
{
    lemma_fundamental_div_mod(j, m);
    lemma_mod_bound(j, m);
    lemma_fundamental_div_mod(j - r, m);
    lemma_mod_bound(j - r, m);
    let q = j / m;
    let s = j % m;
    if s == r {
        assert(j - r == q * m + 0) by (nonlinear_arith)
            requires
                j == m * q + s,
                s == r,
        ;
        lemma_fundamental_div_mod_converse(j - r, m, q, 0);
    }
    let q2 = (j - r) / m;
    let s2 = (j - r) % m;
    if s2 == 0 {
        assert(j == q2 * m + r) by (nonlinear_arith)
            requires
                j - r == m * q2 + s2,
                s2 == 0,
        ;
        lemma_fundamental_div_mod_converse(j, m, q2, r);
    }
}

/// Closed form for `count_mod`: a difference of two floors.
proof fn lemma_count_mod_closed(a: int, b: int, m: int, r: int)
    requires
        a <= b,
        m > 0,
        0 <= r < m,
    ensures
        count_mod(a, b, m, r) == (b - 1 - r) / m - (a - 1 - r) / m,
    decreases b - a,
{
    if a == b {
    } else {
        lemma_count_mod_closed(a, b - 1, m, r);
        lemma_mod_hit(b - 1, r, m);
        lemma_div_step(b - 1 - r, m);
    }
}

/// Over any window of `n` consecutive integers, each residue class modulo
/// `m` occurs either `n / m` times (rounded down) or one time more; when
/// `m` divides `n`, exactly `n / m` times.
proof fn lemma_floor_window(x: int, n: int, m: int)
    requires
        m > 0,
        n >= 0,
    ensures
        n / m <= (x + n) / m - x / m,
        (x + n) / m - x / m <= if n % m == 0 {
            n / m
        } else {
            n / m + 1
        },
{
    lemma_fundamental_div_mod(x, m);
    lemma_mod_bound(x, m);
    lemma_fundamental_div_mod(n, m);
    lemma_mod_bound(n, m);
    let q = x / m;
    let s = x % m;
    let p = n / m;
    let t = n % m;
    if s + t < m {
        assert(x + n == (q + p) * m + (s + t)) by (nonlinear_arith)
            requires
                x == m * q + s,
                n == m * p + t,
        ;
        lemma_fundamental_div_mod_converse(x + n, m, q + p, s + t);
    } else {
        assert(x + n == (q + p + 1) * m + (s + t - m)) by (nonlinear_arith)
            requires
                x == m * q + s,
                n == m * p + t,
        ;
        lemma_fundamental_div_mod_converse(x + n, m, q + p + 1, s + t - m);
    }
}

/// Round-robin fairness: of `n` successive forwards performed by a proxy
/// whose cursor stands at `cursor`, each output slot `r` of `len` outputs
/// receives the forward either `n / len` times (rounded down) or one time
/// more; when `len` divides `n`, exactly `n / len` times.
pub proof fn lemma_round_robin_fairness(cursor: int, n: int, len: int, r: int)
    requires
        len >= 1,
        0 <= r < len,
        n >= 0,
    ensures
        count_mod(cursor + 1, cursor + 1 + n, len, r) >= n / len,
        count_mod(cursor + 1, cursor + 1 + n, len, r) <= if n % len == 0 {
            n / len
        } else {
            n / len + 1
        },
{
    lemma_count_mod_closed(cursor + 1, cursor + 1 + n, len, r);
    lemma_floor_window(cursor - r, n, len);
}

/// Advancing the cursor once shifts the whole forward-slot sequence by
/// one: the proxy's later forwards are unaffected by when we look.
pub proof fn lemma_forward_slot_shift(cursor: int, k: int, len: int)
    requires
        len >= 1,
        0 <= cursor < len,
        k >= 0,
    ensures
        forward_slot(forward_slot(cursor, 0, len), k, len) == forward_slot(cursor, k + 1, len),
{
    lemma_fundamental_div_mod(cursor + 1, len);
    let q = (cursor + 1) / len;
    vstd::arithmetic::div_mod::lemma_mod_multiples_vanish(-q, cursor + 2 + k, len);
    assert(len * (-q) + (cursor + 2 + k) == (cursor + 1) % len + 1 + k) by (nonlinear_arith)
        requires
            cursor + 1 == len * q + (cursor + 1) % len,
    ;
}

} // verus!
