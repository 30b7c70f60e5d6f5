//! The simulation context: one level attempt's complete state.
//!
//! Servers and travelling requests live in explicit arenas — plain
//! vectors, indexed by id — and every cross-cutting effect of a tick is
//! returned as an explicit outcome-event list, so a run is replayable
//! without any engine around it.  The upgrade economy's bookkeeping invariant —
//! the assigned points always equal the points invested over all
//! servers — is part of the context's well-formedness and makes every
//! refund exact.

use vstd::prelude::*;

use crate::game_stats::GameStats;
use crate::levels::{GameLevels, LoadNextLevel, ReloadCurrentLevel, ResetCurrentLevel};
use crate::limits::{
    MAX_POINTS, MAX_SCHEDULES, MAX_SERVERS, MAX_SIM_MS, MAX_TICK_MS, MAX_TOTAL_REQUESTS,
};
use crate::load_scenarios::{LoadScenario, LoadSchedule, StartLoadScenarios, MAX_SPAWN_PER_TICK};
use crate::requests::Request;
use crate::results::LevelResults;
use crate::server::{
    cpu_refund, forward_slot, lemma_cpu_refund_accumulates, points_spent, AddNewServer,
    ChangeServerModeEvent, ResetUpgradesEvent, SelectedServerForOutputs, Server, ServerMode,
    SetServerOutputEvent, UpgradePoints, UpgradeServerCPUEvent, UpgradeServerQueueEvent,
    MAX_POWER,
};
use crate::states::{EditMode, GameState};
use crate::timer::Timer;

verus! {

/// Outcome events of one tick, for the presentation layer to animate.
pub enum Outcome {
    /// A new request entered the simulation.
    Spawned(u64),
    /// A request was processed successfully.
    Handled(u64),
    /// A request was dropped.
    Dropped(u64),
    /// A proxy forwarded a request to the given server.
    Forwarded(u64, usize),
}

/// Error of an upgrade purchase that the point budget does not cover.
#[derive(Debug)]
pub struct InsufficientPoints;

/// Points invested over a prefix of the server arena.
pub open spec fn total_spent(servers: Seq<Server>) -> int
    decreases servers.len(),
{
    if servers.len() == 0 {
        0
    } else {
        total_spent(servers.drop_last()) + points_spent(servers.last())
    }
}

/// Requests held over a prefix of the server arena (queued plus in
/// service).
pub open spec fn total_load(servers: Seq<Server>) -> int
    decreases servers.len(),
{
    if servers.len() == 0 {
        0
    } else {
        total_load(servers.drop_last()) + servers.last().load()
    }
}

/// How many `Spawned` events a tick reported.
pub open spec fn count_spawned(events: Seq<Outcome>) -> int
    decreases events.len(),
{
    if events.len() == 0 {
        0
    } else {
        count_spawned(events.drop_last()) + if events.last() is Spawned {
            1int
        } else {
            0int
        }
    }
}

/// Every server's investment is nonnegative.
pub proof fn lemma_points_spent_nonneg(s: Server)
    requires
        s.processing_power >= 1,
    ensures
        points_spent(s) >= 0,
{
    let p = s.processing_power as int;
    if p > 1 {
        assert((p - 1) * p >= 0) by (nonlinear_arith)
            requires
                p > 1,
        ;
    }
}

/// `total_spent` over an update: only the touched server's share moves.
pub proof fn lemma_total_spent_update(s: Seq<Server>, i: int, v: Server)
    requires
        0 <= i < s.len(),
    ensures
        total_spent(s.update(i, v)) == total_spent(s) - points_spent(s[i]) + points_spent(v),
    decreases s.len(),
{
    if i == s.len() - 1 {
        assert(s.update(i, v).drop_last() =~= s.drop_last());
    } else {
        assert(s.update(i, v).drop_last() =~= s.drop_last().update(i, v));
        lemma_total_spent_update(s.drop_last(), i, v);
    }
}

/// Appending a server adds exactly its own investment.
pub proof fn lemma_total_spent_push(s: Seq<Server>, v: Server)
    ensures
        total_spent(s.push(v)) == total_spent(s) + points_spent(v),
{
    assert(s.push(v).drop_last() =~= s);
}

/// One server's investment never exceeds the arena's total.
pub proof fn lemma_total_spent_element_bound(s: Seq<Server>, i: int)
    requires
        0 <= i < s.len(),
        forall|k: int| 0 <= k < s.len() ==> (#[trigger] s[k]).processing_power >= 1,
    ensures
        points_spent(s[i]) <= total_spent(s),
    decreases s.len(),
{
    lemma_points_spent_nonneg(s.last());
    if i == s.len() - 1 {
        lemma_total_spent_nonneg(s.drop_last());
    } else {
        lemma_total_spent_element_bound(s.drop_last(), i);
    }
}

/// Investments are nonnegative, so their total is too.
pub proof fn lemma_total_spent_nonneg(s: Seq<Server>)
    requires
        forall|k: int| 0 <= k < s.len() ==> (#[trigger] s[k]).processing_power >= 1,
    ensures
        total_spent(s) >= 0,
    decreases s.len(),
{
    if s.len() > 0 {
        lemma_points_spent_nonneg(s.last());
        lemma_total_spent_nonneg(s.drop_last());
    }
}

/// `total_load` over an update: only the touched server's load moves.
pub proof fn lemma_total_load_update(s: Seq<Server>, i: int, v: Server)
    requires
        0 <= i < s.len(),
    ensures
        total_load(s.update(i, v)) == total_load(s) - s[i].load() + v.load(),
    decreases s.len(),
{
    if i == s.len() - 1 {
        assert(s.update(i, v).drop_last() =~= s.drop_last());
    } else {
        assert(s.update(i, v).drop_last() =~= s.drop_last().update(i, v));
        lemma_total_load_update(s.drop_last(), i, v);
    }
}

/// Appending a server adds exactly its own load.
pub proof fn lemma_total_load_push(s: Seq<Server>, v: Server)
    ensures
        total_load(s.push(v)) == total_load(s) + v.load(),
{
    assert(s.push(v).drop_last() =~= s);
}

/// Loads are nonnegative, so one server's load never exceeds the total.
pub proof fn lemma_total_load_element_bound(s: Seq<Server>, i: int)
    requires
        0 <= i < s.len(),
    ensures
        s[i].load() <= total_load(s),
        total_load(s) >= 0,
    decreases s.len(),
{
    if i == s.len() - 1 {
        lemma_total_load_nonneg(s.drop_last());
    } else {
        lemma_total_load_element_bound(s.drop_last(), i);
    }
}

/// Every server holds a nonnegative number of requests.
pub proof fn lemma_total_load_nonneg(s: Seq<Server>)
    ensures
        total_load(s) >= 0,
    decreases s.len(),
{
    if s.len() > 0 {
        lemma_total_load_nonneg(s.drop_last());
    }
}

/// One level attempt's complete state.
pub struct Simulation {
    pub game_state: GameState,
    pub edit_mode: EditMode,
    pub levels: GameLevels,
    pub points: UpgradePoints,
    pub stats: GameStats,
    pub results: LevelResults,
    /// The server arena; a server's id is its index.
    pub servers: Vec<Server>,
    /// Requests travelling between servers (unrouted or in transit).
    pub requests: Vec<Request>,
    /// The schedules of the current run, if a level is loaded.
    pub scenario: Option<LoadScenario>,
    /// Drain hysteresis: set once all schedules completed and no request
    /// was left at the end of a tick; the transition to `Results` waits
    /// for one more tick.
    pub requests_gone: bool,
    /// The simulation clock, in milliseconds.
    pub elapsed_ms: u64,
    /// Identity for the next spawned request.
    pub next_request_id: u64,
    /// The server whose outputs are being edited, if any.
    pub selected_server_for_outputs: SelectedServerForOutputs,
}

impl Simulation {
    /// Requests in flight: travelling plus held by servers.
    pub open spec fn live_requests(self) -> int {
        self.requests@.len() + total_load(self.servers@)
    }

    /// The context's invariant: every component is well formed, every id
    /// reference lands inside the arenas, the assigned points equal the
    /// invested points, and the global request accounting stays inside
    /// the supported caps.
    pub open spec fn wf(self) -> bool {
        &&& self.levels.wf()
        &&& self.stats.wf()
        &&& self.results.wf()
        &&& self.points.total <= MAX_POINTS
        &&& self.points.assigned == total_spent(self.servers@)
        &&& self.servers@.len() <= MAX_SERVERS
        &&& forall|i: int| 0 <= i < self.servers@.len()
            ==> (#[trigger] self.servers@[i]).wf(self.servers@.len() as int)
        &&& forall|i: int| 0 <= i < self.requests@.len()
            ==> (#[trigger] self.requests@[i]).rq_wf(self.servers@.len() as int)
        &&& self.stats.handled_requests + self.stats.dropped_requests + self.live_requests()
            <= MAX_TOTAL_REQUESTS
        &&& self.elapsed_ms <= MAX_SIM_MS
        &&& self.scenario is Some ==> {
            &&& self.scenario->0.schedules@.len() <= MAX_SCHEDULES
            &&& forall|i: int| 0 <= i < self.scenario->0.schedules@.len() ==> {
                &&& (#[trigger] self.scenario->0.schedules@[i]).wf()
                &&& (self.scenario->0.schedules@[i].active
                    ==> self.scenario->0.schedules@[i].start_time <= self.elapsed_ms)
            }
        }
    }

    /// A fresh context with nothing loaded; `handle_reset` builds the
    /// first level.
    pub fn new() -> (r: Simulation)
        ensures
            r.wf(),
            r.game_state is Loading,
            r.edit_mode is Upgrade,
            r.servers@.len() == 0,
            r.requests@.len() == 0,
            r.scenario is None,
            r.elapsed_ms == 0,
            r.stats.handled_requests == 0,
            r.stats.dropped_requests == 0,
            r.levels.current == 0,
            crate::levels::is_standard_catalog(r.levels.levels@),
            r.points.total == 0,
            r.points.assigned == 0,
            !r.results.passed,
            !r.requests_gone,
            r.next_request_id == 0,
    {
        Simulation {
            game_state: GameState::Loading,
            edit_mode: EditMode::Upgrade,
            levels: GameLevels::default(),
            points: UpgradePoints::default(),
            stats: GameStats::default(),
            results: LevelResults::default(),
            servers: Vec::new(),
            requests: Vec::new(),
            scenario: None,
            requests_gone: false,
            elapsed_ms: 0,
            next_request_id: 0,
            selected_server_for_outputs: SelectedServerForOutputs(None),
        }
    }

    /// Spawn `ev.0` fresh servers, laid out on the presentation grid.
    pub fn add_new_server(&mut self, ev: AddNewServer)
        requires
            old(self).wf(),
            old(self).servers@.len() + ev.0 <= MAX_SERVERS,
        ensures
            final(self).wf(),
            final(self).servers@.len() == old(self).servers@.len() + ev.0,
            forall|k: int| 0 <= k < old(self).servers@.len()
                ==> final(self).servers@[k] == old(self).servers@[k],
            forall|k: int| old(self).servers@.len() <= k < final(self).servers@.len() ==> {
                &&& (#[trigger] final(self).servers@[k]).mode is Process
                &&& final(self).servers@[k].processing_power == 1
                &&& final(self).servers@[k].queue_size == 0
                &&& final(self).servers@[k].current_request is None
                &&& final(self).servers@[k].queued_requests@.len() == 0
                &&& final(self).servers@[k].outputs@.len() == 0
                &&& final(self).servers@[k].x == -200 + (k - old(self).servers@.len()) * 100
                &&& final(self).servers@[k].y == 0
            },
            *final(self) == (Simulation { servers: final(self).servers, ..*old(self) }),
    {
        let count = ev.0;
        let mut i: usize = 0;
        while i < count
            invariant
                self.wf(),
                i <= count,
                self.servers@.len() == old(self).servers@.len() + i,
                old(self).servers@.len() + count <= MAX_SERVERS,
                forall|k: int| 0 <= k < old(self).servers@.len()
                    ==> self.servers@[k] == old(self).servers@[k],
                forall|k: int| old(self).servers@.len() <= k < self.servers@.len() ==> {
                    &&& (#[trigger] self.servers@[k]).mode is Process
                    &&& self.servers@[k].processing_power == 1
                    &&& self.servers@[k].queue_size == 0
                    &&& self.servers@[k].current_request is None
                    &&& self.servers@[k].queued_requests@.len() == 0
                    &&& self.servers@[k].outputs@.len() == 0
                    &&& self.servers@[k].x == -200 + (k - old(self).servers@.len()) * 100
                    &&& self.servers@[k].y == 0
                },
                *self == (Simulation { servers: self.servers, ..*old(self) }),
            decreases count - i,
        {
            let mut server = Server::default();
            server.x = -200 + (i as i64) * 100;
            proof {
                lemma_total_spent_push(self.servers@, server);
                lemma_total_load_push(self.servers@, server);
                assert(0 <= (i as i64) * 100 <= 110_000) by (nonlinear_arith)
                    requires
                        0 <= i <= MAX_SERVERS,
                ;
                assert(forall|k: int| 0 <= k < self.servers@.len()
                    ==> (#[trigger] self.servers@[k]).wf(self.servers@.len() as int)
                        ==> self.servers@[k].wf(self.servers@.len() as int + 1));
            }
            self.servers.push(server);
            i = i + 1;
        }
    }

    /// Tear down every server: their held requests disappear, the
    /// invested points return to the pool, and travelling requests lose
    /// their destination until a server exists again.
    pub fn remove_all_servers(&mut self)
        requires
            old(self).wf(),
        ensures
            final(self).wf(),
            final(self).servers@.len() == 0,
            final(self).points.assigned == 0,
            final(self).points.total == old(self).points.total,
            final(self).requests@.len() == old(self).requests@.len(),
            forall|i: int| 0 <= i < final(self).requests@.len() ==> {
                &&& (#[trigger] final(self).requests@[i]).destination is None
                &&& final(self).requests@[i] == (Request {
                    destination: None,
                    ..old(self).requests@[i]
                })
            },
            final(self).stats == old(self).stats,
            *final(self) == (Simulation {
                servers: final(self).servers,
                points: final(self).points,
                requests: final(self).requests,
                ..*old(self)
            }),
    {
        self.servers = Vec::new();
        self.points.assigned = 0;
        let mut i: usize = 0;
        while i < self.requests.len()
            invariant
                i <= self.requests@.len(),
                self.requests@.len() == old(self).requests@.len(),
                forall|k: int| 0 <= k < i ==> {
                    &&& (#[trigger] self.requests@[k]).destination is None
                    &&& self.requests@[k] == (Request {
                        destination: None,
                        ..old(self).requests@[k]
                    })
                },
                forall|k: int| i <= k < self.requests@.len()
                    ==> #[trigger] self.requests@[k] == old(self).requests@[k],
                *self == (Simulation {
                    servers: self.servers,
                    points: self.points,
                    requests: self.requests,
                    ..*old(self)
                }),
                self.servers@.len() == 0,
                self.points.assigned == 0,
                self.points.total == old(self).points.total,
                old(self).wf(),
            decreases self.requests@.len() - i,
        {
            self.requests[i].destination = None;
            i = i + 1;
        }
        proof {
            lemma_total_load_nonneg(old(self).servers@);
        }
    }

    /// Buy a CPU upgrade for server `ev.0`: costs as many points as the
    /// server's current power, raises the power by one and restarts the
    /// timer.  Rejected, leaving everything unchanged, when the budget
    /// does not cover the cost.
    pub fn handle_upgrade_server_cpu(&mut self, ev: &UpgradeServerCPUEvent) -> (r: Result<
        (),
        InsufficientPoints,
    >)
        requires
            old(self).wf(),
            ev.0 < old(self).servers@.len(),
        ensures
            final(self).wf(),
            ({
                let cost = old(self).servers@[ev.0 as int].processing_power;
                if old(self).points.assigned + cost <= old(self).points.total {
                    &&& r is Ok
                    &&& final(self).points.assigned == old(self).points.assigned + cost
                    &&& final(self).points.total == old(self).points.total
                    &&& final(self).servers@ == old(self).servers@.update(
                        ev.0 as int,
                        final(self).servers@[ev.0 as int],
                    )
                    &&& final(self).servers@[ev.0 as int] == (Server {
                        processing_power: (cost + 1) as usize,
                        ..old(self).servers@[ev.0 as int]
                    })
                    &&& *final(self) == (Simulation {
                        servers: final(self).servers,
                        points: final(self).points,
                        ..*old(self)
                    })
                } else {
                    &&& r is Err
                    &&& *final(self) == *old(self)
                }
            }),
    {
        let id = ev.0;
        let to_spend = self.servers[id].processing_power;
        if self.points.can_spend_points(to_spend) {
            proof {
                assert(forall|k: int| 0 <= k < self.servers@.len()
                    ==> (#[trigger] self.servers@[k]).processing_power >= 1);
                lemma_total_spent_element_bound(self.servers@, id as int);
                let p = to_spend as int;
                if p > 1 {
                    assert(p < MAX_POWER) by (nonlinear_arith)
                        requires
                            p > 1,
                            ((p - 1) * p) / 2 + p <= MAX_POINTS,
                            MAX_POINTS == 250_000,
                            MAX_POWER == 1000,
                    ;
                }
            }
            self.points.assigned = self.points.assigned + to_spend;
            let srv = &mut self.servers[id];
            srv.processing_power = srv.processing_power + 1;
            proof {
                lemma_cpu_refund_accumulates(to_spend as int);
                lemma_total_spent_update(
                    old(self).servers@,
                    id as int,
                    self.servers@[id as int],
                );
                lemma_total_load_update(
                    old(self).servers@,
                    id as int,
                    self.servers@[id as int],
                );
            }
            Ok(())
        } else {
            Err(InsufficientPoints)
        }
    }

    /// Buy a queue-slot upgrade for server `ev.0`: costs one point, grows
    /// the queue allowance by one slot and restarts the timer.  Rejected,
    /// leaving everything unchanged, when the budget is exhausted.
    pub fn handle_upgrade_queue_size(&mut self, ev: &UpgradeServerQueueEvent) -> (r: Result<
        (),
        InsufficientPoints,
    >)
        requires
            old(self).wf(),
            ev.0 < old(self).servers@.len(),
        ensures
            final(self).wf(),
            if old(self).points.assigned + 1 <= old(self).points.total {
                &&& r is Ok
                &&& final(self).points.assigned == old(self).points.assigned + 1
                &&& final(self).points.total == old(self).points.total
                &&& final(self).servers@ == old(self).servers@.update(
                    ev.0 as int,
                    final(self).servers@[ev.0 as int],
                )
                &&& final(self).servers@[ev.0 as int] == (Server {
                    queue_size: (old(self).servers@[ev.0 as int].queue_size + 1) as usize,
                    ..old(self).servers@[ev.0 as int]
                })
                &&& *final(self) == (Simulation {
                    servers: final(self).servers,
                    points: final(self).points,
                    ..*old(self)
                })
            } else {
                &&& r is Err
                &&& *final(self) == *old(self)
            },
    {
        let id = ev.0;
        let to_spend: usize = 1;
        if self.points.can_spend_points(to_spend) {
            proof {
                assert(forall|k: int| 0 <= k < self.servers@.len()
                    ==> (#[trigger] self.servers@[k]).processing_power >= 1);
                lemma_total_spent_element_bound(self.servers@, id as int);
                lemma_points_spent_nonneg(self.servers@[id as int]);
                let p = self.servers@[id as int].processing_power as int;
                if p > 1 {
                    assert(((p - 1) * p) / 2 >= 0) by (nonlinear_arith)
                        requires
                            p > 1,
                    ;
                }
            }
            self.points.assigned = self.points.assigned + 1;
            let srv = &mut self.servers[id];
            srv.queue_size = srv.queue_size + 1;
            proof {
                lemma_total_spent_update(
                    old(self).servers@,
                    id as int,
                    self.servers@[id as int],
                );
                lemma_total_load_update(
                    old(self).servers@,
                    id as int,
                    self.servers@[id as int],
                );
            }
            Ok(())
        } else {
            Err(InsufficientPoints)
        }
    }

    /// Undo all upgrades of server `ev.0`: power returns to 1, the queue
    /// allowance to 0, the timer restarts, and the budget is refunded
    /// exactly what the upgrades cost — the triangular sum of the CPU
    /// upgrade prices plus one point per queue slot.
    pub fn handle_reset_upgrades(&mut self, ev: &ResetUpgradesEvent)
        requires
            old(self).wf(),
            ev.0 < old(self).servers@.len(),
        ensures
            final(self).wf(),
            final(self).points.total == old(self).points.total,
            final(self).points.assigned == old(self).points.assigned - (cpu_refund(
                old(self).servers@[ev.0 as int].processing_power as int,
            ) + old(self).servers@[ev.0 as int].queue_size),
            final(self).servers@ == old(self).servers@.update(
                ev.0 as int,
                final(self).servers@[ev.0 as int],
            ),
            final(self).servers@[ev.0 as int] == (Server {
                processing_power: 1usize,
                queue_size: 0usize,
                current_progress: final(self).servers@[ev.0 as int].current_progress,
                ..old(self).servers@[ev.0 as int]
            }),
            final(self).servers@[ev.0 as int].current_progress.remaining_ms
                == final(self).servers@[ev.0 as int].current_progress.total_ms,
            final(self).servers@[ev.0 as int].current_progress.total_ms
                == crate::server::processing_duration_ms(
                old(self).servers@[ev.0 as int].mode,
                1,
            ),
            *final(self) == (Simulation {
                servers: final(self).servers,
                points: final(self).points,
                ..*old(self)
            }),
    {
        let id = ev.0;
        let power = self.servers[id].processing_power;
        let queue_points = self.servers[id].queue_size;
        let cpu_points: usize = if power > 1 {
            proof {
                assert((power - 1) * power <= 999_000 && (power - 1) * power >= 0)
                    by (nonlinear_arith)
                    requires
                        1 < power <= MAX_POWER,
                        MAX_POWER == 1000,
                ;
            }
            ((power - 1) * power) / 2
        } else {
            0
        };
        let refund = cpu_points + queue_points;
        proof {
            assert(forall|k: int| 0 <= k < self.servers@.len()
                ==> (#[trigger] self.servers@[k]).processing_power >= 1);
            lemma_total_spent_element_bound(self.servers@, id as int);
        }
        let srv = &mut self.servers[id];
        srv.processing_power = 1;
        srv.queue_size = 0;
        srv.reset_progress();
        self.points.assigned = self.points.assigned - refund;
        proof {
            lemma_total_spent_update(old(self).servers@, id as int, self.servers@[id as int]);
            lemma_total_load_update(old(self).servers@, id as int, self.servers@[id as int]);
        }
    }

    /// Toggle server `ev.0` between Process and Proxy mode.  Leaving
    /// Proxy mode clears the output connections (and with them the
    /// round-robin cursor).
    pub fn handle_change_server_mode(&mut self, ev: &ChangeServerModeEvent)
        requires
            old(self).wf(),
            ev.0 < old(self).servers@.len(),
        ensures
            final(self).wf(),
            final(self).servers@ == old(self).servers@.update(
                ev.0 as int,
                final(self).servers@[ev.0 as int],
            ),
            old(self).servers@[ev.0 as int].mode is Process
                ==> final(self).servers@[ev.0 as int] == (Server {
                mode: ServerMode::Proxy,
                ..old(self).servers@[ev.0 as int]
            }),
            old(self).servers@[ev.0 as int].mode is Proxy
                ==> final(self).servers@[ev.0 as int] == (Server {
                mode: ServerMode::Process,
                outputs: final(self).servers@[ev.0 as int].outputs,
                current_output_index: 0usize,
                ..old(self).servers@[ev.0 as int]
            }),
            old(self).servers@[ev.0 as int].mode is Proxy
                ==> final(self).servers@[ev.0 as int].outputs@.len() == 0,
            *final(self) == (Simulation { servers: final(self).servers, ..*old(self) }),
    {
        let id = ev.0;
        let srv = &mut self.servers[id];
        match srv.mode {
            ServerMode::Process => {
                srv.mode = ServerMode::Proxy;
            }
            ServerMode::Proxy => {
                srv.mode = ServerMode::Process;
                srv.outputs = Vec::new();
                srv.current_output_index = 0;
            }
        }
        proof {
            lemma_total_spent_update(old(self).servers@, id as int, self.servers@[id as int]);
            lemma_total_load_update(old(self).servers@, id as int, self.servers@[id as int]);
        }
    }

    /// Remember server `ev.0` as the one whose outputs are being picked
    /// and switch the planning editor into output-selection mode.
    pub fn handle_select_outputs(&mut self, ev: &SetServerOutputEvent)
        requires
            old(self).wf(),
            ev.0 < old(self).servers@.len(),
        ensures
            final(self).wf(),
            final(self).selected_server_for_outputs.0 == Some(ev.0),
            final(self).edit_mode is Outputs,
            *final(self) == (Simulation {
                selected_server_for_outputs: final(self).selected_server_for_outputs,
                edit_mode: EditMode::Outputs,
                ..*old(self)
            }),
    {
        self.selected_server_for_outputs = SelectedServerForOutputs(Some(ev.0));
        self.edit_mode = EditMode::Outputs;
    }

    /// Connect the remembered server to the given outputs: it becomes a
    /// proxy, its output list is replaced and its round-robin cursor
    /// rewinds.  With no (or a stale) remembered server only the editor
    /// mode returns to upgrading.
    pub fn make_connections(&mut self, outputs: Vec<usize>)
        requires
            old(self).wf(),
            forall|k: int| 0 <= k < outputs@.len()
                ==> #[trigger] outputs@[k] < old(self).servers@.len(),
        ensures
            final(self).wf(),
            final(self).edit_mode is Upgrade,
            ({
                let sel = old(self).selected_server_for_outputs.0;
                if sel is Some && sel->0 < old(self).servers@.len() {
                    &&& final(self).servers@ == old(self).servers@.update(
                        sel->0 as int,
                        final(self).servers@[sel->0 as int],
                    )
                    &&& final(self).servers@[sel->0 as int] == (Server {
                        mode: ServerMode::Proxy,
                        outputs: final(self).servers@[sel->0 as int].outputs,
                        current_output_index: 0usize,
                        ..old(self).servers@[sel->0 as int]
                    })
                    &&& final(self).servers@[sel->0 as int].outputs@ == outputs@
                    &&& *final(self) == (Simulation {
                        servers: final(self).servers,
                        edit_mode: EditMode::Upgrade,
                        ..*old(self)
                    })
                } else {
                    *final(self) == (Simulation { edit_mode: EditMode::Upgrade, ..*old(self) })
                }
            }),
    {
        match self.selected_server_for_outputs.0 {
            Some(id) if id < self.servers.len() => {
                let srv = &mut self.servers[id];
                srv.mode = ServerMode::Proxy;
                srv.outputs = outputs;
                srv.current_output_index = 0;
                proof {
                    lemma_total_spent_update(
                        old(self).servers@,
                        id as int,
                        self.servers@[id as int],
                    );
                    lemma_total_load_update(
                        old(self).servers@,
                        id as int,
                        self.servers@[id as int],
                    );
                }
            }
            _ => {}
        }
        self.edit_mode = EditMode::Upgrade;
    }

    /// Start every pending schedule of the loaded scenario at the current
    /// simulation time and move into the running phase.
    pub fn start_load_scenarios(&mut self, _ev: &StartLoadScenarios)
        requires
            old(self).wf(),
        ensures
            final(self).wf(),
            final(self).game_state is Running,
            old(self).scenario is None ==> *final(self) == (Simulation {
                game_state: GameState::Running,
                ..*old(self)
            }),
            old(self).scenario is Some ==> {
                &&& final(self).scenario is Some
                &&& final(self).scenario->0.schedules@.len()
                    == old(self).scenario->0.schedules@.len()
                &&& forall|j: int| 0 <= j < old(self).scenario->0.schedules@.len() ==> {
                    let o = old(self).scenario->0.schedules@[j];
                    #[trigger] final(self).scenario->0.schedules@[j] == if !o.active
                        && !o.completed {
                        LoadSchedule {
                            active: true,
                            start_time: old(self).elapsed_ms,
                            ..o
                        }
                    } else {
                        o
                    }
                }
                &&& *final(self) == (Simulation {
                    game_state: GameState::Running,
                    scenario: final(self).scenario,
                    ..*old(self)
                })
            },
    {
        self.game_state = GameState::Running;
        let now = self.elapsed_ms;
        match &mut self.scenario {
            Some(sc) => {
                let mut j: usize = 0;
                while j < sc.schedules.len()
                    invariant
                        j <= sc.schedules@.len(),
                        sc.schedules@.len() == old(self).scenario->0.schedules@.len(),
                        now <= MAX_SIM_MS,
                        forall|k: int| 0 <= k < j ==> {
                            let o = old(self).scenario->0.schedules@[k];
                            #[trigger] sc.schedules@[k] == if !o.active && !o.completed {
                                LoadSchedule { active: true, start_time: now, ..o }
                            } else {
                                o
                            }
                        },
                        forall|k: int| j <= k < sc.schedules@.len()
                            ==> #[trigger] sc.schedules@[k]
                                == old(self).scenario->0.schedules@[k],
                    decreases sc.schedules@.len() - j,
                {
                    let mut s = sc.schedules[j];
                    if !s.active && !s.completed {
                        s.start(now);
                        sc.schedules.set(j, s);
                    }
                    j = j + 1;
                }
            }
            None => {}
        }
    }

    /// Copy the active level's scalar configuration and schedules.
    fn active_level_config(&self) -> (r: (usize, usize, u32, u64, Vec<LoadSchedule>))
        requires
            self.wf(),
        ensures
            ({
                let lvl = self.levels.levels@[self.levels.current as int];
                &&& r.0 == lvl.available_servers
                &&& r.1 == lvl.upgrade_points
                &&& r.2 == lvl.required_handled_requests
                &&& r.3 == lvl.required_avg_response_time
                &&& r.4@ == lvl.schedules@
            }),
    {
        let lvl = self.levels.active_level();
        let mut scheds: Vec<LoadSchedule> = Vec::new();
        let mut i: usize = 0;
        while i < lvl.schedules.len()
            invariant
                i <= lvl.schedules@.len(),
                scheds@.len() == i,
                forall|k: int| 0 <= k < i ==> #[trigger] scheds@[k] == lvl.schedules@[k],
            decreases lvl.schedules@.len() - i,
        {
            scheds.push(lvl.schedules[i]);
            i = i + 1;
        }
        proof {
            assert(scheds@ =~= lvl.schedules@);
        }
        (
            lvl.available_servers,
            lvl.upgrade_points,
            lvl.required_handled_requests,
            lvl.required_avg_response_time,
            scheds,
        )
    }
}

/// What rebuilding the current level from scratch leaves behind: fresh
/// servers as granted by the level, an untouched point budget of the
/// level's size, zeroed statistics, the level's thresholds, its schedules
/// ready to start, and not a single request anywhere.
pub open spec fn reset_applied(pre: Simulation, post: Simulation) -> bool {
    let lvl = pre.levels.levels@[pre.levels.current as int];
    &&& post.requests@.len() == 0
    &&& post.servers@.len() == lvl.available_servers
    &&& forall|k: int| 0 <= k < post.servers@.len() ==> {
        &&& (#[trigger] post.servers@[k]).mode is Process
        &&& post.servers@[k].processing_power == 1
        &&& post.servers@[k].queue_size == 0
        &&& post.servers@[k].current_request is None
        &&& post.servers@[k].queued_requests@.len() == 0
        &&& post.servers@[k].outputs@.len() == 0
        &&& post.servers@[k].x == -200 + k * 100
        &&& post.servers@[k].y == 0
    }
    &&& post.stats.handled_requests == 0
    &&& post.stats.dropped_requests == 0
    &&& post.stats.response_times@.len() == 0
    &&& post.stats.avg_response_time is None
    &&& post.points.total == lvl.upgrade_points
    &&& post.points.assigned == 0
    &&& post.results.pass_percentage == lvl.required_handled_requests
    &&& post.results.pass_avg_response_time == lvl.required_avg_response_time
    &&& post.results.current_percentage == 0
    &&& post.results.current_avg_response_time is None
    &&& !post.results.passed
    &&& post.scenario is Some
    &&& post.scenario->0.schedules@ == lvl.schedules@
    &&& post.game_state is Planning
    &&& post.edit_mode is Upgrade
    &&& !post.requests_gone
    &&& post.levels == pre.levels
    &&& post.elapsed_ms == pre.elapsed_ms
    &&& post.next_request_id == pre.next_request_id
}

/// What replaying the current level leaves behind: the built servers keep
/// their configuration but lose their held requests, statistics are
/// zeroed, the thresholds and schedules are reinstalled, the point budget
/// is restored to the level's grant with the invested points untouched,
/// and not a single request survives.
pub open spec fn reload_applied(pre: Simulation, post: Simulation) -> bool {
    let lvl = pre.levels.levels@[pre.levels.current as int];
    &&& post.requests@.len() == 0
    &&& post.servers@.len() == pre.servers@.len()
    &&& forall|k: int| 0 <= k < post.servers@.len() ==> {
        &&& (#[trigger] post.servers@[k]).current_request is None
        &&& post.servers@[k].queued_requests@.len() == 0
        &&& post.servers@[k] == (Server {
            queued_requests: post.servers@[k].queued_requests,
            current_request: None,
            current_progress: post.servers@[k].current_progress,
            ..pre.servers@[k]
        })
    }
    &&& post.stats.handled_requests == 0
    &&& post.stats.dropped_requests == 0
    &&& post.stats.response_times@.len() == 0
    &&& post.stats.avg_response_time is None
    &&& post.points.total == lvl.upgrade_points
    &&& post.points.assigned == pre.points.assigned
    &&& post.results.pass_percentage == lvl.required_handled_requests
    &&& post.results.pass_avg_response_time == lvl.required_avg_response_time
    &&& post.results.current_percentage == 0
    &&& post.results.current_avg_response_time is None
    &&& !post.results.passed
    &&& post.scenario is Some
    &&& post.scenario->0.schedules@ == lvl.schedules@
    &&& post.game_state is Planning
    &&& post.edit_mode is Upgrade
    &&& !post.requests_gone
    &&& post.levels == pre.levels
    &&& post.elapsed_ms == pre.elapsed_ms
    &&& post.next_request_id == pre.next_request_id
}

impl Simulation {
    /// Rebuild the current level from scratch: discard every request and
    /// server, spawn the level's fresh servers, restore the point budget
    /// to the level's grant, zero the statistics, and install the level's
    /// thresholds and schedules.
    pub fn handle_reset(&mut self, _ev: &ResetCurrentLevel)
        requires
            old(self).wf(),
        ensures
            final(self).wf(),
            reset_applied(*old(self), *final(self)),
    {
        let (n_servers, grant, pass_pm, pass_avg, scheds) = self.active_level_config();
        self.requests = Vec::new();
        self.servers = Vec::new();
        self.points.assigned = 0;
        self.points.total = grant;
        self.stats = GameStats::default();
        self.results = LevelResults {
            pass_percentage: pass_pm,
            current_percentage: 0,
            pass_avg_response_time: pass_avg,
            current_avg_response_time: None,
            passed: false,
        };
        self.scenario = Some(LoadScenario { schedules: scheds });
        self.game_state = GameState::Planning;
        self.edit_mode = EditMode::Upgrade;
        self.requests_gone = false;
        self.add_new_server(AddNewServer(n_servers));
    }

    /// Replay the current level: keep the built servers and their
    /// upgrades, but discard every request, zero the statistics, and
    /// reinstall the level's thresholds and schedules.
    pub fn handle_reload(&mut self, _ev: &ReloadCurrentLevel)
        requires
            old(self).wf(),
        ensures
            final(self).wf(),
            reload_applied(*old(self), *final(self)),
    {
        let (_n_servers, grant, pass_pm, pass_avg, scheds) = self.active_level_config();
        self.requests = Vec::new();
        let mut i: usize = 0;
        while i < self.servers.len()
            invariant
                old(self).wf(),
                i <= self.servers@.len(),
                self.servers@.len() == old(self).servers@.len(),
                self.requests@.len() == 0,
                forall|k: int| 0 <= k < i ==> {
                    &&& (#[trigger] self.servers@[k]).current_request is None
                    &&& self.servers@[k].queued_requests@.len() == 0
                    &&& self.servers@[k] == (Server {
                        queued_requests: self.servers@[k].queued_requests,
                        current_request: None,
                        current_progress: self.servers@[k].current_progress,
                        ..old(self).servers@[k]
                    })
                    &&& self.servers@[k].current_progress.wf()
                },
                forall|k: int| i <= k < self.servers@.len()
                    ==> #[trigger] self.servers@[k] == old(self).servers@[k],
                *self == (Simulation {
                    servers: self.servers,
                    requests: self.requests,
                    ..*old(self)
                }),
            decreases self.servers@.len() - i,
        {
            proof {
                assert(old(self).servers@[i as int].wf(old(self).servers@.len() as int));
            }
            let srv = &mut self.servers[i];
            srv.clear_requests();
            i = i + 1;
        }
        self.points.total = grant;
        self.stats = GameStats::default();
        self.results = LevelResults {
            pass_percentage: pass_pm,
            current_percentage: 0,
            pass_avg_response_time: pass_avg,
            current_avg_response_time: None,
            passed: false,
        };
        self.scenario = Some(LoadScenario { schedules: scheds });
        self.game_state = GameState::Planning;
        self.edit_mode = EditMode::Upgrade;
        self.requests_gone = false;
        proof {
            lemma_reload_preserves_totals(old(self).servers@, self.servers@);
        }
    }

    /// Advance to the next level and rebuild it, or mark the game
    /// completed after the last level.
    pub fn handle_load_next_level(&mut self, _ev: &LoadNextLevel)
        requires
            old(self).wf(),
        ensures
            final(self).wf(),
            old(self).levels.current + 1 < old(self).levels.levels@.len() ==> {
                &&& final(self).levels.current == old(self).levels.current + 1
                &&& final(self).levels.levels@ == old(self).levels.levels@
                &&& reset_applied(
                    Simulation { levels: final(self).levels, ..*old(self) },
                    *final(self),
                )
            },
            old(self).levels.current + 1 >= old(self).levels.levels@.len()
                ==> *final(self) == (Simulation {
                game_state: GameState::GameCompleted,
                ..*old(self)
            }),
    {
        if self.levels.current < self.levels.levels.len() - 1 {
            self.levels.current = self.levels.current + 1;
            self.handle_reset(&ResetCurrentLevel);
        } else {
            self.game_state = GameState::GameCompleted;
        }
    }
}

/// The parts of a server the tick never touches: its configuration.
pub open spec fn server_config_unchanged(o: Server, n: Server) -> bool {
    &&& n.mode == o.mode
    &&& n.processing_power == o.processing_power
    &&& n.queue_size == o.queue_size
    &&& n.outputs@ == o.outputs@
    &&& n.x == o.x
    &&& n.y == o.y
}

/// The service slot after a completion: the front of the queue moved in,
/// or the slot emptied.
pub open spec fn queue_advanced(o: Server, n: Server) -> bool {
    if o.queued_requests@.len() > 0 {
        &&& n.current_request == Some(o.queued_requests@[0])
        &&& n.queued_requests@ == o.queued_requests@.subrange(
            1,
            o.queued_requests@.len() as int,
        )
    } else {
        &&& n.current_request is None
        &&& n.queued_requests@.len() == 0
    }
}

/// Whether this tick's countdown finishes the request in service.
pub open spec fn completes(s: Server, dt: u64) -> bool {
    let rem0 = s.current_progress.remaining_ms;
    let rem1 = if rem0 >= dt {
        (rem0 - dt) as u64
    } else {
        0u64
    };
    s.current_request is Some && rem0 > 0 && rem1 == 0
}

/// The outcome of a completion at server `self_id`: a Process server
/// handles the request; a proxy without outputs drops it; otherwise the
/// proxy forwards to the output after its cursor — except to itself,
/// which drops (the self-loop guard).
pub open spec fn completion_outcome(s: Server, self_id: int) -> Outcome {
    let req = s.current_request->0;
    if s.mode is Process {
        Outcome::Handled(req.id)
    } else if s.outputs@.len() == 0 {
        Outcome::Dropped(req.id)
    } else {
        let slot = forward_slot(s.current_output_index as int, 0, s.outputs@.len() as int);
        if s.outputs@[slot] as int == self_id {
            Outcome::Dropped(req.id)
        } else {
            Outcome::Forwarded(req.id, s.outputs@[slot])
        }
    }
}

/// Self-loop guard, stated on its own: a completing proxy whose outputs
/// all point at itself drops the request — it never handles it and never
/// forwards it.
pub proof fn lemma_self_loop_completion_drops(s: Server, self_id: int)
    requires
        s.current_request is Some,
        s.mode is Proxy,
        s.outputs@.len() > 0,
        forall|k: int| 0 <= k < s.outputs@.len() ==> #[trigger] s.outputs@[k] as int == self_id,
    ensures
        completion_outcome(s, self_id) is Dropped,
{
    vstd::arithmetic::div_mod::lemma_mod_bound(
        s.current_output_index as int + 1,
        s.outputs@.len() as int,
    );
}

/// The requests one server forwards this tick: one, routed to its new
/// target, when a proxy completion picks an output other than itself.
pub open spec fn forwarded_of(s: Server, self_id: int, dt: u64) -> Seq<Request> {
    if completes(s, dt) && s.mode is Proxy && s.outputs@.len() > 0 && {
        let slot = forward_slot(s.current_output_index as int, 0, s.outputs@.len() as int);
        s.outputs@[slot] as int != self_id
    } {
        let slot = forward_slot(s.current_output_index as int, 0, s.outputs@.len() as int);
        seq![(Request { destination: Some(s.outputs@[slot]), ..s.current_request->0 })]
    } else {
        Seq::empty()
    }
}

/// The response-time samples one server records this tick: the completed
/// request's age, when a Process completion happens.
pub open spec fn samples_of(s: Server, dt: u64) -> Seq<u64> {
    if completes(s, dt) && s.mode is Process {
        seq![s.current_request->0.age_ms]
    } else {
        Seq::empty()
    }
}

/// The events one server reports this tick.
pub open spec fn events_of(s: Server, self_id: int, dt: u64) -> Seq<Outcome> {
    if completes(s, dt) {
        seq![completion_outcome(s, self_id)]
    } else {
        Seq::empty()
    }
}

/// Whether one server drops its completion this tick: a proxy without
/// outputs, or one whose chosen output is itself.
pub open spec fn dropped_of(s: Server, self_id: int, dt: u64) -> int {
    if completes(s, dt) && s.mode is Proxy && (s.outputs@.len() == 0 || {
        let slot = forward_slot(s.current_output_index as int, 0, s.outputs@.len() as int);
        s.outputs@[slot] as int == self_id
    }) {
        1int
    } else {
        0int
    }
}

/// One server's evolution over one processing tick: an idle server rests;
/// a running timer counts down; a finished one completes — the front of
/// the queue enters service, the timer restarts at the full duration for
/// the current configuration, and a forwarding proxy steps its cursor.
pub open spec fn server_processed(o: Server, n: Server, dt: u64) -> bool {
    let rem0 = o.current_progress.remaining_ms;
    let rem1 = if rem0 >= dt {
        (rem0 - dt) as u64
    } else {
        0u64
    };
    if o.current_request is None {
        n == o
    } else if !(rem0 > 0 && rem1 == 0) {
        n == (Server {
            current_progress: Timer { remaining_ms: rem1, total_ms: o.current_progress.total_ms },
            ..o
        })
    } else {
        &&& queue_advanced(o, n)
        &&& n.current_progress.total_ms == crate::server::processing_duration_ms(
            o.mode,
            o.processing_power,
        )
        &&& n.current_progress.remaining_ms == n.current_progress.total_ms
        &&& n.current_output_index as int == if o.mode is Proxy && o.outputs@.len() > 0 {
            forward_slot(o.current_output_index as int, 0, o.outputs@.len() as int)
        } else {
            o.current_output_index as int
        }
        &&& n == (Server {
            queued_requests: n.queued_requests,
            current_request: n.current_request,
            current_progress: n.current_progress,
            current_output_index: n.current_output_index,
            ..o
        })
    }
}

/// Events the processing phase reports, in server order.
pub open spec fn processed_events(servers: Seq<Server>, dt: u64) -> Seq<Outcome>
    decreases servers.len(),
{
    if servers.len() == 0 {
        Seq::empty()
    } else {
        processed_events(servers.drop_last(), dt) + events_of(
            servers.last(),
            servers.len() - 1,
            dt,
        )
    }
}

/// Response-time samples the processing phase records, in server order:
/// the age of every request a Process server completes this tick.
pub open spec fn processed_samples(servers: Seq<Server>, dt: u64) -> Seq<u64>
    decreases servers.len(),
{
    if servers.len() == 0 {
        Seq::empty()
    } else {
        processed_samples(servers.drop_last(), dt) + samples_of(servers.last(), dt)
    }
}

/// Requests the proxies forward this tick, in server order, each already
/// routed to its new target.
pub open spec fn forwarded_requests(servers: Seq<Server>, dt: u64) -> Seq<Request>
    decreases servers.len(),
{
    if servers.len() == 0 {
        Seq::empty()
    } else {
        forwarded_requests(servers.drop_last(), dt) + forwarded_of(
            servers.last(),
            servers.len() - 1,
            dt,
        )
    }
}

/// How many completions the processing phase drops: proxy completions
/// without outputs, or whose chosen output is the proxy itself.
pub open spec fn processed_dropped(servers: Seq<Server>, dt: u64) -> int
    decreases servers.len(),
{
    if servers.len() == 0 {
        0
    } else {
        processed_dropped(servers.drop_last(), dt) + dropped_of(
            servers.last(),
            servers.len() - 1,
            dt,
        )
    }
}

/// Exactly what the processing phase does: every server steps per
/// `server_processed`, each Process completion records the request's age
/// as handled, each failing proxy completion counts as dropped, and each
/// forwarded request re-enters the travelling arena routed to its target.
pub open spec fn process_post(pre: Simulation, post: Simulation, dt: u64) -> bool {
    &&& post.servers@.len() == pre.servers@.len()
    &&& forall|k: int| 0 <= k < pre.servers@.len() ==> server_processed(
        pre.servers@[k],
        #[trigger] post.servers@[k],
        dt,
    )
    &&& post.stats.response_times@ == pre.stats.response_times@ + processed_samples(
        pre.servers@,
        dt,
    )
    &&& post.stats.handled_requests == pre.stats.handled_requests + processed_samples(
        pre.servers@,
        dt,
    ).len()
    &&& post.stats.dropped_requests == pre.stats.dropped_requests + processed_dropped(
        pre.servers@,
        dt,
    )
    &&& post.stats.avg_response_time == if processed_samples(pre.servers@, dt).len() == 0 {
        pre.stats.avg_response_time
    } else {
        crate::game_stats::spec_avg(post.stats.response_times@)
    }
    &&& post.requests@ == pre.requests@ + forwarded_requests(pre.servers@, dt)
    &&& post == (Simulation {
        servers: post.servers,
        stats: post.stats,
        requests: post.requests,
        ..pre
    })
}

/// The service slot, queue and door-drop count of one server after the
/// routed requests in `reqs` arrive in order: a request bound elsewhere
/// passes by; one that finds the server busy (slot taken and no queue
/// slack) is dropped at the door; otherwise it enters the free slot or
/// the back of the queue.
pub open spec fn delivered_at(pre: Server, reqs: Seq<Request>, k: int) -> (
    Option<Request>,
    Seq<Request>,
    int,
)
    decreases reqs.len(),
{
    if reqs.len() == 0 {
        (pre.current_request, pre.queued_requests@, 0int)
    } else {
        let prev = delivered_at(pre, reqs.drop_last(), k);
        let r = reqs.last();
        if r.destination is Some && r.destination->0 as int == k {
            if prev.0 is Some && prev.1.len() >= pre.queue_size {
                (prev.0, prev.1, prev.2 + 1)
            } else if prev.0 is Some {
                (prev.0, prev.1.push(r), prev.2)
            } else {
                (Some(r), prev.1, prev.2)
            }
        } else {
            prev
        }
    }
}

/// The travelling requests that stay after delivery: the unrouted ones,
/// in order.
pub open spec fn unrouted_of(reqs: Seq<Request>) -> Seq<Request>
    decreases reqs.len(),
{
    if reqs.len() == 0 {
        Seq::empty()
    } else {
        unrouted_of(reqs.drop_last()) + if reqs.last().destination is None {
            seq![reqs.last()]
        } else {
            Seq::empty()
        }
    }
}

/// Drop events of the delivery phase, in arrival order: one for each
/// routed request whose target is busy when it arrives.
pub open spec fn delivery_events(servers: Seq<Server>, reqs: Seq<Request>) -> Seq<Outcome>
    decreases reqs.len(),
{
    if reqs.len() == 0 {
        Seq::empty()
    } else {
        let r = reqs.last();
        delivery_events(servers, reqs.drop_last()) + if r.destination is Some && {
            let d = r.destination->0 as int;
            let prev = delivered_at(servers[d], reqs.drop_last(), d);
            &&& 0 <= d < servers.len()
            &&& prev.0 is Some
            &&& prev.1.len() >= servers[d].queue_size
        } {
            seq![Outcome::Dropped(r.id)]
        } else {
            Seq::empty()
        }
    }
}

/// Exactly what the delivery phase does: each routed request is dropped
/// if and only if its target is busy at its arrival, else it enters that
/// server; the unrouted requests stay put.
pub open spec fn deliver_post(pre: Simulation, post: Simulation) -> bool {
    &&& post.servers@.len() == pre.servers@.len()
    &&& forall|k: int| 0 <= k < pre.servers@.len() ==> {
        let rec = delivered_at(pre.servers@[k], pre.requests@, k);
        &&& (#[trigger] post.servers@[k]).current_request == rec.0
        &&& post.servers@[k].queued_requests@ == rec.1
        &&& post.servers@[k] == (Server {
            queued_requests: post.servers@[k].queued_requests,
            current_request: post.servers@[k].current_request,
            ..pre.servers@[k]
        })
    }
    &&& post.requests@ == unrouted_of(pre.requests@)
    &&& post.stats.dropped_requests == pre.stats.dropped_requests + delivery_events(
        pre.servers@,
        pre.requests@,
    ).len()
    &&& post.stats.handled_requests == pre.stats.handled_requests
    &&& post.stats.response_times@ == pre.stats.response_times@
    &&& post.stats.avg_response_time == pre.stats.avg_response_time
    &&& post == (Simulation {
        servers: post.servers,
        stats: post.stats,
        requests: post.requests,
        ..pre
    })
}

/// Exactly what the routing phase does: every unrouted request is bound
/// to its nearest server (ties to the lowest id) when one exists;
/// everything else rests.
pub open spec fn route_post(pre: Simulation, post: Simulation) -> bool {
    &&& post.requests@.len() == pre.requests@.len()
    &&& forall|k: int| 0 <= k < pre.requests@.len() ==> {
        let o = pre.requests@[k];
        if o.destination is Some || pre.servers@.len() == 0 {
            #[trigger] post.requests@[k] == o
        } else {
            &&& post.requests@[k] == (Request { destination: post.requests@[k].destination, ..o })
            &&& post.requests@[k].destination is Some
            &&& crate::requests::is_nearest(
                pre.servers@,
                o.x as int,
                o.y as int,
                post.requests@[k].destination->0 as int,
            )
        }
    }
    &&& post == (Simulation { requests: post.requests, ..pre })
}

/// Exactly what the aging phase does: every request — travelling or held
/// — grows older by the tick width (capped at the longest supported
/// run); nothing else moves.
pub open spec fn age_post(pre: Simulation, post: Simulation, dt: u64) -> bool {
    &&& post.requests@.len() == pre.requests@.len()
    &&& forall|k: int| 0 <= k < pre.requests@.len() ==> #[trigger] post.requests@[k] == (Request {
        age_ms: aged(pre.requests@[k].age_ms, dt),
        ..pre.requests@[k]
    })
    &&& post.servers@.len() == pre.servers@.len()
    &&& forall|k: int| 0 <= k < pre.servers@.len() ==> {
        let o = pre.servers@[k];
        let n = #[trigger] post.servers@[k];
        &&& n.queued_requests@.len() == o.queued_requests@.len()
        &&& forall|j: int| 0 <= j < o.queued_requests@.len()
            ==> #[trigger] n.queued_requests@[j] == (Request {
            age_ms: aged(o.queued_requests@[j].age_ms, dt),
            ..o.queued_requests@[j]
        })
        &&& (o.current_request is None ==> n.current_request is None)
        &&& (o.current_request is Some ==> n.current_request == Some(
            Request { age_ms: aged(o.current_request->0.age_ms, dt), ..o.current_request->0 },
        ))
        &&& n == (Server {
            queued_requests: n.queued_requests,
            current_request: n.current_request,
            ..o
        })
    }
    &&& post == (Simulation { servers: post.servers, requests: post.requests, ..pre })
}

/// Requests owed by one tick of the given schedules, summed in order:
/// the whole part of each active, in-window schedule's accumulator after
/// this tick's exact contribution (what `tick_spawn` returns).
pub open spec fn scheduled_spawns(schedules: Seq<LoadSchedule>, now: int, dt: int) -> int
    decreases schedules.len(),
{
    if schedules.len() == 0 {
        0
    } else {
        scheduled_spawns(schedules.drop_last(), now, dt) + {
            let s = schedules.last();
            if s.active && !s.completed && now - s.start_time <= s.rampup + s.rampdown {
                (s.accumulated_requests + crate::load_scenarios::spawn_contribution(
                    s,
                    now - s.start_time,
                    dt,
                )) / crate::load_scenarios::spawn_denominator(s)
            } else {
                0
            }
        }
    }
}

/// The spawn events of a tick: one per owed request, carrying the fresh
/// ids in order.
pub open spec fn spawned_events(next_id: u64, n: int) -> Seq<Outcome> {
    Seq::new(n as nat, |q: int| Outcome::Spawned((next_id + q) as u64))
}

/// Exactly what the schedule-and-drain phase does: each schedule steps by
/// one tick; the owed requests (the summed whole parts of the schedule
/// accumulators) join the travelling arena fresh, unrouted, and with
/// consecutive ids; and the drain check runs — once every schedule had
/// completed and the no-requests flag was already set, the run moves to
/// the results phase and the verdict is computed.
pub open spec fn scenario_post(pre: Simulation, post: Simulation, dt: u64) -> bool {
    if pre.scenario is None {
        post == pre
    } else {
        let scheds = pre.scenario->0.schedules@;
        let count = scheduled_spawns(scheds, pre.elapsed_ms as int, dt as int);
        let done = forall|j: int| 0 <= j < scheds.len() ==> (#[trigger] scheds[j]).completed;
        &&& post.scenario is Some
        &&& post.scenario->0.schedules@.len() == scheds.len()
        &&& forall|j: int| 0 <= j < scheds.len() ==> crate::load_scenarios::schedule_stepped(
            scheds[j],
            #[trigger] post.scenario->0.schedules@[j],
            pre.elapsed_ms as int,
            dt as int,
        )
        &&& post.stats == pre.stats
        &&& post.servers@ == pre.servers@
        &&& post.requests@.len() == pre.requests@.len() + count
        &&& forall|k: int| 0 <= k < pre.requests@.len() ==> #[trigger] post.requests@[k]
            == pre.requests@[k]
        &&& forall|k: int| pre.requests@.len() <= k < post.requests@.len() ==> {
            &&& (#[trigger] post.requests@[k]).destination is None
            &&& post.requests@[k].age_ms == 0
            &&& post.requests@[k].id == pre.next_request_id + (k - pre.requests@.len())
        }
        &&& post.next_request_id == pre.next_request_id + count
        &&& post.game_state == if done && pre.requests_gone {
            GameState::Results
        } else {
            pre.game_state
        }
        &&& post.requests_gone == (if done {
            pre.requests_gone || post.live_requests() == 0
        } else {
            false
        })
        &&& if done && pre.requests_gone {
            &&& post.results.pass_percentage == pre.results.pass_percentage
            &&& post.results.pass_avg_response_time == pre.results.pass_avg_response_time
            &&& post.results.passed == crate::results::level_passed(
                pre.stats.handled_requests as int,
                pre.stats.dropped_requests as int,
                pre.stats.response_times@,
                pre.results.pass_percentage as int,
                pre.results.pass_avg_response_time as int,
            )
        } else {
            post.results == pre.results
        }
        &&& post == (Simulation {
            scenario: post.scenario,
            requests: post.requests,
            next_request_id: post.next_request_id,
            game_state: post.game_state,
            requests_gone: post.requests_gone,
            results: post.results,
            ..pre
        })
    }
}

/// Appending an event only counts if it is a spawn.
pub proof fn lemma_count_spawned_push(s: Seq<Outcome>, e: Outcome)
    ensures
        count_spawned(s.push(e)) == count_spawned(s) + if e is Spawned {
            1int
        } else {
            0int
        },
{
    assert(s.push(e).drop_last() =~= s);
}

/// Advance one server by one tick: count its service timer down, and on
/// completion handle, drop or forward the finished request, then pull the
/// next one into service.  This is the per-server processing engine: a
/// Process server records the request as handled; a Proxy server with no
/// outputs drops it; otherwise the proxy advances its round-robin cursor
/// and forwards — except to itself, which drops (the self-loop guard).
fn process_one_server(
    srv: &mut Server,
    self_id: usize,
    n_servers: usize,
    dt: u64,
    stats: &mut GameStats,
    moved: &mut Vec<Request>,
    events: &mut Vec<Outcome>,
)
    requires
        old(srv).wf(n_servers as int),
        self_id < n_servers,
        old(stats).wf(),
        old(stats).handled_requests + old(stats).dropped_requests + old(srv).load()
            <= MAX_TOTAL_REQUESTS,
        dt <= MAX_TICK_MS,
        forall|k: int| 0 <= k < old(moved)@.len()
            ==> (#[trigger] old(moved)@[k]).rq_wf(n_servers as int),
    ensures
        final(srv).wf(n_servers as int),
        server_config_unchanged(*old(srv), *final(srv)),
        final(stats).wf(),
        final(stats).handled_requests + final(stats).dropped_requests + final(srv).load()
            + final(moved)@.len() == old(stats).handled_requests + old(stats).dropped_requests
            + old(srv).load() + old(moved)@.len(),
        final(stats).handled_requests >= old(stats).handled_requests,
        final(stats).dropped_requests >= old(stats).dropped_requests,
        forall|k: int| 0 <= k < final(moved)@.len()
            ==> (#[trigger] final(moved)@[k]).rq_wf(n_servers as int),
        final(moved)@.len() >= old(moved)@.len(),
        forall|k: int| 0 <= k < old(moved)@.len()
            ==> #[trigger] final(moved)@[k] == old(moved)@[k],
        count_spawned(final(events)@) == count_spawned(old(events)@),
        server_processed(*old(srv), *final(srv), dt),
        final(stats).response_times@ == old(stats).response_times@ + samples_of(*old(srv), dt),
        final(stats).handled_requests == old(stats).handled_requests + samples_of(
            *old(srv),
            dt,
        ).len(),
        final(stats).dropped_requests == old(stats).dropped_requests + dropped_of(
            *old(srv),
            self_id as int,
            dt,
        ),
        final(stats).avg_response_time == (if samples_of(*old(srv), dt).len() == 0 {
            old(stats).avg_response_time
        } else {
            crate::game_stats::spec_avg(final(stats).response_times@)
        }),
        final(moved)@ == old(moved)@ + forwarded_of(*old(srv), self_id as int, dt),
        final(events)@ == old(events)@ + events_of(*old(srv), self_id as int, dt),
{
    if srv.current_request.is_none() {
        proof {
            lemma_one_server_rests(*old(srv), self_id as int, dt, events@, moved@, stats.response_times@);
        }
        return;
    }
    let finished = srv.current_progress.tick(dt);
    if !finished {
        proof {
            lemma_one_server_rests(*old(srv), self_id as int, dt, events@, moved@, stats.response_times@);
        }
        return;
    }
    match srv.mode {
        ServerMode::Process => {
            let done = srv.complete_current();
            stats.record_handled(done.age_ms);
            events.push(Outcome::Handled(done.id));
            proof {
                lemma_count_spawned_push(old(events)@, Outcome::Handled(done.id));
                assert(stats.response_times@ =~= old(stats).response_times@ + samples_of(
                    *old(srv),
                    dt,
                ));
                assert(events@ =~= old(events)@ + events_of(*old(srv), self_id as int, dt));
                assert(moved@ =~= old(moved)@ + forwarded_of(*old(srv), self_id as int, dt));
                lemma_processed_frame(*old(srv), *srv);
            }
        }
        ServerMode::Proxy => {
            if srv.outputs.len() == 0 {
                let done = srv.complete_current();
                stats.record_dropped();
                events.push(Outcome::Dropped(done.id));
                proof {
                    lemma_count_spawned_push(old(events)@, Outcome::Dropped(done.id));
                    assert(stats.response_times@ =~= old(stats).response_times@ + samples_of(
                        *old(srv),
                        dt,
                    ));
                    assert(events@ =~= old(events)@ + events_of(*old(srv), self_id as int, dt));
                    assert(moved@ =~= old(moved)@ + forwarded_of(*old(srv), self_id as int, dt));
                    lemma_processed_frame(*old(srv), *srv);
                }
            } else {
                let target = srv.next_output();
                if target == self_id {
                    let done = srv.complete_current();
                    stats.record_dropped();
                    events.push(Outcome::Dropped(done.id));
                    proof {
                        lemma_count_spawned_push(old(events)@, Outcome::Dropped(done.id));
                        assert(stats.response_times@ =~= old(stats).response_times@ + samples_of(
                            *old(srv),
                            dt,
                        ));
                        assert(events@ =~= old(events)@ + events_of(
                            *old(srv),
                            self_id as int,
                            dt,
                        ));
                        assert(moved@ =~= old(moved)@ + forwarded_of(
                            *old(srv),
                            self_id as int,
                            dt,
                        ));
                        lemma_processed_frame(*old(srv), *srv);
                    }
                } else {
                    let mut done = srv.complete_current();
                    done.destination = Some(target);
                    let done_id = done.id;
                    moved.push(done);
                    events.push(Outcome::Forwarded(done_id, target));
                    proof {
                        lemma_count_spawned_push(
                            old(events)@,
                            Outcome::Forwarded(done_id, target),
                        );
                        assert(stats.response_times@ =~= old(stats).response_times@ + samples_of(
                            *old(srv),
                            dt,
                        ));
                        assert(events@ =~= old(events)@ + events_of(
                            *old(srv),
                            self_id as int,
                            dt,
                        ));
                        assert(moved@ =~= old(moved)@ + forwarded_of(
                            *old(srv),
                            self_id as int,
                            dt,
                        ));
                        lemma_processed_frame(*old(srv), *srv);
                    }
                }
            }
        }
    }
}

/// A server that does not complete this tick contributes nothing to the
/// tick's samples, forwards or events.
proof fn lemma_one_server_rests(
    o: Server,
    self_id: int,
    dt: u64,
    evs: Seq<Outcome>,
    mvd: Seq<Request>,
    samples: Seq<u64>,
)
    requires
        !completes(o, dt),
    ensures
        evs + events_of(o, self_id, dt) == evs,
        mvd + forwarded_of(o, self_id, dt) == mvd,
        samples + samples_of(o, dt) == samples,
{
    assert(evs + events_of(o, self_id, dt) =~= evs);
    assert(mvd + forwarded_of(o, self_id, dt) =~= mvd);
    assert(samples + samples_of(o, dt) =~= samples);
}

/// Completion touches only a server's queue, service slot, timer and
/// round-robin cursor.
proof fn lemma_processed_frame(o: Server, n: Server)
    requires
        n.mode == o.mode,
        n.processing_power == o.processing_power,
        n.queue_size == o.queue_size,
        n.outputs == o.outputs,
        n.x == o.x,
        n.y == o.y,
    ensures
        n == (Server {
            queued_requests: n.queued_requests,
            current_request: n.current_request,
            current_progress: n.current_progress,
            current_output_index: n.current_output_index,
            ..o
        }),
{
}

/// Invested points depend only on power and queue allowance, so ticking
/// the arena's queues and timers moves no points.
proof fn lemma_total_spent_congruence(pre: Seq<Server>, post: Seq<Server>)
    requires
        pre.len() == post.len(),
        forall|k: int| 0 <= k < post.len() ==> {
            &&& (#[trigger] post[k]).processing_power == pre[k].processing_power
            &&& post[k].queue_size == pre[k].queue_size
        },
    ensures
        total_spent(post) == total_spent(pre),
    decreases pre.len(),
{
    if pre.len() > 0 {
        lemma_total_spent_congruence(pre.drop_last(), post.drop_last());
    }
}

/// An arena of idle servers holds nothing.
proof fn lemma_total_load_zero(s: Seq<Server>)
    requires
        forall|k: int| 0 <= k < s.len() ==> (#[trigger] s[k]).load() == 0,
    ensures
        total_load(s) == 0,
    decreases s.len(),
{
    if s.len() > 0 {
        lemma_total_load_zero(s.drop_last());
    }
}

/// A request's age after a tick: it grows by the tick width, capped at the
/// longest supported run.
pub open spec fn aged(age: u64, dt: u64) -> u64 {
    if age + dt <= MAX_SIM_MS {
        (age + dt) as u64
    } else {
        MAX_SIM_MS
    }
}

/// Advance an age by one tick, capped at the longest supported run.
fn age_add(age: u64, dt: u64) -> (r: u64)
    requires
        age <= MAX_SIM_MS,
        dt <= MAX_TICK_MS,
    ensures
        r == aged(age, dt),
{
    let sum = age + dt;
    if sum > MAX_SIM_MS {
        MAX_SIM_MS
    } else {
        sum
    }
}

/// Age every request a server holds by one tick.
fn age_server(srv: &mut Server, n_servers: usize, dt: u64)
    requires
        old(srv).wf(n_servers as int),
        dt <= MAX_TICK_MS,
    ensures
        final(srv).wf(n_servers as int),
        final(srv).load() == old(srv).load(),
        final(srv).queued_requests@.len() == old(srv).queued_requests@.len(),
        forall|k: int| 0 <= k < old(srv).queued_requests@.len()
            ==> #[trigger] final(srv).queued_requests@[k] == (Request {
            age_ms: aged(old(srv).queued_requests@[k].age_ms, dt),
            ..old(srv).queued_requests@[k]
        }),
        old(srv).current_request is None ==> final(srv).current_request is None,
        old(srv).current_request is Some ==> final(srv).current_request == Some(
            Request {
                age_ms: aged(old(srv).current_request->0.age_ms, dt),
                ..old(srv).current_request->0
            },
        ),
        *final(srv) == (Server {
            queued_requests: final(srv).queued_requests,
            current_request: final(srv).current_request,
            ..*old(srv)
        }),
    {
    let cur = srv.current_request;
    match cur {
        Some(mut c) => {
            c.age_ms = age_add(c.age_ms, dt);
            srv.current_request = Some(c);
        }
        None => {}
    }
    let mut k: usize = 0;
    while k < srv.queued_requests.len()
        invariant
            old(srv).wf(n_servers as int),
            dt <= MAX_TICK_MS,
            k <= srv.queued_requests@.len(),
            srv.queued_requests@.len() == old(srv).queued_requests@.len(),
            forall|j: int| 0 <= j < k ==> #[trigger] srv.queued_requests@[j] == (Request {
                age_ms: aged(old(srv).queued_requests@[j].age_ms, dt),
                ..old(srv).queued_requests@[j]
            }),
            forall|j: int| k <= j < srv.queued_requests@.len()
                ==> #[trigger] srv.queued_requests@[j] == old(srv).queued_requests@[j],
            old(srv).current_request is None ==> srv.current_request is None,
            old(srv).current_request is Some ==> srv.current_request == Some(
                Request {
                    age_ms: aged(old(srv).current_request->0.age_ms, dt),
                    ..old(srv).current_request->0
                },
            ),
            *srv == (Server {
                queued_requests: srv.queued_requests,
                current_request: srv.current_request,
                ..*old(srv)
            }),
        decreases srv.queued_requests@.len() - k,
    {
        let mut q = srv.queued_requests[k];
        q.age_ms = age_add(q.age_ms, dt);
        srv.queued_requests.set(k, q);
        k = k + 1;
    }
}

/// Whether no server holds any request.
fn servers_all_idle(servers: &Vec<Server>) -> (r: bool)
    ensures
        r == (total_load(servers@) == 0),
{
    let mut i: usize = 0;
    while i < servers.len()
        invariant
            i <= servers@.len(),
            forall|k: int| 0 <= k < i ==> (#[trigger] servers@[k]).load() == 0,
        decreases servers@.len() - i,
    {
        if servers[i].current_request.is_some() || servers[i].queued_requests.len() > 0 {
            proof {
                lemma_total_load_element_bound(servers@, i as int);
            }
            return false;
        }
        i = i + 1;
    }
    proof {
        lemma_total_load_zero(servers@);
    }
    true
}

impl Simulation {
    /// Deliver every routed travelling request to its destination: a busy
    /// server drops it on arrival, an available one accepts it.  Unrouted
    /// requests stay put.
    fn deliver_requests(&mut self, events: &mut Vec<Outcome>)
        requires
            old(self).wf(),
        ensures
            final(self).wf(),
            final(self).stats.handled_requests + final(self).stats.dropped_requests
                + final(self).live_requests() == old(self).stats.handled_requests + old(self).stats.dropped_requests + old(self).live_requests(),
            final(self).stats.handled_requests == old(self).stats.handled_requests,
            final(self).stats.response_times@ == old(self).stats.response_times@,
            final(self).stats.avg_response_time == old(self).stats.avg_response_time,
            final(self).stats.dropped_requests >= old(self).stats.dropped_requests,
            final(self).servers@.len() == old(self).servers@.len(),
            forall|k: int| 0 <= k < old(self).servers@.len() ==> #[trigger] final(self).servers@[k] == (Server {
                queued_requests: final(self).servers@[k].queued_requests,
                current_request: final(self).servers@[k].current_request,
                ..old(self).servers@[k]
            }),
            forall|k: int| 0 <= k < final(self).requests@.len()
                ==> (#[trigger] final(self).requests@[k]).destination is None,
            count_spawned(final(events)@) == count_spawned(old(events)@),
            *final(self) == (Simulation {
                servers: final(self).servers,
                stats: final(self).stats,
                requests: final(self).requests,
                ..*old(self)
            }),
            deliver_post(*old(self), *final(self)),
            final(events)@ == old(events)@ + delivery_events(
                old(self).servers@,
                old(self).requests@,
            ),
    {
        let ghost mut p: int = 0;
        let mut i: usize = 0;
        while i < self.requests.len()
            invariant
                old(self).wf(),
                0 <= p <= old(self).requests@.len(),
                i as int == unrouted_of(old(self).requests@.subrange(0, p)).len(),
                self.requests@ == unrouted_of(old(self).requests@.subrange(0, p))
                    + old(self).requests@.subrange(p, old(self).requests@.len() as int),
                self.servers@.len() == old(self).servers@.len(),
                forall|k: int| 0 <= k < self.servers@.len()
                    ==> (#[trigger] self.servers@[k]).wf(self.servers@.len() as int),
                forall|k: int| 0 <= k < old(self).servers@.len() ==> #[trigger] self.servers@[k]
                    == (Server {
                    queued_requests: self.servers@[k].queued_requests,
                    current_request: self.servers@[k].current_request,
                    ..old(self).servers@[k]
                }),
                forall|k: int| 0 <= k < old(self).servers@.len() ==> {
                    let rec = delivered_at(
                        old(self).servers@[k],
                        old(self).requests@.subrange(0, p),
                        k,
                    );
                    &&& (#[trigger] self.servers@[k]).current_request == rec.0
                    &&& self.servers@[k].queued_requests@ == rec.1
                },
                self.stats.wf(),
                self.stats.handled_requests == old(self).stats.handled_requests,
                self.stats.response_times@ == old(self).stats.response_times@,
                self.stats.avg_response_time == old(self).stats.avg_response_time,
                self.stats.dropped_requests == old(self).stats.dropped_requests
                    + delivery_events(
                    old(self).servers@,
                    old(self).requests@.subrange(0, p),
                ).len(),
                self.stats.handled_requests + self.stats.dropped_requests + self.requests@.len()
                    + total_load(self.servers@) == old(self).stats.handled_requests + old(self).stats.dropped_requests + old(self).live_requests(),
                forall|k: int| 0 <= k < i
                    ==> (#[trigger] self.requests@[k]).destination is None,
                forall|k: int| 0 <= k < self.requests@.len()
                    ==> (#[trigger] self.requests@[k]).rq_wf(self.servers@.len() as int),
                count_spawned(events@) == count_spawned(old(events)@),
                events@ == old(events)@ + delivery_events(
                    old(self).servers@,
                    old(self).requests@.subrange(0, p),
                ),
                *self == (Simulation {
                    servers: self.servers,
                    stats: self.stats,
                    requests: self.requests,
                    ..*old(self)
                }),
            decreases self.requests@.len() - i,
        {
            proof {
                assert(self.requests@[i as int] == old(self).requests@[p]);
                assert(old(self).requests@.subrange(0, p + 1).drop_last()
                    =~= old(self).requests@.subrange(0, p));
                assert(old(self).requests@.subrange(0, p + 1).last()
                    == old(self).requests@[p]);
            }
            if self.requests[i].destination.is_some() {
                let r = self.requests.remove(i);
                let d = r.destination.unwrap();
                proof {
                    lemma_total_load_nonneg(self.servers@);
                }
                if self.servers[d].is_busy() {
                    self.stats.record_dropped();
                    let ghost evs = events@;
                    events.push(Outcome::Dropped(r.id));
                    proof {
                        lemma_count_spawned_push(evs, Outcome::Dropped(r.id));
                        assert(events@ =~= old(events)@ + delivery_events(
                            old(self).servers@,
                            old(self).requests@.subrange(0, p + 1),
                        ));
                    }
                } else {
                    let ghost prev = self.servers@;
                    let srv = &mut self.servers[d];
                    srv.add_request(r);
                    proof {
                        lemma_total_load_update(prev, d as int, self.servers@[d as int]);
                        assert(events@ =~= old(events)@ + delivery_events(
                            old(self).servers@,
                            old(self).requests@.subrange(0, p + 1),
                        ));
                    }
                }
                proof {
                    assert(self.requests@ =~= unrouted_of(
                        old(self).requests@.subrange(0, p + 1),
                    ) + old(self).requests@.subrange(
                        p + 1,
                        old(self).requests@.len() as int,
                    ));
                    p = p + 1;
                }
            } else {
                i = i + 1;
                proof {
                    assert(unrouted_of(old(self).requests@.subrange(0, p + 1))
                        =~= unrouted_of(old(self).requests@.subrange(0, p)).push(
                        old(self).requests@[p],
                    ));
                    assert(self.requests@ =~= unrouted_of(
                        old(self).requests@.subrange(0, p + 1),
                    ) + old(self).requests@.subrange(
                        p + 1,
                        old(self).requests@.len() as int,
                    ));
                    assert(events@ =~= old(events)@ + delivery_events(
                        old(self).servers@,
                        old(self).requests@.subrange(0, p + 1),
                    ));
                    p = p + 1;
                }
            }
        }
        proof {
            assert(p == old(self).requests@.len());
            assert(old(self).requests@.subrange(0, p) =~= old(self).requests@);
            assert(self.requests@ =~= unrouted_of(old(self).requests@));
            lemma_total_spent_congruence(old(self).servers@, self.servers@);
        }
    }

    /// Assign every unrouted travelling request to the nearest server (by
    /// squared screen distance, ties to the lowest id).  With no servers,
    /// requests stay unrouted until one exists.
    fn route_requests(&mut self)
        requires
            old(self).wf(),
        ensures
            final(self).wf(),
            final(self).requests@.len() == old(self).requests@.len(),
            forall|k: int| 0 <= k < old(self).requests@.len() ==> {
                let o = old(self).requests@[k];
                if o.destination is Some || old(self).servers@.len() == 0 {
                    #[trigger] final(self).requests@[k] == o
                } else {
                    &&& final(self).requests@[k] == (Request {
                        destination: final(self).requests@[k].destination,
                        ..o
                    })
                    &&& final(self).requests@[k].destination is Some
                    &&& crate::requests::is_nearest(
                        old(self).servers@,
                        o.x as int,
                        o.y as int,
                        final(self).requests@[k].destination->0 as int,
                    )
                }
            },
            *final(self) == (Simulation { requests: final(self).requests, ..*old(self) }),
            route_post(*old(self), *final(self)),
    {
        if self.servers.len() == 0 {
            return;
        }
        let mut i: usize = 0;
        while i < self.requests.len()
            invariant
                old(self).wf(),
                i <= self.requests@.len(),
                self.requests@.len() == old(self).requests@.len(),
                self.servers@.len() > 0,
                forall|k: int| 0 <= k < i ==> {
                    let o = old(self).requests@[k];
                    if o.destination is Some {
                        #[trigger] self.requests@[k] == o
                    } else {
                        &&& self.requests@[k] == (Request {
                            destination: self.requests@[k].destination,
                            ..o
                        })
                        &&& self.requests@[k].destination is Some
                        &&& crate::requests::is_nearest(
                            old(self).servers@,
                            o.x as int,
                            o.y as int,
                            self.requests@[k].destination->0 as int,
                        )
                    }
                },
                forall|k: int| i <= k < self.requests@.len()
                    ==> #[trigger] self.requests@[k] == old(self).requests@[k],
                *self == (Simulation { requests: self.requests, ..*old(self) }),
            decreases self.requests@.len() - i,
        {
            if self.requests[i].destination.is_none() {
                let rx = self.requests[i].x;
                let ry = self.requests[i].y;
                proof {
                    assert(old(self).requests@[i as int].rq_wf(self.servers@.len() as int));
                    assert forall|k: int| 0 <= k < self.servers@.len() implies {
                        &&& -crate::limits::MAX_COORD <= #[trigger] self.servers@[k].x
                            <= crate::limits::MAX_COORD
                        &&& -crate::limits::MAX_COORD <= self.servers@[k].y
                            <= crate::limits::MAX_COORD
                    } by {
                        assert(self.servers@[k].wf(self.servers@.len() as int));
                    }
                }
                let t = crate::requests::find_closest(rx, ry, &self.servers);
                let mut r = self.requests[i];
                r.destination = Some(t.unwrap());
                self.requests.set(i, r);
            }
            i = i + 1;
        }
    }

    /// Advance every server's processing by one tick and append the
    /// requests forwarded by proxies back into the travelling arena (they
    /// arrive at their new target on a later tick, never this one).
    fn process_requests(&mut self, dt: u64, events: &mut Vec<Outcome>)
        requires
            old(self).wf(),
            dt <= MAX_TICK_MS,
        ensures
            final(self).wf(),
            final(self).stats.handled_requests + final(self).stats.dropped_requests
                + final(self).live_requests() == old(self).stats.handled_requests + old(self).stats.dropped_requests + old(self).live_requests(),
            final(self).stats.handled_requests >= old(self).stats.handled_requests,
            final(self).stats.dropped_requests >= old(self).stats.dropped_requests,
            final(self).servers@.len() == old(self).servers@.len(),
            forall|k: int| 0 <= k < old(self).servers@.len() ==> server_config_unchanged(
                old(self).servers@[k],
                #[trigger] final(self).servers@[k],
            ),
            count_spawned(final(events)@) == count_spawned(old(events)@),
            final(self).requests@.len() >= old(self).requests@.len(),
            forall|k: int| 0 <= k < old(self).requests@.len()
                ==> #[trigger] final(self).requests@[k] == old(self).requests@[k],
            *final(self) == (Simulation {
                servers: final(self).servers,
                stats: final(self).stats,
                requests: final(self).requests,
                ..*old(self)
            }),
            process_post(*old(self), *final(self), dt),
            final(events)@ == old(events)@ + processed_events(old(self).servers@, dt),
    {
        let n = self.servers.len();
        let mut moved: Vec<Request> = Vec::new();
        let mut i: usize = 0;
        while i < n
            invariant
                old(self).wf(),
                dt <= MAX_TICK_MS,
                i <= n,
                n == self.servers@.len(),
                n == old(self).servers@.len(),
                self.stats.wf(),
                forall|k: int| 0 <= k < n
                    ==> (#[trigger] self.servers@[k]).wf(n as int),
                forall|k: int| 0 <= k < n ==> server_config_unchanged(
                    old(self).servers@[k],
                    #[trigger] self.servers@[k],
                ),
                forall|k: int| 0 <= k < i ==> server_processed(
                    old(self).servers@[k],
                    #[trigger] self.servers@[k],
                    dt,
                ),
                forall|k: int| i <= k < n
                    ==> #[trigger] self.servers@[k] == old(self).servers@[k],
                self.stats.handled_requests + self.stats.dropped_requests + total_load(
                    self.servers@,
                ) + moved@.len() == old(self).stats.handled_requests + old(self).stats.dropped_requests + total_load(old(self).servers@),
                self.stats.handled_requests >= old(self).stats.handled_requests,
                self.stats.dropped_requests >= old(self).stats.dropped_requests,
                forall|k: int| 0 <= k < moved@.len()
                    ==> (#[trigger] moved@[k]).rq_wf(n as int),
                count_spawned(events@) == count_spawned(old(events)@),
                self.stats.response_times@ == old(self).stats.response_times@
                    + processed_samples(old(self).servers@.subrange(0, i as int), dt),
                self.stats.handled_requests == old(self).stats.handled_requests
                    + processed_samples(old(self).servers@.subrange(0, i as int), dt).len(),
                self.stats.dropped_requests == old(self).stats.dropped_requests
                    + processed_dropped(old(self).servers@.subrange(0, i as int), dt),
                self.stats.avg_response_time == (if processed_samples(
                    old(self).servers@.subrange(0, i as int),
                    dt,
                ).len() == 0 {
                    old(self).stats.avg_response_time
                } else {
                    crate::game_stats::spec_avg(self.stats.response_times@)
                }),
                moved@ == forwarded_requests(old(self).servers@.subrange(0, i as int), dt),
                events@ == old(events)@ + processed_events(
                    old(self).servers@.subrange(0, i as int),
                    dt,
                ),
                *self == (Simulation {
                    servers: self.servers,
                    stats: self.stats,
                    ..*old(self)
                }),
            decreases n - i,
        {
            let ghost prev = self.servers@;
            proof {
                lemma_total_load_element_bound(self.servers@, i as int);
            }
            process_one_server(
                &mut self.servers[i],
                i,
                n,
                dt,
                &mut self.stats,
                &mut moved,
                events,
            );
            proof {
                lemma_total_load_update(prev, i as int, self.servers@[i as int]);
                let pre = old(self).servers@;
                assert(pre.subrange(0, i + 1).drop_last() =~= pre.subrange(0, i as int));
                assert(pre.subrange(0, i + 1).last() == pre[i as int]);
                assert(self.stats.response_times@ =~= old(self).stats.response_times@
                    + processed_samples(pre.subrange(0, i + 1), dt));
                assert(moved@ =~= forwarded_requests(pre.subrange(0, i + 1), dt));
                assert(events@ =~= old(events)@ + processed_events(pre.subrange(0, i + 1), dt));
            }
            i = i + 1;
        }
        proof {
            assert(old(self).servers@.subrange(0, n as int) =~= old(self).servers@);
        }
        let mut j: usize = 0;
        while j < moved.len()
            invariant
                j <= moved@.len(),
                self.requests@.len() == old(self).requests@.len() + j,
                forall|k: int| 0 <= k < old(self).requests@.len()
                    ==> #[trigger] self.requests@[k] == old(self).requests@[k],
                forall|k: int| old(self).requests@.len() <= k < self.requests@.len()
                    ==> #[trigger] self.requests@[k]
                        == moved@[k - old(self).requests@.len()],
                forall|k: int| 0 <= k < moved@.len()
                    ==> (#[trigger] moved@[k]).rq_wf(self.servers@.len() as int),
                self.servers@.len() == old(self).servers@.len(),
                *self == (Simulation {
                    servers: self.servers,
                    stats: self.stats,
                    requests: self.requests,
                    ..*old(self)
                }),
                self.stats.wf(),
                self.stats.handled_requests + self.stats.dropped_requests + total_load(
                    self.servers@,
                ) + moved@.len() == old(self).stats.handled_requests + old(self).stats.dropped_requests + total_load(old(self).servers@),
                self.stats.handled_requests >= old(self).stats.handled_requests,
                self.stats.dropped_requests >= old(self).stats.dropped_requests,
                forall|k: int| 0 <= k < self.servers@.len()
                    ==> (#[trigger] self.servers@[k]).wf(self.servers@.len() as int),
                forall|k: int| 0 <= k < self.servers@.len() ==> server_config_unchanged(
                    old(self).servers@[k],
                    #[trigger] self.servers@[k],
                ),
                forall|k: int| 0 <= k < self.servers@.len() ==> server_processed(
                    old(self).servers@[k],
                    #[trigger] self.servers@[k],
                    dt,
                ),
                count_spawned(events@) == count_spawned(old(events)@),
                self.stats.response_times@ == old(self).stats.response_times@
                    + processed_samples(old(self).servers@, dt),
                self.stats.handled_requests == old(self).stats.handled_requests
                    + processed_samples(old(self).servers@, dt).len(),
                self.stats.dropped_requests == old(self).stats.dropped_requests
                    + processed_dropped(old(self).servers@, dt),
                self.stats.avg_response_time == (if processed_samples(
                    old(self).servers@,
                    dt,
                ).len() == 0 {
                    old(self).stats.avg_response_time
                } else {
                    crate::game_stats::spec_avg(self.stats.response_times@)
                }),
                moved@ == forwarded_requests(old(self).servers@, dt),
                events@ == old(events)@ + processed_events(old(self).servers@, dt),
            decreases moved@.len() - j,
        {
            self.requests.push(moved[j]);
            j = j + 1;
        }
        proof {
            lemma_total_spent_congruence(old(self).servers@, self.servers@);
            assert(self.requests@ =~= old(self).requests@ + forwarded_requests(
                old(self).servers@,
                dt,
            ));
        }
    }

    /// Age every request — travelling or held — by one tick.
    fn age_requests(&mut self, dt: u64)
        requires
            old(self).wf(),
            dt <= MAX_TICK_MS,
        ensures
            final(self).wf(),
            final(self).live_requests() == old(self).live_requests(),
            final(self).requests@.len() == old(self).requests@.len(),
            forall|k: int| 0 <= k < old(self).requests@.len()
                ==> #[trigger] final(self).requests@[k] == (Request {
                age_ms: aged(old(self).requests@[k].age_ms, dt),
                ..old(self).requests@[k]
            }),
            final(self).servers@.len() == old(self).servers@.len(),
            forall|k: int| 0 <= k < old(self).servers@.len() ==> #[trigger] final(self).servers@[k] == (Server {
                queued_requests: final(self).servers@[k].queued_requests,
                current_request: final(self).servers@[k].current_request,
                ..old(self).servers@[k]
            }),
            forall|k: int| 0 <= k < old(self).servers@.len()
                ==> (#[trigger] final(self).servers@[k]).load() == old(self).servers@[k].load(),
            *final(self) == (Simulation {
                servers: final(self).servers,
                requests: final(self).requests,
                ..*old(self)
            }),
            age_post(*old(self), *final(self), dt),
    {
        let mut i: usize = 0;
        while i < self.requests.len()
            invariant
                old(self).wf(),
                dt <= MAX_TICK_MS,
                i <= self.requests@.len(),
                self.requests@.len() == old(self).requests@.len(),
                forall|k: int| 0 <= k < i ==> #[trigger] self.requests@[k] == (Request {
                    age_ms: aged(old(self).requests@[k].age_ms, dt),
                    ..old(self).requests@[k]
                }),
                forall|k: int| i <= k < self.requests@.len()
                    ==> #[trigger] self.requests@[k] == old(self).requests@[k],
                *self == (Simulation { requests: self.requests, ..*old(self) }),
            decreases self.requests@.len() - i,
        {
            proof {
                assert(old(self).requests@[i as int].rq_wf(old(self).servers@.len() as int));
            }
            let mut r = self.requests[i];
            r.age_ms = age_add(r.age_ms, dt);
            self.requests.set(i, r);
            i = i + 1;
        }
        let n = self.servers.len();
        let mut k: usize = 0;
        while k < n
            invariant
                old(self).wf(),
                dt <= MAX_TICK_MS,
                k <= n,
                n == self.servers@.len(),
                n == old(self).servers@.len(),
                forall|m: int| 0 <= m < n ==> (#[trigger] self.servers@[m]).wf(n as int),
                forall|m: int| 0 <= m < n ==> #[trigger] self.servers@[m] == (Server {
                    queued_requests: self.servers@[m].queued_requests,
                    current_request: self.servers@[m].current_request,
                    ..old(self).servers@[m]
                }),
                forall|m: int| 0 <= m < n
                    ==> (#[trigger] self.servers@[m]).load() == old(self).servers@[m].load(),
                forall|m: int| 0 <= m < k ==> {
                    let o = old(self).servers@[m];
                    let srv = #[trigger] self.servers@[m];
                    &&& srv.queued_requests@.len() == o.queued_requests@.len()
                    &&& forall|j: int| 0 <= j < o.queued_requests@.len()
                        ==> #[trigger] srv.queued_requests@[j] == (Request {
                        age_ms: aged(o.queued_requests@[j].age_ms, dt),
                        ..o.queued_requests@[j]
                    })
                    &&& (o.current_request is None ==> srv.current_request is None)
                    &&& (o.current_request is Some ==> srv.current_request == Some(
                        Request {
                            age_ms: aged(o.current_request->0.age_ms, dt),
                            ..o.current_request->0
                        },
                    ))
                },
                forall|m: int| k <= m < n
                    ==> #[trigger] self.servers@[m] == old(self).servers@[m],
                total_load(self.servers@) == total_load(old(self).servers@),
                *self == (Simulation {
                    servers: self.servers,
                    requests: self.requests,
                    ..*old(self)
                }),
                self.requests@.len() == old(self).requests@.len(),
                forall|j: int| 0 <= j < self.requests@.len()
                    ==> #[trigger] self.requests@[j] == (Request {
                    age_ms: aged(old(self).requests@[j].age_ms, dt),
                    ..old(self).requests@[j]
                }),
                forall|j: int| 0 <= j < self.requests@.len()
                    ==> (#[trigger] self.requests@[j]).rq_wf(n as int),
            decreases n - k,
        {
            let ghost prev = self.servers@;
            age_server(&mut self.servers[k], n, dt);
            proof {
                lemma_total_load_update(prev, k as int, self.servers@[k as int]);
            }
            k = k + 1;
        }
        proof {
            lemma_total_spent_congruence(old(self).servers@, self.servers@);
        }
    }

    /// Advance every schedule of the scenario by one tick, spawning the
    /// whole requests it owes, and run the drain check: once every
    /// schedule has completed and no request was alive at the end of a
    /// previous tick, the run moves to the results phase and the verdict
    /// is computed.
    fn advance_scenario(&mut self, dt: u64, events: &mut Vec<Outcome>)
        requires
            old(self).wf(),
            dt <= MAX_TICK_MS,
            old(self).stats.handled_requests + old(self).stats.dropped_requests + old(self).live_requests() + (MAX_SCHEDULES as int) * (MAX_SPAWN_PER_TICK as int)
                <= MAX_TOTAL_REQUESTS,
            old(self).next_request_id as int + (MAX_SCHEDULES as int) * (
            MAX_SPAWN_PER_TICK as int) <= u64::MAX as int,
        ensures
            final(self).wf(),
            old(self).scenario is None ==> (*final(self) == *old(self) && final(events)@ == old(
                events,
            )@),
            old(self).scenario is Some ==> {
                &&& final(self).scenario is Some
                &&& final(self).scenario->0.schedules@.len() == old(self).scenario->0.schedules@.len()
                &&& forall|j: int| 0 <= j < old(self).scenario->0.schedules@.len()
                    ==> crate::load_scenarios::schedule_stepped(
                    old(self).scenario->0.schedules@[j],
                    #[trigger] final(self).scenario->0.schedules@[j],
                    old(self).elapsed_ms as int,
                    dt as int,
                )
                &&& final(self).stats == old(self).stats
                &&& final(self).servers@ == old(self).servers@
                &&& final(self).requests@.len() >= old(self).requests@.len()
                &&& forall|k: int| 0 <= k < old(self).requests@.len()
                    ==> #[trigger] final(self).requests@[k] == old(self).requests@[k]
                &&& forall|k: int| old(self).requests@.len() <= k < final(self).requests@.len()
                    ==> {
                    &&& (#[trigger] final(self).requests@[k]).destination is None
                    &&& final(self).requests@[k].age_ms == 0
                    &&& final(self).requests@[k].id == old(self).next_request_id + (k - old(self).requests@.len())
                }
                &&& final(self).next_request_id == old(self).next_request_id + (final(self).requests@.len() - old(self).requests@.len())
                &&& count_spawned(final(events)@) == count_spawned(old(events)@) + (final(self).requests@.len() - old(self).requests@.len())
                &&& final(self).requests@.len() - old(self).requests@.len()
                    == scheduled_spawns(
                    old(self).scenario->0.schedules@,
                    old(self).elapsed_ms as int,
                    dt as int,
                )
                &&& final(events)@ == old(events)@ + spawned_events(
                    old(self).next_request_id,
                    final(self).requests@.len() - old(self).requests@.len(),
                )
                &&& ({
                    let done = forall|j: int| 0 <= j < old(self).scenario->0.schedules@.len()
                        ==> (#[trigger] old(self).scenario->0.schedules@[j]).completed;
                    &&& final(self).game_state == if done && old(self).requests_gone {
                        GameState::Results
                    } else {
                        old(self).game_state
                    }
                    &&& final(self).requests_gone == (if done {
                        old(self).requests_gone || final(self).live_requests() == 0
                    } else {
                        false
                    })
                    &&& if done && old(self).requests_gone {
                        &&& final(self).results.pass_percentage == old(self).results.pass_percentage
                        &&& final(self).results.pass_avg_response_time == old(self).results.pass_avg_response_time
                        &&& final(self).results.passed == crate::results::level_passed(
                            old(self).stats.handled_requests as int,
                            old(self).stats.dropped_requests as int,
                            old(self).stats.response_times@,
                            old(self).results.pass_percentage as int,
                            old(self).results.pass_avg_response_time as int,
                        )
                    } else {
                        final(self).results == old(self).results
                    }
                })
                &&& *final(self) == (Simulation {
                    scenario: final(self).scenario,
                    requests: final(self).requests,
                    next_request_id: final(self).next_request_id,
                    game_state: final(self).game_state,
                    requests_gone: final(self).requests_gone,
                    results: final(self).results,
                    ..*old(self)
                })
            },
            scenario_post(*old(self), *final(self), dt),
    {
        let now = self.elapsed_ms;
        let mut sc = match self.scenario.take() {
            Some(s) => s,
            None => {
                return;
            }
        };
        let n_sched = sc.schedules.len();
        let mut all_done = true;
        let mut j: usize = 0;
        while j < n_sched
            invariant
                old(self).wf(),
                dt <= MAX_TICK_MS,
                now == old(self).elapsed_ms,
                j <= n_sched,
                old(self).scenario is Some,
                n_sched == old(self).scenario->0.schedules@.len(),
                n_sched == sc.schedules@.len(),
                n_sched <= MAX_SCHEDULES,
                old(self).next_request_id as int + (MAX_SCHEDULES as int) * (
                MAX_SPAWN_PER_TICK as int) <= u64::MAX as int,
                forall|k: int| 0 <= k < j ==> crate::load_scenarios::schedule_stepped(
                    old(self).scenario->0.schedules@[k],
                    #[trigger] sc.schedules@[k],
                    now as int,
                    dt as int,
                ),
                forall|k: int| j <= k < n_sched ==> #[trigger] sc.schedules@[k] == old(self).scenario->0.schedules@[k],
                forall|k: int| 0 <= k < n_sched ==> (#[trigger] sc.schedules@[k]).wf(),
                all_done == (forall|k: int| 0 <= k < j ==> (#[trigger] old(self).scenario->0.schedules@[k]).completed),
                self.requests@.len() >= old(self).requests@.len(),
                self.requests@.len() - old(self).requests@.len() <= j * (
                MAX_SPAWN_PER_TICK as int),
                self.requests@.len() - old(self).requests@.len() == scheduled_spawns(
                    old(self).scenario->0.schedules@.subrange(0, j as int),
                    now as int,
                    dt as int,
                ),
                events@ == old(events)@ + spawned_events(
                    old(self).next_request_id,
                    self.requests@.len() - old(self).requests@.len(),
                ),
                forall|k: int| 0 <= k < old(self).requests@.len()
                    ==> #[trigger] self.requests@[k] == old(self).requests@[k],
                forall|k: int| old(self).requests@.len() <= k < self.requests@.len() ==> {
                    &&& (#[trigger] self.requests@[k]).destination is None
                    &&& self.requests@[k].age_ms == 0
                    &&& self.requests@[k].id == old(self).next_request_id + (k - old(self).requests@.len())
                    &&& self.requests@[k].rq_wf(self.servers@.len() as int)
                },
                self.next_request_id == old(self).next_request_id + (self.requests@.len() - old(self).requests@.len()),
                count_spawned(events@) == count_spawned(old(events)@) + (self.requests@.len()
                    - old(self).requests@.len()),
                *self == (Simulation {
                    requests: self.requests,
                    next_request_id: self.next_request_id,
                    scenario: None,
                    ..*old(self)
                }),
            decreases n_sched - j,
        {
            let mut s = sc.schedules[j];
            if !s.completed {
                all_done = false;
            }
            if s.active && !s.completed {
                let to_spawn = s.tick_spawn(now, dt);
                sc.schedules.set(j, s);
                let ghost spawned_before = self.requests@.len() - old(self).requests@.len();
                let mut t: u64 = 0;
                while t < to_spawn
                    invariant
                        old(self).wf(),
                        t <= to_spawn,
                        to_spawn <= MAX_SPAWN_PER_TICK,
                        spawned_before + to_spawn <= (j + 1) * (MAX_SPAWN_PER_TICK as int),
                        j + 1 <= MAX_SCHEDULES,
                        old(self).next_request_id as int + (MAX_SCHEDULES as int) * (
                        MAX_SPAWN_PER_TICK as int) <= u64::MAX as int,
                        self.requests@.len() >= old(self).requests@.len(),
                        self.requests@.len() - old(self).requests@.len() == spawned_before
                            + t,
                        forall|k: int| 0 <= k < old(self).requests@.len()
                            ==> #[trigger] self.requests@[k] == old(self).requests@[k],
                        forall|k: int| old(self).requests@.len() <= k < self.requests@.len()
                            ==> {
                            &&& (#[trigger] self.requests@[k]).destination is None
                            &&& self.requests@[k].age_ms == 0
                            &&& self.requests@[k].id == old(self).next_request_id + (k - old(self).requests@.len())
                            &&& self.requests@[k].rq_wf(self.servers@.len() as int)
                        },
                        self.next_request_id == old(self).next_request_id + (
                        self.requests@.len() - old(self).requests@.len()),
                        count_spawned(events@) == count_spawned(old(events)@) + (
                        self.requests@.len() - old(self).requests@.len()),
                        events@ == old(events)@ + spawned_events(
                            old(self).next_request_id,
                            spawned_before + t,
                        ),
                        *self == (Simulation {
                            requests: self.requests,
                            next_request_id: self.next_request_id,
                            scenario: None,
                            ..*old(self)
                        }),
                    decreases to_spawn - t,
                {
                    let mut rq = Request::default();
                    rq.id = self.next_request_id;
                    rq.x = crate::requests::sample_in_range(-250, 250);
                    rq.y = 300;
                    self.next_request_id = self.next_request_id + 1;
                    self.requests.push(rq);
                    let ghost evs = events@;
                    events.push(Outcome::Spawned(rq.id));
                    proof {
                        lemma_count_spawned_push(evs, Outcome::Spawned(rq.id));
                        assert(events@ =~= old(events)@ + spawned_events(
                            old(self).next_request_id,
                            spawned_before + t + 1,
                        ));
                    }
                    t = t + 1;
                }
            }
            proof {
                let scheds = old(self).scenario->0.schedules@;
                assert(scheds.subrange(0, j + 1).drop_last() =~= scheds.subrange(0, j as int));
                assert(scheds.subrange(0, j + 1).last() == scheds[j as int]);
            }
            j = j + 1;
        }
        proof {
            assert(old(self).scenario->0.schedules@.subrange(0, n_sched as int)
                =~= old(self).scenario->0.schedules@);
        }
        self.scenario = Some(sc);
        if all_done {
            if self.requests_gone {
                self.game_state = GameState::Results;
                crate::results::calculate_pass_or_not(&self.stats, &mut self.results);
            } else {
                let idle = self.requests.len() == 0 && servers_all_idle(&self.servers);
                if idle {
                    self.requests_gone = true;
                }
                proof {
                    lemma_total_load_nonneg(self.servers@);
                }
            }
        } else {
            self.requests_gone = false;
        }
    }

    /// Advance the whole simulation by one tick of `dt_ms` milliseconds
    /// and return the tick's outcome events.  Outside the running phase
    /// only the clock moves.  Within it, the phases run in order: routed
    /// requests arrive (a busy target drops them), unrouted requests are
    /// routed to the nearest server, every server's processing advances
    /// (completions are handled, dropped or forwarded), every request
    /// ages, and finally the schedules spawn the tick's requests and the
    /// drain check may end the run.  Requests spawned, routed or forwarded
    /// in one tick take their next step only on a later tick.
    pub fn tick(&mut self, dt_ms: u64) -> (events: Vec<Outcome>)
        requires
            old(self).wf(),
            dt_ms <= MAX_TICK_MS,
            old(self).elapsed_ms + dt_ms <= MAX_SIM_MS,
            old(self).stats.handled_requests + old(self).stats.dropped_requests + old(self).live_requests() + (MAX_SCHEDULES as int) * (MAX_SPAWN_PER_TICK as int)
                <= MAX_TOTAL_REQUESTS,
            old(self).next_request_id as int + (MAX_SCHEDULES as int) * (
            MAX_SPAWN_PER_TICK as int) <= u64::MAX as int,
        ensures
            final(self).wf(),
            final(self).elapsed_ms == old(self).elapsed_ms + dt_ms,
            !(old(self).game_state is Running) ==> {
                &&& *final(self) == (Simulation {
                    elapsed_ms: final(self).elapsed_ms,
                    ..*old(self)
                })
                &&& events@.len() == 0
            },
            old(self).game_state is Running ==> {
                &&& final(self).stats.handled_requests + final(self).stats.dropped_requests
                    + final(self).live_requests() == old(self).stats.handled_requests + old(self).stats.dropped_requests + old(self).live_requests() + count_spawned(events@)
                &&& final(self).stats.handled_requests >= old(self).stats.handled_requests
                &&& final(self).stats.dropped_requests >= old(self).stats.dropped_requests
                &&& final(self).servers@.len() == old(self).servers@.len()
                &&& forall|k: int| 0 <= k < old(self).servers@.len()
                    ==> server_config_unchanged(
                    old(self).servers@[k],
                    #[trigger] final(self).servers@[k],
                )
                &&& final(self).levels == old(self).levels
                &&& final(self).points == old(self).points
                &&& final(self).edit_mode == old(self).edit_mode
                &&& (old(self).scenario is None ==> {
                    &&& final(self).scenario is None
                    &&& final(self).game_state is Running
                    &&& final(self).requests_gone == old(self).requests_gone
                    &&& final(self).results == old(self).results
                })
                &&& old(self).scenario is Some ==> {
                    &&& final(self).scenario is Some
                    &&& final(self).scenario->0.schedules@.len() == old(self).scenario->0.schedules@.len()
                    &&& forall|j: int| 0 <= j < old(self).scenario->0.schedules@.len()
                        ==> crate::load_scenarios::schedule_stepped(
                        old(self).scenario->0.schedules@[j],
                        #[trigger] final(self).scenario->0.schedules@[j],
                        old(self).elapsed_ms + dt_ms,
                        dt_ms as int,
                    )
                    &&& ({
                        let done = forall|j: int|
                            0 <= j < old(self).scenario->0.schedules@.len() ==> (#[trigger] old(self).scenario->0.schedules@[j]).completed;
                        &&& final(self).game_state == if done && old(self).requests_gone {
                            GameState::Results
                        } else {
                            GameState::Running
                        }
                        &&& final(self).requests_gone == (if done {
                            old(self).requests_gone || final(self).live_requests() == 0
                        } else {
                            false
                        })
                        &&& if done && old(self).requests_gone {
                            &&& final(self).results.pass_percentage == old(self).results.pass_percentage
                            &&& final(self).results.pass_avg_response_time == old(self).results.pass_avg_response_time
                            &&& final(self).results.passed == crate::results::level_passed(
                                final(self).stats.handled_requests as int,
                                final(self).stats.dropped_requests as int,
                                final(self).stats.response_times@,
                                old(self).results.pass_percentage as int,
                                old(self).results.pass_avg_response_time as int,
                            )
                        } else {
                            final(self).results == old(self).results
                        }
                    })
                }
                &&& final(self).next_request_id == old(self).next_request_id + count_spawned(
                    events@,
                )
                &&& final(self).selected_server_for_outputs == old(
                    self,
                ).selected_server_for_outputs
                &&& exists|m1: Simulation, m2: Simulation, m3: Simulation, m4: Simulation| {
                    &&& deliver_post(
                        Simulation {
                            elapsed_ms: (old(self).elapsed_ms + dt_ms) as u64,
                            ..*old(self)
                        },
                        m1,
                    )
                    &&& #[trigger] route_post(m1, m2)
                    &&& #[trigger] process_post(m2, m3, dt_ms)
                    &&& #[trigger] age_post(m3, m4, dt_ms)
                    &&& scenario_post(m4, *final(self), dt_ms)
                    &&& events@ == delivery_events(old(self).servers@, old(self).requests@)
                        + processed_events(m2.servers@, dt_ms) + spawned_events(
                        m4.next_request_id,
                        final(self).requests@.len() - m4.requests@.len(),
                    )
                }
            },
    {
        self.elapsed_ms = self.elapsed_ms + dt_ms;
        let mut events: Vec<Outcome> = Vec::new();
        match self.game_state {
            GameState::Running => {}
            _ => {
                return events;
            }
        }
        let ghost s0 = *self;
        self.deliver_requests(&mut events);
        let ghost m1 = *self;
        self.route_requests();
        let ghost m2 = *self;
        self.process_requests(dt_ms, &mut events);
        let ghost m3 = *self;
        self.age_requests(dt_ms);
        let ghost m4 = *self;
        self.advance_scenario(dt_ms, &mut events);
        proof {
            assert(s0 == (Simulation {
                elapsed_ms: (old(self).elapsed_ms + dt_ms) as u64,
                ..*old(self)
            }));
            assert(deliver_post(s0, m1));
            assert(route_post(m1, m2));
            assert(process_post(m2, m3, dt_ms));
            assert(age_post(m3, m4, dt_ms));
            assert(scenario_post(m4, *self, dt_ms));
            assert(events@ =~= delivery_events(s0.servers@, s0.requests@) + processed_events(
                m2.servers@,
                dt_ms,
            ) + spawned_events(
                m4.next_request_id,
                self.requests@.len() - m4.requests@.len(),
            ));
        }
        events
    }

    /// Read-only view of the run's statistics.
    pub fn snapshot_stats(&self) -> (r: &GameStats)
        ensures
            *r == self.stats,
    {
        &self.stats
    }

    /// Grade the run now against the loaded thresholds and return the
    /// verdict state.
    pub fn evaluate(&mut self) -> (r: &LevelResults)
        requires
            old(self).wf(),
        ensures
            final(self).wf(),
            *r == final(self).results,
            final(self).results.pass_percentage == old(self).results.pass_percentage,
            final(self).results.pass_avg_response_time == old(self).results.pass_avg_response_time,
            final(self).results.passed == crate::results::level_passed(
                old(self).stats.handled_requests as int,
                old(self).stats.dropped_requests as int,
                old(self).stats.response_times@,
                old(self).results.pass_percentage as int,
                old(self).results.pass_avg_response_time as int,
            ),
            *final(self) == (Simulation { results: final(self).results, ..*old(self) }),
    {
        crate::results::calculate_pass_or_not(&self.stats, &mut self.results);
        &self.results
    }
}

/// Emptying every server's queue and service slot leaves no invested
/// points behind and no held requests at all.
proof fn lemma_reload_preserves_totals(pre: Seq<Server>, post: Seq<Server>)
    requires
        pre.len() == post.len(),
        forall|k: int| 0 <= k < post.len() ==> {
            &&& (#[trigger] post[k]).current_request is None
            &&& post[k].queued_requests@.len() == 0
            &&& post[k].processing_power == pre[k].processing_power
            &&& post[k].queue_size == pre[k].queue_size
        },
    ensures
        total_spent(post) == total_spent(pre),
        total_load(post) == 0,
    decreases pre.len(),
{
    if pre.len() > 0 {
        lemma_reload_preserves_totals(pre.drop_last(), post.drop_last());
    }
}

} // verus!
