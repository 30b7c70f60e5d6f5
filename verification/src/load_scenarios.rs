//! Ramp-up / ramp-down request schedules and the spawn-rate integrator.
//!
//! A schedule describes a triangular request-rate curve: the rate climbs
//! linearly from zero to `max_rps` over `rampup` milliseconds, then falls
//! linearly back to zero over `rampdown` milliseconds.  Every tick the
//! scheduler adds the tick's exact share of requests to a fractional
//! accumulator and spawns the whole part, so that over a full run the total
//! spawn count converges to the time-integral of the rate curve and no
//! fraction of a request is ever rounded away.
//!
//! The accumulator is an exact rational: a numerator over the fixed
//! denominator `spawn_denominator` (1000 for the millisecond-to-second
//! conversion, times the two ramp lengths).

use vstd::prelude::*;

use vstd::arithmetic::div_mod::{
    lemma_fundamental_div_mod, lemma_fundamental_div_mod_converse, lemma_mod_bound,
    lemma_multiply_divide_lt,
};

use crate::limits::{MAX_RAMP_MS, MAX_RPS, MAX_SIM_MS, MAX_TICK_MS};

verus! {

/// Most requests a single schedule can ask for in one tick (one full
/// second of `MAX_RPS`, plus the carried fraction).
pub const MAX_SPAWN_PER_TICK: u64 = 1000;

/// Command that starts all pending schedules of the active scenario.
pub struct StartLoadScenarios;

/// One triangular load profile bound to a start time on the simulation
/// clock.  All times are in milliseconds.
#[derive(Clone, Copy)]
pub struct LoadSchedule {
    pub active: bool,
    pub completed: bool,
    /// Simulation time at which the schedule was started.
    pub start_time: u64,
    /// Length of the linear climb from zero to `max_rps`.
    pub rampup: u64,
    /// Peak rate, in requests per second.
    pub max_rps: u64,
    /// Length of the linear fall from `max_rps` back to zero.
    pub rampdown: u64,
    /// Advisory size range for spawned requests; request sizes are
    /// currently sampled independently at creation.
    pub request_sizes: (usize, usize),
    /// Numerator of the carried request fraction, over
    /// `spawn_denominator`.
    pub accumulated_requests: u64,
}

/// Denominator of the schedule's fractional request accumulator.
pub open spec fn spawn_denominator(s: LoadSchedule) -> int {
    1000 * (if s.rampup == 0 {
        1int
    } else {
        s.rampup as int
    }) * (if s.rampdown == 0 {
        1int
    } else {
        s.rampdown as int
    })
}

/// Numerator of the exact number of requests owed for a tick of width
/// `dt` at schedule time `elapsed`, over `spawn_denominator`: the
/// instantaneous rate is piecewise linear in `elapsed`, and the tick
/// contributes `rate * dt / 1000` requests.
pub open spec fn spawn_contribution(s: LoadSchedule, elapsed: int, dt: int) -> int {
    if elapsed < s.rampup {
        elapsed * s.max_rps * dt * (if s.rampdown == 0 {
            1int
        } else {
            s.rampdown as int
        })
    } else if elapsed < s.rampup + s.rampdown {
        (s.rampup + s.rampdown - elapsed) * s.max_rps * dt * (if s.rampup == 0 {
            1int
        } else {
            s.rampup as int
        })
    } else {
        0
    }
}

impl LoadSchedule {
    /// Ramps, rate and carried fraction stay inside the supported caps.
    pub open spec fn wf(self) -> bool {
        &&& self.rampup <= MAX_RAMP_MS
        &&& self.rampdown <= MAX_RAMP_MS
        &&& self.max_rps <= MAX_RPS
        &&& self.start_time <= MAX_SIM_MS
        &&& self.accumulated_requests < spawn_denominator(self)
    }

    /// A fresh, inactive schedule.
    pub fn new(rampup: u64, max_rps: u64, rampdown: u64, sizes: (usize, usize)) -> (r:
        LoadSchedule)
        requires
            rampup <= MAX_RAMP_MS,
            rampdown <= MAX_RAMP_MS,
            max_rps <= MAX_RPS,
        ensures
            r.wf(),
            !r.active,
            !r.completed,
            r.start_time == 0,
            r.rampup == rampup,
            r.max_rps == max_rps,
            r.rampdown == rampdown,
            r.request_sizes == sizes,
            r.accumulated_requests == 0,
    {
        let r = LoadSchedule {
            active: false,
            completed: false,
            start_time: 0,
            rampup,
            max_rps,
            rampdown,
            request_sizes: sizes,
            accumulated_requests: 0,
        };
        proof {
            assert(spawn_denominator(r) >= 1000) by (nonlinear_arith)
                requires
                    spawn_denominator(r) == 1000 * (if r.rampup == 0 {
                        1int
                    } else {
                        r.rampup as int
                    }) * (if r.rampdown == 0 {
                        1int
                    } else {
                        r.rampdown as int
                    }),
            ;
        }
        r
    }

    /// Activate the schedule at the given simulation time.
    pub fn start(&mut self, current_elapsed_time: u64)
        requires
            current_elapsed_time <= MAX_SIM_MS,
        ensures
            *final(self) == (LoadSchedule {
                active: true,
                start_time: current_elapsed_time,
                ..*old(self)
            }),
    {
        self.active = true;
        self.start_time = current_elapsed_time;
    }

    /// Advance the schedule by one tick ending at simulation time `now`
    /// and return how many whole requests to spawn.  Past the end of both
    /// ramps the schedule marks itself completed and spawns nothing;
    /// otherwise the tick's exact rational contribution enters the
    /// accumulator and its whole part leaves it.
    pub fn tick_spawn(&mut self, now: u64, dt: u64) -> (to_spawn: u64)
        requires
            old(self).wf(),
            old(self).active,
            !old(self).completed,
            old(self).start_time <= now <= MAX_SIM_MS,
            dt <= MAX_TICK_MS,
        ensures
            final(self).wf(),
            now - old(self).start_time > old(self).rampup + old(self).rampdown ==> {
                &&& *final(self) == (LoadSchedule { completed: true, ..*old(self) })
                &&& to_spawn == 0
            },
            now - old(self).start_time <= old(self).rampup + old(self).rampdown ==> {
                let c = spawn_contribution(
                    *old(self),
                    now - old(self).start_time,
                    dt as int,
                );
                let den = spawn_denominator(*old(self));
                &&& to_spawn == (old(self).accumulated_requests + c) / den
                &&& final(self).accumulated_requests == (old(self).accumulated_requests + c) % den
                &&& *final(self) == (LoadSchedule {
                    accumulated_requests: final(self).accumulated_requests,
                    ..*old(self)
                })
            },
            to_spawn <= MAX_SPAWN_PER_TICK,
    {
        let elapsed = now - self.start_time;
        let total_duration = self.rampup + self.rampdown;
        if elapsed > total_duration {
            self.completed = true;
            return 0;
        }
        let rampup_factor: u64 = if self.rampup == 0 {
            1
        } else {
            self.rampup
        };
        let rampdown_factor: u64 = if self.rampdown == 0 {
            1
        } else {
            self.rampdown
        };
        proof {
            assert(1000 * rampup_factor * rampdown_factor <= 360_000_000_000_000
                && 1000 * rampup_factor >= 1000
                && 1000 * rampup_factor * rampdown_factor >= 1000 * rampup_factor)
                by (nonlinear_arith)
                requires
                    1 <= rampup_factor <= MAX_RAMP_MS,
                    1 <= rampdown_factor <= MAX_RAMP_MS,
            ;
        }
        let den: u64 = 1000 * rampup_factor * rampdown_factor;
        let share: u64 = if elapsed < self.rampup {
            proof {
                assert(elapsed * self.max_rps <= 600_000_000
                    && elapsed * self.max_rps * dt <= 600_000_000_000
                    && elapsed * self.max_rps * dt * rampdown_factor
                        <= 360_000_000_000_000_000
                    && elapsed * self.max_rps * dt * rampdown_factor
                        <= 1000 * (1000 * rampup_factor * rampdown_factor))
                    by (nonlinear_arith)
                    requires
                        elapsed < self.rampup,
                        self.rampup == rampup_factor,
                        rampup_factor <= MAX_RAMP_MS,
                        1 <= rampdown_factor <= MAX_RAMP_MS,
                        self.max_rps <= MAX_RPS,
                        dt <= MAX_TICK_MS,
                ;
            }
            elapsed * self.max_rps * dt * rampdown_factor
        } else if elapsed < total_duration {
            let remaining = total_duration - elapsed;
            proof {
                assert(self.max_rps * remaining <= 600_000_000
                    && self.max_rps * remaining * dt <= 600_000_000_000
                    && self.max_rps * remaining * dt * rampup_factor
                        <= 360_000_000_000_000_000
                    && self.max_rps * remaining * dt * rampup_factor
                        <= 1000 * (1000 * rampup_factor * rampdown_factor))
                    by (nonlinear_arith)
                    requires
                        remaining <= self.rampdown,
                        self.rampdown == rampdown_factor,
                        rampdown_factor <= MAX_RAMP_MS,
                        1 <= rampup_factor <= MAX_RAMP_MS,
                        self.max_rps <= MAX_RPS,
                        dt <= MAX_TICK_MS,
                ;
            }
            self.max_rps * remaining * dt * rampup_factor
        } else {
            0
        };
        let total_acc = self.accumulated_requests + share;
        let to_spawn = total_acc / den;
        proof {
            lemma_mod_bound(total_acc as int, den as int);
            assert(total_acc < (den as int) * 1001) by (nonlinear_arith)
                requires
                    total_acc == self.accumulated_requests + share,
                    self.accumulated_requests < den,
                    share <= 1000 * (den as int),
            ;
            lemma_multiply_divide_lt(total_acc as int, den as int, 1001);
        }
        self.accumulated_requests = total_acc % den;
        to_spawn
    }
}

/// How one tick (ending at simulation time `now`, of width `dt`) evolves a
/// schedule: inactive or completed schedules rest; one past both ramps
/// completes; otherwise the tick's contribution enters the accumulator and
/// its whole part leaves it as spawned requests.
pub open spec fn schedule_stepped(o: LoadSchedule, n: LoadSchedule, now: int, dt: int) -> bool {
    if !o.active || o.completed {
        n == o
    } else if now - o.start_time > o.rampup + o.rampdown {
        n == (LoadSchedule { completed: true, ..o })
    } else {
        n == (LoadSchedule {
            accumulated_requests: ((o.accumulated_requests + spawn_contribution(
                o,
                now - o.start_time,
                dt,
            )) % spawn_denominator(o)) as u64,
            ..o
        })
    }
}

/// A set of schedules bound to one simulation run.
pub struct LoadScenario {
    pub schedules: Vec<LoadSchedule>,
}

impl LoadScenario {
    /// Whether every schedule has run to completion.
    pub fn all_completed(&self) -> (r: bool)
        ensures
            r == (forall|i: int| 0 <= i < self.schedules@.len()
                ==> (#[trigger] self.schedules@[i]).completed),
    {
        let mut i: usize = 0;
        while i < self.schedules.len()
            invariant
                i <= self.schedules@.len(),
                forall|k: int| 0 <= k < i ==> (#[trigger] self.schedules@[k]).completed,
            decreases self.schedules@.len() - i,
        {
            if !self.schedules[i].completed {
                return false;
            }
            i = i + 1;
        }
        true
    }
}

/// Sum of a sequence of per-tick contribution numerators.
pub open spec fn sum_contribs(cs: Seq<int>) -> int
    decreases cs.len(),
{
    if cs.len() == 0 {
        0
    } else {
        sum_contribs(cs.drop_last()) + cs.last()
    }
}

/// Accumulator numerator after a run of ticks with contributions `cs`,
/// starting from `acc0`.
pub open spec fn run_acc(acc0: int, cs: Seq<int>, den: int) -> int
    decreases cs.len(),
{
    if cs.len() == 0 {
        acc0
    } else {
        (run_acc(acc0, cs.drop_last(), den) + cs.last()) % den
    }
}

/// Total number of requests spawned by a run of ticks with contributions
/// `cs`, starting from accumulator `acc0`.
pub open spec fn run_spawned(acc0: int, cs: Seq<int>, den: int) -> int
    decreases cs.len(),
{
    if cs.len() == 0 {
        0
    } else {
        run_spawned(acc0, cs.drop_last(), den) + (run_acc(acc0, cs.drop_last(), den)
            + cs.last()) / den
    }
}

/// The fractional accumulator loses nothing: over any run of ticks, the
/// requests spawned plus the fraction still carried account exactly for
/// the summed rate contributions, so the total spawn count is exactly the
/// floor of the time-integral of the rate curve (in particular it is
/// within one request of the exact integral).  Each `tick_spawn` call
/// performs exactly one step of this run.
pub proof fn lemma_spawn_total_converges(acc0: int, cs: Seq<int>, den: int)
    requires
        den > 0,
        0 <= acc0 < den,
        forall|i: int| 0 <= i < cs.len() ==> cs[i] >= 0,
    ensures
        den * run_spawned(acc0, cs, den) + run_acc(acc0, cs, den) == acc0 + sum_contribs(cs),
        0 <= run_acc(acc0, cs, den) < den,
        run_spawned(acc0, cs, den) == (acc0 + sum_contribs(cs)) / den,
    decreases cs.len(),
{
    if cs.len() == 0 {
        lemma_fundamental_div_mod_converse(acc0, den, 0, acc0);
    } else {
        lemma_spawn_total_converges(acc0, cs.drop_last(), den);
        let a = run_acc(acc0, cs.drop_last(), den);
        let sp = run_spawned(acc0, cs.drop_last(), den);
        let c = cs.last();
        lemma_fundamental_div_mod(a + c, den);
        lemma_mod_bound(a + c, den);
        assert(den * (sp + (a + c) / den) == den * sp + den * ((a + c) / den))
            by (nonlinear_arith);
        assert(cs.drop_last().len() == cs.len() - 1);
        lemma_fundamental_div_mod_converse(
            acc0 + sum_contribs(cs),
            den,
            run_spawned(acc0, cs, den),
            run_acc(acc0, cs, den),
        );
    }
}

} // verus!
