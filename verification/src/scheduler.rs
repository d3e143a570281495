//! The compute scheduler: at most one background computation in flight,
//! one tick of the physics clock per result.
//!
//! A request to advance to a target is taken up only while no computation
//! is outstanding; it applies the catch-up policy and, if the clock is
//! behind, submits one computation. When the result arrives the clock
//! advances by one tick, and a further computation is submitted at once if
//! the clock is still behind the target. A request that arrives while a
//! computation is outstanding changes nothing.
use crate::clock::{
    caught_up, dropped, is_behind, is_far_behind, lemma_whole_ticks, reached_after, ticks_due,
    PhysicsClock, Timing,
};
use std::time::Duration;
use vstd::prelude::*;

verus! {

/// What one applied result amounted to.
#[derive(Clone, Copy, Debug)]
pub struct PhysicsResult {
    /// Wall time the background computation took.
    pub elapsed_real: Duration,
    /// Ticks the physics clock advanced by.
    pub elapsed_physics_ticks: u64,
}

/// Whether a background computation is outstanding, and towards which
/// target.
#[derive(Clone, Copy, Debug, PartialEq, Eq, Structural)]
pub enum WorkerState {
    Idle,
    Computing { target: u64 },
}

/// The background execution context as the control thread sees it: idle,
/// or busy with the one computation it was given.
#[derive(Clone, Copy, Debug)]
pub struct Worker {
    state: WorkerState,
}

impl Worker {
    pub closed spec fn spec_state(&self) -> WorkerState {
        self.state
    }

    /// An idle worker.
    pub fn new() -> (worker: Worker)
        ensures
            worker.state() == WorkerState::Idle,
    {
        Worker { state: WorkerState::Idle }
    }

    /// The worker's state.
    #[verifier::when_used_as_spec(spec_state)]
    pub fn state(&self) -> (state: WorkerState)
        ensures
            state == self.spec_state(),
    {
        self.state
    }

    /// Gives the worker a computation towards `target`. An idle worker
    /// takes it and is computing from then on; a worker that is computing
    /// refuses and stays as it is.
    pub fn advance_physics_to(&mut self, target: u64) -> (taken: Result<(), ()>)
        ensures
            old(self).state() is Idle ==> taken is Ok && final(self).state() == (
            WorkerState::Computing { target }),
            old(self).state() is Computing ==> taken is Err && final(self).state() == old(
                self,
            ).state(),
    {
        match self.state {
            WorkerState::Idle => {
                self.state = WorkerState::Computing { target };
                Ok(())
            },
            WorkerState::Computing { .. } => Err(()),
        }
    }

    /// Takes the result of the outstanding computation: the worker is idle
    /// again, and the target it computed towards is returned.
    pub fn complete(&mut self) -> (target: u64)
        requires
            old(self).state() is Computing,
        ensures
            old(self).state() == (WorkerState::Computing { target }),
            final(self).state() == WorkerState::Idle,
    {
        match self.state {
            WorkerState::Computing { target } => {
                self.state = WorkerState::Idle;
                target
            },
            WorkerState::Idle => 0,
        }
    }
}


/// The scheduler as contracts see it.
pub struct SystemState {
    /// Simulated time the physics clock has reached.
    pub reached: u64,
    /// The timing the clock advances by.
    pub timing: Timing,
    /// Whether a computation is outstanding.
    pub worker: WorkerState,
    /// Number of bodies, fixed for the run.
    pub bodies: usize,
}

impl SystemState {
    /// Ticks have positive length, and a computation is outstanding only
    /// while a whole tick fits between the clock and its target.
    pub open spec fn wf(self) -> bool {
        &&& self.timing.valid()
        &&& self.worker matches WorkerState::Computing { target } ==> is_behind(
            self.reached as int,
            target as int,
            self.timing,
        )
    }

    /// Simulated time between the clock and the target of the outstanding
    /// computation.
    pub open spec fn lag_owed(self) -> int {
        match self.worker {
            WorkerState::Idle => 0,
            WorkerState::Computing { target } => target - self.reached,
        }
    }
}

/// The state after a request to advance to `target`.
///
/// While a computation is outstanding, and where the clock is not behind
/// the target, nothing changes. Otherwise the catch-up policy is applied
/// and a computation towards the target becomes outstanding.
pub open spec fn after_start(s: SystemState, target: u64) -> SystemState {
    if s.worker is Computing || !is_behind(s.reached as int, target as int, s.timing) {
        s
    } else {
        SystemState {
            reached: caught_up(s.reached as int, target as int, s.timing) as u64,
            worker: WorkerState::Computing { target },
            ..s
        }
    }
}

/// The state after the result of the outstanding computation has arrived:
/// the clock is one tick further, and a computation towards the same target
/// is outstanding again exactly if the clock is still behind it.
pub open spec fn after_event(s: SystemState) -> SystemState {
    let target = s.worker->target;
    let reached = (s.reached + s.timing.tick) as u64;
    SystemState {
        reached,
        worker: if is_behind(reached as int, target as int, s.timing) {
            WorkerState::Computing { target }
        } else {
            WorkerState::Idle
        },
        ..s
    }
}

/// The state in which the scheduler comes to rest when every outstanding
/// computation delivers its result.
pub open spec fn drained(s: SystemState) -> SystemState
    decreases s.lag_owed(),
    when s.wf()
{
    if s.worker is Computing {
        drained(after_event(s))
    } else {
        s
    }
}

/// Number of results that arrive before the scheduler comes to rest.
pub open spec fn events_until_idle(s: SystemState) -> nat
    decreases s.lag_owed(),
    when s.wf()
{
    if s.worker is Computing {
        1 + events_until_idle(after_event(s))
    } else {
        0
    }
}

/// What became of a request to advance.
#[derive(Clone, Copy, Debug, PartialEq, Eq, Structural)]
pub enum Started {
    /// A computation is outstanding; the request changed nothing.
    Busy,
    /// The clock is not behind the target; nothing was submitted.
    Current,
    /// A computation was submitted. `dropped` holds the simulated
    /// nanoseconds that the clock skipped, if it had to jump.
    Submitted { dropped: Option<u64> },
}

/// The answer to a request to advance to `target` made in state `s`.
pub open spec fn start_outcome(s: SystemState, target: u64) -> Started {
    if s.worker is Computing {
        Started::Busy
    } else if !is_behind(s.reached as int, target as int, s.timing) {
        Started::Current
    } else {
        Started::Submitted {
            dropped: match dropped(s.reached as int, target as int, s.timing) {
                Some(d) => Some(d as u64),
                None => None,
            },
        }
    }
}

/// What became of an arrived result.
#[derive(Clone, Copy, Debug)]
pub struct Applied {
    /// The tick that the result accounts for.
    pub result: PhysicsResult,
    /// Whether a further computation was submitted at once.
    pub resubmitted: bool,
}

/// The compute scheduler: the physics clock together with the worker that
/// computes for it.
#[derive(Clone, Copy, Debug)]
pub struct PhysicsSystem {
    clock: PhysicsClock,
    worker: Worker,
    bodies: usize,
}

impl View for PhysicsSystem {
    type V = SystemState;

    closed spec fn view(&self) -> SystemState {
        SystemState {
            reached: self.clock.reached(),
            timing: self.clock.timing(),
            worker: self.worker.state(),
            bodies: self.bodies,
        }
    }
}

impl PhysicsSystem {
    /// An idle scheduler for `bodies` bodies whose clock has reached
    /// `start`.
    pub fn new(start: u64, timing: Timing, bodies: usize) -> (system: PhysicsSystem)
        requires
            timing.valid(),
        ensures
            system@.wf(),
            system@ == (SystemState { reached: start, timing, worker: WorkerState::Idle, bodies }),
    {
        PhysicsSystem { clock: PhysicsClock::new(start, timing), worker: Worker::new(), bodies }
    }

    /// Simulated time the physics clock has reached, in nanoseconds.
    pub fn reached(&self) -> (reached: u64)
        ensures
            reached == self@.reached,
    {
        self.clock.reached()
    }

    /// Whether a computation is outstanding.
    pub fn is_computing(&self) -> (computing: bool)
        ensures
            computing == self@.worker is Computing,
    {
        match self.worker.state() {
            WorkerState::Idle => false,
            WorkerState::Computing { .. } => true,
        }
    }

    /// Number of bodies the scheduler was set up for.
    pub fn bodies(&self) -> (bodies: usize)
        ensures
            bodies == self@.bodies,
    {
        self.bodies
    }

    /// Requests that the clock be advanced to `target`.
    ///
    /// The caller submits a snapshot of the bodies to the background
    /// context exactly when `Submitted` is returned, and reports the
    /// skipped time when it carries one.
    pub fn start(&mut self, target: u64) -> (started: Started)
        requires
            old(self)@.wf(),
        ensures
            final(self)@.wf(),
            final(self)@ == after_start(old(self)@, target),
            final(self)@.reached >= old(self)@.reached,
            started == start_outcome(old(self)@, target),
    {
        if self.is_computing() {
            return Started::Busy;
        }
        if !self.clock.is_behind(target) {
            return Started::Current;
        }
        let skipped = self.clock.catch_up(target);
        let taken = self.worker.advance_physics_to(target);
        Started::Submitted { dropped: skipped }
    }

    /// Takes in the result of the outstanding computation.
    ///
    /// `samples` is the number of acceleration samples that arrived and
    /// `time_spent` the wall time the computation took. The caller applies
    /// the samples to the bodies, and submits a fresh snapshot when
    /// `resubmitted` is set.
    pub fn handle_event(&mut self, samples: usize, time_spent: Duration) -> (applied: Applied)
        requires
            old(self)@.wf(),
            old(self)@.worker is Computing,
            samples == old(self)@.bodies,
        ensures
            final(self)@.wf(),
            final(self)@ == after_event(old(self)@),
            final(self)@.reached == old(self)@.reached + old(self)@.timing.tick,
            applied.result.elapsed_real == time_spent,
            applied.result.elapsed_physics_ticks == 1,
            applied.resubmitted == final(self)@.worker is Computing,
    {
        let target = self.worker.complete();
        self.clock.tick();
        let resubmitted = self.clock.is_behind(target);
        if resubmitted {
            let taken = self.worker.advance_physics_to(target);
        }
        Applied {
            result: PhysicsResult { elapsed_real: time_spent, elapsed_physics_ticks: 1 },
            resubmitted,
        }
    }
}


/// Taking one tick out of a lag takes one out of its whole ticks.
proof fn lemma_one_tick_less(lag: int, tick: int)
    requires
        tick > 0,
        lag >= tick,
    ensures
        lag / tick == 1 + (lag - tick) / tick,
        lag - tick < tick ==> lag / tick == 1,
{
    assert(lag / tick == 1 + (lag - tick) / tick) by (nonlinear_arith)
        requires
            tick > 0,
            lag >= tick,
    ;
    assert(lag - tick < tick ==> (lag - tick) / tick == 0) by (nonlinear_arith)
        requires
            tick > 0,
            lag >= tick,
    ;
}

/// A scheduler with a computation outstanding comes to rest idle, after as
/// many results as whole ticks fit between its clock and the target, with
/// its clock that many ticks further.
pub proof fn lemma_drained(s: SystemState)
    requires
        s.wf(),
        s.worker is Computing,
    ensures
        drained(s).wf(),
        drained(s).worker is Idle,
        drained(s).timing == s.timing,
        drained(s).bodies == s.bodies,
        events_until_idle(s) == (s.worker->target - s.reached) / (s.timing.tick as int),
        drained(s).reached == s.reached + events_until_idle(s) * s.timing.tick,
    decreases s.lag_owed(),
{
    let target = s.worker->target;
    let tick = s.timing.tick as int;
    let lag = target - s.reached;
    let next = after_event(s);
    lemma_one_tick_less(lag, tick);
    if next.worker is Computing {
        lemma_drained(next);
        let rest = events_until_idle(next) as int;
        assert((1 + rest) * tick == tick + rest * tick) by (nonlinear_arith);
    } else {
        assert(events_until_idle(next) == 0);
        assert(drained(next) == next);
        assert(1 * tick == tick) by (nonlinear_arith);
    }
}

/// Offloading tick by tick reaches what advancing the clock in one go
/// reaches: a request made to an idle scheduler, followed by the result of
/// every computation it leads to, leaves the clock where
/// [`PhysicsClock::advance_to`] leaves it, after as many results as that
/// call counts ticks.
pub proof fn lemma_offloading_matches_advance(s: SystemState, target: u64)
    requires
        s.wf(),
        s.worker is Idle,
    ensures
        drained(after_start(s, target)).worker is Idle,
        drained(after_start(s, target)).reached == reached_after(
            s.reached as int,
            target as int,
            s.timing,
        ),
        events_until_idle(after_start(s, target)) == ticks_due(
            s.reached as int,
            target as int,
            s.timing,
        ),
{
    let started = after_start(s, target);
    if is_behind(s.reached as int, target as int, s.timing) {
        lemma_drained(started);
    } else {
        assert(0 * (s.timing.tick as int) == 0) by (nonlinear_arith);
    }
}

/// A clock that is far behind jumps once: after the request a single tick
/// is owed, whatever the lag was, and until its result arrives every
/// further request is answered as busy and changes nothing.
pub proof fn lemma_far_behind_jumps_once(s: SystemState, target: u64, later: u64)
    requires
        s.wf(),
        s.worker is Idle,
        is_far_behind(s.reached as int, target as int, s.timing),
    ensures
        start_outcome(s, target) matches Started::Submitted { dropped: Some(d) } && d == target
            - s.timing.tick - s.reached,
        after_start(s, target).reached == target - s.timing.tick,
        events_until_idle(after_start(s, target)) == 1,
        start_outcome(after_start(s, target), later) == Started::Busy,
        after_start(after_start(s, target), later) == after_start(s, target),
{
    lemma_drained(after_start(s, target));
    lemma_whole_ticks(s.timing.tick as int, s.timing.tick as int);
}

} // verus!
