//! The physics clock: simulated time reached, advanced in fixed ticks.
//!
//! Instants and durations are counts of nanoseconds. The clock is behind a
//! target while at least one whole tick fits between the two. A clock that
//! is behind by more than the permitted lag does not grind through the
//! backlog: it jumps to one tick before the target and reports how much
//! simulated time it dropped.
use vstd::prelude::*;

verus! {

/// Length of one tick: a millisecond.
pub const PHYSICS_DELTA_TIME: u64 = 1_000_000;

/// Lag beyond which the clock jumps: a second.
pub const PHYSICS_MAX_BEHIND_TIME: u64 = 1_000_000_000;

/// Number of bodies in a standard run.
pub const BODIES: usize = 256;

/// Tick length and permitted lag, both in nanoseconds.
#[derive(Clone, Copy, Debug, PartialEq, Eq, Structural)]
pub struct Timing {
    pub tick: u64,
    pub max_behind: u64,
}

impl Timing {
    /// A tick has positive length.
    pub open spec fn valid(self) -> bool {
        self.tick > 0
    }

    /// Millisecond ticks and a permitted lag of one second.
    pub fn standard() -> (timing: Timing)
        ensures
            timing == (Timing { tick: PHYSICS_DELTA_TIME, max_behind: PHYSICS_MAX_BEHIND_TIME }),
            timing.valid(),
    {
        Timing { tick: PHYSICS_DELTA_TIME, max_behind: PHYSICS_MAX_BEHIND_TIME }
    }
}

/// At least one whole tick fits between `reached` and `target`.
pub open spec fn is_behind(reached: int, target: int, timing: Timing) -> bool {
    target - reached >= timing.tick
}

/// The clock is behind `target` by more than the permitted lag.
pub open spec fn is_far_behind(reached: int, target: int, timing: Timing) -> bool {
    is_behind(reached, target, timing) && target - reached > timing.max_behind
}

/// The clock after the catch-up policy has been applied: one tick before
/// the target where it was far behind, unchanged otherwise.
pub open spec fn caught_up(reached: int, target: int, timing: Timing) -> int {
    if is_far_behind(reached, target, timing) {
        target - timing.tick
    } else {
        reached
    }
}

/// Simulated time dropped by the catch-up policy, if it made the clock jump.
pub open spec fn dropped(reached: int, target: int, timing: Timing) -> Option<int> {
    if is_far_behind(reached, target, timing) {
        Some(target - timing.tick - reached)
    } else {
        None
    }
}

/// Number of ticks that bring the clock as close to `target` as whole
/// ticks allow, the catch-up policy applied first.
pub open spec fn ticks_due(reached: int, target: int, timing: Timing) -> int {
    if !timing.valid() || !is_behind(reached, target, timing) {
        0
    } else {
        (target - caught_up(reached, target, timing)) / (timing.tick as int)
    }
}

/// Where the clock stands after those ticks.
pub open spec fn reached_after(reached: int, target: int, timing: Timing) -> int {
    caught_up(reached, target, timing) + ticks_due(reached, target, timing) * timing.tick
}

/// What an advance of the clock amounted to.
#[derive(Clone, Copy, Debug, PartialEq, Eq, Structural)]
pub struct Advance {
    /// Simulated nanoseconds skipped by a jump, if the clock jumped.
    pub dropped: Option<u64>,
    /// Ticks to integrate.
    pub ticks: u64,
}

/// Simulated time reached, with the timing it advances by.
#[derive(Clone, Copy, Debug)]
pub struct PhysicsClock {
    reached: u64,
    timing: Timing,
}

impl PhysicsClock {
    pub closed spec fn spec_reached(&self) -> u64 {
        self.reached
    }

    pub closed spec fn spec_timing(&self) -> Timing {
        self.timing
    }

    /// The clock advances by ticks of positive length.
    pub open spec fn wf(&self) -> bool {
        self.timing().valid()
    }

    /// A clock that has reached `start`.
    pub fn new(start: u64, timing: Timing) -> (clock: PhysicsClock)
        requires
            timing.valid(),
        ensures
            clock.wf(),
            clock.reached() == start,
            clock.timing() == timing,
    {
        PhysicsClock { reached: start, timing }
    }

    /// Simulated time reached, in nanoseconds.
    #[verifier::when_used_as_spec(spec_reached)]
    pub fn reached(&self) -> (reached: u64)
        ensures
            reached == self.spec_reached(),
    {
        self.reached
    }

    /// The timing the clock advances by.
    #[verifier::when_used_as_spec(spec_timing)]
    pub fn timing(&self) -> (timing: Timing)
        ensures
            timing == self.spec_timing(),
    {
        self.timing
    }

    /// Whether at least one whole tick fits before `target`. A target in
    /// the clock's past is never ahead of it.
    pub fn is_behind(&self, target: u64) -> (behind: bool)
        ensures
            behind == is_behind(self.reached() as int, target as int, self.timing()),
    {
        target >= self.reached && target - self.reached >= self.timing.tick
    }

    /// Applies the catch-up policy towards `target`: a clock that is far
    /// behind jumps to one tick before the target and the skipped time is
    /// returned; any other clock stays where it is.
    pub fn catch_up(&mut self, target: u64) -> (skipped: Option<u64>)
        ensures
            final(self).timing() == old(self).timing(),
            final(self).reached() == caught_up(
                old(self).reached() as int,
                target as int,
                old(self).timing(),
            ),
            final(self).reached() >= old(self).reached(),
            match skipped {
                Some(d) => dropped(old(self).reached() as int, target as int, old(self).timing())
                    == Some(d as int),
                None => dropped(old(self).reached() as int, target as int, old(self).timing())
                    is None,
            },
    {
        if target >= self.reached && target - self.reached >= self.timing.tick && target
            - self.reached > self.timing.max_behind {
            let jump_to: u64 = target - self.timing.tick;
            let skipped: u64 = jump_to - self.reached;
            self.reached = jump_to;
            Some(skipped)
        } else {
            None
        }
    }

    /// Advances the clock by one tick.
    pub fn tick(&mut self)
        requires
            old(self).reached() + old(self).timing().tick <= u64::MAX,
        ensures
            final(self).timing() == old(self).timing(),
            final(self).reached() == old(self).reached() + old(self).timing().tick,
    {
        self.reached = self.reached + self.timing.tick;
    }

    /// Advances the clock towards `target` as far as whole ticks go, after
    /// applying the catch-up policy, and returns the number of ticks this
    /// took together with what a jump skipped.
    pub fn advance_to(&mut self, target: u64) -> (advance: Advance)
        requires
            old(self).wf(),
        ensures
            final(self).wf(),
            final(self).timing() == old(self).timing(),
            advance.ticks == ticks_due(
                old(self).reached() as int,
                target as int,
                old(self).timing(),
            ),
            final(self).reached() == reached_after(
                old(self).reached() as int,
                target as int,
                old(self).timing(),
            ),
            match advance.dropped {
                Some(d) => dropped(old(self).reached() as int, target as int, old(self).timing())
                    == Some(d as int),
                None => dropped(old(self).reached() as int, target as int, old(self).timing())
                    is None,
            },
            old(self).reached() <= final(self).reached(),
            is_behind(old(self).reached() as int, target as int, old(self).timing()) ==> target
                - old(self).timing().tick < final(self).reached() <= target,
    {
        if !self.is_behind(target) {
            return Advance { dropped: None, ticks: 0 };
        }
        let skipped = self.catch_up(target);
        let tick: u64 = self.timing.tick;
        let lag: u64 = target - self.reached;
        let ticks: u64 = lag / tick;
        proof {
            lemma_whole_ticks(lag as int, tick as int);
        }
        self.reached = self.reached + ticks * tick;
        Advance { dropped: skipped, ticks }
    }
}

/// Whole ticks within a lag: they fill it up to less than one tick.
pub proof fn lemma_whole_ticks(lag: int, tick: int)
    requires
        lag >= 0,
        tick > 0,
    ensures
        0 <= (lag / tick) * tick <= lag,
        lag - (lag / tick) * tick < tick,
        lag >= tick ==> lag / tick >= 1,
        lag == tick ==> lag / tick == 1,
{
    assert(0 <= (lag / tick) * tick <= lag && lag - (lag / tick) * tick < tick) by (nonlinear_arith)
        requires
            lag >= 0,
            tick > 0,
    ;
    assert(lag >= tick ==> lag / tick >= 1) by (nonlinear_arith)
        requires
            lag >= 0,
            tick > 0,
    ;
    assert(lag == tick ==> lag / tick == 1) by (nonlinear_arith)
        requires
            lag >= 0,
            tick > 0,
    ;
}

} // verus!
