//! The repeating timer that paces the timed stars.

use bevy::time::{Timer, TimerMode};
use std::time::Duration;
use vstd::prelude::*;
use crate::config::SPAWN_TIMER_STARS;

verus! {

/// One `bevy::time::Timer::tick` of a repeating timer that is not paused:
/// a timer of the given period in microseconds is made with `Timer::new`,
/// put at `elapsed` with `set_elapsed` and ticked by `delta`; what
/// `Timer::elapsed` and `Timer::finished` then say is handed back. The tick
/// adds `delta` to the elapsed time, reports whether the sum has reached the
/// period, and keeps the remainder of the sum by the period. A period of
/// zero would divide by zero, and only below one period of elapsed time does
/// the count of periods that the timer keeps fit its 32 bits.
#[verifier::external_body]
fn repeating_tick(elapsed: u64, period: u64, delta: u32) -> (after: (u64, bool))
    requires
        0 < period,
        elapsed < period,
    ensures
        after.0 == (elapsed + delta) % (period as int),
        after.1 == (elapsed + delta >= period),
{
    let mut timer = Timer::new(Duration::from_micros(period), TimerMode::Repeating);
    timer.set_elapsed(Duration::from_micros(elapsed));
    timer.tick(Duration::from_micros(delta as u64));
    (timer.elapsed().as_micros() as u64, timer.finished())
}

/// A repeating timer: it gathers elapsed time, and on each tick that brings
/// the sum to a full period it is finished and keeps the remainder.
#[derive(Clone, Copy, Debug, PartialEq, Eq)]
pub struct StarSpawnTimer {
    elapsed: u64,
    period: u64,
    finished: bool,
}

impl StarSpawnTimer {
    /// Microseconds gathered since the last full period.
    pub closed spec fn spec_elapsed(&self) -> u64 {
        self.elapsed
    }

    /// Microseconds in a period.
    pub closed spec fn spec_period(&self) -> u64 {
        self.period
    }

    /// Whether the last tick completed a period.
    pub closed spec fn spec_finished(&self) -> bool {
        self.finished
    }

    /// The period is positive and the time gathered is short of it.
    #[verifier::type_invariant]
    pub open spec fn valid(self) -> bool {
        self.spec_elapsed() < self.spec_period()
    }

    /// The timer of the given period with no time gathered.
    pub closed spec fn fresh(period: u64) -> StarSpawnTimer {
        StarSpawnTimer { elapsed: 0, period, finished: false }
    }

    /// What `tick` leaves.
    pub closed spec fn ticked(self, delta: u32) -> StarSpawnTimer {
        StarSpawnTimer {
            elapsed: ((self.elapsed + delta) % (self.period as int)) as u64,
            period: self.period,
            finished: self.elapsed + delta >= self.period,
        }
    }

    /// A timer of the given period in microseconds with no time gathered,
    /// if the period is positive.
    pub fn new(period: u64) -> (timer: Option<StarSpawnTimer>)
        ensures
            timer is Some <==> 0 < period,
            timer matches Some(t) ==> t == StarSpawnTimer::fresh(period),
    {
        if period > 0 {
            Some(StarSpawnTimer { elapsed: 0, period, finished: false })
        } else {
            None
        }
    }

    /// Microseconds gathered since the last full period.
    #[verifier::when_used_as_spec(spec_elapsed)]
    pub fn elapsed(&self) -> (e: u64)
        ensures
            e == self.spec_elapsed(),
            e < self.spec_period(),
    {
        proof {
            use_type_invariant(self);
        }
        self.elapsed
    }

    /// Microseconds in a period.
    #[verifier::when_used_as_spec(spec_period)]
    pub fn period(&self) -> (p: u64)
        ensures
            p == self.spec_period(),
            0 < p,
    {
        proof {
            use_type_invariant(self);
        }
        self.period
    }

    /// Whether the last tick completed a period.
    #[verifier::when_used_as_spec(spec_finished)]
    pub fn finished(&self) -> (f: bool)
        ensures
            f == self.spec_finished(),
    {
        self.finished
    }

    /// Lets `delta` microseconds pass: the timer is finished if the time
    /// gathered has reached the period, and keeps what is left over of it.
    pub fn tick(&mut self, delta: u32)
        ensures
            *final(self) == old(self).ticked(delta),
            final(self).valid(),
            final(self).spec_period() == old(self).spec_period(),
            final(self).spec_finished()
                <==> old(self).spec_elapsed() + delta >= old(self).spec_period(),
            final(self).spec_elapsed()
                == (old(self).spec_elapsed() + delta) % (old(self).spec_period() as int),
    {
        proof {
            use_type_invariant(&*self);
        }
        let after = repeating_tick(self.elapsed, self.period, delta);
        *self = StarSpawnTimer { elapsed: after.0, period: self.period, finished: after.1 };
    }

    /// A fresh timer has gathered nothing and is not finished.
    pub proof fn lemma_fresh(period: u64)
        ensures
            StarSpawnTimer::fresh(period).spec_elapsed() == 0,
            StarSpawnTimer::fresh(period).spec_period() == period,
            !StarSpawnTimer::fresh(period).spec_finished(),
            0 < period ==> StarSpawnTimer::fresh(period).valid(),
    {
    }

    /// A tick keeps the period, is finished exactly when the time gathered
    /// reaches the period, and keeps what is left over of it.
    pub proof fn lemma_ticked(self, delta: u32)
        requires
            self.valid(),
        ensures
            self.ticked(delta).valid(),
            self.ticked(delta).spec_period() == self.spec_period(),
            self.ticked(delta).spec_finished() <==> self.spec_elapsed() + delta
                >= self.spec_period(),
            self.ticked(delta).spec_elapsed() == (self.spec_elapsed() + delta) % (
            self.spec_period() as int),
            !self.ticked(delta).spec_finished() ==> self.ticked(delta).spec_elapsed()
                == self.spec_elapsed() + delta,
    {
        if self.elapsed + delta < self.period {
            vstd::arithmetic::div_mod::lemma_small_mod(
                (self.elapsed + delta) as nat,
                self.period as nat,
            );
        }
    }
}

/// The sum of the given spans of time.
pub open spec fn total(deltas: Seq<u32>) -> int
    decreases deltas.len(),
{
    if deltas.len() == 0 {
        0
    } else {
        total(deltas.drop_last()) + deltas.last()
    }
}

impl StarSpawnTimer {
    /// The timer after one tick for each of the given spans, in order.
    pub open spec fn ticked_through(self, deltas: Seq<u32>) -> StarSpawnTimer
        decreases deltas.len(),
    {
        if deltas.len() == 0 {
            self
        } else {
            self.ticked_through(deltas.drop_last()).ticked(deltas.last())
        }
    }

    /// A timer started at rest does not finish while the ticks together
    /// stay short of the period; it holds their sum; and the next tick
    /// finishes exactly if it brings the sum to the period.
    pub proof fn lemma_first_period(period: u64, deltas: Seq<u32>, next: u32)
        requires
            0 < period,
            total(deltas) < period,
        ensures
            StarSpawnTimer::fresh(period).ticked_through(deltas).valid(),
            StarSpawnTimer::fresh(period).ticked_through(deltas).spec_elapsed() == total(deltas),
            StarSpawnTimer::fresh(period).ticked_through(deltas).spec_period() == period,
            !StarSpawnTimer::fresh(period).ticked_through(deltas).spec_finished(),
            StarSpawnTimer::fresh(period).ticked_through(deltas).ticked(next).spec_finished()
                <==> total(deltas) + next >= period,
        decreases deltas.len(),
    {
        let start = StarSpawnTimer::fresh(period);
        if deltas.len() > 0 {
            StarSpawnTimer::lemma_first_period(period, deltas.drop_last(), deltas.last());
            start.ticked_through(deltas.drop_last()).lemma_ticked(deltas.last());
        }
        start.ticked_through(deltas).lemma_ticked(next);
    }
}

impl Default for StarSpawnTimer {
    /// The timer of the timed stars.
    fn default() -> (timer: StarSpawnTimer)
        ensures
            timer == StarSpawnTimer::fresh(SPAWN_TIMER_STARS),
    {
        StarSpawnTimer { elapsed: 0, period: SPAWN_TIMER_STARS, finished: false }
    }
}

} // verus!
