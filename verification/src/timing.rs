use vstd::prelude::*;

verus! {

/// Whether feeding `delta` time units into an accumulator standing at `acc`
/// releases a tick against a target interval of `interval` units. An unset
/// accumulator releases immediately, so the first call after construction
/// always yields a tick.
pub open spec fn tick_released(acc: Option<u64>, delta: u64, interval: u64) -> bool {
    match acc {
        Option::None => true,
        Option::Some(a) => a + delta >= interval,
    }
}

/// The time units accumulated so far; an unset accumulator counts as zero.
pub open spec fn accumulated(acc: Option<u64>) -> int {
    match acc {
        Option::None => 0,
        Option::Some(a) => a as int,
    }
}

/// Whether feeding `delta` more time units pushes the accumulated duration
/// strictly past `threshold`.
pub open spec fn delay_completes(acc: Option<u64>, delta: u64, threshold: u64) -> bool {
    accumulated(acc) + delta > threshold
}

/// A fixed-duration accumulator fed with elapsed time by its caller. One
/// instance throttles simulation ticks to a fixed rate; another, with a longer
/// threshold, serves as the post-game delay timer. Time is counted in whatever
/// integer unit the caller chooses, as long as the threshold and the deltas
/// agree on it.
pub struct Yield {
    time_to_yield: u64,
    elapsed_time: Option<u64>,
}

impl Yield {
    /// The configured interval or threshold, in the caller's time unit.
    pub closed spec fn threshold(&self) -> u64 {
        self.time_to_yield
    }

    /// The accumulated time since the last release, unset right after
    /// construction and after a completed delay.
    pub closed spec fn elapsed(&self) -> Option<u64> {
        self.elapsed_time
    }

    /// The accumulator never holds more than the threshold.
    pub open spec fn wf(&self) -> bool {
        self.elapsed() matches Option::Some(a) ==> a <= self.threshold()
    }

    pub fn new(time_to_yield: u64) -> (y: Yield)
        ensures
            y.threshold() == time_to_yield,
            y.elapsed() is None,
            y.wf(),
    {
        Yield { time_to_yield, elapsed_time: Option::None }
    }

    /// Adds `delta` to the accumulator and releases at most one tick: true
    /// when the accumulated time reaches the interval (the accumulator resets
    /// to zero), or on the very first call, which releases immediately.
    pub fn accumulate(&mut self, delta: u64) -> (released: bool)
        requires
            old(self).wf(),
        ensures
            final(self).wf(),
            final(self).threshold() == old(self).threshold(),
            released == tick_released(old(self).elapsed(), delta, old(self).threshold()),
            released ==> final(self).elapsed() == Option::Some(0u64),
            !released ==> final(self).elapsed() == Option::Some(
                (accumulated(old(self).elapsed()) + delta) as u64,
            ),
    {
        match self.elapsed_time {
            Option::None => {
                self.elapsed_time = Option::Some(0);
                true
            },
            Option::Some(a) => {
                if delta >= self.time_to_yield - a {
                    self.elapsed_time = Option::Some(0);
                    true
                } else {
                    self.elapsed_time = Option::Some(a + delta);
                    false
                }
            },
        }
    }

    /// Adds `delta` to the accumulated duration: true exactly once when the
    /// duration strictly exceeds the threshold, resetting the accumulator to
    /// unset for reuse; false otherwise, with the sum retained.
    pub fn completed_yield(&mut self, delta: u64) -> (completed: bool)
        requires
            old(self).wf(),
        ensures
            final(self).wf(),
            final(self).threshold() == old(self).threshold(),
            completed == delay_completes(old(self).elapsed(), delta, old(self).threshold()),
            completed ==> final(self).elapsed() is None,
            !completed ==> final(self).elapsed() == Option::Some(
                (accumulated(old(self).elapsed()) + delta) as u64,
            ),
    {
        let base: u64 = match self.elapsed_time {
            Option::None => 0,
            Option::Some(a) => a,
        };
        if delta > self.time_to_yield - base {
            self.elapsed_time = Option::None;
            true
        } else {
            self.elapsed_time = Option::Some(base + delta);
            false
        }
    }
}

} // verus!
