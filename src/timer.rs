//! The session clock: whole seconds counted up from zero against a limit.

use vstd::prelude::*;

verus! {

/// Counts elapsed seconds once started. The counting itself is driven from
/// outside, one `tick` per second.
pub struct Timer {
    running: bool,
    passed: u32,
    limit: u32,
}

impl Timer {
    pub closed spec fn is_running(&self) -> bool {
        self.running
    }

    /// Seconds counted so far.
    pub closed spec fn elapsed(&self) -> u32 {
        self.passed
    }

    /// Seconds after which the session ends.
    pub closed spec fn limit_secs(&self) -> u32 {
        self.limit
    }

    pub fn new(limit: u32) -> (r: Self)
        ensures
            !r.is_running(),
            r.elapsed() == 0,
            r.limit_secs() == limit,
    {
        Self { running: false, passed: 0, limit }
    }

    /// Sets the limit; only before the clock starts.
    pub fn set(&mut self, limit: u32)
        requires
            !old(self).is_running(),
        ensures
            final(self).limit_secs() == limit,
            final(self).elapsed() == old(self).elapsed(),
            final(self).is_running() == old(self).is_running(),
    {
        self.limit = limit;
    }

    pub fn running(&self) -> (r: bool)
        ensures
            r == self.is_running(),
    {
        self.running
    }

    pub fn passed(&self) -> (r: u32)
        ensures
            r == self.elapsed(),
    {
        self.passed
    }

    pub fn is_limit(&self) -> (r: bool)
        ensures
            r == (self.elapsed() >= self.limit_secs()),
    {
        self.limit <= self.passed
    }

    /// Marks the clock as running; from now on it is ticked once a second.
    pub fn start(&mut self)
        ensures
            final(self).is_running(),
            final(self).elapsed() == old(self).elapsed(),
            final(self).limit_secs() == old(self).limit_secs(),
    {
        self.running = true;
    }

    /// `after` is `before` one second later: a running clock counts one
    /// more (held at `u32::MAX`), a stopped one stays.
    pub open spec fn ticked(before: Timer, after: Timer) -> bool {
        &&& after.elapsed() == (if before.is_running() && before.elapsed() < u32::MAX {
            before.elapsed() + 1
        } else {
            before.elapsed() as int
        })
        &&& after.is_running() == before.is_running()
        &&& after.limit_secs() == before.limit_secs()
    }

    /// One second has passed.
    pub fn tick(&mut self)
        ensures
            Self::ticked(*old(self), *final(self)),
    {
        if self.running && self.passed < u32::MAX {
            self.passed = self.passed + 1;
        }
    }

    /// A tick never moves the count back, so successive reads never decrease.
    pub proof fn lemma_elapsed_monotone(before: Timer, after: Timer)
        requires
            Self::ticked(before, after),
        ensures
            after.elapsed() >= before.elapsed(),
    {
    }
}

} // verus!
