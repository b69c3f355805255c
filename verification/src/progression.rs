//! Derived progress bookkeeping: how many items were delivered against a
//! fixed goal.

use vstd::prelude::*;

verus! {

/// Counts successful deliveries towards a fixed goal.
///
/// The counter is pure bookkeeping for the display layer: it never exceeds
/// `usize::MAX` (the step saturates) and the remaining-step count is only
/// defined while the counter has not overtaken the goal.
pub struct Progression {
    current: usize,
    goal: usize,
}

impl Progression {
    /// How many steps were taken so far.
    pub closed spec fn current(&self) -> int {
        self.current as int
    }

    /// The fixed number of steps that counts as complete.
    pub closed spec fn goal(&self) -> int {
        self.goal as int
    }

    /// Starts counting from zero towards `goal`.
    pub fn new(goal: usize) -> (p: Self)
        ensures
            p.current() == 0,
            p.goal() == goal,
    {
        Self { current: 0, goal }
    }

    /// Records one delivered item. The count never decreases and saturates
    /// instead of overflowing.
    pub fn step(&mut self)
        ensures
            final(self).goal() == old(self).goal(),
            final(self).current() == if old(self).current() < usize::MAX {
                old(self).current() + 1
            } else {
                old(self).current()
            },
            final(self).current() >= old(self).current(),
    {
        self.current = self.current.saturating_add(1);
    }

    /// How many steps are still owed before the goal is reached.
    pub fn get_nb_remaining_step(&self) -> (n: usize)
        requires
            self.current() <= self.goal(),
        ensures
            n == self.goal() - self.current(),
    {
        self.goal - self.current
    }
}

} // verus!
