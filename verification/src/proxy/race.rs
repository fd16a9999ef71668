//! Attempts that race each other.
//!
//! Attempts start one after another with a pause between them. A pause ends
//! early when an attempt that runs comes to its end. The first success wins;
//! the race is lost when every attempt has failed.

use vstd::prelude::*;

verus! {

/// What the race needs next.
#[derive(Debug, Clone, Copy, PartialEq, Eq, Structural)]
pub enum RaceStep {
    /// Start the attempt with this number.
    Start(usize),
    /// Wait for the pause to pass or for an attempt to end.
    Pause,
    /// Wait for an attempt to end.
    Await,
    /// Every attempt failed. The number is that of the attempt whose error
    /// is to be reported, if there was one.
    Lost(Option<usize>),
}

/// A race.
#[derive(Debug, Clone, Copy, PartialEq, Eq, Structural)]
pub struct Race {
    /// How many attempts there are.
    pub total: usize,
    /// The attempt that starts next.
    pub next: usize,
    /// How many attempts run.
    pub running: usize,
    /// The pause before the next attempt is over.
    pub rested: bool,
    /// Failures that come while attempts are still to be started count for
    /// the report.
    pub report_early: bool,
    /// The attempt whose error is to be reported.
    pub failed: Option<usize>,
}

impl Race {
    /// No more attempts run than have been started.
    pub open spec fn wf(self) -> bool {
        &&& self.next <= self.total
        &&& self.running <= self.next
        &&& self.failed matches Some(i) ==> i < self.next
    }

    /// What comes next.
    pub open spec fn due(self) -> RaceStep {
        if self.next < self.total {
            if self.next == 0 || self.rested {
                RaceStep::Start(self.next)
            } else {
                RaceStep::Pause
            }
        } else if self.running > 0 {
            RaceStep::Await
        } else {
            RaceStep::Lost(self.failed)
        }
    }

    /// The race once the next attempt runs.
    pub open spec fn after_start(self) -> Race {
        Race {
            next: (self.next + 1) as usize,
            running: (self.running + 1) as usize,
            rested: false,
            ..self
        }
    }

    /// The race once the next attempt turned out not to be possible.
    pub open spec fn after_skip(self) -> Race {
        Race { next: (self.next + 1) as usize, rested: false, failed: Some(self.next), ..self }
    }

    /// The race once the pause has passed.
    pub open spec fn after_pause(self) -> Race {
        Race { rested: true, ..self }
    }

    /// The race once an attempt has failed.
    pub open spec fn after_failure(self, attempt: usize) -> Race {
        Race {
            running: (self.running - 1) as usize,
            rested: self.rested || self.next < self.total,
            failed: if self.report_early || self.next == self.total {
                Some(attempt)
            } else {
                self.failed
            },
            ..self
        }
    }

    /// A race of `total` attempts.
    pub fn new(total: usize, report_early: bool) -> (r: Self)
        ensures
            r.wf(),
            r == (Race { total, next: 0, running: 0, rested: false, report_early, failed: None }),
    {
        Race { total, next: 0, running: 0, rested: false, report_early, failed: None }
    }

    /// What comes next.
    pub fn step(&self) -> (r: RaceStep)
        requires
            self.wf(),
        ensures
            r == self.due(),
    {
        if self.next < self.total {
            if self.next == 0 || self.rested {
                RaceStep::Start(self.next)
            } else {
                RaceStep::Pause
            }
        } else if self.running > 0 {
            RaceStep::Await
        } else {
            RaceStep::Lost(self.failed)
        }
    }

    /// The next attempt runs.
    pub fn on_started(&mut self)
        requires
            old(self).wf(),
            old(self).due() is Start,
        ensures
            final(self).wf(),
            *final(self) == old(self).after_start(),
    {
        self.next = self.next + 1;
        self.running = self.running + 1;
        self.rested = false;
    }

    /// The next attempt is not possible.
    pub fn on_skipped(&mut self)
        requires
            old(self).wf(),
            old(self).due() is Start,
        ensures
            final(self).wf(),
            *final(self) == old(self).after_skip(),
    {
        self.failed = Some(self.next);
        self.next = self.next + 1;
        self.rested = false;
    }

    /// The pause has passed.
    pub fn on_pause_over(&mut self)
        requires
            old(self).wf(),
            old(self).due() is Pause,
        ensures
            final(self).wf(),
            *final(self) == old(self).after_pause(),
    {
        self.rested = true;
    }

    /// An attempt that ran has failed.
    pub fn on_failed(&mut self, attempt: usize)
        requires
            old(self).wf(),
            old(self).running > 0,
            attempt < old(self).next,
        ensures
            final(self).wf(),
            *final(self) == old(self).after_failure(attempt),
    {
        self.running = self.running - 1;
        if self.report_early || self.next == self.total {
            self.failed = Some(attempt);
        }
        if self.next < self.total {
            self.rested = true;
        }
    }
}

/// A race is lost only when every attempt was started or found impossible and
/// none of them runs any more.
pub proof fn law_lost_means_exhausted(race: Race)
    requires
        race.wf(),
        race.due() is Lost,
    ensures
        race.next == race.total,
        race.running == 0,
{
}

/// A failure makes the next attempt start at once.
pub proof fn law_failure_ends_the_pause(race: Race, attempt: usize)
    requires
        race.wf(),
        race.running > 0,
        race.next < race.total,
    ensures
        race.after_failure(attempt).due() == RaceStep::Start(race.next),
{
}

/// What is left to happen in a race, counted.
pub open spec fn race_measure(race: Race) -> int {
    2 * (race.total - race.next) * 2 + 2 * race.running + if race.rested {
        0int
    } else {
        1int
    }
}

/// Every start, pause and failure brings a race nearer to its end.
pub proof fn law_race_ends(race: Race, attempt: usize)
    requires
        race.wf(),
        attempt < race.next,
    ensures
        race.due() is Start ==> race_measure(race.after_start()) < race_measure(race)
            && race_measure(race.after_skip()) < race_measure(race),
        race.due() is Pause ==> race_measure(race.after_pause()) < race_measure(race),
        race.running > 0 ==> race_measure(race.after_failure(attempt)) < race_measure(race),
{
}

} // verus!
