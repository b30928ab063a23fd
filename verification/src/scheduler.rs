//! The decisions of the periodic backup: when a backup runs, and what
//! follows from its outcome. The caller owns the timer and runs the backups.

use vstd::prelude::*;
use crate::backup::BackupManager;

verus! {

/// Seconds in one hour.
pub const SECONDS_PER_HOUR: u64 = 3600;

/// The largest interval, in hours, whose length in seconds a `u64` holds.
pub const MAX_INTERVAL_HOURS: u64 = 5_124_095_576_030_431;

/// What happened since the scheduler was last asked.
#[derive(Debug, Clone, Copy, PartialEq, Eq, Structural)]
pub enum SchedulerEvent {
    /// The timer fired.
    Tick,
    /// The backup that was asked for succeeded.
    BackupSucceeded,
    /// The backup that was asked for failed.
    BackupFailed,
    /// The host asked the scheduler to stop.
    StopRequested,
}

/// What the caller is to do next.
#[derive(Debug, Clone, Copy, PartialEq, Eq, Structural)]
pub enum SchedulerAction {
    /// Take a backup now, and report its outcome.
    RunBackup,
    /// Wait for the next tick.
    AwaitTick,
    /// Log the failure, and wait for the next tick.
    LogFailureAndAwaitTick,
    /// Leave the loop.
    Finish,
}

/// State of a periodic backup.
#[derive(Debug, Clone, Copy, PartialEq, Eq, Structural)]
pub struct Scheduler {
    /// Seconds between two ticks.
    pub period_secs: u64,
    /// Whether no stop was asked for yet.
    pub running: bool,
}

/// The state and the action that follow from an event. Once a stop was asked
/// for, every event finishes the loop. Before that, a tick starts a backup;
/// the outcome of a backup, success or failure, leads to the next wait.
pub open spec fn scheduler_step(s: Scheduler, event: SchedulerEvent) -> (
    Scheduler,
    SchedulerAction,
) {
    if !s.running {
        (s, SchedulerAction::Finish)
    } else {
        match event {
            SchedulerEvent::Tick => (s, SchedulerAction::RunBackup),
            SchedulerEvent::BackupSucceeded => (s, SchedulerAction::AwaitTick),
            SchedulerEvent::BackupFailed => (s, SchedulerAction::LogFailureAndAwaitTick),
            SchedulerEvent::StopRequested => (
                Scheduler { period_secs: s.period_secs, running: false },
                SchedulerAction::Finish,
            ),
        }
    }
}

impl Scheduler {
    /// Takes an event and says what to do next.
    pub fn step(&mut self, event: SchedulerEvent) -> (action: SchedulerAction)
        ensures
            (*final(self), action) == scheduler_step(*old(self), event),
    {
        if !self.running {
            return SchedulerAction::Finish;
        }
        match event {
            SchedulerEvent::Tick => SchedulerAction::RunBackup,
            SchedulerEvent::BackupSucceeded => SchedulerAction::AwaitTick,
            SchedulerEvent::BackupFailed => SchedulerAction::LogFailureAndAwaitTick,
            SchedulerEvent::StopRequested => {
                self.running = false;
                SchedulerAction::Finish
            },
        }
    }
}

/// A failed backup never stops the periodic backup: the scheduler keeps
/// running, and the next tick starts a backup again.
pub proof fn law_failure_does_not_stop_scheduler(s: Scheduler)
    requires
        s.running,
    ensures
        scheduler_step(s, SchedulerEvent::BackupFailed).0 == s,
        scheduler_step(
            scheduler_step(s, SchedulerEvent::BackupFailed).0,
            SchedulerEvent::Tick,
        ).1 == SchedulerAction::RunBackup,
{
}

impl BackupManager {
    /// The scheduler of a backup every `interval_hours` hours. The first
    /// tick is due at once.
    pub fn start_scheduler(&self, interval_hours: u64) -> (scheduler: Scheduler)
        requires
            0 < interval_hours <= MAX_INTERVAL_HOURS,
        ensures
            scheduler.period_secs == interval_hours * SECONDS_PER_HOUR,
            scheduler.running,
    {
        Scheduler { period_secs: interval_hours * SECONDS_PER_HOUR, running: true }
    }
}

} // verus!
