//! The reconciliation scheduler, modelled as an explicit state machine.
//!
//! The scheduler drives one long-lived loop: on each tick it runs a
//! reconciliation pass and a snapshot ingestion, then sleeps for a fixed
//! interval. An external cancellation signal moves it to a shutdown phase,
//! in which a final state capture is performed before termination; in-flight
//! removal calls are abandoned, never drained. The surrounding process
//! performs the actual sleeping, listing and removing; this module decides,
//! from the current phase and an observed event, the next phase and the
//! action the process must perform.

use vstd::prelude::*;

verus! {

/// The phase of the scheduler's lifecycle.
#[derive(Clone, Copy, Debug, PartialEq, Eq, Structural)]
pub enum SchedulerPhase {
    /// Constructed, not yet started.
    Idle,
    /// A reconciliation pass and snapshot ingestion are in progress.
    RunningTick,
    /// Waiting out the fixed interval between ticks.
    Sleeping,
    /// A cancellation signal was observed; the final state capture runs now.
    ShuttingDown,
    /// The lifecycle is over; no further event has any effect.
    Terminated,
}

/// An event observed by the scheduler loop.
#[derive(Clone, Copy, Debug, PartialEq, Eq, Structural)]
pub enum SchedulerEvent {
    /// The process asks the scheduler to begin its loop.
    Started,
    /// The current tick's pass and ingestion have both finished.
    TickFinished,
    /// The fixed interval has elapsed.
    SleepElapsed,
    /// An external cancellation signal was observed.
    CancelSignal,
    /// The final state capture after cancellation has finished.
    FinalCaptureDone,
}

/// The action the surrounding process must perform after a transition.
#[derive(Clone, Copy, Debug, PartialEq, Eq, Structural)]
pub enum SchedulerAction {
    /// Run a reconciliation pass and a snapshot ingestion.
    BeginTick,
    /// Sleep for the given number of seconds.
    BeginSleep(u64),
    /// Capture the final state (e.g. the last known snapshot) and report it.
    CaptureFinalState,
    /// Exit the loop.
    Exit,
    /// Do nothing; the event does not apply in the current phase.
    Ignore,
}

/// The interval the reference configuration sleeps between ticks.
pub const DEFAULT_INTERVAL_SECS: u64 = 10;

/// The complete transition table of the scheduler.
///
/// A cancellation signal wins in every live phase, including mid-tick: the
/// tick is abandoned, not drained. `Terminated` is absorbing.
pub open spec fn spec_step(
    phase: SchedulerPhase,
    event: SchedulerEvent,
    interval_secs: u64,
) -> (SchedulerPhase, SchedulerAction) {
    match (phase, event) {
        (SchedulerPhase::Terminated, _) => (SchedulerPhase::Terminated, SchedulerAction::Ignore),
        (_, SchedulerEvent::CancelSignal) => (
            SchedulerPhase::ShuttingDown,
            SchedulerAction::CaptureFinalState,
        ),
        (SchedulerPhase::Idle, SchedulerEvent::Started) => (
            SchedulerPhase::RunningTick,
            SchedulerAction::BeginTick,
        ),
        (SchedulerPhase::RunningTick, SchedulerEvent::TickFinished) => (
            SchedulerPhase::Sleeping,
            SchedulerAction::BeginSleep(interval_secs),
        ),
        (SchedulerPhase::Sleeping, SchedulerEvent::SleepElapsed) => (
            SchedulerPhase::RunningTick,
            SchedulerAction::BeginTick,
        ),
        (SchedulerPhase::ShuttingDown, SchedulerEvent::FinalCaptureDone) => (
            SchedulerPhase::Terminated,
            SchedulerAction::Exit,
        ),
        (p, _) => (p, SchedulerAction::Ignore),
    }
}

/// A scheduler with its configured inter-tick interval.
pub struct Scheduler {
    pub phase: SchedulerPhase,
    pub interval_secs: u64,
}

impl Scheduler {
    /// A scheduler that has not started yet.
    pub fn new(interval_secs: u64) -> (s: Scheduler)
        ensures
            s.phase == SchedulerPhase::Idle,
            s.interval_secs == interval_secs,
    {
        Scheduler { phase: SchedulerPhase::Idle, interval_secs }
    }

    /// Feed one observed event; the scheduler moves to the next phase and
    /// returns the action the caller must perform.
    pub fn step(&mut self, event: SchedulerEvent) -> (action: SchedulerAction)
        ensures
            (final(self).phase, action) == spec_step(
                old(self).phase,
                event,
                old(self).interval_secs,
            ),
            final(self).interval_secs == old(self).interval_secs,
    {
        let (next, action) = match (self.phase, event) {
            (SchedulerPhase::Terminated, _) => (
                SchedulerPhase::Terminated,
                SchedulerAction::Ignore,
            ),
            (_, SchedulerEvent::CancelSignal) => (
                SchedulerPhase::ShuttingDown,
                SchedulerAction::CaptureFinalState,
            ),
            (SchedulerPhase::Idle, SchedulerEvent::Started) => (
                SchedulerPhase::RunningTick,
                SchedulerAction::BeginTick,
            ),
            (SchedulerPhase::RunningTick, SchedulerEvent::TickFinished) => (
                SchedulerPhase::Sleeping,
                SchedulerAction::BeginSleep(self.interval_secs),
            ),
            (SchedulerPhase::Sleeping, SchedulerEvent::SleepElapsed) => (
                SchedulerPhase::RunningTick,
                SchedulerAction::BeginTick,
            ),
            (SchedulerPhase::ShuttingDown, SchedulerEvent::FinalCaptureDone) => (
                SchedulerPhase::Terminated,
                SchedulerAction::Exit,
            ),
            (p, _) => (p, SchedulerAction::Ignore),
        };
        self.phase = next;
        action
    }
}

/// A cancellation signal always moves a live scheduler into `ShuttingDown`,
/// whatever it was doing; an in-flight tick is abandoned.
pub proof fn lemma_cancel_always_honoured(phase: SchedulerPhase, interval_secs: u64)
    requires
        phase != SchedulerPhase::Terminated,
    ensures
        spec_step(phase, SchedulerEvent::CancelSignal, interval_secs).0
            == SchedulerPhase::ShuttingDown,
        spec_step(phase, SchedulerEvent::CancelSignal, interval_secs).1
            == SchedulerAction::CaptureFinalState,
{
}

/// `Terminated` is absorbing: no event restarts a terminated scheduler.
pub proof fn lemma_terminated_is_absorbing(event: SchedulerEvent, interval_secs: u64)
    ensures
        spec_step(SchedulerPhase::Terminated, event, interval_secs).0
            == SchedulerPhase::Terminated,
        spec_step(SchedulerPhase::Terminated, event, interval_secs).1
            == SchedulerAction::Ignore,
{
}

} // verus!
