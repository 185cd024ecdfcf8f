//! The life of the foreground job, and how an interrupt ends it.
//!
//! The job runs in a process group of its own, so that a signal sent to
//! the group reaches the job and its descendants and never the shell.

use vstd::prelude::*;

verus! {

/// Where the foreground job stands.
#[derive(Debug, Clone, Copy, PartialEq, Eq, Structural)]
pub enum JobState {
    /// No job runs.
    Idle,
    /// The job runs and is being watched.
    Running,
    /// The job has ended by itself; its output is still to be collected.
    Completed,
    /// The job was interrupted; its group is being signalled and reaped.
    Killed,
}

/// What the caller observed.
#[derive(Debug, Clone, Copy, PartialEq, Eq, Structural)]
pub enum JobEvent {
    /// The job was started.
    Launched,
    /// A look at the job found it still running.
    StillRunning,
    /// A look at the job found that it has ended.
    Exited,
    /// The user asked for the job to stop.
    Interrupted,
    /// The job's output has been collected.
    Drained,
    /// The job's processes have been waited for.
    Reaped,
}

/// What the caller is to do next.
#[derive(Debug, Clone, Copy, PartialEq, Eq, Structural)]
pub enum JobAction {
    /// Nothing.
    Rest,
    /// Wait a short while, then look at the job without blocking.
    Poll,
    /// Collect what the job wrote.
    Drain,
    /// Send the termination signal to the job's process group, then wait
    /// for its processes.
    SignalGroupAndReap,
}

/// The state after an event, and what to do.
///
/// A job is watched from its start until it ends or is interrupted. One
/// that ends has its output collected; one that is interrupted has its
/// whole group signalled and is waited for. Either way the shell is idle
/// again afterwards. An event that does not fit the state changes nothing.
pub open spec fn job_step_spec(state: JobState, event: JobEvent) -> (JobState, JobAction) {
    match (state, event) {
        (JobState::Idle, JobEvent::Launched) => (JobState::Running, JobAction::Poll),
        (JobState::Running, JobEvent::StillRunning) => (JobState::Running, JobAction::Poll),
        (JobState::Running, JobEvent::Exited) => (JobState::Completed, JobAction::Drain),
        (JobState::Running, JobEvent::Interrupted) => (
            JobState::Killed,
            JobAction::SignalGroupAndReap,
        ),
        (JobState::Completed, JobEvent::Drained) => (JobState::Idle, JobAction::Rest),
        (JobState::Killed, JobEvent::Reaped) => (JobState::Idle, JobAction::Rest),
        _ => (state, JobAction::Rest),
    }
}

/// Takes an event and gives the next state and what to do.
pub fn job_step(state: JobState, event: JobEvent) -> (r: (JobState, JobAction))
    ensures
        r == job_step_spec(state, event),
{
    match (state, event) {
        (JobState::Idle, JobEvent::Launched) => (JobState::Running, JobAction::Poll),
        (JobState::Running, JobEvent::StillRunning) => (JobState::Running, JobAction::Poll),
        (JobState::Running, JobEvent::Exited) => (JobState::Completed, JobAction::Drain),
        (JobState::Running, JobEvent::Interrupted) => (
            JobState::Killed,
            JobAction::SignalGroupAndReap,
        ),
        (JobState::Completed, JobEvent::Drained) => (JobState::Idle, JobAction::Rest),
        (JobState::Killed, JobEvent::Reaped) => (JobState::Idle, JobAction::Rest),
        _ => (state, JobAction::Rest),
    }
}

/// An interrupt never disturbs a shell that runs no job, and always stops
/// a job that runs: the group is signalled and reaped.
pub proof fn lemma_interrupt(state: JobState)
    ensures
        state == JobState::Idle ==> job_step_spec(state, JobEvent::Interrupted) == (
            JobState::Idle,
            JobAction::Rest,
        ),
        state == JobState::Running ==> job_step_spec(state, JobEvent::Interrupted) == (
            JobState::Killed,
            JobAction::SignalGroupAndReap,
        ),
{
}

/// The only ways back to idle are a job that ended and was drained, and a
/// job that was killed and was reaped.
pub proof fn lemma_back_to_idle(state: JobState, event: JobEvent)
    requires
        state != JobState::Idle,
        job_step_spec(state, event).0 == JobState::Idle,
    ensures
        (state == JobState::Completed && event == JobEvent::Drained) || (state == JobState::Killed
            && event == JobEvent::Reaped),
{
}

/// A job is signalled only because of an interrupt while it runs, and it is
/// then in the killed state.
pub proof fn lemma_signal_only_on_interrupt(state: JobState, event: JobEvent)
    requires
        job_step_spec(state, event).1 == JobAction::SignalGroupAndReap,
    ensures
        state == JobState::Running,
        event == JobEvent::Interrupted,
        job_step_spec(state, event).0 == JobState::Killed,
{
}

} // verus!
