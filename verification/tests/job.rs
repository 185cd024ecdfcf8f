use shell_engine::job::{job_step, JobAction, JobEvent, JobState};

#[test]
fn a_job_that_ends_is_drained() {
    let (state, action) = job_step(JobState::Idle, JobEvent::Launched);
    assert_eq!((state, action), (JobState::Running, JobAction::Poll));
    let (state, action) = job_step(state, JobEvent::StillRunning);
    assert_eq!((state, action), (JobState::Running, JobAction::Poll));
    let (state, action) = job_step(state, JobEvent::Exited);
    assert_eq!((state, action), (JobState::Completed, JobAction::Drain));
    let (state, action) = job_step(state, JobEvent::Drained);
    assert_eq!((state, action), (JobState::Idle, JobAction::Rest));
}

#[test]
fn an_interrupted_job_is_signalled_and_reaped() {
    let (state, _) = job_step(JobState::Idle, JobEvent::Launched);
    let (state, action) = job_step(state, JobEvent::Interrupted);
    assert_eq!((state, action), (JobState::Killed, JobAction::SignalGroupAndReap));
    let (state, action) = job_step(state, JobEvent::Reaped);
    assert_eq!((state, action), (JobState::Idle, JobAction::Rest));
}

#[test]
fn an_interrupt_leaves_an_idle_shell_alone() {
    assert_eq!(
        job_step(JobState::Idle, JobEvent::Interrupted),
        (JobState::Idle, JobAction::Rest)
    );
}

#[test]
fn events_that_do_not_fit_change_nothing() {
    let states = [JobState::Idle, JobState::Running, JobState::Completed, JobState::Killed];
    let events = [
        JobEvent::Launched,
        JobEvent::StillRunning,
        JobEvent::Exited,
        JobEvent::Interrupted,
        JobEvent::Drained,
        JobEvent::Reaped,
    ];
    let fitting = [
        (JobState::Idle, JobEvent::Launched),
        (JobState::Running, JobEvent::StillRunning),
        (JobState::Running, JobEvent::Exited),
        (JobState::Running, JobEvent::Interrupted),
        (JobState::Completed, JobEvent::Drained),
        (JobState::Killed, JobEvent::Reaped),
    ];
    for state in states {
        for event in events {
            if !fitting.contains(&(state, event)) {
                assert_eq!(job_step(state, event), (state, JobAction::Rest));
            }
        }
    }
}

#[test]
fn a_killed_job_is_not_drained() {
    assert_eq!(job_step(JobState::Killed, JobEvent::Exited), (JobState::Killed, JobAction::Rest));
    assert_eq!(
        job_step(JobState::Killed, JobEvent::Drained),
        (JobState::Killed, JobAction::Rest)
    );
}
