use pingtool::sched::sched_step;
use pingtool::sched::SchedState;

#[test]
fn running_stays_running_without_error() {
    assert_eq!(sched_step(SchedState::Running, false), SchedState::Running);
}

#[test]
fn fatal_error_terminates() {
    assert_eq!(sched_step(SchedState::Running, true), SchedState::Terminated);
}

#[test]
fn terminated_is_final() {
    assert_eq!(sched_step(SchedState::Terminated, false), SchedState::Terminated);
    assert_eq!(sched_step(SchedState::Terminated, true), SchedState::Terminated);
}
