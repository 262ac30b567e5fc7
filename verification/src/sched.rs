//! Redraw scheduler state machine.

use vstd::prelude::*;

verus! {

/// The scheduler's two states. It starts out running; the only transition
/// is to the terminated state on a fatal error, and that state is final.
#[derive(Clone, Copy, Debug, PartialEq, Eq, Structural)]
pub enum SchedState {
    Running,
    Terminated,
}

/// One transition of the redraw scheduler: a fatal condition (a failed
/// target registration or a terminal write failure) terminates it; without
/// one the state stays as it is. No transition leaves the terminated state.
pub fn sched_step(state: SchedState, fatal_error: bool) -> (next: SchedState)
    ensures
        next == if fatal_error {
            SchedState::Terminated
        } else {
            state
        },
        state == SchedState::Terminated ==> next == SchedState::Terminated,
{
    if fatal_error {
        SchedState::Terminated
    } else {
        state
    }
}

} // verus!
