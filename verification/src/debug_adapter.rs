use vstd::prelude::*;
use crate::debug::AccessType;

verus! {

/// The state of a debugging session as the debug adapter sees it.
#[derive(Debug, Clone, Copy, PartialEq, Eq, Structural)]
pub enum AdapterState {
    Start,
    Continue,
    StepOver(u64),
    StepIn,
    Finish(u64),
    Finished,
    Break(usize),
    DataBreak(usize, AccessType),
    Pause,
    Quit,
}

/// Why evaluation stopped, as the adapter tells its client.
#[derive(Debug, Clone, Copy, PartialEq, Eq, Structural)]
pub enum StopReason {
    Entry,
    Breakpoint,
    DataBreakpoint,
    Step,
    Pause,
}

/// What the adapter tells its client when evaluation stops before an expression: that the
/// session is initialized, or that it stopped, why, and the breakpoint it hit.
#[derive(Debug, Clone, Copy, PartialEq, Eq, Structural)]
pub enum StopNotice {
    Initialized,
    Stopped { reason: StopReason, hit_breakpoint: Option<usize> },
}

/// Whether evaluation can stop in `state`: it does not stop while it runs on or quits.
pub open spec fn can_stop(state: AdapterState) -> bool {
    !(state is Continue || state is Finish || state is Quit)
}

/// What the adapter tells when evaluation stops in `state`: at the start, that the session is
/// initialized; else the reason: a breakpoint or a data breakpoint with its identifier, a
/// step, or a pause.
pub open spec fn stop_notice_spec(state: AdapterState) -> StopNotice {
    match state {
        AdapterState::Start => StopNotice::Initialized,
        AdapterState::Break(b) => StopNotice::Stopped { reason: StopReason::Breakpoint, hit_breakpoint: Some(b) },
        AdapterState::DataBreak(b, _) => StopNotice::Stopped {
            reason: StopReason::DataBreakpoint,
            hit_breakpoint: Some(b),
        },
        AdapterState::Pause => StopNotice::Stopped { reason: StopReason::Pause, hit_breakpoint: None },
        _ => StopNotice::Stopped { reason: StopReason::Step, hit_breakpoint: None },
    }
}

/// The notice that the adapter sends when evaluation stops in `state`.
pub fn stop_notice(state: AdapterState) -> (r: StopNotice)
    requires
        can_stop(state),
    ensures
        r == stop_notice_spec(state),
{
    match state {
        AdapterState::Start => StopNotice::Initialized,
        AdapterState::Break(b) => StopNotice::Stopped { reason: StopReason::Breakpoint, hit_breakpoint: Some(b) },
        AdapterState::DataBreak(b, _) => StopNotice::Stopped {
            reason: StopReason::DataBreakpoint,
            hit_breakpoint: Some(b),
        },
        AdapterState::Pause => StopNotice::Stopped { reason: StopReason::Pause, hit_breakpoint: None },
        _ => StopNotice::Stopped { reason: StopReason::Step, hit_breakpoint: None },
    }
}

} // verus!
