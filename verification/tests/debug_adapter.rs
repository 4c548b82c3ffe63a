use clarity_repl::debug::{AccessType, ExprState};
use clarity_repl::debug_adapter::{stop_notice, AdapterState, StopNotice, StopReason};

#[test]
fn the_adapter_tells_why_evaluation_stopped() {
    assert_eq!(stop_notice(AdapterState::Start), StopNotice::Initialized);
    assert_eq!(
        stop_notice(AdapterState::Break(3)),
        StopNotice::Stopped { reason: StopReason::Breakpoint, hit_breakpoint: Some(3) }
    );
    assert_eq!(
        stop_notice(AdapterState::DataBreak(4, AccessType::Write)),
        StopNotice::Stopped { reason: StopReason::DataBreakpoint, hit_breakpoint: Some(4) }
    );
    assert_eq!(
        stop_notice(AdapterState::StepOver(7)),
        StopNotice::Stopped { reason: StopReason::Step, hit_breakpoint: None }
    );
    assert_eq!(
        stop_notice(AdapterState::Finished),
        StopNotice::Stopped { reason: StopReason::Step, hit_breakpoint: None }
    );
    assert_eq!(
        stop_notice(AdapterState::Pause),
        StopNotice::Stopped { reason: StopReason::Pause, hit_breakpoint: None }
    );
}

#[test]
fn expression_states_are_equal_by_their_expression() {
    let a = ExprState::new(3);
    let b = ExprState { id: 3, active_breakpoints: vec![1, 2] };
    let c = ExprState::new(4);
    assert!(a == b);
    assert!(a != c);
}
