use clarity_repl::debug::State;
use clarity_repl::debug::{
    AccessType, Breakpoint, BreakpointData, ContractInfo, DebugEnv, DebugState, FunctionBreakpoint, Reply,
    Source,
};
use clarity_repl::diagnostic::red;
use clarity_repl::representations::{QualifiedContractIdentifier, Span, StandardPrincipalData};

fn contract(name: &str) -> QualifiedContractIdentifier {
    QualifiedContractIdentifier {
        issuer: StandardPrincipalData {
            address: "S1G2081040G2081040G2081040G208105NK8PE5".to_string(),
        },
        name: name.to_string(),
    }
}

fn env() -> DebugEnv {
    DebugEnv {
        contract_identifier: contract("foo"),
        contracts: vec![
            ContractInfo {
                contract_identifier: contract("foo"),
                source: None,
                functions: vec![(
                    "take-action".to_string(),
                    Span {
                        start_line: 2,
                        start_column: 3,
                        end_line: 4,
                        end_column: 5,
                    },
                )],
                variables: vec!["counter".to_string()],
                maps: vec![],
            },
            ContractInfo {
                contract_identifier: contract("bar"),
                source: None,
                functions: vec![],
                variables: vec![],
                maps: vec!["total".to_string()],
            },
        ],
    }
}

fn wait_lines(r: Reply) -> Vec<String> {
    match r {
        Reply::Wait(lines) => lines,
        _ => panic!("the debugger did not wait"),
    }
}

#[test]
fn no_breakpoints_at_first() {
    let mut d = DebugState::new();
    let out = wait_lines(d.handle_command("b list", &env(), 0, false));
    assert_eq!(out, vec!["No breakpoints set.".to_string()]);
    let out = wait_lines(d.handle_command("w l", &env(), 0, false));
    assert_eq!(out, vec!["No watchpoints set.".to_string()]);
}

#[test]
fn source_breakpoint_is_listed_and_deleted() {
    let mut d = DebugState::new();
    wait_lines(d.handle_command("b :3", &env(), 0, false));
    wait_lines(d.handle_command("b .bar:7:2", &env(), 0, false));
    let out = wait_lines(d.handle_command("b list", &env(), 0, false));
    assert_eq!(
        out,
        vec![
            "1: S1G2081040G2081040G2081040G208105NK8PE5.foo:3".to_string(),
            "2: S1G2081040G2081040G2081040G208105NK8PE5.bar:7:2".to_string(),
        ]
    );
    let out = wait_lines(d.handle_command("b delete 1", &env(), 0, false));
    assert_eq!(out, vec!["breakpoint deleted".to_string()]);
    let out = wait_lines(d.handle_command("b del 1", &env(), 0, false));
    assert_eq!(
        out,
        vec![format!("{}: '1' is not a currently valid breakpoint id", red("error"))]
    );
    let out = wait_lines(d.handle_command("b l", &env(), 0, false));
    assert_eq!(
        out,
        vec!["2: S1G2081040G2081040G2081040G208105NK8PE5.bar:7:2".to_string()]
    );
}

#[test]
fn function_breakpoint_is_listed() {
    let mut d = DebugState::new();
    wait_lines(d.handle_command("b take-action", &env(), 0, false));
    let out = wait_lines(d.handle_command("b l", &env(), 0, false));
    assert_eq!(
        out,
        vec!["1: S1G2081040G2081040G2081040G208105NK8PE5.foo.take-action".to_string()]
    );
}

#[test]
fn watchpoint_is_listed_with_its_access() {
    let mut d = DebugState::new();
    wait_lines(d.handle_command("rw counter", &env(), 0, false));
    wait_lines(d.handle_command("aw .bar.total", &env(), 0, false));
    let out = wait_lines(d.handle_command("w list", &env(), 0, false));
    assert_eq!(
        out,
        vec![
            "1: S1G2081040G2081040G2081040G208105NK8PE5.foo.counter (r)".to_string(),
            "2: S1G2081040G2081040G2081040G208105NK8PE5.bar.total (rw)".to_string(),
        ]
    );
}

#[test]
fn unknown_function_is_refused() {
    let mut d = DebugState::new();
    let out = wait_lines(d.handle_command("b missing", &env(), 0, false));
    assert_eq!(out, vec![format!("{}: no such function", red("error"))]);
    let out = wait_lines(d.handle_command("b l", &env(), 0, false));
    assert_eq!(out, vec!["No breakpoints set.".to_string()]);
}

#[test]
fn continue_resumes() {
    let mut d = DebugState::new();
    assert!(matches!(d.handle_command("c", &env(), 0, false), Reply::Resume));
    assert!(matches!(d.handle_command("continue", &env(), 0, false), Reply::Resume));
}

#[test]
fn help_prints_the_commands() {
    let mut d = DebugState::new();
    let out = wait_lines(d.handle_command("help", &env(), 0, false));
    assert_eq!(out.len(), 1);
    assert!(out[0].starts_with("Debugger commands:"));
    let out = wait_lines(d.handle_command("h b", &env(), 0, false));
    assert!(out[0].starts_with("Set a breakpoint using 'b' or 'break'"));
}

#[test]
fn delete_undoes_add_on_a_breakpoint() {
    let mut d = DebugState::new();
    let id = d.add_breakpoint(Breakpoint {
        id: 0,
        verified: true,
        data: BreakpointData::Function(FunctionBreakpoint {
            name: "f".to_string(),
        }),
        source: Source { name: contract("foo") },
        span: None,
    });
    assert_eq!(id, 1);
    assert!(d.delete_breakpoint(id));
    assert!(!d.delete_breakpoint(id));
    let out = wait_lines(d.handle_command("b l", &env(), 0, false));
    assert_eq!(out, vec!["No breakpoints set.".to_string()]);
    let _ = AccessType::Read;
}

#[test]
fn source_breakpoints_of_a_file() {
    let mut d = DebugState::new();
    let requested = vec![(3u32, None, None), (5u32, Some(2u32), Some("here".to_string()))];
    let set = d.set_source_breakpoints(&contract("foo"), &requested);
    assert_eq!(set, vec![(1usize, 3u32, None, None), (2usize, 5u32, Some(2u32), Some("here".to_string()))]);
    let out = wait_lines(d.handle_command("b l", &env(), 0, false));
    assert_eq!(
        out,
        vec![
            "1: S1G2081040G2081040G2081040G208105NK8PE5.foo:3".to_string(),
            "2: S1G2081040G2081040G2081040G208105NK8PE5.foo:5:2".to_string(),
        ]
    );
    d.delete_all_breakpoints();
    let out = wait_lines(d.handle_command("b l", &env(), 0, false));
    assert_eq!(out, vec!["No breakpoints set.".to_string()]);
}

#[test]
fn stepping_changes_the_state() {
    let mut d = DebugState::new();
    d.step_over(7);
    assert_eq!(d.get_state(), State::StepOver(7));
    d.step_in();
    assert_eq!(d.get_state(), State::StepIn);
    d.finish();
    assert_eq!(d.get_state(), State::Continue);
    d.quit();
    assert_eq!(d.get_state(), State::Quit);
    d.continue_execution();
    assert_eq!(d.get_state(), State::Continue);
    d.delete_all_watchpoints();
    let out = wait_lines(d.handle_command("w l", &env(), 0, false));
    assert_eq!(out, vec!["No watchpoints set.".to_string()]);
}
