use deet::debugger::{outcome_report, patch_report, trace_report, Debugger, Report};
use deet::inferior::{Inferior, Status};
use deet::unwinder::Backtrace;
use deet::debugger_command::DebuggerCommand;
use deet::simulated::SimulatedProcess;
use deet::symbols::{FunctionSymbol, LineSymbol, SymbolTable};
use deet::tracee::{TraceError, SIGTRAP};
use deet::unwinder::{StackFrame, WalkEnd};

const NOPS: u64 = 0x9090909090909090;

/// `main` holds 0x1000..0x1020 and `helper` 0x1020..0x1040.
fn symbols() -> SymbolTable {
    SymbolTable::new(
        vec![
            FunctionSymbol { name: "main".to_string(), address: 0x1000, length: 0x20 },
            FunctionSymbol { name: "helper".to_string(), address: 0x1020, length: 0x20 },
        ],
        vec![
            LineSymbol { file: "prog.c".to_string(), number: 3, address: 0x1000 },
            LineSymbol { file: "prog.c".to_string(), number: 10, address: 0x1020 },
            LineSymbol { file: "prog.c".to_string(), number: 11, address: 0x1030 },
        ],
    )
}

/// Code from 0x1000 to 0x1040, then a stack whose frame at 0x1060 was
/// called from 0x1005, in `main`.
fn child(exit_code: i32) -> SimulatedProcess {
    let mut words = vec![NOPS; 8];
    words.extend(vec![0u64; 8]);
    words[12] = 0x1070;
    words[13] = 0x1005;
    SimulatedProcess::new(0x1000, words, 0x1000, 0x1040, 0x1060, exit_code).expect("aligned")
}

fn session() -> Debugger<SimulatedProcess> {
    Debugger::new("./prog", symbols())
}

fn breakpoint(spec: &str) -> DebuggerCommand {
    DebuggerCommand::Breakpoint(spec.to_string())
}

fn helper_frame(program_counter: usize) -> StackFrame {
    StackFrame {
        program_counter,
        function_name: "helper".to_string(),
        file: "prog.c".to_string(),
        line: 10,
    }
}

#[test]
fn a_new_session_has_no_process_and_no_breakpoint() {
    let debugger = session();
    assert_eq!(debugger.target_path(), "./prog");
    assert!(!debugger.has_process());
    assert!(debugger.process().is_none());
    assert!(debugger.configured_breakpoints().is_empty());
}

#[test]
fn commands_that_need_a_process_report_that_there_is_none() {
    let mut debugger = session();
    assert_eq!(debugger.run(DebuggerCommand::Contin), Report::NoProcess);
    assert_eq!(debugger.run(DebuggerCommand::Backtrace), Report::NoProcess);
    assert!(!debugger.has_process());
}

#[test]
fn run_hands_the_arguments_back() {
    let mut debugger = session();
    let args = vec!["one".to_string(), "two".to_string()];
    assert_eq!(debugger.run(DebuggerCommand::Run(args.clone())), Report::Launch(args));
    assert!(!debugger.has_process());
}

#[test]
fn a_spawn_that_failed_leaves_no_process() {
    let mut debugger = session();
    assert_eq!(debugger.run(DebuggerCommand::Run(vec![])), Report::Launch(vec![]));
    assert_eq!(debugger.launched(None), Report::SpawnFailed);
    assert!(!debugger.has_process());
    assert_eq!(debugger.run(DebuggerCommand::Contin), Report::NoProcess);
}

#[test]
fn a_breakpoint_that_cannot_be_patched_fails_the_spawn() {
    let mut debugger = session();
    assert!(matches!(debugger.run(breakpoint("*0x9000")), Report::BreakpointSet { .. }));
    assert_eq!(debugger.launched(Some(child(0))), Report::SpawnFailed);
    assert!(!debugger.has_process());
}

#[test]
fn a_target_that_exits_at_once_leaves_no_process() {
    let mut debugger = session();
    assert_eq!(debugger.run(DebuggerCommand::Run(vec![])), Report::Launch(vec![]));
    assert_eq!(debugger.launched(Some(child(0))), Report::Exited(0));
    assert!(!debugger.has_process());
    assert_eq!(debugger.run(DebuggerCommand::Contin), Report::NoProcess);
    assert_eq!(debugger.run(DebuggerCommand::Backtrace), Report::NoProcess);
}

#[test]
fn a_breakpoint_at_a_function_stops_there_once() {
    let mut debugger = session();
    assert_eq!(
        debugger.run(breakpoint("helper")),
        Report::BreakpointSet { address: 0x1020, failed: None }
    );
    assert_eq!(debugger.run(DebuggerCommand::Run(vec![])), Report::Launch(vec![]));
    assert_eq!(
        debugger.launched(Some(child(0))),
        Report::Stopped {
            signal: SIGTRAP,
            program_counter: 0x1021,
            location: Some(helper_frame(0x1021)),
        }
    );
    assert!(debugger.has_process());
    assert_eq!(debugger.run(DebuggerCommand::Contin), Report::Exited(0));
    assert!(!debugger.has_process());
    assert_eq!(debugger.run(DebuggerCommand::Contin), Report::NoProcess);
}

#[test]
fn a_stop_outside_the_symbol_data_has_no_location() {
    let mut debugger: Debugger<SimulatedProcess> =
        Debugger::new("./prog", SymbolTable::new(vec![], vec![]));
    assert_eq!(
        debugger.run(breakpoint("*0x1020")),
        Report::BreakpointSet { address: 0x1020, failed: None }
    );
    assert_eq!(
        debugger.launched(Some(child(0))),
        Report::Stopped { signal: SIGTRAP, program_counter: 0x1021, location: None }
    );
}

#[test]
fn the_call_chain_is_walked_up_to_the_entry_function() {
    let mut debugger = session();
    let _ = debugger.run(breakpoint("helper"));
    let _ = debugger.launched(Some(child(0)));
    match debugger.run(DebuggerCommand::Backtrace) {
        Report::Trace(trace) => {
            assert_eq!(trace.program_counter, 0x1021);
            assert_eq!(trace.end, WalkEnd::Entry);
            assert_eq!(
                trace.frames,
                vec![
                    helper_frame(0x1021),
                    StackFrame {
                        program_counter: 0x1005,
                        function_name: "main".to_string(),
                        file: "prog.c".to_string(),
                        line: 3,
                    },
                ]
            );
        },
        other => panic!("no trace: {:?}", other),
    }
    assert!(debugger.has_process());
    assert_eq!(debugger.run(DebuggerCommand::Contin), Report::Exited(0));
}

#[test]
fn breakpoints_are_named_by_address_line_and_function() {
    let mut debugger = session();
    assert_eq!(
        debugger.run(breakpoint("*0x1004")),
        Report::BreakpointSet { address: 0x1004, failed: None }
    );
    assert_eq!(
        debugger.run(breakpoint("10")),
        Report::BreakpointSet { address: 0x1020, failed: None }
    );
    assert_eq!(
        debugger.run(breakpoint("main")),
        Report::BreakpointSet { address: 0x1000, failed: None }
    );
    assert_eq!(debugger.configured_breakpoints(), &vec![0x1004, 0x1020, 0x1000]);
}

#[test]
fn a_specification_that_names_nothing_is_reported_and_changes_nothing() {
    let mut debugger = session();
    assert_eq!(debugger.run(breakpoint("nowhere")), Report::InvalidBreakpoint);
    assert_eq!(debugger.run(breakpoint("*main")), Report::InvalidBreakpoint);
    assert_eq!(debugger.run(breakpoint("*")), Report::InvalidBreakpoint);
    assert_eq!(debugger.run(breakpoint("99")), Report::InvalidBreakpoint);
    assert!(debugger.configured_breakpoints().is_empty());
    assert_eq!(debugger.resolve("nowhere"), None);
    assert_eq!(debugger.resolve("11"), Some(0x1030));
}

#[test]
fn a_breakpoint_set_while_stopped_is_patched_at_once() {
    let mut debugger = session();
    let _ = debugger.run(breakpoint("*0x1010"));
    assert!(matches!(debugger.launched(Some(child(0))), Report::Stopped { .. }));
    assert_eq!(
        debugger.run(breakpoint("helper")),
        Report::BreakpointSet { address: 0x1020, failed: None }
    );
    let live = debugger.process().expect("stopped at the first breakpoint");
    assert!(live.breakpoint(0x1020).is_some());
    assert!(matches!(
        debugger.run(DebuggerCommand::Contin),
        Report::Stopped { program_counter: 0x1021, .. }
    ));
    assert_eq!(debugger.run(DebuggerCommand::Contin), Report::Exited(0));
}

#[test]
fn a_breakpoint_that_cannot_be_patched_at_once_is_configured_all_the_same() {
    let mut debugger = session();
    let _ = debugger.run(breakpoint("*0x1010"));
    assert!(matches!(debugger.launched(Some(child(0))), Report::Stopped { .. }));
    assert!(matches!(
        debugger.run(breakpoint("*0x9000")),
        Report::BreakpointSet { address: 0x9000, failed: Some(TraceError::Os(_)) }
    ));
    assert!(debugger.has_process());
    assert_eq!(debugger.configured_breakpoints(), &vec![0x1010, 0x9000]);
}

#[test]
fn configured_breakpoints_outlive_every_restart() {
    let mut debugger = session();
    let _ = debugger.run(DebuggerCommand::Run(vec![]));
    assert_eq!(debugger.launched(Some(child(0))), Report::Exited(0));
    let _ = debugger.run(breakpoint("helper"));
    let _ = debugger.run(breakpoint("nowhere"));
    let _ = debugger.run(DebuggerCommand::Run(vec![]));
    assert!(matches!(debugger.launched(Some(child(0))), Report::Stopped { .. }));
    let _ = debugger.run(breakpoint("*0x1030"));
    let _ = debugger.run(DebuggerCommand::Contin);
    let _ = debugger.run(DebuggerCommand::Run(vec![]));
    assert!(!debugger.has_process());
    assert_eq!(debugger.configured_breakpoints(), &vec![0x1020, 0x1030]);
    assert!(matches!(
        debugger.launched(Some(child(0))),
        Report::Stopped { program_counter: 0x1021, .. }
    ));
    let live = debugger.process().expect("stopped");
    assert!(live.breakpoint(0x1020).is_some());
    assert!(live.breakpoint(0x1030).is_some());
    assert!(matches!(
        debugger.run(DebuggerCommand::Contin),
        Report::Stopped { program_counter: 0x1031, .. }
    ));
    assert_eq!(debugger.run(DebuggerCommand::Contin), Report::Exited(0));
    assert_eq!(debugger.configured_breakpoints(), &vec![0x1020, 0x1030]);
}

#[test]
fn quit_ends_the_process() {
    let mut debugger = session();
    let _ = debugger.run(breakpoint("helper"));
    assert!(matches!(debugger.launched(Some(child(0))), Report::Stopped { .. }));
    assert_eq!(debugger.run(DebuggerCommand::Quit), Report::Quit);
    assert!(!debugger.has_process());
    assert_eq!(debugger.run(DebuggerCommand::Quit), Report::Quit);
}

#[test]
fn run_ends_the_process_that_is_there() {
    let mut debugger = session();
    let _ = debugger.run(breakpoint("helper"));
    assert!(matches!(debugger.launched(Some(child(0))), Report::Stopped { .. }));
    assert_eq!(debugger.run(DebuggerCommand::Run(vec![])), Report::Launch(vec![]));
    assert!(!debugger.has_process());
}

#[test]
fn a_nonzero_exit_code_is_reported() {
    let mut debugger = session();
    assert_eq!(debugger.launched(Some(child(3))), Report::Exited(3));
}

#[test]
fn each_outcome_of_a_resume_has_its_report() {
    let table = symbols();
    assert_eq!(
        outcome_report(&table, Ok(Status::Stopped(SIGTRAP, 0x1021))),
        Report::Stopped {
            signal: SIGTRAP,
            program_counter: 0x1021,
            location: Some(helper_frame(0x1021)),
        }
    );
    assert_eq!(
        outcome_report(&table, Ok(Status::Stopped(11, 0x5000))),
        Report::Stopped { signal: 11, program_counter: 0x5000, location: None }
    );
    assert_eq!(outcome_report(&table, Ok(Status::Exited(2))), Report::Exited(2));
    assert_eq!(outcome_report(&table, Ok(Status::Signaled(9))), Report::Signaled(9));
    assert_eq!(
        outcome_report(&table, Err(TraceError::Os(3))),
        Report::Fatal(TraceError::Os(3))
    );
}

#[test]
fn a_walk_and_a_patch_have_their_reports() {
    let trace = Backtrace { program_counter: 7, frames: vec![], end: WalkEnd::NoLine };
    assert_eq!(trace_report(Ok(trace.clone())), Report::Trace(trace));
    assert_eq!(
        trace_report(Err(TraceError::Os(3))),
        Report::TraceFailed(TraceError::Os(3))
    );
    assert_eq!(patch_report(0x10, None), Report::BreakpointSet { address: 0x10, failed: None });
    assert_eq!(
        patch_report(0x10, Some(Ok(()))),
        Report::BreakpointSet { address: 0x10, failed: None }
    );
    assert_eq!(
        patch_report(0x10, Some(Err(TraceError::Os(14)))),
        Report::BreakpointSet { address: 0x10, failed: Some(TraceError::Os(14)) }
    );
}

#[test]
fn a_stopped_child_is_kept_and_an_ended_one_is_let_go() {
    let mut debugger = session();
    let started = Inferior::new(child(0), &vec![]).expect("starts");
    assert!(matches!(
        debugger.settle(started, Ok(Status::Stopped(SIGTRAP, 0x1021))),
        Report::Stopped { signal: SIGTRAP, program_counter: 0x1021, .. }
    ));
    assert!(debugger.has_process());
    let other = Inferior::new(child(0), &vec![]).expect("starts");
    assert_eq!(debugger.settle(other, Ok(Status::Exited(5))), Report::Exited(5));
    assert!(!debugger.has_process());
    let third = Inferior::new(child(0), &vec![]).expect("starts");
    assert_eq!(debugger.settle(third, Ok(Status::Signaled(9))), Report::Signaled(9));
    assert!(!debugger.has_process());
    let fourth = Inferior::new(child(0), &vec![]).expect("starts");
    assert_eq!(
        debugger.settle(fourth, Err(TraceError::Os(3))),
        Report::Fatal(TraceError::Os(3))
    );
    assert!(!debugger.has_process());
}

#[test]
fn a_child_that_is_taken_over_is_resumed_once() {
    let mut debugger = session();
    let started = Inferior::new(child(4), &vec![0x1020]).expect("starts");
    assert!(matches!(
        debugger.adopt(Some(started)),
        Report::Stopped { program_counter: 0x1021, .. }
    ));
    assert!(debugger.has_process());
    assert_eq!(debugger.contin(), Report::Exited(4));
    assert_eq!(debugger.contin(), Report::NoProcess);
    assert_eq!(debugger.adopt(None), Report::SpawnFailed);
    assert!(!debugger.has_process());
}

#[test]
fn dismissing_leaves_no_child() {
    let mut debugger = session();
    debugger.dismiss();
    assert!(!debugger.has_process());
    let _ = debugger.run(breakpoint("helper"));
    assert!(matches!(debugger.launched(Some(child(0))), Report::Stopped { .. }));
    debugger.dismiss();
    assert!(!debugger.has_process());
    assert_eq!(debugger.contin(), Report::NoProcess);
}

#[test]
fn a_breakpoint_is_configured_with_and_without_a_child() {
    let mut debugger = session();
    assert_eq!(debugger.insert_bp(0x1010), Report::BreakpointSet { address: 0x1010, failed: None });
    assert!(matches!(debugger.launched(Some(child(0))), Report::Stopped { .. }));
    assert_eq!(debugger.insert_bp(0x1030), Report::BreakpointSet { address: 0x1030, failed: None });
    assert_eq!(debugger.insert_bp(0x1030), Report::BreakpointSet { address: 0x1030, failed: None });
    assert!(matches!(
        debugger.insert_bp(0x9000),
        Report::BreakpointSet { address: 0x9000, failed: Some(TraceError::Os(_)) }
    ));
    assert_eq!(debugger.configured_breakpoints(), &vec![0x1010, 0x1030, 0x1030, 0x9000]);
    let live = debugger.process().expect("still there");
    assert!(live.breakpoint(0x1030).is_some());
    assert!(live.breakpoint(0x9000).is_none());
}
