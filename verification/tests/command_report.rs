use deet::command::DebuggerCommand;
use deet::dwarf::{DebugInfo, FunctionSym, LineRow};
use deet::report::{
    frame_report, is_main_frame, signal_name, source_line_report, status_message, stop_report,
    var_report,
};
use deet::session::{next_should_stop, Status};

fn nested_info() -> DebugInfo {
    // main calls g, g calls f; each function starts a new source line region
    DebugInfo {
        files: vec!["deep.c".to_string()],
        functions: vec![
            FunctionSym {
                name: "main".to_string(),
                file: "deep.c".to_string(),
                line_number: 12,
                addr: 0x400100,
            },
            FunctionSym {
                name: "g".to_string(),
                file: "deep.c".to_string(),
                line_number: 7,
                addr: 0x400200,
            },
            FunctionSym {
                name: "f".to_string(),
                file: "deep.c".to_string(),
                line_number: 2,
                addr: 0x400300,
            },
        ],
        lines: vec![
            LineRow { addr: 0x400100, file: "deep.c".to_string(), number: 12 },
            LineRow { addr: 0x400200, file: "deep.c".to_string(), number: 7 },
            LineRow { addr: 0x400300, file: "deep.c".to_string(), number: 2 },
        ],
        variables: Vec::new(),
    }
}

#[test]
fn tokens_to_commands() {
    assert!(matches!(
        DebuggerCommand::from_tokens(&vec!["q"]),
        Some(DebuggerCommand::Quit)
    ));
    assert!(matches!(
        DebuggerCommand::from_tokens(&vec!["quit"]),
        Some(DebuggerCommand::Quit)
    ));
    match DebuggerCommand::from_tokens(&vec!["r", "a", "b"]) {
        Some(DebuggerCommand::Run(args)) => assert_eq!(args, vec!["a", "b"]),
        _ => panic!("expected run"),
    }
    assert!(matches!(
        DebuggerCommand::from_tokens(&vec!["cont"]),
        Some(DebuggerCommand::Continue)
    ));
    assert!(matches!(
        DebuggerCommand::from_tokens(&vec!["bt"]),
        Some(DebuggerCommand::Backtrace)
    ));
    assert!(matches!(
        DebuggerCommand::from_tokens(&vec!["n"]),
        Some(DebuggerCommand::Next)
    ));
    match DebuggerCommand::from_tokens(&vec!["b", "main"]) {
        Some(DebuggerCommand::Break(arg)) => assert_eq!(arg, "main"),
        _ => panic!("expected break"),
    }
    // the break argument concatenates every remaining token
    match DebuggerCommand::from_tokens(&vec!["break", "*0x40", "05b8"]) {
        Some(DebuggerCommand::Break(arg)) => assert_eq!(arg, "*0x4005b8"),
        _ => panic!("expected break"),
    }
    match DebuggerCommand::from_tokens(&vec!["p", "x"]) {
        Some(DebuggerCommand::Print(name)) => assert_eq!(name, "x"),
        _ => panic!("expected print"),
    }
    match DebuggerCommand::from_tokens(&vec!["nb", "\u{7b2c}", "10", "\u{884c}"]) {
        Some(DebuggerCommand::NaturalBreak(text)) => {
            assert_eq!(text, "\u{7b2c} 10 \u{884c}")
        },
        _ => panic!("expected natural break"),
    }
    assert!(DebuggerCommand::from_tokens(&vec!["b"]).is_none());
    assert!(DebuggerCommand::from_tokens(&vec!["p"]).is_none());
    assert!(DebuggerCommand::from_tokens(&vec!["nb"]).is_none());
    assert!(DebuggerCommand::from_tokens(&vec!["frobnicate"]).is_none());
}

#[test]
fn next_stop_decision() {
    // the next command stops only on a known, different line
    assert!(!next_should_stop(Some(7), Some(7)));
    assert!(!next_should_stop(Some(7), None));
    assert!(next_should_stop(Some(7), Some(8)));
    assert!(next_should_stop(None, Some(3)));
    assert!(!next_should_stop(None, None));
}

#[test]
fn next_steps_over_a_call() {
    // main calls f() on line 7; f's body carries no line records, so the
    // walk keeps stepping through it and stops on line 8, not inside f
    let info = DebugInfo {
        files: vec!["call.c".to_string()],
        functions: vec![FunctionSym {
            name: "main".to_string(),
            file: "call.c".to_string(),
            line_number: 7,
            addr: 0x400100,
        }],
        lines: vec![
            LineRow { addr: 0x400100, file: "call.c".to_string(), number: 7 },
            LineRow { addr: 0x400130, file: "call.c".to_string(), number: 8 },
        ],
        variables: Vec::new(),
    };
    let start_line = info.line_from_addr(0x400100).map(|l| l.number);
    assert_eq!(start_line, Some(7));
    // single-step trace: into f (below every line row), through it, back out
    let trace = [0x50usize, 0x58, 0x60, 0x400110, 0x400130];
    let mut stopped_at = None;
    for rip in trace {
        let new_line = info.line_from_addr(rip).map(|l| l.number);
        if next_should_stop(start_line, new_line) {
            stopped_at = Some(rip);
            break;
        }
    }
    assert_eq!(stopped_at, Some(0x400130));
    assert_eq!(info.line_from_addr(0x400130).unwrap().number, 8);
}

#[test]
fn stop_report_on_main() {
    // a breakpoint on main's first line reports function and position
    let info = DebugInfo {
        files: vec!["hello.c".to_string()],
        functions: vec![FunctionSym {
            name: "main".to_string(),
            file: "hello.c".to_string(),
            line_number: 3,
            addr: 0x4005b0,
        }],
        lines: vec![LineRow { addr: 0x4005b0, file: "hello.c".to_string(), number: 3 }],
        variables: Vec::new(),
    };
    let addr = info.addr_for_function("main").unwrap();
    assert_eq!(addr, 0x4005b0);
    assert_eq!(info.addr_for_line(3), Some(0x4005b0));
    assert_eq!(info.addr_for_line(99), None);
    // the trap reports rip one byte past the planted opcode
    assert_eq!(stop_report(&info, addr + 1), "Stopped at main hello.c:3");
    assert_eq!(stop_report(&info, 0x10), "Stopped at 0x10");
    assert_eq!(source_line_report(3, "int x = 42;"), "3    int x = 42;");
    assert_eq!(source_line_report(12345, "x"), "12345 x");
}

#[test]
fn backtrace_three_frames_ends_at_main() {
    let info = nested_info();
    // stopped inside f, with return addresses inside g and main
    let rips = [0x400310usize, 0x400210, 0x400110];
    let mut reports = Vec::new();
    let mut ended_at_main = false;
    for rip in rips {
        reports.push(frame_report(&info, rip));
        if is_main_frame(&info, rip) {
            ended_at_main = true;
            break;
        }
    }
    assert_eq!(reports.len(), 3);
    assert!(ended_at_main);
    assert_eq!(reports[0], "f: deep.c:2");
    assert_eq!(reports[1], "g: deep.c:7");
    assert_eq!(reports[2], "main: deep.c:12");
    assert!(!is_main_frame(&info, 0x400310));
    assert_eq!(frame_report(&info, 0x10), "0x10");
}

#[test]
fn variable_report_wording() {
    assert_eq!(var_report("x", 42, "int"), "x = 42 (int)");
    assert_eq!(var_report("big", 0xffff_ffff_ffff_ffff, "long"), "big = 18446744073709551615 (long)");
}

#[test]
fn status_wording() {
    assert_eq!(status_message(&Status::Exited(0)), "Child exited (status 0)");
    assert_eq!(status_message(&Status::Exited(-1)), "Child exited (status -1)");
    assert_eq!(status_message(&Status::Signaled(9)), "Child exited (signal SIGKILL)");
    assert_eq!(
        status_message(&Status::Stopped(5, 0x1000)),
        "Child stopped (signal SIGTRAP)"
    );
    assert_eq!(signal_name(11), "SIGSEGV");
    assert_eq!(signal_name(77), "77");
}
