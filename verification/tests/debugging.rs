use bruto_ide::debugger::{
    flush_failed, launch_failed, parse_exit_code, parse_frame_location, write_failed, DebugEvent,
    DebugState, Debugger, OutputLine, SessionAction,
};
use bruto_ide::variable::VarType;

fn line(text: &str) -> OutputLine {
    OutputLine { text: text.to_string(), decimals: None }
}

fn started(lines: &[usize]) -> Debugger {
    let mut d = Debugger::new();
    let steps = d.start("/tmp/prog", "/tmp/demo.pas", lines, None);
    for step in &steps {
        d.step_done(step);
    }
    d
}

fn sent(steps: &[SessionAction]) -> Vec<String> {
    steps
        .iter()
        .filter_map(|s| match s {
            SessionAction::Send(l) | SessionAction::Run(l) => Some(l.clone()),
            SessionAction::SetBreakpoint { command, .. } => Some(command.clone()),
            _ => None,
        })
        .collect()
}

#[test]
fn frame_locations() {
    assert_eq!(
        parse_frame_location("    frame #0: 0x1 prog`main at demo.pas:12:5"),
        Some(("demo.pas".to_string(), 12))
    );
    assert_eq!(parse_frame_location("frame #0: dyld`start"), None);
    assert_eq!(parse_frame_location("x at demo.pas"), None);
    assert_eq!(parse_frame_location("x at demo.pas:y"), None);
}

#[test]
fn exit_codes() {
    assert_eq!(parse_exit_code("Process 1 exited with status = 3 (0x00000003)"), Some(3));
    assert_eq!(parse_exit_code("exited with status = -1"), Some(-1));
    assert_eq!(parse_exit_code("exited with status = x"), None);
    assert_eq!(parse_exit_code("exited"), None);
}

#[test]
fn start_sets_breakpoints_by_file_name() {
    let mut d = Debugger::new();
    assert!(!d.is_running());
    let steps = d.start("/tmp/prog", "/src/dir/demo.pas", &[3, 7], None);
    assert_eq!(
        sent(&steps),
        vec![
            "settings set auto-confirm true\n",
            "breakpoint set --file demo.pas --line 3\n",
            "breakpoint set --file demo.pas --line 7\n",
            "version\n",
            "run\n",
        ]
    );
    match &steps[1] {
        SessionAction::Launch(words) => {
            assert_eq!(words, &vec!["lldb", "--no-use-colors", "/tmp/prog"])
        }
        _ => panic!("no launch"),
    }
    for step in &steps {
        d.step_done(step);
    }
    assert!(d.is_running());
    assert!(!d.is_paused());
    assert!(matches!(d.state(), DebugState::Running));
}

#[test]
fn start_without_breakpoints_stops_in_main() {
    let mut d = Debugger::new();
    let steps = d.start("/tmp/prog", "demo.pas", &[], None);
    assert!(sent(&steps).contains(&"breakpoint set --name main\n".to_string()));
}

#[test]
fn commands_need_lldb() {
    let mut d = Debugger::new();
    assert_eq!(d.send_command("x"), Err("lldb not running".to_string()));
    assert_eq!(d.step_over(), Err("lldb not running".to_string()));
    assert_eq!(d.step_into(), Err("lldb not running".to_string()));
    assert_eq!(d.continue_exec(), Err("lldb not running".to_string()));
    assert_eq!(d.set_variable("x", "1"), Err("lldb not running".to_string()));
    assert_eq!(d.add_breakpoint(1), Err("lldb not running".to_string()));
    let mut d = started(&[]);
    assert_eq!(d.step_over(), Ok("next\n".to_string()));
    assert_eq!(d.step_into(), Ok("step\n".to_string()));
    assert_eq!(d.continue_exec(), Ok("continue\n".to_string()));
    assert_eq!(d.set_variable("x", "1"), Ok("expr x = 1\n".to_string()));
    assert_eq!(d.variable_set(Ok(())), Ok("frame variable\n".to_string()));
    assert_eq!(d.variable_set(Err("e".to_string())), Err("e".to_string()));
    assert_eq!(d.stepped(Ok(())), Ok(()));
    assert_eq!(d.stepped(Err("e".to_string())), Err("e".to_string()));
}

#[test]
fn breakpoints_get_numbers_in_order() {
    let mut d = started(&[3]);
    assert_eq!(
        d.add_breakpoint(9),
        Ok("breakpoint set --file demo.pas --line 9\n".to_string())
    );
    assert_eq!(d.breakpoint_added(9, Ok(())), Ok(()));
    assert_eq!(d.breakpoint_added(10, Err("e".to_string())), Err("e".to_string()));
    assert_eq!(d.remove_breakpoint(9), Ok(Some("breakpoint delete 2\n".to_string())));
    assert_eq!(d.remove_breakpoint(9), Ok(None));
    assert_eq!(d.remove_breakpoint(10), Ok(None));
    assert_eq!(d.remove_breakpoint(3), Ok(Some("breakpoint delete 1\n".to_string())));
}

#[test]
fn poll_reports_output_before_stops() {
    let mut d = started(&[3]);
    let r = d.poll(
        vec!["hello".to_string()],
        vec![line("    frame #0: 0x1 prog`main at demo.pas:3:1")],
    );
    assert_eq!(r.events.len(), 2);
    assert!(matches!(&r.events[0], DebugEvent::ProgramOutput(t) if t == "hello"));
    assert!(matches!(&r.events[1], DebugEvent::Stopped { file, line } if file == "demo.pas" && *line == 3));
    assert_eq!(r.replies, vec!["frame variable\n"]);
    assert!(d.is_paused());
}

#[test]
fn poll_reports_one_stop_however_many_frames() {
    let mut d = started(&[3]);
    let r = d.poll(
        vec![],
        vec![
            line("* thread #1, stop reason = breakpoint 1.1"),
            line("    frame #0: 0x1 prog`main at demo.pas:3:1"),
            line("    frame #0: 0x1 prog`main at demo.pas:3:1"),
        ],
    );
    let stops = r
        .events
        .iter()
        .filter(|e| matches!(e, DebugEvent::Stopped { .. }))
        .count();
    assert_eq!(stops, 1);
}

#[test]
fn poll_goes_on_from_frames_without_source() {
    let mut d = started(&[3]);
    let r = d.poll(vec![], vec![line("    frame #0: 0x1 dyld`start + 1")]);
    assert!(r.events.is_empty());
    assert_eq!(r.replies, vec!["continue\n"]);
    assert!(!d.is_paused());
}

#[test]
fn poll_reports_variables_by_metadata() {
    let mut d = Debugger::new();
    let steps = d.start("/tmp/prog", "demo.pas", &[3], Some("c|enum|red,green"));
    for step in &steps {
        d.step_done(step);
    }
    let r = d.poll(
        vec![],
        vec![
            line("(long) early = 1"),
            line("    frame #0: 0x1 prog`main at demo.pas:3:1"),
            line("(long) c = 1"),
            line("(void *) _capture = 0x1"),
            OutputLine {
                text: "(double) r = 2.5".to_string(),
                decimals: Some("2.5000000000".to_string()),
            },
        ],
    );
    let vars: Vec<(String, String, VarType)> = r
        .events
        .iter()
        .filter_map(|e| match e {
            DebugEvent::Variables(v) => Some(v[0].clone()),
            _ => None,
        })
        .collect();
    assert_eq!(
        vars,
        vec![
            ("c".to_string(), "green (1)".to_string(), VarType::Integer),
            ("r".to_string(), "2.5".to_string(), VarType::Real),
        ]
    );
}

#[test]
fn poll_reports_the_exit() {
    let mut d = started(&[3]);
    let r = d.poll(vec![], vec![line("Process 1 exited with status = 2 (0x2)")]);
    assert!(matches!(&r.events[0], DebugEvent::Exited { code: 2 }));
    assert!(d.is_running());
    let steps = d.stop();
    assert_eq!(sent(&steps), vec!["process kill\n", "quit\n"]);
    assert!(!d.is_running());
    assert_eq!(sent(&d.stop()).len(), 0);
}

#[test]
fn poll_in_two_parts_is_the_same() {
    let rows = [
        "* thread #1, stop reason = breakpoint 1.1",
        "    frame #0: 0x1 prog`main at demo.pas:3:1",
        "(long) x = 1",
    ];
    let mut a = started(&[3]);
    let all = a.poll(vec![], rows.iter().map(|t| line(t)).collect());
    let mut b = started(&[3]);
    let first = b.poll(vec![], rows[..2].iter().map(|t| line(t)).collect());
    let second = b.poll(vec![], rows[2..].iter().map(|t| line(t)).collect());
    assert_eq!(all.events.len(), first.events.len() + second.events.len());
    assert_eq!(
        format!("{:?}", all.events),
        format!("{:?}", first.events.iter().chain(second.events.iter()).collect::<Vec<_>>())
    );
}

#[test]
fn error_texts() {
    assert_eq!(launch_failed("gone"), "failed to start lldb: gone");
    assert_eq!(write_failed("gone"), "write to lldb: gone");
    assert_eq!(flush_failed("gone"), "flush lldb stdin: gone");
}
