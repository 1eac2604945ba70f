use bruto_ide::callstack_window::CallStackPanel;
use bruto_ide::commands;
use bruto_ide::debugger::{DebugEvent, OutputLine, SessionAction};
use bruto_ide::desktop::DesktopWindow;
use bruto_ide::geometry::Rect;
use bruto_ide::ide::{
    breakpoint_changes, build_event, build_step, lldb_error, scroll_to_exec, source_line_count,
    startup_steps, BuildOutcome, BuildPhase, BuildStep, EditOp, IdeAction, IdeState, StartupStep,
    WatchEdit,
};
use bruto_ide::ide_editor::IdeEditorWindow;
use bruto_ide::ide_file_editor::IdeFileEditor;
use bruto_ide::layout::screen_layout;
use bruto_ide::menus::{
    command_states, key_action, menu_tables, press_action, status_entries, CommandFacts, KeyAction,
    MenuRow,
};
use bruto_ide::output::OutputStyle;
use bruto_ide::variable::VarType;
use bruto_ide::watch_window::WatchPanel;
use std::collections::HashSet;

fn ide() -> IdeState {
    IdeState::new(screen_layout(80, 25), "pas", None)
}

fn shown(actions: &[IdeAction]) -> Vec<String> {
    actions
        .iter()
        .map(|a| match a {
            IdeAction::Print(l) => format!("print {:?} {}", l.style, l.text),
            IdeAction::ClearOutput => "clear".to_string(),
            IdeAction::SetExecLine { editor, line } => format!("bar {editor} {line:?}"),
            IdeAction::SetBuildError { editor, error } => format!("error {editor} {error:?}"),
            IdeAction::ScrollTo { editor, line } => format!("scroll {editor} {line}"),
            IdeAction::FocusWindow(i) => format!("focus {i}"),
            IdeAction::ShowError(m) => format!("box {m}"),
            IdeAction::Session(steps) => format!("session {}", sent(steps).join("|")),
            IdeAction::SendStep(l) => format!("step {}", l.trim_end()),
            IdeAction::AskQuit => "ask quit".to_string(),
            IdeAction::AskCloseEditor => "ask close".to_string(),
            IdeAction::CloseFocused => "close".to_string(),
            IdeAction::NewEditor => "new".to_string(),
            IdeAction::OpenFile => "open".to_string(),
            IdeAction::Save(e) => format!("save {e}"),
            IdeAction::SaveAs(e) => format!("save as {e}"),
            IdeAction::ShowWatches => "watches".to_string(),
            IdeAction::ShowOutput => "output".to_string(),
            IdeAction::ShowCallStack => "callstack".to_string(),
            IdeAction::Edit { editor, op } => format!("edit {editor} {op:?}"),
            IdeAction::Build(e) => format!("build {e}"),
            IdeAction::Run => "run".to_string(),
            IdeAction::Debug => "debug".to_string(),
            IdeAction::Launch { exe, capture } => format!("launch {exe} {capture:?}"),
            IdeAction::About => "about".to_string(),
            IdeAction::Quit => "quit".to_string(),
        })
        .collect()
}

fn sent(steps: &[SessionAction]) -> Vec<String> {
    steps
        .iter()
        .map(|s| match s {
            SessionAction::Send(l) => l.trim_end().to_string(),
            SessionAction::SetBreakpoint { line, command } => {
                format!("{line}:{}", command.trim_end())
            }
            SessionAction::Kill => "kill".to_string(),
            other => format!("{other:?}"),
        })
        .collect()
}

fn command(ide: &mut IdeState, cmd: u16, focused: Option<usize>) -> Vec<String> {
    shown(&ide.handle_command(cmd, focused).unwrap())
}

fn built(ide: &mut IdeState) {
    ide.build_finished(
        4,
        BuildOutcome::Built {
            exe: "/tmp/prog".to_string(),
            source: "/src/demo.pas".to_string(),
            capture: "/tmp/out".to_string(),
        },
    );
}

fn debugging(lines: &[usize]) -> IdeState {
    let mut ide = ide();
    built(&mut ide);
    let mut editor = IdeEditorWindow::new(Rect::new(0, 0, 54, 18), "Untitled.pas", "*.pas");
    for line in lines {
        editor.toggle_breakpoint(*line);
    }
    let start = ide.debug_begin("/tmp/prog", &mut editor, lines, 100, None);
    for step in &start.steps {
        ide.debugger.step_done(step);
    }
    let line = ide.debug_started(4, &start.lines, Ok(()));
    assert_eq!(line.text, "Debugger started.");
    ide
}

fn paused(lines: &[usize]) -> IdeState {
    let mut ide = debugging(lines);
    let r = ide.debugger.poll(
        vec![],
        vec![OutputLine {
            text: "frame #0: main at demo.pas:3:1".to_string(),
            decimals: None,
        }],
    );
    for e in r.events {
        ide.apply_debug_event(e);
    }
    ide
}

#[test]
fn command_and_key_numbers_are_those_of_the_library_for_windows() {
    assert_eq!(commands::CM_QUIT, turbo_vision::core::command::CM_QUIT);
    assert_eq!(commands::CM_CLOSE, turbo_vision::core::command::CM_CLOSE);
    assert_eq!(commands::CM_OK, turbo_vision::core::command::CM_OK);
    assert_eq!(commands::CM_CANCEL, turbo_vision::core::command::CM_CANCEL);
    assert_eq!(commands::CM_YES, turbo_vision::core::command::CM_YES);
    assert_eq!(commands::CM_NO, turbo_vision::core::command::CM_NO);
    assert_eq!(commands::CM_NEW, turbo_vision::core::command::CM_NEW);
    assert_eq!(commands::CM_OPEN, turbo_vision::core::command::CM_OPEN);
    assert_eq!(commands::CM_SAVE, turbo_vision::core::command::CM_SAVE);
    assert_eq!(commands::CM_SAVE_AS, turbo_vision::core::command::CM_SAVE_AS);
    assert_eq!(commands::CM_UNDO, turbo_vision::core::command::CM_UNDO);
    assert_eq!(commands::CM_REDO, turbo_vision::core::command::CM_REDO);
    assert_eq!(commands::CM_CUT, turbo_vision::core::command::CM_CUT);
    assert_eq!(commands::CM_COPY, turbo_vision::core::command::CM_COPY);
    assert_eq!(commands::CM_PASTE, turbo_vision::core::command::CM_PASTE);
    assert_eq!(commands::CM_SELECT_ALL, turbo_vision::core::command::CM_SELECT_ALL);
    assert_eq!(commands::KB_F2, turbo_vision::core::event::KB_F2);
    assert_eq!(commands::KB_F3, turbo_vision::core::event::KB_F3);
    assert_eq!(commands::KB_F5, turbo_vision::core::event::KB_F5);
    assert_eq!(commands::KB_F7, turbo_vision::core::event::KB_F7);
    assert_eq!(commands::KB_F8, turbo_vision::core::event::KB_F8);
    assert_eq!(commands::KB_F9, turbo_vision::core::event::KB_F9);
    assert_eq!(commands::KB_ALT_X, turbo_vision::core::event::KB_ALT_X);
    assert_eq!(bruto_ide::geometry::MB_LEFT_BUTTON, turbo_vision::core::event::MB_LEFT_BUTTON);
    assert_eq!(commands::CM_BUILD, 400);
    assert_eq!(commands::CM_SHOW_CALLSTACK, 443);
}

#[test]
fn keys_give_commands() {
    assert_eq!(key_action(commands::KB_F2), KeyAction::Command(commands::CM_SAVE));
    assert_eq!(key_action(commands::KB_F3), KeyAction::Command(commands::CM_OPEN));
    assert_eq!(key_action(commands::KB_F9), KeyAction::Command(commands::CM_BUILD));
    assert_eq!(key_action(commands::KB_F5), KeyAction::Command(commands::CM_DEBUG_START));
    assert_eq!(key_action(commands::KB_F7), KeyAction::StepInto);
    assert_eq!(key_action(commands::KB_F8), KeyAction::StepOver);
    assert_eq!(key_action(commands::KB_ALT_X), KeyAction::Pass);
}

#[test]
fn keys_with_shift_and_ctrl_give_commands() {
    let (start, stop) = (commands::CM_DEBUG_START, commands::CM_DEBUG_STOP);
    assert_eq!(press_action(commands::KB_F5, true, false), KeyAction::Command(stop));
    assert_eq!(press_action(commands::KB_F5, false, false), KeyAction::Command(start));
    assert_eq!(press_action(commands::KB_F5, false, true), KeyAction::Command(start));
    let (build, run) = (commands::CM_BUILD, commands::CM_RUN);
    assert_eq!(press_action(commands::KB_F9, false, true), KeyAction::Command(run));
    assert_eq!(press_action(commands::KB_F9, false, false), KeyAction::Command(build));
    let build_run = commands::CM_BUILD_RUN;
    assert_eq!(press_action(commands::KB_F9, true, false), KeyAction::Command(build_run));
    assert_eq!(press_action(commands::KB_F9, true, true), KeyAction::Command(run));
    assert_eq!(press_action(commands::KB_F7, true, true), KeyAction::StepInto);
    assert_eq!(press_action(commands::KB_ALT_X, true, true), KeyAction::Pass);
}

#[test]
fn shortcuts_name_the_keys_that_give_the_command() {
    for menu in menu_tables() {
        for row in menu.rows {
            if let MenuRow::Entry { command, shortcut, .. } = row {
                let given = match shortcut {
                    "Shift-F5" => press_action(commands::KB_F5, true, false),
                    "Ctrl-F9" => press_action(commands::KB_F9, false, true),
                    "F5" => press_action(commands::KB_F5, false, false),
                    "F9" => press_action(commands::KB_F9, false, false),
                    _ => continue,
                };
                assert_eq!(given, KeyAction::Command(command));
            }
        }
    }
}

#[test]
fn menus_hold_commands_that_are_acted_on() {
    let menus = menu_tables();
    let titles: Vec<&str> = menus.iter().map(|m| m.title).collect();
    assert_eq!(titles, vec!["~F~ile", "~E~dit", "~B~uild", "~D~ebug", "~W~indows", "~H~elp"]);
    let rows: Vec<usize> = menus.iter().map(|m| m.rows.len()).collect();
    assert_eq!(rows, vec![6, 8, 2, 5, 3, 1]);
    let mut ide = ide();
    for menu in &menus {
        for row in &menu.rows {
            if let MenuRow::Entry { command, .. } = row {
                assert!(ide.handle_command(*command, None).is_some());
            }
        }
    }
    assert!(matches!(
        &menus[0].rows[1],
        MenuRow::Entry { label: "~O~pen...", command: commands::CM_OPEN, key: commands::KB_F3, shortcut: "F3" }
    ));
    let entries = status_entries();
    assert_eq!(entries.len(), 5);
    assert_eq!(entries[0].label, "~F5~ Debug");
    assert_eq!(entries[0].command, commands::CM_DEBUG_START);
    assert_eq!(entries[4].key, commands::KB_ALT_X);
}

#[test]
fn commands_are_enabled_by_what_there_is() {
    let none = CommandFacts {
        editor_focused: false,
        has_selection: false,
        can_undo: false,
        can_redo: false,
        debugging: false,
        watch_open: false,
        output_open: true,
        callstack_open: false,
    };
    let states = command_states(&none);
    assert_eq!(states.len(), 19);
    let on: Vec<u16> = states.iter().filter(|s| s.1).map(|s| s.0).collect();
    assert_eq!(on, vec![commands::CM_SHOW_WATCHES, commands::CM_SHOW_CALLSTACK]);
    let editing = CommandFacts { editor_focused: true, can_undo: true, debugging: true, ..none };
    let states = command_states(&editing);
    let state = |cmd: u16| states.iter().find(|s| s.0 == cmd).unwrap().1;
    assert!(state(commands::CM_SAVE));
    assert!(state(commands::CM_UNDO));
    assert!(!state(commands::CM_REDO));
    assert!(!state(commands::CM_CUT));
    assert!(state(commands::CM_PASTE));
    assert!(state(commands::CM_DEBUG_STOP));
    let facts = ide().command_facts(Some(1), true, false, true);
    assert_eq!(
        facts,
        CommandFacts {
            editor_focused: true,
            has_selection: true,
            can_undo: false,
            can_redo: true,
            debugging: false,
            watch_open: false,
            output_open: false,
            callstack_open: false
        }
    );
}

#[test]
fn commands_of_windows_and_files() {
    let mut i = ide();
    assert_eq!(command(&mut i, commands::CM_QUIT, None), vec!["ask quit"]);
    assert_eq!(command(&mut i, commands::CM_CLOSE_EDITOR, Some(4)), vec!["ask close"]);
    assert_eq!(command(&mut i, commands::CM_CLOSE, Some(4)), vec!["close"]);
    assert_eq!(command(&mut i, commands::CM_NEW, None), vec!["new"]);
    assert_eq!(command(&mut i, commands::CM_OPEN, None), vec!["open"]);
    assert_eq!(command(&mut i, commands::CM_SAVE, Some(4)), vec!["save 4"]);
    assert!(command(&mut i, commands::CM_SAVE, None).is_empty());
    assert_eq!(command(&mut i, commands::CM_SAVE_AS, Some(4)), vec!["save as 4"]);
    assert!(command(&mut i, commands::CM_SAVE_AS, None).is_empty());
    assert_eq!(command(&mut i, commands::CM_ABOUT, None), vec!["about"]);
    assert!(i.handle_command(commands::CM_DEBUG_HIT_BREAK, Some(4)).is_none());
    assert!(i.handle_command(0, None).is_none());
}

#[test]
fn commands_of_editing() {
    let mut i = ide();
    for (cmd, op) in [
        (commands::CM_UNDO, EditOp::Undo),
        (commands::CM_REDO, EditOp::Redo),
        (commands::CM_CUT, EditOp::Cut),
        (commands::CM_COPY, EditOp::Copy),
        (commands::CM_PASTE, EditOp::Paste),
        (commands::CM_SELECT_ALL, EditOp::SelectAll),
    ] {
        assert_eq!(command(&mut i, cmd, Some(4)), vec![format!("edit 4 {op:?}")]);
        assert!(command(&mut i, cmd, None).is_empty());
    }
}

#[test]
fn panels_open_once() {
    let mut i = ide();
    assert_eq!(command(&mut i, commands::CM_SHOW_WATCHES, None), vec!["watches"]);
    assert!(command(&mut i, commands::CM_SHOW_WATCHES, None).is_empty());
    assert_eq!(command(&mut i, commands::CM_SHOW_OUTPUT, None), vec!["output"]);
    assert_eq!(command(&mut i, commands::CM_SHOW_CALLSTACK, None), vec!["callstack"]);
    i.windows_swept(true, false, true);
    assert!(command(&mut i, commands::CM_SHOW_WATCHES, None).is_empty());
    assert_eq!(command(&mut i, commands::CM_SHOW_OUTPUT, None), vec!["output"]);
}

#[test]
fn builds_report() {
    let mut i = ide();
    assert_eq!(
        command(&mut i, commands::CM_BUILD, None),
        vec!["print Info No active editor \u{2014} open or create a file first."]
    );
    assert_eq!(
        command(&mut i, commands::CM_BUILD, Some(4)),
        vec!["clear", "print Info Building...", "error 4 None", "build 4"]
    );
    assert_eq!(
        shown(&i.build_finished(4, BuildOutcome::Failed("line 3:1: bad".to_string()))),
        vec![
            "error 4 Some((3, \"line 3:1: bad\"))",
            "print Failure Build error: line 3:1: bad",
            "box line 3:1: bad"
        ]
    );
    assert_eq!(
        shown(&i.build_finished(4, BuildOutcome::Failed("ld".to_string()))),
        vec!["print Failure Build error: ld", "box ld"]
    );
    assert_eq!(
        shown(&i.build_finished(4, BuildOutcome::Cancelled)),
        vec!["print Info Build cancelled."]
    );
    assert!(i.run_actions().is_empty());
    let out = i.build_finished(
        4,
        BuildOutcome::Built {
            exe: "/tmp/p".to_string(),
            source: "/tmp/p.pas".to_string(),
            capture: "/tmp/o".to_string(),
        },
    );
    assert_eq!(shown(&out), vec!["print Success Build successful: /tmp/p"]);
    i.build_finished(4, BuildOutcome::Failed("x".to_string()));
    assert_eq!(
        shown(&i.run_actions()),
        vec!["clear", "print Info Running /tmp/p...", "launch /tmp/p Some(\"/tmp/o\")"]
    );
    let mut plan = command(&mut i, commands::CM_RUN, Some(4));
    assert_eq!(plan.pop(), Some("run".to_string()));
    assert_eq!(plan, command(&mut i, commands::CM_BUILD, Some(4)));
    let mut plan = command(&mut i, commands::CM_BUILD_RUN, Some(4));
    assert_eq!(plan.pop(), Some("run".to_string()));
    assert_eq!(plan, command(&mut i, commands::CM_BUILD, Some(4)));
}

#[test]
fn build_dialog_steps() {
    assert!(matches!(
        build_step(BuildPhase::Pending("Linking".to_string())),
        BuildStep::Show(label) if label == "Linking"
    ));
    assert!(matches!(
        build_step(BuildPhase::Failed("e".to_string())),
        BuildStep::Close(BuildOutcome::Failed(e)) if e == "e"
    ));
    assert!(matches!(
        build_step(BuildPhase::Done {
            exe: "a".to_string(),
            source: "b".to_string(),
            capture: "c".to_string()
        }),
        BuildStep::Close(BuildOutcome::Built { exe, source, capture })
            if exe == "a" && source == "b" && capture == "c"
    ));
    assert!(build_event(0).is_none());
    assert!(matches!(build_event(commands::CM_CANCEL), Some(BuildOutcome::Cancelled)));
}

#[test]
fn debug_needs_a_program_and_an_editor() {
    let mut i = ide();
    let mut plan = command(&mut i, commands::CM_DEBUG_START, Some(4));
    assert_eq!(plan.pop(), Some("debug".to_string()));
    match i.debug_target(Some(4)) {
        Err(line) => assert_eq!(line.text, "No executable to debug."),
        Ok(_) => panic!("no program was built"),
    }
    built(&mut i);
    match i.debug_target(None) {
        Err(line) => {
            assert_eq!(line.text, "No active editor.");
            assert_eq!(line.style, OutputStyle::Failure);
        }
        Ok(_) => panic!("no editor"),
    }
    assert!(matches!(i.debug_target(Some(4)), Ok((exe, 4)) if exe == "/tmp/prog"));
}

#[test]
fn debug_start_snaps_breakpoints() {
    let mut i = ide();
    built(&mut i);
    let mut editor = IdeEditorWindow::new(Rect::new(0, 0, 54, 18), "Untitled.pas", "*.pas");
    editor.toggle_breakpoint(2);
    editor.toggle_breakpoint(50);
    let start = i.debug_begin("/tmp/prog", &mut editor, &[3, 4], 10, None);
    assert_eq!(start.lines, vec![3]);
    assert_eq!(start.announce.text, "Starting debugger with 1 breakpoint(s)...");
    assert_eq!(start.announce.style, OutputStyle::Info);
    assert!(sent(&start.steps).contains(&"3:breakpoint set --file demo.pas --line 3".to_string()));
    let line = i.debug_started(4, &start.lines, Err("gone".to_string()));
    assert_eq!(line.text, "Debugger error: gone");
    assert_eq!(i.debug_editor(), None);
    assert_eq!(source_line_count("a\nb\n"), 2);
    assert_eq!(source_line_count(""), 0);
    assert_eq!(source_line_count("a\n\nb"), 3);
}

#[test]
fn stop_moves_the_bar() {
    let mut i = paused(&[3]);
    assert_eq!(i.exec_line(), Some(3));
    assert_eq!(i.exec_target(Some(9)), Some(4));
    assert_eq!(command(&mut i, commands::CM_DEBUG_STEP_OVER, None), vec!["step next"]);
    assert_eq!(command(&mut i, commands::CM_DEBUG_STEP_INTO, None), vec!["step step"]);
    assert_eq!(shown(&i.step_over()), vec!["step next"]);
    assert_eq!(shown(&i.step_into()), vec!["step step"]);
    assert_eq!(command(&mut i, commands::CM_DEBUG_CONTINUE, None), vec!["session continue"]);
    assert_eq!(i.exec_line(), None);
    let mut idle = ide();
    assert!(command(&mut idle, commands::CM_DEBUG_STEP_OVER, None).is_empty());
    assert!(idle.step_into().is_empty());
    assert_eq!(idle.exec_target(Some(9)), Some(9));
}

#[test]
fn frames_are_gathered_in_order() {
    let mut i = paused(&[3]);
    i.apply_debug_event(DebugEvent::Frames(vec![
        (2, "c".to_string()),
        (0, "a".to_string()),
        (1, "b".to_string()),
    ]));
    i.apply_debug_event(DebugEvent::Frames(vec![(0, "A".to_string())]));
    let mut watch = WatchPanel::new(Rect::new(0, 0, 20, 5));
    let mut stack = CallStackPanel::new(Rect::new(0, 0, 20, 5));
    i.update_panels(&mut watch, &mut stack);
    assert_eq!(stack.frame_at(0), Some(&(0, "A".to_string())));
    assert_eq!(stack.frame_at(1), Some(&(1, "b".to_string())));
    assert_eq!(stack.frame_at(2), Some(&(2, "c".to_string())));
    assert!(stack.frame_at(3).is_none());
    assert_eq!(stack.draw_rows()[0].line.data[0].attr.to_u8(), 0x21);
    i.apply_debug_event(DebugEvent::Stopped { file: "demo.pas".to_string(), line: 5 });
    i.update_panels(&mut watch, &mut stack);
    assert!(stack.frame_at(0).is_none());
}

#[test]
fn variables_are_gathered_by_name() {
    let mut i = paused(&[3]);
    i.apply_debug_event(DebugEvent::Variables(vec![
        ("x".to_string(), "1".to_string(), VarType::Integer),
        ("y".to_string(), "2".to_string(), VarType::Integer),
    ]));
    i.apply_debug_event(DebugEvent::Variables(vec![(
        "x".to_string(),
        "3.5".to_string(),
        VarType::Real,
    )]));
    let mut watch = WatchPanel::new(Rect::new(0, 0, 20, 5));
    let mut stack = CallStackPanel::new(Rect::new(0, 0, 20, 5));
    i.update_panels(&mut watch, &mut stack);
    assert_eq!(
        watch.variable_at(0),
        Some(&("x".to_string(), "3.5".to_string(), VarType::Real))
    );
    assert_eq!(
        watch.variable_at(1),
        Some(&("y".to_string(), "2".to_string(), VarType::Integer))
    );
    assert!(watch.variable_at(2).is_none());
}

#[test]
fn exit_ends_the_session() {
    let mut i = paused(&[3]);
    assert_eq!(
        shown(&i.apply_debug_event(DebugEvent::ProgramOutput("hi".to_string()))),
        vec!["print Text hi"]
    );
    assert_eq!(
        shown(&i.apply_debug_event(DebugEvent::Exited { code: 2 })),
        vec![
            "bar 4 None",
            "bar 4 None",
            "session process kill|Wait(50)|quit|kill",
            "print Failure Process exited with code 2"
        ]
    );
    assert_eq!(i.exec_line(), None);
    assert_eq!(i.debug_editor(), None);
    assert!(!i.debugger.is_running());
    let last = i.apply_debug_event(DebugEvent::Exited { code: 0 });
    assert_eq!(
        shown(&last),
        vec!["session kill", "print Success Process exited with code 0"]
    );
}

#[test]
fn stop_command_ends_the_session() {
    let mut i = paused(&[3]);
    assert_eq!(
        command(&mut i, commands::CM_DEBUG_STOP, None),
        vec!["session process kill|Wait(50)|quit|kill", "print Info Debugger stopped."]
    );
    assert!(!i.debugger.is_running());
    assert_eq!(i.exec_line(), None);
    assert_eq!(i.debug_editor(), None);
}

#[test]
fn breakpoints_are_mirrored() {
    let mut i = debugging(&[3, 7]);
    assert!(i.debugger.has_number_left());
    assert!(i.sync_debug_breakpoints(&vec![7, 3]).is_empty());
    let steps = i.sync_debug_breakpoints(&vec![7, 9]);
    let texts = sent(&steps);
    assert_eq!(texts.len(), 2);
    assert!(texts[0].starts_with("breakpoint delete "));
    assert_eq!(texts[1], "9:breakpoint set --file demo.pas --line 9");
    for step in &steps {
        i.debugger.step_done(step);
    }
    assert!(i.sync_debug_breakpoints(&vec![9, 7]).is_empty());
    let gone = i.sync_debug_breakpoints(&vec![]);
    assert_eq!(gone.len(), 2);
    assert!(ide().sync_debug_breakpoints(&vec![1]).is_empty());
    let a: HashSet<usize> = [1usize, 2].into_iter().collect();
    let b: HashSet<usize> = [2usize, 3].into_iter().collect();
    assert_eq!(breakpoint_changes(&a, &b), (vec![1], vec![3]));
}

#[test]
fn closing_the_debugged_editor_asks() {
    let mut i = debugging(&[3]);
    assert!(i.closes_debug_target(Some(4)));
    assert!(!i.closes_debug_target(Some(5)));
    assert!(!i.closes_debug_target(None));
    assert!(i.debug_close_answered(commands::CM_NO).is_none());
    assert!(i.debugger.is_running());
    let out = i.debug_close_answered(commands::CM_YES).unwrap();
    assert_eq!(shown(&out), vec!["session process kill|Wait(50)|quit|kill"]);
    assert!(!i.closes_debug_target(Some(4)));
    assert_eq!(shown(&i.quit()), vec!["session kill", "quit"]);
}

#[test]
fn values_are_set_while_paused() {
    let x = ("x".to_string(), "1".to_string(), VarType::Integer);
    let s = ("s".to_string(), "'a'".to_string(), VarType::String);
    assert!(matches!(ide().watch_edit(None), WatchEdit::Nothing));
    assert!(matches!(
        ide().watch_edit(Some(&x)),
        WatchEdit::Refuse(m) if m == "The program must be paused at a breakpoint to set a value."
    ));
    let i = paused(&[3]);
    assert!(matches!(
        i.watch_edit(Some(&s)),
        WatchEdit::Refuse(m) if m == "Variables of type string are read-only in the watch window."
    ));
    assert!(matches!(
        i.watch_edit(Some(&x)),
        WatchEdit::Prompt { name, current, ty: VarType::Integer } if name == "x" && current == "1"
    ));
    assert_eq!(
        i.value_typed("x", VarType::Integer, " 5 ", None),
        Ok("expr x = 5\n".to_string())
    );
    assert_eq!(
        i.value_typed("x", VarType::Integer, "five", None),
        Err("'five' is not a valid integer literal.".to_string())
    );
    assert_eq!(
        ide().value_typed("x", VarType::Integer, "5", None),
        Err("lldb error: lldb not running".to_string())
    );
    assert_eq!(lldb_error("e"), "lldb error: e");
}

fn window(editor: Option<usize>, path: Option<&str>) -> DesktopWindow {
    DesktopWindow { focused: false, editor, path: path.map(|p| p.to_string()) }
}

#[test]
fn frames_are_jumped_to() {
    let windows = vec![
        window(None, None),
        window(Some(4), Some("/src/demo.pas")),
        window(Some(6), Some("/src/unit.pas")),
    ];
    let mut i = paused(&[3]);
    let frame = (2usize, "prog`f at unit.pas:8:1".to_string());
    assert_eq!(
        shown(&i.callstack_jump(Some(&frame), &windows)),
        vec!["focus 2", "scroll 6 7", "bar 4 None"]
    );
    assert_eq!(i.exec_line(), Some(8));
    assert_eq!(i.exec_target(None), Some(6));
    let other = (3usize, "prog`g at other.pas:0:1".to_string());
    assert_eq!(
        shown(&i.callstack_jump(Some(&other), &windows)),
        vec!["scroll 4 0", "bar 6 None"]
    );
    assert_eq!(i.exec_target(None), Some(4));
    let dyld = (4usize, "dyld`start".to_string());
    assert!(i.callstack_jump(Some(&dyld), &windows).is_empty());
    assert!(i.callstack_jump(None, &windows).is_empty());
    let mut idle = ide();
    assert!(idle.callstack_jump(Some(&other), &windows).is_empty());
    assert_eq!(idle.exec_line(), None);
    assert_eq!(shown(&idle.jump(&windows, Some(1), 0, 5)), vec!["focus 1", "scroll 4 4"]);
}

#[test]
fn the_line_is_scrolled_to() {
    assert_eq!(scroll_to_exec(5, 0, 10), None);
    assert_eq!(scroll_to_exec(10, 0, 10), None);
    assert_eq!(scroll_to_exec(11, 0, 10), Some(10));
    assert_eq!(scroll_to_exec(5, 5, 10), Some(4));
    assert_eq!(scroll_to_exec(6, 5, 10), None);
    assert_eq!(scroll_to_exec(1, -2, 10), None);
}

#[test]
fn hooks_are_called_once() {
    assert_eq!(startup_steps(false), vec![StartupStep::DesktopReady]);
    assert_eq!(
        startup_steps(true),
        vec![StartupStep::ShowAbout, StartupStep::AboutShown, StartupStep::DesktopReady]
    );
}

#[test]
fn texts_of_the_environment() {
    let i = ide();
    assert_eq!(i.save_wildcard(), "*.pas");
    assert_eq!(i.untitled_title(), "Untitled.pas");
    assert_eq!(i.layout(), screen_layout(80, 25));
    assert_eq!(
        i.about_body("Pascal"),
        "Bruto IDE\n\nLanguage: Pascal\n\n(c) 2026 Enzo Lombardi"
    );
    let custom = IdeState::new(screen_layout(80, 25), "pas", Some("Mine".to_string()));
    assert_eq!(custom.about_body("Pascal"), "Mine");
}
