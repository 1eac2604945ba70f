//! The environment: what it does on commands, on reports of the debugger, and when programs are
//! built, run and debugged.
//!
//! Editors and windows go by numbers. What has to be done outside (on the screen, on files, with
//! processes) is given back as a list of actions, to be performed in order.

use std::collections::HashSet;

use vstd::prelude::*;

use crate::build_report::{error_line, error_text, extract_error_line};
use crate::callstack_window::{CallStackPanel, CallStackView};
use crate::commands::{
    CM_ABOUT, CM_BUILD, CM_BUILD_RUN, CM_CLOSE, CM_CLOSE_EDITOR, CM_COPY, CM_CUT,
    CM_DEBUG_CONTINUE, CM_DEBUG_START, CM_DEBUG_STEP_INTO, CM_DEBUG_STEP_OVER, CM_DEBUG_STOP,
    CM_NEW, CM_OPEN, CM_PASTE, CM_QUIT, CM_REDO, CM_RUN, CM_SAVE, CM_SAVE_AS, CM_SELECT_ALL, CM_SHOW_CALLSTACK,
    CM_SHOW_OUTPUT, CM_SHOW_WATCHES, CM_UNDO, CM_YES,
};
use crate::debugger::{
    action_views, after_steps, breakpoint_steps, command_line, file_known_as,
    frame_location, frame_texts, fresh, lemma_breakpoint_steps, lemma_steps_in_parts,
    parse_frame_location, start_steps, starting, stop_steps,
    stopped, var_texts, ActionView, DebugEvent, Debugger, EventView, SessionAction, SessionView,
    StateView,
};
use crate::desktop::{
    first_marked, may_have_names, named_windows, source_window, window_views, DesktopWindow,
    WindowView,
};
use crate::gutter::{list_lines, snapped_all, GutterView};
use crate::ide_editor::{lemma_pushed_set, scrolled, EditorView, IdeEditorWindow};
use crate::ide_file_editor::IdeFileEditor;
use crate::layout::ScreenLayout;
use crate::lldb::{
    agree, lemma_agreeing_stops, lemma_delete_keeps_agreement, lemma_performs_in_parts,
    lemma_sets_keep_agreement, performs_all, stops_on, LldbView,
};
use crate::menus::{handled, CommandFacts};
use crate::number::{decimal, push_decimal, show};
use crate::output::{code_line, code_style, run_start, ConsoleLine, OutputStyle};
use crate::paths::may_name;
use crate::text::{copy_opt, line_list, lines, opt_str, opt_text, owned, pieces, to_chars};
use crate::tracking::{
    frames_sorted, lemma_frames_stay_sorted, lemma_variables_stay_distinct, merge_frames,
    merge_variables, names_distinct, with_frames, with_variables, FrameView, VarView,
};
use crate::value_editor::{format_setter_expr, setter_expr};
use crate::variable::VarType;
use crate::watch_window::{WatchPanel, WatchView};

verus! {

broadcast use vstd::std_specs::hash::group_hash_axioms;

/// An operation on the text of an editor.
#[derive(Debug, Clone, Copy, PartialEq, Eq, Structural)]
pub enum EditOp {
    Undo,
    Redo,
    Cut,
    Copy,
    Paste,
    SelectAll,
}

/// One thing to do outside.
pub enum IdeAction {
    /// Append the line to the output.
    Print(ConsoleLine),
    ClearOutput,
    /// Set the line on which the program stands in the editor.
    SetExecLine { editor: usize, line: Option<usize> },
    /// Set the error of the last build in the editor.
    SetBuildError { editor: usize, error: Option<(usize, String)> },
    /// Scroll the editor to the line (from zero on).
    ScrollTo { editor: usize, line: usize },
    /// Give the focus to the window at this position of the desktop, and take it from the others.
    FocusWindow(usize),
    /// Show an error message.
    ShowError(String),
    /// Perform the steps of the debugger session; what comes of them does not matter.
    Session(Vec<SessionAction>),
    /// Write the line to lldb and report what came of it as a step of the program.
    SendStep(String),
    /// Ask about all editors with changes, and quit unless that is called off.
    AskQuit,
    /// Ask about the editor with the focus, and close it unless that is called off.
    AskCloseEditor,
    /// Close the window with the focus.
    CloseFocused,
    NewEditor,
    OpenFile,
    Save(usize),
    SaveAs(usize),
    ShowWatches,
    ShowOutput,
    ShowCallStack,
    Edit { editor: usize, op: EditOp },
    /// Build the program in the editor.
    Build(usize),
    /// Run the program that was built.
    Run,
    /// Debug the program that was built.
    Debug,
    /// Start the program and wait for its end. Its output is in the capture file, if there is one,
    /// which is emptied before.
    Launch { exe: String, capture: Option<String> },
    About,
    Quit,
}

/// One thing to do outside, over plain values.
#[verifier::ext_equal]
pub enum IdeActionView {
    Print(Seq<char>, OutputStyle),
    ClearOutput,
    SetExecLine { editor: usize, line: Option<usize> },
    SetBuildError { editor: usize, error: Option<(usize, Seq<char>)> },
    ScrollTo { editor: usize, line: usize },
    FocusWindow(usize),
    ShowError(Seq<char>),
    Session(Seq<ActionView>),
    SendStep(Seq<char>),
    AskQuit,
    AskCloseEditor,
    CloseFocused,
    NewEditor,
    OpenFile,
    Save(usize),
    SaveAs(usize),
    ShowWatches,
    ShowOutput,
    ShowCallStack,
    Edit { editor: usize, op: EditOp },
    Build(usize),
    Run,
    Debug,
    Launch { exe: Seq<char>, capture: Option<Seq<char>> },
    About,
    Quit,
}

impl View for IdeAction {
    type V = IdeActionView;

    open spec fn view(&self) -> IdeActionView {
        match self {
            IdeAction::Print(l) => IdeActionView::Print(l.text@, l.style),
            IdeAction::ClearOutput => IdeActionView::ClearOutput,
            IdeAction::SetExecLine { editor, line } => IdeActionView::SetExecLine {
                editor: *editor,
                line: *line,
            },
            IdeAction::SetBuildError { editor, error } => IdeActionView::SetBuildError {
                editor: *editor,
                error: error_text(*error),
            },
            IdeAction::ScrollTo { editor, line } => IdeActionView::ScrollTo {
                editor: *editor,
                line: *line,
            },
            IdeAction::FocusWindow(i) => IdeActionView::FocusWindow(*i),
            IdeAction::ShowError(m) => IdeActionView::ShowError(m@),
            IdeAction::Session(steps) => IdeActionView::Session(action_views(steps@)),
            IdeAction::SendStep(line) => IdeActionView::SendStep(line@),
            IdeAction::AskQuit => IdeActionView::AskQuit,
            IdeAction::AskCloseEditor => IdeActionView::AskCloseEditor,
            IdeAction::CloseFocused => IdeActionView::CloseFocused,
            IdeAction::NewEditor => IdeActionView::NewEditor,
            IdeAction::OpenFile => IdeActionView::OpenFile,
            IdeAction::Save(e) => IdeActionView::Save(*e),
            IdeAction::SaveAs(e) => IdeActionView::SaveAs(*e),
            IdeAction::ShowWatches => IdeActionView::ShowWatches,
            IdeAction::ShowOutput => IdeActionView::ShowOutput,
            IdeAction::ShowCallStack => IdeActionView::ShowCallStack,
            IdeAction::Edit { editor, op } => IdeActionView::Edit { editor: *editor, op: *op },
            IdeAction::Build(e) => IdeActionView::Build(*e),
            IdeAction::Run => IdeActionView::Run,
            IdeAction::Debug => IdeActionView::Debug,
            IdeAction::Launch { exe, capture } => IdeActionView::Launch {
                exe: exe@,
                capture: opt_text(*capture),
            },
            IdeAction::About => IdeActionView::About,
            IdeAction::Quit => IdeActionView::Quit,
        }
    }
}

/// The actions, over plain values.
pub open spec fn ide_actions(v: Seq<IdeAction>) -> Seq<IdeActionView> {
    v.map_values(|a: IdeAction| a@)
}

/// The state of the environment.
pub struct IdeState {
    pub debugger: Debugger,
    watch_vars: Vec<(String, String, VarType)>,
    callstack_frames: Vec<(usize, String)>,
    current_frame_idx: Option<usize>,
    source_path: Option<String>,
    exe_path: Option<String>,
    console_capture_path: Option<String>,
    exec_line: Option<usize>,
    debug_editor: Option<usize>,
    exec_editor: Option<usize>,
    debug_synced_bps: HashSet<usize>,
    layout: ScreenLayout,
    save_wildcard: String,
    untitled_title: String,
    watch_open: bool,
    output_open: bool,
    callstack_open: bool,
    about_text: Option<String>,
}

/// The state of the environment, over plain values.
#[verifier::ext_equal]
pub struct IdeView {
    pub session: SessionView,
    /// The variables of the paused program.
    pub watch: Seq<VarView>,
    /// The frames that were reported since the last stop.
    pub frames: Seq<FrameView>,
    /// The index of the frame that is highlighted in the call stack.
    pub current_frame: Option<usize>,
    pub source: Option<Seq<char>>,
    pub exe: Option<Seq<char>>,
    pub capture: Option<Seq<char>>,
    /// The line on which the program stands.
    pub exec_line: Option<usize>,
    /// The editor whose breakpoints are mirrored in the session.
    pub debug_editor: Option<usize>,
    /// The editor that shows the line on which the program stands.
    pub exec_editor: Option<usize>,
    /// The breakpoints that the session was told of.
    pub synced: Set<usize>,
    pub layout: ScreenLayout,
    pub wildcard: Seq<char>,
    pub untitled: Seq<char>,
    pub watch_open: bool,
    pub output_open: bool,
    pub callstack_open: bool,
    pub about: Option<Seq<char>>,
}

impl View for IdeState {
    type V = IdeView;

    closed spec fn view(&self) -> IdeView {
        IdeView {
            session: self.debugger@,
            watch: var_texts(self.watch_vars@),
            frames: frame_texts(self.callstack_frames@),
            current_frame: self.current_frame_idx,
            source: opt_text(self.source_path),
            exe: opt_text(self.exe_path),
            capture: opt_text(self.console_capture_path),
            exec_line: self.exec_line,
            debug_editor: self.debug_editor,
            exec_editor: self.exec_editor,
            synced: self.debug_synced_bps@,
            layout: self.layout,
            wildcard: self.save_wildcard@,
            untitled: self.untitled_title@,
            watch_open: self.watch_open,
            output_open: self.output_open,
            callstack_open: self.callstack_open,
            about: opt_text(self.about_text),
        }
    }
}

/// What is done once, after the desktop was drawn for the first time.
#[derive(Debug, Clone, Copy, PartialEq, Eq, Structural)]
pub enum StartupStep {
    ShowAbout,
    /// Tell the host that the about box was shown.
    AboutShown,
    /// Tell the host that the desktop is ready.
    DesktopReady,
}

/// What is done once, after the desktop was drawn for the first time: the host is told that the
/// about box was shown as soon as it was closed, and after that that the desktop is ready.
pub fn startup_steps(show_about: bool) -> (r: Vec<StartupStep>)
    ensures
        r@ == if show_about {
            seq![StartupStep::ShowAbout, StartupStep::AboutShown, StartupStep::DesktopReady]
        } else {
            seq![StartupStep::DesktopReady]
        },
{
    let mut r: Vec<StartupStep> = Vec::new();
    if show_about {
        r.push(StartupStep::ShowAbout);
        r.push(StartupStep::AboutShown);
    }
    r.push(StartupStep::DesktopReady);
    r
}

/// The environment at its start, for files with the given extension.
pub open spec fn fresh_ide(
    layout: ScreenLayout,
    extension: Seq<char>,
    about: Option<Seq<char>>,
) -> IdeView {
    IdeView {
        session: fresh(),
        watch: Seq::empty(),
        frames: Seq::empty(),
        current_frame: None,
        source: None,
        exe: None,
        capture: None,
        exec_line: None,
        debug_editor: None,
        exec_editor: None,
        synced: Set::empty(),
        layout,
        wildcard: "*."@ + extension,
        untitled: "Untitled."@ + extension,
        watch_open: false,
        output_open: false,
        callstack_open: false,
        about,
    }
}

/// A debugger session is in use.
pub open spec fn debugging(ide: IdeView) -> bool {
    !(ide.session.state is Idle)
}

/// The environment after the session was ended: nothing of it is left.
pub open spec fn session_over(ide: IdeView) -> IdeView {
    IdeView {
        session: stopped(ide.session),
        watch: Seq::empty(),
        frames: Seq::empty(),
        current_frame: None,
        exec_line: None,
        debug_editor: None,
        exec_editor: None,
        synced: Set::empty(),
        ..ide
    }
}

/// The environment after a report of the debugger.
pub open spec fn after_event(ide: IdeView, event: EventView) -> IdeView {
    match event {
        EventView::Stopped { file, line } => IdeView {
            exec_line: Some(line),
            exec_editor: ide.debug_editor,
            frames: Seq::empty(),
            current_frame: Some(0),
            ..ide
        },
        EventView::Frames(frames) => IdeView { frames: with_frames(ide.frames, frames), ..ide },
        EventView::Variables(vars) => IdeView { watch: with_variables(ide.watch, vars), ..ide },
        EventView::ProgramOutput(_) => ide,
        EventView::Exited { code } => session_over(ide),
    }
}

/// The editor shows no line on which the program stands, where there is an editor.
pub open spec fn clear_bar(editor: Option<usize>) -> Seq<IdeActionView> {
    match editor {
        Some(editor) => seq![IdeActionView::SetExecLine { editor, line: None }],
        None => seq![],
    }
}

/// What is done on a report of the debugger.
pub open spec fn event_actions(ide: IdeView, event: EventView) -> Seq<IdeActionView> {
    match event {
        EventView::ProgramOutput(line) => seq![IdeActionView::Print(line, OutputStyle::Text)],
        EventView::Exited { code } => clear_bar(ide.exec_editor) + clear_bar(ide.debug_editor)
            + seq![
            IdeActionView::Session(stop_steps(ide.session)),
            IdeActionView::Print(
                "Process exited with code "@ + show(code as int),
                code_style(code),
            ),
        ],
        _ => seq![],
    }
}

/// What starts a build of the editor with the focus.
pub open spec fn build_actions(focused: Option<usize>) -> Seq<IdeActionView> {
    match focused {
        Some(editor) => seq![
            IdeActionView::ClearOutput,
            IdeActionView::Print("Building..."@, OutputStyle::Info),
            IdeActionView::SetBuildError { editor, error: None },
            IdeActionView::Build(editor),
        ],
        None => seq![
            IdeActionView::Print(
                "No active editor \u{2014} open or create a file first."@,
                OutputStyle::Info,
            ),
        ],
    }
}

/// An operation on the editor with the focus, where there is one.
pub open spec fn edit_actions(focused: Option<usize>, op: EditOp) -> Seq<IdeActionView> {
    match focused {
        Some(editor) => seq![IdeActionView::Edit { editor, op }],
        None => seq![],
    }
}

/// The step of the program that a command gives, where a session is in use and lldb runs.
pub open spec fn step_actions(ide: IdeView, command: Seq<char>) -> Seq<IdeActionView> {
    if debugging(ide) && ide.session.connected {
        seq![IdeActionView::SendStep(command_line(command))]
    } else {
        seq![]
    }
}

/// The environment after a command.
pub open spec fn after_command(ide: IdeView, command: u16) -> IdeView {
    if command == CM_SHOW_WATCHES {
        IdeView { watch_open: true, ..ide }
    } else if command == CM_SHOW_OUTPUT {
        IdeView { output_open: true, ..ide }
    } else if command == CM_SHOW_CALLSTACK {
        IdeView { callstack_open: true, ..ide }
    } else if (command == CM_DEBUG_START || command == CM_DEBUG_CONTINUE) && debugging(ide) {
        IdeView {
            session: SessionView { state: StateView::Running, ..ide.session },
            exec_line: None,
            ..ide
        }
    } else if command == CM_DEBUG_STOP {
        session_over(ide)
    } else {
        ide
    }
}

/// What is done on a command that the environment acts on. `focused` is the editor with the focus.
pub open spec fn command_actions(ide: IdeView, command: u16, focused: Option<usize>) -> Seq<
    IdeActionView,
> {
    if command == CM_QUIT {
        seq![IdeActionView::AskQuit]
    } else if command == CM_CLOSE_EDITOR {
        seq![IdeActionView::AskCloseEditor]
    } else if command == CM_CLOSE {
        seq![IdeActionView::CloseFocused]
    } else if command == CM_NEW {
        seq![IdeActionView::NewEditor]
    } else if command == CM_SHOW_WATCHES && !ide.watch_open {
        seq![IdeActionView::ShowWatches]
    } else if command == CM_SHOW_OUTPUT && !ide.output_open {
        seq![IdeActionView::ShowOutput]
    } else if command == CM_SHOW_CALLSTACK && !ide.callstack_open {
        seq![IdeActionView::ShowCallStack]
    } else if command == CM_UNDO {
        edit_actions(focused, EditOp::Undo)
    } else if command == CM_REDO {
        edit_actions(focused, EditOp::Redo)
    } else if command == CM_CUT {
        edit_actions(focused, EditOp::Cut)
    } else if command == CM_COPY {
        edit_actions(focused, EditOp::Copy)
    } else if command == CM_PASTE {
        edit_actions(focused, EditOp::Paste)
    } else if command == CM_SELECT_ALL {
        edit_actions(focused, EditOp::SelectAll)
    } else if command == CM_OPEN {
        seq![IdeActionView::OpenFile]
    } else if command == CM_SAVE && focused is Some {
        seq![IdeActionView::Save(focused->0)]
    } else if command == CM_SAVE_AS && focused is Some {
        seq![IdeActionView::SaveAs(focused->0)]
    } else if command == CM_BUILD {
        build_actions(focused)
    } else if command == CM_RUN || command == CM_BUILD_RUN {
        build_actions(focused).push(IdeActionView::Run)
    } else if command == CM_DEBUG_START || command == CM_DEBUG_CONTINUE {
        if !debugging(ide) {
            build_actions(focused).push(IdeActionView::Debug)
        } else if ide.session.connected {
            seq![
                IdeActionView::Session(
                    seq![ActionView::Send(command_line("continue"@))],
                ),
            ]
        } else {
            seq![]
        }
    } else if command == CM_DEBUG_STOP {
        seq![
            IdeActionView::Session(stop_steps(ide.session)),
            IdeActionView::Print("Debugger stopped."@, OutputStyle::Info),
        ]
    } else if command == CM_DEBUG_STEP_OVER {
        step_actions(ide, "next"@)
    } else if command == CM_DEBUG_STEP_INTO {
        step_actions(ide, "step"@)
    } else if command == CM_ABOUT {
        seq![IdeActionView::About]
    } else {
        seq![]
    }
}

/// How a build ended.
pub enum BuildOutcome {
    /// The program, its source and the file that captures its output.
    Built { exe: String, source: String, capture: String },
    /// Why it failed.
    Failed(String),
    Cancelled,
}

/// How a build ended, over plain values.
pub enum OutcomeView {
    Built { exe: Seq<char>, source: Seq<char>, capture: Seq<char> },
    Failed(Seq<char>),
    Cancelled,
}

impl View for BuildOutcome {
    type V = OutcomeView;

    open spec fn view(&self) -> OutcomeView {
        match self {
            BuildOutcome::Built { exe, source, capture } => OutcomeView::Built {
                exe: exe@,
                source: source@,
                capture: capture@,
            },
            BuildOutcome::Failed(e) => OutcomeView::Failed(e@),
            BuildOutcome::Cancelled => OutcomeView::Cancelled,
        }
    }
}

/// How far a build is.
pub enum BuildPhase {
    /// It goes on; what to show.
    Pending(String),
    /// The program, its source and the file that captures its output.
    Done { exe: String, source: String, capture: String },
    /// Why it failed.
    Failed(String),
}

/// What the dialog of a build does next.
pub enum BuildStep {
    /// Show the text, and look for events.
    Show(String),
    /// Close the dialog.
    Close(BuildOutcome),
}

/// What the dialog of a build does next: it is closed once the build has ended.
pub fn build_step(phase: BuildPhase) -> (r: BuildStep)
    ensures
        match phase {
            BuildPhase::Pending(label) => r == BuildStep::Show(label),
            BuildPhase::Done { exe, source, capture } => r == BuildStep::Close(
                BuildOutcome::Built { exe, source, capture },
            ),
            BuildPhase::Failed(e) => r == BuildStep::Close(BuildOutcome::Failed(e)),
        },
{
    match phase {
        BuildPhase::Pending(label) => BuildStep::Show(label),
        BuildPhase::Done { exe, source, capture } => BuildStep::Close(
            BuildOutcome::Built { exe, source, capture },
        ),
        BuildPhase::Failed(e) => BuildStep::Close(BuildOutcome::Failed(e)),
    }
}

/// The outcome of a build whose dialog saw an event: it is called off where the dialog was ended.
pub fn build_event(end_state: u16) -> (r: Option<BuildOutcome>)
    ensures
        r == if end_state != 0 {
            Some(BuildOutcome::Cancelled)
        } else {
            None
        },
{
    if end_state != 0 {
        Some(BuildOutcome::Cancelled)
    } else {
        None
    }
}

/// The environment after a build.
pub open spec fn after_build(ide: IdeView, outcome: OutcomeView) -> IdeView {
    match outcome {
        OutcomeView::Built { exe, source, capture } => IdeView {
            exe: Some(exe),
            source: Some(source),
            capture: Some(capture),
            ..ide
        },
        _ => ide,
    }
}

/// The editor shows on which line the build failed, where the error has a line.
pub open spec fn mark_error(editor: usize, error: Seq<char>) -> Seq<IdeActionView> {
    match error_line(error) {
        Some(line) => seq![IdeActionView::SetBuildError { editor, error: Some((line, error)) }],
        None => seq![],
    }
}

/// What is done when a build of the editor has ended.
pub open spec fn build_report(editor: usize, outcome: OutcomeView) -> Seq<IdeActionView> {
    match outcome {
        OutcomeView::Built { exe, source, capture } => seq![
            IdeActionView::Print("Build successful: "@ + exe, OutputStyle::Success),
        ],
        OutcomeView::Failed(e) => mark_error(editor, e) + seq![
            IdeActionView::Print("Build error: "@ + e, OutputStyle::Failure),
            IdeActionView::ShowError(e),
        ],
        OutcomeView::Cancelled => seq![
            IdeActionView::Print("Build cancelled."@, OutputStyle::Info),
        ],
    }
}

/// What runs the program that was built last.
pub open spec fn launch_actions(ide: IdeView) -> Seq<IdeActionView> {
    match ide.exe {
        Some(exe) => seq![
            IdeActionView::ClearOutput,
            IdeActionView::Print("Running "@ + exe + "..."@, OutputStyle::Info),
            IdeActionView::Launch { exe, capture: ide.capture },
        ],
        None => seq![],
    }
}

/// The start of a session: what to print, the breakpoints, and the steps.
pub struct DebugStart {
    pub announce: ConsoleLine,
    pub lines: Vec<usize>,
    pub steps: Vec<SessionAction>,
}

/// The source of the program that was built last.
pub open spec fn source_of(ide: IdeView) -> Seq<char> {
    match ide.source {
        Some(s) => s,
        None => Seq::empty(),
    }
}

/// The line that announces a session with `n` breakpoints.
pub open spec fn starting_text(n: nat) -> Seq<char> {
    "Starting debugger with "@ + decimal(n) + " breakpoint(s)..."@
}

/// The editor with its breakpoints moved to valid lines.
pub open spec fn snapped_editor(e: EditorView, valid: Set<usize>, last: usize) -> EditorView {
    EditorView {
        gutter: GutterView {
            breakpoints: snapped_all(e.gutter.breakpoints, valid, last),
            ..e.gutter
        },
        ..e
    }
}

/// The session without breakpoints on the lines.
pub open spec fn without_lines(s: SessionView, at: Seq<usize>) -> SessionView
    decreases at.len(),
{
    if at.len() == 0 {
        s
    } else {
        let t = without_lines(s, at.drop_last());
        SessionView { breakpoint_ids: t.breakpoint_ids.remove(at.last()), ..t }
    }
}

/// The steps that take the breakpoints on the lines away, where they have numbers.
pub open spec fn removal_steps(s: SessionView, at: Seq<usize>) -> Seq<ActionView>
    decreases at.len(),
{
    if at.len() == 0 {
        seq![]
    } else {
        let before = removal_steps(s, at.drop_last());
        if s.connected && s.breakpoint_ids.dom().contains(at.last()) {
            before.push(
                ActionView::Send(
                    command_line(
                        "breakpoint delete "@ + decimal(s.breakpoint_ids[at.last()] as nat),
                    ),
                ),
            )
        } else {
            before
        }
    }
}

/// The steps that set breakpoints on the lines; `name` is the name of the source.
pub open spec fn addition_steps(s: SessionView, name: Option<Seq<char>>, at: Seq<usize>) -> Seq<
    ActionView,
> {
    breakpoint_steps(file_known_as(s.source_file, name), at)
}

/// The steps that mirror a change of breakpoints.
pub open spec fn mirror_steps(
    s: SessionView,
    removed: Seq<usize>,
    added: Seq<usize>,
    name: Option<Seq<char>>,
) -> Seq<ActionView> {
    removal_steps(s, removed) + if s.connected {
        addition_steps(s, name, added)
    } else {
        seq![]
    }
}

/// `removed` and `added` are the lines that lost and got a breakpoint since the session was last
/// told, and `name` may be the name of its source.
pub open spec fn mirrors(
    ide: IdeView,
    desired: Set<usize>,
    removed: Seq<usize>,
    added: Seq<usize>,
    name: Option<Seq<char>>,
) -> bool {
    &&& removed.to_set() == ide.synced.difference(desired)
    &&& removed.no_duplicates()
    &&& added.to_set() == desired.difference(ide.synced)
    &&& added.no_duplicates()
    &&& may_name(ide.session.source_file, name)
}

/// The environment after a change of breakpoints was mirrored.
pub open spec fn mirrored(ide: IdeView, desired: Set<usize>, removed: Seq<usize>) -> IdeView {
    IdeView { session: without_lines(ide.session, removed), synced: desired, ..ide }
}

/// The members of a list.
fn line_set(lines: &Vec<usize>) -> (r: HashSet<usize>)
    ensures
        r@ == lines@.to_set(),
{
    let mut r: HashSet<usize> = HashSet::new();
    for i in 0..lines.len()
        invariant
            r@ == lines@.take(i as int).to_set(),
    {
        r.insert(lines[i]);
        proof {
            assert(lines@.take(i + 1) =~= lines@.take(i as int).push(lines@[i as int]));
            lemma_pushed_set(lines@.take(i as int), lines@[i as int]);
        }
    }
    assert(lines@.take(lines@.len() as int) =~= lines@);
    r
}

/// The members of `set` that are not in `other`, each once, in no particular order.
fn difference(set: &HashSet<usize>, other: &HashSet<usize>) -> (out: Vec<usize>)
    ensures
        out@.to_set() == set@.difference(other@),
        out@.no_duplicates(),
{
    let all = list_lines(set);
    let mut out: Vec<usize> = Vec::new();
    for i in 0..all.len()
        invariant
            all@.no_duplicates(),
            out@.no_duplicates(),
            forall|x: usize| #[trigger]
                out@.contains(x) <==> all@.take(i as int).contains(x) && !other@.contains(x),
    {
        let ghost before = out@;
        let ghost seen = all@.take(i as int);
        let x: usize = all[i];
        proof {
            assert(all@.take(i + 1) =~= seen.push(x));
            if seen.contains(x) {
                let k = choose|k: int| 0 <= k < seen.len() && seen[k] == x;
                assert(all@[k] == all@[i as int]);
            }
            assert(!out@.contains(x));
        }
        if !other.contains(&x) {
            out.push(x);
        }
        proof {
            lemma_pushed_contains(seen, x);
            lemma_pushed_contains(before, x);
        }
    }
    proof {
        assert(all@.take(all@.len() as int) =~= all@);
        assert forall|x: usize| out@.to_set().contains(x) == set@.difference(other@).contains(
            x,
        ) by {
            assert(out@.contains(x) <==> all@.contains(x) && !other@.contains(x));
            assert(all@.to_set().contains(x) == set@.contains(x));
        }
        assert(out@.to_set() =~= set@.difference(other@));
    }
    out
}

/// What a list with one more item contains.
proof fn lemma_pushed_contains(list: Seq<usize>, item: usize)
    ensures
        forall|x: usize| #[trigger] list.push(item).contains(x) <==> list.contains(x) || x == item,
{
    assert forall|x: usize| #[trigger] list.push(item).contains(x) <==> list.contains(x) || x
        == item by {
        if list.push(item).contains(x) {
            let k = choose|k: int| 0 <= k < list.push(item).len() && list.push(item)[k] == x;
            if k < list.len() {
                assert(list[k] == x);
            }
        }
        if list.contains(x) {
            let k = choose|k: int| 0 <= k < list.len() && list[k] == x;
            assert(list.push(item)[k] == x);
        }
        if x == item {
            assert(list.push(item)[list.len() as int] == x);
        }
    }
}

/// The lines that lost and got a breakpoint.
pub fn breakpoint_changes(synced: &HashSet<usize>, desired: &HashSet<usize>) -> (r: (
    Vec<usize>,
    Vec<usize>,
))
    ensures
        r.0@.to_set() == synced@.difference(desired@),
        r.0@.no_duplicates(),
        r.1@.to_set() == desired@.difference(synced@),
        r.1@.no_duplicates(),
{
    (difference(synced, desired), difference(desired, synced))
}

/// Taking breakpoints away changes nothing but their numbers.
proof fn lemma_without_lines_only(s: SessionView, at: Seq<usize>)
    ensures
        without_lines(s, at) == (SessionView {
            breakpoint_ids: without_lines(s, at).breakpoint_ids,
            ..s
        }),
        forall|line: usize| #[trigger]
            without_lines(s, at).breakpoint_ids.dom().contains(line)
                <==> s.breakpoint_ids.dom().contains(line) && !at.contains(line),
        forall|line: usize| #[trigger]
            without_lines(s, at).breakpoint_ids.dom().contains(line) ==> without_lines(
                s,
                at,
            ).breakpoint_ids[line] == s.breakpoint_ids[line],
    decreases at.len(),
{
    if at.len() > 0 {
        let fewer = at.drop_last();
        lemma_without_lines_only(s, fewer);
        assert(at =~= fewer.push(at.last()));
        lemma_pushed_contains(fewer, at.last());
    }
}

/// A breakpoint on another line keeps its number.
proof fn lemma_without_lines_keeps(s: SessionView, at: Seq<usize>, line: usize)
    ensures
        without_lines(s, at).connected == s.connected,
        !at.contains(line) ==> (without_lines(s, at).breakpoint_ids.dom().contains(line)
            <==> s.breakpoint_ids.dom().contains(line)),
        !at.contains(line) && s.breakpoint_ids.dom().contains(line) ==> without_lines(
            s,
            at,
        ).breakpoint_ids[line] == s.breakpoint_ids[line],
{
    lemma_without_lines_only(s, at);
    assert(without_lines(s, at).breakpoint_ids.dom().contains(line)
        <==> s.breakpoint_ids.dom().contains(line) && !at.contains(line));
}

/// The editor that shows the line on which the program stands.
pub open spec fn bar_editor(ide: IdeView, focused: Option<usize>) -> Option<usize> {
    if ide.exec_editor is Some {
        ide.exec_editor
    } else if ide.debug_editor is Some {
        ide.debug_editor
    } else {
        focused
    }
}

/// The line (from zero on) to scroll to where line `exec_line` is not among the `visible` lines
/// that are seen.
pub open spec fn scroll_target(exec_line: usize, delta_y: i16, visible: usize) -> Option<usize> {
    if scrolled(delta_y) < exec_line <= scrolled(delta_y) + visible {
        None
    } else {
        Some((exec_line - 1) as usize)
    }
}

/// The line (from zero on) to scroll to so that the line on which the program stands is seen,
/// where it is not. `delta_y` lines are scrolled out at the top, and `visible` lines are seen.
pub fn scroll_to_exec(exec_line: usize, delta_y: i16, visible: usize) -> (r: Option<usize>)
    requires
        exec_line >= 1,
    ensures
        r == scroll_target(exec_line, delta_y, visible),
{
    let top: usize = if delta_y < 0 {
        0
    } else {
        delta_y as usize
    };
    if exec_line <= top || exec_line - top > visible {
        Some(exec_line - 1)
    } else {
        None
    }
}

/// How many lines a source has.
pub fn source_line_count(source: &str) -> (r: usize)
    ensures
        r == lines(source@).len(),
{
    let chars = to_chars(source);
    let rows = line_list(chars.as_slice());
    assert(pieces(rows@).len() == rows@.len());
    rows.len()
}

/// What is done when a row of the watch window is double-clicked.
pub enum WatchEdit {
    Nothing,
    /// Show the message.
    Refuse(String),
    /// Ask for a value.
    Prompt { name: String, current: String, ty: VarType },
}

/// What is done when a row of the watch window is double-clicked, over plain values.
pub enum WatchEditView {
    Nothing,
    Refuse(Seq<char>),
    Prompt { name: Seq<char>, current: Seq<char>, ty: VarType },
}

impl View for WatchEdit {
    type V = WatchEditView;

    open spec fn view(&self) -> WatchEditView {
        match self {
            WatchEdit::Nothing => WatchEditView::Nothing,
            WatchEdit::Refuse(m) => WatchEditView::Refuse(m@),
            WatchEdit::Prompt { name, current, ty } => WatchEditView::Prompt {
                name: name@,
                current: current@,
                ty: *ty,
            },
        }
    }
}

/// A variable, over plain values.
pub open spec fn shown_entry(entry: Option<&(String, String, VarType)>) -> Option<VarView> {
    match entry {
        Some(v) => Some((v.0@, v.1@, v.2)),
        None => None,
    }
}

/// What is done when the variable is double-clicked.
pub open spec fn edit_of(ide: IdeView, entry: Option<VarView>) -> WatchEditView {
    match entry {
        Some((name, value, ty)) => if !(ide.session.state is Paused) {
            WatchEditView::Refuse("The program must be paused at a breakpoint to set a value."@)
        } else if !ty.settable() {
            WatchEditView::Refuse(
                "Variables of type "@ + ty.name() + " are read-only in the watch window."@,
            )
        } else {
            WatchEditView::Prompt { name, current: value, ty }
        },
        None => WatchEditView::Nothing,
    }
}

/// The message when lldb could not be told.
pub open spec fn lldb_error_text(error: Seq<char>) -> Seq<char> {
    "lldb error: "@ + error
}

/// The message when lldb could not be told.
pub fn lldb_error(error: &str) -> (r: String)
    ensures
        r@ == lldb_error_text(error@),
{
    let mut out: String = owned("lldb error: ");
    out.append(error);
    out
}

/// The index, the file and the line of a frame, where it has source.
pub open spec fn frame_source(frame: Option<&(usize, String)>) -> Option<(usize, Seq<char>, usize)> {
    match frame {
        Some(f) => match frame_location(f.1@) {
            Some((file, line)) => Some((f.0, file, line)),
            None => None,
        },
        None => None,
    }
}

/// The position of the first editor window that shows a file of that name.
pub open spec fn shown_window(
    windows: Seq<WindowView>,
    names: Seq<Option<Seq<char>>>,
    file: Seq<char>,
) -> Option<usize> {
    match first_marked(named_windows(windows, names, file)) {
        Some(i) => Some(i as usize),
        None => None,
    }
}

/// The editor to move to: that of the window, or the one that is debugged.
pub open spec fn jump_editor(
    ide: IdeView,
    windows: Seq<WindowView>,
    window: Option<usize>,
) -> Option<usize> {
    match window {
        Some(i) => windows[i as int].editor,
        None => ide.debug_editor,
    }
}

/// The environment after a move to a line in an editor.
pub open spec fn after_jump(
    ide: IdeView,
    editor: Option<usize>,
    index: usize,
    line: usize,
) -> IdeView {
    if editor is Some {
        IdeView {
            exec_editor: editor,
            exec_line: Some(line),
            current_frame: Some(index),
            ..ide
        }
    } else {
        ide
    }
}

/// The window gets the focus.
pub open spec fn focus_action(window: Option<usize>) -> Seq<IdeActionView> {
    match window {
        Some(i) => seq![IdeActionView::FocusWindow(i)],
        None => seq![],
    }
}

/// Another editor that shows the line on which the program stands shows it no more.
pub open spec fn other_bar(ide: IdeView, editor: usize) -> Seq<IdeActionView> {
    match ide.exec_editor {
        Some(prev) => if prev != editor {
            seq![IdeActionView::SetExecLine { editor: prev, line: None }]
        } else {
            seq![]
        },
        None => seq![],
    }
}

/// What is done to move to a line in an editor.
pub open spec fn jump_actions(
    ide: IdeView,
    editor: Option<usize>,
    window: Option<usize>,
    line: usize,
) -> Seq<IdeActionView> {
    match editor {
        Some(editor) => focus_action(window) + seq![
            IdeActionView::ScrollTo {
                editor,
                line: if line > 0 {
                    (line - 1) as usize
                } else {
                    0
                },
            },
        ] + other_bar(ide, editor),
        None => seq![],
    }
}

/// A line of output.
fn print(text: String, style: OutputStyle) -> (r: IdeAction)
    ensures
        r@ == IdeActionView::Print(text@, style),
{
    IdeAction::Print(ConsoleLine { text, style })
}

/// What starts a build of the editor with the focus: a message where there is none.
fn start_build(focused: Option<usize>) -> (out: Vec<IdeAction>)
    ensures
        ide_actions(out@) == build_actions(focused),
{
    let out: Vec<IdeAction> = match focused {
        Some(editor) => vec![
            IdeAction::ClearOutput,
            print(owned("Building..."), OutputStyle::Info),
            IdeAction::SetBuildError { editor, error: None },
            IdeAction::Build(editor),
        ],
        None => vec![
            print(
                owned("No active editor \u{2014} open or create a file first."),
                OutputStyle::Info,
            ),
        ],
    };
    assert(ide_actions(out@) =~= build_actions(focused));
    out
}

/// An operation on the editor with the focus.
fn edit(focused: Option<usize>, op: EditOp) -> (out: Vec<IdeAction>)
    ensures
        ide_actions(out@) == edit_actions(focused, op),
{
    let mut out: Vec<IdeAction> = Vec::new();
    if let Some(editor) = focused {
        out.push(IdeAction::Edit { editor, op });
    }
    assert(ide_actions(out@) =~= edit_actions(focused, op));
    out
}

/// A list of one action.
fn just(action: IdeAction) -> (out: Vec<IdeAction>)
    ensures
        ide_actions(out@) == seq![action@],
{
    let out: Vec<IdeAction> = vec![action];
    assert(ide_actions(out@) =~= seq![action@]);
    out
}

/// An empty list.
fn nothing() -> (out: Vec<IdeAction>)
    ensures
        ide_actions(out@) == Seq::<IdeActionView>::empty(),
{
    let out: Vec<IdeAction> = Vec::new();
    assert(ide_actions(out@) =~= Seq::<IdeActionView>::empty());
    out
}

impl IdeState {
    /// The environment at its start, for files with the given extension.
    pub fn new(layout: ScreenLayout, extension: &str, about_text: Option<String>) -> (r: IdeState)
        ensures
            r@ == fresh_ide(layout, extension@, opt_text(about_text)),
    {
        let mut save_wildcard: String = owned("*.");
        save_wildcard.append(extension);
        let mut untitled_title: String = owned("Untitled.");
        untitled_title.append(extension);
        let r = IdeState {
            debugger: Debugger::new(),
            watch_vars: Vec::new(),
            callstack_frames: Vec::new(),
            current_frame_idx: None,
            source_path: None,
            exe_path: None,
            console_capture_path: None,
            exec_line: None,
            debug_editor: None,
            exec_editor: None,
            debug_synced_bps: HashSet::new(),
            layout,
            save_wildcard,
            untitled_title,
            watch_open: false,
            output_open: false,
            callstack_open: false,
            about_text,
        };
        assert(r@ =~= fresh_ide(layout, extension@, opt_text(about_text)));
        r
    }

    /// Ends the session and forgets all of it. Gives the steps to perform.
    fn end_session(&mut self) -> (steps: Vec<SessionAction>)
        ensures
            final(self)@ == session_over(old(self)@),
            action_views(steps@) == stop_steps(old(self)@.session),
    {
        let steps = self.debugger.stop();
        self.exec_line = None;
        self.exec_editor = None;
        self.watch_vars.clear();
        self.callstack_frames.clear();
        self.current_frame_idx = None;
        self.debug_editor = None;
        self.debug_synced_bps.clear();
        assert(self@ =~= session_over(old(self)@));
        steps
    }

    /// A report of the debugger. A stop puts the program on a line of the editor that is debugged
    /// and makes the frames that are known stale; frames and variables are gathered; and an exit
    /// ends the session.
    pub fn apply_debug_event(&mut self, event: DebugEvent) -> (out: Vec<IdeAction>)
        ensures
            final(self)@ == after_event(old(self)@, event@),
            ide_actions(out@) == event_actions(old(self)@, event@),
    {
        match event {
            DebugEvent::Stopped { file: _, line } => {
                self.exec_line = Some(line);
                self.exec_editor = self.debug_editor;
                self.callstack_frames.clear();
                self.current_frame_idx = Some(0);
                assert(self@ =~= after_event(old(self)@, event@));
                nothing()
            },
            DebugEvent::Frames(frames) => {
                merge_frames(&mut self.callstack_frames, &frames);
                nothing()
            },
            DebugEvent::Variables(vars) => {
                merge_variables(&mut self.watch_vars, &vars);
                nothing()
            },
            DebugEvent::ProgramOutput(line) => just(print(line, OutputStyle::Text)),
            DebugEvent::Exited { code } => {
                let mut out: Vec<IdeAction> = Vec::new();
                if let Some(editor) = self.exec_editor {
                    out.push(IdeAction::SetExecLine { editor, line: None });
                }
                assert(ide_actions(out@) =~= clear_bar(old(self)@.exec_editor));
                if let Some(editor) = self.debug_editor {
                    out.push(IdeAction::SetExecLine { editor, line: None });
                }
                assert(ide_actions(out@) =~= clear_bar(old(self)@.exec_editor) + clear_bar(
                    old(self)@.debug_editor,
                ));
                let ghost before = ide_actions(out@);
                let steps = self.end_session();
                out.push(IdeAction::Session(steps));
                out.push(IdeAction::Print(code_line("Process exited with code ", code)));
                assert(ide_actions(out@) =~= before + seq![
                    IdeActionView::Session(stop_steps(old(self)@.session)),
                    IdeActionView::Print(
                        "Process exited with code "@ + show(code as int),
                        code_style(code),
                    ),
                ]);
                out
            },
        }
    }

    /// The step of the program that a command gives, where a session is in use and lldb runs.
    fn step(&self, over: bool) -> (out: Vec<IdeAction>)
        ensures
            ide_actions(out@) == step_actions(
                self@,
                if over {
                    "next"@
                } else {
                    "step"@
                },
            ),
    {
        if !self.debugger.is_running() {
            return nothing();
        }
        let sent = if over {
            self.debugger.step_over()
        } else {
            self.debugger.step_into()
        };
        match sent {
            Ok(line) => just(IdeAction::SendStep(line)),
            Err(_) => nothing(),
        }
    }

    /// Steps over a line of the program, where a session is in use.
    pub fn step_over(&self) -> (out: Vec<IdeAction>)
        ensures
            ide_actions(out@) == step_actions(self@, "next"@),
    {
        self.step(true)
    }

    /// Steps into a call of the program, where a session is in use.
    pub fn step_into(&self) -> (out: Vec<IdeAction>)
        ensures
            ide_actions(out@) == step_actions(self@, "step"@),
    {
        self.step(false)
    }

    /// Starts to debug, or lets the paused program go on.
    fn start_or_continue(&mut self, focused: Option<usize>) -> (out: Vec<IdeAction>)
        ensures
            final(self)@ == after_command(old(self)@, CM_DEBUG_START),
            ide_actions(out@) == command_actions(old(self)@, CM_DEBUG_START, focused),
    {
        if self.debugger.is_running() {
            let sent = self.debugger.continue_exec();
            self.exec_line = None;
            match sent {
                Ok(line) => {
                    let steps: Vec<SessionAction> = vec![SessionAction::Send(line)];
                    assert(action_views(steps@) =~= seq![
                        ActionView::Send(command_line("continue"@)),
                    ]);
                    just(IdeAction::Session(steps))
                },
                Err(_) => nothing(),
            }
        } else {
            let mut out = start_build(focused);
            let ghost before = ide_actions(out@);
            out.push(IdeAction::Debug);
            assert(ide_actions(out@) =~= before.push(IdeActionView::Debug));
            out
        }
    }

    /// A command. `focused` is the editor with the focus. `None` where the environment does not act
    /// on the command.
    pub fn handle_command(&mut self, command: u16, focused: Option<usize>) -> (r: Option<
        Vec<IdeAction>,
    >)
        ensures
            final(self)@ == after_command(old(self)@, command),
            match r {
                Some(out) => handled(command) && ide_actions(out@) == command_actions(
                    old(self)@,
                    command,
                    focused,
                ),
                None => !handled(command),
            },
    {
        if command == CM_QUIT {
            Some(just(IdeAction::AskQuit))
        } else if command == CM_CLOSE_EDITOR {
            Some(just(IdeAction::AskCloseEditor))
        } else if command == CM_CLOSE {
            Some(just(IdeAction::CloseFocused))
        } else if command == CM_NEW {
            Some(just(IdeAction::NewEditor))
        } else if command == CM_SHOW_WATCHES {
            let open = self.watch_open;
            self.watch_open = true;
            Some(
                if open {
                    nothing()
                } else {
                    just(IdeAction::ShowWatches)
                },
            )
        } else if command == CM_SHOW_OUTPUT {
            let open = self.output_open;
            self.output_open = true;
            Some(
                if open {
                    nothing()
                } else {
                    just(IdeAction::ShowOutput)
                },
            )
        } else if command == CM_SHOW_CALLSTACK {
            let open = self.callstack_open;
            self.callstack_open = true;
            Some(
                if open {
                    nothing()
                } else {
                    just(IdeAction::ShowCallStack)
                },
            )
        } else if command == CM_UNDO {
            Some(edit(focused, EditOp::Undo))
        } else if command == CM_REDO {
            Some(edit(focused, EditOp::Redo))
        } else if command == CM_CUT {
            Some(edit(focused, EditOp::Cut))
        } else if command == CM_COPY {
            Some(edit(focused, EditOp::Copy))
        } else if command == CM_PASTE {
            Some(edit(focused, EditOp::Paste))
        } else if command == CM_SELECT_ALL {
            Some(edit(focused, EditOp::SelectAll))
        } else if command == CM_OPEN {
            Some(just(IdeAction::OpenFile))
        } else if command == CM_SAVE {
            Some(
                match focused {
                    Some(editor) => just(IdeAction::Save(editor)),
                    None => nothing(),
                },
            )
        } else if command == CM_SAVE_AS {
            Some(
                match focused {
                    Some(editor) => just(IdeAction::SaveAs(editor)),
                    None => nothing(),
                },
            )
        } else if command == CM_BUILD {
            Some(start_build(focused))
        } else if command == CM_RUN || command == CM_BUILD_RUN {
            let mut out = start_build(focused);
            let ghost before = ide_actions(out@);
            out.push(IdeAction::Run);
            assert(ide_actions(out@) =~= before.push(IdeActionView::Run));
            Some(out)
        } else if command == CM_DEBUG_START || command == CM_DEBUG_CONTINUE {
            Some(self.start_or_continue(focused))
        } else if command == CM_DEBUG_STOP {
            let steps = self.end_session();
            let out: Vec<IdeAction> = vec![
                IdeAction::Session(steps),
                print(owned("Debugger stopped."), OutputStyle::Info),
            ];
            assert(ide_actions(out@) =~= command_actions(old(self)@, command, focused));
            Some(out)
        } else if command == CM_DEBUG_STEP_OVER {
            Some(self.step(true))
        } else if command == CM_DEBUG_STEP_INTO {
            Some(self.step(false))
        } else if command == CM_ABOUT {
            Some(just(IdeAction::About))
        } else {
            None
        }
    }

    /// All editors with changes were dealt with: the program ends.
    pub fn quit(&mut self) -> (out: Vec<IdeAction>)
        ensures
            final(self)@ == (IdeView { session: stopped(old(self)@.session), ..old(self)@ }),
            ide_actions(out@) == seq![
                IdeActionView::Session(stop_steps(old(self)@.session)),
                IdeActionView::Quit,
            ],
    {
        let steps = self.debugger.stop();
        let out: Vec<IdeAction> = vec![IdeAction::Session(steps), IdeAction::Quit];
        assert(ide_actions(out@) =~= seq![
            IdeActionView::Session(stop_steps(old(self)@.session)),
            IdeActionView::Quit,
        ]);
        out
    }

    /// Tells whether closing the editor with the focus would end the session, so that the user is
    /// asked.
    pub fn closes_debug_target(&self, focused: Option<usize>) -> (r: bool)
        ensures
            r == (debugging(self@) && focused is Some && focused == self@.debug_editor),
    {
        match (focused, self.debug_editor) {
            (Some(editor), Some(target)) => self.debugger.is_running() && editor == target,
            _ => false,
        }
    }

    /// The user was asked whether to close the editor of the session. `None` calls the close off;
    /// else the session is ended.
    pub fn debug_close_answered(&mut self, answer: u16) -> (r: Option<Vec<IdeAction>>)
        ensures
            match r {
                Some(out) => {
                    &&& answer == CM_YES
                    &&& final(self)@ == session_over(old(self)@)
                    &&& ide_actions(out@) == seq![
                        IdeActionView::Session(stop_steps(old(self)@.session)),
                    ]
                },
                None => answer != CM_YES && final(self)@ == old(self)@,
            },
    {
        if answer == CM_YES {
            let steps = self.end_session();
            Some(just(IdeAction::Session(steps)))
        } else {
            None
        }
    }

    /// Windows that were closed may be opened again. Each argument says whether the window is still
    /// on the desktop.
    pub fn windows_swept(&mut self, watch: bool, output: bool, callstack: bool)
        ensures
            final(self)@ == (IdeView {
                watch_open: old(self)@.watch_open && watch,
                output_open: old(self)@.output_open && output,
                callstack_open: old(self)@.callstack_open && callstack,
                ..old(self)@
            }),
    {
        self.watch_open = self.watch_open && watch;
        self.output_open = self.output_open && output;
        self.callstack_open = self.callstack_open && callstack;
    }

    /// A build has ended. The program that was built last stays known where this one failed.
    pub fn build_finished(&mut self, editor: usize, outcome: BuildOutcome) -> (out: Vec<IdeAction>)
        ensures
            final(self)@ == after_build(old(self)@, outcome@),
            ide_actions(out@) == build_report(editor, outcome@),
    {
        match outcome {
            BuildOutcome::Built { exe, source, capture } => {
                let mut text: String = owned("Build successful: ");
                text.append(exe.as_str());
                self.exe_path = Some(exe);
                self.source_path = Some(source);
                self.console_capture_path = Some(capture);
                just(print(text, OutputStyle::Success))
            },
            BuildOutcome::Failed(e) => {
                let mut out: Vec<IdeAction> = Vec::new();
                if let Some(line) = extract_error_line(e.as_str()) {
                    out.push(IdeAction::SetBuildError { editor, error: Some((line, e.clone())) });
                }
                let ghost before = ide_actions(out@);
                assert(before =~= mark_error(editor, e@));
                let mut text: String = owned("Build error: ");
                text.append(e.as_str());
                out.push(print(text, OutputStyle::Failure));
                out.push(IdeAction::ShowError(e));
                assert(ide_actions(out@) =~= before + seq![
                    IdeActionView::Print("Build error: "@ + e@, OutputStyle::Failure),
                    IdeActionView::ShowError(e@),
                ]);
                out
            },
            BuildOutcome::Cancelled => just(print(owned("Build cancelled."), OutputStyle::Info)),
        }
    }

    /// What runs the program that was built last, where one was.
    pub fn run_actions(&self) -> (out: Vec<IdeAction>)
        ensures
            ide_actions(out@) == launch_actions(self@),
    {
        match &self.exe_path {
            Some(exe) => {
                let out: Vec<IdeAction> = vec![
                    IdeAction::ClearOutput,
                    IdeAction::Print(run_start(exe.as_str())),
                    IdeAction::Launch {
                        exe: exe.clone(),
                        capture: copy_opt(&self.console_capture_path),
                    },
                ];
                assert(ide_actions(out@) =~= launch_actions(self@));
                out
            },
            None => nothing(),
        }
    }

    /// The program and the editor to debug, or why there are none.
    pub fn debug_target(&self, focused: Option<usize>) -> (r: Result<(String, usize), ConsoleLine>)
        ensures
            match r {
                Ok((exe, editor)) => self@.exe == Some(exe@) && focused == Some(editor),
                Err(line) => line@ == if self@.exe is None {
                    ("No executable to debug."@, OutputStyle::Failure)
                } else {
                    ("No active editor."@, OutputStyle::Failure)
                } && (self@.exe is None || focused is None),
            },
    {
        match &self.exe_path {
            Some(exe) => match focused {
                Some(editor) => Ok((exe.clone(), editor)),
                None => Err(
                    ConsoleLine { text: owned("No active editor."), style: OutputStyle::Failure },
                ),
            },
            None => Err(
                ConsoleLine {
                    text: owned("No executable to debug."),
                    style: OutputStyle::Failure,
                },
            ),
        }
    }

    /// Begins a session of `exe` with the breakpoints of the editor, which are moved to lines that
    /// a program can stop on. `total_lines` is the number of lines of the source, and `metadata`
    /// the contents of the metadata file, where there is one.
    pub fn debug_begin(
        &mut self,
        exe: &str,
        editor: &mut IdeEditorWindow,
        valid_lines: &[usize],
        total_lines: usize,
        metadata: Option<&str>,
    ) -> (r: DebugStart)
        ensures
            final(editor)@ == snapped_editor(old(editor)@, valid_lines@.to_set(), total_lines),
            r.lines@.to_set() == final(editor)@.gutter.breakpoints,
            r.lines@.no_duplicates(),
            r.announce@ == (starting_text(r.lines@.len()), OutputStyle::Info),
            final(self)@ == (IdeView {
                session: starting(old(self)@.session, source_of(old(self)@), opt_str(metadata)),
                ..old(self)@
            }),
            exists|name: Option<Seq<char>>| #[trigger]
                may_name(source_of(old(self)@), name) && action_views(r.steps@) == start_steps(
                    exe@,
                    file_known_as(source_of(old(self)@), name),
                    r.lines@,
                ),
    {
        editor.snap_breakpoints(valid_lines, total_lines);
        let lines = editor.breakpoint_lines();
        let mut text: String = owned("Starting debugger with ");
        let n: usize = lines.len();
        push_decimal(&mut text, n as u64);
        text.append(" breakpoint(s)...");
        let source = match &self.source_path {
            Some(s) => s.clone(),
            None => String::new(),
        };
        assert(source@ =~= source_of(self@));
        let steps = self.debugger.start(exe, source.as_str(), lines.as_slice(), metadata);
        DebugStart { announce: ConsoleLine { text, style: OutputStyle::Info }, lines, steps }
    }

    /// The steps of the start were performed, or the first that failed ended it. `editor` is the
    /// editor and `lines` its breakpoints.
    pub fn debug_started(&mut self, editor: usize, lines: &Vec<usize>, result: Result<(), String>)
        -> (r: ConsoleLine)
        ensures
            match result {
                Ok(_) => {
                    &&& final(self)@ == (IdeView {
                        debug_editor: Some(editor),
                        synced: lines@.to_set(),
                        ..old(self)@
                    })
                    &&& r@ == ("Debugger started."@, OutputStyle::Success)
                },
                Err(e) => {
                    &&& final(self)@ == old(self)@
                    &&& r@ == ("Debugger error: "@ + e@, OutputStyle::Failure)
                },
            },
    {
        match result {
            Ok(_) => {
                self.debug_editor = Some(editor);
                self.debug_synced_bps = line_set(lines);
                ConsoleLine { text: owned("Debugger started."), style: OutputStyle::Success }
            },
            Err(e) => {
                let mut text: String = owned("Debugger error: ");
                text.append(e.as_str());
                ConsoleLine { text, style: OutputStyle::Failure }
            },
        }
    }

    /// Mirrors the breakpoints of the editor that is debugged into the session: `lines` are those
    /// it has now. Only what has changed is sent. Nothing is done where no session is in use.
    pub fn sync_debug_breakpoints(&mut self, lines: &Vec<usize>) -> (out: Vec<SessionAction>)
        ensures
            if debugging(old(self)@) && old(self)@.debug_editor is Some {
                exists|removed: Seq<usize>, added: Seq<usize>, name: Option<Seq<char>>| #[trigger]
                    mirrors(old(self)@, lines@.to_set(), removed, added, name) && {
                        &&& final(self)@ == mirrored(old(self)@, lines@.to_set(), removed)
                        &&& action_views(out@) == mirror_steps(
                            old(self)@.session,
                            removed,
                            added,
                            name,
                        )
                    }
            } else {
                final(self)@ == old(self)@ && out@.len() == 0
            },
    {
        let mut out: Vec<SessionAction> = Vec::new();
        if !self.debugger.is_running() || self.debug_editor.is_none() {
            return out;
        }
        let desired = line_set(lines);
        let (removed, added) = breakpoint_changes(&self.debug_synced_bps, &desired);
        let ghost session = self.debugger@;
        let ghost before = self@;

        assert(removed@.take(0) =~= seq![]);
        for i in 0..removed.len()
            invariant
                session == before.session,
                self@ == (IdeView { session: without_lines(session, removed@.take(i as int)), ..before }),
                action_views(out@) == removal_steps(session, removed@.take(i as int)),
                removed@.no_duplicates(),
        {
            let ghost shown = action_views(out@);
            proof {
                assert(removed@.take(i + 1).drop_last() =~= removed@.take(i as int));
                lemma_without_lines_keeps(session, removed@.take(i as int), removed@[i as int]);
            }
            match self.debugger.remove_breakpoint(removed[i]) {
                Ok(Some(line)) => {
                    out.push(SessionAction::Send(line));
                    assert(action_views(out@) =~= shown.push(ActionView::Send(line@)));
                },
                _ => {},
            }
            assert(self@ =~= IdeView {
                session: without_lines(session, removed@.take(i + 1)),
                ..before
            });
        }
        assert(removed@.take(removed@.len() as int) =~= removed@);
        let ghost middle = action_views(out@);
        let ghost after = self@;
        proof {
            lemma_without_lines_only(session, removed@);
        }

        let name = self.debugger.source_name();
        let ghost known = opt_text(name);
        let ghost file = file_known_as(session.source_file, known);
        let ghost all = addition_steps(session, known, added@);
        assert(all.take(0) =~= seq![]);
        assert(middle + all.take(0) =~= middle);
        for i in 0..added.len()
            invariant
                self@ == after,
                after.session.connected == session.connected,
                after.session.source_file == session.source_file,
                known == opt_text(name),
                file == file_known_as(session.source_file, known),
                all == addition_steps(session, known, added@),
                action_views(out@) == middle + if session.connected {
                    all.take(i as int)
                } else {
                    seq![]
                },
        {
            let ghost shown = action_views(out@);
            let named = match &name {
                Some(n) => Some(n.as_str()),
                None => None,
            };
            match self.debugger.add_breakpoint_in(named, added[i]) {
                Ok(command) => {
                    let step = SessionAction::SetBreakpoint { line: added[i], command };
                    let ghost one = step@;
                    out.push(step);
                    assert(action_views(out@) =~= shown.push(one));
                    assert(all.take(i + 1) =~= all.take(i as int).push(one));
                    assert(middle + all.take(i + 1) =~= (middle + all.take(i as int)).push(one));
                },
                Err(_) => {},
            }
        }
        proof {
            assert(session.connected ==> all.take(added@.len() as int) =~= all);
            assert(action_views(out@) =~= mirror_steps(session, removed@, added@, known));
        }
        self.debug_synced_bps = desired;
        proof {
            assert(self@ =~= mirrored(before, lines@.to_set(), removed@));
            assert(mirrors(before, lines@.to_set(), removed@, added@, known));
        }
        out
    }

    /// The editor that shows the line on which the program stands: that of a frame that was
    /// clicked, else the one that is debugged, else the one with the focus.
    pub fn exec_target(&self, focused: Option<usize>) -> (r: Option<usize>)
        ensures
            r == bar_editor(self@, focused),
    {
        if self.exec_editor.is_some() {
            self.exec_editor
        } else if self.debug_editor.is_some() {
            self.debug_editor
        } else {
            focused
        }
    }

    /// The line on which the program stands.
    pub fn exec_line(&self) -> (r: Option<usize>)
        ensures
            r == self@.exec_line,
    {
        self.exec_line
    }

    /// The editor whose breakpoints are mirrored in the session.
    pub fn debug_editor(&self) -> (r: Option<usize>)
        ensures
            r == self@.debug_editor,
    {
        self.debug_editor
    }

    /// Where the windows stand.
    pub fn layout(&self) -> (r: ScreenLayout)
        ensures
            r == self@.layout,
    {
        self.layout
    }

    /// The wildcard of file dialogs.
    pub fn save_wildcard(&self) -> (r: &str)
        ensures
            r@ == self@.wildcard,
    {
        self.save_wildcard.as_str()
    }

    /// The title of an editor without a file.
    pub fn untitled_title(&self) -> (r: &str)
        ensures
            r@ == self@.untitled,
    {
        self.untitled_title.as_str()
    }

    /// What decides which commands are enabled; what the editor with the focus can do is given.
    pub fn command_facts(
        &self,
        focused: Option<usize>,
        has_selection: bool,
        can_undo: bool,
        can_redo: bool,
    ) -> (r: CommandFacts)
        ensures
            r == (CommandFacts {
                editor_focused: focused is Some,
                has_selection,
                can_undo,
                can_redo,
                debugging: debugging(self@),
                watch_open: self@.watch_open,
                output_open: self@.output_open,
                callstack_open: self@.callstack_open,
            }),
    {
        CommandFacts {
            editor_focused: focused.is_some(),
            has_selection,
            can_undo,
            can_redo,
            debugging: self.debugger.is_running(),
            watch_open: self.watch_open,
            output_open: self.output_open,
            callstack_open: self.callstack_open,
        }
    }

    /// Shows the variables and the call stack in their panels.
    pub fn update_panels(&self, watch: &mut WatchPanel, callstack: &mut CallStackPanel)
        ensures
            final(watch)@ == (WatchView { variables: self@.watch, ..old(watch)@ }),
            final(callstack)@ == (CallStackView {
                frames: self@.frames,
                current_idx: self@.current_frame,
                ..old(callstack)@
            }),
    {
        let mut vars: Vec<(String, String, VarType)> = Vec::new();
        for i in 0..self.watch_vars.len()
            invariant
                var_texts(vars@) == self@.watch.take(i as int),
        {
            let ghost before = var_texts(vars@);
            let v = &self.watch_vars[i];
            vars.push((v.0.clone(), v.1.clone(), v.2));
            assert(var_texts(vars@) =~= before.push(self@.watch[i as int]));
            assert(self@.watch.take(i + 1) =~= self@.watch.take(i as int).push(
                self@.watch[i as int],
            ));
        }
        assert(self@.watch.take(self@.watch.len() as int) =~= self@.watch);
        watch.set_variables(vars);
        let mut frames: Vec<(usize, String)> = Vec::new();
        for i in 0..self.callstack_frames.len()
            invariant
                frame_texts(frames@) == self@.frames.take(i as int),
        {
            let ghost before = frame_texts(frames@);
            let f = &self.callstack_frames[i];
            frames.push((f.0, f.1.clone()));
            assert(frame_texts(frames@) =~= before.push(self@.frames[i as int]));
            assert(self@.frames.take(i + 1) =~= self@.frames.take(i as int).push(
                self@.frames[i as int],
            ));
        }
        assert(self@.frames.take(self@.frames.len() as int) =~= self@.frames);
        callstack.set_frames(frames);
        callstack.set_current_idx(self.current_frame_idx);
    }

    /// A row of the watch window was double-clicked; `entry` is the variable on it. The value can
    /// be set while the program is paused, where its type allows it.
    pub fn watch_edit(&self, entry: Option<&(String, String, VarType)>) -> (r: WatchEdit)
        ensures
            r@ == edit_of(self@, shown_entry(entry)),
    {
        match entry {
            Some((name, value, ty)) => {
                if !self.debugger.is_paused() {
                    WatchEdit::Refuse(
                        owned("The program must be paused at a breakpoint to set a value."),
                    )
                } else if !ty.is_editable() {
                    let mut text: String = owned("Variables of type ");
                    text.append(ty.label());
                    text.append(" are read-only in the watch window.");
                    WatchEdit::Refuse(text)
                } else {
                    WatchEdit::Prompt { name: name.clone(), current: value.clone(), ty: *ty }
                }
            },
            None => WatchEdit::Nothing,
        }
    }

    /// A value was typed for a variable. Gives the line to write to lldb, or the message that says
    /// why there is none. `number` is what `format_setter_expr` takes.
    pub fn value_typed(&self, name: &str, ty: VarType, value: &str, number: Option<&str>) -> (r:
        Result<String, String>)
        ensures
            match setter_expr(ty, value@, opt_str(number)) {
                Some(expr) => match r {
                    Ok(line) => self@.session.connected && line@ == command_line(
                        "expr "@ + name@ + " = "@ + expr,
                    ),
                    Err(message) => !self@.session.connected && message@ == lldb_error_text(
                        "lldb not running"@,
                    ),
                },
                None => r is Err && r->Err_0@ == "'"@ + value@ + "' is not a valid "@ + ty.name()
                    + " literal."@,
            },
    {
        match format_setter_expr(ty, value, number) {
            Some(expr) => match self.debugger.set_variable(name, expr.as_str()) {
                Ok(line) => Ok(line),
                Err(e) => Err(lldb_error(e.as_str())),
            },
            None => {
                let mut text: String = owned("'");
                text.append(value);
                text.append("' is not a valid ");
                text.append(ty.label());
                text.append(" literal.");
                Err(text)
            },
        }
    }

    /// Moves to a line of the program: in the editor window at position `window` of the desktop, or
    /// else in the editor that is debugged. `index` is the index of the frame.
    pub fn jump(
        &mut self,
        windows: &Vec<DesktopWindow>,
        window: Option<usize>,
        index: usize,
        line: usize,
    ) -> (out: Vec<IdeAction>)
        requires
            window is Some ==> window->0 < windows@.len(),
        ensures
            final(self)@ == after_jump(
                old(self)@,
                jump_editor(old(self)@, window_views(windows@), window),
                index,
                line,
            ),
            ide_actions(out@) == jump_actions(
                old(self)@,
                jump_editor(old(self)@, window_views(windows@), window),
                window,
                line,
            ),
    {
        let target = match window {
            Some(i) => windows[i].editor,
            None => self.debug_editor,
        };
        let mut out: Vec<IdeAction> = Vec::new();
        match target {
            Some(editor) => {
                if let Some(i) = window {
                    out.push(IdeAction::FocusWindow(i));
                }
                let ghost first = ide_actions(out@);
                assert(first =~= focus_action(window));
                let row: usize = if line > 0 {
                    line - 1
                } else {
                    0
                };
                out.push(IdeAction::ScrollTo { editor, line: row });
                let ghost second = ide_actions(out@);
                assert(second =~= first + seq![IdeActionView::ScrollTo { editor, line: row }]);
                if let Some(prev) = self.exec_editor {
                    if prev != editor {
                        out.push(IdeAction::SetExecLine { editor: prev, line: None });
                    }
                }
                assert(ide_actions(out@) =~= second + other_bar(old(self)@, editor));
                self.exec_editor = Some(editor);
                self.exec_line = Some(line);
                self.current_frame_idx = Some(index);
            },
            None => {
                assert(ide_actions(out@) =~= Seq::<IdeActionView>::empty());
            },
        }
        out
    }

    /// A row of the call stack was clicked; `frame` is the frame on it. Moves to the line of the
    /// frame, in the first editor that shows a file of that name, or else in the editor that is
    /// debugged. A frame without source is ignored.
    pub fn callstack_jump(
        &mut self,
        frame: Option<&(usize, String)>,
        windows: &Vec<DesktopWindow>,
    ) -> (out: Vec<IdeAction>)
        ensures
            match frame_source(frame) {
                Some((index, file, line)) => exists|names: Seq<Option<Seq<char>>>| #[trigger]
                    may_have_names(window_views(windows@), names) && {
                        let window = shown_window(window_views(windows@), names, file);
                        let editor = jump_editor(old(self)@, window_views(windows@), window);
                        &&& final(self)@ == after_jump(old(self)@, editor, index, line)
                        &&& ide_actions(out@) == jump_actions(old(self)@, editor, window, line)
                    },
                None => final(self)@ == old(self)@ && out@.len() == 0,
            },
    {
        match frame {
            Some((index, text)) => match parse_frame_location(text.as_str()) {
                Some((file, line)) => {
                    let window = source_window(windows, file.as_str());
                    proof {
                        let names = choose|names: Seq<Option<Seq<char>>>| #[trigger]
                            may_have_names(window_views(windows@), names) && match window {
                                Some(i) => first_marked(
                                    named_windows(window_views(windows@), names, file@),
                                ) == Some(i as int) && i < windows@.len()
                                    && windows@[i as int].editor is Some,
                                None => first_marked(
                                    named_windows(window_views(windows@), names, file@),
                                ) is None,
                            };
                        assert(may_have_names(window_views(windows@), names));
                        assert(window == shown_window(window_views(windows@), names, file@));
                    }
                    self.jump(windows, window, *index, line)
                },
                None => Vec::new(),
            },
            None => Vec::new(),
        }
    }

    /// The text of the about box.
    pub fn about_body(&self, language_name: &str) -> (r: String)
        ensures
            r@ == match self@.about {
                Some(text) => text,
                None => "Bruto IDE\n\nLanguage: "@ + language_name@
                    + "\n\n(c) 2026 Enzo Lombardi"@,
            },
    {
        match &self.about_text {
            Some(text) => text.clone(),
            None => {
                let mut out: String = owned("Bruto IDE\n\nLanguage: ");
                out.append(language_name);
                out.append("\n\n(c) 2026 Enzo Lombardi");
                out
            },
        }
    }
}

/// The frames are in the order of their indices, and no two variables have the same name.
pub open spec fn tidy(ide: IdeView) -> bool {
    frames_sorted(ide.frames) && names_distinct(ide.watch)
}

/// Whatever happens, frames stay in the order of their indices and the names of variables distinct.
pub proof fn lemma_always_tidy(
    ide: IdeView,
    event: EventView,
    command: u16,
    outcome: OutcomeView,
    desired: Set<usize>,
    removed: Seq<usize>,
    editor: Option<usize>,
    index: usize,
    line: usize,
)
    requires
        tidy(ide),
    ensures
        tidy(after_event(ide, event)),
        tidy(after_command(ide, command)),
        tidy(session_over(ide)),
        tidy(after_build(ide, outcome)),
        tidy(mirrored(ide, desired, removed)),
        tidy(after_jump(ide, editor, index, line)),
{
    match event {
        EventView::Frames(frames) => {
            lemma_frames_stay_sorted(ide.frames, frames);
        },
        EventView::Variables(vars) => {
            lemma_variables_stay_distinct(ide.watch, vars);
        },
        _ => {},
    }
}

/// The environment starts tidy and without a session.
pub proof fn lemma_fresh_is_tidy(
    layout: ScreenLayout,
    extension: Seq<char>,
    about: Option<Seq<char>>,
)
    ensures
        tidy(fresh_ide(layout, extension, about)),
        !debugging(fresh_ide(layout, extension, about)),
{
}

/// After a stop the program stands on the reported line, in the editor that is debugged, whatever
/// frame was looked at before; frame zero is highlighted and no frame of an earlier stop is left.
pub proof fn lemma_stop_shows_line(
    ide: IdeView,
    file: Seq<char>,
    line: usize,
    focused: Option<usize>,
)
    ensures
        ({
            let after = after_event(ide, EventView::Stopped { file, line });
            &&& after.exec_line == Some(line)
            &&& ide.debug_editor is Some ==> bar_editor(after, focused) == ide.debug_editor
            &&& after.current_frame == Some(0usize)
            &&& after.frames.len() == 0
            &&& after.watch == ide.watch
        }),
{
}

/// An exit of the program and a stop of the debugger end alike: no session, no line, no frame, no
/// variable, and no breakpoint that is taken for known. Ending a session again changes nothing,
/// and what was built stays known.
pub proof fn lemma_session_end_forgets(ide: IdeView, code: i32)
    ensures
        after_event(ide, EventView::Exited { code }) == after_command(ide, CM_DEBUG_STOP),
        ({
            let after = after_command(ide, CM_DEBUG_STOP);
            &&& !debugging(after)
            &&& after.exec_line is None
            &&& after.exec_editor is None
            &&& after.debug_editor is None
            &&& after.current_frame is None
            &&& after.frames.len() == 0
            &&& after.watch.len() == 0
            &&& after.synced == Set::<usize>::empty()
            &&& after.exe == ide.exe
            &&& session_over(after) == after
        }),
{
    assert(session_over(session_over(ide)) =~= session_over(ide));
}

/// A build that fails or is called off leaves the program that was built before.
pub proof fn lemma_failed_build_changes_nothing(ide: IdeView, error: Seq<char>)
    ensures
        after_build(ide, OutcomeView::Failed(error)) == ide,
        after_build(ide, OutcomeView::Cancelled) == ide,
{
}

/// A panel that is open is not opened again.
pub proof fn lemma_panels_open_once(ide: IdeView, command: u16, focused: Option<usize>)
    requires
        command == CM_SHOW_WATCHES || command == CM_SHOW_OUTPUT || command == CM_SHOW_CALLSTACK,
    ensures
        command_actions(after_command(ide, command), command, focused).len() == 0,
        command_actions(ide, command, focused).len() <= 1,
{
}

/// Steps that take breakpoints away leave the session to be told.
proof fn lemma_removals_are_sends(t: SessionView, s: SessionView, at: Seq<usize>)
    ensures
        after_steps(t, removal_steps(s, at)) == t,
    decreases at.len(),
{
    if at.len() > 0 {
        let before = removal_steps(s, at.drop_last());
        lemma_removals_are_sends(t, s, at.drop_last());
        if s.connected && s.breakpoint_ids.dom().contains(at.last()) {
            assert(removal_steps(s, at).drop_last() =~= before);
        }
    }
}

/// Where the session knew the breakpoints of the editor, it knows the new ones once the steps were
/// performed.
pub proof fn lemma_mirror_matches_editor(
    ide: IdeView,
    desired: Set<usize>,
    removed: Seq<usize>,
    added: Seq<usize>,
    name: Option<Seq<char>>,
)
    requires
        mirrors(ide, desired, removed, added, name),
        ide.session.connected,
        ide.session.breakpoint_ids.dom() == ide.synced,
        ide.session.next_bp_id + added.len() <= u32::MAX,
    ensures
        after_steps(
            mirrored(ide, desired, removed).session,
            mirror_steps(ide.session, removed, added, name),
        ).breakpoint_ids.dom() == desired,
        mirrored(ide, desired, removed).synced == desired,
{
    let s = ide.session;
    let t = mirrored(ide, desired, removed).session;
    let file = file_known_as(s.source_file, name);
    lemma_steps_in_parts(t, removal_steps(s, removed), addition_steps(s, name, added));
    lemma_removals_are_sends(t, s, removed);
    lemma_without_lines_only(s, removed);
    lemma_breakpoint_steps(t, file, added);
    let ids = after_steps(t, breakpoint_steps(file, added)).breakpoint_ids;
    assert forall|line: usize| ids.dom().contains(line) == desired.contains(line) by {
        assert(removed.contains(line) == removed.to_set().contains(line));
        assert(added.contains(line) == added.to_set().contains(line));
    }
    assert(ids.dom() =~= desired);
}

/// Taking breakpoints away by their numbers keeps session and lldb in agreement.
proof fn lemma_removals_reach_lldb(s: SessionView, l: LldbView, file: Seq<char>, at: Seq<usize>)
    requires
        agree(s, l),
        s.connected,
        at.no_duplicates(),
    ensures
        agree(without_lines(s, at), performs_all(l, file, removal_steps(s, at))),
    decreases at.len(),
{
    if at.len() > 0 {
        let fewer = at.drop_last();
        let line = at.last();
        lemma_removals_reach_lldb(s, l, file, fewer);
        let t = without_lines(s, fewer);
        let m = performs_all(l, file, removal_steps(s, fewer));
        if fewer.contains(line) {
            let k = choose|k: int| 0 <= k < fewer.len() && fewer[k] == line;
            assert(at[k] == at[at.len() - 1]);
        }
        lemma_without_lines_keeps(s, fewer, line);
        if s.breakpoint_ids.dom().contains(line) {
            lemma_delete_keeps_agreement(t, m, file, line);
            assert(removal_steps(s, at).drop_last() =~= removal_steps(s, fewer));
        } else {
            assert(t.breakpoint_ids.remove(line) =~= t.breakpoint_ids);
        }
    }
}

/// What is sent when breakpoints are clicked on and off reaches lldb: where it had the breakpoints
/// of the session, it stops afterwards on exactly the lines that have one now, and the session
/// knows them by the numbers that lldb has.
pub proof fn lemma_mirror_reaches_lldb(
    ide: IdeView,
    l: LldbView,
    desired: Set<usize>,
    removed: Seq<usize>,
    added: Seq<usize>,
    name: Option<Seq<char>>,
)
    requires
        mirrors(ide, desired, removed, added, name),
        ide.session.connected,
        ide.session.breakpoint_ids.dom() == ide.synced,
        ide.session.next_bp_id + added.len() <= u32::MAX,
        agree(ide.session, l),
    ensures
        ({
            let steps = mirror_steps(ide.session, removed, added, name);
            let file = file_known_as(ide.session.source_file, name);
            let m = performs_all(l, file, steps);
            &&& stops_on(m, desired)
            &&& agree(after_steps(mirrored(ide, desired, removed).session, steps), m)
        }),
{
    let s = ide.session;
    let file = file_known_as(s.source_file, name);
    let steps = mirror_steps(s, removed, added, name);
    let t = without_lines(s, removed);
    let takes = removal_steps(s, removed);
    let sets = breakpoint_steps(file, added);
    assert(steps == takes + sets);
    lemma_performs_in_parts(l, file, takes, sets);
    lemma_removals_reach_lldb(s, l, file, removed);
    lemma_without_lines_only(s, removed);
    assert forall|i: int| 0 <= i < added.len() implies !t.breakpoint_ids.dom().contains(
        #[trigger] added[i],
    ) by {
        assert(added.to_set().contains(added[i]));
    }
    let m1 = performs_all(l, file, takes);
    lemma_sets_keep_agreement(t, m1, file, added);
    lemma_steps_in_parts(t, takes, sets);
    lemma_removals_are_sends(t, s, removed);
    lemma_mirror_matches_editor(ide, desired, removed, added, name);
    let u = after_steps(t, steps);
    lemma_agreeing_stops(u, performs_all(l, file, steps));
    assert(mirrored(ide, desired, removed).session == t);
}

/// Where nothing has changed, nothing is sent.
pub proof fn lemma_unchanged_breakpoints_send_nothing(
    ide: IdeView,
    removed: Seq<usize>,
    added: Seq<usize>,
    name: Option<Seq<char>>,
)
    requires
        mirrors(ide, ide.synced, removed, added, name),
    ensures
        mirror_steps(ide.session, removed, added, name).len() == 0,
        mirrored(ide, ide.synced, removed) == ide,
{
    if removed.len() > 0 {
        assert(removed.to_set().contains(removed[0]));
    }
    if added.len() > 0 {
        assert(added.to_set().contains(added[0]));
    }
}

/// The line that is scrolled to is seen once it is the first that is seen.
pub proof fn lemma_scroll_shows_line(exec_line: usize, delta_y: i16, visible: usize)
    requires
        exec_line >= 1,
        visible >= 1,
    ensures
        match scroll_target(exec_line, delta_y, visible) {
            Some(row) => row <= i16::MAX ==> scroll_target(exec_line, row as i16, visible) is None,
            None => true,
        },
{
}

/// A program is built before it is run or debugged, in the editor with the focus: the output is
/// cleared, the error of the last build goes away, and the build comes last of these. Without an
/// editor a message says so.
pub proof fn lemma_built_before_run(ide: IdeView, editor: usize)
    ensures
        ({
            let build = command_actions(ide, CM_BUILD, Some(editor));
            let refused = command_actions(ide, CM_BUILD, None);
            &&& build == seq![
                IdeActionView::ClearOutput,
                IdeActionView::Print("Building..."@, OutputStyle::Info),
                IdeActionView::SetBuildError { editor, error: None },
                IdeActionView::Build(editor),
            ]
            &&& refused.len() == 1 && refused[0] is Print
            &&& command_actions(ide, CM_RUN, Some(editor)) == build.push(IdeActionView::Run)
            &&& command_actions(ide, CM_BUILD_RUN, Some(editor)) == build.push(IdeActionView::Run)
            &&& command_actions(ide, CM_RUN, None) == refused.push(IdeActionView::Run)
            &&& ide.session.state is Idle ==> command_actions(ide, CM_DEBUG_START, Some(editor))
                == build.push(IdeActionView::Debug)
        }),
{
}

/// The commands of the debugger: starting while a session is in use lets the program go on and the
/// line on which it stood is not shown any more; a step is told to lldb and changes nothing yet;
/// none of them tells lldb anything where it takes no commands.
pub proof fn lemma_debugger_commands(ide: IdeView, focused: Option<usize>)
    ensures
        ({
            let used = !(ide.session.state is Idle);
            let told = used && ide.session.connected;
            &&& told ==> command_actions(ide, CM_DEBUG_START, focused) == seq![
                IdeActionView::Session(seq![ActionView::Send("continue"@.push('\n'))]),
            ]
            &&& used && !told ==> command_actions(ide, CM_DEBUG_START, focused).len() == 0
            &&& command_actions(ide, CM_DEBUG_CONTINUE, focused) == command_actions(
                ide,
                CM_DEBUG_START,
                focused,
            )
            &&& after_command(ide, CM_DEBUG_CONTINUE) == after_command(ide, CM_DEBUG_START)
            &&& used ==> after_command(ide, CM_DEBUG_START).session.state is Running && after_command(
                ide,
                CM_DEBUG_START,
            ).exec_line is None
            &&& !used ==> after_command(ide, CM_DEBUG_START) == ide
            &&& command_actions(ide, CM_DEBUG_STEP_OVER, focused) == if told {
                seq![IdeActionView::SendStep("next"@.push('\n'))]
            } else {
                seq![]
            }
            &&& command_actions(ide, CM_DEBUG_STEP_INTO, focused) == if told {
                seq![IdeActionView::SendStep("step"@.push('\n'))]
            } else {
                seq![]
            }
            &&& after_command(ide, CM_DEBUG_STEP_OVER) == ide
            &&& after_command(ide, CM_DEBUG_STEP_INTO) == ide
            &&& command_actions(ide, CM_DEBUG_STOP, focused) == seq![
                IdeActionView::Session(stop_steps(ide.session)),
                IdeActionView::Print("Debugger stopped."@, OutputStyle::Info),
            ]
        }),
{
    let none = Seq::<IdeActionView>::empty();
    assert(step_actions(ide, "next"@) =~= if debugging(ide) && ide.session.connected {
        seq![IdeActionView::SendStep("next"@.push('\n'))]
    } else {
        none
    });
    assert(step_actions(ide, "step"@) =~= if debugging(ide) && ide.session.connected {
        seq![IdeActionView::SendStep("step"@.push('\n'))]
    } else {
        none
    });
}

/// The commands on windows, files and text: each does one thing, those on an editor only where one
/// has the focus, and none of them touches the session or what was built.
pub proof fn lemma_window_commands(ide: IdeView, focused: Option<usize>, editor: usize, command: u16)
    ensures
        command_actions(ide, CM_QUIT, focused) == seq![IdeActionView::AskQuit],
        command_actions(ide, CM_CLOSE_EDITOR, focused) == seq![IdeActionView::AskCloseEditor],
        command_actions(ide, CM_CLOSE, focused) == seq![IdeActionView::CloseFocused],
        command_actions(ide, CM_NEW, focused) == seq![IdeActionView::NewEditor],
        command_actions(ide, CM_OPEN, focused) == seq![IdeActionView::OpenFile],
        command_actions(ide, CM_ABOUT, focused) == seq![IdeActionView::About],
        command_actions(ide, CM_SAVE, Some(editor)) == seq![IdeActionView::Save(editor)],
        command_actions(ide, CM_SAVE_AS, Some(editor)) == seq![IdeActionView::SaveAs(editor)],
        command_actions(ide, CM_UNDO, Some(editor)) == seq![
            IdeActionView::Edit { editor, op: EditOp::Undo },
        ],
        command_actions(ide, CM_REDO, Some(editor)) == seq![
            IdeActionView::Edit { editor, op: EditOp::Redo },
        ],
        command_actions(ide, CM_CUT, Some(editor)) == seq![
            IdeActionView::Edit { editor, op: EditOp::Cut },
        ],
        command_actions(ide, CM_COPY, Some(editor)) == seq![
            IdeActionView::Edit { editor, op: EditOp::Copy },
        ],
        command_actions(ide, CM_PASTE, Some(editor)) == seq![
            IdeActionView::Edit { editor, op: EditOp::Paste },
        ],
        command_actions(ide, CM_SELECT_ALL, Some(editor)) == seq![
            IdeActionView::Edit { editor, op: EditOp::SelectAll },
        ],
        command == CM_SAVE || command == CM_SAVE_AS || command == CM_UNDO || command == CM_REDO
            || command == CM_CUT || command == CM_COPY || command == CM_PASTE || command
            == CM_SELECT_ALL ==> command_actions(ide, command, None).len() == 0,
        command_actions(ide, CM_SHOW_WATCHES, focused) == if ide.watch_open {
            seq![]
        } else {
            seq![IdeActionView::ShowWatches]
        },
        command_actions(ide, CM_SHOW_OUTPUT, focused) == if ide.output_open {
            seq![]
        } else {
            seq![IdeActionView::ShowOutput]
        },
        command_actions(ide, CM_SHOW_CALLSTACK, focused) == if ide.callstack_open {
            seq![]
        } else {
            seq![IdeActionView::ShowCallStack]
        },
        after_command(ide, CM_SHOW_WATCHES) == (IdeView { watch_open: true, ..ide }),
        after_command(ide, CM_SHOW_OUTPUT) == (IdeView { output_open: true, ..ide }),
        after_command(ide, CM_SHOW_CALLSTACK) == (IdeView { callstack_open: true, ..ide }),
        command != CM_SHOW_WATCHES && command != CM_SHOW_OUTPUT && command != CM_SHOW_CALLSTACK
            && command != CM_DEBUG_START && command != CM_DEBUG_CONTINUE && command != CM_DEBUG_STOP
            ==> after_command(ide, command) == ide,
{
}

/// What the debugger reports is shown: the output of the program as text, line by line; an exit with
/// its code, in the colours of a success exactly where it is zero, after the editors have let go of
/// the line and lldb was ended; stops, variables and frames need nothing done outside.
pub proof fn lemma_reports_shown(
    ide: IdeView,
    text: Seq<char>,
    code: i32,
    file: Seq<char>,
    line: usize,
    vars: Seq<VarView>,
    frames: Seq<FrameView>,
)
    ensures
        event_actions(ide, EventView::ProgramOutput(text)) == seq![
            IdeActionView::Print(text, OutputStyle::Text),
        ],
        after_event(ide, EventView::ProgramOutput(text)) == ide,
        event_actions(ide, EventView::Stopped { file, line }).len() == 0,
        event_actions(ide, EventView::Variables(vars)).len() == 0,
        event_actions(ide, EventView::Frames(frames)).len() == 0,
        ({
            let done = event_actions(ide, EventView::Exited { code });
            let n = done.len() as int;
            &&& n >= 2
            &&& done[n - 1] == IdeActionView::Print(
                "Process exited with code "@ + show(code as int),
                if code == 0 {
                    OutputStyle::Success
                } else {
                    OutputStyle::Failure
                },
            )
            &&& done[n - 2] == IdeActionView::Session(stop_steps(ide.session))
            &&& ide.exec_editor is Some ==> done.contains(
                IdeActionView::SetExecLine { editor: ide.exec_editor->0, line: None },
            )
            &&& ide.debug_editor is Some ==> done.contains(
                IdeActionView::SetExecLine { editor: ide.debug_editor->0, line: None },
            )
            &&& forall|i: int|
                0 <= i < n - 2 ==> (#[trigger] done[i]) is SetExecLine && done[i]->SetExecLine_line
                    is None
        }),
{
    let done = event_actions(ide, EventView::Exited { code });
    let a = clear_bar(ide.exec_editor);
    let b = clear_bar(ide.debug_editor);
    if ide.exec_editor is Some {
        assert(done[0] == IdeActionView::SetExecLine { editor: ide.exec_editor->0, line: None });
    }
    if ide.debug_editor is Some {
        assert(done[a.len() as int] == IdeActionView::SetExecLine {
            editor: ide.debug_editor->0,
            line: None,
        });
    }
}

/// Variables and frames that are reported reach the panels, and a report changes nothing else.
pub proof fn lemma_reports_reach_panels(ide: IdeView, v: VarView, f: FrameView)
    ensures
        after_event(ide, EventView::Variables(seq![v])).watch.contains(v),
        after_event(ide, EventView::Variables(seq![v])) == (IdeView {
            watch: after_event(ide, EventView::Variables(seq![v])).watch,
            ..ide
        }),
        frames_sorted(ide.frames) ==> after_event(
            ide,
            EventView::Frames(seq![f]),
        ).frames.contains(f),
        after_event(ide, EventView::Frames(seq![f])) == (IdeView {
            frames: after_event(ide, EventView::Frames(seq![f])).frames,
            ..ide
        }),
{
    crate::tracking::lemma_reports_in_order(ide.watch, seq![], seq![], v);
    crate::tracking::lemma_variable_reported(ide.watch, v);
    crate::tracking::lemma_frames_in_order(ide.frames, seq![], seq![], f);
    if frames_sorted(ide.frames) {
        crate::tracking::lemma_frame_reported(ide.frames, f);
    }
}

/// A build that succeeds is remembered, with its source and its output, and nothing else changes;
/// what is run next is that program.
pub proof fn lemma_build_remembered(
    ide: IdeView,
    exe: Seq<char>,
    source: Seq<char>,
    capture: Seq<char>,
    editor: usize,
    error: Seq<char>,
)
    ensures
        ({
            let built = after_build(ide, OutcomeView::Built { exe, source, capture });
            &&& built == (IdeView {
                exe: Some(exe),
                source: Some(source),
                capture: Some(capture),
                ..ide
            })
            &&& source_of(built) == source
            &&& launch_actions(built).last() == IdeActionView::Launch {
                exe,
                capture: Some(capture),
            }
            &&& launch_actions(built)[0] == IdeActionView::ClearOutput
            &&& launch_actions(built)[1] == IdeActionView::Print(
                "Running "@ + exe + "..."@,
                OutputStyle::Info,
            )
        }),
        ide.exe is None ==> launch_actions(ide).len() == 0,
        build_report(editor, OutcomeView::Built { exe, source, capture }) == seq![
            IdeActionView::Print("Build successful: "@ + exe, OutputStyle::Success),
        ],
        build_report(editor, OutcomeView::Cancelled) == seq![
            IdeActionView::Print("Build cancelled."@, OutputStyle::Info),
        ],
        ({
            let failed = build_report(editor, OutcomeView::Failed(error));
            let n = failed.len() as int;
            &&& failed[n - 1] == IdeActionView::ShowError(error)
            &&& failed[n - 2] == IdeActionView::Print(
                "Build error: "@ + error,
                OutputStyle::Failure,
            )
            &&& error_line(error) is Some ==> n == 3 && failed[0] == IdeActionView::SetBuildError {
                editor,
                error: Some((error_line(error)->0, error)),
            }
            &&& error_line(error) is None ==> n == 2
        }),
{
}

/// The value of a variable can be asked for exactly where the program is paused and the type allows
/// it; the dialog gets the name and the value as they are shown.
pub proof fn lemma_edit_while_paused(ide: IdeView, name: Seq<char>, value: Seq<char>, ty: VarType)
    ensures
        edit_of(ide, None) is Nothing,
        edit_of(ide, Some((name, value, ty))) is Prompt <==> ide.session.state is Paused && (ty
            == VarType::Integer || ty == VarType::Real || ty == VarType::Boolean || ty
            == VarType::Char),
        edit_of(ide, Some((name, value, ty))) is Prompt ==> edit_of(ide, Some((name, value, ty)))
            == (WatchEditView::Prompt { name, current: value, ty }),
        !(edit_of(ide, Some((name, value, ty))) is Nothing),
{
}

/// A click on a frame moves to its line: the editor is scrolled so that the line (from one on) is
/// reached (from zero on), the window that shows it gets the focus first, another editor lets go of
/// the line, and the frame is the current one. Without an editor to move to nothing is done.
pub proof fn lemma_jump_moves_to_line(
    ide: IdeView,
    editor: usize,
    window: Option<usize>,
    index: usize,
    line: usize,
)
    requires
        line >= 1,
    ensures
        ({
            let done = jump_actions(ide, Some(editor), window, line);
            let now = after_jump(ide, Some(editor), index, line);
            &&& done.contains(IdeActionView::ScrollTo { editor, line: (line - 1) as usize })
            &&& window is Some ==> done[0] == IdeActionView::FocusWindow(window->0)
            &&& window is None ==> done[0] is ScrollTo
            &&& ide.exec_editor is Some && ide.exec_editor != Some(editor) ==> done.contains(
                IdeActionView::SetExecLine { editor: ide.exec_editor->0, line: None },
            )
            &&& !done.contains(IdeActionView::SetExecLine { editor, line: None })
            &&& now.exec_editor == Some(editor) && now.exec_line == Some(line) && now.current_frame
                == Some(index)
            &&& now.session == ide.session && now.frames == ide.frames && now.watch == ide.watch
                && now.debug_editor == ide.debug_editor && now.synced == ide.synced
        }),
        jump_actions(ide, None, window, line).len() == 0,
        after_jump(ide, None, index, line) == ide,
{
    let done = jump_actions(ide, Some(editor), window, line);
    let f = focus_action(window).len() as int;
    assert(done[f] == IdeActionView::ScrollTo { editor, line: (line - 1) as usize });
    if ide.exec_editor is Some && ide.exec_editor != Some(editor) {
        assert(done[f + 1] == IdeActionView::SetExecLine {
            editor: ide.exec_editor->0,
            line: None,
        });
    }
}

/// The line on which the program stands is scrolled to exactly where it is not among the lines that
/// are seen, and then it becomes the first of them.
pub proof fn lemma_scrolled_where_hidden(exec_line: usize, delta_y: i16, visible: usize)
    requires
        exec_line >= 1,
    ensures
        ({
            let top: int = if delta_y > 0 {
                delta_y as int
            } else {
                0
            };
            scroll_target(exec_line, delta_y, visible) == if top < exec_line && exec_line <= top
                + visible {
                None
            } else {
                Some((exec_line - 1) as usize)
            }
        }),
{
}

/// The editor that shows the line on which the program stands: that of the frame that was moved to,
/// else the one that is debugged, else the one with the focus.
pub proof fn lemma_bar_in_editor(ide: IdeView, focused: Option<usize>)
    ensures
        ide.exec_editor is Some ==> bar_editor(ide, focused) == ide.exec_editor,
        ide.exec_editor is None && ide.debug_editor is Some ==> bar_editor(ide, focused)
            == ide.debug_editor,
        ide.exec_editor is None && ide.debug_editor is None ==> bar_editor(ide, focused) == focused,
{
}

/// A new environment is for the files of the language: dialogs list them, and an editor without a
/// file is called after them.
pub proof fn lemma_environment_for_language(
    layout: ScreenLayout,
    extension: Seq<char>,
    about: Option<Seq<char>>,
    e: EditorView,
    valid: Set<usize>,
    last: usize,
    n: nat,
)
    ensures
        fresh_ide(layout, extension, about).wildcard == seq!['*', '.'] + extension,
        fresh_ide(layout, extension, about).untitled == "Untitled."@ + extension,
        fresh_ide(layout, extension, about).exe is None,
        fresh_ide(layout, extension, about).exec_line is None,
        fresh_ide(layout, extension, about).layout == layout,
        fresh_ide(layout, extension, about).about == about,
        snapped_editor(e, valid, last).gutter.breakpoints == snapped_all(
            e.gutter.breakpoints,
            valid,
            last,
        ),
        snapped_editor(e, valid, last).file_path == e.file_path,
        starting_text(n) == "Starting debugger with "@ + decimal(n) + " breakpoint(s)..."@,
{
    reveal_strlit("*.");
    assert("*."@ =~= seq!['*', '.']);
}

/// The window that a frame is shown in: the first editor whose file has the frame's name, and its
/// editor is moved to; where there is none, the editor that is debugged.
pub proof fn lemma_frame_finds_window(
    ide: IdeView,
    windows: Seq<WindowView>,
    names: Seq<Option<Seq<char>>>,
    file: Seq<char>,
    i: int,
)
    requires
        names.len() == windows.len(),
        windows.len() <= usize::MAX,
    ensures
        ({
            let shown = shown_window(windows, names, file);
            let fits = |k: int|
                windows[k].editor is Some && windows[k].path is Some && names[k] == Some(file);
            &&& shown is Some ==> shown->0 < windows.len() && fits(shown->0 as int) && jump_editor(
                ide,
                windows,
                shown,
            ) == windows[shown->0 as int].editor
            &&& 0 <= i < windows.len() && fits(i) ==> shown is Some && shown->0 <= i
            &&& shown is None ==> jump_editor(ide, windows, shown) == ide.debug_editor
        }),
{
    let marks = named_windows(windows, names, file);
    crate::desktop::lemma_first_mark(marks, i);
    if first_marked(marks) is Some {
        crate::desktop::lemma_first_mark(marks, first_marked(marks)->0);
    }
    if 0 <= i < windows.len() && windows[i].editor is Some && windows[i].path is Some && names[i]
        == Some(file) {
        assert(marks[i]);
    }
}

/// A frame that was clicked leads to the place that its text gives, under its own number.
pub proof fn lemma_clicked_frame(frame: &(usize, String))
    ensures
        frame_source(None) is None,
        match frame_location(frame.1@) {
            Some((file, line)) => frame_source(Some(frame)) == Some((frame.0, file, line)),
            None => frame_source(Some(frame)) is None,
        },
{
}

/// A new environment has nothing open, nothing built and no session; an error of lldb is told as
/// such.
pub proof fn lemma_environment_starts_empty(
    layout: ScreenLayout,
    extension: Seq<char>,
    about: Option<Seq<char>>,
    error: Seq<char>,
)
    ensures
        ({
            let ide = fresh_ide(layout, extension, about);
            &&& !ide.watch_open && !ide.output_open && !ide.callstack_open
            &&& ide.watch.len() == 0 && ide.frames.len() == 0 && ide.current_frame is None
            &&& ide.exe is None && ide.source is None && ide.capture is None
            &&& ide.debug_editor is None && ide.exec_editor is None && ide.exec_line is None
            &&& ide.synced == Set::<usize>::empty()
            &&& ide.session.state is Idle && !ide.session.connected && !ide.session.pending
            &&& ide.session.next_bp_id == 1 && ide.session.lines.len() == 0
            &&& ide.session.breakpoint_ids == Map::<usize, u32>::empty()
        }),
        lldb_error_text(error).len() == 12 + error.len(),
        lldb_error_text(error).skip(12) == error,
        lldb_error_text(error).take(12) == "lldb error: "@,
{
    reveal_strlit("lldb error: ");
    assert(lldb_error_text(error).skip(12) =~= error);
    assert(lldb_error_text(error).take(12) =~= "lldb error: "@);
}

} // verus!
