//! The debugger session: what to send to lldb, and what its output means.
//!
//! The session itself does no input or output. Its operations give the lines to write to lldb and
//! take what came back; the caller owns the process and its pipes.

use std::collections::HashMap;

use vstd::prelude::*;

use crate::metadata::{format_with_meta, meta_table, shown_by_meta, MetaTable, MetaView};
use crate::paths::{file_name, may_name};
use crate::number::{
    char_is_digit, decimal, i32_of, is_digit, lemma_decimal_reads_back, lemma_digit_is_ink,
    lemma_numbers_read_back, push_decimal, read_i32, read_usize, show, usize_of,
};
use crate::text::{
    cut, cut_text, has_text, head, lemma_cut, lemma_cut_at, lemma_span, lemma_split_at,
    lemma_split_whole, lemma_trim_ink, lines, made_of, mentions, occurs_at, opt_str, opt_text,
    pieces, span, split, split_on, texts, to_chars, to_text, trim, trimmed,
};
use crate::variable::{
    class_of, classify_var_type, is_internal, parse_variable_line, variable_of, VarType,
};

verus! {

/// How many of the latest lines are searched for the place of a stop.
pub const STOP_WINDOW: usize = 15;

/// Where the debugged program stands.
#[derive(Debug, Clone)]
pub enum DebugState {
    Idle,
    Running,
    Paused { file: String, line: usize },
    Exited { code: i32 },
}

/// What the debugger reports.
#[derive(Debug, Clone)]
pub enum DebugEvent {
    Stopped { file: String, line: usize },
    /// Frames of the call stack: index and display text.
    Frames(Vec<(usize, String)>),
    /// Name, value and type class of variables.
    Variables(Vec<(String, String, VarType)>),
    /// Output of the program (from the debuggee's stdout, not lldb's).
    ProgramOutput(String),
    Exited { code: i32 },
}

/// Where the debugged program stands, over plain values.
#[verifier::ext_equal]
pub enum StateView {
    Idle,
    Running,
    Paused { file: Seq<char>, line: usize },
    Exited { code: i32 },
}

/// What the debugger reports, over plain values.
#[verifier::ext_equal]
pub enum EventView {
    Stopped { file: Seq<char>, line: usize },
    Frames(Seq<(usize, Seq<char>)>),
    Variables(Seq<(Seq<char>, Seq<char>, VarType)>),
    ProgramOutput(Seq<char>),
    Exited { code: i32 },
}

impl View for DebugState {
    type V = StateView;

    open spec fn view(&self) -> StateView {
        match self {
            DebugState::Idle => StateView::Idle,
            DebugState::Running => StateView::Running,
            DebugState::Paused { file, line } => StateView::Paused { file: file@, line: *line },
            DebugState::Exited { code } => StateView::Exited { code: *code },
        }
    }
}

/// The contents of a list of watched variables.
pub open spec fn var_texts(v: Seq<(String, String, VarType)>) -> Seq<
    (Seq<char>, Seq<char>, VarType),
> {
    v.map_values(|e: (String, String, VarType)| (e.0@, e.1@, e.2))
}

/// The contents of a list of call stack frames.
pub open spec fn frame_texts(v: Seq<(usize, String)>) -> Seq<(usize, Seq<char>)> {
    v.map_values(|e: (usize, String)| (e.0, e.1@))
}

impl View for DebugEvent {
    type V = EventView;

    open spec fn view(&self) -> EventView {
        match self {
            DebugEvent::Stopped { file, line } => EventView::Stopped { file: file@, line: *line },
            DebugEvent::Frames(frames) => EventView::Frames(frame_texts(frames@)),
            DebugEvent::Variables(vars) => EventView::Variables(var_texts(vars@)),
            DebugEvent::ProgramOutput(text) => EventView::ProgramOutput(text@),
            DebugEvent::Exited { code } => EventView::Exited { code: *code },
        }
    }
}

/// The contents of a list of events.
pub open spec fn event_views(v: Seq<DebugEvent>) -> Seq<EventView> {
    v.map_values(|e: DebugEvent| e@)
}

/// A debugger session.
pub struct Debugger {
    state: DebugState,
    /// lldb runs and takes commands.
    connected: bool,
    source_file: String,
    /// The number that lldb gave to the breakpoint on a line.
    breakpoint_ids: HashMap<usize, u32>,
    next_bp_id: u32,
    /// Variable lines in the output are reported.
    pending_var_request: bool,
    /// The output of lldb so far.
    accumulated_lines: Vec<String>,
    var_meta: MetaTable,
}

/// A debugger session, over plain values.
#[verifier::ext_equal]
pub struct SessionView {
    pub state: StateView,
    pub connected: bool,
    pub source_file: Seq<char>,
    pub breakpoint_ids: Map<usize, u32>,
    pub next_bp_id: u32,
    pub pending: bool,
    pub lines: Seq<Seq<char>>,
    pub meta: Map<Seq<char>, MetaView>,
}

impl View for Debugger {
    type V = SessionView;

    closed spec fn view(&self) -> SessionView {
        SessionView {
            state: self.state@,
            connected: self.connected,
            source_file: self.source_file@,
            breakpoint_ids: self.breakpoint_ids@,
            next_bp_id: self.next_bp_id,
            pending: self.pending_var_request,
            lines: texts(self.accumulated_lines@),
            meta: self.var_meta@,
        }
    }
}

/// A session before its first start.
pub open spec fn fresh() -> SessionView {
    SessionView {
        state: StateView::Idle,
        connected: false,
        source_file: Seq::empty(),
        breakpoint_ids: Map::empty(),
        next_bp_id: 1,
        pending: false,
        lines: Seq::empty(),
        meta: Map::empty(),
    }
}

/// One step that the owner of the lldb process performs for the session.
#[derive(Debug, Clone)]
pub enum SessionAction {
    /// Empty the file that captures the output of the program.
    ClearCapture,
    /// Start the program that is named first, with the rest as arguments, and read its output.
    Launch(Vec<String>),
    /// Wait the given number of milliseconds.
    Wait(u64),
    /// Write the line to lldb.
    Send(String),
    /// Write the line to lldb; it sets a breakpoint.
    SetBreakpoint { line: usize, command: String },
    /// Throw away the output that has arrived.
    Drain,
    /// Write the line to lldb; it runs the program.
    Run(String),
    /// End the process.
    Kill,
}

/// One step of the session, over plain values.
#[verifier::ext_equal]
pub enum ActionView {
    ClearCapture,
    Launch(Seq<Seq<char>>),
    Wait(u64),
    Send(Seq<char>),
    SetBreakpoint { line: usize, command: Seq<char> },
    Drain,
    Run(Seq<char>),
    Kill,
}

impl View for SessionAction {
    type V = ActionView;

    open spec fn view(&self) -> ActionView {
        match self {
            SessionAction::ClearCapture => ActionView::ClearCapture,
            SessionAction::Launch(words) => ActionView::Launch(texts(words@)),
            SessionAction::Wait(ms) => ActionView::Wait(*ms),
            SessionAction::Send(line) => ActionView::Send(line@),
            SessionAction::SetBreakpoint { line, command } => ActionView::SetBreakpoint {
                line: *line,
                command: command@,
            },
            SessionAction::Drain => ActionView::Drain,
            SessionAction::Run(line) => ActionView::Run(line@),
            SessionAction::Kill => ActionView::Kill,
        }
    }
}

/// The contents of a list of steps.
pub open spec fn action_views(v: Seq<SessionAction>) -> Seq<ActionView> {
    v.map_values(|a: SessionAction| a@)
}

/// A command as a line of lldb's input.
pub open spec fn command_line(command: Seq<char>) -> Seq<char> {
    command.push('\n')
}

/// The command that sets a breakpoint.
pub open spec fn breakpoint_command(file: Seq<char>, line: usize) -> Seq<char> {
    "breakpoint set --file "@ + file + " --line "@ + decimal(line as nat)
}

/// The steps that set breakpoints on the given lines.
pub open spec fn breakpoint_steps(file: Seq<char>, at: Seq<usize>) -> Seq<ActionView> {
    at.map_values(
        |line: usize|
            ActionView::SetBreakpoint { line, command: command_line(breakpoint_command(file, line)) },
    )
}

/// The steps that start a program under lldb: without breakpoints it stops in `main`.
pub open spec fn start_steps(exe: Seq<char>, file: Seq<char>, at: Seq<usize>) -> Seq<ActionView> {
    let opening = seq![
        ActionView::ClearCapture,
        ActionView::Launch(seq!["lldb"@, "--no-use-colors"@, exe]),
        ActionView::Wait(500),
        ActionView::Send(command_line("settings set auto-confirm true"@)),
    ];
    let stop_in_main = if at.len() == 0 {
        seq![ActionView::Send(command_line("breakpoint set --name main"@))]
    } else {
        seq![]
    };
    let closing = seq![
        ActionView::Send(command_line("version"@)),
        ActionView::Wait(200),
        ActionView::Drain,
        ActionView::Run(command_line("run"@)),
    ];
    opening + breakpoint_steps(file, at) + stop_in_main + closing
}

/// The session after a step of its start was performed.
pub open spec fn after_step(s: SessionView, step: ActionView) -> SessionView {
    match step {
        ActionView::Launch(_) => SessionView { connected: true, ..s },
        ActionView::SetBreakpoint { line, command } => SessionView {
            breakpoint_ids: s.breakpoint_ids.insert(line, s.next_bp_id),
            next_bp_id: (s.next_bp_id + 1) as u32,
            ..s
        },
        ActionView::Run(_) => SessionView { state: StateView::Running, ..s },
        _ => s,
    }
}

/// The session after the given steps were performed, one after the other.
pub open spec fn after_steps(s: SessionView, steps: Seq<ActionView>) -> SessionView
    decreases steps.len(),
{
    if steps.len() == 0 {
        s
    } else {
        after_step(after_steps(s, steps.drop_last()), steps.last())
    }
}

/// The session when a start begins.
pub open spec fn starting(s: SessionView, source: Seq<char>, meta: Option<Seq<char>>) -> SessionView {
    SessionView {
        source_file: source,
        lines: Seq::empty(),
        pending: false,
        meta: match meta {
            Some(contents) => meta_table(lines(contents)),
            None => Map::empty(),
        },
        ..s
    }
}

/// The session after it was stopped.
pub open spec fn stopped(s: SessionView) -> SessionView {
    SessionView {
        state: StateView::Idle,
        connected: false,
        breakpoint_ids: Map::empty(),
        next_bp_id: 1,
        lines: Seq::empty(),
        ..s
    }
}

/// The steps that end the session.
pub open spec fn stop_steps(s: SessionView) -> Seq<ActionView> {
    if s.connected {
        seq![
            ActionView::Send(command_line("process kill"@)),
            ActionView::Wait(50),
            ActionView::Send(command_line("quit"@)),
            ActionView::Kill,
        ]
    } else {
        seq![ActionView::Kill]
    }
}

/// The name under which lldb knows a source file: its last path component, where it has one.
pub open spec fn file_known_as(path: Seq<char>, name: Option<Seq<char>>) -> Seq<char> {
    match name {
        Some(n) => n,
        None => path,
    }
}

/// The file and line that a line such as `... at demo.pas:12:5` gives.
pub open spec fn frame_location(line: Seq<char>) -> Option<(Seq<char>, usize)> {
    match cut(line, " at "@) {
        Some((_, rest)) => {
            let parts = split(rest, ':');
            if parts.len() >= 2 {
                match usize_of(trim(parts[1])) {
                    Some(n) => Some((trim(parts[0]), n)),
                    None => None,
                }
            } else {
                None
            }
        },
        None => None,
    }
}

/// The predicate "can be part of an exit code".
pub open spec fn code_char() -> spec_fn(char) -> bool {
    |c: char| is_digit(c) || c == '-'
}

/// The exit code that a line such as `... exited with status = 3 (0x00000003)` gives.
pub open spec fn exit_code(line: Seq<char>) -> Option<i32> {
    match cut(line, "status = "@) {
        Some((_, rest)) => i32_of(rest.take(span(rest, code_char()) as int)),
        None => None,
    }
}

/// The location on the latest line that gives one, among the last `n`.
pub open spec fn location_back(rows: Seq<Seq<char>>, n: nat) -> Option<(Seq<char>, usize)>
    decreases n,
{
    if n == 0 || rows.len() == 0 {
        None
    } else {
        match frame_location(rows.last()) {
            Some(loc) => Some(loc),
            None => location_back(rows.drop_last(), (n - 1) as nat),
        }
    }
}

/// Where the program stopped, by the latest lines of output.
pub open spec fn stop_location(rows: Seq<Seq<char>>) -> Option<(Seq<char>, usize)> {
    location_back(rows, STOP_WINDOW as nat)
}

/// One line of lldb's output. `decimals` is the value on it with ten decimals, where it is the
/// line of a variable with decimals.
pub struct OutputLine {
    pub text: String,
    pub decimals: Option<String>,
}

/// One line of lldb's output, over plain values.
pub type LineView = (Seq<char>, Option<Seq<char>>);

impl View for OutputLine {
    type V = LineView;

    open spec fn view(&self) -> LineView {
        (self.text@, opt_text(self.decimals))
    }
}

/// The contents of a list of output lines.
pub open spec fn line_views(v: Seq<OutputLine>) -> Seq<LineView> {
    v.map_values(|l: OutputLine| l@)
}

/// The session and what was gathered from the output so far.
#[verifier::ext_equal]
pub struct PollView {
    pub session: SessionView,
    pub events: Seq<EventView>,
    /// A stop was seen in this poll.
    pub stopped: bool,
    /// The variables of the frame are to be asked for.
    pub wants_vars: bool,
    /// The program is to be continued.
    pub wants_continue: bool,
}

/// A stop at the given location was seen.
pub open spec fn paused_at(p: PollView, loc: (Seq<char>, usize)) -> PollView {
    PollView {
        session: SessionView {
            state: StateView::Paused { file: loc.0, line: loc.1 },
            pending: true,
            ..p.session
        },
        events: p.events.push(EventView::Stopped { file: loc.0, line: loc.1 }),
        stopped: true,
        wants_vars: true,
        ..p
    }
}

/// A line with a stop reason: the latest lines may tell where.
pub open spec fn note_stop_reason(p: PollView, line: Seq<char>) -> PollView {
    if !p.stopped && mentions(line, "stop reason ="@) {
        match stop_location(p.session.lines) {
            Some(loc) => paused_at(p, loc),
            None => p,
        }
    } else {
        p
    }
}

/// A line with the innermost frame: a stop there, or, in code without source, a reason to go on.
pub open spec fn note_frame(p: PollView, line: Seq<char>) -> PollView {
    if !p.stopped && !mentions(line, "stop reason"@) && mentions(line, "frame #0"@) {
        match frame_location(line) {
            Some(loc) => paused_at(p, loc),
            None => PollView { stopped: true, wants_continue: true, ..p },
        }
    } else {
        p
    }
}

/// The value to show of the variable `name`, by its metadata where there is some that fits.
pub open spec fn watch_value(
    meta: Map<Seq<char>, MetaView>,
    name: Seq<char>,
    value: Seq<char>,
) -> Seq<char> {
    if meta.dom().contains(name) && shown_by_meta(meta[name], value) is Some {
        shown_by_meta(meta[name], value)->0
    } else {
        value
    }
}

/// A line that prints a variable, where variables were asked for.
pub open spec fn note_variable(p: PollView, line: LineView) -> PollView {
    if p.session.pending {
        match variable_of(line.0, line.1) {
            Some((name, value, type_str)) => PollView {
                events: p.events.push(
                    EventView::Variables(
                        seq![
                            (
                                name,
                                watch_value(p.session.meta, name, value),
                                class_of(type_str),
                            ),
                        ],
                    ),
                ),
                ..p
            },
            None => p,
        }
    } else {
        p
    }
}

/// A line that reports the exit of the program.
pub open spec fn note_exit(p: PollView, line: Seq<char>) -> PollView {
    if mentions(line, "exited with status"@) {
        let code = match exit_code(line) {
            Some(code) => code,
            None => 0,
        };
        PollView {
            session: SessionView { state: StateView::Exited { code }, ..p.session },
            events: p.events.push(EventView::Exited { code }),
            ..p
        }
    } else {
        p
    }
}

/// A line is kept.
pub open spec fn keep_line(p: PollView, line: Seq<char>) -> PollView {
    PollView { session: SessionView { lines: p.session.lines.push(line), ..p.session }, ..p }
}

/// One line of output was read.
pub open spec fn poll_line(p: PollView, line: LineView) -> PollView {
    let p = keep_line(p, line.0);
    let p = note_stop_reason(p, line.0);
    let p = note_frame(p, line.0);
    let p = note_variable(p, line);
    note_exit(p, line.0)
}

/// The given lines of output were read, one after the other.
pub open spec fn poll_lines(p: PollView, output: Seq<LineView>) -> PollView
    decreases output.len(),
{
    if output.len() == 0 {
        p
    } else {
        poll_line(poll_lines(p, output.drop_last()), output.last())
    }
}

/// The output of the program as events.
pub open spec fn program_events(program: Seq<Seq<char>>) -> Seq<EventView> {
    program.map_values(|text: Seq<char>| EventView::ProgramOutput(text))
}

/// A poll: first the output of the program, then that of lldb.
pub open spec fn polled(
    s: SessionView,
    program: Seq<Seq<char>>,
    output: Seq<LineView>,
) -> PollView {
    poll_lines(
        PollView {
            session: s,
            events: program_events(program),
            stopped: false,
            wants_vars: false,
            wants_continue: false,
        },
        output,
    )
}

/// The lines to write to lldb after a poll.
pub open spec fn poll_replies(p: PollView) -> Seq<Seq<char>> {
    let vars = if p.wants_vars && p.session.connected {
        seq![command_line("frame variable"@)]
    } else {
        seq![]
    };
    let go_on = if p.wants_continue && p.session.connected {
        seq![command_line("continue"@)]
    } else {
        seq![]
    };
    vars + go_on
}

/// What was gathered from the output so far.
struct Progress {
    events: Vec<DebugEvent>,
    stopped: bool,
    wants_vars: bool,
    wants_continue: bool,
}

/// The session and what was gathered, over plain values.
spec fn gathered(session: SessionView, g: Progress) -> PollView {
    PollView {
        session,
        events: event_views(g.events@),
        stopped: g.stopped,
        wants_vars: g.wants_vars,
        wants_continue: g.wants_continue,
    }
}

/// What a poll gives: events, and lines to write to lldb.
pub struct PollResult {
    pub events: Vec<DebugEvent>,
    pub replies: Vec<String>,
}

/// The error of a start where lldb could not be launched.
pub fn launch_failed(error: &str) -> (r: String)
    ensures
        r@ == "failed to start lldb: "@ + error@,
{
    let mut out: String = "failed to start lldb: ".to_string();
    out.append(error);
    out
}

/// The error of a command that could not be written to lldb.
pub fn write_failed(error: &str) -> (r: String)
    ensures
        r@ == "write to lldb: "@ + error@,
{
    let mut out: String = "write to lldb: ".to_string();
    out.append(error);
    out
}

/// The error of a command that was written but not handed to lldb.
pub fn flush_failed(error: &str) -> (r: String)
    ensures
        r@ == "flush lldb stdin: "@ + error@,
{
    let mut out: String = "flush lldb stdin: ".to_string();
    out.append(error);
    out
}

/// The file and line of a frame, where the line of output gives them.
pub fn parse_frame_location(line: &str) -> (r: Option<(String, usize)>)
    ensures
        match r {
            Some(loc) => frame_location(line@) == Some((loc.0@, loc.1)),
            None => frame_location(line@) is None,
        },
{
    let chars = to_chars(line);
    match cut_text(chars.as_slice(), " at ") {
        Some((_before, rest)) => {
            let parts = split_on(rest, ':');
            assert(pieces(parts@).len() == parts@.len());
            if parts.len() >= 2 {
                assert(pieces(parts@)[0] == parts@[0]@);
                assert(pieces(parts@)[1] == parts@[1]@);
                match read_usize(trimmed(parts[1])) {
                    Some(n) => Some((to_text(trimmed(parts[0])), n)),
                    None => None,
                }
            } else {
                None
            }
        },
        None => None,
    }
}

/// The exit code that a line of output gives.
pub fn parse_exit_code(line: &str) -> (r: Option<i32>)
    ensures
        r == exit_code(line@),
{
    let chars = to_chars(line);
    match cut_text(chars.as_slice(), "status = ") {
        Some((_before, rest)) => {
            let mut n: usize = 0;
            while n < rest.len() && (char_is_digit(rest[n]) || rest[n] == '-')
                invariant
                    n <= rest@.len(),
                    forall|j: int|
                        0 <= j < n ==> is_digit(#[trigger] rest@[j]) || rest@[j] == '-',
                decreases rest@.len() - n,
            {
                n = n + 1;
            }
            proof {
                lemma_span(rest@, code_char(), n as int);
            }
            read_i32(head(rest, n))
        },
        None => None,
    }
}

/// A command as a line of lldb's input.
fn to_line(command: &str) -> (r: String)
    ensures
        r@ == command_line(command@),
{
    let mut out: String = command.to_string();
    out.push('\n');
    out
}

/// The command that sets a breakpoint.
fn breakpoint_line(file: &str, line: usize) -> (r: String)
    ensures
        r@ == command_line(breakpoint_command(file@, line)),
{
    let mut out: String = "breakpoint set --file ".to_string();
    out.append(file);
    out.append(" --line ");
    push_decimal(&mut out, line as u64);
    out.push('\n');
    out
}

impl Debugger {
    /// A session before its first start.
    pub fn new() -> (r: Debugger)
        ensures
            r@ == fresh(),
    {
        let r = Debugger {
            state: DebugState::Idle,
            connected: false,
            source_file: String::new(),
            breakpoint_ids: HashMap::new(),
            next_bp_id: 1,
            pending_var_request: false,
            accumulated_lines: Vec::new(),
            var_meta: MetaTable::new(),
        };
        assert(r@ =~= fresh());
        r
    }

    /// Where the debugged program stands.
    pub fn state(&self) -> (r: &DebugState)
        ensures
            r@ == self@.state,
    {
        &self.state
    }

    /// Loads the metadata file of an executable, where there is one.
    fn load_metadata(&mut self, contents: Option<&str>)
        ensures
            final(self)@ == (SessionView {
                meta: match opt_str(contents) {
                    Some(c) => meta_table(lines(c)),
                    None => Map::empty(),
                },
                ..old(self)@
            }),
    {
        match contents {
            Some(c) => {
                self.var_meta = MetaTable::parse(c);
            },
            None => {
                self.var_meta = MetaTable::new();
            },
        }
    }

    /// Begins a start of `exe_path` and gives the steps to perform, in order. `file_name` is the
    /// last component of the path `source_file`; `metadata` holds the contents of the metadata
    /// file, where there is one. Each performed step is reported with `step_done`; the first step
    /// that fails ends the start.
    pub fn start_file(
        &mut self,
        exe_path: &str,
        source_file: &str,
        file_name: Option<&str>,
        breakpoint_lines: &[usize],
        metadata: Option<&str>,
    ) -> (steps: Vec<SessionAction>)
        ensures
            final(self)@ == starting(old(self)@, source_file@, opt_str(metadata)),
            action_views(steps@) == start_steps(
                exe_path@,
                file_known_as(source_file@, opt_str(file_name)),
                breakpoint_lines@,
            ),
    {
        self.source_file = source_file.to_string();
        self.accumulated_lines.clear();
        self.pending_var_request = false;
        self.load_metadata(metadata);
        assert(self@ =~= starting(old(self)@, source_file@, opt_str(metadata)));

        let mut steps: Vec<SessionAction> = Vec::new();
        let mut words: Vec<String> = Vec::new();
        words.push("lldb".to_string());
        words.push("--no-use-colors".to_string());
        words.push(exe_path.to_string());
        assert(texts(words@) =~= seq!["lldb"@, "--no-use-colors"@, exe_path@]);
        steps.push(SessionAction::ClearCapture);
        steps.push(SessionAction::Launch(words));
        steps.push(SessionAction::Wait(500));
        steps.push(SessionAction::Send(to_line("settings set auto-confirm true")));
        let ghost opening = action_views(steps@);

        let file = match file_name {
            Some(n) => n,
            None => source_file,
        };
        let ghost all = breakpoint_steps(file@, breakpoint_lines@);
        assert(action_views(steps@) =~= opening + all.take(0));
        for i in 0..breakpoint_lines.len()
            invariant
                all == breakpoint_steps(file@, breakpoint_lines@),
                action_views(steps@) == opening + all.take(i as int),
        {
            let ghost before = steps@;
            let line: usize = breakpoint_lines[i];
            let step = SessionAction::SetBreakpoint { line, command: breakpoint_line(file, line) };
            let ghost shown = step@;
            steps.push(step);
            assert(action_views(steps@) =~= action_views(before).push(shown));
            assert(all.take(i + 1) =~= all.take(i as int).push(shown));
            assert(opening + all.take(i + 1) =~= (opening + all.take(i as int)).push(shown));
        }
        assert(all.take(all.len() as int) =~= all);
        let ghost middle = action_views(steps@);
        let ghost stop_in_main = if breakpoint_lines@.len() == 0 {
            seq![ActionView::Send(command_line("breakpoint set --name main"@))]
        } else {
            Seq::<ActionView>::empty()
        };
        if breakpoint_lines.len() == 0 {
            steps.push(SessionAction::Send(to_line("breakpoint set --name main")));
        }
        assert(action_views(steps@) =~= middle + stop_in_main);
        let ghost before = action_views(steps@);
        steps.push(SessionAction::Send(to_line("version")));
        steps.push(SessionAction::Wait(200));
        steps.push(SessionAction::Drain);
        steps.push(SessionAction::Run(to_line("run")));
        assert(action_views(steps@) =~= before + seq![
            ActionView::Send(command_line("version"@)),
            ActionView::Wait(200),
            ActionView::Drain,
            ActionView::Run(command_line("run"@)),
        ]);
        assert(opening =~= seq![
            ActionView::ClearCapture,
            ActionView::Launch(seq!["lldb"@, "--no-use-colors"@, exe_path@]),
            ActionView::Wait(500),
            ActionView::Send(command_line("settings set auto-confirm true"@)),
        ]);
        steps
    }

    /// Begins a start of `exe_path`, as `start_file` does, with the last component of the path
    /// `source_file` as the name of the source.
    pub fn start(
        &mut self,
        exe_path: &str,
        source_file: &str,
        breakpoint_lines: &[usize],
        metadata: Option<&str>,
    ) -> (steps: Vec<SessionAction>)
        ensures
            final(self)@ == starting(old(self)@, source_file@, opt_str(metadata)),
            exists|name: Option<Seq<char>>| #[trigger]
                may_name(source_file@, name) && action_views(steps@) == start_steps(
                    exe_path@,
                    file_known_as(source_file@, name),
                    breakpoint_lines@,
                ),
    {
        let name = file_name(source_file);
        let ghost found = opt_text(name);
        assert(may_name(source_file@, found));
        match name {
            Some(n) => self.start_file(
                exe_path,
                source_file,
                Some(n.as_str()),
                breakpoint_lines,
                metadata,
            ),
            None => self.start_file(exe_path, source_file, None, breakpoint_lines, metadata),
        }
    }

    /// A step of the start was performed.
    pub fn step_done(&mut self, step: &SessionAction)
        requires
            step is SetBreakpoint ==> old(self)@.next_bp_id < u32::MAX,
        ensures
            final(self)@ == after_step(old(self)@, step@),
    {
        broadcast use vstd::std_specs::hash::group_hash_axioms;

        match step {
            SessionAction::Launch(_) => {
                self.connected = true;
            },
            SessionAction::SetBreakpoint { line, command: _ } => {
                self.breakpoint_ids.insert(*line, self.next_bp_id);
                self.next_bp_id = self.next_bp_id + 1;
            },
            SessionAction::Run(_) => {
                self.state = DebugState::Running;
            },
            _ => {},
        }
        assert(self@ =~= after_step(old(self)@, step@));
    }

    /// The line to write to lldb for a command.
    pub fn send_command(&self, cmd: &str) -> (r: Result<String, String>)
        ensures
            match r {
                Ok(line) => self@.connected && line@ == command_line(cmd@),
                Err(e) => !self@.connected && e@ == "lldb not running"@,
            },
    {
        if self.connected {
            Ok(to_line(cmd))
        } else {
            Err("lldb not running".to_string())
        }
    }

    /// The program goes on to the next breakpoint. Gives the line to write to lldb.
    pub fn continue_exec(&mut self) -> (r: Result<String, String>)
        ensures
            final(self)@ == (SessionView { state: StateView::Running, ..old(self)@ }),
            match r {
                Ok(line) => old(self)@.connected && line@ == command_line("continue"@),
                Err(e) => !old(self)@.connected && e@ == "lldb not running"@,
            },
    {
        self.state = DebugState::Running;
        self.send_command("continue")
    }

    /// The line to write to lldb for a step over the current line. What came of writing it is
    /// reported with `stepped`.
    pub fn step_over(&self) -> (r: Result<String, String>)
        ensures
            match r {
                Ok(line) => self@.connected && line@ == command_line("next"@),
                Err(e) => !self@.connected && e@ == "lldb not running"@,
            },
    {
        self.send_command("next")
    }

    /// The line to write to lldb for a step into a call. What came of writing it is reported with
    /// `stepped`.
    pub fn step_into(&self) -> (r: Result<String, String>)
        ensures
            match r {
                Ok(line) => self@.connected && line@ == command_line("step"@),
                Err(e) => !self@.connected && e@ == "lldb not running"@,
            },
    {
        self.send_command("step")
    }

    /// The command of a step was written, or it could not be: variables are reported from now on
    /// if it was.
    pub fn stepped(&mut self, sent: Result<(), String>) -> (r: Result<(), String>)
        ensures
            r == sent,
            final(self)@ == (SessionView {
                pending: sent is Ok || old(self)@.pending,
                ..old(self)@
            }),
    {
        if sent.is_ok() {
            self.pending_var_request = true;
        }
        sent
    }

    /// The line to write to lldb to set a variable of the paused program. `expr_value` must be a
    /// valid C expression (e.g. `42`, `3.14`, `'A'`, `true`). What came of writing it is reported
    /// with `variable_set`.
    pub fn set_variable(&self, name: &str, expr_value: &str) -> (r: Result<String, String>)
        ensures
            match r {
                Ok(line) => self@.connected && line@ == command_line(
                    "expr "@ + name@ + " = "@ + expr_value@,
                ),
                Err(e) => !self@.connected && e@ == "lldb not running"@,
            },
    {
        let mut cmd: String = "expr ".to_string();
        cmd.append(name);
        cmd.append(" = ");
        cmd.append(expr_value);
        self.send_command(cmd.as_str())
    }

    /// The command that sets a variable was written, or it could not be. If it was, variables are
    /// reported from now on, and the line to write next asks for them.
    pub fn variable_set(&mut self, sent: Result<(), String>) -> (r: Result<String, String>)
        ensures
            match sent {
                Ok(_) => {
                    &&& final(self)@ == (SessionView { pending: true, ..old(self)@ })
                    &&& match r {
                        Ok(line) => old(self)@.connected && line@ == command_line(
                            "frame variable"@,
                        ),
                        Err(e) => !old(self)@.connected && e@ == "lldb not running"@,
                    }
                },
                Err(e) => final(self)@ == old(self)@ && r == Err::<String, String>(e),
            },
    {
        match sent {
            Ok(_) => {
                self.pending_var_request = true;
                self.send_command("frame variable")
            },
            Err(e) => Err(e),
        }
    }

    /// The last component of the path of the source file.
    pub fn source_name(&self) -> (r: Option<String>)
        ensures
            may_name(self@.source_file, opt_text(r)),
    {
        file_name(self.source_file.as_str())
    }

    /// The line to write to lldb to set a breakpoint on `line` of the file with the given name.
    /// What came of writing it is reported with `breakpoint_added`.
    pub fn add_breakpoint_in(&self, file_name: Option<&str>, line: usize) -> (r: Result<
        String,
        String,
    >)
        ensures
            match r {
                Ok(text) => self@.connected && text@ == command_line(
                    breakpoint_command(
                        file_known_as(self@.source_file, opt_str(file_name)),
                        line,
                    ),
                ),
                Err(e) => !self@.connected && e@ == "lldb not running"@,
            },
    {
        if self.connected {
            match file_name {
                Some(n) => Ok(breakpoint_line(n, line)),
                None => Ok(breakpoint_line(self.source_file.as_str(), line)),
            }
        } else {
            Err("lldb not running".to_string())
        }
    }

    /// The line to write to lldb to set a breakpoint on `line` of the source file, which goes by
    /// the last component of its path.
    pub fn add_breakpoint(&self, line: usize) -> (r: Result<String, String>)
        ensures
            match r {
                Ok(text) => self@.connected && exists|name: Option<Seq<char>>| #[trigger]
                    may_name(self@.source_file, name) && text@ == command_line(
                        breakpoint_command(file_known_as(self@.source_file, name), line),
                    ),
                Err(e) => !self@.connected && e@ == "lldb not running"@,
            },
    {
        let name = self.source_name();
        let ghost found = opt_text(name);
        assert(may_name(self@.source_file, found));
        match name {
            Some(n) => self.add_breakpoint_in(Some(n.as_str()), line),
            None => self.add_breakpoint_in(None, line),
        }
    }

    /// There is a number for one more breakpoint.
    pub fn has_number_left(&self) -> (r: bool)
        ensures
            r == (self@.next_bp_id < u32::MAX),
    {
        self.next_bp_id < u32::MAX
    }

    /// The command that sets a breakpoint on `line` was written, or it could not be: if it was,
    /// the breakpoint gets the next number.
    pub fn breakpoint_added(&mut self, line: usize, sent: Result<(), String>) -> (r: Result<
        (),
        String,
    >)
        requires
            sent is Ok ==> old(self)@.next_bp_id < u32::MAX,
        ensures
            r == sent,
            final(self)@ == if sent is Ok {
                after_step(
                    old(self)@,
                    ActionView::SetBreakpoint { line, command: Seq::empty() },
                )
            } else {
                old(self)@
            },
    {
        broadcast use vstd::std_specs::hash::group_hash_axioms;

        if sent.is_ok() {
            self.breakpoint_ids.insert(line, self.next_bp_id);
            self.next_bp_id = self.next_bp_id + 1;
            assert(self@ =~= after_step(
                old(self)@,
                ActionView::SetBreakpoint { line, command: Seq::empty() },
            ));
        }
        sent
    }

    /// Forgets the breakpoint on `line`. Gives the line to write to lldb, where there was one.
    pub fn remove_breakpoint(&mut self, line: usize) -> (r: Result<Option<String>, String>)
        ensures
            final(self)@ == (SessionView {
                breakpoint_ids: old(self)@.breakpoint_ids.remove(line),
                ..old(self)@
            }),
            match r {
                Ok(Some(text)) => {
                    &&& old(self)@.connected
                    &&& old(self)@.breakpoint_ids.dom().contains(line)
                    &&& text@ == command_line(
                        "breakpoint delete "@ + decimal(
                            old(self)@.breakpoint_ids[line] as nat,
                        ),
                    )
                },
                Ok(None) => !old(self)@.breakpoint_ids.dom().contains(line),
                Err(e) => {
                    &&& !old(self)@.connected
                    &&& old(self)@.breakpoint_ids.dom().contains(line)
                    &&& e@ == "lldb not running"@
                },
            },
    {
        broadcast use vstd::std_specs::hash::group_hash_axioms;

        let found = self.breakpoint_ids.remove(&line);
        assert(self@.breakpoint_ids =~= old(self)@.breakpoint_ids.remove(line));
        match found {
            Some(id) => {
                let mut cmd: String = "breakpoint delete ".to_string();
                push_decimal(&mut cmd, id as u64);
                match self.send_command(cmd.as_str()) {
                    Ok(text) => Ok(Some(text)),
                    Err(e) => Err(e),
                }
            },
            None => Ok(None),
        }
    }

    /// Ends the session. Gives the steps to perform, in order; what comes of them does not matter.
    pub fn stop(&mut self) -> (steps: Vec<SessionAction>)
        ensures
            final(self)@ == stopped(old(self)@),
            action_views(steps@) == stop_steps(old(self)@),
    {
        let mut steps: Vec<SessionAction> = Vec::new();
        if self.connected {
            steps.push(SessionAction::Send(to_line("process kill")));
            steps.push(SessionAction::Wait(50));
            steps.push(SessionAction::Send(to_line("quit")));
        }
        steps.push(SessionAction::Kill);
        self.connected = false;
        self.state = DebugState::Idle;
        self.breakpoint_ids.clear();
        self.next_bp_id = 1;
        self.accumulated_lines.clear();
        assert(self@ =~= stopped(old(self)@));
        assert(action_views(steps@) =~= stop_steps(old(self)@));
        steps
    }

    /// Where the program stopped, by the latest lines of output.
    fn parse_stop_location(&self) -> (r: Option<(String, usize)>)
        ensures
            match r {
                Some(loc) => stop_location(self@.lines) == Some((loc.0@, loc.1)),
                None => stop_location(self@.lines) is None,
            },
    {
        let ghost rows = texts(self.accumulated_lines@);
        let mut left: usize = STOP_WINDOW;
        let mut i: usize = self.accumulated_lines.len();
        assert(rows.take(i as int) =~= rows);
        while i > 0 && left > 0
            invariant
                rows == texts(self.accumulated_lines@),
                i <= rows.len(),
                stop_location(rows) == location_back(rows.take(i as int), left as nat),
            decreases i,
        {
            i = i - 1;
            proof {
                assert(rows.take(i + 1).last() == self.accumulated_lines@[i as int]@);
                assert(rows.take(i + 1).drop_last() =~= rows.take(i as int));
            }
            if let Some(loc) = parse_frame_location(self.accumulated_lines[i].as_str()) {
                return Some(loc);
            }
            left = left - 1;
        }
        None
    }

    /// The value to show of a variable, by its metadata where there is some that fits.
    fn shown_with_meta(&self, name: &str, value: String) -> (r: String)
        ensures
            r@ == watch_value(self@.meta, name@, value@),
    {
        match self.var_meta.get(name) {
            Some(meta) => match format_with_meta(meta, value.as_str()) {
                Some(formatted) => formatted,
                None => value,
            },
            None => value,
        }
    }

    /// The program is paused at the given location, and variables are reported from now on.
    fn pause(&mut self, file: &String, line: usize)
        ensures
            final(self)@ == (SessionView {
                state: StateView::Paused { file: file@, line },
                pending: true,
                ..old(self)@
            }),
    {
        self.state = DebugState::Paused { file: file.clone(), line };
        self.pending_var_request = true;
    }

    /// A stop was seen at the given location.
    fn report_stop(&mut self, g: &mut Progress, file: String, line: usize)
        ensures
            gathered(final(self)@, *final(g)) == paused_at(
                gathered(old(self)@, *old(g)),
                (file@, line),
            ),
    {
        self.pause(&file, line);
        let ghost before = g.events@;
        g.events.push(DebugEvent::Stopped { file, line });
        assert(event_views(g.events@) =~= event_views(before).push(
            EventView::Stopped { file: file@, line },
        ));
        g.wants_vars = true;
        g.stopped = true;
    }

    /// Some stops give the source on the line with the reason; mostly the frame line follows by
    /// itself.
    fn read_stop_reason(&mut self, g: &mut Progress, text: &str)
        ensures
            gathered(final(self)@, *final(g)) == note_stop_reason(
                gathered(old(self)@, *old(g)),
                text@,
            ),
    {
        let chars = to_chars(text);
        if !g.stopped && has_text(chars.as_slice(), "stop reason =") {
            if let Some((file, line)) = self.parse_stop_location() {
                self.report_stop(g, file, line);
            }
        }
    }

    /// A frame with source is a stop. One without: the program has left `main` for the code that
    /// ends the process, so it goes on until its exit is seen.
    fn read_frame(&mut self, g: &mut Progress, text: &str)
        ensures
            gathered(final(self)@, *final(g)) == note_frame(gathered(old(self)@, *old(g)), text@),
    {
        let chars = to_chars(text);
        let text_chars = chars.as_slice();
        if !g.stopped && !has_text(text_chars, "stop reason") && has_text(text_chars, "frame #0") {
            match parse_frame_location(text) {
                Some((file, line)) => {
                    self.report_stop(g, file, line);
                },
                None => {
                    g.wants_continue = true;
                    g.stopped = true;
                },
            }
        }
    }

    /// A variable is reported once variables were asked for.
    fn read_variable(&mut self, g: &mut Progress, line: &OutputLine)
        ensures
            gathered(final(self)@, *final(g)) == note_variable(
                gathered(old(self)@, *old(g)),
                line@,
            ),
    {
        if self.pending_var_request {
            let decimals = match &line.decimals {
                Some(d) => Some(d.as_str()),
                None => None,
            };
            if let Some((name, value, type_str)) = parse_variable_line(
                line.text.as_str(),
                decimals,
            ) {
                let shown = self.shown_with_meta(name.as_str(), value);
                let ty = classify_var_type(type_str.as_str());
                let ghost entry = (name@, shown@, ty);
                let mut vars: Vec<(String, String, VarType)> = Vec::new();
                vars.push((name, shown, ty));
                assert(var_texts(vars@) =~= seq![entry]);
                let ghost before = g.events@;
                g.events.push(DebugEvent::Variables(vars));
                assert(event_views(g.events@) =~= event_views(before).push(
                    EventView::Variables(seq![entry]),
                ));
            }
        }
    }

    /// The program has exited.
    fn read_exit(&mut self, g: &mut Progress, text: &str)
        ensures
            gathered(final(self)@, *final(g)) == note_exit(gathered(old(self)@, *old(g)), text@),
    {
        let chars = to_chars(text);
        if has_text(chars.as_slice(), "exited with status") {
            let code: i32 = match parse_exit_code(text) {
                Some(code) => code,
                None => 0,
            };
            self.state = DebugState::Exited { code };
            let ghost before = g.events@;
            g.events.push(DebugEvent::Exited { code });
            assert(event_views(g.events@) =~= event_views(before).push(EventView::Exited { code }));
        }
    }

    /// One line of output was read.
    fn read_line(&mut self, g: &mut Progress, line: &OutputLine)
        ensures
            gathered(final(self)@, *final(g)) == poll_line(gathered(old(self)@, *old(g)), line@),
    {
        let ghost kept = self.accumulated_lines@;
        self.accumulated_lines.push(line.text.clone());
        assert(texts(self.accumulated_lines@) =~= texts(kept).push(line@.0));
        assert(gathered(self@, *g) =~= keep_line(gathered(old(self)@, *old(g)), line@.0));
        self.read_stop_reason(g, line.text.as_str());
        self.read_frame(g, line.text.as_str());
        self.read_variable(g, line);
        self.read_exit(g, line.text.as_str());
    }

    /// Reads the output that has arrived: `program` holds lines of the debugged program, `output`
    /// lines of lldb. Gives the events they mean, and the lines to write to lldb; what comes of
    /// writing these does not matter.
    pub fn poll(&mut self, program: Vec<String>, output: Vec<OutputLine>) -> (r: PollResult)
        ensures
            final(self)@ == polled(old(self)@, texts(program@), line_views(output@)).session,
            event_views(r.events@) == polled(
                old(self)@,
                texts(program@),
                line_views(output@),
            ).events,
            texts(r.replies@) == poll_replies(
                polled(old(self)@, texts(program@), line_views(output@)),
            ),
    {
        let mut events: Vec<DebugEvent> = Vec::new();
        for i in 0..program.len()
            invariant
                event_views(events@) == program_events(texts(program@).take(i as int)),
        {
            let ghost before = events@;
            events.push(DebugEvent::ProgramOutput(program[i].clone()));
            assert(event_views(events@) =~= event_views(before).push(
                EventView::ProgramOutput(program@[i as int]@),
            ));
            assert(program_events(texts(program@).take(i + 1)) =~= program_events(
                texts(program@).take(i as int),
            ).push(EventView::ProgramOutput(program@[i as int]@)));
        }
        assert(texts(program@).take(program@.len() as int) =~= texts(program@));

        let mut g = Progress { events, stopped: false, wants_vars: false, wants_continue: false };
        let ghost begin = gathered(self@, g);
        let ghost all = line_views(output@);
        assert(all.take(0) =~= seq![]);
        for i in 0..output.len()
            invariant
                all == line_views(output@),
                gathered(self@, g) == poll_lines(begin, all.take(i as int)),
        {
            assert(all.take(i + 1).drop_last() =~= all.take(i as int));
            assert(all.take(i + 1).last() == output@[i as int]@);
            self.read_line(&mut g, &output[i]);
        }
        assert(all.take(all.len() as int) =~= all);
        let ghost p = gathered(self@, g);

        let mut replies: Vec<String> = Vec::new();
        if g.wants_vars {
            if let Ok(line) = self.send_command("frame variable") {
                replies.push(line);
            }
        }
        if g.wants_continue {
            if let Ok(line) = self.send_command("continue") {
                replies.push(line);
            }
        }
        assert(texts(replies@) =~= poll_replies(p));
        PollResult { events: g.events, replies }
    }

    /// The session is in use.
    pub fn is_running(&self) -> (r: bool)
        ensures
            r == !(self@.state is Idle),
    {
        match self.state {
            DebugState::Idle => false,
            _ => true,
        }
    }

    /// The program is paused.
    pub fn is_paused(&self) -> (r: bool)
        ensures
            r == (self@.state is Paused),
    {
        match self.state {
            DebugState::Paused { .. } => true,
            _ => false,
        }
    }
}

/// Steps that set breakpoints give the lines the next numbers, in order, and change nothing else.
pub(crate) proof fn lemma_breakpoint_steps(s: SessionView, file: Seq<char>, at: Seq<usize>)
    requires
        s.next_bp_id + at.len() <= u32::MAX,
    ensures
        ({
            let t = after_steps(s, breakpoint_steps(file, at));
            &&& t == SessionView {
                breakpoint_ids: t.breakpoint_ids,
                next_bp_id: (s.next_bp_id + at.len()) as u32,
                ..s
            }
            &&& forall|line: usize| #[trigger]
                t.breakpoint_ids.dom().contains(line) <==> s.breakpoint_ids.dom().contains(line)
                    || at.contains(line)
            &&& forall|i: int|
                0 <= i < at.len() && (forall|j: int| i < j < at.len() ==> at[j] != at[i])
                    ==> t.breakpoint_ids[#[trigger] at[i]] == s.next_bp_id + i
        }),
    decreases at.len(),
{
    let steps = breakpoint_steps(file, at);
    if at.len() == 0 {
        assert(steps =~= seq![]);
    } else {
        let shorter = at.drop_last();
        lemma_breakpoint_steps(s, file, shorter);
        assert(steps.drop_last() =~= breakpoint_steps(file, shorter));
        let u = after_steps(s, breakpoint_steps(file, shorter));
        let t = after_steps(s, steps);
        assert(t == after_step(u, steps.last()));
        assert forall|line: usize| #[trigger]
            t.breakpoint_ids.dom().contains(line) <==> s.breakpoint_ids.dom().contains(line)
                || at.contains(line) by {
            if at.contains(line) && line != at.last() {
                let k = choose|k: int| 0 <= k < at.len() && at[k] == line;
                assert(shorter[k] == line);
            }
            if shorter.contains(line) {
                let k = choose|k: int| 0 <= k < shorter.len() && shorter[k] == line;
                assert(at[k] == line);
            }
            assert(at[at.len() - 1] == at.last());
        }
        assert forall|i: int|
            0 <= i < at.len() && (forall|j: int| i < j < at.len() ==> at[j] != at[i]) implies
            t.breakpoint_ids[#[trigger] at[i]] == s.next_bp_id + i by {
            if i < at.len() - 1 {
                assert(at[at.len() - 1] != at[i]);
                assert(shorter[i] == at[i]);
                assert forall|j: int| i < j < shorter.len() implies shorter[j] != shorter[i] by {
                    assert(shorter[j] == at[j]);
                }
            }
        }
    }
}

/// Steps performed in two parts come to the same as performed in one.
pub proof fn lemma_steps_in_parts(s: SessionView, a: Seq<ActionView>, b: Seq<ActionView>)
    ensures
        after_steps(s, a + b) == after_steps(after_steps(s, a), b),
    decreases b.len(),
{
    if b.len() == 0 {
        assert(a + b =~= a);
    } else {
        lemma_steps_in_parts(s, a, b.drop_last());
        assert((a + b).drop_last() =~= a + b.drop_last());
    }
}

/// Four steps, one after the other.
proof fn lemma_four_steps(s: SessionView, steps: Seq<ActionView>)
    requires
        steps.len() == 4,
    ensures
        after_steps(s, steps) == after_step(
            after_step(after_step(after_step(s, steps[0]), steps[1]), steps[2]),
            steps[3],
        ),
{
    assert(steps.drop_last() =~= steps.take(3));
    assert(steps.take(3).drop_last() =~= steps.take(2));
    assert(steps.take(2).drop_last() =~= steps.take(1));
    assert(steps.take(1).drop_last() =~= steps.take(0));
    assert(after_steps(s, steps.take(0)) == s);
    assert(after_steps(s, steps.take(1)) == after_step(s, steps[0]));
    assert(after_steps(s, steps.take(2)) == after_step(after_step(s, steps[0]), steps[1]));
    assert(after_steps(s, steps.take(3)) == after_step(
        after_step(after_step(s, steps[0]), steps[1]),
        steps[2],
    ));
}

/// A start whose every step was performed leaves a running, connected session in which every
/// requested line has a breakpoint, numbered in the order of the request.
pub proof fn lemma_start_runs(
    s: SessionView,
    exe: Seq<char>,
    source: Seq<char>,
    file: Seq<char>,
    at: Seq<usize>,
    meta: Option<Seq<char>>,
)
    requires
        s.next_bp_id + at.len() <= u32::MAX,
    ensures
        ({
            let t = after_steps(starting(s, source, meta), start_steps(exe, file, at));
            &&& t.state is Running
            &&& t.connected
            &&& !t.pending
            &&& t.source_file == source
            &&& t.lines.len() == 0
            &&& t.next_bp_id == s.next_bp_id + at.len()
            &&& forall|line: usize| #[trigger]
                t.breakpoint_ids.dom().contains(line) <==> s.breakpoint_ids.dom().contains(line)
                    || at.contains(line)
            &&& forall|i: int|
                0 <= i < at.len() && (forall|j: int| i < j < at.len() ==> at[j] != at[i])
                    ==> t.breakpoint_ids[#[trigger] at[i]] == s.next_bp_id + i
        }),
{
    let begin = starting(s, source, meta);
    let opening = seq![
        ActionView::ClearCapture,
        ActionView::Launch(seq!["lldb"@, "--no-use-colors"@, exe]),
        ActionView::Wait(500),
        ActionView::Send(command_line("settings set auto-confirm true"@)),
    ];
    let stop_in_main = if at.len() == 0 {
        seq![ActionView::Send(command_line("breakpoint set --name main"@))]
    } else {
        Seq::<ActionView>::empty()
    };
    let closing = seq![
        ActionView::Send(command_line("version"@)),
        ActionView::Wait(200),
        ActionView::Drain,
        ActionView::Run(command_line("run"@)),
    ];
    let points = breakpoint_steps(file, at);
    let s1 = SessionView { connected: true, ..begin };
    assert(after_steps(begin, opening) == s1) by {
        lemma_four_steps(begin, opening);
    }
    lemma_steps_in_parts(begin, opening, points);
    lemma_breakpoint_steps(s1, file, at);
    let s2 = after_steps(s1, points);
    lemma_steps_in_parts(begin, opening + points, stop_in_main);
    assert(after_steps(s2, stop_in_main) == s2) by {
        if at.len() == 0 {
            let none = Seq::<ActionView>::empty();
            assert(stop_in_main.drop_last() =~= none);
            assert(after_steps(s2, none) == s2);
            assert(after_steps(s2, stop_in_main) == after_step(s2, stop_in_main.last()));
        }
    }
    lemma_steps_in_parts(begin, opening + points + stop_in_main, closing);
    let s3 = SessionView { state: StateView::Running, ..s2 };
    assert(after_steps(s2, closing) == s3) by {
        lemma_four_steps(s2, closing);
    }
}

/// A stopped session is idle, takes no commands and has no breakpoints; to stop it again changes
/// nothing.
pub proof fn lemma_stop_is_final(s: SessionView)
    ensures
        stopped(s).state is Idle,
        !stopped(s).connected,
        stopped(s).breakpoint_ids == Map::<usize, u32>::empty(),
        stopped(s).next_bp_id == 1,
        stopped(stopped(s)) == stopped(s),
{
}

/// To remove a breakpoint that was just added leaves the breakpoints as they were, where the line
/// had none.
pub proof fn lemma_remove_undoes_add(s: SessionView, line: usize, command: Seq<char>)
    requires
        !s.breakpoint_ids.dom().contains(line),
    ensures
        after_step(s, ActionView::SetBreakpoint { line, command }).breakpoint_ids.remove(line)
            == s.breakpoint_ids,
{
    assert(s.breakpoint_ids.insert(line, s.next_bp_id).remove(line) =~= s.breakpoint_ids);
}

/// Output read in two polls' worth of lines comes to the same as read at once.
pub proof fn lemma_poll_in_parts(p: PollView, a: Seq<LineView>, b: Seq<LineView>)
    ensures
        poll_lines(p, a + b) == poll_lines(poll_lines(p, a), b),
    decreases b.len(),
{
    if b.len() == 0 {
        assert(a + b =~= a);
    } else {
        lemma_poll_in_parts(p, a, b.drop_last());
        assert((a + b).drop_last() =~= a + b.drop_last());
    }
}

/// How many of the events are stops.
pub open spec fn stop_count(events: Seq<EventView>) -> nat
    decreases events.len(),
{
    if events.len() == 0 {
        0
    } else if events.last() is Stopped {
        stop_count(events.drop_last()) + 1
    } else {
        stop_count(events.drop_last())
    }
}

/// Appending an event counts it.
proof fn lemma_stop_count_push(events: Seq<EventView>, e: EventView)
    ensures
        stop_count(events.push(e)) == stop_count(events) + if e is Stopped {
            1nat
        } else {
            0nat
        },
{
    assert(events.push(e).drop_last() =~= events);
}

/// The output of the program counts as no stop.
proof fn lemma_program_has_no_stop(program: Seq<Seq<char>>)
    ensures
        stop_count(program_events(program)) == 0,
    decreases program.len(),
{
    if program.len() > 0 {
        lemma_program_has_no_stop(program.drop_last());
        assert(program_events(program).drop_last() =~= program_events(program.drop_last()));
    }
}

/// What the lines read so far tell: one stop at most, and then either the variables are asked for
/// or the program goes on, not both.
pub open spec fn poll_consistent(p: PollView) -> bool {
    &&& p.stopped == (p.wants_vars || p.wants_continue)
    &&& !(p.wants_vars && p.wants_continue)
    &&& stop_count(p.events) == if p.wants_vars {
        1nat
    } else {
        0nat
    }
    &&& p.wants_vars ==> p.session.pending
}

/// Every line keeps `poll_consistent`, and what lldb and the user have set up.
proof fn lemma_poll_line_keeps(p: PollView, line: LineView)
    requires
        poll_consistent(p),
    ensures
        poll_consistent(poll_line(p, line)),
        poll_line(p, line).session.connected == p.session.connected,
        poll_line(p, line).session.source_file == p.session.source_file,
        poll_line(p, line).session.breakpoint_ids == p.session.breakpoint_ids,
        poll_line(p, line).session.next_bp_id == p.session.next_bp_id,
        poll_line(p, line).session.meta == p.session.meta,
        poll_line(p, line).session.lines == p.session.lines.push(line.0),
        p.session.pending ==> poll_line(p, line).session.pending,
{
    let p1 = keep_line(p, line.0);
    let p2 = note_stop_reason(p1, line.0);
    if let Some(loc) = stop_location(p1.session.lines) {
        lemma_stop_count_push(p1.events, EventView::Stopped { file: loc.0, line: loc.1 });
    }
    let p3 = note_frame(p2, line.0);
    if let Some(loc) = frame_location(line.0) {
        lemma_stop_count_push(p2.events, EventView::Stopped { file: loc.0, line: loc.1 });
    }
    let p4 = note_variable(p3, line);
    if let Some((name, value, type_str)) = variable_of(line.0, line.1) {
        lemma_stop_count_push(
            p3.events,
            EventView::Variables(
                seq![(name, watch_value(p3.session.meta, name, value), class_of(type_str))],
            ),
        );
    }
    let code = match exit_code(line.0) {
        Some(code) => code,
        None => 0,
    };
    lemma_stop_count_push(p4.events, EventView::Exited { code });
}

/// All lines keep `poll_consistent`, and what lldb and the user have set up.
proof fn lemma_poll_lines_keep(p: PollView, output: Seq<LineView>)
    requires
        poll_consistent(p),
    ensures
        poll_consistent(poll_lines(p, output)),
        poll_lines(p, output).session.connected == p.session.connected,
        poll_lines(p, output).session.source_file == p.session.source_file,
        poll_lines(p, output).session.breakpoint_ids == p.session.breakpoint_ids,
        poll_lines(p, output).session.next_bp_id == p.session.next_bp_id,
        poll_lines(p, output).session.meta == p.session.meta,
        poll_lines(p, output).session.lines.len() == p.session.lines.len() + output.len(),
        p.session.pending ==> poll_lines(p, output).session.pending,
    decreases output.len(),
{
    if output.len() > 0 {
        lemma_poll_lines_keep(p, output.drop_last());
        lemma_poll_line_keeps(poll_lines(p, output.drop_last()), output.last());
    }
}

/// A poll reports one stop at most; it asks for the variables exactly when it reports one, and
/// then does not let the program go on. It changes neither breakpoints nor metadata.
pub proof fn lemma_poll_reports_one_stop(
    s: SessionView,
    program: Seq<Seq<char>>,
    output: Seq<LineView>,
)
    ensures
        stop_count(polled(s, program, output).events) <= 1,
        polled(s, program, output).wants_vars <==> stop_count(polled(s, program, output).events)
            == 1,
        !(polled(s, program, output).wants_vars && polled(s, program, output).wants_continue),
        polled(s, program, output).session.breakpoint_ids == s.breakpoint_ids,
        polled(s, program, output).session.next_bp_id == s.next_bp_id,
        polled(s, program, output).session.connected == s.connected,
        polled(s, program, output).session.meta == s.meta,
{
    lemma_program_has_no_stop(program);
    let begin = PollView {
        session: s,
        events: program_events(program),
        stopped: false,
        wants_vars: false,
        wants_continue: false,
    };
    lemma_poll_lines_keep(begin, output);
}

/// The output of the program is reported first, line by line, whatever lldb printed.
pub proof fn lemma_program_output_comes_first(
    s: SessionView,
    program: Seq<Seq<char>>,
    output: Seq<LineView>,
)
    ensures
        program.len() <= polled(s, program, output).events.len(),
        polled(s, program, output).events.take(program.len() as int) == program_events(program),
{
    let begin = PollView {
        session: s,
        events: program_events(program),
        stopped: false,
        wants_vars: false,
        wants_continue: false,
    };
    lemma_events_grow(begin, output);
}

/// Reading lines only appends events.
proof fn lemma_events_grow(p: PollView, output: Seq<LineView>)
    ensures
        p.events.len() <= poll_lines(p, output).events.len(),
        poll_lines(p, output).events.take(p.events.len() as int) == p.events,
    decreases output.len(),
{
    if output.len() == 0 {
        assert(p.events.take(p.events.len() as int) =~= p.events);
    } else {
        lemma_events_grow(p, output.drop_last());
        let q = poll_lines(p, output.drop_last());
        let r = poll_line(q, output.last());
        assert(r.events.take(q.events.len() as int) =~= q.events);
        assert(r.events.take(p.events.len() as int) =~= q.events.take(p.events.len() as int));
    }
}

/// A variable of the runtime is never reported.
pub proof fn lemma_runtime_variables_hidden(line: Seq<char>, decimals: Option<Seq<char>>)
    ensures
        variable_of(line, decimals) matches Some((name, _, _)) ==> !is_internal(name),
{
}

/// The variables that the events report, one after the other.
pub open spec fn reported(events: Seq<EventView>) -> Seq<(Seq<char>, Seq<char>, VarType)>
    decreases events.len(),
{
    if events.len() == 0 {
        seq![]
    } else {
        match events.last() {
            EventView::Variables(vars) => reported(events.drop_last()) + vars,
            _ => reported(events.drop_last()),
        }
    }
}

/// The variable on a line of output as it is to be reported: its name, its value by the metadata
/// of that name where there is some that fits, and the class of its type.
pub open spec fn variable_on(meta: Map<Seq<char>, MetaView>, line: LineView) -> Option<
    (Seq<char>, Seq<char>, VarType),
> {
    match variable_of(line.0, line.1) {
        Some((name, value, type_str)) => Some(
            (
                name,
                if meta.dom().contains(name) && shown_by_meta(meta[name], value) is Some {
                    shown_by_meta(meta[name], value)->0
                } else {
                    value
                },
                class_of(type_str),
            ),
        ),
        None => None,
    }
}

/// How many of the events are exits.
pub open spec fn exit_count(events: Seq<EventView>) -> nat
    decreases events.len(),
{
    if events.len() == 0 {
        0
    } else if events.last() is Exited {
        exit_count(events.drop_last()) + 1
    } else {
        exit_count(events.drop_last())
    }
}

/// One more event.
proof fn lemma_one_event(events: Seq<EventView>, e: EventView)
    ensures
        reported(events.push(e)) == match e {
            EventView::Variables(vars) => reported(events) + vars,
            _ => reported(events),
        },
        exit_count(events.push(e)) == exit_count(events) + if e is Exited {
            1nat
        } else {
            0nat
        },
        stop_count(events.push(e)) == stop_count(events) + if e is Stopped {
            1nat
        } else {
            0nat
        },
{
    assert(events.push(e).drop_last() =~= events);
}

/// The output of the program reports no variable and no exit.
proof fn lemma_program_reports_nothing(program: Seq<Seq<char>>)
    ensures
        reported(program_events(program)).len() == 0,
        exit_count(program_events(program)) == 0,
    decreases program.len(),
{
    if program.len() > 0 {
        lemma_program_reports_nothing(program.drop_last());
        assert(program_events(program).drop_last() =~= program_events(program.drop_last()));
        assert(program_events(program).last() is ProgramOutput);
    }
}

/// What a poll was before its first line.
proof fn lemma_poll_begins(s: SessionView, program: Seq<Seq<char>>)
    ensures
        poll_consistent(polled(s, program, seq![])),
        polled(s, program, seq![]).session == s,
        polled(s, program, seq![]).events == program_events(program),
        polled(s, program, seq![]).wants_vars == false,
{
    lemma_program_has_no_stop(program);
}

/// Variables are reported from the start where they were asked for before, else from the first
/// stop on.
proof fn lemma_asked_for(s: SessionView, program: Seq<Seq<char>>, output: Seq<LineView>)
    ensures
        poll_consistent(polled(s, program, output)),
        polled(s, program, output).session.pending == (s.pending || stop_count(
            polled(s, program, output).events,
        ) > 0),
        polled(s, program, output).session.meta == s.meta,
    decreases output.len(),
{
    lemma_poll_begins(s, program);
    if output.len() == 0 {
        assert(output =~= seq![]);
    } else {
        let before = output.drop_last();
        lemma_asked_for(s, program, before);
        lemma_poll_line_keeps(polled(s, program, before), output.last());
    }
}

/// A poll with one more line is the poll, and the line read after it.
proof fn lemma_one_more_line(
    s: SessionView,
    program: Seq<Seq<char>>,
    before: Seq<LineView>,
    line: LineView,
)
    ensures
        polled(s, program, before.push(line)) == poll_line(polled(s, program, before), line),
{
    assert(before.push(line).drop_last() =~= before);
}

/// Every variable is reported, whatever its type: a line that prints one adds exactly that variable
/// to what is reported, once variables were asked for or a stop was seen, up to this line; any
/// other line adds none.
pub proof fn lemma_every_variable_reported(
    s: SessionView,
    program: Seq<Seq<char>>,
    before: Seq<LineView>,
    line: LineView,
)
    ensures
        ({
            let was = polled(s, program, before).events;
            let now = polled(s, program, before.push(line)).events;
            let asked = s.pending || stop_count(now) > 0;
            reported(now) == match variable_on(s.meta, line) {
                Some(v) => if asked {
                    reported(was).push(v)
                } else {
                    reported(was)
                },
                None => reported(was),
            }
        }),
{
    let p = polled(s, program, before);
    lemma_asked_for(s, program, before);
    lemma_asked_for(s, program, before.push(line));
    lemma_one_more_line(s, program, before, line);
    let p1 = keep_line(p, line.0);
    let p2 = note_stop_reason(p1, line.0);
    if let Some(loc) = stop_location(p1.session.lines) {
        lemma_one_event(p1.events, EventView::Stopped { file: loc.0, line: loc.1 });
    }
    let p3 = note_frame(p2, line.0);
    if let Some(loc) = frame_location(line.0) {
        lemma_one_event(p2.events, EventView::Stopped { file: loc.0, line: loc.1 });
    }
    let p4 = note_variable(p3, line);
    if let Some(v) = variable_on(s.meta, line) {
        lemma_one_event(p3.events, EventView::Variables(seq![v]));
        assert(reported(p3.events) + seq![v] =~= reported(p3.events).push(v));
    }
    let code = match exit_code(line.0) {
        Some(code) => code,
        None => 0,
    };
    lemma_one_event(p4.events, EventView::Exited { code });
    let q = poll_line(p, line);
    assert(stop_count(q.events) == stop_count(p3.events)) by {
        if let Some((name, value, type_str)) = variable_of(line.0, line.1) {
            lemma_one_event(
                p3.events,
                EventView::Variables(
                    seq![(name, watch_value(p3.session.meta, name, value), class_of(type_str))],
                ),
            );
        }
    }
    lemma_poll_line_keeps(p, line);
    assert(p3.session.pending == q.session.pending);
}

/// Where variables were asked for before, a poll reports exactly the variables that its lines
/// print, in order.
pub proof fn lemma_asked_variables_reported(
    s: SessionView,
    program: Seq<Seq<char>>,
    output: Seq<LineView>,
)
    requires
        s.pending,
    ensures
        reported(polled(s, program, output).events) == output.filter_map(
            |line: LineView| variable_on(s.meta, line),
        ),
    decreases output.len(),
{
    let on = |line: LineView| variable_on(s.meta, line);
    if output.len() == 0 {
        lemma_poll_begins(s, program);
        lemma_program_reports_nothing(program);
        assert(output =~= seq![]);
        assert(reported(program_events(program)) =~= seq![]);
        assert(output.filter_map(on) =~= seq![]);
    } else {
        let before = output.drop_last();
        lemma_asked_variables_reported(s, program, before);
        lemma_every_variable_reported(s, program, before, output.last());
        assert(before.push(output.last()) =~= output);
        assert(output.filter_map(on) =~= before.filter_map(on) + match on(output.last()) {
            Some(v) => seq![v],
            None => Seq::empty(),
        });
        assert(reported(polled(s, program, output).events) =~= output.filter_map(on));
    }
}

/// A line with the exit of the program is reported as such, last, with the code that it gives, or
/// zero, and the session stands on that; any other line reports no exit.
pub proof fn lemma_exit_reported(
    s: SessionView,
    program: Seq<Seq<char>>,
    before: Seq<LineView>,
    line: LineView,
)
    ensures
        ({
            let was = polled(s, program, before);
            let now = polled(s, program, before.push(line));
            let code = match exit_code(line.0) {
                Some(code) => code,
                None => 0,
            };
            if mentions(line.0, "exited with status"@) {
                &&& exit_count(now.events) == exit_count(was.events) + 1
                &&& now.events.last() == EventView::Exited { code }
                &&& now.session.state == StateView::Exited { code }
            } else {
                &&& exit_count(now.events) == exit_count(was.events)
                &&& now.session.state == was.session.state || now.session.state is Paused
            }
        }),
{
    let p = polled(s, program, before);
    lemma_one_more_line(s, program, before, line);
    let p1 = keep_line(p, line.0);
    let p2 = note_stop_reason(p1, line.0);
    if let Some(loc) = stop_location(p1.session.lines) {
        lemma_one_event(p1.events, EventView::Stopped { file: loc.0, line: loc.1 });
    }
    let p3 = note_frame(p2, line.0);
    if let Some(loc) = frame_location(line.0) {
        lemma_one_event(p2.events, EventView::Stopped { file: loc.0, line: loc.1 });
    }
    let p4 = note_variable(p3, line);
    if let Some((name, value, type_str)) = variable_of(line.0, line.1) {
        lemma_one_event(
            p3.events,
            EventView::Variables(
                seq![(name, watch_value(p3.session.meta, name, value), class_of(type_str))],
            ),
        );
    }
    let code = match exit_code(line.0) {
        Some(code) => code,
        None => 0,
    };
    lemma_one_event(p4.events, EventView::Exited { code });
}

/// The first line that tells where the program stopped makes a stop there: the line of the
/// innermost frame, or a line with a stop reason where one of the latest lines gives a place. The
/// stop is reported before anything else of the line, the session is paused there unless the same
/// line reports an exit, and a frame without a place lets the program go on instead. After that
/// no line of the poll makes a stop.
pub proof fn lemma_stop_reported(
    s: SessionView,
    program: Seq<Seq<char>>,
    before: Seq<LineView>,
    line: LineView,
)
    ensures
        ({
            let was = polled(s, program, before);
            let now = polled(s, program, before.push(line));
            let settled = stop_count(was.events) > 0 || was.wants_continue;
            let rows = s.lines + before.push(line).map_values(|l: LineView| l.0);
            let place = if mentions(line.0, "stop reason ="@) {
                stop_location(rows)
            } else if mentions(line.0, "frame #0"@) && !mentions(line.0, "stop reason"@) {
                frame_location(line.0)
            } else {
                None
            };
            &&& settled ==> stop_count(now.events) == stop_count(was.events) && now.wants_continue
                == was.wants_continue
            &&& !settled && place is Some ==> {
                &&& now.events.len() > was.events.len()
                &&& now.events[was.events.len() as int] == EventView::Stopped {
                    file: (place->0).0,
                    line: (place->0).1,
                }
                &&& mentions(line.0, "exited with status"@) || now.session.state
                    == StateView::Paused { file: (place->0).0, line: (place->0).1 }
                &&& !now.wants_continue
            }
            &&& !settled && place is None ==> {
                &&& stop_count(now.events) == 0
                &&& now.wants_continue == (mentions(line.0, "frame #0"@) && !mentions(
                    line.0,
                    "stop reason"@,
                ))
            }
        }),
{
    let p = polled(s, program, before);
    lemma_asked_for(s, program, before);
    lemma_one_more_line(s, program, before, line);
    lemma_lines_kept(s, program, before);
    let rows = s.lines + before.push(line).map_values(|l: LineView| l.0);
    assert(rows =~= p.session.lines.push(line.0));
    lemma_asked_for(s, program, before.push(line));
    reveal_strlit("stop reason =");
    reveal_strlit("stop reason");
    if mentions(line.0, "stop reason ="@) {
        assert("stop reason ="@.take("stop reason"@.len() as int) =~= "stop reason"@);
        lemma_longer_mentioned(line.0, "stop reason"@, "stop reason ="@);
    }
    lemma_poll_line_keeps(p, line);
}

/// A text that mentions a pattern mentions its beginning.
proof fn lemma_longer_mentioned(s: Seq<char>, short: Seq<char>, long: Seq<char>)
    requires
        mentions(s, long),
        short.len() <= long.len(),
        long.take(short.len() as int) == short,
    ensures
        mentions(s, short),
{
    crate::text::lemma_mentions(s, long);
    crate::text::lemma_mentions(s, short);
    let (a, b) = choose|a: Seq<char>, b: Seq<char>| #[trigger] crate::text::made_of(s, a, long, b);
    let more = long.skip(short.len() as int) + b;
    assert(s =~= a + short + more);
    assert(crate::text::made_of(s, a, short, more));
}

/// All lines of output are kept, in order, behind those of earlier polls.
pub proof fn lemma_lines_kept(s: SessionView, program: Seq<Seq<char>>, output: Seq<LineView>)
    ensures
        polled(s, program, output).session.lines == s.lines + output.map_values(
            |l: LineView| l.0,
        ),
    decreases output.len(),
{
    let texts_of = output.map_values(|l: LineView| l.0);
    if output.len() == 0 {
        assert(s.lines + texts_of =~= s.lines);
    } else {
        let before = output.drop_last();
        lemma_lines_kept(s, program, before);
        lemma_asked_for(s, program, before);
        lemma_poll_line_keeps(polled(s, program, before), output.last());
        assert(s.lines + texts_of =~= (s.lines + before.map_values(|l: LineView| l.0)).push(
            output.last().0,
        ));
    }
}

/// What is written to lldb after a poll: where lldb takes commands, the request for the variables
/// exactly if a stop was reported, and the command to go on exactly if the program is to go on;
/// nothing else.
pub proof fn lemma_poll_replies(s: SessionView, program: Seq<Seq<char>>, output: Seq<LineView>)
    ensures
        ({
            let p = polled(s, program, output);
            poll_replies(p) == if s.connected && stop_count(p.events) == 1 {
                seq!["frame variable"@.push('\n')]
            } else if s.connected && p.wants_continue {
                seq!["continue"@.push('\n')]
            } else {
                seq![]
            }
        }),
{
    let p = polled(s, program, output);
    lemma_poll_reports_one_stop(s, program, output);
    let none = Seq::<Seq<char>>::empty();
    assert(poll_replies(p) =~= if s.connected && stop_count(p.events) == 1 {
        seq!["frame variable"@.push('\n')]
    } else if s.connected && p.wants_continue {
        seq!["continue"@.push('\n')]
    } else {
        none
    });
}

/// The place of a stop is that of the latest line that gives one, among the last fifteen.
pub proof fn lemma_latest_place(rows: Seq<Seq<char>>, k: int)
    requires
        0 <= k < rows.len(),
        forall|j: int| k < j < rows.len() ==> frame_location(#[trigger] rows[j]) is None,
    ensures
        k >= rows.len() - 15 && frame_location(rows[k]) is Some ==> stop_location(rows)
            == frame_location(rows[k]),
        k < rows.len() - 15 || (k == 0 && frame_location(rows[k]) is None) ==> stop_location(
            rows,
        ) is None,
{
    lemma_location_back(rows, 15, k);
}

/// The same for the last `n` lines.
proof fn lemma_location_back(rows: Seq<Seq<char>>, n: nat, k: int)
    requires
        0 <= k < rows.len(),
        forall|j: int| k < j < rows.len() ==> frame_location(#[trigger] rows[j]) is None,
    ensures
        k >= rows.len() - n && frame_location(rows[k]) is Some ==> location_back(rows, n)
            == frame_location(rows[k]),
        k < rows.len() - n || (k == 0 && frame_location(rows[k]) is None) ==> location_back(
            rows,
            n,
        ) is None,
    decreases n,
{
    if n > 0 {
        let last = rows.len() - 1;
        assert(rows.last() == rows[last]);
        if k < last {
            assert(frame_location(rows[last]) is None);
            let fewer = rows.drop_last();
            assert forall|j: int| k < j < fewer.len() implies frame_location(
                #[trigger] fewer[j],
            ) is None by {
                assert(fewer[j] == rows[j]);
            }
            lemma_location_back(fewer, (n - 1) as nat, k);
            assert(fewer[k] == rows[k]);
        } else if frame_location(rows[k]) is None && k == 0 {
            assert(rows.drop_last().len() == 0);
            assert(location_back(rows.drop_last(), (n - 1) as nat) is None);
        }
    }
}

/// A frame such as `... at demo.pas:12:5` gives the file before the first colon, white space aside,
/// and the number behind it. The words ` at ` count where they first stand.
pub proof fn lemma_frame_gives_place(
    before: Seq<char>,
    file: Seq<char>,
    line: nat,
    rest: Seq<char>,
)
    requires
        forall|j: int|
            0 <= j < before.len() ==> !#[trigger] occurs_at(
                before + " at "@ + (file + seq![':'] + decimal(line) + rest),
                " at "@,
                j,
            ),
        !file.contains(':'),
        rest.len() == 0 || rest[0] == ':',
    ensures
        frame_location(before + " at "@ + (file + seq![':'] + decimal(line) + rest)) == if line
            <= usize::MAX {
            Some((trim(file), line as usize))
        } else {
            None
        },
{
    let tail = file + seq![':'] + decimal(line) + rest;
    lemma_cut_at(before, " at "@, tail);
    lemma_decimal_reads_back(line);
    let d = decimal(line);
    assert forall|i: int| 0 <= i < d.len() implies d[i] != ':' by {
        assert(is_digit(d[i]));
    }
    assert(is_digit(d[0]) && is_digit(d[d.len() - 1]));
    lemma_digit_is_ink(d[0]);
    lemma_digit_is_ink(d[d.len() - 1]);
    lemma_trim_ink(d);
    lemma_numbers_read_back(line as int);
    lemma_split_whole(file, ':');
    lemma_split_whole(d, ':');
    if rest.len() == 0 {
        assert(tail =~= file + seq![':'] + d);
        lemma_split_at(file, d, ':');
    } else {
        let more = rest.skip(1);
        assert(tail =~= file + seq![':'] + (d + seq![':'] + more));
        lemma_split_at(file, d + seq![':'] + more, ':');
        lemma_split_at(d, more, ':');
    }
    let parts = split(tail, ':');
    assert(parts[0] == file);
    assert(parts[1] == d);
}

/// A text without ` at `, or without a colon behind it, gives no place.
pub proof fn lemma_no_place(s: Seq<char>)
    ensures
        frame_location(s) is Some ==> exists|a: Seq<char>, b: Seq<char>| #[trigger]
            made_of(s, a, " at "@, b) && b.contains(':'),
{
    lemma_cut(s, " at "@);
    if let Some((a, b)) = cut(s, " at "@) {
        assert(made_of(s, a, " at "@, b));
        if !b.contains(':') {
            lemma_split_whole(b, ':');
        }
    }
}

/// The exit code is the number, with its sign, behind the first `status = `, up to the first
/// character that is no digit and no sign.
pub proof fn lemma_exit_code_read(before: Seq<char>, code: int, rest: Seq<char>)
    requires
        forall|j: int|
            0 <= j < before.len() ==> !#[trigger] occurs_at(
                before + "status = "@ + (show(code) + rest),
                "status = "@,
                j,
            ),
        rest.len() > 0 ==> !is_digit(rest[0]) && rest[0] != '-',
    ensures
        exit_code(before + "status = "@ + (show(code) + rest)) == if -0x8000_0000 <= code
            <= 0x7fff_ffff {
            Some(code as i32)
        } else {
            None
        },
{
    let tail = show(code) + rest;
    lemma_cut_at(before, "status = "@, tail);
    lemma_numbers_read_back(code);
    let n = show(code);
    let d = decimal(if code < 0 {
        (-code) as nat
    } else {
        code as nat
    });
    lemma_decimal_reads_back(if code < 0 {
        (-code) as nat
    } else {
        code as nat
    });
    assert forall|i: int| 0 <= i < n.len() implies code_char()(#[trigger] tail[i]) by {
        assert(tail[i] == n[i]);
        if code < 0 && i > 0 {
            assert(n[i] == d[i - 1]);
        } else if code >= 0 {
            assert(n[i] == d[i]);
        }
    }
    if rest.len() > 0 {
        assert(tail[n.len() as int] == rest[0]);
    }
    lemma_span(tail, code_char(), n.len() as int);
    assert(tail.take(n.len() as int) =~= n);
}

} // verus!
