//! Menus, status line, keys, and which commands are enabled.

use vstd::prelude::*;

use crate::commands::{
    CM_ABOUT, CM_BUILD, CM_BUILD_RUN, CM_CLOSE, CM_CLOSE_EDITOR, CM_COPY, CM_CUT,
    CM_DEBUG_CONTINUE, CM_DEBUG_START, CM_DEBUG_STEP_INTO, CM_DEBUG_STEP_OVER, CM_DEBUG_STOP,
    CM_NEW, CM_OPEN, CM_PASTE, CM_QUIT, CM_REDO, CM_RUN, CM_SAVE, CM_SAVE_AS, CM_SELECT_ALL, CM_SHOW_CALLSTACK,
    CM_SHOW_OUTPUT, CM_SHOW_WATCHES, CM_UNDO, KB_ALT_X, KB_F2, KB_F3, KB_F5, KB_F7, KB_F8, KB_F9,
};

verus! {

/// A row of a menu.
pub enum MenuRow {
    /// A command, with the key that gives it (or zero) and the text of its shortcut.
    Entry { label: &'static str, command: u16, key: u16, shortcut: &'static str },
    Separator,
}

/// A row of a menu, over plain values.
pub enum RowView {
    Entry { label: Seq<char>, command: u16, key: u16, shortcut: Seq<char> },
    Separator,
}

impl View for MenuRow {
    type V = RowView;

    open spec fn view(&self) -> RowView {
        match self {
            MenuRow::Entry { label, command, key, shortcut } => RowView::Entry {
                label: label@,
                command: *command,
                key: *key,
                shortcut: shortcut@,
            },
            MenuRow::Separator => RowView::Separator,
        }
    }
}

/// A menu of the menu bar.
pub struct MenuTable {
    pub title: &'static str,
    pub rows: Vec<MenuRow>,
}

/// The rows, over plain values.
pub open spec fn row_views(v: Seq<MenuRow>) -> Seq<RowView> {
    v.map_values(|r: MenuRow| r@)
}

/// The menus, over plain values: titles and rows.
pub open spec fn menu_views(v: Seq<MenuTable>) -> Seq<(Seq<char>, Seq<RowView>)> {
    v.map_values(|t: MenuTable| (t.title@, row_views(t.rows@)))
}

/// A row with a command.
pub open spec fn row(label: Seq<char>, command: u16, key: u16, shortcut: Seq<char>) -> RowView {
    RowView::Entry { label, command, key, shortcut }
}

/// The rows of the file menu.
pub open spec fn file_rows() -> Seq<RowView> {
    seq![
        row("~N~ew"@, CM_NEW, 0, ""@),
        row("~O~pen..."@, CM_OPEN, KB_F3, "F3"@),
        row("~S~ave"@, CM_SAVE, KB_F2, "F2"@),
        row("Save ~A~s..."@, CM_SAVE_AS, 0, ""@),
        RowView::Separator,
        row("E~x~it"@, CM_QUIT, KB_ALT_X, "Alt-X"@),
    ]
}

/// The rows of the edit menu.
pub open spec fn edit_rows() -> Seq<RowView> {
    seq![
        row("~U~ndo"@, CM_UNDO, 0, "Ctrl-Z"@),
        row("~R~edo"@, CM_REDO, 0, "Ctrl-Y"@),
        RowView::Separator,
        row("Cu~t~"@, CM_CUT, 0, "Ctrl-X"@),
        row("~C~opy"@, CM_COPY, 0, "Ctrl-C"@),
        row("~P~aste"@, CM_PASTE, 0, "Ctrl-V"@),
        RowView::Separator,
        row("Select ~A~ll"@, CM_SELECT_ALL, 0, "Ctrl-A"@),
    ]
}

/// The rows of the build menu.
pub open spec fn build_rows() -> Seq<RowView> {
    seq![
        row("~B~uild"@, CM_BUILD, KB_F9, "F9"@),
        row("~R~un"@, CM_RUN, 0, "Ctrl-F9"@),
    ]
}

/// The rows of the debug menu.
pub open spec fn debug_rows() -> Seq<RowView> {
    seq![
        row("~S~tart / Continue"@, CM_DEBUG_START, KB_F5, "F5"@),
        row("Step ~O~ver"@, CM_DEBUG_STEP_OVER, KB_F8, "F8"@),
        row("Step ~I~nto"@, CM_DEBUG_STEP_INTO, KB_F7, "F7"@),
        RowView::Separator,
        row("Sto~p~"@, CM_DEBUG_STOP, 0, "Shift-F5"@),
    ]
}

/// The rows of the windows menu.
pub open spec fn window_rows() -> Seq<RowView> {
    seq![
        row("~W~atches"@, CM_SHOW_WATCHES, 0, ""@),
        row("~O~utput"@, CM_SHOW_OUTPUT, 0, ""@),
        row("~C~all Stack"@, CM_SHOW_CALLSTACK, 0, ""@),
    ]
}

/// The rows of the help menu.
pub open spec fn help_rows() -> Seq<RowView> {
    seq![row("~A~bout..."@, CM_ABOUT, 0, ""@)]
}

/// The menu bar.
pub open spec fn menu_bar() -> Seq<(Seq<char>, Seq<RowView>)> {
    seq![
        ("~F~ile"@, file_rows()),
        ("~E~dit"@, edit_rows()),
        ("~B~uild"@, build_rows()),
        ("~D~ebug"@, debug_rows()),
        ("~W~indows"@, window_rows()),
        ("~H~elp"@, help_rows()),
    ]
}

/// A row with a command.
fn entry(label: &'static str, command: u16, key: u16, shortcut: &'static str) -> (r: MenuRow)
    ensures
        r@ == row(label@, command, key, shortcut@),
{
    MenuRow::Entry { label, command, key, shortcut }
}

/// The menus of the menu bar, from left to right.
pub fn menu_tables() -> (r: Vec<MenuTable>)
    ensures
        menu_views(r@) == menu_bar(),
{
    let file: Vec<MenuRow> = vec![
        entry("~N~ew", CM_NEW, 0, ""),
        entry("~O~pen...", CM_OPEN, KB_F3, "F3"),
        entry("~S~ave", CM_SAVE, KB_F2, "F2"),
        entry("Save ~A~s...", CM_SAVE_AS, 0, ""),
        MenuRow::Separator,
        entry("E~x~it", CM_QUIT, KB_ALT_X, "Alt-X"),
    ];
    assert(row_views(file@) =~= file_rows());
    let edit: Vec<MenuRow> = vec![
        entry("~U~ndo", CM_UNDO, 0, "Ctrl-Z"),
        entry("~R~edo", CM_REDO, 0, "Ctrl-Y"),
        MenuRow::Separator,
        entry("Cu~t~", CM_CUT, 0, "Ctrl-X"),
        entry("~C~opy", CM_COPY, 0, "Ctrl-C"),
        entry("~P~aste", CM_PASTE, 0, "Ctrl-V"),
        MenuRow::Separator,
        entry("Select ~A~ll", CM_SELECT_ALL, 0, "Ctrl-A"),
    ];
    assert(row_views(edit@) =~= edit_rows());
    let build: Vec<MenuRow> = vec![
        entry("~B~uild", CM_BUILD, KB_F9, "F9"),
        entry("~R~un", CM_RUN, 0, "Ctrl-F9"),
    ];
    assert(row_views(build@) =~= build_rows());
    let debug: Vec<MenuRow> = vec![
        entry("~S~tart / Continue", CM_DEBUG_START, KB_F5, "F5"),
        entry("Step ~O~ver", CM_DEBUG_STEP_OVER, KB_F8, "F8"),
        entry("Step ~I~nto", CM_DEBUG_STEP_INTO, KB_F7, "F7"),
        MenuRow::Separator,
        entry("Sto~p~", CM_DEBUG_STOP, 0, "Shift-F5"),
    ];
    assert(row_views(debug@) =~= debug_rows());
    let windows: Vec<MenuRow> = vec![
        entry("~W~atches", CM_SHOW_WATCHES, 0, ""),
        entry("~O~utput", CM_SHOW_OUTPUT, 0, ""),
        entry("~C~all Stack", CM_SHOW_CALLSTACK, 0, ""),
    ];
    assert(row_views(windows@) =~= window_rows());
    let help: Vec<MenuRow> = vec![entry("~A~bout...", CM_ABOUT, 0, "")];
    assert(row_views(help@) =~= help_rows());
    let r: Vec<MenuTable> = vec![
        MenuTable { title: "~F~ile", rows: file },
        MenuTable { title: "~E~dit", rows: edit },
        MenuTable { title: "~B~uild", rows: build },
        MenuTable { title: "~D~ebug", rows: debug },
        MenuTable { title: "~W~indows", rows: windows },
        MenuTable { title: "~H~elp", rows: help },
    ];
    assert(menu_views(r@) =~= menu_bar());
    r
}

/// An entry of the status line.
pub struct StatusEntry {
    pub label: &'static str,
    pub key: u16,
    pub command: u16,
}

/// The entries, over plain values: label, key and command.
pub open spec fn status_views(v: Seq<StatusEntry>) -> Seq<(Seq<char>, u16, u16)> {
    v.map_values(|e: StatusEntry| (e.label@, e.key, e.command))
}

/// The status line.
pub open spec fn status_bar() -> Seq<(Seq<char>, u16, u16)> {
    seq![
        ("~F5~ Debug"@, KB_F5, CM_DEBUG_START),
        ("~F7~ Step"@, KB_F7, CM_DEBUG_STEP_INTO),
        ("~F8~ Next"@, KB_F8, CM_DEBUG_STEP_OVER),
        ("~F9~ Build"@, KB_F9, CM_BUILD),
        ("~Alt-X~ Exit"@, KB_ALT_X, CM_QUIT),
    ]
}

/// The entries of the status line, from left to right.
pub fn status_entries() -> (r: Vec<StatusEntry>)
    ensures
        status_views(r@) == status_bar(),
{
    let r: Vec<StatusEntry> = vec![
        StatusEntry { label: "~F5~ Debug", key: KB_F5, command: CM_DEBUG_START },
        StatusEntry { label: "~F7~ Step", key: KB_F7, command: CM_DEBUG_STEP_INTO },
        StatusEntry { label: "~F8~ Next", key: KB_F8, command: CM_DEBUG_STEP_OVER },
        StatusEntry { label: "~F9~ Build", key: KB_F9, command: CM_BUILD },
        StatusEntry { label: "~Alt-X~ Exit", key: KB_ALT_X, command: CM_QUIT },
    ];
    assert(status_views(r@) =~= status_bar());
    r
}

/// What a key does before the windows see it.
#[derive(Debug, Clone, Copy, PartialEq, Eq, Structural)]
pub enum KeyAction {
    /// It gives a command.
    Command(u16),
    /// It steps into a call, and is used up.
    StepInto,
    /// It steps over a line, and is used up.
    StepOver,
    /// The windows see it.
    Pass,
}

/// What a key does.
pub open spec fn key_meaning(key: u16) -> KeyAction {
    if key == KB_F2 {
        KeyAction::Command(CM_SAVE)
    } else if key == KB_F3 {
        KeyAction::Command(CM_OPEN)
    } else if key == KB_F9 {
        KeyAction::Command(CM_BUILD)
    } else if key == KB_F5 {
        KeyAction::Command(CM_DEBUG_START)
    } else if key == KB_F7 {
        KeyAction::StepInto
    } else if key == KB_F8 {
        KeyAction::StepOver
    } else {
        KeyAction::Pass
    }
}

/// What a key does.
pub fn key_action(key: u16) -> (r: KeyAction)
    ensures
        r == key_meaning(key),
{
    if key == KB_F2 {
        KeyAction::Command(CM_SAVE)
    } else if key == KB_F3 {
        KeyAction::Command(CM_OPEN)
    } else if key == KB_F9 {
        KeyAction::Command(CM_BUILD)
    } else if key == KB_F5 {
        KeyAction::Command(CM_DEBUG_START)
    } else if key == KB_F7 {
        KeyAction::StepInto
    } else if key == KB_F8 {
        KeyAction::StepOver
    } else {
        KeyAction::Pass
    }
}

/// What a key does when it is pressed with or without Shift and Ctrl.
pub open spec fn press_meaning(key: u16, shift: bool, ctrl: bool) -> KeyAction {
    if key == KB_F5 && shift {
        KeyAction::Command(CM_DEBUG_STOP)
    } else if key == KB_F9 && ctrl {
        KeyAction::Command(CM_RUN)
    } else if key == KB_F9 && shift {
        KeyAction::Command(CM_BUILD_RUN)
    } else {
        key_meaning(key)
    }
}

/// What a key does when it is pressed with or without Shift and Ctrl: Shift+F5 stops the debugger,
/// Ctrl+F9 runs the program, Shift+F9 builds and then runs it, and on other keys the two make no
/// difference.
pub fn press_action(key: u16, shift: bool, ctrl: bool) -> (r: KeyAction)
    ensures
        r == press_meaning(key, shift, ctrl),
{
    if key == KB_F5 && shift {
        KeyAction::Command(CM_DEBUG_STOP)
    } else if key == KB_F9 && ctrl {
        KeyAction::Command(CM_RUN)
    } else if key == KB_F9 && shift {
        KeyAction::Command(CM_BUILD_RUN)
    } else {
        key_action(key)
    }
}

/// What decides which commands are enabled.
#[derive(Debug, Clone, Copy, PartialEq, Eq, Structural)]
pub struct CommandFacts {
    pub editor_focused: bool,
    pub has_selection: bool,
    pub can_undo: bool,
    pub can_redo: bool,
    pub debugging: bool,
    pub watch_open: bool,
    pub output_open: bool,
    pub callstack_open: bool,
}

/// The commands that are enabled or disabled, each with whether it is.
pub open spec fn enabled_commands(f: CommandFacts) -> Seq<(u16, bool)> {
    seq![
        (CM_SAVE, f.editor_focused),
        (CM_SAVE_AS, f.editor_focused),
        (CM_BUILD, f.editor_focused),
        (CM_RUN, f.editor_focused),
        (CM_CLOSE_EDITOR, f.editor_focused),
        (CM_UNDO, f.editor_focused && f.can_undo),
        (CM_REDO, f.editor_focused && f.can_redo),
        (CM_PASTE, f.editor_focused),
        (CM_SELECT_ALL, f.editor_focused),
        (CM_CUT, f.editor_focused && f.has_selection),
        (CM_COPY, f.editor_focused && f.has_selection),
        (CM_DEBUG_START, f.editor_focused),
        (CM_DEBUG_CONTINUE, f.debugging),
        (CM_DEBUG_STEP_OVER, f.debugging),
        (CM_DEBUG_STEP_INTO, f.debugging),
        (CM_DEBUG_STOP, f.debugging),
        (CM_SHOW_WATCHES, !f.watch_open),
        (CM_SHOW_OUTPUT, !f.output_open),
        (CM_SHOW_CALLSTACK, !f.callstack_open),
    ]
}

/// The commands that are enabled or disabled right now. What works on an editor needs one with the
/// focus; cutting and copying need a selection, undoing and redoing an edit to undo or redo. What
/// works on the debugger needs it to run, and a panel is offered while it is closed.
pub fn command_states(f: &CommandFacts) -> (r: Vec<(u16, bool)>)
    ensures
        r@ == enabled_commands(*f),
{
    let r: Vec<(u16, bool)> = vec![
        (CM_SAVE, f.editor_focused),
        (CM_SAVE_AS, f.editor_focused),
        (CM_BUILD, f.editor_focused),
        (CM_RUN, f.editor_focused),
        (CM_CLOSE_EDITOR, f.editor_focused),
        (CM_UNDO, f.editor_focused && f.can_undo),
        (CM_REDO, f.editor_focused && f.can_redo),
        (CM_PASTE, f.editor_focused),
        (CM_SELECT_ALL, f.editor_focused),
        (CM_CUT, f.editor_focused && f.has_selection),
        (CM_COPY, f.editor_focused && f.has_selection),
        (CM_DEBUG_START, f.editor_focused),
        (CM_DEBUG_CONTINUE, f.debugging),
        (CM_DEBUG_STEP_OVER, f.debugging),
        (CM_DEBUG_STEP_INTO, f.debugging),
        (CM_DEBUG_STOP, f.debugging),
        (CM_SHOW_WATCHES, !f.watch_open),
        (CM_SHOW_OUTPUT, !f.output_open),
        (CM_SHOW_CALLSTACK, !f.callstack_open),
    ];
    assert(r@ =~= enabled_commands(*f));
    r
}

/// The environment acts on the command.
pub open spec fn handled(command: u16) -> bool {
    ||| command == CM_QUIT
    ||| command == CM_CLOSE_EDITOR
    ||| command == CM_CLOSE
    ||| command == CM_NEW
    ||| command == CM_SHOW_WATCHES
    ||| command == CM_SHOW_OUTPUT
    ||| command == CM_SHOW_CALLSTACK
    ||| command == CM_UNDO
    ||| command == CM_REDO
    ||| command == CM_CUT
    ||| command == CM_COPY
    ||| command == CM_PASTE
    ||| command == CM_SELECT_ALL
    ||| command == CM_OPEN
    ||| command == CM_SAVE
    ||| command == CM_SAVE_AS
    ||| command == CM_BUILD
    ||| command == CM_RUN
    ||| command == CM_BUILD_RUN
    ||| command == CM_DEBUG_START
    ||| command == CM_DEBUG_CONTINUE
    ||| command == CM_DEBUG_STOP
    ||| command == CM_DEBUG_STEP_OVER
    ||| command == CM_DEBUG_STEP_INTO
    ||| command == CM_ABOUT
}

/// A key does what its row or entry says: it gives the command, or steps where the command is a
/// step. Alt+X is left to the menu bar and the status line.
pub open spec fn key_agrees(key: u16, shift: bool, ctrl: bool, command: u16) -> bool {
    match press_meaning(key, shift, ctrl) {
        KeyAction::Command(c) => c == command,
        KeyAction::StepInto => command == CM_DEBUG_STEP_INTO,
        KeyAction::StepOver => command == CM_DEBUG_STEP_OVER,
        KeyAction::Pass => key == 0 || key == KB_ALT_X,
    }
}

/// The function key that the text of a shortcut names, with whether Shift and Ctrl are held.
pub open spec fn named_key(shortcut: Seq<char>) -> Option<(u16, bool, bool)> {
    if shortcut == "F2"@ {
        Some((KB_F2, false, false))
    } else if shortcut == "F3"@ {
        Some((KB_F3, false, false))
    } else if shortcut == "F5"@ {
        Some((KB_F5, false, false))
    } else if shortcut == "F7"@ {
        Some((KB_F7, false, false))
    } else if shortcut == "F8"@ {
        Some((KB_F8, false, false))
    } else if shortcut == "F9"@ {
        Some((KB_F9, false, false))
    } else if shortcut == "Shift-F5"@ {
        Some((KB_F5, true, false))
    } else if shortcut == "Ctrl-F9"@ {
        Some((KB_F9, false, true))
    } else {
        None
    }
}

/// The command of a row is acted on. Its key does the same, and so does the function key that the
/// text of its shortcut names; a row with a plain function key names that key.
pub open spec fn row_works(row: RowView) -> bool {
    match row {
        RowView::Entry { label, command, key, shortcut } => {
            &&& handled(command)
            &&& key_agrees(key, false, false, command)
            &&& match named_key(shortcut) {
                Some((k, shift, ctrl)) => key_agrees(k, shift, ctrl, command),
                None => key == 0 || key == KB_ALT_X,
            }
            &&& key != 0 && key != KB_ALT_X ==> named_key(shortcut) == Some((key, false, false))
        },
        RowView::Separator => true,
    }
}

/// The keys that the shortcuts of the menus name.
proof fn lemma_named_keys()
    ensures
        named_key("F2"@) == Some((KB_F2, false, false)),
        named_key("F3"@) == Some((KB_F3, false, false)),
        named_key("F5"@) == Some((KB_F5, false, false)),
        named_key("F7"@) == Some((KB_F7, false, false)),
        named_key("F8"@) == Some((KB_F8, false, false)),
        named_key("F9"@) == Some((KB_F9, false, false)),
        named_key("Shift-F5"@) == Some((KB_F5, true, false)),
        named_key("Ctrl-F9"@) == Some((KB_F9, false, true)),
        named_key(""@) is None,
        named_key("Alt-X"@) is None,
        named_key("Ctrl-Z"@) is None,
        named_key("Ctrl-Y"@) is None,
        named_key("Ctrl-X"@) is None,
        named_key("Ctrl-C"@) is None,
        named_key("Ctrl-V"@) is None,
        named_key("Ctrl-A"@) is None,
{
    reveal_strlit("");
    reveal_strlit("F2");
    reveal_strlit("F3");
    reveal_strlit("F5");
    reveal_strlit("F7");
    reveal_strlit("F8");
    reveal_strlit("F9");
    reveal_strlit("Shift-F5");
    reveal_strlit("Ctrl-F9");
    reveal_strlit("Alt-X");
    reveal_strlit("Ctrl-Z");
    reveal_strlit("Ctrl-Y");
    reveal_strlit("Ctrl-X");
    reveal_strlit("Ctrl-C");
    reveal_strlit("Ctrl-V");
    reveal_strlit("Ctrl-A");
    assert("F2"@[1] == '2' && "F3"@[1] == '3' && "F5"@[1] == '5');
    assert("F7"@[1] == '7' && "F8"@[1] == '8' && "F9"@[1] == '9');
    assert(""@.len() == 0 && "F2"@.len() == 2 && "F3"@.len() == 2 && "F5"@.len() == 2);
    assert("F7"@.len() == 2 && "F8"@.len() == 2 && "F9"@.len() == 2);
    assert("Shift-F5"@.len() == 8 && "Ctrl-F9"@.len() == 7 && "Alt-X"@.len() == 5);
    assert("Ctrl-Z"@.len() == 6 && "Ctrl-Y"@.len() == 6 && "Ctrl-X"@.len() == 6);
    assert("Ctrl-C"@.len() == 6 && "Ctrl-V"@.len() == 6 && "Ctrl-A"@.len() == 6);
}

/// Every row of every menu works: its command is acted on, and the keys that it names give it. The
/// row that stops the debugger names Shift+F5, and the row that runs the program names Ctrl+F9.
pub proof fn lemma_menus_work(m: int, r: int)
    requires
        0 <= m < menu_bar().len(),
        0 <= r < menu_bar()[m].1.len(),
    ensures
        row_works(menu_bar()[m].1[r]),
        match menu_bar()[m].1[r] {
            RowView::Entry { label, command, key, shortcut } => {
                &&& command == CM_DEBUG_STOP ==> named_key(shortcut) == Some((KB_F5, true, false))
                &&& command == CM_RUN ==> named_key(shortcut) == Some((KB_F9, false, true))
            },
            RowView::Separator => true,
        },
{
    lemma_named_keys();
}

/// Every entry of the status line has a command that is acted on, and its key does the same.
pub proof fn lemma_status_line_works(i: int)
    requires
        0 <= i < status_bar().len(),
    ensures
        handled(status_bar()[i].2),
        key_agrees(status_bar()[i].1, false, false, status_bar()[i].2),
{
}

/// No command is both enabled and disabled, and all of them are acted on.
pub proof fn lemma_states_are_clear(f: CommandFacts, i: int, j: int)
    requires
        0 <= i < enabled_commands(f).len(),
        0 <= j < enabled_commands(f).len(),
        enabled_commands(f)[i].0 == enabled_commands(f)[j].0,
    ensures
        i == j,
        handled(enabled_commands(f)[i].0),
{
}

/// What a command needs to be enabled: those on an editor one with the focus, cutting and copying a
/// selection too, undoing and redoing an edit to undo or redo too, those on the debugger that it
/// runs, and a panel that it is closed.
pub proof fn lemma_commands_enabled(f: CommandFacts, i: int)
    requires
        0 <= i < enabled_commands(f).len(),
    ensures
        enabled_commands(f).len() == 19,
        ({
            let (c, on) = enabled_commands(f)[i];
            &&& seq![CM_SAVE, CM_SAVE_AS, CM_BUILD, CM_RUN, CM_CLOSE_EDITOR, CM_PASTE, CM_SELECT_ALL, CM_DEBUG_START].contains(c) ==> on == f.editor_focused
            &&& c == CM_CUT || c == CM_COPY ==> on == (f.editor_focused && f.has_selection)
            &&& c == CM_UNDO ==> on == (f.editor_focused && f.can_undo)
            &&& c == CM_REDO ==> on == (f.editor_focused && f.can_redo)
            &&& c == CM_DEBUG_CONTINUE || c == CM_DEBUG_STEP_OVER || c == CM_DEBUG_STEP_INTO || c
                == CM_DEBUG_STOP ==> on == f.debugging
            &&& c == CM_SHOW_WATCHES ==> on == !f.watch_open
            &&& c == CM_SHOW_OUTPUT ==> on == !f.output_open
            &&& c == CM_SHOW_CALLSTACK ==> on == !f.callstack_open
            &&& c != CM_QUIT && c != CM_NEW && c != CM_OPEN && c != CM_ABOUT
        }),
{
    let plain = seq![
        CM_SAVE,
        CM_SAVE_AS,
        CM_BUILD,
        CM_RUN,
        CM_CLOSE_EDITOR,
        CM_PASTE,
        CM_SELECT_ALL,
        CM_DEBUG_START,
    ];
    assert(plain[0] == CM_SAVE && plain[1] == CM_SAVE_AS && plain[2] == CM_BUILD);
    assert(plain[3] == CM_RUN && plain[4] == CM_CLOSE_EDITOR && plain[5] == CM_PASTE);
    assert(plain[6] == CM_SELECT_ALL && plain[7] == CM_DEBUG_START);
    let c = enabled_commands(f)[i].0;
    if plain.contains(c) {
        let k = choose|k: int| 0 <= k < plain.len() && plain[k] == c;
        assert(plain[k] == c);
    }
}

/// Shift and Ctrl matter on two keys only: Shift+F5 stops the debugger, Ctrl+F9 runs and Shift+F9
/// builds and runs; with both, Ctrl counts on F9. On every other key they change nothing.
pub proof fn lemma_shift_and_ctrl(key: u16, shift: bool, ctrl: bool)
    ensures
        press_meaning(KB_F5, true, ctrl) == KeyAction::Command(CM_DEBUG_STOP),
        press_meaning(KB_F5, false, ctrl) == KeyAction::Command(CM_DEBUG_START),
        press_meaning(KB_F9, shift, true) == KeyAction::Command(CM_RUN),
        press_meaning(KB_F9, true, false) == KeyAction::Command(CM_BUILD_RUN),
        press_meaning(KB_F9, false, false) == KeyAction::Command(CM_BUILD),
        key != KB_F5 && key != KB_F9 ==> press_meaning(key, shift, ctrl) == press_meaning(
            key,
            false,
            false,
        ),
        press_meaning(KB_F2, shift, ctrl) == KeyAction::Command(CM_SAVE),
        press_meaning(KB_F3, shift, ctrl) == KeyAction::Command(CM_OPEN),
        press_meaning(KB_F7, shift, ctrl) == KeyAction::StepInto,
        press_meaning(KB_F8, shift, ctrl) == KeyAction::StepOver,
        key != KB_F2 && key != KB_F3 && key != KB_F5 && key != KB_F7 && key != KB_F8 && key != KB_F9
            ==> press_meaning(key, shift, ctrl) == KeyAction::Pass,
{
}

/// The command stands in row `r` of menu `m`.
pub open spec fn offers(m: int, r: int, command: u16) -> bool {
    &&& 0 <= m < menu_bar().len()
    &&& 0 <= r < menu_bar()[m].1.len()
    &&& menu_bar()[m].1[r] is Entry
    &&& menu_bar()[m].1[r]->command == command
}

/// An entry of a menu says what it does, wherever it stands, and no command stands in two places.
pub proof fn lemma_labels_say_commands(m: int, r: int, k: int, l: int, command: u16)
    requires
        offers(m, r, command),
    ensures
        offers(k, l, command) ==> k == m && l == r,
        ({
            let label = menu_bar()[m].1[r]->label;
            &&& command == CM_NEW ==> label == "~N~ew"@
            &&& command == CM_OPEN ==> label == "~O~pen..."@
            &&& command == CM_SAVE ==> label == "~S~ave"@
            &&& command == CM_SAVE_AS ==> label == "Save ~A~s..."@
            &&& command == CM_QUIT ==> label == "E~x~it"@
            &&& command == CM_UNDO ==> label == "~U~ndo"@
            &&& command == CM_REDO ==> label == "~R~edo"@
            &&& command == CM_CUT ==> label == "Cu~t~"@
            &&& command == CM_COPY ==> label == "~C~opy"@
            &&& command == CM_PASTE ==> label == "~P~aste"@
            &&& command == CM_SELECT_ALL ==> label == "Select ~A~ll"@
            &&& command == CM_BUILD ==> label == "~B~uild"@
            &&& command == CM_RUN ==> label == "~R~un"@
            &&& command == CM_DEBUG_START ==> label == "~S~tart / Continue"@
            &&& command == CM_DEBUG_STEP_OVER ==> label == "Step ~O~ver"@
            &&& command == CM_DEBUG_STEP_INTO ==> label == "Step ~I~nto"@
            &&& command == CM_DEBUG_STOP ==> label == "Sto~p~"@
            &&& command == CM_SHOW_WATCHES ==> label == "~W~atches"@
            &&& command == CM_SHOW_OUTPUT ==> label == "~O~utput"@
            &&& command == CM_SHOW_CALLSTACK ==> label == "~C~all Stack"@
            &&& command == CM_ABOUT ==> label == "~A~bout..."@
        }),
{
}

/// Every command can be given from the menus, but closing, continuing, and building and running at
/// once, which have buttons and keys of their own.
pub proof fn lemma_commands_offered(command: u16)
    requires
        handled(command),
        command != CM_CLOSE,
        command != CM_CLOSE_EDITOR,
        command != CM_DEBUG_CONTINUE,
        command != CM_BUILD_RUN,
    ensures
        exists|m: int, r: int| offers(m, r, command),
{
    assert(offers(0, 0, CM_NEW));
    assert(offers(0, 1, CM_OPEN));
    assert(offers(0, 2, CM_SAVE));
    assert(offers(0, 3, CM_SAVE_AS));
    assert(offers(0, 5, CM_QUIT));
    assert(offers(1, 0, CM_UNDO));
    assert(offers(1, 1, CM_REDO));
    assert(offers(1, 3, CM_CUT));
    assert(offers(1, 4, CM_COPY));
    assert(offers(1, 5, CM_PASTE));
    assert(offers(1, 7, CM_SELECT_ALL));
    assert(offers(2, 0, CM_BUILD));
    assert(offers(2, 1, CM_RUN));
    assert(offers(3, 0, CM_DEBUG_START));
    assert(offers(3, 1, CM_DEBUG_STEP_OVER));
    assert(offers(3, 2, CM_DEBUG_STEP_INTO));
    assert(offers(3, 4, CM_DEBUG_STOP));
    assert(offers(4, 0, CM_SHOW_WATCHES));
    assert(offers(4, 1, CM_SHOW_OUTPUT));
    assert(offers(4, 2, CM_SHOW_CALLSTACK));
    assert(offers(5, 0, CM_ABOUT));
}

/// The status line names the key in front of what it does.
pub proof fn lemma_status_line_names_keys(i: int)
    requires
        0 <= i < status_bar().len(),
    ensures
        ({
            let (text, key, command) = status_bar()[i];
            &&& key == KB_F5 ==> text == "~F5~ Debug"@ && command == CM_DEBUG_START
            &&& key == KB_F7 ==> text == "~F7~ Step"@ && command == CM_DEBUG_STEP_INTO
            &&& key == KB_F8 ==> text == "~F8~ Next"@ && command == CM_DEBUG_STEP_OVER
            &&& key == KB_F9 ==> text == "~F9~ Build"@ && command == CM_BUILD
            &&& key == KB_ALT_X ==> text == "~Alt-X~ Exit"@ && command == CM_QUIT
        }),
{
}

} // verus!
