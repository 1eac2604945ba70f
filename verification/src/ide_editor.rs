//! Editor window: a breakpoint gutter and a code editor side by side in one frame, and the file
//! that the editor shows.

use std::collections::HashSet;

use vstd::prelude::*;

use crate::build_report::error_text;
use crate::commands::{CM_CLOSE, CM_CLOSE_EDITOR};
use crate::geometry::{coordinate, rect, Rect};
use crate::gutter::{empty_gutter, BreakpointGutter, GutterView, GUTTER_WIDTH};
use crate::ide_file_editor::IdeFileEditor;
use crate::layout::{framed, inside, right_bar, vertical_bar};
use crate::paths::{file_name, may_name};
use crate::text::{copy_opt, opt_str, opt_text, owned, same_str};

verus! {

broadcast use vstd::std_specs::hash::group_hash_axioms;

/// The state flag of a view that has the focus.
pub const SF_FOCUSED: u16 = 0x0040;

/// The state flag of a view with a shadow.
pub const SF_SHADOW: u16 = 0x0008;

/// How the file of an editor compares with what the editor last read or wrote.
#[derive(Debug, Clone, Copy, PartialEq, Eq, Structural)]
pub enum ExternalState {
    /// The editor has no file.
    NoFile,
    Unchanged,
    Modified,
    Deleted,
}

/// The state of an editor window. Times of files are numbers that grow with time.
pub struct IdeEditorWindow {
    gutter: BreakpointGutter,
    file_path: Option<String>,
    last_mtime: Option<i128>,
    save_wildcard: String,
    default_title: String,
    last_titled_path: Option<String>,
    build_error: Option<(usize, String)>,
}

/// The state of an editor window, over plain values.
#[verifier::ext_equal]
pub struct EditorView {
    pub gutter: GutterView,
    pub file_path: Option<Seq<char>>,
    /// The time of the file when it was last read or written.
    pub last_mtime: Option<i128>,
    /// The wildcard of the dialog that saves the file, such as `*.pas`.
    pub save_wildcard: Seq<char>,
    /// The title where there is no file.
    pub default_title: Seq<char>,
    /// The file that the title was made for.
    pub last_titled_path: Option<Seq<char>>,
    /// The line and the message of the error that the last build ended with.
    pub build_error: Option<(usize, Seq<char>)>,
}

impl View for IdeEditorWindow {
    type V = EditorView;

    closed spec fn view(&self) -> EditorView {
        EditorView {
            gutter: self.gutter@,
            file_path: opt_text(self.file_path),
            last_mtime: self.last_mtime,
            save_wildcard: self.save_wildcard@,
            default_title: self.default_title@,
            last_titled_path: opt_text(self.last_titled_path),
            build_error: error_text(self.build_error),
        }
    }
}

/// A new editor window.
pub open spec fn fresh_editor(bounds: Rect, title: Seq<char>, wildcard: Seq<char>) -> EditorView {
    EditorView {
        gutter: empty_gutter(frame_parts(bounds).gutter),
        file_path: None,
        last_mtime: None,
        save_wildcard: wildcard,
        default_title: title,
        last_titled_path: None,
        build_error: None,
    }
}

/// How the file compares, where its time on disk is `disk`, or it is not there.
pub open spec fn external_state(e: EditorView, disk: Option<i128>) -> ExternalState {
    if e.file_path is None {
        ExternalState::NoFile
    } else if disk is None {
        ExternalState::Deleted
    } else if disk == e.last_mtime {
        ExternalState::Unchanged
    } else {
        ExternalState::Modified
    }
}

/// The editor after its file was written or read again.
pub open spec fn after_save(e: EditorView, mtime: Option<i128>) -> EditorView {
    EditorView { last_mtime: mtime, ..e }
}

/// The editor after it was written to another file.
pub open spec fn after_save_as(e: EditorView, path: Seq<char>, mtime: Option<i128>) -> EditorView {
    EditorView { file_path: Some(path), last_mtime: mtime, ..e }
}

/// The editor after another file was read into it.
pub open spec fn after_load(e: EditorView, path: Seq<char>, mtime: Option<i128>) -> EditorView {
    EditorView {
        file_path: Some(path),
        last_mtime: mtime,
        gutter: GutterView { breakpoints: Set::empty(), ..e.gutter },
        ..e
    }
}

/// The editor after its text was thrown away.
pub open spec fn after_new(e: EditorView) -> EditorView {
    EditorView {
        file_path: None,
        last_mtime: None,
        gutter: GutterView { breakpoints: Set::empty(), ..e.gutter },
        ..e
    }
}

/// The editor after its file was found to be deleted: saving asks for a file again.
pub open spec fn after_delete(e: EditorView) -> EditorView {
    EditorView { file_path: None, last_mtime: None, ..e }
}

/// The title of a window whose file has the name `name`.
pub open spec fn title_for(e: EditorView, name: Option<Seq<char>>) -> Seq<char> {
    match name {
        Some(n) => n,
        None => e.default_title,
    }
}

/// Where the parts of an editor window stand when it is made: gutter and editor inside the frame,
/// the others on it.
#[derive(Debug, Clone, Copy, PartialEq, Eq, Structural)]
pub struct FrameParts {
    pub gutter: Rect,
    pub editor: Rect,
    pub h_bar: Rect,
    pub v_bar: Rect,
    pub indicator: Rect,
}

/// Where the parts of an editor window stand when it is made.
pub open spec fn frame_parts(bounds: Rect) -> FrameParts {
    let w = bounds.wide();
    let h = bounds.high();
    FrameParts {
        gutter: rect(0, 0, GUTTER_WIDTH as int, h - 2),
        editor: rect(GUTTER_WIDTH as int, 0, w - 2, h - 2),
        h_bar: rect(18, h - 1, w - 2, h),
        v_bar: rect(w - 1, 1, w, h - 2),
        indicator: rect(2, h - 1, 16, h),
    }
}

/// Where the parts on the frame stand on the screen, where there is room for them.
#[derive(Debug, Clone, Copy, PartialEq, Eq, Structural)]
pub struct FramePositions {
    pub h_bar: Option<Rect>,
    pub v_bar: Option<Rect>,
    pub indicator: Option<Rect>,
}

/// The cells two columns inside the frame are on the screen.
pub open spec fn on_screen(bounds: Rect) -> bool {
    framed(bounds) && coordinate(bounds.a.x + 2) && coordinate(bounds.b.x - 2)
}

/// Where the parts on the frame stand on the screen.
pub open spec fn frame_positions(bounds: Rect) -> FramePositions {
    let w = bounds.wide();
    let h_from = if 18 <= w - 2 {
        18
    } else {
        w - 2
    };
    let ind_to = if 16 <= w - 2 {
        16
    } else {
        w - 2
    };
    FramePositions {
        h_bar: if bounds.high() >= 3 {
            Some(rect(bounds.a.x + h_from, bounds.b.y - 1, bounds.b.x - 2, bounds.b.y as int))
        } else {
            None
        },
        v_bar: right_bar(bounds),
        indicator: if bounds.high() >= 3 {
            Some(rect(bounds.a.x + 2, bounds.b.y - 1, bounds.a.x + ind_to, bounds.b.y as int))
        } else {
            None
        },
    }
}

/// Where gutter and editor stand on the screen once the window stands at `bounds`, where there is
/// room inside its frame.
pub open spec fn resized_parts(bounds: Rect) -> Option<(Rect, Rect)> {
    if bounds.wide() > 2 && bounds.high() > 2 {
        let x = bounds.a.x + 1;
        let y = bounds.a.y + 1;
        Some(
            (
                rect(x, y, x + GUTTER_WIDTH, bounds.b.y - 1),
                rect(x + GUTTER_WIDTH, y, bounds.b.x - 1, bounds.b.y - 1),
            ),
        )
    } else {
        None
    }
}

/// The row on which the program stands: the gutter column, and the columns of the editor from
/// `from` to before `to`.
#[derive(Debug, Clone, Copy, PartialEq, Eq, Structural)]
pub struct HighlightRow {
    pub y: i16,
    pub gutter: i16,
    pub from: i16,
    pub to: i16,
}

/// The number of lines that are scrolled out at the top.
pub open spec fn scrolled(delta_y: i16) -> int {
    if delta_y < 0 {
        0
    } else {
        delta_y as int
    }
}

/// The row of the window on which the line is seen, where it is. Rows are counted in 16 bits.
pub open spec fn highlight_of(bounds: Rect, exec_line: Option<usize>, delta_y: i16) -> Option<
    HighlightRow,
> {
    match exec_line {
        Some(line) => {
            let row = (line - scrolled(delta_y) - 1) as i16;
            if line > scrolled(delta_y) && 0 <= row < bounds.high() - 2 {
                Some(
                    HighlightRow {
                        y: (bounds.a.y + 1 + row) as i16,
                        gutter: (bounds.a.x + 1) as i16,
                        from: (bounds.a.x + 1 + GUTTER_WIDTH) as i16,
                        to: (bounds.b.x - 1) as i16,
                    },
                )
            } else {
                None
            }
        },
        None => None,
    }
}

/// Where the parts of an editor window stand when it is made.
pub fn new_frame(bounds: &Rect) -> (r: FrameParts)
    requires
        framed(*bounds),
    ensures
        r == frame_parts(*bounds),
{
    let w: i16 = bounds.width();
    let h: i16 = bounds.height();
    FrameParts {
        gutter: Rect::new(0, 0, GUTTER_WIDTH, h - 2),
        editor: Rect::new(GUTTER_WIDTH, 0, w - 2, h - 2),
        h_bar: Rect::new(18, h - 1, w - 2, h),
        v_bar: Rect::new(w - 1, 1, w, h - 2),
        indicator: Rect::new(2, h - 1, 16, h),
    }
}

/// Where the parts on the frame stand on the screen.
pub fn frame_child_positions(bounds: &Rect) -> (r: FramePositions)
    requires
        on_screen(*bounds),
    ensures
        r == frame_positions(*bounds),
{
    let w: i16 = bounds.width();
    let h: i16 = bounds.height();
    let h_from: i16 = if 18 <= w - 2 {
        18
    } else {
        w - 2
    };
    let ind_to: i16 = if 16 <= w - 2 {
        16
    } else {
        w - 2
    };
    FramePositions {
        h_bar: if h >= 3 {
            Some(Rect::new(bounds.a.x + h_from, bounds.b.y - 1, bounds.b.x - 2, bounds.b.y))
        } else {
            None
        },
        v_bar: vertical_bar(bounds),
        indicator: if h >= 3 {
            Some(Rect::new(bounds.a.x + 2, bounds.b.y - 1, bounds.a.x + ind_to, bounds.b.y))
        } else {
            None
        },
    }
}

/// Where gutter and editor stand on the screen after the window was moved or resized. The gutter
/// keeps its width.
pub fn resized_interior(bounds: &Rect) -> (r: Option<(Rect, Rect)>)
    requires
        bounds.sized(),
    ensures
        r == resized_parts(*bounds),
{
    if bounds.width() > 2 && bounds.height() > 2 {
        let x: i16 = bounds.a.x + 1;
        let y: i16 = bounds.a.y + 1;
        Some(
            (
                Rect::new(x, y, x + GUTTER_WIDTH, bounds.b.y - 1),
                Rect::new(x + GUTTER_WIDTH, y, bounds.b.x - 1, bounds.b.y - 1),
            ),
        )
    } else {
        None
    }
}

/// The row to highlight for the line on which the program stands, where it is seen.
pub fn exec_highlight(bounds: &Rect, exec_line: Option<usize>, delta_y: i16) -> (r: Option<
    HighlightRow,
>)
    requires
        on_screen(*bounds),
    ensures
        r == highlight_of(*bounds, exec_line, delta_y),
{
    match exec_line {
        Some(line) => {
            let top: usize = if delta_y < 0 {
                0
            } else {
                delta_y as usize
            };
            if line <= top {
                return None;
            }
            let row: i16 = (line - top - 1) as i16;
            let rows: i16 = bounds.height() - 2;
            if 0 <= row && row < rows {
                Some(
                    HighlightRow {
                        y: bounds.a.y + 1 + row,
                        gutter: bounds.a.x + 1,
                        from: bounds.a.x + 1 + GUTTER_WIDTH,
                        to: bounds.b.x - 1,
                    },
                )
            } else {
                None
            }
        },
        None => None,
    }
}

/// The command that an editor window hands on: closing it goes through the save prompt.
pub fn translate_command(command: u16) -> (r: u16)
    ensures
        r == if command == CM_CLOSE {
            CM_CLOSE_EDITOR
        } else {
            command
        },
{
    if command == CM_CLOSE {
        CM_CLOSE_EDITOR
    } else {
        command
    }
}

/// The state flags of a window with or without the focus.
pub open spec fn focus_flags(state: u16, focused: bool) -> u16 {
    if focused {
        state | SF_FOCUSED
    } else {
        state & !SF_FOCUSED
    }
}

/// The state flags of a window with or without the focus.
pub fn focus_state(state: u16, focused: bool) -> (r: u16)
    ensures
        r == focus_flags(state, focused),
{
    if focused {
        state | SF_FOCUSED
    } else {
        state & !SF_FOCUSED
    }
}

/// The state flags without a shadow.
pub fn without_shadow(state: u16) -> (r: u16)
    ensures
        r == state & !SF_SHADOW,
{
    state & !SF_SHADOW
}

/// `a` and `b` are the same path, or both are none.
fn same_path_text(a: &Option<String>, b: &Option<String>) -> (r: bool)
    ensures
        r == (opt_text(*a) == opt_text(*b)),
{
    match (a, b) {
        (Some(x), Some(y)) => same_str(x.as_str(), y.as_str()),
        (None, None) => true,
        _ => false,
    }
}

impl IdeEditorWindow {
    /// An editor window without a file.
    pub fn new(bounds: Rect, title: &str, save_wildcard: &str) -> (r: IdeEditorWindow)
        requires
            framed(bounds),
        ensures
            r@ == fresh_editor(bounds, title@, save_wildcard@),
    {
        let parts = new_frame(&bounds);
        IdeEditorWindow {
            gutter: BreakpointGutter::new(parts.gutter),
            file_path: None,
            last_mtime: None,
            save_wildcard: owned(save_wildcard),
            default_title: owned(title),
            last_titled_path: None,
            build_error: None,
        }
    }

    /// The gutter.
    pub fn gutter(&self) -> (r: &BreakpointGutter)
        ensures
            r@ == self@.gutter,
    {
        &self.gutter
    }

    /// The gutter, to be changed.
    pub fn gutter_mut(&mut self) -> (r: &mut BreakpointGutter)
        ensures
            r@ == old(self)@.gutter,
            final(self)@ == (EditorView { gutter: final(r)@, ..old(self)@ }),
    {
        &mut self.gutter
    }

    /// The file that the editor shows.
    pub fn file_path(&self) -> (r: Option<&str>)
        ensures
            opt_str(r) == self@.file_path,
    {
        match &self.file_path {
            Some(p) => Some(p.as_str()),
            None => None,
        }
    }

    /// Sets the file that the editor shows.
    pub fn set_file_path(&mut self, path: Option<String>)
        ensures
            final(self)@ == (EditorView { file_path: opt_text(path), ..old(self)@ }),
    {
        self.file_path = path;
    }

    /// The wildcard of the dialog that saves the file.
    pub fn save_wildcard(&self) -> (r: &str)
        ensures
            r@ == self@.save_wildcard,
    {
        self.save_wildcard.as_str()
    }

    /// The time of the file when it was last read or written.
    pub fn last_known_mtime(&self) -> (r: Option<i128>)
        ensures
            r == self@.last_mtime,
    {
        self.last_mtime
    }

    /// The line and the message of the error that the last build ended with.
    pub fn build_error(&self) -> (r: &Option<(usize, String)>)
        ensures
            error_text(*r) == self@.build_error,
    {
        &self.build_error
    }

    /// Sets the error that the last build ended with.
    pub fn set_build_error(&mut self, error: Option<(usize, String)>)
        ensures
            final(self)@ == (EditorView { build_error: error_text(error), ..old(self)@ }),
    {
        self.build_error = error;
    }

    /// The title that the window needs, where its file has changed since the last one was made;
    /// `name` is the name of the file.
    pub fn sync_title_named(&mut self, name: Option<&str>) -> (r: Option<String>)
        ensures
            final(self)@ == (EditorView { last_titled_path: old(self)@.file_path, ..old(self)@ }),
            opt_text(r) == if old(self)@.last_titled_path == old(self)@.file_path {
                None
            } else {
                Some(title_for(old(self)@, opt_str(name)))
            },
    {
        if same_path_text(&self.last_titled_path, &self.file_path) {
            return None;
        }
        let title = match name {
            Some(n) => owned(n),
            None => self.default_title.clone(),
        };
        self.last_titled_path = copy_opt(&self.file_path);
        Some(title)
    }

    /// The title that the window needs, where its file has changed since the last one was made:
    /// the name of the file, or the default.
    pub fn sync_title_from_file_path(&mut self) -> (r: Option<String>)
        ensures
            final(self)@ == (EditorView { last_titled_path: old(self)@.file_path, ..old(self)@ }),
            match old(self)@.file_path {
                _ if old(self)@.last_titled_path == old(self)@.file_path => r is None,
                Some(path) => exists|name: Option<Seq<char>>| #[trigger]
                    may_name(path, name) && opt_text(r) == Some(title_for(old(self)@, name)),
                None => opt_text(r) == Some(old(self)@.default_title),
            },
    {
        let name = match &self.file_path {
            Some(p) => file_name(p.as_str()),
            None => None,
        };
        let r = match &name {
            Some(n) => self.sync_title_named(Some(n.as_str())),
            None => self.sync_title_named(None),
        };
        proof {
            if let Some(path) = old(self)@.file_path {
                assert(may_name(path, opt_text(name)));
            }
        }
        r
    }

    /// Scrolls the gutter to where the editor is.
    pub fn sync_gutter_scroll(&mut self, delta_y: i16)
        ensures
            final(self)@ == (EditorView {
                gutter: GutterView { top_line: scrolled(delta_y) as usize, ..old(self)@.gutter },
                ..old(self)@
            }),
    {
        let top: usize = if delta_y < 0 {
            0
        } else {
            delta_y as usize
        };
        self.gutter.set_top_line(top);
    }

    /// The file to save to.
    pub fn save_target(&self) -> (r: Result<String, String>)
        ensures
            match r {
                Ok(path) => self@.file_path == Some(path@),
                Err(e) => self@.file_path is None && e@ == "no filename set; use save_as"@,
            },
    {
        match &self.file_path {
            Some(p) => Ok(p.clone()),
            None => Err(owned("no filename set; use save_as")),
        }
    }

    /// The file was saved; `mtime` is its time on disk.
    pub fn saved(&mut self, mtime: Option<i128>)
        ensures
            final(self)@ == after_save(old(self)@, mtime),
    {
        self.last_mtime = mtime;
    }

    /// The text was saved to `path`; `mtime` is the time of that file on disk.
    pub fn saved_as(&mut self, path: String, mtime: Option<i128>)
        ensures
            final(self)@ == after_save_as(old(self)@, path@, mtime),
    {
        self.last_mtime = mtime;
        self.file_path = Some(path);
    }

    /// The file `path` was read into the editor; `mtime` is its time on disk.
    pub fn loaded(&mut self, path: String, mtime: Option<i128>)
        ensures
            final(self)@ == after_load(old(self)@, path@, mtime),
    {
        self.last_mtime = mtime;
        self.file_path = Some(path);
        self.gutter.clear_breakpoints();
    }

    /// The text of the editor was thrown away.
    pub fn new_buffer(&mut self)
        ensures
            final(self)@ == after_new(old(self)@),
    {
        self.file_path = None;
        self.last_mtime = None;
        self.gutter.clear_breakpoints();
    }

    /// The file was deleted by others. The text and its breakpoints stay, and saving asks for a file.
    pub fn file_deleted(&mut self)
        ensures
            final(self)@ == after_delete(old(self)@),
    {
        self.file_path = None;
        self.last_mtime = None;
    }

    /// How the file compares, where its time on disk is `disk`, or it is not there.
    pub fn poll_external_changes(&self, disk: Option<i128>) -> (r: ExternalState)
        ensures
            r == external_state(self@, disk),
    {
        if self.file_path.is_none() {
            return ExternalState::NoFile;
        }
        match disk {
            Some(time) => match self.last_mtime {
                Some(known) => {
                    if time == known {
                        ExternalState::Unchanged
                    } else {
                        ExternalState::Modified
                    }
                },
                None => ExternalState::Modified,
            },
            None => ExternalState::Deleted,
        }
    }

    /// The file to read again.
    pub fn reload_target(&self) -> (r: Result<String, String>)
        ensures
            match r {
                Ok(path) => self@.file_path == Some(path@),
                Err(e) => self@.file_path is None && e@ == "no filename to reload"@,
            },
    {
        match &self.file_path {
            Some(p) => Ok(p.clone()),
            None => Err(owned("no filename to reload")),
        }
    }

    /// The file was read again; `mtime` is its time on disk.
    pub fn reloaded(&mut self, mtime: Option<i128>)
        ensures
            final(self)@ == after_save(old(self)@, mtime),
    {
        self.last_mtime = mtime;
    }
}

impl IdeFileEditor for IdeEditorWindow {
    open spec fn marks(&self) -> GutterView {
        self@.gutter
    }

    fn toggle_breakpoint(&mut self, line: usize)
        ensures
            final(self)@ == (EditorView { gutter: final(self)@.gutter, ..old(self)@ }),
    {
        self.gutter.toggle_breakpoint(line);
    }

    fn clear_breakpoints(&mut self)
        ensures
            final(self)@ == (EditorView { gutter: final(self)@.gutter, ..old(self)@ }),
    {
        self.gutter.clear_breakpoints();
    }

    fn breakpoint_lines(&self) -> (r: Vec<usize>) {
        self.gutter.breakpoint_lines()
    }

    fn snap_breakpoints(&mut self, valid_lines: &[usize], total_lines: usize)
        ensures
            final(self)@ == (EditorView { gutter: final(self)@.gutter, ..old(self)@ }),
    {
        let mut valid: HashSet<usize> = HashSet::new();
        for i in 0..valid_lines.len()
            invariant
                valid@ == valid_lines@.take(i as int).to_set(),
        {
            let ghost before = valid@;
            valid.insert(valid_lines[i]);
            proof {
                let now = valid_lines@.take(i + 1);
                assert(now =~= valid_lines@.take(i as int).push(valid_lines@[i as int]));
                lemma_pushed_set(valid_lines@.take(i as int), valid_lines@[i as int]);
            }
        }
        assert(valid_lines@.take(valid_lines@.len() as int) =~= valid_lines@);
        self.gutter.snap_breakpoints(&valid, total_lines);
    }

    fn current_exec_line(&self) -> (r: Option<usize>) {
        self.gutter.current_exec_line()
    }

    fn set_current_exec_line(&mut self, line: Option<usize>)
        ensures
            final(self)@ == (EditorView { gutter: final(self)@.gutter, ..old(self)@ }),
    {
        self.gutter.set_current_exec_line(line);
    }
}

/// The members of a list with one more item.
pub(crate) proof fn lemma_pushed_set(list: Seq<usize>, item: usize)
    ensures
        list.push(item).to_set() == list.to_set().insert(item),
{
    let a = list.push(item).to_set();
    let b = list.to_set().insert(item);
    assert forall|x: usize| a.contains(x) == b.contains(x) by {
        if a.contains(x) {
            let i = choose|i: int| 0 <= i < list.push(item).len() && list.push(item)[i] == x;
            if i < list.len() {
                assert(list[i] == x);
            }
        }
        if b.contains(x) {
            if x == item {
                assert(list.push(item)[list.len() as int] == x);
            } else {
                let i = choose|i: int| 0 <= i < list.len() && list[i] == x;
                assert(list.push(item)[i] == x);
            }
        }
    }
    assert(a =~= b);
}

/// An editor whose file was just read or written finds it unchanged as long as the time of the
/// file stays, changed once that is another, and deleted once the file is gone.
pub proof fn lemma_external_changes_found(
    e: EditorView,
    path: Seq<char>,
    mtime: i128,
    disk: Option<i128>,
)
    ensures
        external_state(after_load(e, path, Some(mtime)), disk) == match disk {
            Some(time) => if time == mtime {
                ExternalState::Unchanged
            } else {
                ExternalState::Modified
            },
            None => ExternalState::Deleted,
        },
        external_state(after_save_as(e, path, Some(mtime)), disk) == external_state(
            after_load(e, path, Some(mtime)),
            disk,
        ),
        e.file_path is Some ==> external_state(after_save(e, Some(mtime)), disk) == external_state(
            after_load(e, path, Some(mtime)),
            disk,
        ),
        external_state(after_new(e), disk) == ExternalState::NoFile,
        external_state(after_delete(e), disk) == ExternalState::NoFile,
{
}

/// Saving and losing the file keep the breakpoints; reading another file or starting a new one drops them.
pub proof fn lemma_breakpoints_follow_file(e: EditorView, path: Seq<char>, mtime: Option<i128>)
    ensures
        after_save(e, mtime).gutter == e.gutter,
        after_save_as(e, path, mtime).gutter == e.gutter,
        after_delete(e).gutter == e.gutter,
        after_load(e, path, mtime).gutter.breakpoints == Set::<usize>::empty(),
        after_new(e).gutter.breakpoints == Set::<usize>::empty(),
{
}

/// Gutter and editor stand side by side and fill the inside of the frame, when the window is made
/// and after it was resized.
pub proof fn lemma_gutter_beside_editor(bounds: Rect, p: crate::geometry::Point)
    requires
        framed(bounds),
        bounds.wide() > 2,
        bounds.high() > 2,
    ensures
        ({
            let f = frame_parts(bounds);
            &&& inside(bounds).covers(p) == (f.gutter.covers(p) || f.editor.covers(p))
            &&& !(f.gutter.covers(p) && f.editor.covers(p))
        }),
        ({
            let (g, e) = resized_parts(bounds)->0;
            let within = bounds.a.x < p.x < bounds.b.x - 1 && bounds.a.y < p.y < bounds.b.y - 1;
            &&& within == (g.covers(p) || e.covers(p))
            &&& !(g.covers(p) && e.covers(p))
        }),
{
}

/// Giving a window the focus or taking it away leaves every other state flag.
pub proof fn lemma_focus_flag_alone(state: u16, focused: bool)
    ensures
        (focus_flags(state, focused) & SF_FOCUSED != 0) == focused,
        focus_flags(state, focused) & !SF_FOCUSED == state & !SF_FOCUSED,
{
    assert((state | 0x0040u16) & 0x0040u16 != 0) by (bit_vector);
    assert((state & !0x0040u16) & 0x0040u16 == 0) by (bit_vector);
    assert((state | 0x0040u16) & !0x0040u16 == state & !0x0040u16) by (bit_vector);
    assert((state & !0x0040u16) & !0x0040u16 == state & !0x0040u16) by (bit_vector);
}

/// The row of the line on which the program stands: as far below the first row inside the frame as
/// the line is below those scrolled out, across the gutter and the editor. There is none where the
/// line is scrolled out or below the window, or where the program stands nowhere.
pub proof fn lemma_highlight_on_line(bounds: Rect, line: usize, delta_y: i16)
    requires
        on_screen(bounds),
        line <= i16::MAX,
    ensures
        ({
            let top: int = if delta_y > 0 {
                delta_y as int
            } else {
                0
            };
            let seen = top < line && line - top <= bounds.b.y - bounds.a.y - 2;
            match highlight_of(bounds, Some(line), delta_y) {
                Some(r) => seen && r.y == bounds.a.y + (line - top) && r.gutter == bounds.a.x + 1
                    && r.from == bounds.a.x + 2 && r.to == bounds.b.x - 1,
                None => !seen,
            }
        }),
        highlight_of(bounds, None, delta_y) is None,
{
}

/// The parts on the frame stand on it: the scroll bars on its lower and right side, and the
/// indicator on its lower side, left of the scroll bar there.
pub proof fn lemma_parts_on_frame(bounds: Rect, p: crate::geometry::Point)
    requires
        on_screen(bounds),
        bounds.wide() >= 4,
        bounds.high() >= 4,
    ensures
        ({
            let f = frame_positions(bounds);
            &&& f.h_bar is Some && f.v_bar is Some && f.indicator is Some
            &&& f.h_bar->0.covers(p) ==> p.y == bounds.b.y - 1 && bounds.a.x < p.x < bounds.b.x - 2
            &&& f.indicator->0.covers(p) ==> p.y == bounds.b.y - 1 && bounds.a.x + 2 <= p.x
                < bounds.a.x + 16 && p.x < bounds.b.x - 2
            &&& f.v_bar->0.covers(p) <==> p.x == bounds.b.x - 1 && bounds.a.y + 1 <= p.y
                < bounds.b.y - 2
            &&& !(f.h_bar->0.covers(p) && f.indicator->0.covers(p))
            &&& bounds.wide() >= 20 ==> (f.h_bar->0.covers(p) <==> p.y == bounds.b.y - 1
                && bounds.a.x + 18 <= p.x < bounds.b.x - 2)
            &&& bounds.wide() >= 18 ==> (f.indicator->0.covers(p) <==> p.y == bounds.b.y - 1
                && bounds.a.x + 2 <= p.x < bounds.a.x + 16)
        }),
        bounds.high() < 3 ==> frame_positions(bounds).h_bar is None && frame_positions(
            bounds,
        ).indicator is None,
{
}

/// What happens to the file of an editor changes what is known of the file and nothing else, but for
/// the breakpoints that go with the text.
pub proof fn lemma_file_changes_only(e: EditorView, path: Seq<char>, mtime: Option<i128>)
    ensures
        after_save(e, mtime).file_path == e.file_path,
        after_save(e, mtime).last_mtime == mtime,
        after_save_as(e, path, mtime).file_path == Some(path),
        after_save_as(e, path, mtime).last_mtime == mtime,
        after_load(e, path, mtime).file_path == Some(path),
        after_load(e, path, mtime).last_mtime == mtime,
        after_new(e).file_path is None,
        after_delete(e).file_path is None,
        after_load(e, path, mtime).gutter.exec_line == e.gutter.exec_line,
        after_new(e).gutter.exec_line == e.gutter.exec_line,
        after_load(e, path, mtime).build_error == e.build_error,
        after_save_as(e, path, mtime).build_error == e.build_error,
        after_new(e).default_title == e.default_title,
        after_load(e, path, mtime).save_wildcard == e.save_wildcard,
        title_for(e, Some(path)) == path,
        title_for(e, None) == e.default_title,
{
}

/// A new editor shows no file yet: it has the given title, its dialogs list the given files, and its
/// gutter has no mark.
pub proof fn lemma_new_editor(bounds: Rect, title: Seq<char>, wildcard: Seq<char>)
    ensures
        ({
            let e = fresh_editor(bounds, title, wildcard);
            &&& e.default_title == title
            &&& e.save_wildcard == wildcard
            &&& e.file_path is None
            &&& e.last_mtime is None
            &&& e.last_titled_path is None
            &&& e.build_error is None
            &&& e.gutter.breakpoints == Set::<usize>::empty()
            &&& e.gutter.exec_line is None
            &&& e.gutter.top_line == 0
        }),
{
}

} // verus!
