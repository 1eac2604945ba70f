//! Breakpoint gutter: a single column to the left of the editor.
//!
//! Shows breakpoint markers and the current execution line. Mouse clicks toggle breakpoints. Does
//! not paint its own background: the frame of the editor's window fills that area.

use std::collections::HashSet;

use vstd::prelude::*;

use crate::geometry::{lemma_press_hits_row, pressed_row, row_pressed, MouseEvent, Rect};

verus! {

broadcast use vstd::std_specs::hash::group_hash_axioms;

/// Width of the gutter in characters.
pub const GUTTER_WIDTH: i16 = 1;

/// What the gutter shows beside a line with a mark.
#[derive(Debug, Clone, Copy, PartialEq, Eq, Structural)]
pub enum GutterMark {
    Breakpoint,
    Execution,
}

impl GutterMark {
    /// The character of the mark.
    pub open spec fn symbol(self) -> char {
        match self {
            GutterMark::Breakpoint => '\u{25A0}',
            GutterMark::Execution => '\u{25BA}',
        }
    }

    /// The character of the mark.
    pub fn glyph(self) -> (r: char)
        ensures
            r == self.symbol(),
    {
        match self {
            GutterMark::Breakpoint => '\u{25A0}',
            GutterMark::Execution => '\u{25BA}',
        }
    }
}

/// The gutter.
pub struct BreakpointGutter {
    bounds: Rect,
    state: u16,
    breakpoints: HashSet<usize>,
    top_line: usize,
    current_exec_line: Option<usize>,
}

/// The gutter, over plain values. Lines count from one, `top_line` from zero.
#[verifier::ext_equal]
pub struct GutterView {
    pub bounds: Rect,
    pub state: u16,
    pub breakpoints: Set<usize>,
    pub top_line: usize,
    pub exec_line: Option<usize>,
}

impl View for BreakpointGutter {
    type V = GutterView;

    closed spec fn view(&self) -> GutterView {
        GutterView {
            bounds: self.bounds,
            state: self.state,
            breakpoints: self.breakpoints@,
            top_line: self.top_line,
            exec_line: self.current_exec_line,
        }
    }
}

/// A new gutter.
pub open spec fn empty_gutter(bounds: Rect) -> GutterView {
    GutterView { bounds, state: 0, breakpoints: Set::empty(), top_line: 0, exec_line: None }
}

/// The lines with breakpoints after the breakpoint on `line` was toggled.
pub open spec fn toggled(points: Set<usize>, line: usize) -> Set<usize> {
    if points.contains(line) {
        points.remove(line)
    } else {
        points.insert(line)
    }
}

/// The first valid line from `line` to `last`.
pub open spec fn next_valid(valid: Set<usize>, line: int, last: int) -> Option<usize>
    decreases last + 1 - line,
{
    if line > last {
        None
    } else if valid.contains(line as usize) {
        Some(line as usize)
    } else {
        next_valid(valid, line + 1, last)
    }
}

/// Where the breakpoint on `line` goes: it stays on a valid line, else it goes to the next valid
/// line up to `last`, else it goes away.
pub open spec fn snapped(valid: Set<usize>, last: usize, line: usize) -> Option<usize> {
    if valid.contains(line) {
        Some(line)
    } else {
        next_valid(valid, line + 1, last as int)
    }
}

/// Where the breakpoints go.
pub open spec fn snapped_all(points: Set<usize>, valid: Set<usize>, last: usize) -> Set<usize> {
    Set::new(|to: usize| exists|line: usize| #[trigger]
        points.contains(line) && snapped(valid, last, line) == Some(to))
}

/// The mark beside a line, where it has one.
pub open spec fn mark_of(g: GutterView, line: int) -> Option<GutterMark> {
    if g.breakpoints.contains(line as usize) {
        Some(GutterMark::Breakpoint)
    } else if g.exec_line == Some(line as usize) {
        Some(GutterMark::Execution)
    } else {
        None
    }
}

/// The number of the line beside a row of the gutter.
pub open spec fn line_at(g: GutterView, row: nat) -> int {
    g.top_line + row + 1
}

/// The numbers of all lines beside the gutter are within the range of `usize`.
pub open spec fn lines_fit(g: GutterView) -> bool {
    g.top_line + g.bounds.rows() <= usize::MAX
}

/// The gutter after a mouse event.
pub open spec fn clicked(g: GutterView, event: MouseEvent) -> GutterView {
    match pressed_row(g.bounds, event) {
        Some(row) => GutterView {
            breakpoints: toggled(g.breakpoints, line_at(g, row) as usize),
            ..g
        },
        None => g,
    }
}

/// One cell of the gutter on the screen.
#[derive(Debug, Clone, Copy, PartialEq, Eq, Structural)]
pub struct GutterCell {
    pub x: u16,
    pub y: u16,
    pub mark: GutterMark,
}

/// The cell of a row of the gutter with a mark.
pub open spec fn cell_at(g: GutterView, row: nat, mark: GutterMark) -> GutterCell {
    GutterCell { x: g.bounds.a.x as u16, y: ((g.bounds.a.y + row) as i16) as u16, mark }
}

/// The cells of the rows with marks among the first `n`, from top to bottom.
pub open spec fn marked_cells(g: GutterView, n: nat) -> Seq<GutterCell>
    decreases n,
{
    if n == 0 {
        seq![]
    } else {
        let above = marked_cells(g, (n - 1) as nat);
        match mark_of(g, line_at(g, (n - 1) as nat)) {
            Some(mark) => above.push(cell_at(g, (n - 1) as nat, mark)),
            None => above,
        }
    }
}

impl BreakpointGutter {
    /// A gutter without breakpoints.
    pub fn new(bounds: Rect) -> (r: BreakpointGutter)
        ensures
            r@ == empty_gutter(bounds),
    {
        let r = BreakpointGutter {
            bounds,
            state: 0,
            breakpoints: HashSet::new(),
            top_line: 0,
            current_exec_line: None,
        };
        assert(r@ =~= empty_gutter(bounds));
        r
    }

    /// Sets the breakpoint on `line`, or takes it away where it is set.
    pub fn toggle_breakpoint(&mut self, line: usize)
        ensures
            final(self)@ == (GutterView {
                breakpoints: toggled(old(self)@.breakpoints, line),
                ..old(self)@
            }),
    {
        if !self.breakpoints.remove(&line) {
            assert(self.breakpoints@ =~= old(self)@.breakpoints);
            self.breakpoints.insert(line);
        }
        assert(self@.breakpoints =~= toggled(old(self)@.breakpoints, line));
    }

    /// Tells whether `line` has a breakpoint.
    pub fn has_breakpoint(&self, line: usize) -> (r: bool)
        ensures
            r == self@.breakpoints.contains(line),
    {
        self.breakpoints.contains(&line)
    }

    /// The lines with breakpoints.
    pub fn breakpoints(&self) -> (r: &HashSet<usize>)
        ensures
            r@ == self@.breakpoints,
    {
        &self.breakpoints
    }

    /// The lines with breakpoints, each once, in no particular order.
    pub fn breakpoint_lines(&self) -> (r: Vec<usize>)
        ensures
            r@.to_set() == self@.breakpoints,
            r@.no_duplicates(),
    {
        list_lines(&self.breakpoints)
    }

    /// Takes all breakpoints away.
    pub fn clear_breakpoints(&mut self)
        ensures
            final(self)@ == (GutterView { breakpoints: Set::empty(), ..old(self)@ }),
    {
        self.breakpoints.clear();
    }

    /// Scrolls: `line` lines are above the gutter.
    pub fn set_top_line(&mut self, line: usize)
        ensures
            final(self)@ == (GutterView { top_line: line, ..old(self)@ }),
    {
        self.top_line = line;
    }

    /// The line at which the program stands.
    pub fn current_exec_line(&self) -> (r: Option<usize>)
        ensures
            r == self@.exec_line,
    {
        self.current_exec_line
    }

    /// Sets the line at which the program stands.
    pub fn set_current_exec_line(&mut self, line: Option<usize>)
        ensures
            final(self)@ == (GutterView { exec_line: line, ..old(self)@ }),
    {
        self.current_exec_line = line;
    }

    /// Snaps every breakpoint to the nearest valid line (searching forward). Breakpoints that
    /// cannot be mapped (past the last valid line) are removed.
    pub fn snap_breakpoints(&mut self, valid: &HashSet<usize>, max_line: usize)
        ensures
            final(self)@ == (GutterView {
                breakpoints: snapped_all(old(self)@.breakpoints, valid@, max_line),
                ..old(self)@
            }),
    {
        let old_lines = list_lines(&self.breakpoints);
        self.breakpoints.clear();
        for i in 0..old_lines.len()
            invariant
                self@ == (GutterView { breakpoints: self@.breakpoints, ..old(self)@ }),
                forall|to: usize| #[trigger]
                    self@.breakpoints.contains(to) <==> exists|k: int|
                        0 <= k < i && snapped(valid@, max_line, #[trigger] old_lines@[k]) == Some(
                            to,
                        ),
        {
            let ghost before = self@.breakpoints;
            match snap_line(valid, max_line, old_lines[i]) {
                Some(to) => {
                    self.breakpoints.insert(to);
                },
                None => {},
            }
            proof {
                let moved = snapped(valid@, max_line, old_lines@[i as int]);
                assert forall|to: usize| #[trigger]
                    self@.breakpoints.contains(to) <==> exists|k: int|
                        0 <= k < i + 1 && snapped(valid@, max_line, #[trigger] old_lines@[k])
                            == Some(to) by {
                    if self@.breakpoints.contains(to) {
                        if before.contains(to) {
                            let k = choose|k: int|
                                0 <= k < i && snapped(valid@, max_line, #[trigger] old_lines@[k])
                                    == Some(to);
                            assert(snapped(valid@, max_line, old_lines@[k]) == Some(to));
                        } else {
                            assert(snapped(valid@, max_line, old_lines@[i as int]) == Some(to));
                        }
                    }
                    if exists|k: int|
                        0 <= k < i + 1 && snapped(valid@, max_line, #[trigger] old_lines@[k])
                            == Some(to) {
                        let k = choose|k: int|
                            0 <= k < i + 1 && snapped(valid@, max_line, #[trigger] old_lines@[k])
                                == Some(to);
                        if k < i {
                            assert(before.contains(to));
                        }
                    }
                }
            }
        }
        proof {
            let was = old(self)@.breakpoints;
            let now = snapped_all(was, valid@, max_line);
            assert forall|to: usize| self@.breakpoints.contains(to) == now.contains(to) by {
                if self@.breakpoints.contains(to) {
                    let k = choose|k: int|
                        0 <= k < old_lines@.len() && snapped(
                            valid@,
                            max_line,
                            #[trigger] old_lines@[k],
                        ) == Some(to);
                    assert(old_lines@.to_set().contains(old_lines@[k]));
                    assert(was.contains(old_lines@[k]));
                }
                if now.contains(to) {
                    let line = choose|line: usize| #[trigger]
                        was.contains(line) && snapped(valid@, max_line, line) == Some(to);
                    assert(old_lines@.to_set().contains(line));
                    let k = choose|k: int| 0 <= k < old_lines@.len() && old_lines@[k] == line;
                    assert(snapped(valid@, max_line, old_lines@[k]) == Some(to));
                }
            }
            assert(self@.breakpoints =~= now);
        }
    }

    /// The rectangle of the gutter.
    pub fn bounds(&self) -> (r: Rect)
        ensures
            r == self@.bounds,
    {
        self.bounds
    }

    /// Moves the gutter.
    pub fn set_bounds(&mut self, bounds: Rect)
        ensures
            final(self)@ == (GutterView { bounds, ..old(self)@ }),
    {
        self.bounds = bounds;
    }

    /// The state flags of the view.
    pub fn state(&self) -> (r: u16)
        ensures
            r == self@.state,
    {
        self.state
    }

    /// Sets the state flags of the view.
    pub fn set_state(&mut self, state: u16)
        ensures
            final(self)@ == (GutterView { state, ..old(self)@ }),
    {
        self.state = state;
    }

    /// Tells whether the numbers of all lines beside the gutter are within the range of `usize`.
    pub fn lines_in_range(&self) -> (r: bool)
        ensures
            r == lines_fit(self@),
    {
        let height: usize = self.bounds.height_clamped();
        height <= usize::MAX - self.top_line
    }

    /// The cells to draw, from top to bottom: those with a mark. The others are left as they are.
    pub fn draw_cells(&self) -> (out: Vec<GutterCell>)
        requires
            lines_fit(self@),
        ensures
            out@ == marked_cells(self@, self@.bounds.rows()),
    {
        let height: usize = self.bounds.height_clamped();
        let x: u16 = self.bounds.a.x as u16;
        let mut out: Vec<GutterCell> = Vec::new();
        for row in 0..height
            invariant
                lines_fit(self@),
                height == self@.bounds.rows(),
                height <= 65535,
                x == self.bounds.a.x as u16,
                out@ == marked_cells(self@, row as nat),
        {
            let line: usize = self.top_line + row + 1;
            let y: i32 = self.bounds.a.y as i32 + row as i32;
            if self.breakpoints.contains(&line) {
                out.push(GutterCell { x, y: (y as i16) as u16, mark: GutterMark::Breakpoint });
            } else if self.current_exec_line == Some(line) {
                out.push(GutterCell { x, y: (y as i16) as u16, mark: GutterMark::Execution });
            }
        }
        out
    }

    /// A press of the left button toggles the breakpoint on the line beside it. Tells whether the
    /// event was used up.
    pub fn handle_event(&mut self, event: &MouseEvent) -> (used: bool)
        requires
            lines_fit(old(self)@),
        ensures
            final(self)@ == clicked(old(self)@, *event),
            used == pressed_row(old(self)@.bounds, *event) is Some,
    {
        match row_pressed(&self.bounds, event) {
            Some(row) => {
                let line: usize = self.top_line + row + 1;
                self.toggle_breakpoint(line);
                true
            },
            None => false,
        }
    }
}

/// The members of the set, each once, in no particular order.
pub(crate) fn list_lines(set: &HashSet<usize>) -> (out: Vec<usize>)
    ensures
        out@.to_set() == set@,
        out@.no_duplicates(),
{
    let mut out: Vec<usize> = Vec::new();
    let items = set.iter();
    let ghost all = vstd::std_specs::iter::IteratorSpec::remaining(&items);
    for x in it: items
        invariant
            it.seq() == all,
            all.unref().to_set() == set@,
            all.no_duplicates(),
            out@.len() == it.index(),
            forall|k: int| 0 <= k < out@.len() ==> out@[k] == *all[k],
    {
        out.push(*x);
    }
    assert(out@ =~= all.unref());
    out
}

/// Where the breakpoint on `line` goes.
fn snap_line(valid: &HashSet<usize>, last: usize, line: usize) -> (r: Option<usize>)
    ensures
        r == snapped(valid@, last, line),
{
    if valid.contains(&line) {
        return Some(line);
    }
    let mut l: usize = line;
    while l < last
        invariant
            line <= l,
            !valid@.contains(line),
            next_valid(valid@, line + 1, last as int) == next_valid(valid@, l + 1, last as int),
        decreases last - l,
    {
        l = l + 1;
        if valid.contains(&l) {
            return Some(l);
        }
    }
    None
}

/// The next valid line is the nearest: it is valid, in range, and no line before it is.
proof fn lemma_next_valid(valid: Set<usize>, line: int, last: int)
    requires
        0 <= line,
        last <= usize::MAX,
    ensures
        match next_valid(valid, line, last) {
            Some(to) => line <= to <= last && valid.contains(to) && forall|l: usize|
                line <= l < to ==> !valid.contains(l),
            None => forall|l: usize| line <= l <= last ==> !valid.contains(l),
        },
    decreases last + 1 - line,
{
    if line <= last && !valid.contains(line as usize) {
        lemma_next_valid(valid, line + 1, last);
    }
}

/// `cell` shows the mark of a row.
pub open spec fn shows_row(g: GutterView, row: nat, cell: GutterCell) -> bool {
    mark_of(g, line_at(g, row)) == Some(cell.mark) && cell == cell_at(g, row, cell.mark)
}

/// The gutter has no background of its own: a cell is drawn where it shows the mark of a row, and
/// nowhere else.
pub proof fn lemma_only_marks_are_drawn(g: GutterView, n: nat, cell: GutterCell)
    ensures
        marked_cells(g, n).contains(cell) <==> exists|row: nat|
            row < n && #[trigger] shows_row(g, row, cell),
    decreases n,
{
    if n > 0 {
        let last = (n - 1) as nat;
        let above = marked_cells(g, last);
        let cells = marked_cells(g, n);
        lemma_only_marks_are_drawn(g, last, cell);
        if cells.contains(cell) {
            let i = choose|i: int| 0 <= i < cells.len() && cells[i] == cell;
            if i < above.len() {
                assert(above[i] == cell);
            } else {
                assert(shows_row(g, last, cell));
            }
        }
        if above.contains(cell) {
            let i = choose|i: int| 0 <= i < above.len() && above[i] == cell;
            assert(cells[i] == cell);
        }
        if shows_row(g, last, cell) {
            assert(cells[cells.len() - 1] == cell);
        }
    }
}

/// Toggling a line twice gives the breakpoints back, and no other line is touched.
pub proof fn lemma_toggle_twice(points: Set<usize>, line: usize)
    ensures
        toggled(toggled(points, line), line) == points,
        toggled(points, line).contains(line) != points.contains(line),
        forall|other: usize|
            other != line ==> toggled(points, line).contains(other) == points.contains(other),
{
    assert(toggled(toggled(points, line), line) =~= points);
}

/// A snapped breakpoint stands on the nearest valid line that is not above it, and one that moves
/// stays within the last line. A breakpoint goes away only where no line from its own to the last
/// is valid.
pub proof fn lemma_snap_to_nearest(valid: Set<usize>, last: usize, line: usize)
    ensures
        match snapped(valid, last, line) {
            Some(to) => line <= to && valid.contains(to) && (valid.contains(line) || to <= last)
                && forall|l: usize| line <= l < to ==> !valid.contains(l),
            None => !valid.contains(line) && forall|l: usize|
                line <= l <= last ==> !valid.contains(l),
        },
{
    if !valid.contains(line) {
        lemma_next_valid(valid, line + 1, last as int);
    }
}

/// After a snap every breakpoint stands on a valid line, those that stood on one stay, and
/// another snap changes nothing.
pub proof fn lemma_snap_once(points: Set<usize>, valid: Set<usize>, last: usize)
    ensures
        snapped_all(points, valid, last).subset_of(valid),
        points.intersect(valid).subset_of(snapped_all(points, valid, last)),
        snapped_all(snapped_all(points, valid, last), valid, last) == snapped_all(
            points,
            valid,
            last,
        ),
{
    let once = snapped_all(points, valid, last);
    assert forall|to: usize| once.contains(to) implies valid.contains(to) by {
        let line = choose|line: usize| #[trigger]
            points.contains(line) && snapped(valid, last, line) == Some(to);
        lemma_snap_to_nearest(valid, last, line);
    }
    assert forall|line: usize| points.contains(line) && valid.contains(line) implies once.contains(
        line,
    ) by {
        assert(snapped(valid, last, line) == Some(line));
    }
    assert forall|to: usize| snapped_all(once, valid, last).contains(to) == once.contains(to) by {
        if once.contains(to) {
            assert(snapped(valid, last, to) == Some(to));
        }
        if snapped_all(once, valid, last).contains(to) {
            let line = choose|line: usize| #[trigger]
                once.contains(line) && snapped(valid, last, line) == Some(to);
            assert(snapped(valid, last, line) == Some(line));
        }
    }
    assert(snapped_all(once, valid, last) =~= once);
}

/// What a row of the gutter shows: it stands in the column of the gutter, as far below its top as
/// the row counts, and marks the line that is as far below the lines scrolled out; a breakpoint
/// hides the mark of the line on which the program stands.
pub proof fn lemma_row_shows_line(g: GutterView, row: nat, cell: GutterCell)
    requires
        lines_fit(g),
        row < g.bounds.rows(),
    ensures
        ({
            let line = (g.top_line + row + 1) as usize;
            shows_row(g, row, cell) <==> {
                &&& cell.x == g.bounds.a.x as u16
                &&& cell.y == ((g.bounds.a.y + row) as i16) as u16
                &&& (cell.mark == GutterMark::Breakpoint) == g.breakpoints.contains(line)
                &&& cell.mark == GutterMark::Execution ==> g.exec_line == Some(line)
            }
        }),
        0 <= g.bounds.a.y && shows_row(g, row, cell) ==> cell.y == g.bounds.a.y + row,
        0 <= g.bounds.a.x && shows_row(g, row, cell) ==> cell.x == g.bounds.a.x,
        GutterMark::Breakpoint.symbol() == '\u{25A0}',
        GutterMark::Execution.symbol() == '\u{25BA}',
{
}

/// A press of the left button in the gutter toggles the breakpoint on the line beside it and changes
/// nothing else; any other event changes nothing at all.
pub proof fn lemma_click_toggles_line(g: GutterView, event: MouseEvent, line: usize)
    requires
        lines_fit(g),
    ensures
        ({
            let inside = g.bounds.a.x <= event.pos.x < g.bounds.b.x && g.bounds.a.y <= event.pos.y
                < g.bounds.b.y;
            let pressed = event.down && event.buttons % 2 == 1 && inside;
            let now = clicked(g, event);
            &&& !pressed ==> now == g
            &&& now.breakpoints.contains(line) != g.breakpoints.contains(line) <==> pressed && line
                == g.top_line + (event.pos.y - g.bounds.a.y) + 1
            &&& now.bounds == g.bounds && now.state == g.state && now.top_line == g.top_line
                && now.exec_line == g.exec_line
        }),
{
    lemma_press_hits_row(g.bounds, event);
}

/// Where the breakpoints go: a line has one after snapping exactly where some breakpoint snaps to
/// it.
pub proof fn lemma_snapped_lines(points: Set<usize>, valid: Set<usize>, last: usize, to: usize)
    ensures
        snapped_all(points, valid, last).contains(to) <==> exists|line: usize| #[trigger]
            points.contains(line) && line <= to && valid.contains(to) && (line == to || (to <= last
                && forall|l: usize| line <= l < to ==> !valid.contains(l))),
{
    if snapped_all(points, valid, last).contains(to) {
        let line = choose|line: usize| #[trigger]
            points.contains(line) && snapped(valid, last, line) == Some(to);
        lemma_snap_to_nearest(valid, last, line);
        if valid.contains(line) && line != to {
            assert(!valid.contains(line));
        }
    }
    if exists|line: usize| #[trigger]
        points.contains(line) && line <= to && valid.contains(to) && (line == to || (to <= last
            && forall|l: usize| line <= l < to ==> !valid.contains(l))) {
        let line = choose|line: usize| #[trigger]
            points.contains(line) && line <= to && valid.contains(to) && (line == to || (to <= last
                && forall|l: usize| line <= l < to ==> !valid.contains(l)));
        lemma_snap_to_nearest(valid, last, line);
        if line != to {
            match snapped(valid, last, line) {
                Some(other) => {
                    if other < to {
                        assert(!valid.contains(other));
                    } else if to < other {
                        assert(!valid.contains(to));
                    }
                },
                None => {
                    assert(!valid.contains(to));
                },
            }
        }
        assert(snapped(valid, last, line) == Some(to));
    }
}

/// A new gutter has no breakpoints, is not scrolled, and the program stands nowhere.
pub proof fn lemma_new_gutter(bounds: Rect)
    ensures
        empty_gutter(bounds).breakpoints == Set::<usize>::empty(),
        empty_gutter(bounds).top_line == 0,
        empty_gutter(bounds).exec_line is None,
        empty_gutter(bounds).bounds == bounds,
        marked_cells(empty_gutter(bounds), bounds.rows()).len() == 0,
{
    lemma_nothing_marked(empty_gutter(bounds), bounds.rows());
}

/// A gutter without breakpoints and without a line to stand on draws nothing.
proof fn lemma_nothing_marked(g: GutterView, n: nat)
    requires
        g.breakpoints == Set::<usize>::empty(),
        g.exec_line is None,
    ensures
        marked_cells(g, n).len() == 0,
    decreases n,
{
    if n > 0 {
        lemma_nothing_marked(g, (n - 1) as nat);
    }
}

} // verus!
