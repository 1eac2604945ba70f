//! Watch window: shows the names and values of variables during debugging.

use vstd::prelude::*;

use crate::debugger::var_texts;
use crate::draw::{
    add_capped, blank_line, byte_len, capped_sum, cells, fill_line, lemma_printable_bytes, new_line,
    overlaid, printable, with_text, write_text, PanelRow, TEXT_ATTR, VALUE_ATTR,
};
use crate::geometry::{lemma_press_hits_row, pressed_row, row_pressed, MouseEvent, Rect};
use crate::variable::VarType;

verus! {

/// The panel inside the watch window: one variable in each row.
pub struct WatchPanel {
    bounds: Rect,
    state: u16,
    variables: Vec<(String, String, VarType)>,
    pending_edit: Option<usize>,
}

/// The panel, over plain values. A variable is its name, its value and its type.
#[verifier::ext_equal]
pub struct WatchView {
    pub bounds: Rect,
    pub state: u16,
    pub variables: Seq<(Seq<char>, Seq<char>, VarType)>,
    /// The row that was double-clicked last, until it is taken.
    pub pending_edit: Option<usize>,
}

impl View for WatchPanel {
    type V = WatchView;

    closed spec fn view(&self) -> WatchView {
        WatchView {
            bounds: self.bounds,
            state: self.state,
            variables: var_texts(self.variables@),
            pending_edit: self.pending_edit,
        }
    }
}

/// The panel after a mouse event: a double click on a variable asks for its value to be edited.
pub open spec fn watch_clicked(w: WatchView, event: MouseEvent) -> WatchView {
    match pressed_row(w.bounds, event) {
        Some(row) => if event.double_click && row < w.variables.len() {
            WatchView { pending_edit: Some(row as usize), ..w }
        } else {
            w
        },
        None => w,
    }
}

/// The cells of a row: the variable as `name = value`, on blanks.
pub open spec fn watch_cells(w: WatchView, row: int) -> Seq<(char, u8)> {
    let blank = blank_line(w.bounds.columns(), TEXT_ATTR);
    if row < w.variables.len() {
        let (name, value, ty) = w.variables[row];
        let n = byte_len(name);
        with_text(
            with_text(with_text(blank, 0, name, TEXT_ATTR), n, " = "@, TEXT_ATTR),
            capped_sum(n, 3),
            value,
            VALUE_ATTR,
        )
    } else {
        blank
    }
}

/// The cells of a row whose variable is written in printable ASCII.
pub open spec fn watch_plain_cells(w: WatchView, row: int) -> Seq<(char, u8)> {
    let blank = blank_line(w.bounds.columns(), TEXT_ATTR);
    let (name, value, ty) = w.variables[row];
    let n = byte_len(name);
    overlaid(
        overlaid(overlaid(blank, 0, name, TEXT_ATTR), n as int, " = "@, TEXT_ATTR),
        capped_sum(n, 3) as int,
        value,
        VALUE_ATTR,
    )
}

/// The cells are those of a row of the panel.
pub open spec fn shows_variable(w: WatchView, row: int, line: Seq<(char, u8)>) -> bool {
    &&& line == watch_cells(w, row)
    &&& row < w.variables.len() && printable(w.variables[row].0) && printable(w.variables[row].1)
        ==> line == watch_plain_cells(w, row)
}

impl WatchPanel {
    /// A panel without variables.
    pub fn new(bounds: Rect) -> (r: WatchPanel)
        ensures
            r@ == (WatchView { bounds, state: 0, variables: Seq::empty(), pending_edit: None }),
    {
        WatchPanel { bounds, state: 0, variables: Vec::new(), pending_edit: None }
    }

    /// Shows `vars`.
    pub fn set_variables(&mut self, vars: Vec<(String, String, VarType)>)
        ensures
            final(self)@ == (WatchView { variables: var_texts(vars@), ..old(self)@ }),
    {
        self.variables = vars;
    }

    /// Shows no variable.
    pub fn clear(&mut self)
        ensures
            final(self)@ == (WatchView { variables: Seq::empty(), ..old(self)@ }),
    {
        self.variables.clear();
    }

    /// The variable shown on `row`.
    pub fn variable_at(&self, row: usize) -> (r: Option<&(String, String, VarType)>)
        ensures
            match r {
                Some(v) => row < self@.variables.len() && (v.0@, v.1@, v.2)
                    == self@.variables[row as int],
                None => row >= self@.variables.len(),
            },
    {
        if row < self.variables.len() {
            Some(&self.variables[row])
        } else {
            None
        }
    }

    /// Takes the row that was double-clicked last.
    pub fn take_pending_edit(&mut self) -> (r: Option<usize>)
        ensures
            r == old(self)@.pending_edit,
            final(self)@ == (WatchView { pending_edit: None, ..old(self)@ }),
    {
        let r = self.pending_edit;
        self.pending_edit = None;
        r
    }

    /// The rectangle of the panel.
    pub fn bounds(&self) -> (r: Rect)
        ensures
            r == self@.bounds,
    {
        self.bounds
    }

    /// Moves the panel.
    pub fn set_bounds(&mut self, bounds: Rect)
        ensures
            final(self)@ == (WatchView { bounds, ..old(self)@ }),
    {
        self.bounds = bounds;
    }

    /// The state flags of the view.
    pub fn state(&self) -> (r: u16)
        ensures
            r == self@.state,
    {
        self.state
    }

    /// Sets the state flags of the view.
    pub fn set_state(&mut self, state: u16)
        ensures
            final(self)@ == (WatchView { state, ..old(self)@ }),
    {
        self.state = state;
    }

    /// The lines to draw, from top to bottom.
    pub fn draw_rows(&self) -> (out: Vec<PanelRow>)
        ensures
            out@.len() == self@.bounds.rows(),
            forall|row: int|
                0 <= row < out@.len() ==> {
                    &&& (#[trigger] out@[row]).x == self@.bounds.a.x
                    &&& out@[row].y == self@.bounds.a.y + row
                    &&& shows_variable(self@, row, cells(out@[row].line))
                },
    {
        let width: usize = self.bounds.width_clamped();
        let height: usize = self.bounds.height_clamped();
        let mut out: Vec<PanelRow> = Vec::new();
        for row in 0..height
            invariant
                width == self@.bounds.columns(),
                width <= 65535,
                height == self@.bounds.rows(),
                height <= 65535,
                out@.len() == row,
                forall|k: int|
                    0 <= k < row ==> {
                        &&& (#[trigger] out@[k]).x == self@.bounds.a.x
                        &&& out@[k].y == self@.bounds.a.y + k
                        &&& shows_variable(self@, k, cells(out@[k].line))
                    },
        {
            proof {
                reveal_strlit(" = ");
            }
            let mut line = new_line(width);
            fill_line(&mut line, 0, ' ', TEXT_ATTR, width);
            if row < self.variables.len() {
                let name = self.variables[row].0.as_str();
                let value = self.variables[row].1.as_str();
                let n: usize = name.len();
                write_text(&mut line, 0, name, TEXT_ATTR);
                write_text(&mut line, n, " = ", TEXT_ATTR);
                write_text(&mut line, add_capped(n, 3), value, VALUE_ATTR);
            }
            let y: i32 = self.bounds.a.y as i32 + row as i32;
            out.push(PanelRow { x: self.bounds.a.x, y: y as i16, line });
        }
        out
    }

    /// A double click of the left button on a variable asks for its value to be edited. Tells
    /// whether the event was used up.
    pub fn handle_event(&mut self, event: &MouseEvent) -> (used: bool)
        ensures
            final(self)@ == watch_clicked(old(self)@, *event),
            used == (event.double_click && match pressed_row(old(self)@.bounds, *event) {
                Some(row) => row < old(self)@.variables.len(),
                None => false,
            }),
    {
        if !event.double_click {
            return false;
        }
        match row_pressed(&self.bounds, event) {
            Some(row) => {
                if row < self.variables.len() {
                    self.pending_edit = Some(row);
                    true
                } else {
                    false
                }
            },
            None => false,
        }
    }
}

/// A row of the watch window reads `name = value`: the value in its own colour, the rest in the
/// colour of text, blanks behind it, and what does not fit left out. Rows without a variable are
/// blank.
pub proof fn lemma_row_reads_variable(w: WatchView, row: int, i: int)
    requires
        0 <= row,
        0 <= i < w.bounds.columns(),
        row < w.variables.len() ==> printable(w.variables[row].0) && printable(w.variables[row].1)
            && w.variables[row].0.len() + 3 <= usize::MAX,
    ensures
        row < w.variables.len() ==> ({
            let name = w.variables[row].0;
            let value = w.variables[row].1;
            let n = name.len();
            watch_plain_cells(w, row)[i] == if i < n {
                (name[i], 0x70u8)
            } else if i < n + 3 {
                (seq![' ', '=', ' '][i - n], 0x70u8)
            } else if i < n + 3 + value.len() {
                (value[i - n - 3], 0x71u8)
            } else {
                (' ', 0x70u8)
            }
        }),
        row >= w.variables.len() ==> watch_cells(w, row)[i] == (' ', 0x70u8),
{
    reveal_strlit(" = ");
    if row < w.variables.len() {
        lemma_printable_bytes(w.variables[row].0);
        assert(" = "@ =~= seq![' ', '=', ' ']);
    }
}

/// A double click of the left button on a row with a variable asks for that row to be edited, and
/// nothing else changes the panel.
pub proof fn lemma_double_click_edits(w: WatchView, event: MouseEvent)
    ensures
        ({
            let inside = w.bounds.a.x <= event.pos.x < w.bounds.b.x && w.bounds.a.y <= event.pos.y
                < w.bounds.b.y;
            let row = event.pos.y - w.bounds.a.y;
            let asked = event.down && event.buttons % 2 == 1 && event.double_click && inside && row
                < w.variables.len();
            &&& asked ==> watch_clicked(w, event) == (WatchView {
                pending_edit: Some(row as usize),
                ..w
            })
            &&& !asked ==> watch_clicked(w, event) == w
        }),
{
    lemma_press_hits_row(w.bounds, event);
}

} // verus!
