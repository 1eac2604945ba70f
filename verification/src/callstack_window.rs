//! Call-stack window: shows the frames of a backtrace during debugging.

use vstd::prelude::*;

use crate::debugger::frame_texts;
use crate::draw::{
    blank_line, byte_len, cells, fill_line, lemma_printable_bytes, new_line, overlaid, printable, with_text, write_text,
    PanelRow, HIGHLIGHT_INDEX_ATTR, HIGHLIGHT_TEXT_ATTR, TEXT_ATTR, VALUE_ATTR,
};
use crate::geometry::{lemma_press_hits_row, pressed_row, row_pressed, MouseEvent, Rect};
use crate::number::{decimal, digit_char, push_decimal};

verus! {

/// The panel inside the call-stack window: one frame in each row.
pub struct CallStackPanel {
    bounds: Rect,
    state: u16,
    frames: Vec<(usize, String)>,
    current_idx: Option<usize>,
    pending_jump: Option<usize>,
}

/// The panel, over plain values. A frame is its index and its text.
#[verifier::ext_equal]
pub struct CallStackView {
    pub bounds: Rect,
    pub state: u16,
    pub frames: Seq<(usize, Seq<char>)>,
    /// The index (not the row) of the frame to highlight.
    pub current_idx: Option<usize>,
    /// The row that was clicked last, until it is taken.
    pub pending_jump: Option<usize>,
}

impl View for CallStackPanel {
    type V = CallStackView;

    closed spec fn view(&self) -> CallStackView {
        CallStackView {
            bounds: self.bounds,
            state: self.state,
            frames: frame_texts(self.frames@),
            current_idx: self.current_idx,
            pending_jump: self.pending_jump,
        }
    }
}

/// The row that a mouse event asks to jump to.
pub open spec fn frame_clicked(c: CallStackView, event: MouseEvent) -> Option<usize> {
    match pressed_row(c.bounds, event) {
        Some(row) => if row < c.frames.len() {
            Some(row as usize)
        } else {
            None
        },
        None => None,
    }
}

/// What stands before the text of a frame: `#` and its index.
pub open spec fn frame_label(idx: usize) -> Seq<char> {
    seq!['#'] + decimal(idx as nat) + seq![' ']
}

/// The colours of a row: of the text and the blanks, and of the index.
pub open spec fn frame_colours(c: CallStackView, row: int) -> (u8, u8) {
    if row < c.frames.len() && c.current_idx == Some(c.frames[row].0) {
        (HIGHLIGHT_TEXT_ATTR, HIGHLIGHT_INDEX_ATTR)
    } else {
        (TEXT_ATTR, VALUE_ATTR)
    }
}

/// The cells of a row: the index of the frame and its text, on blanks.
pub open spec fn frame_cells(c: CallStackView, row: int) -> Seq<(char, u8)> {
    let (text_attr, index_attr) = frame_colours(c, row);
    let blank = blank_line(c.bounds.columns(), text_attr);
    if row < c.frames.len() {
        let label = frame_label(c.frames[row].0);
        with_text(
            with_text(blank, 0, label, index_attr),
            byte_len(label),
            c.frames[row].1,
            text_attr,
        )
    } else {
        blank
    }
}

/// The cells of a row whose frame is written in printable ASCII.
pub open spec fn frame_plain_cells(c: CallStackView, row: int) -> Seq<(char, u8)> {
    let (text_attr, index_attr) = frame_colours(c, row);
    let blank = blank_line(c.bounds.columns(), text_attr);
    let label = frame_label(c.frames[row].0);
    overlaid(
        overlaid(blank, 0, label, index_attr),
        byte_len(label) as int,
        c.frames[row].1,
        text_attr,
    )
}

/// The cells are those of a row of the panel.
pub open spec fn shows_frame(c: CallStackView, row: int, line: Seq<(char, u8)>) -> bool {
    &&& line == frame_cells(c, row)
    &&& row < c.frames.len() && printable(c.frames[row].1) ==> line == frame_plain_cells(c, row)
}

/// A number in decimal is printable ASCII.
proof fn lemma_decimal_printable(n: nat)
    ensures
        printable(decimal(n)),
    decreases n,
{
    if n >= 10 {
        lemma_decimal_printable(n / 10);
        assert(' ' <= digit_char(n % 10) <= '~');
    }
}

impl CallStackPanel {
    /// A panel without frames.
    pub fn new(bounds: Rect) -> (r: CallStackPanel)
        ensures
            r@ == (CallStackView {
                bounds,
                state: 0,
                frames: Seq::empty(),
                current_idx: None,
                pending_jump: None,
            }),
    {
        CallStackPanel {
            bounds,
            state: 0,
            frames: Vec::new(),
            current_idx: None,
            pending_jump: None,
        }
    }

    /// Shows `frames`.
    pub fn set_frames(&mut self, frames: Vec<(usize, String)>)
        ensures
            final(self)@ == (CallStackView { frames: frame_texts(frames@), ..old(self)@ }),
    {
        self.frames = frames;
    }

    /// Highlights the frame with this index.
    pub fn set_current_idx(&mut self, idx: Option<usize>)
        ensures
            final(self)@ == (CallStackView { current_idx: idx, ..old(self)@ }),
    {
        self.current_idx = idx;
    }

    /// Shows no frame.
    pub fn clear(&mut self)
        ensures
            final(self)@ == (CallStackView {
                frames: Seq::empty(),
                current_idx: None,
                ..old(self)@
            }),
    {
        self.frames.clear();
        self.current_idx = None;
    }

    /// The frame shown on `row`.
    pub fn frame_at(&self, row: usize) -> (r: Option<&(usize, String)>)
        ensures
            match r {
                Some(f) => row < self@.frames.len() && (f.0, f.1@) == self@.frames[row as int],
                None => row >= self@.frames.len(),
            },
    {
        if row < self.frames.len() {
            Some(&self.frames[row])
        } else {
            None
        }
    }

    /// Takes the row that was clicked last.
    pub fn take_pending_jump(&mut self) -> (r: Option<usize>)
        ensures
            r == old(self)@.pending_jump,
            final(self)@ == (CallStackView { pending_jump: None, ..old(self)@ }),
    {
        let r = self.pending_jump;
        self.pending_jump = None;
        r
    }

    /// The rectangle of the panel.
    pub fn bounds(&self) -> (r: Rect)
        ensures
            r == self@.bounds,
    {
        self.bounds
    }

    /// Moves the panel.
    pub fn set_bounds(&mut self, bounds: Rect)
        ensures
            final(self)@ == (CallStackView { bounds, ..old(self)@ }),
    {
        self.bounds = bounds;
    }

    /// The state flags of the view.
    pub fn state(&self) -> (r: u16)
        ensures
            r == self@.state,
    {
        self.state
    }

    /// Sets the state flags of the view.
    pub fn set_state(&mut self, state: u16)
        ensures
            final(self)@ == (CallStackView { state, ..old(self)@ }),
    {
        self.state = state;
    }

    /// The lines to draw, from top to bottom.
    pub fn draw_rows(&self) -> (out: Vec<PanelRow>)
        ensures
            out@.len() == self@.bounds.rows(),
            forall|row: int|
                0 <= row < out@.len() ==> {
                    &&& (#[trigger] out@[row]).x == self@.bounds.a.x
                    &&& out@[row].y == self@.bounds.a.y + row
                    &&& shows_frame(self@, row, cells(out@[row].line))
                },
    {
        let width: usize = self.bounds.width_clamped();
        let height: usize = self.bounds.height_clamped();
        let mut out: Vec<PanelRow> = Vec::new();
        for row in 0..height
            invariant
                width == self@.bounds.columns(),
                width <= 65535,
                height == self@.bounds.rows(),
                height <= 65535,
                out@.len() == row,
                forall|k: int|
                    0 <= k < row ==> {
                        &&& (#[trigger] out@[k]).x == self@.bounds.a.x
                        &&& out@[k].y == self@.bounds.a.y + k
                        &&& shows_frame(self@, k, cells(out@[k].line))
                    },
        {
            let mut line = new_line(width);
            if row < self.frames.len() {
                let idx: usize = self.frames[row].0;
                let highlighted = self.current_idx == Some(idx);
                let text_attr: u8 = if highlighted {
                    HIGHLIGHT_TEXT_ATTR
                } else {
                    TEXT_ATTR
                };
                let index_attr: u8 = if highlighted {
                    HIGHLIGHT_INDEX_ATTR
                } else {
                    VALUE_ATTR
                };
                let mut label: String = String::new();
                label.push('#');
                push_decimal(&mut label, idx as u64);
                label.push(' ');
                proof {
                    lemma_decimal_printable(idx as nat);
                    assert(label@ =~= frame_label(idx));
                    assert(printable(label@));
                }
                fill_line(&mut line, 0, ' ', text_attr, width);
                write_text(&mut line, 0, label.as_str(), index_attr);
                let n: usize = label.as_str().len();
                write_text(&mut line, n, self.frames[row].1.as_str(), text_attr);
            } else {
                fill_line(&mut line, 0, ' ', TEXT_ATTR, width);
            }
            let y: i32 = self.bounds.a.y as i32 + row as i32;
            out.push(PanelRow { x: self.bounds.a.x, y: y as i16, line });
        }
        out
    }

    /// A press of the left button on a frame asks for a jump to it. Tells whether the event was
    /// used up.
    pub fn handle_event(&mut self, event: &MouseEvent) -> (used: bool)
        ensures
            match frame_clicked(old(self)@, *event) {
                Some(row) => used && final(self)@ == (CallStackView {
                    pending_jump: Some(row),
                    ..old(self)@
                }),
                None => !used && final(self)@ == old(self)@,
            },
    {
        match row_pressed(&self.bounds, event) {
            Some(row) => {
                if row < self.frames.len() {
                    self.pending_jump = Some(row);
                    true
                } else {
                    false
                }
            },
            None => false,
        }
    }
}

/// A row of the call stack reads `#`, the index of the frame and its text: the index in its own
/// colour, the rest in the colour of text, and both highlighted exactly on the row of the current
/// frame. Rows without a frame are blank.
pub proof fn lemma_row_reads_frame(c: CallStackView, row: int, i: int)
    requires
        0 <= row,
        0 <= i < c.bounds.columns(),
        row < c.frames.len() ==> printable(c.frames[row].1),
    ensures
        row < c.frames.len() ==> ({
            let (index, text) = c.frames[row];
            let current = c.current_idx == Some(index);
            let label = seq!['#'] + decimal(index as nat) + seq![' '];
            let n = label.len();
            let plain = if current {
                0x20u8
            } else {
                0x70u8
            };
            let marked = if current {
                0x21u8
            } else {
                0x71u8
            };
            label.len() <= usize::MAX ==> frame_plain_cells(c, row)[i] == if i < n {
                (label[i], marked)
            } else if i < n + text.len() {
                (text[i - n], plain)
            } else {
                (' ', plain)
            }
        }),
        row >= c.frames.len() ==> frame_cells(c, row)[i] == (' ', 0x70u8),
{
    if row < c.frames.len() {
        let index = c.frames[row].0;
        let label = frame_label(index);
        lemma_decimal_printable(index as nat);
        assert forall|k: int| 0 <= k < label.len() implies ' ' <= #[trigger] label[k] <= '~' by {
            let d = decimal(index as nat);
            if 1 <= k < 1 + d.len() {
                assert(label[k] == d[k - 1]);
            }
        }
        if label.len() <= usize::MAX {
            lemma_printable_bytes(label);
        }
    }
}

/// A press of the left button on a row with a frame asks for a jump to that row, and nothing else
/// does.
pub proof fn lemma_click_jumps(c: CallStackView, event: MouseEvent)
    ensures
        ({
            let inside = c.bounds.a.x <= event.pos.x < c.bounds.b.x && c.bounds.a.y <= event.pos.y
                < c.bounds.b.y;
            let row = event.pos.y - c.bounds.a.y;
            frame_clicked(c, event) == if event.down && event.buttons % 2 == 1 && inside && row
                < c.frames.len() {
                Some(row as usize)
            } else {
                None
            }
        }),
{
    lemma_press_hits_row(c.bounds, event);
}

} // verus!
