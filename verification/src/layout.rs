//! Where windows and dialogs stand.

use vstd::prelude::*;

use crate::geometry::{coordinate, rect, Point, Rect};

verus! {

/// How many columns the watch window is wide.
pub const WATCH_WIDTH: i16 = 26;

/// Half of `n`, rounded towards zero.
pub open spec fn half(n: int) -> int {
    if n >= 0 {
        n / 2
    } else {
        -((-n) / 2)
    }
}

/// Half of `n`, rounded towards zero.
pub(crate) fn halved(n: i16) -> (r: i16)
    ensures
        r == half(n as int),
        -16384 <= r <= 16383,
{
    let m: i32 = n as i32;
    let h: i32 = if m >= 0 {
        m / 2
    } else {
        -((-m) / 2)
    };
    h as i16
}

/// The smaller of two numbers.
pub open spec fn lesser(a: int, b: int) -> int {
    if a <= b {
        a
    } else {
        b
    }
}

/// A rectangle of `dw` by `dh` cells in the middle of a screen of `tw` by `th` cells.
pub open spec fn centered(tw: int, th: int, dw: int, dh: int) -> Rect {
    let x = half(tw - dw);
    let y = half(th - dh);
    rect(x, y, x + dw, y + dh)
}

/// Where the windows stand on the desktop.
#[derive(Debug, Clone, Copy, PartialEq, Eq, Structural)]
pub struct ScreenLayout {
    pub editor: Rect,
    pub watch: Rect,
    pub output: Rect,
    pub callstack: Rect,
}

/// How many rows the output window is high on a desktop of `rows` rows: a quarter, at least five.
pub open spec fn output_rows(rows: int) -> int {
    if rows / 4 >= 5 {
        rows / 4
    } else {
        5
    }
}

/// The layout on a screen of `w` by `h` cells. The last row is the status line. The output window
/// is at the bottom, the watch window at the right above it, and the editors take the rest; the
/// call-stack window is the lower half of the watch window.
pub open spec fn screen(w: int, h: int) -> ScreenLayout {
    let bottom = h - 1;
    let editor_right = w - WATCH_WIDTH;
    let editor_bottom = bottom - output_rows(bottom);
    ScreenLayout {
        editor: rect(0, 0, editor_right, editor_bottom),
        watch: rect(editor_right, 0, w, editor_bottom),
        output: rect(0, editor_bottom, w, bottom),
        callstack: rect(editor_right, half(editor_bottom), w, editor_bottom),
    }
}

/// The layout on a screen of `w` by `h` cells.
pub fn screen_layout(w: i16, h: i16) -> (r: ScreenLayout)
    requires
        w >= 0,
        h >= 0,
    ensures
        r == screen(w as int, h as int),
{
    let bottom: i16 = h - 1;
    let quarter: i16 = if bottom >= 0 {
        bottom / 4
    } else {
        0
    };
    let output_height: i16 = if quarter >= 5 {
        quarter
    } else {
        5
    };
    let editor_right: i16 = w - WATCH_WIDTH;
    let editor_bottom: i16 = bottom - output_height;
    let callstack_top: i16 = halved(editor_bottom);
    ScreenLayout {
        editor: Rect::new(0, 0, editor_right, editor_bottom),
        watch: Rect::new(editor_right, 0, w, editor_bottom),
        output: Rect::new(0, editor_bottom, w, bottom),
        callstack: Rect::new(editor_right, callstack_top, w, editor_bottom),
    }
}

/// The inside of a window, from its own top left corner: all but the frame.
pub open spec fn inside(bounds: Rect) -> Rect {
    rect(0, 0, bounds.wide() - 2, bounds.high() - 2)
}

/// The frame of a window can be taken off its sizes.
pub open spec fn framed(bounds: Rect) -> bool {
    bounds.sized() && coordinate(bounds.wide() - 2) && coordinate(bounds.high() - 2)
}

/// The inside of a window.
pub fn interior(bounds: &Rect) -> (r: Rect)
    requires
        framed(*bounds),
    ensures
        r == inside(*bounds),
{
    Rect::new(0, 0, bounds.width() - 2, bounds.height() - 2)
}

/// Where the vertical scroll bar stands on the right frame of a window, where there is room.
pub open spec fn right_bar(bounds: Rect) -> Option<Rect> {
    if bounds.wide() >= 3 && bounds.high() >= 4 {
        Some(rect(bounds.b.x - 1, bounds.a.y + 1, bounds.b.x as int, bounds.b.y - 2))
    } else {
        None
    }
}

/// Where the vertical scroll bar stands on the right frame of a window, where there is room.
pub fn vertical_bar(bounds: &Rect) -> (r: Option<Rect>)
    requires
        bounds.sized(),
    ensures
        r == right_bar(*bounds),
{
    if bounds.width() >= 3 && bounds.height() >= 4 {
        Some(Rect::new(bounds.b.x - 1, bounds.a.y + 1, bounds.b.x, bounds.b.y - 2))
    } else {
        None
    }
}

/// Where a file dialog stands on a screen of `tw` by `th` cells: in the middle, up to 64 by 18
/// cells, and two cells from each edge.
pub open spec fn file_dialog(tw: int, th: int) -> Rect {
    centered(tw, th, lesser(64, tw - 4), lesser(18, th - 4))
}

/// Where a file dialog stands.
pub fn centered_dialog_bounds(tw: i16, th: i16) -> (r: Rect)
    requires
        tw >= 0,
        th >= 0,
    ensures
        r == file_dialog(tw as int, th as int),
{
    let dw: i16 = if 64 <= tw - 4 {
        64
    } else {
        tw - 4
    };
    let dh: i16 = if 18 <= th - 4 {
        18
    } else {
        th - 4
    };
    let x: i16 = halved(tw - dw);
    let y: i16 = halved(th - dh);
    Rect::new(x, y, x + dw, y + dh)
}

/// Where the build dialog and its parts stand: the dialog on the screen, its parts inside it.
#[derive(Debug, Clone, Copy, PartialEq, Eq, Structural)]
pub struct BuildLayout {
    pub bounds: Rect,
    pub text: Rect,
    pub cancel: Rect,
}

/// The build dialog on a screen of `tw` by `th` cells: in the middle, up to 50 by 7 cells, with a
/// button of twelve columns in its middle.
pub open spec fn build_dialog(tw: int, th: int) -> BuildLayout {
    let dw = lesser(50, tw - 4);
    let x = half(dw - 12);
    BuildLayout {
        bounds: centered(tw, th, dw, 7),
        text: rect(2, 2, dw - 2, 3),
        cancel: rect(x, 3, x + 12, 5),
    }
}

/// Where the build dialog stands.
pub fn build_layout(tw: i16, th: i16) -> (r: BuildLayout)
    requires
        tw >= 0,
        th >= 0,
    ensures
        r == build_dialog(tw as int, th as int),
{
    let dw: i16 = if 50 <= tw - 4 {
        50
    } else {
        tw - 4
    };
    let x: i16 = halved(tw - dw);
    let y: i16 = halved(th - 7);
    let cancel_x: i16 = halved(dw - 12);
    BuildLayout {
        bounds: Rect::new(x, y, x + dw, y + 7),
        text: Rect::new(2, 2, dw - 2, 3),
        cancel: Rect::new(cancel_x, 3, cancel_x + 12, 5),
    }
}

/// Where the dialog that sets a value and its parts stand: the dialog on the screen, its parts
/// inside it.
#[derive(Debug, Clone, Copy, PartialEq, Eq, Structural)]
pub struct SetValueLayout {
    pub bounds: Rect,
    pub label: Rect,
    pub input: Rect,
    pub ok: Rect,
    pub cancel: Rect,
}

/// The dialog that sets a value on a screen of `tw` by `th` cells: in the middle, up to 50 by 9
/// cells.
pub open spec fn set_value_dialog(tw: int, th: int) -> SetValueLayout {
    let dw = lesser(50, tw - 4);
    SetValueLayout {
        bounds: centered(tw, th, dw, 9),
        label: rect(2, 2, 12, 3),
        input: rect(12, 2, dw - 4, 3),
        ok: rect(dw - 24, 5, dw - 14, 7),
        cancel: rect(dw - 12, 5, dw - 2, 7),
    }
}

/// Where the dialog that sets a value stands.
pub fn set_value_layout(tw: i16, th: i16) -> (r: SetValueLayout)
    requires
        tw >= 0,
        th >= 0,
    ensures
        r == set_value_dialog(tw as int, th as int),
{
    let dw: i16 = if 50 <= tw - 4 {
        50
    } else {
        tw - 4
    };
    let x: i16 = halved(tw - dw);
    let y: i16 = halved(th - 9);
    SetValueLayout {
        bounds: Rect::new(x, y, x + dw, y + 9),
        label: Rect::new(2, 2, 12, 3),
        input: Rect::new(12, 2, dw - 4, 3),
        ok: Rect::new(dw - 24, 5, dw - 14, 7),
        cancel: Rect::new(dw - 12, 5, dw - 2, 7),
    }
}

/// On a screen with room for it, each cell above the status line is in exactly one of the editor
/// area, the watch window and the output window, and the call-stack window is part of the watch
/// window.
pub proof fn lemma_windows_tile(w: i16, h: i16, p: Point)
    requires
        w >= WATCH_WIDTH,
        h >= 6,
    ensures
        ({
            let s = screen(w as int, h as int);
            let on_desktop = 0 <= p.x < w && 0 <= p.y < h - 1;
            &&& on_desktop == (s.editor.covers(p) || s.watch.covers(p) || s.output.covers(p))
            &&& !(s.editor.covers(p) && s.watch.covers(p))
            &&& !(s.editor.covers(p) && s.output.covers(p))
            &&& !(s.watch.covers(p) && s.output.covers(p))
            &&& s.callstack.covers(p) ==> s.watch.covers(p)
        }),
{
}

/// A file dialog is inside a screen with room for one.
pub proof fn lemma_file_dialog_fits(tw: i16, th: i16, p: Point)
    requires
        tw >= 4,
        th >= 4,
        file_dialog(tw as int, th as int).covers(p),
    ensures
        0 <= p.x < tw,
        0 <= p.y < th,
{
}

/// The sizes of the windows: the watch window is 26 columns wide, the output window has a quarter of
/// the rows above the status line and at least five, and the call-stack window the lower half of
/// the watch window.
pub proof fn lemma_window_sizes(w: i16, h: i16)
    requires
        w >= 26,
        h >= 6,
    ensures
        ({
            let s = screen(w as int, h as int);
            &&& s.watch.b.x == w && s.watch.b.x - s.watch.a.x == 26
            &&& s.output.b.y == h - 1 && s.output.a.x == 0 && s.output.b.x == w
            &&& h >= 21 ==> s.output.b.y - s.output.a.y == (h - 1) / 4
            &&& h < 21 ==> s.output.b.y - s.output.a.y == 5
            &&& s.editor.a.x == 0 && s.editor.a.y == 0 && s.editor.b.x == s.watch.a.x
            &&& s.editor.b.y == s.output.a.y && s.watch.b.y == s.output.a.y && s.watch.a.y == 0
            &&& s.callstack.a.x == s.watch.a.x && s.callstack.b == s.watch.b
            &&& s.callstack.a.y == s.watch.b.y / 2
        }),
{
}

/// A dialog stands in the middle: the space left of it and right of it differ by one column at
/// most, and so do the rows above and below it.
pub proof fn lemma_dialogs_centered(tw: i16, th: i16)
    requires
        tw >= 4,
        th >= 4,
    ensures
        ({
            let d = file_dialog(tw as int, th as int);
            &&& d.b.x - d.a.x == if tw >= 68 {
                64
            } else {
                tw - 4
            }
            &&& d.b.y - d.a.y == if th >= 22 {
                18
            } else {
                th - 4
            }
            &&& 0 <= (tw - d.b.x) - d.a.x <= 1
            &&& 0 <= (th - d.b.y) - d.a.y <= 1
        }),
        ({
            let d = build_dialog(tw as int, th as int).bounds;
            &&& d.b.x - d.a.x == if tw >= 54 {
                50
            } else {
                tw - 4
            }
            &&& d.b.y - d.a.y == 7
            &&& 0 <= (tw - d.b.x) - d.a.x <= 1
            &&& -1 <= (th - d.b.y) - d.a.y <= 1
        }),
        ({
            let d = set_value_dialog(tw as int, th as int).bounds;
            &&& d.b.x - d.a.x == if tw >= 54 {
                50
            } else {
                tw - 4
            }
            &&& d.b.y - d.a.y == 9
            &&& 0 <= (tw - d.b.x) - d.a.x <= 1
            &&& -1 <= (th - d.b.y) - d.a.y <= 1
        }),
{
}

/// The parts of a dialog stand inside its frame, side by side: the input behind its label, the two
/// buttons in a row below, and the button of a build in the middle below its text.
pub proof fn lemma_dialog_parts(tw: i16, th: i16, p: Point)
    requires
        tw >= 30,
        th >= 0,
    ensures
        ({
            let d = set_value_dialog(tw as int, th as int);
            let wide = d.bounds.b.x - d.bounds.a.x;
            let within = 1 <= p.x < wide - 1 && 1 <= p.y < 8;
            &&& d.label.covers(p) || d.input.covers(p) || d.ok.covers(p) || d.cancel.covers(p)
                ==> within
            &&& d.label.covers(p) <==> 2 <= p.x < 12 && p.y == 2
            &&& d.input.covers(p) <==> 12 <= p.x < wide - 4 && p.y == 2
            &&& d.ok.covers(p) <==> wide - 24 <= p.x < wide - 14 && 5 <= p.y < 7
            &&& d.cancel.covers(p) <==> wide - 12 <= p.x < wide - 2 && 5 <= p.y < 7
        }),
        ({
            let d = build_dialog(tw as int, th as int);
            let wide = d.bounds.b.x - d.bounds.a.x;
            &&& d.text.covers(p) <==> 2 <= p.x < wide - 2 && p.y == 2
            &&& d.cancel.b.x - d.cancel.a.x == 12 && d.cancel.a.y == 3 && d.cancel.b.y == 5
            &&& 0 <= (wide - d.cancel.b.x) - d.cancel.a.x <= 1
        }),
{
}

/// The inside of a window is two columns and two rows smaller; the scroll bar on its right side
/// leaves the corners of the frame and one row above the lower one.
pub proof fn lemma_window_parts(bounds: Rect, p: Point)
    requires
        framed(bounds),
    ensures
        inside(bounds).a.x == 0 && inside(bounds).a.y == 0,
        inside(bounds).b.x == bounds.b.x - bounds.a.x - 2,
        inside(bounds).b.y == bounds.b.y - bounds.a.y - 2,
        right_bar(bounds) is Some <==> bounds.b.x - bounds.a.x >= 3 && bounds.b.y - bounds.a.y >= 4,
        right_bar(bounds) is Some ==> (right_bar(bounds)->0.covers(p) <==> p.x == bounds.b.x - 1
            && bounds.a.y + 1 <= p.y < bounds.b.y - 2),
{
}

} // verus!
