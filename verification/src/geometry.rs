//! Screen coordinates.

use vstd::prelude::*;

verus! {

/// The left button in a set of mouse buttons.
pub const MB_LEFT_BUTTON: u8 = 1;

/// A cell of the screen.
#[derive(Debug, Clone, Copy, PartialEq, Eq, Structural)]
pub struct Point {
    pub x: i16,
    pub y: i16,
}

/// A rectangle of cells: `a` is its top left cell, `b` the cell below and right of its last one.
#[derive(Debug, Clone, Copy, PartialEq, Eq, Structural)]
pub struct Rect {
    pub a: Point,
    pub b: Point,
}

/// The rectangle between two corners.
pub open spec fn rect(x1: int, y1: int, x2: int, y2: int) -> Rect {
    Rect { a: Point { x: x1 as i16, y: y1 as i16 }, b: Point { x: x2 as i16, y: y2 as i16 } }
}

/// `n` is a coordinate.
pub open spec fn coordinate(n: int) -> bool {
    i16::MIN <= n <= i16::MAX
}

impl Rect {
    /// How many columns wide: negative where the corners are swapped.
    pub open spec fn wide(self) -> int {
        self.b.x - self.a.x
    }

    /// How many rows high: negative where the corners are swapped.
    pub open spec fn high(self) -> int {
        self.b.y - self.a.y
    }

    /// Both sizes are coordinates.
    pub open spec fn sized(self) -> bool {
        coordinate(self.wide()) && coordinate(self.high())
    }

    /// The number of columns, not less than zero.
    pub open spec fn columns(self) -> nat {
        if self.wide() < 0 {
            0
        } else {
            self.wide() as nat
        }
    }

    /// The number of rows, not less than zero.
    pub open spec fn rows(self) -> nat {
        if self.high() < 0 {
            0
        } else {
            self.high() as nat
        }
    }

    /// The cell is inside.
    pub open spec fn covers(self, p: Point) -> bool {
        self.a.x <= p.x < self.b.x && self.a.y <= p.y < self.b.y
    }

    /// The rectangle between two corners.
    pub fn new(x1: i16, y1: i16, x2: i16, y2: i16) -> (r: Rect)
        ensures
            r == rect(x1 as int, y1 as int, x2 as int, y2 as int),
    {
        Rect { a: Point { x: x1, y: y1 }, b: Point { x: x2, y: y2 } }
    }

    /// How many columns wide.
    pub fn width(&self) -> (r: i16)
        requires
            coordinate(self.wide()),
        ensures
            r == self.wide(),
    {
        self.b.x - self.a.x
    }

    /// How many rows high.
    pub fn height(&self) -> (r: i16)
        requires
            coordinate(self.high()),
        ensures
            r == self.high(),
    {
        self.b.y - self.a.y
    }

    /// The number of columns, not less than zero.
    pub fn width_clamped(&self) -> (r: usize)
        ensures
            r == self.columns(),
            r <= 65535,
    {
        let w: i32 = self.b.x as i32 - self.a.x as i32;
        if w < 0 {
            0
        } else {
            w as usize
        }
    }

    /// The number of rows, not less than zero.
    pub fn height_clamped(&self) -> (r: usize)
        ensures
            r == self.rows(),
            r <= 65535,
    {
        let h: i32 = self.b.y as i32 - self.a.y as i32;
        if h < 0 {
            0
        } else {
            h as usize
        }
    }

    /// Tells whether the cell is inside.
    pub fn holds(&self, p: Point) -> (r: bool)
        ensures
            r == self.covers(p),
    {
        p.x >= self.a.x && p.x < self.b.x && p.y >= self.a.y && p.y < self.b.y
    }
}

/// A mouse event.
#[derive(Debug, Clone, Copy, PartialEq, Eq, Structural)]
pub struct MouseEvent {
    /// A button went down.
    pub down: bool,
    /// The buttons that are down.
    pub buttons: u8,
    pub double_click: bool,
    pub pos: Point,
}

impl MouseEvent {
    /// The left button went down.
    pub open spec fn left_press(self) -> bool {
        self.down && self.buttons & 1 != 0
    }

    /// Tells whether the left button went down.
    pub fn is_left_press(&self) -> (r: bool)
        ensures
            r == self.left_press(),
    {
        self.down && self.buttons & MB_LEFT_BUTTON != 0
    }
}

/// The row of the rectangle that a press of the left button hits.
pub open spec fn pressed_row(bounds: Rect, event: MouseEvent) -> Option<nat> {
    if event.left_press() && bounds.covers(event.pos) {
        Some((event.pos.y - bounds.a.y) as nat)
    } else {
        None
    }
}

/// The row of the rectangle that a press of the left button hits.
pub fn row_pressed(bounds: &Rect, event: &MouseEvent) -> (r: Option<usize>)
    ensures
        match r {
            Some(row) => pressed_row(*bounds, *event) == Some(row as nat) && row < bounds.rows(),
            None => pressed_row(*bounds, *event) is None,
        },
{
    if event.is_left_press() && bounds.holds(event.pos) {
        let row: i32 = event.pos.y as i32 - bounds.a.y as i32;
        Some(row as usize)
    } else {
        None
    }
}

/// A press counts where the left button, the lowest bit, goes down inside the rectangle; it hits
/// the row that is as far below the top as the cell is.
pub proof fn lemma_press_hits_row(bounds: Rect, event: MouseEvent)
    ensures
        pressed_row(bounds, event) == if event.down && event.buttons % 2 == 1 && bounds.a.x
            <= event.pos.x < bounds.b.x && bounds.a.y <= event.pos.y < bounds.b.y {
            Some((event.pos.y - bounds.a.y) as nat)
        } else {
            None
        },
        pressed_row(bounds, event) is Some ==> pressed_row(bounds, event)->0 < bounds.rows(),
{
    let b = event.buttons;
    assert((b & 1 != 0) == (b % 2 == 1)) by (bit_vector);
}

/// A rectangle has as many columns and rows as its corners are apart, and none where they are
/// swapped.
pub proof fn lemma_sizes(r: Rect)
    ensures
        r.columns() == if r.a.x <= r.b.x {
            r.b.x - r.a.x
        } else {
            0
        },
        r.rows() == if r.a.y <= r.b.y {
            r.b.y - r.a.y
        } else {
            0
        },
        r.wide() == r.b.x - r.a.x,
        r.high() == r.b.y - r.a.y,
{
}

} // verus!
