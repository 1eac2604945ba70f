//! Lines of text in colour.
//!
//! A line is a `DrawBuffer` of turbo-vision. A cell of it is a character and an attribute byte:
//! the low four bits number the colour of the character, the high four bits that of the
//! background.

use vstd::prelude::*;

use crate::geometry::Rect;

verus! {

/// Black on light gray, the colours of a dialog.
pub const TEXT_ATTR: u8 = 0x70;

/// Blue on light gray.
pub const VALUE_ATTR: u8 = 0x71;

/// Black on green.
pub const HIGHLIGHT_TEXT_ATTR: u8 = 0x20;

/// Blue on green.
pub const HIGHLIGHT_INDEX_ATTR: u8 = 0x21;

/// A line of cells of turbo-vision.
#[verifier::external_type_specification]
#[verifier::external_body]
pub struct ExDrawBuffer(turbo_vision::core::draw::DrawBuffer);

/// The cells of a line, from left to right: character and attribute byte.
pub uninterp spec fn cells(line: turbo_vision::core::draw::DrawBuffer) -> Seq<(char, u8)>;

/// The cells after `DrawBuffer::move_str` has written `text` from cell `pos` on: each character
/// takes as many cells as it is wide on a terminal, and what does not fit is left out.
pub uninterp spec fn with_text(
    line: Seq<(char, u8)>,
    pos: usize,
    text: Seq<char>,
    attr: u8,
) -> Seq<(char, u8)>;

/// A line of blanks in light gray on black.
pub open spec fn unwritten(width: nat) -> Seq<(char, u8)> {
    Seq::new(width, |i: int| (' ', 0x07u8))
}

/// The cells after `count` cells from `pos` on were filled.
pub open spec fn filled(
    line: Seq<(char, u8)>,
    pos: int,
    ch: char,
    attr: u8,
    count: int,
) -> Seq<(char, u8)> {
    Seq::new(
        line.len(),
        |i: int|
            if pos <= i < pos + count {
                (ch, attr)
            } else {
                line[i]
            },
    )
}

/// All characters are printable ASCII: each is one cell wide.
pub open spec fn printable(text: Seq<char>) -> bool {
    forall|i: int| 0 <= i < text.len() ==> ' ' <= #[trigger] text[i] <= '~'
}

/// The cells after `text` was written from `pos` on, one cell for each character.
pub open spec fn overlaid(line: Seq<(char, u8)>, pos: int, text: Seq<char>, attr: u8) -> Seq<
    (char, u8),
> {
    Seq::new(
        line.len(),
        |i: int|
            if pos <= i < pos + text.len() {
                (text[i - pos], attr)
            } else {
                line[i]
            },
    )
}

/// `DrawBuffer::new`: a line of `width` blanks, light gray on black.
#[verifier::external_body]
pub(crate) fn new_line(width: usize) -> (line: turbo_vision::core::draw::DrawBuffer)
    requires
        width <= 65535,
    ensures
        cells(line) == unwritten(width as nat),
{
    turbo_vision::core::draw::DrawBuffer::new(width)
}

/// `DrawBuffer::move_char`: fills `count` cells from `pos` on, as far as the line goes, and
/// changes no other cell.
#[verifier::external_body]
pub(crate) fn fill_line(
    line: &mut turbo_vision::core::draw::DrawBuffer,
    pos: usize,
    ch: char,
    attr: u8,
    count: usize,
)
    requires
        pos + count <= usize::MAX,
    ensures
        cells(*final(line)) == filled(cells(*old(line)), pos as int, ch, attr, count as int),
{
    line.move_char(pos, ch, turbo_vision::core::palette::Attr::from_u8(attr), count);
}

/// `DrawBuffer::move_str`: writes `text` from cell `pos` on. The line keeps its length and the
/// cells before `pos`; printable ASCII takes one cell for each character, and the cells behind
/// it stay. How many cells another character takes is not said.
#[verifier::external_body]
pub(crate) fn write_text(
    line: &mut turbo_vision::core::draw::DrawBuffer,
    pos: usize,
    text: &str,
    attr: u8,
)
    ensures
        cells(*final(line)) == with_text(cells(*old(line)), pos, text@, attr),
        cells(*final(line)).len() == cells(*old(line)).len(),
        forall|i: int|
            0 <= i < pos && i < cells(*old(line)).len() ==> #[trigger] cells(*final(line))[i]
                == cells(*old(line))[i],
        printable(text@) ==> cells(*final(line)) == overlaid(
            cells(*old(line)),
            pos as int,
            text@,
            attr,
        ),
{
    line.move_str(pos, text, turbo_vision::core::palette::Attr::from_u8(attr));
}

/// A line of blanks in one colour.
pub open spec fn blank_line(width: nat, attr: u8) -> Seq<(char, u8)> {
    filled(unwritten(width), 0, ' ', attr, width as int)
}

/// A line and where it stands on the screen.
pub struct PanelRow {
    pub x: i16,
    pub y: i16,
    pub line: turbo_vision::core::draw::DrawBuffer,
}

/// A line of text on blanks of the same colour, at the top left of `bounds` and as wide.
pub fn text_row(bounds: &Rect, text: &str, attr: u8) -> (r: PanelRow)
    ensures
        r.x == bounds.a.x,
        r.y == bounds.a.y,
        cells(r.line) == with_text(blank_line(bounds.columns(), attr), 0, text@, attr),
        printable(text@) ==> cells(r.line) == overlaid(
            blank_line(bounds.columns(), attr),
            0,
            text@,
            attr,
        ),
{
    let width: usize = bounds.width_clamped();
    let mut line = new_line(width);
    fill_line(&mut line, 0, ' ', attr, width);
    write_text(&mut line, 0, text, attr);
    PanelRow { x: bounds.a.x, y: bounds.a.y, line }
}

/// How many bytes `text` takes.
pub open spec fn byte_len(text: Seq<char>) -> usize {
    vstd::utf8::encode_utf8(text).len() as usize
}

/// `n + k`, or the greatest number where that is no `usize`.
pub open spec fn capped_sum(n: usize, k: usize) -> usize {
    if n + k <= usize::MAX {
        (n + k) as usize
    } else {
        usize::MAX
    }
}

/// `n + k`, or the greatest number where that is no `usize`.
pub(crate) fn add_capped(n: usize, k: usize) -> (r: usize)
    ensures
        r == capped_sum(n, k),
{
    match n.checked_add(k) {
        Some(r) => r,
        None => usize::MAX,
    }
}

/// Printable ASCII takes one byte for each character.
pub(crate) proof fn lemma_printable_bytes(text: Seq<char>)
    requires
        printable(text),
        text.len() <= usize::MAX,
    ensures
        byte_len(text) == text.len(),
{
    assert forall|i: int| 0 <= i < text.len() implies '\0' <= #[trigger] text[i] <= '\u{7f}' by {
        assert(' ' <= text[i] <= '~');
    }
    vstd::utf8::is_ascii_chars_encode_utf8(text);
}

/// A line of blanks has the colour in all of its cells, and text on it stands in the cells from its
/// place on, a character in each, as far as the line goes; the other cells stay.
pub proof fn lemma_text_on_blanks(width: nat, attr: u8, pos: nat, text: Seq<char>, colour: u8, i: int)
    requires
        0 <= i < width,
    ensures
        blank_line(width, attr).len() == width,
        blank_line(width, attr)[i] == (' ', attr),
        overlaid(blank_line(width, attr), pos as int, text, colour).len() == width,
        overlaid(blank_line(width, attr), pos as int, text, colour)[i] == if pos <= i < pos
            + text.len() {
            (text[i - pos], colour)
        } else {
            (' ', attr)
        },
        unwritten(width)[i] == (' ', 7u8),
        TEXT_ATTR == 0x70 && VALUE_ATTR == 0x71 && HIGHLIGHT_TEXT_ATTR == 0x20
            && HIGHLIGHT_INDEX_ATTR == 0x21,
{
}

/// A column past the largest number is the largest number, and every other one is exact.
pub proof fn lemma_capped_sum(n: usize, k: usize)
    ensures
        capped_sum(n, k) <= n + k,
        capped_sum(n, k) < n + k ==> capped_sum(n, k) == usize::MAX,
        capped_sum(n, k) == capped_sum(k, n),
        capped_sum(n, 0) == n,
{
}

} // verus!
