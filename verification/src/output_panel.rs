//! Output panel: the colours of its black window, and its scroll bar.

use vstd::prelude::*;

verus! {

/// Where the colours of a black window start in the palette of the application (from zero on).
pub const BLACK_WINDOW_START: usize = 63;

/// The colours of a black window: background, active border, frame icon, two parts of the scroll
/// bar, text, selected text, and one that is not used.
pub open spec fn black_window_colours() -> Seq<u8> {
    seq![0x07u8, 0x0Fu8, 0x0Au8, 0x08u8, 0x08u8, 0x07u8, 0x0Fu8, 0x00u8]
}

/// A palette with the colours of a black window in their place. Where the palette is shorter, it
/// is filled up with zeros.
pub open spec fn with_black_window(palette: Seq<u8>) -> Seq<u8> {
    Seq::new(
        if palette.len() < 71 {
            71
        } else {
            palette.len()
        },
        |i: int|
            if 63 <= i < 71 {
                black_window_colours()[i - 63]
            } else if i < palette.len() {
                palette[i]
            } else {
                0
            },
    )
}

/// The palette with the colours of a black window.
pub fn black_palette(palette: Vec<u8>) -> (r: Vec<u8>)
    ensures
        r@ == with_black_window(palette@),
{
    let colours: [u8; 8] = [0x07, 0x0F, 0x0A, 0x08, 0x08, 0x07, 0x0F, 0x00];
    let ghost before = palette@;
    let mut pal = palette;
    while pal.len() < 71
        invariant
            pal@.len() >= before.len(),
            pal@.len() <= 71 || pal@.len() == before.len(),
            forall|i: int|
                0 <= i < pal@.len() ==> #[trigger] pal@[i] == if i < before.len() {
                    before[i]
                } else {
                    0
                },
        decreases 71 - pal@.len(),
    {
        pal.push(0);
    }
    for k in 0..8usize
        invariant
            pal@.len() == with_black_window(before).len(),
            pal@.len() >= 71,
            colours@ =~= black_window_colours(),
            forall|i: int|
                0 <= i < pal@.len() ==> #[trigger] pal@[i] == if 63 <= i < 63 + k {
                    black_window_colours()[i - 63]
                } else if i < before.len() {
                    before[i]
                } else {
                    0
                },
    {
        let c: u8 = colours[k];
        pal.set(BLACK_WINDOW_START + k, c);
    }
    assert(pal@ =~= with_black_window(before));
    pal
}

/// The palette of the window: its colours are the entries 64 to 71 (from one on) of the palette of
/// the application.
pub fn window_palette() -> (r: Vec<u8>)
    ensures
        r@ == seq![64u8, 65u8, 66u8, 67u8, 68u8, 69u8, 70u8, 71u8],
{
    let mut r: Vec<u8> = Vec::new();
    for k in 0..8u8
        invariant
            r@.len() == k,
            forall|i: int| 0 <= i < k ==> #[trigger] r@[i] == 64 + i,
    {
        r.push(64 + k);
    }
    r
}

/// How far a text of `total` lines can be scrolled where `visible` lines are seen.
pub open spec fn scroll_range(total: int, visible: int) -> int {
    if total - visible < 0 {
        0
    } else if total - visible > i32::MAX {
        i32::MAX as int
    } else {
        total - visible
    }
}

/// How far the scroll bar goes.
pub fn scroll_maximum(total: i32, visible: i32) -> (r: i32)
    ensures
        r == scroll_range(total as int, visible as int),
{
    let d: i64 = total as i64 - visible as i64;
    if d < 0 {
        0
    } else if d > 2147483647 {
        2147483647
    } else {
        d as i32
    }
}

/// Setting the colours again changes nothing, and no other colour of the palette is changed.
pub proof fn lemma_black_palette_settles(palette: Seq<u8>)
    ensures
        with_black_window(with_black_window(palette)) == with_black_window(palette),
        forall|i: int|
            0 <= i < palette.len() && !(63 <= i < 71) ==> #[trigger] with_black_window(palette)[i]
                == palette[i],
{
    assert(with_black_window(with_black_window(palette)) =~= with_black_window(palette));
}

/// The scroll bar goes as far as there are lines that are not seen, and nowhere where all are.
pub proof fn lemma_scroll_to_hidden_lines(total: i32, visible: i32)
    ensures
        total <= visible ==> scroll_range(total as int, visible as int) == 0,
        total >= visible >= 0 ==> scroll_range(total as int, visible as int) == total - visible,
        0 <= scroll_range(total as int, visible as int) <= i32::MAX,
{
}

/// The colours of a black window stand at the places that its palette names: entry `k` of the window
/// is entry `63 + k` of the application, and all backgrounds are black.
pub proof fn lemma_black_window(palette: Seq<u8>, k: int)
    requires
        0 <= k < 8,
    ensures
        with_black_window(palette).len() >= 71,
        with_black_window(palette)[63 + k] == seq![7u8, 15, 10, 8, 8, 7, 15, 0][k],
        with_black_window(palette)[63 + k] < 16,
        palette.len() <= 63 ==> forall|i: int|
            palette.len() <= i < 63 ==> #[trigger] with_black_window(palette)[i] == 0,
{
    let c = black_window_colours();
    assert(c =~= seq![7u8, 15, 10, 8, 8, 7, 15, 0]);
}

} // verus!
