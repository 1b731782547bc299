//! The look book: a contact sheet of labelled, half-size captures, one group of tiles
//! per camera view, with labels drawn in a built-in 5x7 pixel font.

use vstd::prelude::*;
use vstd::arithmetic::div_mod::{lemma_fundamental_div_mod, lemma_fundamental_div_mod_converse};

verus! {

/// Tiles a row of a view group.
pub const COLS: u32 = 4;
/// Height of the label strip above each tile.
pub const LABEL_H: u32 = 16;
/// Height of the view name strip at the top of a group.
pub const GROUP_H: u32 = 26;
/// Captures are shrunk by this factor on each axis.
pub const SCALE: u32 = 2;

/// A camera view of the look book: its name, what it shows, and the arguments that set it.
pub struct LookView {
    pub name: &'static str,
    pub about: &'static str,
    pub args: &'static [&'static str],
}

/// One labelled capture, RGBA8.
pub struct Tile {
    pub label: String,
    pub width: u32,
    pub height: u32,
    pub pixels: Vec<u8>,
}

/// Column of the pixel that byte `k` of an RGBA8 sheet `w` pixels wide belongs to.
pub open spec fn col_of(w: int, k: int) -> int {
    (k / 4) % w
}

/// Row of the pixel that byte `k` of an RGBA8 sheet `w` pixels wide belongs to.
pub open spec fn row_of(w: int, k: int) -> int {
    (k / 4) / w
}

/// The bytes of pixel `(x, y)` are the four from `4 * (y * w + x)` on, channel by channel.
pub proof fn lemma_pixel_bytes(w: int, x: int, y: int, k: int)
    requires
        0 <= x < w,
        0 <= y,
        0 <= k,
    ensures
        (4 * (y * w + x) <= k < 4 * (y * w + x) + 4) <==> (col_of(w, k) == x && row_of(w, k) == y),
        4 * (y * w + x) <= k < 4 * (y * w + x) + 4 ==> k % 4 == k - 4 * (y * w + x),
        0 <= col_of(w, k) < w,
        0 <= row_of(w, k),
{
    let p = k / 4;
    lemma_fundamental_div_mod(k, 4);
    lemma_fundamental_div_mod(p, w);
    assert(0 <= p % w < w) by {
        vstd::arithmetic::div_mod::lemma_mod_pos_bound(p, w);
    }
    assert(0 <= p / w) by {
        vstd::arithmetic::div_mod::lemma_div_pos_is_pos(p, w);
    }
    assert(0 <= y * w) by (nonlinear_arith)
        requires
            0 <= y,
            0 <= w,
    ;
    if 4 * (y * w + x) <= k < 4 * (y * w + x) + 4 {
        lemma_fundamental_div_mod_converse(k, 4, y * w + x, k - 4 * (y * w + x));
        lemma_fundamental_div_mod_converse(p, w, y, x);
    }
    if col_of(w, k) == x && row_of(w, k) == y {
        assert(p == w * y + x);
        assert(w * y == y * w) by (nonlinear_arith);
    }
}

/// Channel `c` of the colour `(r, g, b, a)`.
pub open spec fn rgba(r: u8, g: u8, b: u8, a: u8, c: int) -> u8 {
    if c == 0 {
        r
    } else if c == 1 {
        g
    } else if c == 2 {
        b
    } else {
        a
    }
}

/// The label strip colour, channel by channel.
pub open spec fn strip_byte(c: int) -> u8 {
    rgba(0x20, 0x28, 0x33, 0xFF, c)
}

/// A grey of `shade`, opaque.
pub open spec fn ink_byte(shade: u8, c: int) -> u8 {
    rgba(shade, shade, shade, 0xFF, c)
}

/// Pixel `(x, y)` lies in the box `[x0, x1) x [y0, y1)`.
pub open spec fn in_box(x0: int, y0: int, x1: int, y1: int, x: int, y: int) -> bool {
    x0 <= x < x1 && y0 <= y < y1
}

/// Pixel `(x, y)` is either right of a sheet `w` wide, or its bytes lie in a buffer of
/// `len` bytes at offsets that a `u32` can count.
pub open spec fn fits(len: int, w: int, x: int, y: int) -> bool {
    x >= w || (4 * (y * w + x) + 4 <= len && 4 * (y * w + x) <= u32::MAX)
}

/// Set pixel `(x, y)` of a sheet `w` wide to `(r, g, b, a)`.
fn set_px(px: &mut Vec<u8>, w: u32, x: u32, y: u32, r: u8, g: u8, b: u8, a: u8)
    requires
        x < w,
        4 * (y * w + x) + 4 <= old(px)@.len(),
        4 * (y * w + x) <= u32::MAX,
    ensures
        final(px)@.len() == old(px)@.len(),
        forall|k: int|
            0 <= k < final(px)@.len() ==> #[trigger] final(px)@[k] == if col_of(w as int, k) == x
                && row_of(w as int, k) == y {
                rgba(r, g, b, a, k % 4)
            } else {
                old(px)@[k]
            },
{
    assert(y * w <= u32::MAX) by (nonlinear_arith)
        requires
            4 * (y * w + x) <= u32::MAX,
            x >= 0,
    ;
    let i = ((y * w + x) * 4) as usize;
    let ghost before = px@;
    px.set(i, r);
    px.set(i + 1, g);
    px.set(i + 2, b);
    px.set(i + 3, a);
    proof {
        assert forall|k: int| 0 <= k < px@.len() implies #[trigger] px@[k] == if col_of(
            w as int,
            k,
        ) == x && row_of(w as int, k) == y {
            rgba(r, g, b, a, k % 4)
        } else {
            before[k]
        } by {
            lemma_pixel_bytes(w as int, x as int, y as int, k);
        }
    }
}

/// Paint pixel `(x, y)` opaque `shade`; a pixel right of the sheet is left out.
fn put_px(px: &mut Vec<u8>, sheet_w: u32, x: u32, y: u32, shade: u8)
    requires
        fits(old(px)@.len() as int, sheet_w as int, x as int, y as int),
    ensures
        final(px)@.len() == old(px)@.len(),
        forall|k: int|
            0 <= k < final(px)@.len() ==> #[trigger] final(px)@[k] == if x < sheet_w && col_of(
                sheet_w as int,
                k,
            ) == x && row_of(sheet_w as int, k) == y {
                ink_byte(shade, k % 4)
            } else {
                old(px)@[k]
            },
{
    if x >= sheet_w {
        return;
    }
    set_px(px, sheet_w, x, y, shade, shade, shade, 0xFF);
}

/// Fill the box `[x0, x1) x [y0, y1)` of a sheet `w` wide with the label strip colour.
fn strip_bg(px: &mut Vec<u8>, w: u32, x0: u32, y0: u32, x1: u32, y1: u32)
    requires
        x0 <= x1 <= w,
        y0 <= y1,
        x0 < x1 && y0 < y1 ==> 4 * ((y1 - 1) * w + x1) <= old(px)@.len(),
        x0 < x1 && y0 < y1 ==> 4 * ((y1 - 1) * w + x1) <= u32::MAX + 4,
    ensures
        final(px)@.len() == old(px)@.len(),
        forall|k: int|
            0 <= k < final(px)@.len() ==> #[trigger] final(px)@[k] == if in_box(
                x0 as int,
                y0 as int,
                x1 as int,
                y1 as int,
                col_of(w as int, k),
                row_of(w as int, k),
            ) {
                strip_byte(k % 4)
            } else {
                old(px)@[k]
            },
{
    let ghost start = px@;
    let mut y = y0;
    while y < y1
        invariant
            x0 <= x1 <= w,
            y0 <= y <= y1,
            x0 < x1 && y0 < y1 ==> 4 * ((y1 - 1) * w + x1) <= start.len(),
            x0 < x1 && y0 < y1 ==> 4 * ((y1 - 1) * w + x1) <= u32::MAX + 4,
            px@.len() == start.len(),
            forall|k: int|
                0 <= k < px@.len() ==> #[trigger] px@[k] == if in_box(
                    x0 as int,
                    y0 as int,
                    x1 as int,
                    y as int,
                    col_of(w as int, k),
                    row_of(w as int, k),
                ) {
                    strip_byte(k % 4)
                } else {
                    start[k]
                },
        decreases y1 - y,
    {
        let mut x = x0;
        while x < x1
            invariant
                x0 <= x <= x1 <= w,
                y0 <= y < y1,
                x0 < x1 ==> 4 * ((y1 - 1) * w + x1) <= start.len(),
                x0 < x1 ==> 4 * ((y1 - 1) * w + x1) <= u32::MAX + 4,
                px@.len() == start.len(),
                forall|k: int|
                    0 <= k < px@.len() ==> #[trigger] px@[k] == if in_box(
                        x0 as int,
                        y0 as int,
                        x1 as int,
                        y as int,
                        col_of(w as int, k),
                        row_of(w as int, k),
                    ) || in_box(
                        x0 as int,
                        y as int,
                        x as int,
                        y + 1,
                        col_of(w as int, k),
                        row_of(w as int, k),
                    ) {
                        strip_byte(k % 4)
                    } else {
                        start[k]
                    },
            decreases x1 - x,
        {
            assert(4 * (y * w + x) + 4 <= 4 * ((y1 - 1) * w + x1)) by (nonlinear_arith)
                requires
                    y <= y1 - 1,
                    x < x1,
                    w >= 0,
            ;
            set_px(px, w, x, y, 0x20, 0x28, 0x33, 0xFF);
            x += 1;
        }
        y += 1;
    }
}

/// `x` lies in cell `i` of cells `s` wide that start at `a`.
proof fn lemma_cell(a: int, s: int, i: int, x: int)
    requires
        s > 0,
        0 <= i,
    ensures
        (a + i * s <= x < a + i * s + s) <==> (x >= a && (x - a) / s == i),
        x >= a ==> 0 <= (x - a) / s,
        x >= a ==> a + ((x - a) / s) * s <= x < a + ((x - a) / s) * s + s,
{
    if a + i * s <= x < a + i * s + s {
        lemma_fundamental_div_mod_converse(x - a, s, i, x - a - i * s);
        assert(i * s >= 0) by (nonlinear_arith)
            requires
                i >= 0,
                s > 0,
        ;
    }
    if x >= a {
        lemma_fundamental_div_mod(x - a, s);
        vstd::arithmetic::div_mod::lemma_mod_pos_bound(x - a, s);
        vstd::arithmetic::div_mod::lemma_div_pos_is_pos(x - a, s);
        assert(s * ((x - a) / s) == ((x - a) / s) * s) by (nonlinear_arith);
    }
}

/// Bit `col` of a font row, counted from the left of the five.
pub open spec fn lit(bits: u8, col: u8) -> bool {
    bits & (1u8 << ((4 - col) as u8)) != 0
}

/// The pixel rows of the built-in font for `c`, top first; bit 4 is the leftmost column.
/// A character outside the font draws as a question mark.
pub open spec fn glyph_rows(c: char) -> Seq<u8> {
    match c {
        'A' => seq![0x0Eu8, 0x11, 0x11, 0x1F, 0x11, 0x11, 0x11],
        'B' => seq![0x1Eu8, 0x11, 0x11, 0x1E, 0x11, 0x11, 0x1E],
        'C' => seq![0x0Eu8, 0x11, 0x10, 0x10, 0x10, 0x11, 0x0E],
        'D' => seq![0x1Cu8, 0x12, 0x11, 0x11, 0x11, 0x12, 0x1C],
        'E' => seq![0x1Fu8, 0x10, 0x10, 0x1E, 0x10, 0x10, 0x1F],
        'F' => seq![0x1Fu8, 0x10, 0x10, 0x1E, 0x10, 0x10, 0x10],
        'G' => seq![0x0Eu8, 0x11, 0x10, 0x17, 0x11, 0x11, 0x0F],
        'H' => seq![0x11u8, 0x11, 0x11, 0x1F, 0x11, 0x11, 0x11],
        'I' => seq![0x0Eu8, 0x04, 0x04, 0x04, 0x04, 0x04, 0x0E],
        'J' => seq![0x0Fu8, 0x01, 0x01, 0x01, 0x01, 0x11, 0x0E],
        'K' => seq![0x11u8, 0x12, 0x14, 0x18, 0x14, 0x12, 0x11],
        'L' => seq![0x10u8, 0x10, 0x10, 0x10, 0x10, 0x10, 0x1F],
        'M' => seq![0x11u8, 0x1B, 0x15, 0x15, 0x11, 0x11, 0x11],
        'N' => seq![0x11u8, 0x19, 0x15, 0x13, 0x11, 0x11, 0x11],
        'O' => seq![0x0Eu8, 0x11, 0x11, 0x11, 0x11, 0x11, 0x0E],
        'P' => seq![0x1Eu8, 0x11, 0x11, 0x1E, 0x10, 0x10, 0x10],
        'Q' => seq![0x0Eu8, 0x11, 0x11, 0x11, 0x15, 0x12, 0x0D],
        'R' => seq![0x1Eu8, 0x11, 0x11, 0x1E, 0x14, 0x12, 0x11],
        'S' => seq![0x0Fu8, 0x10, 0x10, 0x0E, 0x01, 0x01, 0x1E],
        'T' => seq![0x1Fu8, 0x04, 0x04, 0x04, 0x04, 0x04, 0x04],
        'U' => seq![0x11u8, 0x11, 0x11, 0x11, 0x11, 0x11, 0x0E],
        'V' => seq![0x11u8, 0x11, 0x11, 0x11, 0x11, 0x0A, 0x04],
        'W' => seq![0x11u8, 0x11, 0x11, 0x15, 0x15, 0x1B, 0x11],
        'X' => seq![0x11u8, 0x11, 0x0A, 0x04, 0x0A, 0x11, 0x11],
        'Y' => seq![0x11u8, 0x11, 0x0A, 0x04, 0x04, 0x04, 0x04],
        'Z' => seq![0x1Fu8, 0x01, 0x02, 0x04, 0x08, 0x10, 0x1F],
        '0' => seq![0x0Eu8, 0x11, 0x13, 0x15, 0x19, 0x11, 0x0E],
        '1' => seq![0x04u8, 0x0C, 0x04, 0x04, 0x04, 0x04, 0x0E],
        '2' => seq![0x0Eu8, 0x11, 0x01, 0x06, 0x08, 0x10, 0x1F],
        '3' => seq![0x1Eu8, 0x01, 0x01, 0x0E, 0x01, 0x01, 0x1E],
        '4' => seq![0x02u8, 0x06, 0x0A, 0x12, 0x1F, 0x02, 0x02],
        '5' => seq![0x1Fu8, 0x10, 0x1E, 0x01, 0x01, 0x11, 0x0E],
        '6' => seq![0x06u8, 0x08, 0x10, 0x1E, 0x11, 0x11, 0x0E],
        '7' => seq![0x1Fu8, 0x01, 0x02, 0x04, 0x08, 0x08, 0x08],
        '8' => seq![0x0Eu8, 0x11, 0x11, 0x0E, 0x11, 0x11, 0x0E],
        '9' => seq![0x0Eu8, 0x11, 0x11, 0x0F, 0x01, 0x02, 0x0C],
        ' ' => seq![0x00u8, 0x00, 0x00, 0x00, 0x00, 0x00, 0x00],
        '-' => seq![0x00u8, 0x00, 0x00, 0x1F, 0x00, 0x00, 0x00],
        '.' => seq![0x00u8, 0x00, 0x00, 0x00, 0x00, 0x0C, 0x0C],
        ':' => seq![0x00u8, 0x0C, 0x0C, 0x00, 0x0C, 0x0C, 0x00],
        '+' => seq![0x00u8, 0x04, 0x04, 0x1F, 0x04, 0x04, 0x00],
        _ => seq![0x1Fu8, 0x11, 0x01, 0x06, 0x04, 0x00, 0x04],
    }
}

/// The characters the font draws as themselves.
pub open spec fn in_font(c: char) -> bool {
    ('A' <= c && c <= 'Z') || ('0' <= c && c <= '9') || c == ' ' || c == '-' || c == '.' || c
        == ':' || c == '+'
}

pub fn glyph(c: char) -> (g: [u8; 7])
    ensures
        g@ == glyph_rows(c),
{
    match c {
        'A' => [0x0E, 0x11, 0x11, 0x1F, 0x11, 0x11, 0x11],
        'B' => [0x1E, 0x11, 0x11, 0x1E, 0x11, 0x11, 0x1E],
        'C' => [0x0E, 0x11, 0x10, 0x10, 0x10, 0x11, 0x0E],
        'D' => [0x1C, 0x12, 0x11, 0x11, 0x11, 0x12, 0x1C],
        'E' => [0x1F, 0x10, 0x10, 0x1E, 0x10, 0x10, 0x1F],
        'F' => [0x1F, 0x10, 0x10, 0x1E, 0x10, 0x10, 0x10],
        'G' => [0x0E, 0x11, 0x10, 0x17, 0x11, 0x11, 0x0F],
        'H' => [0x11, 0x11, 0x11, 0x1F, 0x11, 0x11, 0x11],
        'I' => [0x0E, 0x04, 0x04, 0x04, 0x04, 0x04, 0x0E],
        'J' => [0x0F, 0x01, 0x01, 0x01, 0x01, 0x11, 0x0E],
        'K' => [0x11, 0x12, 0x14, 0x18, 0x14, 0x12, 0x11],
        'L' => [0x10, 0x10, 0x10, 0x10, 0x10, 0x10, 0x1F],
        'M' => [0x11, 0x1B, 0x15, 0x15, 0x11, 0x11, 0x11],
        'N' => [0x11, 0x19, 0x15, 0x13, 0x11, 0x11, 0x11],
        'O' => [0x0E, 0x11, 0x11, 0x11, 0x11, 0x11, 0x0E],
        'P' => [0x1E, 0x11, 0x11, 0x1E, 0x10, 0x10, 0x10],
        'Q' => [0x0E, 0x11, 0x11, 0x11, 0x15, 0x12, 0x0D],
        'R' => [0x1E, 0x11, 0x11, 0x1E, 0x14, 0x12, 0x11],
        'S' => [0x0F, 0x10, 0x10, 0x0E, 0x01, 0x01, 0x1E],
        'T' => [0x1F, 0x04, 0x04, 0x04, 0x04, 0x04, 0x04],
        'U' => [0x11, 0x11, 0x11, 0x11, 0x11, 0x11, 0x0E],
        'V' => [0x11, 0x11, 0x11, 0x11, 0x11, 0x0A, 0x04],
        'W' => [0x11, 0x11, 0x11, 0x15, 0x15, 0x1B, 0x11],
        'X' => [0x11, 0x11, 0x0A, 0x04, 0x0A, 0x11, 0x11],
        'Y' => [0x11, 0x11, 0x0A, 0x04, 0x04, 0x04, 0x04],
        'Z' => [0x1F, 0x01, 0x02, 0x04, 0x08, 0x10, 0x1F],
        '0' => [0x0E, 0x11, 0x13, 0x15, 0x19, 0x11, 0x0E],
        '1' => [0x04, 0x0C, 0x04, 0x04, 0x04, 0x04, 0x0E],
        '2' => [0x0E, 0x11, 0x01, 0x06, 0x08, 0x10, 0x1F],
        '3' => [0x1E, 0x01, 0x01, 0x0E, 0x01, 0x01, 0x1E],
        '4' => [0x02, 0x06, 0x0A, 0x12, 0x1F, 0x02, 0x02],
        '5' => [0x1F, 0x10, 0x1E, 0x01, 0x01, 0x11, 0x0E],
        '6' => [0x06, 0x08, 0x10, 0x1E, 0x11, 0x11, 0x0E],
        '7' => [0x1F, 0x01, 0x02, 0x04, 0x08, 0x08, 0x08],
        '8' => [0x0E, 0x11, 0x11, 0x0E, 0x11, 0x11, 0x0E],
        '9' => [0x0E, 0x11, 0x11, 0x0F, 0x01, 0x02, 0x0C],
        ' ' => [0x00, 0x00, 0x00, 0x00, 0x00, 0x00, 0x00],
        '-' => [0x00, 0x00, 0x00, 0x1F, 0x00, 0x00, 0x00],
        '.' => [0x00, 0x00, 0x00, 0x00, 0x00, 0x0C, 0x0C],
        ':' => [0x00, 0x0C, 0x0C, 0x00, 0x0C, 0x0C, 0x00],
        '+' => [0x00, 0x04, 0x04, 0x1F, 0x04, 0x04, 0x00],
        _ => [0x1F, 0x11, 0x01, 0x06, 0x04, 0x00, 0x04],
    }
}

/// Whether every character of `text` is one the font draws as itself.
pub fn covered(text: &str) -> (b: bool)
    ensures
        b == forall|i: int| 0 <= i < text@.len() ==> #[trigger] in_font(text@[i]),
{
    let n = text.unicode_len();
    let mut i: usize = 0;
    while i < n
        invariant
            i <= n,
            n == text@.len(),
            forall|j: int| 0 <= j < i ==> #[trigger] in_font(text@[j]),
        decreases n - i,
    {
        let c = text.get_char(i);
        let ok = ('A' <= c && c <= 'Z') || ('0' <= c && c <= '9') || c == ' ' || c == '-' || c
            == '.' || c == ':' || c == '+';
        if !ok {
            assert(!in_font(text@[i as int]));
            return false;
        }
        i += 1;
    }
    true
}

/// Paint the `s` x `s` block whose top left pixel is `(bx, by)`.
fn draw_block(px: &mut Vec<u8>, w: u32, bx: u32, by: u32, s: u32, shade: u8)
    requires
        bx + s <= u32::MAX + 1,
        by + s <= u32::MAX + 1,
        forall|x: int, y: int|
            in_box(bx as int, by as int, bx + s, by + s, x, y) ==> #[trigger] fits(
                old(px)@.len() as int,
                w as int,
                x,
                y,
            ),
    ensures
        final(px)@.len() == old(px)@.len(),
        forall|k: int|
            0 <= k < final(px)@.len() ==> #[trigger] final(px)@[k] == if w > 0 && in_box(
                bx as int,
                by as int,
                bx + s,
                by + s,
                col_of(w as int, k),
                row_of(w as int, k),
            ) {
                ink_byte(shade, k % 4)
            } else {
                old(px)@[k]
            },
{
    let ghost start = px@;
    let mut dy: u32 = 0;
    while dy < s
        invariant
            dy <= s,
            bx + s <= u32::MAX + 1,
            by + s <= u32::MAX + 1,
            px@.len() == start.len(),
            forall|x: int, y: int|
                in_box(bx as int, by as int, bx + s, by + s, x, y) ==> #[trigger] fits(
                    start.len() as int,
                    w as int,
                    x,
                    y,
                ),
            forall|k: int|
                0 <= k < px@.len() ==> #[trigger] px@[k] == if w > 0 && in_box(
                    bx as int,
                    by as int,
                    bx + s,
                    by + dy,
                    col_of(w as int, k),
                    row_of(w as int, k),
                ) {
                    ink_byte(shade, k % 4)
                } else {
                    start[k]
                },
        decreases s - dy,
    {
        let mut dx: u32 = 0;
        while dx < s
            invariant
                dx <= s,
                dy < s,
                bx + s <= u32::MAX + 1,
                by + s <= u32::MAX + 1,
                px@.len() == start.len(),
                forall|x: int, y: int|
                    in_box(bx as int, by as int, bx + s, by + s, x, y) ==> #[trigger] fits(
                        start.len() as int,
                        w as int,
                        x,
                        y,
                    ),
                forall|k: int|
                    0 <= k < px@.len() ==> #[trigger] px@[k] == if w > 0 && (in_box(
                        bx as int,
                        by as int,
                        bx + s,
                        by + dy,
                        col_of(w as int, k),
                        row_of(w as int, k),
                    ) || in_box(
                        bx as int,
                        by + dy,
                        bx + dx,
                        by + dy + 1,
                        col_of(w as int, k),
                        row_of(w as int, k),
                    )) {
                        ink_byte(shade, k % 4)
                    } else {
                        start[k]
                    },
            decreases s - dx,
        {
            assert(in_box(bx as int, by as int, bx + s, by + s, bx + dx, by + dy));
            assert(fits(start.len() as int, w as int, bx + dx, by + dy));
            let ghost before = px@;
            put_px(px, w, bx + dx, by + dy, shade);
            proof {
                assert forall|k: int| 0 <= k < px@.len() implies #[trigger] px@[k] == if w > 0 && (
                in_box(
                    bx as int,
                    by as int,
                    bx + s,
                    by + dy,
                    col_of(w as int, k),
                    row_of(w as int, k),
                ) || in_box(
                    bx as int,
                    by + dy,
                    bx + dx + 1,
                    by + dy + 1,
                    col_of(w as int, k),
                    row_of(w as int, k),
                )) {
                    ink_byte(shade, k % 4)
                } else {
                    start[k]
                } by {
                    if w > 0 {
                        lemma_pixel_bytes(w as int, 0, 0, k);
                    }
                    assert(before[k] == if w > 0 && (in_box(
                        bx as int,
                        by as int,
                        bx + s,
                        by + dy,
                        col_of(w as int, k),
                        row_of(w as int, k),
                    ) || in_box(
                        bx as int,
                        by + dy,
                        bx + dx,
                        by + dy + 1,
                        col_of(w as int, k),
                        row_of(w as int, k),
                    )) {
                        ink_byte(shade, k % 4)
                    } else {
                        start[k]
                    });
                }
            }
            dx += 1;
        }
        dy += 1;
    }
}

/// Pixel `(x, y)` is lit by the glyph with pixel `rows` drawn at scale `s` from `(cx, y0)`.
pub open spec fn glyph_covers(rows: Seq<u8>, cx: int, y0: int, s: int, x: int, y: int) -> bool {
    &&& s > 0
    &&& x >= cx
    &&& y >= y0
    &&& (x - cx) / s < 5
    &&& (y - y0) / s < 7
    &&& lit(rows[(y - y0) / s], ((x - cx) / s) as u8)
}

/// Draw one glyph at scale `s` with its top left at `(cx, y0)`.
fn draw_glyph(px: &mut Vec<u8>, w: u32, cx: u32, y0: u32, s: u32, rows: &[u8; 7], shade: u8)
    requires
        cx + 5 * s <= u32::MAX + 1,
        y0 + 7 * s <= u32::MAX + 1,
        forall|x: int, y: int|
            glyph_covers(rows@, cx as int, y0 as int, s as int, x, y) ==> #[trigger] fits(
                old(px)@.len() as int,
                w as int,
                x,
                y,
            ),
    ensures
        final(px)@.len() == old(px)@.len(),
        forall|k: int|
            0 <= k < final(px)@.len() ==> #[trigger] final(px)@[k] == if w > 0 && glyph_covers(
                rows@,
                cx as int,
                y0 as int,
                s as int,
                col_of(w as int, k),
                row_of(w as int, k),
            ) {
                ink_byte(shade, k % 4)
            } else {
                old(px)@[k]
            },
{
    let ghost start = px@;
    let mut row: usize = 0;
    while row < 7
        invariant
            row <= 7,
            cx + 5 * s <= u32::MAX + 1,
            y0 + 7 * s <= u32::MAX + 1,
            px@.len() == start.len(),
            forall|x: int, y: int|
                glyph_covers(rows@, cx as int, y0 as int, s as int, x, y) ==> #[trigger] fits(
                    start.len() as int,
                    w as int,
                    x,
                    y,
                ),
            forall|k: int|
                0 <= k < px@.len() ==> #[trigger] px@[k] == if w > 0 && glyph_covers(
                    rows@,
                    cx as int,
                    y0 as int,
                    s as int,
                    col_of(w as int, k),
                    row_of(w as int, k),
                ) && (row_of(w as int, k) - y0) / (s as int) < row {
                    ink_byte(shade, k % 4)
                } else {
                    start[k]
                },
        decreases 7 - row,
    {
        let bits = rows[row];
        let mut col: u8 = 0;
        while col < 5
            invariant
                row < 7,
                col <= 5,
                bits == rows@[row as int],
                cx + 5 * s <= u32::MAX + 1,
                y0 + 7 * s <= u32::MAX + 1,
                px@.len() == start.len(),
                forall|x: int, y: int|
                    glyph_covers(rows@, cx as int, y0 as int, s as int, x, y) ==> #[trigger] fits(
                        start.len() as int,
                        w as int,
                        x,
                        y,
                    ),
                forall|k: int|
                    0 <= k < px@.len() ==> #[trigger] px@[k] == if w > 0 && glyph_covers(
                        rows@,
                        cx as int,
                        y0 as int,
                        s as int,
                        col_of(w as int, k),
                        row_of(w as int, k),
                    ) && ((row_of(w as int, k) - y0) / (s as int) < row || ((row_of(w as int, k)
                        - y0) / (s as int) == row && (col_of(w as int, k) - cx) / (s as int)
                        < col)) {
                        ink_byte(shade, k % 4)
                    } else {
                        start[k]
                    },
            decreases 5 - col,
        {
            let on = bits & (1u8 << (4 - col)) != 0;
            assert(on == lit(bits, col));
            let ghost before = px@;
            if on {
                assert((col as int) * (s as int) <= 4 * (s as int) && (row as int) * (s as int) <= 6
                    * (s as int)) by (nonlinear_arith)
                    requires
                        col < 5,
                        row < 7,
                ;
                let bx = cx + col as u32 * s;
                let by = y0 + row as u32 * s;
                assert forall|x: int, y: int|
                    in_box(bx as int, by as int, bx + s, by + s, x, y) implies #[trigger] fits(
                    start.len() as int,
                    w as int,
                    x,
                    y,
                ) by {
                    lemma_cell(cx as int, s as int, col as int, x);
                    lemma_cell(y0 as int, s as int, row as int, y);
                    assert(col as int * s == s * col) by (nonlinear_arith);
                    assert(row as int * s == s * row) by (nonlinear_arith);
                    assert(glyph_covers(rows@, cx as int, y0 as int, s as int, x, y));
                }
                draw_block(px, w, bx, by, s, shade);
                proof {
                    assert forall|k: int| 0 <= k < px@.len() implies #[trigger] px@[k] == if w
                        > 0 && glyph_covers(
                        rows@,
                        cx as int,
                        y0 as int,
                        s as int,
                        col_of(w as int, k),
                        row_of(w as int, k),
                    ) && ((row_of(w as int, k) - y0) / (s as int) < row || ((row_of(w as int, k)
                        - y0) / (s as int) == row && (col_of(w as int, k) - cx) / (s as int)
                        < col + 1)) {
                        ink_byte(shade, k % 4)
                    } else {
                        start[k]
                    } by {
                        assert(before[k] == if w > 0 && glyph_covers(
                            rows@,
                            cx as int,
                            y0 as int,
                            s as int,
                            col_of(w as int, k),
                            row_of(w as int, k),
                        ) && ((row_of(w as int, k) - y0) / (s as int) < row || ((row_of(
                            w as int,
                            k,
                        ) - y0) / (s as int) == row && (col_of(w as int, k) - cx) / (s as int)
                            < col)) {
                            ink_byte(shade, k % 4)
                        } else {
                            start[k]
                        });
                        if w > 0 && s > 0 {
                            let x = col_of(w as int, k);
                            let y = row_of(w as int, k);
                            lemma_cell(cx as int, s as int, col as int, x);
                            lemma_cell(y0 as int, s as int, row as int, y);
                            assert(col as int * s == s * col) by (nonlinear_arith);
                            assert(row as int * s == s * row) by (nonlinear_arith);
                        }
                    }
                }
            } else {
                proof {
                    assert forall|k: int| 0 <= k < px@.len() implies #[trigger] px@[k] == if w
                        > 0 && glyph_covers(
                        rows@,
                        cx as int,
                        y0 as int,
                        s as int,
                        col_of(w as int, k),
                        row_of(w as int, k),
                    ) && ((row_of(w as int, k) - y0) / (s as int) < row || ((row_of(w as int, k)
                        - y0) / (s as int) == row && (col_of(w as int, k) - cx) / (s as int)
                        < col + 1)) {
                        ink_byte(shade, k % 4)
                    } else {
                        start[k]
                    } by {
                        assert(before[k] == if w > 0 && glyph_covers(
                            rows@,
                            cx as int,
                            y0 as int,
                            s as int,
                            col_of(w as int, k),
                            row_of(w as int, k),
                        ) && ((row_of(w as int, k) - y0) / (s as int) < row || ((row_of(
                            w as int,
                            k,
                        ) - y0) / (s as int) == row && (col_of(w as int, k) - cx) / (s as int)
                            < col)) {
                            ink_byte(shade, k % 4)
                        } else {
                            start[k]
                        });
                    }
                }
            }
            col += 1;
        }
        row += 1;
    }
}

/// Pixel `(x, y)` is lit by `t` written at scale `s` from `(x0, y0)`: each character takes
/// a cell `6 * s` wide, of which its glyph fills the left `5 * s`.
pub open spec fn text_covers(t: Seq<char>, x0: int, y0: int, s: int, x: int, y: int) -> bool {
    &&& s > 0
    &&& x >= x0
    &&& (x - x0) / (6 * s) < t.len()
    &&& glyph_covers(
        glyph_rows(t[(x - x0) / (6 * s)]),
        x0 + 6 * s * ((x - x0) / (6 * s)),
        y0,
        s,
        x,
        y,
    )
}

/// Write `text` at scale `s` in grey `shade`, its top left at `(x0, y0)`; pixels right of
/// the sheet are left out.
pub fn draw_text(
    px: &mut Vec<u8>,
    sheet_w: u32,
    x0: u32,
    y0: u32,
    text: &str,
    s: u32,
    shade: u8,
)
    requires
        x0 + 6 * s * text@.len() <= u32::MAX,
        y0 + 7 * s <= u32::MAX + 1,
        forall|x: int, y: int|
            text_covers(text@, x0 as int, y0 as int, s as int, x, y) ==> #[trigger] fits(
                old(px)@.len() as int,
                sheet_w as int,
                x,
                y,
            ),
    ensures
        final(px)@.len() == old(px)@.len(),
        forall|k: int|
            0 <= k < final(px)@.len() ==> #[trigger] final(px)@[k] == if sheet_w > 0 && text_covers(
                text@,
                x0 as int,
                y0 as int,
                s as int,
                col_of(sheet_w as int, k),
                row_of(sheet_w as int, k),
            ) {
                ink_byte(shade, k % 4)
            } else {
                old(px)@[k]
            },
{
    let ghost start = px@;
    let ghost t = text@;
    let w = sheet_w;
    let n = text.unicode_len();
    let mut cx = x0;
    let mut j: usize = 0;
    while j < n
        invariant
            j <= n,
            n == t.len(),
            t == text@,
            cx == x0 + 6 * s * j,
            x0 + 6 * s * t.len() <= u32::MAX,
            y0 + 7 * s <= u32::MAX + 1,
            px@.len() == start.len(),
            forall|x: int, y: int|
                text_covers(t, x0 as int, y0 as int, s as int, x, y) ==> #[trigger] fits(
                    start.len() as int,
                    w as int,
                    x,
                    y,
                ),
            forall|k: int|
                0 <= k < px@.len() ==> #[trigger] px@[k] == if w > 0 && text_covers(
                    t,
                    x0 as int,
                    y0 as int,
                    s as int,
                    col_of(w as int, k),
                    row_of(w as int, k),
                ) && (col_of(w as int, k) - x0) / (6 * s as int) < j {
                    ink_byte(shade, k % 4)
                } else {
                    start[k]
                },
        decreases n - j,
    {
        assert(6 * s * j + 6 * s <= 6 * s * t.len()) by (nonlinear_arith)
            requires
                j < t.len(),
        ;
        let ch = text.get_char(j);
        let g = glyph(ch);
        assert forall|x: int, y: int|
            glyph_covers(g@, cx as int, y0 as int, s as int, x, y) implies #[trigger] fits(
            start.len() as int,
            w as int,
            x,
            y,
        ) by {
            lemma_glyph_in_cell(t, x0 as int, y0 as int, s as int, j as int, x, y);
        }
        let ghost before = px@;
        draw_glyph(px, w, cx, y0, s, &g, shade);
        proof {
            assert forall|k: int| 0 <= k < px@.len() implies #[trigger] px@[k] == if w > 0
                && text_covers(
                t,
                x0 as int,
                y0 as int,
                s as int,
                col_of(w as int, k),
                row_of(w as int, k),
            ) && (col_of(w as int, k) - x0) / (6 * s as int) < j + 1 {
                ink_byte(shade, k % 4)
            } else {
                start[k]
            } by {
                assert(before[k] == if w > 0 && text_covers(
                    t,
                    x0 as int,
                    y0 as int,
                    s as int,
                    col_of(w as int, k),
                    row_of(w as int, k),
                ) && (col_of(w as int, k) - x0) / (6 * s as int) < j {
                    ink_byte(shade, k % 4)
                } else {
                    start[k]
                });
                if w > 0 {
                    lemma_glyph_in_cell(
                        t,
                        x0 as int,
                        y0 as int,
                        s as int,
                        j as int,
                        col_of(w as int, k),
                        row_of(w as int, k),
                    );
                }
            }
        }
        assert(6 * s * (j + 1) == 6 * s * j + 6 * s) by (nonlinear_arith);
        cx += 6 * s;
        j += 1;
    }
}

/// The pixels glyph `j` of `t` lights are the pixels `t` lights in cell `j`.
proof fn lemma_glyph_in_cell(t: Seq<char>, x0: int, y0: int, s: int, j: int, x: int, y: int)
    requires
        0 <= j < t.len(),
        s >= 0,
    ensures
        glyph_covers(glyph_rows(t[j]), x0 + 6 * s * j, y0, s, x, y) <==> (text_covers(
            t,
            x0,
            y0,
            s,
            x,
            y,
        ) && (x - x0) / (6 * s) == j),
{
    if s > 0 {
        let cx = x0 + 6 * s * j;
        assert(j * (6 * s) == 6 * s * j) by (nonlinear_arith);
        lemma_cell(x0, 6 * s, j, x);
        if glyph_covers(glyph_rows(t[j]), cx, y0, s, x, y) {
            let c = (x - cx) / s;
            lemma_cell(cx, s, c, x);
            assert(c * s <= 4 * s) by (nonlinear_arith)
                requires
                    c < 5,
                    s > 0,
            ;
        }
    }
}

/// `a`, but no more than `hi`.
pub open spec fn at_most(a: int, hi: int) -> int {
    if a <= hi {
        a
    } else {
        hi
    }
}

/// Channel `c` of source pixel `(sx, sy)` of an RGBA8 image `sw` wide.
pub open spec fn src_byte(p: Seq<u8>, sw: int, sx: int, sy: int, c: int) -> int {
    p[4 * (sy * sw + sx) + c] as int
}

/// Channel `c` of pixel `(x, y)` of an image `sw` x `sh` shrunk by two: the mean, rounded
/// down, of the 2 x 2 source block at `(2x, 2y)`, its far column and row held to the image.
pub open spec fn shrunk(p: Seq<u8>, sw: int, sh: int, x: int, y: int, c: int) -> u8 {
    let x0 = at_most(2 * x, sw - 1);
    let x1 = at_most(2 * x + 1, sw - 1);
    let y0 = at_most(2 * y, sh - 1);
    let y1 = at_most(2 * y + 1, sh - 1);
    ((src_byte(p, sw, x0, y0, c) + src_byte(p, sw, x1, y0, c) + src_byte(p, sw, x0, y1, c)
        + src_byte(p, sw, x1, y1, c)) / 4) as u8
}

/// A tile can be shrunk into a `tw` x `th` box: every source byte read lies in its pixels
/// at an offset a `u32` counts.
pub open spec fn shrink_ok(t: &Tile, tw: int, th: int) -> bool {
    tw > 0 && th > 0 ==> {
        let sx = at_most(2 * tw - 1, t.width - 1);
        let sy = at_most(2 * th - 1, t.height - 1);
        &&& t.width >= 1
        &&& t.height >= 1
        &&& 4 * (sy * t.width + sx) + 4 <= t.pixels@.len()
        &&& 4 * (sy * t.width + sx) <= u32::MAX
    }
}

/// Read channel `c` of source pixel `(sx, sy)`.
fn src_at(t: &Tile, sx: u32, sy: u32, c: usize, tw: u32, th: u32) -> (v: u32)
    requires
        shrink_ok(t, tw as int, th as int),
        tw > 0 && th > 0,
        sx <= at_most(2 * tw - 1, t.width - 1),
        sy <= at_most(2 * th - 1, t.height - 1),
        c < 4,
    ensures
        v == src_byte(t.pixels@, t.width as int, sx as int, sy as int, c as int),
{
    let ghost sxm = at_most(2 * tw - 1, t.width - 1);
    let ghost sym = at_most(2 * th - 1, t.height - 1);
    assert(4 * (sy * t.width + sx) <= 4 * (sym * t.width + sxm)) by (nonlinear_arith)
        requires
            sx <= sxm,
            sy <= sym,
            t.width >= 1,
    ;
    assert(sy * t.width <= u32::MAX) by (nonlinear_arith)
        requires
            4 * (sy * t.width + sx) <= u32::MAX,
    ;
    let si = ((sy * t.width + sx) * 4) as usize;
    t.pixels[si + c] as u32
}

/// Write the tile, shrunk by two, into the `tw` x `th` box at `(x, y)` of a sheet `w` wide.
fn shrink_into(px: &mut Vec<u8>, w: u32, x: u32, y: u32, t: &Tile, tw: u32, th: u32)
    requires
        x + tw <= w,
        shrink_ok(t, tw as int, th as int),
        2 * tw <= u32::MAX + 1,
        2 * th <= u32::MAX + 1,
        tw > 0 && th > 0 ==> 4 * ((y + th - 1) * w + x + tw) <= old(px)@.len(),
        tw > 0 && th > 0 ==> 4 * ((y + th - 1) * w + x + tw) <= u32::MAX + 4,
    ensures
        final(px)@.len() == old(px)@.len(),
        forall|k: int|
            0 <= k < final(px)@.len() ==> #[trigger] final(px)@[k] == if in_box(
                x as int,
                y as int,
                x + tw,
                y + th,
                col_of(w as int, k),
                row_of(w as int, k),
            ) {
                shrunk(
                    t.pixels@,
                    t.width as int,
                    t.height as int,
                    col_of(w as int, k) - x,
                    row_of(w as int, k) - y,
                    k % 4,
                )
            } else {
                old(px)@[k]
            },
{
    let ghost start = px@;
    let mut py: u32 = 0;
    while py < th
        invariant
            py <= th,
            x + tw <= w,
            shrink_ok(t, tw as int, th as int),
            2 * tw <= u32::MAX + 1,
            2 * th <= u32::MAX + 1,
            tw > 0 && th > 0 ==> 4 * ((y + th - 1) * w + x + tw) <= start.len(),
            tw > 0 && th > 0 ==> 4 * ((y + th - 1) * w + x + tw) <= u32::MAX + 4,
            px@.len() == start.len(),
            forall|k: int|
                0 <= k < px@.len() ==> #[trigger] px@[k] == if in_box(
                    x as int,
                    y as int,
                    x + tw,
                    y + py,
                    col_of(w as int, k),
                    row_of(w as int, k),
                ) {
                    shrunk(
                        t.pixels@,
                        t.width as int,
                        t.height as int,
                        col_of(w as int, k) - x,
                        row_of(w as int, k) - y,
                        k % 4,
                    )
                } else {
                    start[k]
                },
        decreases th - py,
    {
        let mut qx: u32 = 0;
        while qx < tw
            invariant
                qx <= tw,
                py < th,
                x + tw <= w,
                shrink_ok(t, tw as int, th as int),
                2 * tw <= u32::MAX + 1,
                2 * th <= u32::MAX + 1,
                tw > 0 ==> 4 * ((y + th - 1) * w + x + tw) <= start.len(),
                tw > 0 ==> 4 * ((y + th - 1) * w + x + tw) <= u32::MAX + 4,
                px@.len() == start.len(),
                forall|k: int|
                    0 <= k < px@.len() ==> #[trigger] px@[k] == if in_box(
                        x as int,
                        y as int,
                        x + tw,
                        y + py,
                        col_of(w as int, k),
                        row_of(w as int, k),
                    ) || in_box(
                        x as int,
                        y + py,
                        x + qx,
                        y + py + 1,
                        col_of(w as int, k),
                        row_of(w as int, k),
                    ) {
                        shrunk(
                            t.pixels@,
                            t.width as int,
                            t.height as int,
                            col_of(w as int, k) - x,
                            row_of(w as int, k) - y,
                            k % 4,
                        )
                    } else {
                        start[k]
                    },
            decreases tw - qx,
        {
            let x0 = qx * SCALE;
            let x1 = if qx * SCALE + 1 < t.width - 1 { qx * SCALE + 1 } else { t.width - 1 };
            let x0 = if x0 < t.width - 1 { x0 } else { t.width - 1 };
            let y0 = if py * SCALE < t.height - 1 { py * SCALE } else { t.height - 1 };
            let y1 = if py * SCALE + 1 < t.height - 1 { py * SCALE + 1 } else { t.height - 1 };
            let mut ch: [u8; 4] = [0u8; 4];
            let mut c: usize = 0;
            while c < 4
                invariant
                    c <= 4,
                    qx < tw,
                    py < th,
                    shrink_ok(t, tw as int, th as int),
                    x0 == at_most(2 * qx, t.width - 1),
                    x1 == at_most(2 * qx + 1, t.width - 1),
                    y0 == at_most(2 * py, t.height - 1),
                    y1 == at_most(2 * py + 1, t.height - 1),
                    forall|d: int|
                        0 <= d < c ==> #[trigger] ch@[d] == shrunk(
                            t.pixels@,
                            t.width as int,
                            t.height as int,
                            qx as int,
                            py as int,
                            d,
                        ),
                decreases 4 - c,
            {
                let sum = src_at(t, x0, y0, c, tw, th) + src_at(t, x1, y0, c, tw, th) + src_at(
                    t,
                    x0,
                    y1,
                    c,
                    tw,
                    th,
                ) + src_at(t, x1, y1, c, tw, th);
                ch[c] = (sum / (SCALE * SCALE)) as u8;
                c += 1;
            }
            assert(4 * ((y + py) * w + x + qx) + 4 <= 4 * ((y + th - 1) * w + x + tw))
                by (nonlinear_arith)
                requires
                    py <= th - 1,
                    qx < tw,
                    w >= 0,
            ;
            assert(y + py <= (y + th - 1) * w) by (nonlinear_arith)
                requires
                    py <= th - 1,
                    w >= 1,
                    y >= 0,
            ;
            set_px(px, w, x + qx, y + py, ch[0], ch[1], ch[2], ch[3]);
            qx += 1;
        }
        py += 1;
    }
}

/// A pixel `t` lights lies right of `x0` and in the `7 * s` rows from `y0`.
proof fn lemma_text_bounds(t: Seq<char>, x0: int, y0: int, s: int, x: int, y: int)
    requires
        text_covers(t, x0, y0, s, x, y),
    ensures
        x >= x0,
        y0 <= y < y0 + 7 * s,
{
    let r = (y - y0) / s;
    lemma_cell(y0, s, r, y);
    assert(r * s + s <= 7 * s) by (nonlinear_arith)
        requires
            r < 7,
            s > 0,
    ;
}

/// Height of one row of tiles: its label strip and the shrunk captures.
pub open spec fn band(th: int) -> int {
    LABEL_H + th
}

/// Top row of tile `m`'s label strip.
pub open spec fn tile_y(th: int, m: int) -> int {
    GROUP_H + (m / 4) * band(th)
}

/// Pixel `(x, y)` is lit by the label of tile `m`.
pub open spec fn label_lit(tiles: Seq<Tile>, tw: int, th: int, m: int, x: int, y: int) -> bool {
    text_covers(tiles[m].label@, (m % 4) * tw + 4, tile_y(th, m) + 1, 2, x, y)
}

/// Pixel `(x, y)` is lit by the label of one of the tiles of row `r` before tile `i`.
pub open spec fn trail_ink(tiles: Seq<Tile>, tw: int, th: int, r: int, i: nat, x: int, y: int) -> bool
    decreases i,
{
    if i == 0 || i <= 4 * r {
        false
    } else {
        (i - 1 < 4 * r + 4 && label_lit(tiles, tw, th, i - 1, x, y)) || trail_ink(
            tiles,
            tw,
            th,
            r,
            (i - 1) as nat,
            x,
            y,
        )
    }
}

/// Channel `c` of pixel `(x, y)` of a view group once its header and the first `i` tiles
/// are drawn, for tiles shrunk to `tw` x `th`. The header strip carries the view's name;
/// each tile has a label strip over its shrunk capture, four tiles a row; a label that runs
/// past its strip shows until a later strip covers it; the rest is transparent black.
pub open spec fn group_byte(
    name: Seq<char>,
    tiles: Seq<Tile>,
    tw: int,
    th: int,
    i: nat,
    x: int,
    y: int,
    c: int,
) -> u8 {
    if y < GROUP_H {
        if text_covers(name, 8, 6, 2, x, y) {
            ink_byte(0xEE, c)
        } else {
            strip_byte(c)
        }
    } else {
        let r = (y - GROUP_H) / band(th);
        let v = (y - GROUP_H) % band(th);
        let n = 4 * r + x / tw;
        if v < LABEL_H {
            if n < i {
                if label_lit(tiles, tw, th, n, x, y) {
                    ink_byte(0xCC, c)
                } else {
                    strip_byte(c)
                }
            } else if trail_ink(tiles, tw, th, r, i, x, y) {
                ink_byte(0xCC, c)
            } else {
                0
            }
        } else if n < i {
            shrunk(
                tiles[n].pixels@,
                tiles[n].width as int,
                tiles[n].height as int,
                x - (x / tw) * tw,
                v - LABEL_H,
                c,
            )
        } else {
            0
        }
    }
}

/// Drawing tile `i`: its label strip, then its label, then its capture, over the group
/// with the tiles before it.
proof fn lemma_group_step(
    name: Seq<char>,
    tiles: Seq<Tile>,
    tw: int,
    th: int,
    i: nat,
    x: int,
    y: int,
    c: int,
)
    requires
        tw > 0,
        th >= 0,
        0 <= x < 4 * tw,
        0 <= y,
        i < tiles.len(),
    ensures
        group_byte(name, tiles, tw, th, i + 1, x, y, c) == if in_box(
            (i % 4) * tw,
            tile_y(th, i as int) + LABEL_H,
            (i % 4) * tw + tw,
            tile_y(th, i as int) + LABEL_H + th,
            x,
            y,
        ) {
            shrunk(
                tiles[i as int].pixels@,
                tiles[i as int].width as int,
                tiles[i as int].height as int,
                x - (i % 4) * tw,
                y - (tile_y(th, i as int) + LABEL_H),
                c,
            )
        } else if label_lit(tiles, tw, th, i as int, x, y) {
            ink_byte(0xCC, c)
        } else if in_box(
            (i % 4) * tw,
            tile_y(th, i as int),
            (i % 4) * tw + tw,
            tile_y(th, i as int) + LABEL_H,
            x,
            y,
        ) {
            strip_byte(c)
        } else {
            group_byte(name, tiles, tw, th, i, x, y, c)
        },
{
    let ri: int = (i / 4) as int;
    let ci: int = (i % 4) as int;
    let b = band(th);
    let yi = tile_y(th, i as int);
    assert(yi == GROUP_H + ri * b);
    assert(ri >= 0);
    assert(ri * b >= 0) by (nonlinear_arith)
        requires
            ri >= 0,
            b > 0,
    ;
    // The pixel's column.
    lemma_cell(0, tw, ci, x);
    let cx = x / tw;
    lemma_cell(0, tw, cx, x);
    assert(cx < 4) by (nonlinear_arith)
        requires
            cx * tw <= x,
            x < 4 * tw,
            tw > 0,
    ;
    assert(ci * tw == (i % 4) * tw);
    if label_lit(tiles, tw, th, i as int, x, y) {
        lemma_text_bounds(tiles[i as int].label@, ci * tw + 4, yi + 1, 2, x, y);
    }
    let img = in_box(ci * tw, yi + LABEL_H, ci * tw + tw, yi + LABEL_H + th, x, y);
    let lab = in_box(ci * tw, yi, ci * tw + tw, yi + LABEL_H, x, y);
    let lit_i = label_lit(tiles, tw, th, i as int, x, y);
    if y < GROUP_H {
        assert(!img && !lab && !lit_i);
    } else {
        let r = (y - GROUP_H) / b;
        lemma_cell(GROUP_H as int, b, r, y);
        lemma_cell(GROUP_H as int, b, ri, y);
        lemma_fundamental_div_mod(y - GROUP_H, b);
        vstd::arithmetic::div_mod::lemma_mod_pos_bound(y - GROUP_H, b);
        assert(b * r == r * b) by (nonlinear_arith);
        let v = (y - GROUP_H) % b;
        assert(v == y - GROUP_H - r * b);
        let n = 4 * r + cx;
        assert(n / 4 == r && n % 4 == cx) by {
            lemma_fundamental_div_mod_converse(n, 4, r, cx);
        }
        assert(i == 4 * ri + ci) by {
            lemma_fundamental_div_mod(i as int, 4);
        }
        assert((n == i) <==> (r == ri && cx == ci));
        assert(r == ri <==> (yi <= y < yi + b));
        assert(img <==> (r == ri && cx == ci && v >= LABEL_H));
        assert(lab <==> (r == ri && cx == ci && v < LABEL_H));
        assert(lit_i ==> r == ri && v < LABEL_H && x >= ci * tw + 4);
        assert(trail_ink(tiles, tw, th, r, i + 1, x, y) == ((i < 4 * r + 4 && i >= 4 * r
            && lit_i) || trail_ink(tiles, tw, th, r, i, x, y)));
        assert((i >= 4 * r && i < 4 * r + 4) <==> r == ri);
        if v < LABEL_H {
            if n < i {
                assert(!img && !lab);
                if r == ri {
                    assert(cx < ci);
                    assert(x < ci * tw) by (nonlinear_arith)
                        requires
                            x < cx * tw + tw,
                            cx < ci,
                            tw > 0,
                    ;
                }
                assert(!lit_i);
            } else if n == i {
                assert(lab && !img);
            } else {
                assert(!img && !lab);
            }
        } else {
            assert(!lit_i && !lab);
        }
    }
}

/// A pixel inside a sheet `w` x `h` has its bytes inside the sheet's `4 * w * h`.
proof fn lemma_in_sheet(w: int, h: int, x: int, y: int)
    requires
        0 <= x < w,
        0 <= y < h,
    ensures
        4 * (y * w + x) + 4 <= w * h * 4,
        0 <= 4 * (y * w + x),
{
    assert(y * w + x + 1 <= w * h) by (nonlinear_arith)
        requires
            0 <= x < w,
            0 <= y < h,
    ;
    assert(0 <= y * w) by (nonlinear_arith)
        requires
            0 <= y,
            0 <= w,
    ;
}

/// Rows `[y0, y1)` of a sheet `w` x `h`, columns `[x0, x1)`, lie inside its bytes.
proof fn lemma_box_in_sheet(w: int, h: int, x1: int, y1: int)
    requires
        0 < x1 <= w,
        0 < y1 <= h,
    ensures
        4 * ((y1 - 1) * w + x1) <= w * h * 4,
{
    assert((y1 - 1) * w + x1 <= w * h) by (nonlinear_arith)
        requires
            0 < x1 <= w,
            0 < y1 <= h,
    ;
}

/// A sheet with any bytes is at least one pixel wide.
proof fn lemma_nonempty_sheet(w: int, h: int)
    requires
        w >= 0,
        h >= 0,
    ensures
        w * h * 4 > 0 ==> w > 0,
{
    if w == 0 {
        assert(w * h * 4 == 0) by (nonlinear_arith)
            requires
                w == 0,
        ;
    }
}

/// Tile width in the group: half the first capture's.
pub open spec fn group_tw(tiles: Seq<Tile>) -> int {
    tiles[0].width as int / 2
}

/// Tile height in the group: half the first capture's.
pub open spec fn group_th(tiles: Seq<Tile>) -> int {
    tiles[0].height as int / 2
}

/// Width of a view group: four tiles.
pub open spec fn group_w(tiles: Seq<Tile>) -> int {
    4 * group_tw(tiles)
}

/// Height of a view group: the header and one band a row of four tiles.
pub open spec fn group_h(tiles: Seq<Tile>) -> int {
    GROUP_H + ((tiles.len() + 3) / 4) * band(group_th(tiles))
}

/// A view group of `tiles` can be composed: there is a first tile, the sizes and the text
/// positions fit a `u32`, and every capture can be shrunk into a tile.
pub open spec fn group_ok(name: Seq<char>, tiles: Seq<Tile>) -> bool {
    let tw = group_tw(tiles);
    let th = group_th(tiles);
    &&& 1 <= tiles.len() <= u32::MAX
    &&& group_w(tiles) <= u32::MAX
    &&& group_h(tiles) <= u32::MAX
    &&& group_w(tiles) * group_h(tiles) * 4 <= u32::MAX
    &&& 8 + 12 * name.len() <= u32::MAX
    &&& forall|m: int|
        0 <= m < tiles.len() ==> (m % 4) * tw + 4 + 12 * (#[trigger] tiles[m]).label@.len()
            <= u32::MAX && shrink_ok(&tiles[m], tw, th)
}

/// Lay a view's tiles out four a row under a strip with the view's name, each shrunk by
/// two under a strip with its label: `(width, height, RGBA8 pixels)`.
pub fn compose_group(view: &LookView, tiles: &[Tile]) -> (r: (u32, u32, Vec<u8>))
    requires
        group_ok(view.name@, tiles@),
    ensures
        r.0 == group_w(tiles@),
        r.1 == group_h(tiles@),
        r.2@.len() == r.0 * r.1 * 4,
        forall|k: int|
            0 <= k < r.2@.len() ==> #[trigger] r.2@[k] == group_byte(
                view.name@,
                tiles@,
                group_tw(tiles@),
                group_th(tiles@),
                tiles@.len(),
                col_of(r.0 as int, k),
                row_of(r.0 as int, k),
                k % 4,
            ),
{
    let ghost ts = tiles@;
    let ghost name = view.name@;
    let tw = tiles[0].width / SCALE;
    let th = tiles[0].height / SCALE;
    let nt = tiles.len() as u32;
    let rows = nt / COLS + if nt % COLS != 0 { 1 } else { 0 };
    assert(rows == (ts.len() + 3) / 4);
    assert(rows * (LABEL_H + th) <= u32::MAX - GROUP_H);
    let w = COLS * tw;
    let h = GROUP_H + rows * (LABEL_H + th);
    assert(w * h * 4 <= u32::MAX);
    let mut px = vec![0u8; (w * h * 4) as usize];
    let ghost zero = px@;
    proof {
        if w > 0 {
            lemma_box_in_sheet(w as int, h as int, w as int, GROUP_H as int);
        }
    }
    strip_bg(&mut px, w, 0, 0, w, GROUP_H);
    assert forall|x: int, y: int| text_covers(name, 8, 6, 2, x, y) implies #[trigger] fits(
        px@.len() as int,
        w as int,
        x,
        y,
    ) by {
        lemma_text_bounds(name, 8, 6, 2, x, y);
        if x < w {
            lemma_in_sheet(w as int, h as int, x, y);
        }
    }
    draw_text(&mut px, w, 8, (GROUP_H - 14) / 2, view.name, 2, 0xEE);
    proof {
        assert forall|k: int| 0 <= k < px@.len() implies #[trigger] px@[k] == group_byte(
            name,
            ts,
            tw as int,
            th as int,
            0,
            col_of(w as int, k),
            row_of(w as int, k),
            k % 4,
        ) by {
            lemma_nonempty_sheet(w as int, h as int);
            lemma_pixel_bytes(w as int, 0, 0, k);
            let y = row_of(w as int, k);
            if text_covers(name, 8, 6, 2, col_of(w as int, k), y) {
                lemma_text_bounds(name, 8, 6, 2, col_of(w as int, k), y);
            }
            assert(zero[k] == 0);
        }
    }
    let mut n: usize = 0;
    while n < tiles.len()
        invariant
            n <= ts.len(),
            ts == tiles@,
            name == view.name@,
            group_ok(name, ts),
            tw == group_tw(ts),
            th == group_th(ts),
            w == group_w(ts),
            h == group_h(ts),
            rows == (ts.len() + 3) / 4,
            px@.len() == w * h * 4,
            forall|k: int|
                0 <= k < px@.len() ==> #[trigger] px@[k] == group_byte(
                    name,
                    ts,
                    tw as int,
                    th as int,
                    n as nat,
                    col_of(w as int, k),
                    row_of(w as int, k),
                    k % 4,
                ),
        decreases ts.len() - n,
    {
        let t = &tiles[n];
        assert(t == ts[n as int]);
        let col = n as u32 % COLS;
        let row = n as u32 / COLS;
        assert(row < rows);
        assert(col * tw + tw <= w) by (nonlinear_arith)
            requires
                col < 4,
                w == 4 * tw,
        ;
        assert(row * (LABEL_H + th) + (LABEL_H + th) <= rows * (LABEL_H + th)) by (nonlinear_arith)
            requires
                row < rows,
        ;
        let x = col * tw;
        let y = GROUP_H + row * (LABEL_H + th);
        assert(y == tile_y(th as int, n as int));
        assert(x == (n % 4) * tw);
        let ghost s0 = px@;
        proof {
            if tw > 0 {
                lemma_box_in_sheet(w as int, h as int, (x + tw) as int, (y + LABEL_H) as int);
            }
        }
        strip_bg(&mut px, w, x, y, x + tw, y + LABEL_H);
        let ghost s1 = px@;
        assert forall|qx: int, qy: int|
            text_covers(t.label@, (x + 4) as int, (y + 1) as int, 2, qx, qy) implies #[trigger] fits(
            px@.len() as int,
            w as int,
            qx,
            qy,
        ) by {
            lemma_text_bounds(t.label@, (x + 4) as int, (y + 1) as int, 2, qx, qy);
            if qx < w {
                lemma_in_sheet(w as int, h as int, qx, qy);
            }
        }
        draw_text(&mut px, w, x + 4, y + (LABEL_H - 14) / 2, t.label.as_str(), 2, 0xCC);
        let ghost s2 = px@;
        proof {
            if tw > 0 && th > 0 {
                lemma_box_in_sheet(w as int, h as int, (x + tw) as int, (y + LABEL_H + th) as int);
            }
        }
        shrink_into(&mut px, w, x, y + LABEL_H, t, tw, th);
        proof {
            assert forall|k: int| 0 <= k < px@.len() implies #[trigger] px@[k] == group_byte(
                name,
                ts,
                tw as int,
                th as int,
                (n + 1) as nat,
                col_of(w as int, k),
                row_of(w as int, k),
                k % 4,
            ) by {
                lemma_nonempty_sheet(w as int, h as int);
                lemma_pixel_bytes(w as int, 0, 0, k);
                assert(s0[k] == group_byte(
                    name,
                    ts,
                    tw as int,
                    th as int,
                    n as nat,
                    col_of(w as int, k),
                    row_of(w as int, k),
                    k % 4,
                ));
                assert(s1[k] == s1[k]);
                assert(s2[k] == s2[k]);
                lemma_group_step(
                    name,
                    ts,
                    tw as int,
                    th as int,
                    n as nat,
                    col_of(w as int, k),
                    row_of(w as int, k),
                    k % 4,
                );
            }
        }
        n += 1;
    }
    (w, h, px)
}

/// Total height of view groups stacked top to bottom.
pub open spec fn sheet_h(groups: Seq<(u32, u32, Vec<u8>)>) -> int
    decreases groups.len(),
{
    if groups.len() == 0 {
        0
    } else {
        sheet_h(groups.drop_last()) + groups.last().1
    }
}

/// The pixels of view groups stacked top to bottom.
pub open spec fn sheet_px(groups: Seq<(u32, u32, Vec<u8>)>) -> Seq<u8>
    decreases groups.len(),
{
    if groups.len() == 0 {
        Seq::empty()
    } else {
        sheet_px(groups.drop_last()) + groups.last().2@
    }
}

/// View groups can be stacked: there is a first, all share its width, each holds its
/// `width * height` pixels, and the sheet's height and byte count fit a `u32`.
pub open spec fn sheet_ok(groups: Seq<(u32, u32, Vec<u8>)>) -> bool {
    &&& groups.len() >= 1
    &&& forall|i: int|
        0 <= i < groups.len() ==> (#[trigger] groups[i]).0 == groups[0].0 && groups[i].2@.len()
            == groups[i].1 * groups[0].0 * 4
    &&& sheet_h(groups) <= u32::MAX
    &&& groups[0].0 * sheet_h(groups) * 4 <= u32::MAX
}

proof fn lemma_sheet_prefix(groups: Seq<(u32, u32, Vec<u8>)>, i: int)
    requires
        0 <= i < groups.len(),
    ensures
        groups.take(i + 1).drop_last() == groups.take(i),
        groups.take(i + 1).last() == groups[i],
{
    assert(groups.take(i + 1).drop_last() =~= groups.take(i));
}

proof fn lemma_sheet_h_grows(groups: Seq<(u32, u32, Vec<u8>)>, i: int)
    requires
        0 <= i <= groups.len(),
    ensures
        sheet_h(groups.take(i)) <= sheet_h(groups),
        sheet_h(groups.take(i)) >= 0,
    decreases groups.len() - i,
{
    if i < groups.len() {
        lemma_sheet_h_grows(groups, i + 1);
        lemma_sheet_prefix(groups, i);
        lemma_sheet_h_nonneg(groups.take(i));
    } else {
        assert(groups.take(i) =~= groups);
        lemma_sheet_h_nonneg(groups);
    }
}

proof fn lemma_sheet_h_nonneg(groups: Seq<(u32, u32, Vec<u8>)>)
    ensures
        sheet_h(groups) >= 0,
    decreases groups.len(),
{
    if groups.len() > 0 {
        lemma_sheet_h_nonneg(groups.drop_last());
    }
}

/// Stack view groups of one width into one sheet: `(width, height, RGBA8 pixels)`.
pub fn compose_sheet(groups: &[(u32, u32, Vec<u8>)]) -> (r: (u32, u32, Vec<u8>))
    requires
        sheet_ok(groups@),
    ensures
        r.0 == groups@[0].0,
        r.1 == sheet_h(groups@),
        r.2@ == sheet_px(groups@),
{
    let ghost gs = groups@;
    let w = groups[0].0;
    let mut h: u32 = 0;
    let mut px: Vec<u8> = Vec::new();
    let mut i: usize = 0;
    while i < groups.len()
        invariant
            i <= gs.len(),
            gs == groups@,
            sheet_ok(gs),
            w == gs[0].0,
            h == sheet_h(gs.take(i as int)),
            px@ == sheet_px(gs.take(i as int)),
        decreases gs.len() - i,
    {
        let gp = &groups[i].2;
        proof {
            lemma_sheet_prefix(gs, i as int);
            lemma_sheet_h_grows(gs, i + 1);
        }
        let mut j: usize = 0;
        while j < gp.len()
            invariant
                j <= gp@.len(),
                gp@ == gs[i as int].2@,
                px@ == sheet_px(gs.take(i as int)) + gp@.take(j as int),
            decreases gp@.len() - j,
        {
            px.push(gp[j]);
            assert(gp@.take(j + 1) =~= gp@.take(j as int).push(gp@[j as int]));
            j += 1;
        }
        assert(gp@.take(j as int) =~= gp@);
        h = h + groups[i].1;
        i += 1;
    }
    assert(gs.take(gs.len() as int) =~= gs);
    (w, h, px)
}


/// A glyph's seven rows of five bits read as one number, top row first.
pub open spec fn glyph_code(r: Seq<u8>) -> int {
    r[0] * 1073741824 + r[1] * 33554432 + r[2] * 1048576 + r[3] * 32768 + r[4] * 1024 + r[5] * 32 + r[6]
}

/// The character whose glyph reads as `k`.
spec fn char_of_code(k: int) -> char {
    if k == 15621670449 {
        'A'
    } else if k == 32801506878 {
        'B'
    } else if k == 15620129326 {
        'C'
    } else if k == 30687151708 {
        'D'
    } else if k == 33840644639 {
        'E'
    } else if k == 33840644624 {
        'F'
    } else if k == 15620359727 {
        'G'
    } else if k == 18842895921 {
        'H'
    } else if k == 15170932878 {
        'I'
    } else if k == 16140764718 {
        'J'
    } else if k == 18879369809 {
        'K'
    } else if k == 17734058527 {
        'L'
    } else if k == 19182306865 {
        'M'
    } else if k == 19115132465 {
        'N'
    } else if k == 15621211694 {
        'O'
    } else if k == 32801505808 {
        'P'
    } else if k == 15621215821 {
        'Q'
    } else if k == 32801509969 {
        'R'
    } else if k == 16660235326 {
        'S'
    } else if k == 33424543876 {
        'T'
    } else if k == 18842437166 {
        'U'
    } else if k == 18842436932 {
        'V'
    } else if k == 18842572657 {
        'W'
    } else if k == 18834663985 {
        'X'
    } else if k == 18834657412 {
        'Y'
    } else if k == 33321787935 {
        'Z'
    } else if k == 15623448110 {
        '0'
    } else if k == 4701950094 {
        '1'
    } else if k == 15604064799 {
        '2'
    } else if k == 32247317566 {
        '3'
    } else if k == 2359917634 {
        '4'
    } else if k == 33854359086 {
        '5'
    } else if k == 6728664622 {
        '6'
    } else if k == 33321787656 {
        '7'
    } else if k == 15621113390 {
        '8'
    } else if k == 15621129292 {
        '9'
    } else if k == 0 {
        ' '
    } else if k == 1015808 {
        '-'
    } else if k == 396 {
        '.'
    } else if k == 415248768 {
        ':'
    } else if k == 139432064 {
        '+'
    } else {
        '?'
    }
}

/// The font's characters, one by one.
proof fn lemma_font_chars(c: char)
    requires
        in_font(c),
    ensures
        c == 'A' || c == 'B' || c == 'C' || c == 'D' || c == 'E' || c == 'F' || c == 'G' || c == 'H' || c == 'I' || c == 'J' || c == 'K' || c == 'L' || c == 'M' || c == 'N' || c == 'O' || c == 'P' || c == 'Q' || c == 'R' || c == 'S' || c == 'T' || c == 'U' || c == 'V' || c == 'W' || c == 'X' || c == 'Y' || c == 'Z' || c == '0' || c == '1' || c == '2' || c == '3' || c == '4' || c == '5' || c == '6' || c == '7' || c == '8' || c == '9' || c == ' ' || c == '-' || c == '.' || c == ':' || c == '+',
{
}

/// Every glyph of the font can be read back to its character.
proof fn lemma_glyph_reads_back(c: char)
    requires
        in_font(c),
    ensures
        char_of_code(glyph_code(glyph_rows(c))) == c,
{
    lemma_font_chars(c);
        assert(char_of_code(glyph_code(glyph_rows('A'))) == 'A');
        assert(char_of_code(glyph_code(glyph_rows('B'))) == 'B');
        assert(char_of_code(glyph_code(glyph_rows('C'))) == 'C');
        assert(char_of_code(glyph_code(glyph_rows('D'))) == 'D');
        assert(char_of_code(glyph_code(glyph_rows('E'))) == 'E');
        assert(char_of_code(glyph_code(glyph_rows('F'))) == 'F');
        assert(char_of_code(glyph_code(glyph_rows('G'))) == 'G');
        assert(char_of_code(glyph_code(glyph_rows('H'))) == 'H');
        assert(char_of_code(glyph_code(glyph_rows('I'))) == 'I');
        assert(char_of_code(glyph_code(glyph_rows('J'))) == 'J');
        assert(char_of_code(glyph_code(glyph_rows('K'))) == 'K');
        assert(char_of_code(glyph_code(glyph_rows('L'))) == 'L');
        assert(char_of_code(glyph_code(glyph_rows('M'))) == 'M');
        assert(char_of_code(glyph_code(glyph_rows('N'))) == 'N');
        assert(char_of_code(glyph_code(glyph_rows('O'))) == 'O');
        assert(char_of_code(glyph_code(glyph_rows('P'))) == 'P');
        assert(char_of_code(glyph_code(glyph_rows('Q'))) == 'Q');
        assert(char_of_code(glyph_code(glyph_rows('R'))) == 'R');
        assert(char_of_code(glyph_code(glyph_rows('S'))) == 'S');
        assert(char_of_code(glyph_code(glyph_rows('T'))) == 'T');
        assert(char_of_code(glyph_code(glyph_rows('U'))) == 'U');
        assert(char_of_code(glyph_code(glyph_rows('V'))) == 'V');
        assert(char_of_code(glyph_code(glyph_rows('W'))) == 'W');
        assert(char_of_code(glyph_code(glyph_rows('X'))) == 'X');
        assert(char_of_code(glyph_code(glyph_rows('Y'))) == 'Y');
        assert(char_of_code(glyph_code(glyph_rows('Z'))) == 'Z');
        assert(char_of_code(glyph_code(glyph_rows('0'))) == '0');
        assert(char_of_code(glyph_code(glyph_rows('1'))) == '1');
        assert(char_of_code(glyph_code(glyph_rows('2'))) == '2');
        assert(char_of_code(glyph_code(glyph_rows('3'))) == '3');
        assert(char_of_code(glyph_code(glyph_rows('4'))) == '4');
        assert(char_of_code(glyph_code(glyph_rows('5'))) == '5');
        assert(char_of_code(glyph_code(glyph_rows('6'))) == '6');
        assert(char_of_code(glyph_code(glyph_rows('7'))) == '7');
        assert(char_of_code(glyph_code(glyph_rows('8'))) == '8');
        assert(char_of_code(glyph_code(glyph_rows('9'))) == '9');
        assert(char_of_code(glyph_code(glyph_rows(' '))) == ' ');
        assert(char_of_code(glyph_code(glyph_rows('-'))) == '-');
        assert(char_of_code(glyph_code(glyph_rows('.'))) == '.');
        assert(char_of_code(glyph_code(glyph_rows(':'))) == ':');
        assert(char_of_code(glyph_code(glyph_rows('+'))) == '+');
}

/// Distinct characters of the font draw distinct glyphs: no letter, digit or mark of a label
/// can be mistaken for another.
pub proof fn law_font_glyphs_are_distinct(c1: char, c2: char)
    requires
        in_font(c1),
        in_font(c2),
        c1 != c2,
    ensures
        glyph_rows(c1) != glyph_rows(c2),
{
    lemma_glyph_reads_back(c1);
    lemma_glyph_reads_back(c2);
}

/// Every glyph is seven rows of five columns.
pub proof fn law_glyphs_are_five_by_seven(c: char)
    ensures
        glyph_rows(c).len() == 7,
        forall|i: int| 0 <= i < 7 ==> #[trigger] glyph_rows(c)[i] < 32,
{
}
} // verus!
