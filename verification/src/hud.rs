//! Heads-up display: the frame-rate counter, drawn with a 5x7 bitmap font.
use vstd::prelude::*;

use crate::screen::{fits, lemma_fits_within, lemma_paint_agree, lemma_paint_nothing, lemma_paint_twice, painted, put, SCREEN_W};

verus! {

/// Each font pixel covers `SCALE` x `SCALE` screen pixels.
pub const SCALE: usize = 2;

/// Width of a glyph in font pixels.
pub const GLYPH_W: usize = 5;

/// Height of a glyph in font pixels.
pub const GLYPH_H: usize = 7;

/// Horizontal distance in screen pixels from one character to the next.
pub const ADVANCE: usize = 12;

/// The text colour: bright yellow, opaque.
pub open spec fn hud_color() -> Seq<u8> {
    seq![255u8, 220u8, 0u8, 255u8]
}

/// The 5x7 glyph of a character, one byte per row, bit 4 the leftmost
/// pixel; only the digits, `F`, `P`, `S`, `:` and space have one.
pub open spec fn font(c: u8) -> Option<Seq<u8>> {
    if c == 48u8 {
        Some(seq![0b11111u8, 0b10001u8, 0b10001u8, 0b10001u8, 0b10001u8, 0b10001u8, 0b11111u8])
    } else if c == 49u8 {
        Some(seq![0b00100u8, 0b01100u8, 0b00100u8, 0b00100u8, 0b00100u8, 0b00100u8, 0b11111u8])
    } else if c == 50u8 {
        Some(seq![0b11110u8, 0b00001u8, 0b00001u8, 0b11111u8, 0b10000u8, 0b10000u8, 0b11111u8])
    } else if c == 51u8 {
        Some(seq![0b11111u8, 0b00001u8, 0b00001u8, 0b01111u8, 0b00001u8, 0b00001u8, 0b11111u8])
    } else if c == 52u8 {
        Some(seq![0b10001u8, 0b10001u8, 0b10001u8, 0b11111u8, 0b00001u8, 0b00001u8, 0b00001u8])
    } else if c == 53u8 {
        Some(seq![0b11111u8, 0b10000u8, 0b10000u8, 0b11110u8, 0b00001u8, 0b00001u8, 0b11110u8])
    } else if c == 54u8 {
        Some(seq![0b11111u8, 0b10000u8, 0b10000u8, 0b11111u8, 0b10001u8, 0b10001u8, 0b11111u8])
    } else if c == 55u8 {
        Some(seq![0b11111u8, 0b00001u8, 0b00010u8, 0b00100u8, 0b01000u8, 0b01000u8, 0b01000u8])
    } else if c == 56u8 {
        Some(seq![0b11111u8, 0b10001u8, 0b10001u8, 0b11111u8, 0b10001u8, 0b10001u8, 0b11111u8])
    } else if c == 57u8 {
        Some(seq![0b11111u8, 0b10001u8, 0b10001u8, 0b11111u8, 0b00001u8, 0b00001u8, 0b11111u8])
    } else if c == 70u8 {
        Some(seq![0b11111u8, 0b10000u8, 0b10000u8, 0b11110u8, 0b10000u8, 0b10000u8, 0b10000u8])
    } else if c == 80u8 {
        Some(seq![0b11110u8, 0b10001u8, 0b10001u8, 0b11110u8, 0b10000u8, 0b10000u8, 0b10000u8])
    } else if c == 83u8 {
        Some(seq![0b01111u8, 0b10000u8, 0b10000u8, 0b01110u8, 0b00001u8, 0b00001u8, 0b11110u8])
    } else if c == 58u8 {
        Some(seq![0b00000u8, 0b00100u8, 0b00000u8, 0b00000u8, 0b00100u8, 0b00000u8, 0b00000u8])
    } else if c == 32u8 {
        Some(seq![0b00000u8, 0b00000u8, 0b00000u8, 0b00000u8, 0b00000u8, 0b00000u8, 0b00000u8])
    } else {
        None
    }
}

/// The font, glyph by glyph (rows top to bottom, bit 4 leftmost): the ten
/// digits, `F`, `P`, `S`, `:` and a blank space; every other character has no
/// glyph.
pub proof fn lemma_font_table(c: u8)
    ensures
        font(48u8) == Some(seq![0b11111u8, 0b10001u8, 0b10001u8, 0b10001u8, 0b10001u8, 0b10001u8, 0b11111u8]),
        font(49u8) == Some(seq![0b00100u8, 0b01100u8, 0b00100u8, 0b00100u8, 0b00100u8, 0b00100u8, 0b11111u8]),
        font(50u8) == Some(seq![0b11110u8, 0b00001u8, 0b00001u8, 0b11111u8, 0b10000u8, 0b10000u8, 0b11111u8]),
        font(51u8) == Some(seq![0b11111u8, 0b00001u8, 0b00001u8, 0b01111u8, 0b00001u8, 0b00001u8, 0b11111u8]),
        font(52u8) == Some(seq![0b10001u8, 0b10001u8, 0b10001u8, 0b11111u8, 0b00001u8, 0b00001u8, 0b00001u8]),
        font(53u8) == Some(seq![0b11111u8, 0b10000u8, 0b10000u8, 0b11110u8, 0b00001u8, 0b00001u8, 0b11110u8]),
        font(54u8) == Some(seq![0b11111u8, 0b10000u8, 0b10000u8, 0b11111u8, 0b10001u8, 0b10001u8, 0b11111u8]),
        font(55u8) == Some(seq![0b11111u8, 0b00001u8, 0b00010u8, 0b00100u8, 0b01000u8, 0b01000u8, 0b01000u8]),
        font(56u8) == Some(seq![0b11111u8, 0b10001u8, 0b10001u8, 0b11111u8, 0b10001u8, 0b10001u8, 0b11111u8]),
        font(57u8) == Some(seq![0b11111u8, 0b10001u8, 0b10001u8, 0b11111u8, 0b00001u8, 0b00001u8, 0b11111u8]),
        font(70u8) == Some(seq![0b11111u8, 0b10000u8, 0b10000u8, 0b11110u8, 0b10000u8, 0b10000u8, 0b10000u8]),
        font(80u8) == Some(seq![0b11110u8, 0b10001u8, 0b10001u8, 0b11110u8, 0b10000u8, 0b10000u8, 0b10000u8]),
        font(83u8) == Some(seq![0b01111u8, 0b10000u8, 0b10000u8, 0b01110u8, 0b00001u8, 0b00001u8, 0b11110u8]),
        font(58u8) == Some(seq![0b00000u8, 0b00100u8, 0b00000u8, 0b00000u8, 0b00100u8, 0b00000u8, 0b00000u8]),
        font(32u8) == Some(seq![0b00000u8, 0b00000u8, 0b00000u8, 0b00000u8, 0b00000u8, 0b00000u8, 0b00000u8]),
        !(c == 48u8 || c == 49u8 || c == 50u8 || c == 51u8 || c == 52u8 || c == 53u8 || c == 54u8 || c == 55u8 || c == 56u8 || c == 57u8 || c == 70u8 || c == 80u8 || c == 83u8 || c == 58u8 || c == 32u8) ==> font(c) is None,
{
}

/// The glyph of a character, if the font has one.
pub fn glyph(c: u8) -> (g: Option<[u8; 7]>)
    ensures
        match g {
            Some(b) => font(c) == Some(b@),
            None => font(c) is None,
        },
{
    if c == 48u8 {
        let b: [u8; 7] = [0b11111, 0b10001, 0b10001, 0b10001, 0b10001, 0b10001, 0b11111];
        assert(b@ =~= seq![0b11111u8, 0b10001u8, 0b10001u8, 0b10001u8, 0b10001u8, 0b10001u8, 0b11111u8]);
        Some(b)
    } else if c == 49u8 {
        let b: [u8; 7] = [0b00100, 0b01100, 0b00100, 0b00100, 0b00100, 0b00100, 0b11111];
        assert(b@ =~= seq![0b00100u8, 0b01100u8, 0b00100u8, 0b00100u8, 0b00100u8, 0b00100u8, 0b11111u8]);
        Some(b)
    } else if c == 50u8 {
        let b: [u8; 7] = [0b11110, 0b00001, 0b00001, 0b11111, 0b10000, 0b10000, 0b11111];
        assert(b@ =~= seq![0b11110u8, 0b00001u8, 0b00001u8, 0b11111u8, 0b10000u8, 0b10000u8, 0b11111u8]);
        Some(b)
    } else if c == 51u8 {
        let b: [u8; 7] = [0b11111, 0b00001, 0b00001, 0b01111, 0b00001, 0b00001, 0b11111];
        assert(b@ =~= seq![0b11111u8, 0b00001u8, 0b00001u8, 0b01111u8, 0b00001u8, 0b00001u8, 0b11111u8]);
        Some(b)
    } else if c == 52u8 {
        let b: [u8; 7] = [0b10001, 0b10001, 0b10001, 0b11111, 0b00001, 0b00001, 0b00001];
        assert(b@ =~= seq![0b10001u8, 0b10001u8, 0b10001u8, 0b11111u8, 0b00001u8, 0b00001u8, 0b00001u8]);
        Some(b)
    } else if c == 53u8 {
        let b: [u8; 7] = [0b11111, 0b10000, 0b10000, 0b11110, 0b00001, 0b00001, 0b11110];
        assert(b@ =~= seq![0b11111u8, 0b10000u8, 0b10000u8, 0b11110u8, 0b00001u8, 0b00001u8, 0b11110u8]);
        Some(b)
    } else if c == 54u8 {
        let b: [u8; 7] = [0b11111, 0b10000, 0b10000, 0b11111, 0b10001, 0b10001, 0b11111];
        assert(b@ =~= seq![0b11111u8, 0b10000u8, 0b10000u8, 0b11111u8, 0b10001u8, 0b10001u8, 0b11111u8]);
        Some(b)
    } else if c == 55u8 {
        let b: [u8; 7] = [0b11111, 0b00001, 0b00010, 0b00100, 0b01000, 0b01000, 0b01000];
        assert(b@ =~= seq![0b11111u8, 0b00001u8, 0b00010u8, 0b00100u8, 0b01000u8, 0b01000u8, 0b01000u8]);
        Some(b)
    } else if c == 56u8 {
        let b: [u8; 7] = [0b11111, 0b10001, 0b10001, 0b11111, 0b10001, 0b10001, 0b11111];
        assert(b@ =~= seq![0b11111u8, 0b10001u8, 0b10001u8, 0b11111u8, 0b10001u8, 0b10001u8, 0b11111u8]);
        Some(b)
    } else if c == 57u8 {
        let b: [u8; 7] = [0b11111, 0b10001, 0b10001, 0b11111, 0b00001, 0b00001, 0b11111];
        assert(b@ =~= seq![0b11111u8, 0b10001u8, 0b10001u8, 0b11111u8, 0b00001u8, 0b00001u8, 0b11111u8]);
        Some(b)
    } else if c == 70u8 {
        let b: [u8; 7] = [0b11111, 0b10000, 0b10000, 0b11110, 0b10000, 0b10000, 0b10000];
        assert(b@ =~= seq![0b11111u8, 0b10000u8, 0b10000u8, 0b11110u8, 0b10000u8, 0b10000u8, 0b10000u8]);
        Some(b)
    } else if c == 80u8 {
        let b: [u8; 7] = [0b11110, 0b10001, 0b10001, 0b11110, 0b10000, 0b10000, 0b10000];
        assert(b@ =~= seq![0b11110u8, 0b10001u8, 0b10001u8, 0b11110u8, 0b10000u8, 0b10000u8, 0b10000u8]);
        Some(b)
    } else if c == 83u8 {
        let b: [u8; 7] = [0b01111, 0b10000, 0b10000, 0b01110, 0b00001, 0b00001, 0b11110];
        assert(b@ =~= seq![0b01111u8, 0b10000u8, 0b10000u8, 0b01110u8, 0b00001u8, 0b00001u8, 0b11110u8]);
        Some(b)
    } else if c == 58u8 {
        let b: [u8; 7] = [0b00000, 0b00100, 0b00000, 0b00000, 0b00100, 0b00000, 0b00000];
        assert(b@ =~= seq![0b00000u8, 0b00100u8, 0b00000u8, 0b00000u8, 0b00100u8, 0b00000u8, 0b00000u8]);
        Some(b)
    } else if c == 32u8 {
        let b: [u8; 7] = [0b00000, 0b00000, 0b00000, 0b00000, 0b00000, 0b00000, 0b00000];
        assert(b@ =~= seq![0b00000u8, 0b00000u8, 0b00000u8, 0b00000u8, 0b00000u8, 0b00000u8, 0b00000u8]);
        Some(b)
    } else {
        None
    }
}

/// Whether column `col` (0 is leftmost) of a glyph row is lit.
pub open spec fn pixel_on(row: u8, col: int) -> bool {
    ((row >> ((4 - col) as u8)) & 1u8) == 1u8
}

/// Whether screen pixel `(px, py)` is lit by glyph `bitmap` drawn with its
/// top-left corner at `(x0, y0)`.
pub open spec fn glyph_pixel(bitmap: Seq<u8>, x0: int, y0: int, px: int, py: int) -> bool {
    &&& x0 <= px < x0 + 10
    &&& y0 <= py < y0 + 14
    &&& pixel_on(bitmap[(py - y0) / 2], (px - x0) / 2)
}

/// The pixels of a glyph, in the text colour.
pub open spec fn glyph_paint(bitmap: Seq<u8>, x0: int, y0: int) -> spec_fn(int, int) -> Option<Seq<u8>> {
    |px: int, py: int|
        if glyph_pixel(bitmap, x0, y0, px, py) {
            Some(hud_color())
        } else {
            None
        }
}

/// The glyph pixels drawn before row `dy`, column `dx` of the glyph's box.
spec fn glyph_done(bitmap: Seq<u8>, x0: int, y0: int, dy: int, dx: int) -> spec_fn(int, int) -> Option<Seq<u8>> {
    |px: int, py: int|
        if glyph_pixel(bitmap, x0, y0, px, py) && (py - y0 < dy || (py - y0 == dy && px - x0 < dx)) {
            Some(hud_color())
        } else {
            None
        }
}

/// The pixels of `text` drawn left to right from `(x0, y0)`, one character
/// every `ADVANCE` pixels; characters without a glyph leave a gap.
pub open spec fn text_paint(text: Seq<u8>, x0: int, y0: int) -> spec_fn(int, int) -> Option<Seq<u8>> {
    |px: int, py: int|
        if px >= x0 && (px - x0) / 12 < text.len() {
            let i = (px - x0) / 12;
            match font(text[i]) {
                Some(b) => if glyph_pixel(b, x0 + 12 * i, y0, px, py) {
                    Some(hud_color())
                } else {
                    None
                },
                None => None,
            }
        } else {
            None
        }
}

/// The decimal digits of `n`, most significant first.
pub open spec fn decimal(n: nat) -> Seq<u8>
    decreases n,
{
    if n < 10 {
        seq![(48 + n) as u8]
    } else {
        decimal(n / 10).push((48 + n % 10) as u8)
    }
}

/// The counter's text: `"FPS:"` followed by the rate in decimal.
pub open spec fn fps_label(fps: u32) -> Seq<u8> {
    seq![70u8, 80u8, 83u8, 58u8] + decimal(fps as nat)
}

/// Where the counter starts: right-aligned with a 4-pixel margin.
pub open spec fn fps_origin(fps: u32) -> int {
    let w = fps_label(fps).len() * 12 + 4;
    if w < SCREEN_W {
        SCREEN_W - w
    } else {
        0
    }
}

/// Column `col` of a glyph row, counted from the left, is bit `4 - col` of
/// the row: bit 4 is the leftmost column and bit 0 the rightmost.
pub proof fn lemma_pixel_columns(row: u8)
    ensures
        pixel_on(row, 0) == (row / 16 % 2 == 1),
        pixel_on(row, 1) == (row / 8 % 2 == 1),
        pixel_on(row, 2) == (row / 4 % 2 == 1),
        pixel_on(row, 3) == (row / 2 % 2 == 1),
        pixel_on(row, 4) == (row % 2 == 1),
{
    assert(((row >> 4u8) & 1u8 == 1u8) == (row / 16 % 2 == 1)) by (bit_vector);
    assert(((row >> 3u8) & 1u8 == 1u8) == (row / 8 % 2 == 1)) by (bit_vector);
    assert(((row >> 2u8) & 1u8 == 1u8) == (row / 4 % 2 == 1)) by (bit_vector);
    assert(((row >> 1u8) & 1u8 == 1u8) == (row / 2 % 2 == 1)) by (bit_vector);
    assert(((row >> 0u8) & 1u8 == 1u8) == (row % 2 == 1)) by (bit_vector);
}

/// A glyph drawn with its top-left corner at `(x0, y0)` shows each font
/// pixel as a 2x2 square: the square of column `col` of row `r` is painted
/// bright yellow exactly when that font pixel is lit.
pub proof fn lemma_glyph_squares(bitmap: Seq<u8>, x0: int, y0: int, r: int, col: int, a: int, b: int)
    requires
        0 <= r < 7,
        0 <= col < 5,
        0 <= a < 2,
        0 <= b < 2,
    ensures
        glyph_paint(bitmap, x0, y0)(x0 + 2 * col + a, y0 + 2 * r + b) == if pixel_on(bitmap[r], col) {
            Some(seq![255u8, 220u8, 0u8, 255u8])
        } else {
            None
        },
{
    assert((2 * col + a) / 2 == col);
    assert((2 * r + b) / 2 == r);
    assert(hud_color() =~= seq![255u8, 220u8, 0u8, 255u8]);
}

/// A glyph paints nothing outside its 10x14 box.
pub proof fn lemma_glyph_box(bitmap: Seq<u8>, x0: int, y0: int, x: int, y: int)
    ensures
        glyph_paint(bitmap, x0, y0)(x, y) is Some ==> x0 <= x < x0 + 10 && y0 <= y < y0 + 14,
{
}

/// Text is laid out in 12-pixel cells from `x0`: inside the cell of
/// character `i`, the text shows that character's glyph drawn at
/// `(x0 + 12 * i, y0)`, or nothing for a character without a glyph; left of
/// `x0` and past the last cell nothing is drawn.
pub proof fn lemma_text_cells(text: Seq<u8>, x0: int, y0: int, x: int, y: int)
    ensures
        (x < x0 || x >= x0 + 12 * text.len()) ==> text_paint(text, x0, y0)(x, y) is None,
        x0 <= x < x0 + 12 * text.len() ==> {
            let i = (x - x0) / 12;
            &&& x0 + 12 * i <= x < x0 + 12 * i + 12
            &&& text_paint(text, x0, y0)(x, y) == match font(text[i]) {
                Some(g) => glyph_paint(g, x0 + 12 * i, y0)(x, y),
                None => None,
            }
        },
{
    if x >= x0 + 12 * text.len() {
        assert((x - x0) / 12 >= text.len() as int) by (nonlinear_arith)
            requires
                x - x0 >= 12 * text.len(),
        ;
    }
    if x0 <= x < x0 + 12 * text.len() {
        assert((x - x0) / 12 < text.len() as int) by (nonlinear_arith)
            requires
                0 <= x - x0 < 12 * text.len(),
        ;
    }
}

/// The value of a string of decimal digits, most significant first.
pub open spec fn digits_value(s: Seq<u8>) -> int
    decreases s.len(),
{
    if s.len() == 0 {
        0
    } else {
        digits_value(s.drop_last()) * 10 + (s.last() - 48)
    }
}

/// `decimal(n)` is the decimal numeral of `n`: a non-empty string of
/// digits, without leading zeros, whose value is `n`.
pub proof fn lemma_decimal_value(n: nat)
    ensures
        digits_value(decimal(n)) == n,
        decimal(n).len() > 0,
        forall|i: int| 0 <= i < decimal(n).len() ==> 48 <= #[trigger] decimal(n)[i] <= 57,
        n >= 10 ==> decimal(n)[0] != 48,
    decreases n,
{
    if n >= 10 {
        let d = decimal(n);
        let p = decimal(n / 10);
        lemma_decimal_value(n / 10);
        assert(d.drop_last() =~= p);
        assert(d.last() == 48 + n % 10);
        assert(digits_value(d) == digits_value(p) * 10 + n % 10);
        assert((n / 10) * 10 + n % 10 == n);
        assert(d[0] == p[0]);
        assert forall|i: int| 0 <= i < d.len() implies 48 <= #[trigger] d[i] <= 57 by {
            if i < p.len() {
                assert(d[i] == p[i]);
            }
        }
    } else {
        let d = decimal(n);
        assert(d.drop_last() =~= Seq::<u8>::empty());
        assert(digits_value(d.drop_last()) == 0);
        assert(d.last() == 48 + n);
    }
}

/// The counter is right-aligned: its text is `"FPS:"` and the numeral of
/// the rate, and its last 12-pixel cell ends 4 pixels from the right edge
/// of the screen, however many digits the rate has.
pub proof fn lemma_fps_right_aligned(fps: u32)
    ensures
        fps_label(fps) == seq![70u8, 80u8, 83u8, 58u8] + decimal(fps as nat),
        fps_origin(fps) >= 0,
        fps_origin(fps) + 12 * fps_label(fps).len() + 4 == SCREEN_W,
{
    reveal_with_fuel(pow10, 11);
    lemma_decimal_len(fps as nat, 10);
}

/// Ten to the power `k`.
pub open spec fn pow10(k: nat) -> nat
    decreases k,
{
    if k == 0 {
        1
    } else {
        10 * pow10((k - 1) as nat)
    }
}

/// A number below `10^k` has at most `k` digits.
proof fn lemma_decimal_len(n: nat, k: nat)
    requires
        1 <= k,
        n < pow10(k),
    ensures
        1 <= decimal(n).len() <= k,
    decreases n,
{
    if n >= 10 {
        let p = pow10((k - 1) as nat);
        if k == 1 {
            assert(pow10(1) == 10 * pow10(0));
        }
        assert(n / 10 < p) by (nonlinear_arith)
            requires
                n < 10 * p,
        ;
        lemma_decimal_len(n / 10, (k - 1) as nat);
    }
}

/// Appends the decimal digits of `n`.
fn push_decimal(out: &mut Vec<u8>, n: u32)
    ensures
        final(out)@ == old(out)@ + decimal(n as nat),
    decreases n,
{
    if n >= 10 {
        push_decimal(out, n / 10);
    }
    out.push(48u8 + (n % 10) as u8);
    proof {
        if n >= 10 {
            assert(decimal(n as nat) == decimal((n / 10) as nat).push((48 + n % 10) as u8));
        }
    }
}

/// The counter's text for a rate of `fps`: `"FPS:"` and the rate in decimal.
pub fn fps_text(fps: u32) -> (t: Vec<u8>)
    ensures
        t@ == fps_label(fps),
        t@.len() <= 14,
{
    let mut t: Vec<u8> = Vec::new();
    t.push(70u8);
    t.push(80u8);
    t.push(83u8);
    t.push(58u8);
    push_decimal(&mut t, fps);
    proof {
        assert(t@ =~= fps_label(fps));
        reveal_with_fuel(pow10, 11);
        lemma_decimal_len(fps as nat, 10);
    }
    t
}

/// Draws "FPS:NNN" in the top-right corner.
pub fn draw_fps(frame: &mut [u8], fps: u32)
    requires
        fits(old(frame)@.len() as int, text_paint(fps_label(fps), fps_origin(fps), 4)),
    ensures
        final(frame)@ == painted(old(frame)@, text_paint(fps_label(fps), fps_origin(fps), 4)),
{
    let text = fps_text(fps);
    let total_w = text.len() * ADVANCE;
    let x0 = SCREEN_W.saturating_sub(total_w + 4);
    draw_str(frame, text.as_slice(), x0, 4);
}

/// Draws `text` from `(x0, y0)`, one character every `ADVANCE` pixels.
pub fn draw_str(frame: &mut [u8], text: &[u8], x0: usize, y0: usize)
    requires
        fits(old(frame)@.len() as int, text_paint(text@, x0 as int, y0 as int)),
        x0 + 12 * text@.len() <= usize::MAX,
        y0 + 13 <= usize::MAX,
    ensures
        final(frame)@ == painted(old(frame)@, text_paint(text@, x0 as int, y0 as int)),
{
    let ghost start = frame@;
    let mut cx = x0;
    proof {
        lemma_paint_agree(start, |px: int, py: int| None::<Seq<u8>>, text_paint(text@.take(0), x0 as int, y0 as int));
        lemma_paint_nothing(start);
    }
    for i in 0..text.len()
        invariant
            frame@.len() == start.len(),
            fits(start.len() as int, text_paint(text@, x0 as int, y0 as int)),
            x0 + 12 * text@.len() <= usize::MAX,
            y0 + 13 <= usize::MAX,
            cx == x0 + 12 * i,
            frame@ == painted(start, text_paint(text@.take(i as int), x0 as int, y0 as int)),
    {
        let ghost before = frame@;
        let ghost done = text_paint(text@.take(i as int), x0 as int, y0 as int);
        let ghost next = text_paint(text@.take(i + 1), x0 as int, y0 as int);
        match glyph(text[i]) {
            Some(bitmap) => {
                proof {
                    let whole = text_paint(text@, x0 as int, y0 as int);
                    assert forall|x: int, y: int|
                        0 <= x < SCREEN_W && 0 <= y < crate::screen::SCREEN_H && (#[trigger] glyph_paint(
                            bitmap@,
                            cx as int,
                            y0 as int,
                        )(x, y)) is Some implies whole(x, y) is Some by {
                        assert((x - x0) / 12 == i);
                    }
                    lemma_fits_within(start.len() as int, glyph_paint(bitmap@, cx as int, y0 as int), whole);
                }
                draw_glyph(frame, &bitmap, cx, y0);
                proof {
                    let g = glyph_paint(bitmap@, cx as int, y0 as int);
                    lemma_paint_twice(start, done, g);
                    assert forall|px: int, py: int| 0 <= px < SCREEN_W && 0 <= py < crate::screen::SCREEN_H implies #[trigger] next(px, py) == (|x: int, y: int| if g(x, y) is Some { g(x, y) } else { done(x, y) })(px, py) by {
                        if px >= x0 && (px - x0) / 12 < i + 1 {
                            let k = (px - x0) / 12;
                            assert(text@.take(i + 1)[k] == text@[k]);
                            if k < i {
                                assert(text@.take(i as int)[k] == text@[k]);
                            }
                        }
                    }
                    lemma_paint_agree(start, (|x: int, y: int| if g(x, y) is Some { g(x, y) } else { done(x, y) }), next);
                }
            },
            None => {
                proof {
                    assert forall|px: int, py: int| 0 <= px < SCREEN_W && 0 <= py < crate::screen::SCREEN_H implies #[trigger] next(px, py) == done(px, py) by {
                        if px >= x0 && (px - x0) / 12 < i + 1 {
                            let k = (px - x0) / 12;
                            assert(text@.take(i + 1)[k] == text@[k]);
                            if k < i {
                                assert(text@.take(i as int)[k] == text@[k]);
                            }
                        }
                    }
                    lemma_paint_agree(start, done, next);
                }
            },
        }
        cx = cx + ADVANCE;
    }
    assert(text@.take(text@.len() as int) =~= text@);
}

/// Draws glyph `bitmap` with its top-left corner at `(x0, y0)`, each font
/// pixel as a `SCALE` x `SCALE` square; pixels off the screen are skipped.
pub fn draw_glyph(frame: &mut [u8], bitmap: &[u8; 7], x0: usize, y0: usize)
    requires
        fits(old(frame)@.len() as int, glyph_paint(bitmap@, x0 as int, y0 as int)),
        x0 + 9 <= usize::MAX,
        y0 + 13 <= usize::MAX,
    ensures
        final(frame)@ == painted(old(frame)@, glyph_paint(bitmap@, x0 as int, y0 as int)),
{
    let ghost start = frame@;
    let ghost b = bitmap@;
    let color: [u8; 4] = [255, 220, 0, 255];
    assert(color@ =~= hud_color());
    proof {
        lemma_paint_agree(start, |px: int, py: int| None::<Seq<u8>>, glyph_done(b, x0 as int, y0 as int, 0, 0));
        lemma_paint_nothing(start);
    }
    for dy in 0..GLYPH_H * SCALE
        invariant
            frame@.len() == start.len(),
            fits(start.len() as int, glyph_paint(b, x0 as int, y0 as int)),
            b == bitmap@,
            x0 + 9 <= usize::MAX,
            y0 + 13 <= usize::MAX,
            color@ == hud_color(),
            frame@ == painted(start, glyph_done(b, x0 as int, y0 as int, dy as int, 0)),
    {
        for dx in 0..GLYPH_W * SCALE
            invariant
                frame@.len() == start.len(),
                fits(start.len() as int, glyph_paint(b, x0 as int, y0 as int)),
                b == bitmap@,
                x0 + 9 <= usize::MAX,
                y0 + 13 <= usize::MAX,
                dy < 14,
                color@ == hud_color(),
                frame@ == painted(start, glyph_done(b, x0 as int, y0 as int, dy as int, dx as int)),
        {
            let ghost done = glyph_done(b, x0 as int, y0 as int, dy as int, dx as int);
            let ghost next = glyph_done(b, x0 as int, y0 as int, dy as int, dx + 1);
            let row = dy / SCALE;
            let col = dx / SCALE;
            if (bitmap[row] >> ((GLYPH_W - 1 - col) as u8)) & 1 == 1 {
                let px = x0 + dx;
                let py = y0 + dy;
                assert((py - y0) / 2 == row && (px - x0) / 2 == col);
                assert(glyph_paint(b, x0 as int, y0 as int)(px as int, py as int) is Some);
                put(frame, px, py, color);
                proof {
                    let g = |x: int, y: int| if x == px && y == py { Some(color@) } else { None };
                    lemma_paint_twice(start, done, g);
                    assert forall|x: int, y: int| 0 <= x < SCREEN_W && 0 <= y < crate::screen::SCREEN_H implies #[trigger] next(x, y) == (|x: int, y: int| if g(x, y) is Some { g(x, y) } else { done(x, y) })(x, y) by {
                        if x == px && y == py {
                            assert((y - y0) / 2 == row && (x - x0) / 2 == col);
                        }
                    }
                    lemma_paint_agree(start, (|x: int, y: int| if g(x, y) is Some { g(x, y) } else { done(x, y) }), next);
                }
            } else {
                proof {
                    assert forall|x: int, y: int| 0 <= x < SCREEN_W && 0 <= y < crate::screen::SCREEN_H implies #[trigger] next(x, y) == done(x, y) by {
                        if x == x0 + dx && y == y0 + dy {
                            assert((y - y0) / 2 == row && (x - x0) / 2 == col);
                        }
                    }
                    lemma_paint_agree(start, done, next);
                }
            }
        }
        proof {
            lemma_paint_agree(start, glyph_done(b, x0 as int, y0 as int, dy as int, 10), glyph_done(b, x0 as int, y0 as int, dy + 1, 0));
        }
    }
    proof {
        lemma_paint_agree(start, glyph_done(b, x0 as int, y0 as int, 14, 0), glyph_paint(b, x0 as int, y0 as int));
    }
}

} // verus!
