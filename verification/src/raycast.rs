//! The integer side of the raycaster: the screen span of a wall column or a
//! sprite, and the passes that write the frame. The ray casting itself is
//! floating point and is done by the caller.
use vstd::prelude::*;

use crate::screen::{fits, lemma_paint_agree, lemma_paint_nothing, lemma_paint_twice, painted, put, FRAME_LEN, SCREEN_H, SCREEN_W};

verus! {

/// Colour above the walls.
pub open spec fn ceiling_color() -> Seq<u8> {
    seq![20u8, 20u8, 40u8, 255u8]
}

/// Colour below the walls.
pub open spec fn floor_color() -> Seq<u8> {
    seq![45u8, 30u8, 15u8, 255u8]
}

/// Colour of other players.
pub open spec fn sprite_color() -> Seq<u8> {
    seq![220u8, 70u8, 70u8, 255u8]
}

/// Integer division rounding toward zero, as machine division does.
pub open spec fn div_trunc(a: int, b: int) -> int {
    if a >= 0 {
        a / b
    } else {
        -((-a) / b)
    }
}

/// The larger of two integers.
pub open spec fn max_int(a: int, b: int) -> int {
    if a >= b {
        a
    } else {
        b
    }
}

/// The smaller of two integers.
pub open spec fn min_int(a: int, b: int) -> int {
    if a <= b {
        a
    } else {
        b
    }
}

/// The rows `[start, end)` covered by something `h` pixels tall centred
/// vertically, clamped to the screen.
pub fn column_span(h: i32) -> (span: (usize, usize))
    requires
        -2147483167 <= h <= 2147483167,
    ensures
        span.0 == max_int(div_trunc(SCREEN_H - h, 2), 0),
        span.1 == min_int(div_trunc(SCREEN_H + h, 2), SCREEN_H as int) as usize,
        0 <= h <= SCREEN_H ==> span.0 <= span.1 && span.1 - span.0 <= h <= span.1 - span.0 + 1
            && span.0 + span.1 <= SCREEN_H <= span.0 + span.1 + 1,
        h >= SCREEN_H ==> span.0 == 0 && span.1 == SCREEN_H,
{
    let hh = SCREEN_H as i32;
    let top = (hh - h) / 2;
    let bottom = (hh + h) / 2;
    let start = if top > 0 {
        top
    } else {
        0
    };
    let end = if bottom < hh {
        bottom
    } else {
        hh
    };
    (start as usize, end as usize)
}

/// The screen columns `[start, end)` of a sprite `h` pixels wide centred on
/// column `screen_x`, clamped to the screen.
pub fn sprite_columns(screen_x: i32, h: i32) -> (span: (usize, usize))
    requires
        i32::MIN <= screen_x - div_trunc(h as int, 2) <= i32::MAX,
        i32::MIN <= screen_x + div_trunc(h as int, 2) <= i32::MAX,
    ensures
        span.0 == max_int(screen_x - div_trunc(h as int, 2), 0),
        span.1 == max_int(min_int(screen_x + div_trunc(h as int, 2), SCREEN_W as int), 0),
        h >= 0 && 0 <= screen_x - h / 2 && screen_x + h / 2 <= SCREEN_W ==> span.0 + span.1 == 2
            * screen_x && span.1 - span.0 == h - h % 2,
        span.0 >= 0 && span.1 <= SCREEN_W,
{
    let half = h / 2;
    let left = screen_x - half;
    let right = screen_x + half;
    let start = if left > 0 {
        left
    } else {
        0
    };
    let ww = SCREEN_W as i32;
    let end = if right < 0 {
        0
    } else if right > ww {
        ww
    } else {
        right
    };
    (start as usize, end as usize)
}

/// The colour of pixel `(x, y)` of the wall view: ceiling above column `x`'s
/// span, its wall colour inside it, floor below.
pub open spec fn column_color(starts: Seq<usize>, ends: Seq<usize>, colors: Seq<[u8; 4]>, x: int, y: int) -> Seq<u8> {
    if y < starts[x] {
        ceiling_color()
    } else if y < ends[x] {
        colors[x]@
    } else {
        floor_color()
    }
}

/// The wall view is dark blue above each column's wall, the column's own
/// colour on its wall rows, and brown below.
pub proof fn lemma_column_colors(starts: Seq<usize>, ends: Seq<usize>, colors: Seq<[u8; 4]>, x: int, y: int)
    ensures
        y < starts[x] ==> column_color(starts, ends, colors, x, y) == seq![20u8, 20u8, 40u8, 255u8],
        starts[x] <= y < ends[x] ==> column_color(starts, ends, colors, x, y) == colors[x]@,
        y >= starts[x] && y >= ends[x] ==> column_color(starts, ends, colors, x, y) == seq![
            45u8,
            30u8,
            15u8,
            255u8,
        ],
{
    assert(ceiling_color() =~= seq![20u8, 20u8, 40u8, 255u8]);
    assert(floor_color() =~= seq![45u8, 30u8, 15u8, 255u8]);
}

/// A sprite paints its drawable columns, in red, over its rows, and nothing
/// else.
pub proof fn lemma_sprite_pixels(x0: int, x1: int, y0: int, y1: int, drawable: Seq<bool>, x: int, y: int)
    ensures
        sprite_paint(x0, x1, y0, y1, drawable)(x, y) == if x0 <= x < x1 && y0 <= y < y1 && drawable[x] {
            Some(seq![220u8, 70u8, 70u8, 255u8])
        } else {
            None
        },
{
    assert(sprite_color() =~= seq![220u8, 70u8, 70u8, 255u8]);
}

/// The wall-view pixels written before row `y`, column `x`.
spec fn view_done(starts: Seq<usize>, ends: Seq<usize>, colors: Seq<[u8; 4]>, row: int, col: int) -> spec_fn(int, int) -> Option<Seq<u8>> {
    |x: int, y: int|
        if y < row || (y == row && x < col) {
            Some(column_color(starts, ends, colors, x, y))
        } else {
            None
        }
}

/// Writes every pixel of the screen row by row: ceiling, the column's wall
/// colour between its start and end rows, then floor.
pub fn fill_columns(frame: &mut [u8], starts: &[usize], ends: &[usize], colors: &[[u8; 4]])
    requires
        old(frame)@.len() >= FRAME_LEN,
        starts@.len() >= SCREEN_W,
        ends@.len() >= SCREEN_W,
        colors@.len() >= SCREEN_W,
    ensures
        final(frame)@ == painted(
            old(frame)@,
            |x: int, y: int| Some(column_color(starts@, ends@, colors@, x, y)),
        ),
{
    let ghost start = frame@;
    let ceiling: [u8; 4] = [20, 20, 40, 255];
    let floor: [u8; 4] = [45, 30, 15, 255];
    assert(ceiling@ =~= ceiling_color() && floor@ =~= floor_color());
    proof {
        lemma_paint_agree(start, |x: int, y: int| None::<Seq<u8>>, view_done(starts@, ends@, colors@, 0, 0));
        lemma_paint_nothing(start);
    }
    for y in 0..SCREEN_H
        invariant
            frame@.len() == start.len(),
            start.len() >= FRAME_LEN,
            starts@.len() >= SCREEN_W,
            ends@.len() >= SCREEN_W,
            colors@.len() >= SCREEN_W,
            ceiling@ == ceiling_color(),
            floor@ == floor_color(),
            frame@ == painted(start, view_done(starts@, ends@, colors@, y as int, 0)),
    {
        for x in 0..SCREEN_W
            invariant
                frame@.len() == start.len(),
                start.len() >= FRAME_LEN,
                starts@.len() >= SCREEN_W,
                ends@.len() >= SCREEN_W,
                colors@.len() >= SCREEN_W,
                y < SCREEN_H,
                ceiling@ == ceiling_color(),
                floor@ == floor_color(),
                frame@ == painted(start, view_done(starts@, ends@, colors@, y as int, x as int)),
        {
            let ghost done = view_done(starts@, ends@, colors@, y as int, x as int);
            let ghost next = view_done(starts@, ends@, colors@, y as int, x + 1);
            let color = if y < starts[x] {
                ceiling
            } else if y < ends[x] {
                colors[x]
            } else {
                floor
            };
            assert(color@ == column_color(starts@, ends@, colors@, x as int, y as int));
            put(frame, x, y, color);
            proof {
                let g = |a: int, b: int| if a == x && b == y { Some(color@) } else { None };
                lemma_paint_twice(start, done, g);
                lemma_paint_agree(start, (|a: int, b: int| if g(a, b) is Some { g(a, b) } else { done(a, b) }), next);
            }
        }
        proof {
            lemma_paint_agree(start, view_done(starts@, ends@, colors@, y as int, SCREEN_W as int), view_done(starts@, ends@, colors@, y + 1, 0));
        }
    }
    proof {
        lemma_paint_agree(start, view_done(starts@, ends@, colors@, SCREEN_H as int, 0), |x: int, y: int| Some(column_color(starts@, ends@, colors@, x, y)));
    }
}

/// The pixels of a sprite: rows `[y0, y1)` of every column in `[x0, x1)`
/// marked drawable.
pub open spec fn sprite_paint(x0: int, x1: int, y0: int, y1: int, drawable: Seq<bool>) -> spec_fn(int, int) -> Option<Seq<u8>> {
    |x: int, y: int|
        if x0 <= x < x1 && y0 <= y < y1 && drawable[x] {
            Some(sprite_color())
        } else {
            None
        }
}

/// The sprite pixels written before row `row`, column `col`.
spec fn sprite_done(x0: int, x1: int, y0: int, y1: int, drawable: Seq<bool>, row: int, col: int) -> spec_fn(int, int) -> Option<Seq<u8>> {
    |x: int, y: int|
        if x0 <= x < x1 && y0 <= y < y1 && drawable[x] && (y < row || (y == row && x < col)) {
            Some(sprite_color())
        } else {
            None
        }
}

/// Writes a sprite row by row: every column in `[x0, x1)` marked drawable,
/// over rows `[y0, y1)`.
pub fn draw_sprite(frame: &mut [u8], x0: usize, x1: usize, y0: usize, y1: usize, drawable: &[bool])
    requires
        fits(old(frame)@.len() as int, sprite_paint(x0 as int, x1 as int, y0 as int, y1 as int, drawable@)),
        drawable@.len() >= SCREEN_W,
        x1 <= SCREEN_W,
        y1 <= SCREEN_H,
    ensures
        final(frame)@ == painted(old(frame)@, sprite_paint(x0 as int, x1 as int, y0 as int, y1 as int, drawable@)),
{
    let ghost start = frame@;
    let ghost d = drawable@;
    let color: [u8; 4] = [220, 70, 70, 255];
    assert(color@ =~= sprite_color());
    proof {
        lemma_paint_agree(start, |x: int, y: int| None::<Seq<u8>>, sprite_done(x0 as int, x1 as int, y0 as int, y1 as int, d, y0 as int, 0));
        lemma_paint_nothing(start);
    }
    let mut y = y0;
    while y < y1
        invariant
            y0 <= y,
            y0 < y1 ==> y <= y1,
            frame@.len() == start.len(),
            fits(start.len() as int, sprite_paint(x0 as int, x1 as int, y0 as int, y1 as int, d)),
            d == drawable@,
            d.len() >= SCREEN_W,
            x1 <= SCREEN_W,
            y1 <= SCREEN_H,
            color@ == sprite_color(),
            frame@ == painted(start, sprite_done(x0 as int, x1 as int, y0 as int, y1 as int, d, y as int, 0)),
        decreases y1 - y,
    {
        let mut x = x0;
        while x < x1
            invariant
                x0 <= x,
                x0 < x1 ==> x <= x1,
                frame@.len() == start.len(),
                fits(start.len() as int, sprite_paint(x0 as int, x1 as int, y0 as int, y1 as int, d)),
                d == drawable@,
                d.len() >= SCREEN_W,
                x1 <= SCREEN_W,
                y1 <= SCREEN_H,
                y0 <= y < y1,
                color@ == sprite_color(),
                frame@ == painted(start, sprite_done(x0 as int, x1 as int, y0 as int, y1 as int, d, y as int, x as int)),
            decreases x1 - x,
        {
            let ghost done = sprite_done(x0 as int, x1 as int, y0 as int, y1 as int, d, y as int, x as int);
            let ghost next = sprite_done(x0 as int, x1 as int, y0 as int, y1 as int, d, y as int, x + 1);
            if drawable[x] {
                assert(sprite_paint(x0 as int, x1 as int, y0 as int, y1 as int, d)(x as int, y as int) is Some);
                put(frame, x, y, color);
                proof {
                    let g = |a: int, b: int| if a == x && b == y { Some(color@) } else { None };
                    lemma_paint_twice(start, done, g);
                    lemma_paint_agree(start, (|a: int, b: int| if g(a, b) is Some { g(a, b) } else { done(a, b) }), next);
                }
            } else {
                proof {
                    lemma_paint_agree(start, done, next);
                }
            }
            x = x + 1;
        }
        proof {
            lemma_paint_agree(
                start,
                sprite_done(x0 as int, x1 as int, y0 as int, y1 as int, d, y as int, if x0 <= x1 { x1 as int } else { x0 as int }),
                sprite_done(x0 as int, x1 as int, y0 as int, y1 as int, d, y + 1, 0),
            );
        }
        y = y + 1;
    }
    proof {
        lemma_paint_agree(
            start,
            sprite_done(x0 as int, x1 as int, y0 as int, y1 as int, d, if y0 <= y1 { y1 as int } else { y0 as int }, 0),
            sprite_paint(x0 as int, x1 as int, y0 as int, y1 as int, d),
        );
    }
}

} // verus!
