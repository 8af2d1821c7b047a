//! The overhead map in the top-left corner: one 4x4 block per tile, and a
//! 3x3 dot per player.
use vstd::prelude::*;

use crate::map::MazeMap;
use crate::screen::{fits, lemma_fits_within, lemma_paint_agree, lemma_paint_nothing, lemma_paint_twice, painted, put, SCREEN_H, SCREEN_W};

verus! {

/// Screen pixels per map tile, in each direction.
pub const TILE_PX: usize = 4;

/// Offset of the map from the top-left corner of the screen.
pub const MARGIN: usize = 4;

/// Side of a player's dot.
pub const DOT: usize = 3;

/// Colour of a wall tile.
pub open spec fn wall_color() -> Seq<u8> {
    seq![180u8, 180u8, 180u8, 255u8]
}

/// Colour of a floor tile.
pub open spec fn floor_color() -> Seq<u8> {
    seq![35u8, 35u8, 35u8, 255u8]
}

/// The colour of the tile at `(tx, ty)`: walls light, floor dark. The tile
/// coordinates reach the wall query as 32-bit integers.
pub open spec fn tile_color(map: MazeMap, tx: int, ty: int) -> Seq<u8> {
    if map.blocked((tx as i32) as int, (ty as i32) as int) {
        wall_color()
    } else {
        floor_color()
    }
}

/// The pixels of the map's tiles: pixel `(px, py)` at or after the margin
/// belongs to tile `((px - 4) / 4, (py - 4) / 4)` when that tile is on the map.
pub open spec fn tiles_paint(map: MazeMap) -> spec_fn(int, int) -> Option<Seq<u8>> {
    |px: int, py: int|
        if px >= 4 && py >= 4 && (px - 4) / 4 < map.width && (py - 4) / 4 < map.height {
            Some(tile_color(map, (px - 4) / 4, (py - 4) / 4))
        } else {
            None
        }
}

/// The pixels of the block of tile `(tx, ty)`, in `color`.
pub open spec fn block_paint(tx: int, ty: int, color: Seq<u8>) -> spec_fn(int, int) -> Option<Seq<u8>> {
    |px: int, py: int|
        if px >= 4 && py >= 4 && (px - 4) / 4 == tx && (py - 4) / 4 == ty {
            Some(color)
        } else {
            None
        }
}

/// The minimap shows tile `(tx, ty)` (column `tx`, row `ty` of the map) as
/// the 4x4 block whose top-left pixel is `(4 + 4 * tx, 4 + 4 * ty)`: light
/// grey when the map blocks that tile, dark grey when it is floor.
pub proof fn lemma_tile_block(map: MazeMap, tx: int, ty: int, a: int, b: int)
    requires
        0 <= tx < map.width,
        0 <= ty < map.height,
        tx <= i32::MAX,
        ty <= i32::MAX,
        0 <= a < 4,
        0 <= b < 4,
    ensures
        tiles_paint(map)(4 + 4 * tx + a, 4 + 4 * ty + b) == Some(
            if map.tile(tx, ty) != crate::map::FLOOR {
                seq![180u8, 180u8, 180u8, 255u8]
            } else {
                seq![35u8, 35u8, 35u8, 255u8]
            },
        ),
        tiles_paint(map)(4 + 4 * tx + a, 4 + 4 * ty + b) == Some(
            if map.blocked(tx, ty) {
                wall_color()
            } else {
                floor_color()
            },
        ),
{
    assert((4 * tx + a) / 4 == tx);
    assert((4 * ty + b) / 4 == ty);
    assert(wall_color() =~= seq![180u8, 180u8, 180u8, 255u8]);
    assert(floor_color() =~= seq![35u8, 35u8, 35u8, 255u8]);
}

/// The tiles paint nothing outside the map's blocks.
pub proof fn lemma_tiles_extent(map: MazeMap, x: int, y: int)
    ensures
        tiles_paint(map)(x, y) is Some ==> 4 <= x < 4 + 4 * map.width && 4 <= y < 4 + 4 * map.height,
{
}

/// The block pixels drawn before row `dy`, column `dx` of the block.
spec fn block_done(tx: int, ty: int, color: Seq<u8>, dy: int, dx: int) -> spec_fn(int, int) -> Option<Seq<u8>> {
    |px: int, py: int|
        if px >= 4 && py >= 4 && (px - 4) / 4 == tx && (py - 4) / 4 == ty && ((py - 4) % 4 < dy || (
        (py - 4) % 4 == dy && (px - 4) % 4 < dx)) {
            Some(color)
        } else {
            None
        }
}

/// The tile pixels drawn before tile `(tx, ty)`, going row by row.
spec fn tiles_done(map: MazeMap, ty: int, tx: int) -> spec_fn(int, int) -> Option<Seq<u8>> {
    |px: int, py: int|
        if px >= 4 && py >= 4 && (px - 4) / 4 < map.width && (py - 4) / 4 < map.height && ((py - 4) / 4
            < ty || ((py - 4) / 4 == ty && (px - 4) / 4 < tx)) {
            Some(tile_color(map, (px - 4) / 4, (py - 4) / 4))
        } else {
            None
        }
}

/// The pixels of a dot centred on `(cx, cy)` (its corner clamped at zero).
pub open spec fn dot_paint(cx: int, cy: int, color: Seq<u8>) -> spec_fn(int, int) -> Option<Seq<u8>> {
    |px: int, py: int|
        {
            let x0 = if cx >= 1 {
                cx - 1
            } else {
                0
            };
            let y0 = if cy >= 1 {
                cy - 1
            } else {
                0
            };
            if x0 <= px < x0 + 3 && y0 <= py < y0 + 3 {
                Some(color)
            } else {
                None
            }
        }
}

/// A player's dot is the 3x3 square centred on `(cx, cy)`, in the player's
/// colour; at the top and left edges it is moved to start at zero, so it
/// always covers its centre.
pub proof fn lemma_dot_square(cx: int, cy: int, color: Seq<u8>, x: int, y: int)
    requires
        0 <= cx,
        0 <= cy,
    ensures
        cx >= 1 && cy >= 1 ==> dot_paint(cx, cy, color)(x, y) == if cx - 1 <= x <= cx + 1 && cy - 1 <= y
            <= cy + 1 {
            Some(color)
        } else {
            None
        },
        cx == 0 ==> (dot_paint(cx, cy, color)(x, y) is Some ==> 0 <= x <= 2),
        cy == 0 ==> (dot_paint(cx, cy, color)(x, y) is Some ==> 0 <= y <= 2),
        dot_paint(cx, cy, color)(cx, cy) == Some(color),
{
}

/// Fills the 4x4 block of tile `(tx, ty)` with `color`.
fn fill_tile(frame: &mut [u8], tx: usize, ty: usize, color: [u8; 4])
    requires
        fits(old(frame)@.len() as int, block_paint(tx as int, ty as int, color@)),
        4 + 4 * tx + 3 <= usize::MAX,
        4 + 4 * ty + 3 <= usize::MAX,
    ensures
        final(frame)@ == painted(old(frame)@, block_paint(tx as int, ty as int, color@)),
{
    let ghost start = frame@;
    let ghost c = color@;
    proof {
        lemma_paint_agree(start, |px: int, py: int| None::<Seq<u8>>, block_done(tx as int, ty as int, c, 0, 0));
        lemma_paint_nothing(start);
    }
    for dy in 0..TILE_PX
        invariant
            frame@.len() == start.len(),
            fits(start.len() as int, block_paint(tx as int, ty as int, c)),
            c == color@,
            4 + 4 * tx + 3 <= usize::MAX,
            4 + 4 * ty + 3 <= usize::MAX,
            frame@ == painted(start, block_done(tx as int, ty as int, c, dy as int, 0)),
    {
        for dx in 0..TILE_PX
            invariant
                frame@.len() == start.len(),
                fits(start.len() as int, block_paint(tx as int, ty as int, c)),
                c == color@,
                4 + 4 * tx + 3 <= usize::MAX,
                4 + 4 * ty + 3 <= usize::MAX,
                dy < 4,
                frame@ == painted(start, block_done(tx as int, ty as int, c, dy as int, dx as int)),
        {
            let ghost done = block_done(tx as int, ty as int, c, dy as int, dx as int);
            let ghost next = block_done(tx as int, ty as int, c, dy as int, dx + 1);
            let px = MARGIN + tx * TILE_PX + dx;
            let py = MARGIN + ty * TILE_PX + dy;
            assert((px - 4) / 4 == tx && (py - 4) / 4 == ty);
            assert(block_paint(tx as int, ty as int, c)(px as int, py as int) is Some);
            put(frame, px, py, color);
            proof {
                let g = |x: int, y: int| if x == px && y == py { Some(c) } else { None };
                lemma_paint_twice(start, done, g);
                assert forall|x: int, y: int| 0 <= x < SCREEN_W && 0 <= y < SCREEN_H implies #[trigger] next(x, y) == (|x: int, y: int| if g(x, y) is Some { g(x, y) } else { done(x, y) })(x, y) by {
                    if x == px && y == py {
                        assert((x - 4) / 4 == tx && (x - 4) % 4 == dx);
                        assert((y - 4) / 4 == ty && (y - 4) % 4 == dy);
                    }
                    if x >= 4 && y >= 4 && (x - 4) / 4 == tx && (y - 4) / 4 == ty && (y - 4) % 4 == dy && (x - 4) % 4 == dx {
                        assert(x == px && y == py);
                    }
                }
                lemma_paint_agree(start, (|x: int, y: int| if g(x, y) is Some { g(x, y) } else { done(x, y) }), next);
            }
        }
        proof {
            lemma_paint_agree(start, block_done(tx as int, ty as int, c, dy as int, 4), block_done(tx as int, ty as int, c, dy + 1, 0));
        }
    }
    proof {
        lemma_paint_agree(start, block_done(tx as int, ty as int, c, 4, 0), block_paint(tx as int, ty as int, c));
    }
}

/// Draws the map's tiles: each tile a 4x4 block, walls light and floor dark,
/// offset by the margin; pixels off the screen are skipped.
pub fn draw_tiles(frame: &mut [u8], map: &MazeMap)
    requires
        fits(old(frame)@.len() as int, tiles_paint(*map)),
        map.tiles@.len() >= map.width * map.height,
        4 * map.width + 3 <= usize::MAX,
        4 * map.height + 3 <= usize::MAX,
    ensures
        final(frame)@ == painted(old(frame)@, tiles_paint(*map)),
{
    let ghost start = frame@;
    let ghost m = *map;
    let wall: [u8; 4] = [180, 180, 180, 255];
    let floor: [u8; 4] = [35, 35, 35, 255];
    assert(wall@ =~= wall_color() && floor@ =~= floor_color());
    proof {
        lemma_paint_agree(start, |px: int, py: int| None::<Seq<u8>>, tiles_done(m, 0, 0));
        lemma_paint_nothing(start);
    }
    for ty in 0..map.height
        invariant
            frame@.len() == start.len(),
            fits(start.len() as int, tiles_paint(m)),
            m == *map,
            map.tiles@.len() >= map.width * map.height,
            4 * map.width + 3 <= usize::MAX,
            4 * map.height + 3 <= usize::MAX,
            wall@ == wall_color(),
            floor@ == floor_color(),
            frame@ == painted(start, tiles_done(m, ty as int, 0)),
    {
        for tx in 0..map.width
            invariant
                frame@.len() == start.len(),
                fits(start.len() as int, tiles_paint(m)),
                m == *map,
                map.tiles@.len() >= map.width * map.height,
                4 * map.width + 3 <= usize::MAX,
                4 * map.height + 3 <= usize::MAX,
                ty < map.height,
                wall@ == wall_color(),
                floor@ == floor_color(),
                frame@ == painted(start, tiles_done(m, ty as int, tx as int)),
        {
            let ghost done = tiles_done(m, ty as int, tx as int);
            let ghost next = tiles_done(m, ty as int, tx + 1);
            proof {
                let (qx, qy) = ((tx as i32) as int, (ty as i32) as int);
                if 0 <= qx < map.width && 0 <= qy < map.height {
                    crate::map::lemma_grid_index(qx, qy, map.width as int, map.height as int);
                }
            }
            let color = if map.wall_at(tx as i32, ty as i32) {
                wall
            } else {
                floor
            };
            assert(color@ == tile_color(m, tx as int, ty as int));
            proof {
                lemma_fits_within(start.len() as int, block_paint(tx as int, ty as int, color@), tiles_paint(m));
            }
            fill_tile(frame, tx, ty, color);
            proof {
                let g = block_paint(tx as int, ty as int, color@);
                lemma_paint_twice(start, done, g);
                lemma_paint_agree(start, (|x: int, y: int| if g(x, y) is Some { g(x, y) } else { done(x, y) }), next);
            }
        }
        proof {
            lemma_paint_agree(start, tiles_done(m, ty as int, map.width as int), tiles_done(m, ty + 1, 0));
        }
    }
    proof {
        lemma_paint_agree(start, tiles_done(m, map.height as int, 0), tiles_paint(m));
    }
}

/// Draws a 3x3 dot centred on `(cx, cy)`; the corner is clamped at the
/// screen's edge, and pixels off the screen are skipped.
pub fn draw_dot(frame: &mut [u8], cx: usize, cy: usize, color: [u8; 4])
    requires
        fits(old(frame)@.len() as int, dot_paint(cx as int, cy as int, color@)),
        cx < usize::MAX,
        cy < usize::MAX,
    ensures
        final(frame)@ == painted(old(frame)@, dot_paint(cx as int, cy as int, color@)),
{
    let ghost start = frame@;
    let ghost c = color@;
    let half = DOT / 2;
    let x0 = cx.saturating_sub(half);
    let y0 = cy.saturating_sub(half);
    let ghost done0 = |px: int, py: int| None::<Seq<u8>>;
    proof {
        lemma_paint_nothing(start);
    }
    for dy in 0..DOT
        invariant
            frame@.len() == start.len(),
            fits(start.len() as int, dot_paint(cx as int, cy as int, c)),
            x0 == (if cx >= 1 { cx - 1 } else { 0 }),
            y0 == (if cy >= 1 { cy - 1 } else { 0 }),
            c == color@,
            x0 + 2 <= usize::MAX,
            y0 + 2 <= usize::MAX,
            frame@ == painted(start, |px: int, py: int| if x0 <= px < x0 + 3 && y0 <= py < y0 + dy { Some(c) } else { None }),
    {
        for dx in 0..DOT
            invariant
                frame@.len() == start.len(),
                fits(start.len() as int, dot_paint(cx as int, cy as int, c)),
                x0 == (if cx >= 1 { cx - 1 } else { 0 }),
                y0 == (if cy >= 1 { cy - 1 } else { 0 }),
                c == color@,
                x0 + 2 <= usize::MAX,
                y0 + 2 <= usize::MAX,
                dy < 3,
                frame@ == painted(start, |px: int, py: int| if (x0 <= px < x0 + 3 && y0 <= py < y0 + dy) || (x0 <= px < x0 + dx && py == y0 + dy) { Some(c) } else { None }),
        {
            let ghost done = |px: int, py: int| if (x0 <= px < x0 + 3 && y0 <= py < y0 + dy) || (x0 <= px < x0 + dx && py == y0 + dy) { Some(c) } else { None };
            let ghost next = |px: int, py: int| if (x0 <= px < x0 + 3 && y0 <= py < y0 + dy) || (x0 <= px < x0 + dx + 1 && py == y0 + dy) { Some(c) } else { None };
            assert(dot_paint(cx as int, cy as int, c)((x0 + dx) as int, (y0 + dy) as int) is Some);
            put(frame, x0 + dx, y0 + dy, color);
            proof {
                let g = |x: int, y: int| if x == x0 + dx && y == y0 + dy { Some(c) } else { None };
                lemma_paint_twice(start, done, g);
                lemma_paint_agree(start, (|x: int, y: int| if g(x, y) is Some { g(x, y) } else { done(x, y) }), next);
            }
        }
        proof {
            lemma_paint_agree(
                start,
                |px: int, py: int| if (x0 <= px < x0 + 3 && y0 <= py < y0 + dy) || (x0 <= px < x0 + 3 && py == y0 + dy) { Some(c) } else { None },
                |px: int, py: int| if x0 <= px < x0 + 3 && y0 <= py < y0 + dy + 1 { Some(c) } else { None },
            );
        }
    }
    proof {
        lemma_paint_agree(
            start,
            |px: int, py: int| if x0 <= px < x0 + 3 && y0 <= py < y0 + 3 { Some(c) } else { None },
            dot_paint(cx as int, cy as int, c),
        );
    }
}

} // verus!
