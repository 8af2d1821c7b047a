//! Maze levels: the tile grid, the wall query and the built-in levels.
use vstd::prelude::*;
use vstd::arithmetic::power2::{pow2, lemma2_to64};
use vstd::utf8::{encode_utf8, is_ascii_chars_encode_utf8};
use vstd::string::StringSliceAdditionalSpecFns;

verus! {

/// Tile value of open floor.
pub const FLOOR: u8 = 0;

/// Tile value of a wall.
pub const WALL: u8 = 1;

/// Number of built-in levels; valid level ids are `0..LEVEL_COUNT`.
pub const LEVEL_COUNT: u8 = 3;

/// A maze level. Tiles are stored row-major: `tiles[y * width + x]`.
/// Spawn points are the single-precision coordinates of tile centres, each
/// coordinate held as its IEEE-754 bit pattern.
#[derive(Debug, Clone)]
pub struct MazeMap {
    pub id: u8,
    pub width: usize,
    pub height: usize,
    pub tiles: Vec<u8>,
    pub spawn_points: Vec<(u32, u32)>,
}

/// The tile that a level row character stands for: `'1'` is a wall,
/// anything else is floor.
pub open spec fn tile_of(c: char) -> u8 {
    if c == '1' {
        WALL
    } else {
        FLOOR
    }
}

/// The tiles of one row of characters.
pub open spec fn row_tiles(row: Seq<char>) -> Seq<u8> {
    row.map_values(|c: char| tile_of(c))
}

/// The tiles of a sequence of rows, concatenated top to bottom.
pub open spec fn rows_tiles(rows: Seq<Seq<char>>) -> Seq<u8>
    decreases rows.len(),
{
    if rows.len() == 0 {
        Seq::empty()
    } else {
        rows_tiles(rows.drop_last()) + row_tiles(rows.last())
    }
}

/// The integer part (rounded toward zero) of the finite single-precision
/// number whose bit pattern is `bits`.
pub open spec fn f32_bits_trunc(bits: u32) -> int
    decreases bits,
{
    if bits >= 0x8000_0000 {
        -f32_bits_trunc((bits - 0x8000_0000) as u32)
    } else {
        let exp = bits / 0x80_0000;
        let significand = bits % 0x80_0000 + 0x80_0000;
        if exp < 127 {
            0
        } else if exp < 150 {
            significand / (pow2((150 - exp) as nat) as int)
        } else {
            significand * pow2((exp - 150) as nat)
        }
    }
}

impl MazeMap {
    /// The tile grid holds exactly `width * height` tiles.
    pub open spec fn wf(&self) -> bool {
        self.tiles@.len() == self.width * self.height
    }

    /// The tile at column `x`, row `y`.
    pub open spec fn tile(&self, x: int, y: int) -> u8 {
        self.tiles@[y * self.width + x]
    }

    /// Whether tile `(x, y)` blocks movement: everything outside the grid
    /// does, and so does every tile inside it that is not floor.
    pub open spec fn blocked(&self, x: int, y: int) -> bool {
        x < 0 || y < 0 || x >= self.width || y >= self.height || self.tile(x, y) != FLOOR
    }

    /// A playable level: a well-formed grid whose border tiles are all walls,
    /// with at least one spawn point, each lying on a floor tile.
    pub open spec fn valid(&self) -> bool {
        &&& self.wf()
        &&& self.width > 0
        &&& self.height > 0
        &&& forall|x: int|
            0 <= x < self.width ==> self.tile(x, 0) == WALL && self.tile(x, self.height - 1) == WALL
        &&& forall|y: int|
            0 <= y < self.height ==> self.tile(0, y) == WALL && self.tile(self.width - 1, y) == WALL
        &&& self.spawn_points@.len() > 0
        &&& forall|i: int|
            0 <= i < self.spawn_points@.len() ==> !self.blocked(
                f32_bits_trunc(#[trigger] self.spawn_points@[i].0),
                f32_bits_trunc(self.spawn_points@[i].1),
            )
    }

    /// Every tile that the grid's dimensions place at `(x, y)` is stored.
    pub open spec fn holds(&self, x: int, y: int) -> bool {
        0 <= x < self.width && 0 <= y < self.height ==> y * self.width + x < self.tiles@.len()
    }

    /// Returns true when the tile at (x, y) blocks movement.
    pub fn wall_at(&self, x: i32, y: i32) -> (b: bool)
        requires
            self.holds(x as int, y as int),
        ensures
            b == self.blocked(x as int, y as int),
    {
        if x < 0 || y < 0 || x as usize >= self.width || y as usize >= self.height {
            return true;
        }
        let xu = x as usize;
        let yu = y as usize;
        proof {
            lemma_grid_index(xu as int, yu as int, self.width as int, self.height as int);
            assert(self.tiles@.len() == self.tiles.len());
        }
        self.tiles[yu * self.width + xu] != FLOOR
    }
}

/// A cell of a `w`-wide, `h`-high grid has a row-major index inside the grid.
pub proof fn lemma_grid_index(x: int, y: int, w: int, h: int)
    requires
        0 <= x < w,
        0 <= y < h,
    ensures
        0 <= y * w,
        y * w + x < w * h,
        y * w + x < h * w,
{
    assert(0 <= y * w) by (nonlinear_arith)
        requires
            0 <= y,
            0 <= w,
    ;
    assert(y * w + x < w * h) by (nonlinear_arith)
        requires
            0 <= x < w,
            0 <= y < h,
    ;
}

/// When every row is `w` long, the concatenated tiles hold `rows.len() * w`
/// tiles and tile `(x, y)` is the tile of character `x` of row `y`.
pub proof fn lemma_rows_tiles_index(rows: Seq<Seq<char>>, w: int)
    requires
        0 <= w,
        forall|i: int| 0 <= i < rows.len() ==> #[trigger] rows[i].len() == w,
    ensures
        rows_tiles(rows).len() == rows.len() * w,
        forall|y: int, x: int|
            0 <= y < rows.len() && 0 <= x < w ==> #[trigger] rows_tiles(rows)[y * w + x] == tile_of(
                rows[y][x],
            ),
    decreases rows.len(),
{
    if rows.len() > 0 {
        let init = rows.drop_last();
        lemma_rows_tiles_index(init, w);
        let n = rows.len() - 1;
        assert(n * w + w == rows.len() * w) by (nonlinear_arith)
            requires
                n == rows.len() - 1,
        ;
        assert forall|y: int, x: int| 0 <= y < rows.len() && 0 <= x < w implies #[trigger] rows_tiles(
            rows,
        )[y * w + x] == tile_of(rows[y][x]) by {
            let whole = rows_tiles(rows);
            assert(whole == rows_tiles(init) + row_tiles(rows.last()));
            if y < n {
                lemma_grid_index(x, y, w, n);
                assert(rows[y] == init[y]);
                assert(whole[y * w + x] == rows_tiles(init)[y * w + x]);
            } else {
                assert(y * w + x - n * w == x) by (nonlinear_arith)
                    requires
                        y == n,
                ;
                assert(whole[y * w + x] == row_tiles(rows.last())[x]);
            }
        }
    }
}

/// Builds a map from equal-length rows: `'1'` becomes a wall, anything else
/// floor. The width is the byte length of the first row.
fn from_rows(id: u8, rows: &[&str], spawn_points: Vec<(u32, u32)>) -> (m: MazeMap)
    requires
        rows@.len() > 0,
    ensures
        m.id == id,
        m.height == rows@.len(),
        m.width == rows@[0].spec_bytes().len() as usize,
        m.tiles@ == rows_tiles(rows@.map_values(|r: &str| r@)),
        m.spawn_points@ == spawn_points@,
{
    let height = rows.len();
    let width = rows[0].len();
    let ghost views = rows@.map_values(|r: &str| r@);
    let mut tiles: Vec<u8> = Vec::new();
    for i in 0..height
        invariant
            height == rows@.len(),
            views == rows@.map_values(|r: &str| r@),
            tiles@ == rows_tiles(views.take(i as int)),
    {
        push_row(&mut tiles, rows[i]);
        assert(views.take(i + 1).drop_last() =~= views.take(i as int));
    }
    assert(views.take(height as int) =~= views);
    MazeMap { id, width, height, tiles, spawn_points }
}

/// Appends the tiles of one row.
fn push_row(tiles: &mut Vec<u8>, row: &str)
    ensures
        final(tiles)@ == old(tiles)@ + row_tiles(row@),
{
    let ghost start = tiles@;
    for ch in it: row.chars()
        invariant
            it.seq() == row@,
            tiles@ == start + row_tiles(row@.take(it.index() as int)),
    {
        assert(row_tiles(row@.take(it.index() + 1)) =~= row_tiles(row@.take(it.index() as int)).push(
            tile_of(ch),
        ));
        tiles.push(
            if ch == '1' {
                WALL
            } else {
                FLOOR
            },
        );
    }
    assert(row@.take(row@.len() as int) == row@);
}

/// The rows of level 0 (16x16, few dead ends), top to bottom.
pub open spec fn level_0_rows() -> Seq<Seq<char>> {
    seq![
        "1111111111111111"@,
        "1000000000000001"@,
        "1011101110111101"@,
        "1010001000100101"@,
        "1010101010101001"@,
        "1000101010000001"@,
        "1111101010111101"@,
        "1000001010000001"@,
        "1011111010111101"@,
        "1010000010100001"@,
        "1010111110100101"@,
        "1010100000011101"@,
        "1010101111010001"@,
        "1000101000000001"@,
        "1011101011111101"@,
        "1111111111111111"@,
    ]
}

/// The rows of level 1 (24x24, more dead ends), top to bottom.
pub open spec fn level_1_rows() -> Seq<Seq<char>> {
    seq![
        "111111111111111111111111"@,
        "100001000010000100001001"@,
        "101111011010111101111101"@,
        "101000010010100000100001"@,
        "101011110110101111100001"@,
        "101010000000101000000001"@,
        "101011111111101011111101"@,
        "101010000000001010000001"@,
        "101010111111111010111101"@,
        "101010100000000010100001"@,
        "101010101111111110101111"@,
        "100010101000000000100001"@,
        "111110101011111111101101"@,
        "100000101010000000001001"@,
        "101111101010111111110101"@,
        "101000001010100000000101"@,
        "101011111110101111110001"@,
        "101010000000101000000101"@,
        "101011111111101011111101"@,
        "101000000000001010000001"@,
        "101111111111111010111111"@,
        "100000000000001010000001"@,
        "100111111111111011111101"@,
        "111111111111111111111111"@,
    ]
}

/// The rows of level 2 (32x32, many dead ends and several loops), top to bottom.
pub open spec fn level_2_rows() -> Seq<Seq<char>> {
    seq![
        "11111111111111111111111111111111"@,
        "10100000100000000010000000000011"@,
        "10101110101111101011111111111011"@,
        "10000000101000100000001000100011"@,
        "10111010101010101111101010101011"@,
        "10001000001010100010100010001011"@,
        "11101111101010111010111011111011"@,
        "10100000100010001010000000001011"@,
        "10111110111111111010111110101011"@,
        "10000010001000000010100000100011"@,
        "10101111101011111011101110101111"@,
        "10100000001000001010000010101011"@,
        "10111111111011101110111110101011"@,
        "10001000001010001000101000100011"@,
        "11101110101010101011101011101111"@,
        "10100010100010101010001000000011"@,
        "10101010101010111010101111111011"@,
        "10001000101010001000000010000011"@,
        "11101111101011101111111010111011"@,
        "10001000100000100000100010100011"@,
        "10101110101110111010101110101011"@,
        "10100000000010001010001000100011"@,
        "10101011111011101111111010111011"@,
        "10001000000000100010000010001011"@,
        "10101111111111111010111111101011"@,
        "10100000000000001000100000001011"@,
        "10111010111111101111101011111011"@,
        "10101010100010100000001010000011"@,
        "10101010101010101111111010111111"@,
        "10001000001000100000000000000011"@,
        "11111111111111111111111111111111"@,
        "11111111111111111111111111111111"@,
    ]
}

/// The rows of level 0.
fn level_0_source() -> (rows: Vec<&'static str>)
    ensures
        rows@.map_values(|r: &str| r@) == level_0_rows(),
{
    let rows = vec![
        "1111111111111111",
        "1000000000000001",
        "1011101110111101",
        "1010001000100101",
        "1010101010101001",
        "1000101010000001",
        "1111101010111101",
        "1000001010000001",
        "1011111010111101",
        "1010000010100001",
        "1010111110100101",
        "1010100000011101",
        "1010101111010001",
        "1000101000000001",
        "1011101011111101",
        "1111111111111111",
    ];
    assert(rows@.map_values(|r: &str| r@) =~= level_0_rows());
    rows
}

/// The rows of level 1.
fn level_1_source() -> (rows: Vec<&'static str>)
    ensures
        rows@.map_values(|r: &str| r@) == level_1_rows(),
{
    let rows = vec![
        "111111111111111111111111",
        "100001000010000100001001",
        "101111011010111101111101",
        "101000010010100000100001",
        "101011110110101111100001",
        "101010000000101000000001",
        "101011111111101011111101",
        "101010000000001010000001",
        "101010111111111010111101",
        "101010100000000010100001",
        "101010101111111110101111",
        "100010101000000000100001",
        "111110101011111111101101",
        "100000101010000000001001",
        "101111101010111111110101",
        "101000001010100000000101",
        "101011111110101111110001",
        "101010000000101000000101",
        "101011111111101011111101",
        "101000000000001010000001",
        "101111111111111010111111",
        "100000000000001010000001",
        "100111111111111011111101",
        "111111111111111111111111",
    ];
    assert(rows@.map_values(|r: &str| r@) =~= level_1_rows());
    rows
}

/// The rows of level 2.
fn level_2_source() -> (rows: Vec<&'static str>)
    ensures
        rows@.map_values(|r: &str| r@) == level_2_rows(),
{
    let rows = vec![
        "11111111111111111111111111111111",
        "10100000100000000010000000000011",
        "10101110101111101011111111111011",
        "10000000101000100000001000100011",
        "10111010101010101111101010101011",
        "10001000001010100010100010001011",
        "11101111101010111010111011111011",
        "10100000100010001010000000001011",
        "10111110111111111010111110101011",
        "10000010001000000010100000100011",
        "10101111101011111011101110101111",
        "10100000001000001010000010101011",
        "10111111111011101110111110101011",
        "10001000001010001000101000100011",
        "11101110101010101011101011101111",
        "10100010100010101010001000000011",
        "10101010101010111010101111111011",
        "10001000101010001000000010000011",
        "11101111101011101111111010111011",
        "10001000100000100000100010100011",
        "10101110101110111010101110101011",
        "10100000000010001010001000100011",
        "10101011111011101111111010111011",
        "10001000000000100010000010001011",
        "10101111111111111010111111101011",
        "10100000000000001000100000001011",
        "10111010111111101111101011111011",
        "10101010100010100000001010000011",
        "10101010101010101111111010111111",
        "10001000001000100000000000000011",
        "11111111111111111111111111111111",
        "11111111111111111111111111111111",
    ];
    assert(rows@.map_values(|r: &str| r@) =~= level_2_rows());
    rows
}

/// The rows of a built-in level.
pub open spec fn level_rows(id: u8) -> Seq<Seq<char>> {
    if id == 0 {
        level_0_rows()
    } else if id == 1 {
        level_1_rows()
    } else {
        level_2_rows()
    }
}

/// Bit pattern of the single-precision value `1.5`.
pub const F32_1_5: u32 = 0x3fc0_0000;

/// Bit pattern of the single-precision value `13.5`.
pub const F32_13_5: u32 = 0x4158_0000;

/// Bit pattern of the single-precision value `21.5`.
pub const F32_21_5: u32 = 0x41ac_0000;

/// Bit pattern of the single-precision value `29.5`.
pub const F32_29_5: u32 = 0x41ec_0000;

/// The spawn points of a built-in level: the centres of the four corner
/// tiles inside the border, as bit patterns.
pub open spec fn level_spawns(id: u8) -> Seq<(u32, u32)> {
    let far = if id == 0 {
        F32_13_5
    } else if id == 1 {
        F32_21_5
    } else {
        F32_29_5
    };
    seq![(F32_1_5, F32_1_5), (far, F32_1_5), (F32_1_5, far), (far, far)]
}

/// `m` is built-in level `id`: its grid comes from the level's rows and its
/// spawn points are the level's.
pub open spec fn is_level(m: MazeMap, id: u8) -> bool {
    &&& m.id == id
    &&& m.height == level_rows(id).len()
    &&& m.width == level_rows(id)[0].len()
    &&& m.tiles@ == rows_tiles(level_rows(id))
    &&& m.spawn_points@ == level_spawns(id)
}

/// The levels grow with difficulty: 16x16, 24x24 and 32x32.
pub proof fn lemma_level_sizes(id: u8)
    requires
        id < LEVEL_COUNT,
    ensures
        level_rows(id).len() == 16 + 8 * id,
        level_rows(id)[0].len() == 16 + 8 * id,
{
    reveal_strlit("1111111111111111");
    reveal_strlit("111111111111111111111111");
    reveal_strlit("11111111111111111111111111111111");
}

/// The built-in mazes, tile by tile: every tile of a built-in level is the
/// tile of the character at its column in its row of the layout below, `'1'`
/// a wall and `'0'` floor, rows listed top to bottom.
pub proof fn lemma_level_layouts(m: MazeMap, id: u8)
    requires
        id < LEVEL_COUNT,
        is_level(m, id),
    ensures
        forall|x: int, y: int|
            0 <= x < m.width && 0 <= y < m.height ==> #[trigger] m.tile(x, y) == tile_of(
                level_rows(id)[y][x],
            ),
        id == 0 ==> level_rows(id) == seq![
            "1111111111111111"@,
            "1000000000000001"@,
            "1011101110111101"@,
            "1010001000100101"@,
            "1010101010101001"@,
            "1000101010000001"@,
            "1111101010111101"@,
            "1000001010000001"@,
            "1011111010111101"@,
            "1010000010100001"@,
            "1010111110100101"@,
            "1010100000011101"@,
            "1010101111010001"@,
            "1000101000000001"@,
            "1011101011111101"@,
            "1111111111111111"@,
        ],
        id == 1 ==> level_rows(id) == seq![
            "111111111111111111111111"@,
            "100001000010000100001001"@,
            "101111011010111101111101"@,
            "101000010010100000100001"@,
            "101011110110101111100001"@,
            "101010000000101000000001"@,
            "101011111111101011111101"@,
            "101010000000001010000001"@,
            "101010111111111010111101"@,
            "101010100000000010100001"@,
            "101010101111111110101111"@,
            "100010101000000000100001"@,
            "111110101011111111101101"@,
            "100000101010000000001001"@,
            "101111101010111111110101"@,
            "101000001010100000000101"@,
            "101011111110101111110001"@,
            "101010000000101000000101"@,
            "101011111111101011111101"@,
            "101000000000001010000001"@,
            "101111111111111010111111"@,
            "100000000000001010000001"@,
            "100111111111111011111101"@,
            "111111111111111111111111"@,
        ],
        id == 2 ==> level_rows(id) == seq![
            "11111111111111111111111111111111"@,
            "10100000100000000010000000000011"@,
            "10101110101111101011111111111011"@,
            "10000000101000100000001000100011"@,
            "10111010101010101111101010101011"@,
            "10001000001010100010100010001011"@,
            "11101111101010111010111011111011"@,
            "10100000100010001010000000001011"@,
            "10111110111111111010111110101011"@,
            "10000010001000000010100000100011"@,
            "10101111101011111011101110101111"@,
            "10100000001000001010000010101011"@,
            "10111111111011101110111110101011"@,
            "10001000001010001000101000100011"@,
            "11101110101010101011101011101111"@,
            "10100010100010101010001000000011"@,
            "10101010101010111010101111111011"@,
            "10001000101010001000000010000011"@,
            "11101111101011101111111010111011"@,
            "10001000100000100000100010100011"@,
            "10101110101110111010101110101011"@,
            "10100000000010001010001000100011"@,
            "10101011111011101111111010111011"@,
            "10001000000000100010000010001011"@,
            "10101111111111111010111111101011"@,
            "10100000000000001000100000001011"@,
            "10111010111111101111101011111011"@,
            "10101010100010100000001010000011"@,
            "10101010101010101111111010111111"@,
            "10001000001000100000000000000011"@,
            "11111111111111111111111111111111"@,
            "11111111111111111111111111111111"@,
        ],
{
    if id == 0 {
        reveal_strlit("1000000000000001");
        reveal_strlit("1000001010000001");
        reveal_strlit("1000101000000001");
        reveal_strlit("1000101010000001");
        reveal_strlit("1010000010100001");
        reveal_strlit("1010001000100101");
        reveal_strlit("1010100000011101");
        reveal_strlit("1010101010101001");
        reveal_strlit("1010101111010001");
        reveal_strlit("1010111110100101");
        reveal_strlit("1011101011111101");
        reveal_strlit("1011101110111101");
        reveal_strlit("1011111010111101");
        reveal_strlit("1111101010111101");
        reveal_strlit("1111111111111111");
    } else if id == 1 {
        reveal_strlit("100000000000001010000001");
        reveal_strlit("100000101010000000001001");
        reveal_strlit("100001000010000100001001");
        reveal_strlit("100010101000000000100001");
        reveal_strlit("100111111111111011111101");
        reveal_strlit("101000000000001010000001");
        reveal_strlit("101000001010100000000101");
        reveal_strlit("101000010010100000100001");
        reveal_strlit("101010000000001010000001");
        reveal_strlit("101010000000101000000001");
        reveal_strlit("101010000000101000000101");
        reveal_strlit("101010100000000010100001");
        reveal_strlit("101010101111111110101111");
        reveal_strlit("101010111111111010111101");
        reveal_strlit("101011110110101111100001");
        reveal_strlit("101011111110101111110001");
        reveal_strlit("101011111111101011111101");
        reveal_strlit("101111011010111101111101");
        reveal_strlit("101111101010111111110101");
        reveal_strlit("101111111111111010111111");
        reveal_strlit("111110101011111111101101");
        reveal_strlit("111111111111111111111111");
    } else {
        reveal_strlit("10000000101000100000001000100011");
        reveal_strlit("10000010001000000010100000100011");
        reveal_strlit("10001000000000100010000010001011");
        reveal_strlit("10001000001000100000000000000011");
        reveal_strlit("10001000001010001000101000100011");
        reveal_strlit("10001000001010100010100010001011");
        reveal_strlit("10001000100000100000100010100011");
        reveal_strlit("10001000101010001000000010000011");
        reveal_strlit("10100000000000001000100000001011");
        reveal_strlit("10100000000010001010001000100011");
        reveal_strlit("10100000001000001010000010101011");
        reveal_strlit("10100000100000000010000000000011");
        reveal_strlit("10100000100010001010000000001011");
        reveal_strlit("10100010100010101010001000000011");
        reveal_strlit("10101010100010100000001010000011");
        reveal_strlit("10101010101010101111111010111111");
        reveal_strlit("10101010101010111010101111111011");
        reveal_strlit("10101011111011101111111010111011");
        reveal_strlit("10101110101110111010101110101011");
        reveal_strlit("10101110101111101011111111111011");
        reveal_strlit("10101111101011111011101110101111");
        reveal_strlit("10101111111111111010111111101011");
        reveal_strlit("10111010101010101111101010101011");
        reveal_strlit("10111010111111101111101011111011");
        reveal_strlit("10111110111111111010111110101011");
        reveal_strlit("10111111111011101110111110101011");
        reveal_strlit("11101110101010101011101011101111");
        reveal_strlit("11101111101010111010111011111011");
        reveal_strlit("11101111101011101111111010111011");
        reveal_strlit("11111111111111111111111111111111");
    }
    lemma_level_sizes(id);
    let rows = level_rows(id);
    let w: int = 16 + 8 * id;
    assert forall|i: int| 0 <= i < rows.len() implies #[trigger] rows[i].len() == w by {}
    lemma_rows_tiles_index(rows, w);
    assert forall|x: int, y: int| 0 <= x < m.width && 0 <= y < m.height implies #[trigger] m.tile(x, y)
        == tile_of(rows[y][x]) by {
        assert(m.tile(x, y) == rows_tiles(rows)[y * w + x]);
    }
}

/// Returns the requested level; every built-in level is valid.
pub fn level(id: u8) -> (m: MazeMap)
    requires
        id < LEVEL_COUNT,
    ensures
        is_level(m, id),
        m.width == 16 + 8 * id,
        m.height == 16 + 8 * id,
        m.valid(),
{
    let far: u32 = if id == 0 {
        F32_13_5
    } else if id == 1 {
        F32_21_5
    } else {
        F32_29_5
    };
    let spawns = vec![(F32_1_5, F32_1_5), (far, F32_1_5), (F32_1_5, far), (far, far)];
    let rows = if id == 0 {
        level_0_source()
    } else if id == 1 {
        level_1_source()
    } else {
        level_2_source()
    };
    proof {
        lemma_level_rows_ascii(id);
        lemma_level_sizes(id);
        assert(rows@.len() == rows@.map_values(|r: &str| r@).len());
        assert(rows@[0]@ == rows@.map_values(|r: &str| r@)[0]);
        assert(rows@[0].spec_bytes() == encode_utf8(rows@[0]@));
    }
    let m = from_rows(id, rows.as_slice(), spawns);
    proof {
        assert(spawns@ =~= level_spawns(id));
        lemma_level_valid(m, id);
    }
    m
}

/// The first row of each level is plain ASCII, so its byte length is its
/// character count.
proof fn lemma_level_rows_ascii(id: u8)
    requires
        id < LEVEL_COUNT,
    ensures
        encode_utf8(level_rows(id)[0]).len() == level_rows(id)[0].len(),
        level_rows(id)[0].len() <= 32,
{
    reveal_strlit("1111111111111111");
    reveal_strlit("111111111111111111111111");
    reveal_strlit("11111111111111111111111111111111");
    is_ascii_chars_encode_utf8(level_rows(id)[0]);
}

/// The integer parts of the spawn coordinates.
proof fn lemma_spawn_coords()
    ensures
        f32_bits_trunc(F32_1_5) == 1,
        f32_bits_trunc(F32_13_5) == 13,
        f32_bits_trunc(F32_21_5) == 21,
        f32_bits_trunc(F32_29_5) == 29,
{
    lemma2_to64();
    assert(F32_1_5 / 0x80_0000 == 127 && F32_1_5 % 0x80_0000 + 0x80_0000 == 0xc0_0000);
    assert(0xc0_0000int / 0x80_0000int == 1);
    assert(F32_13_5 / 0x80_0000 == 130 && F32_13_5 % 0x80_0000 + 0x80_0000 == 0xd8_0000);
    assert(0xd8_0000int / 0x10_0000int == 13);
    assert(F32_21_5 / 0x80_0000 == 131 && F32_21_5 % 0x80_0000 + 0x80_0000 == 0xac_0000);
    assert(0xac_0000int / 0x8_0000int == 21);
    assert(F32_29_5 / 0x80_0000 == 131 && F32_29_5 % 0x80_0000 + 0x80_0000 == 0xec_0000);
    assert(0xec_0000int / 0x8_0000int == 29);
}

/// A map built from the rows and spawn points of a built-in level is valid.
proof fn lemma_level_valid(m: MazeMap, id: u8)
    requires
        id < LEVEL_COUNT,
        m.height == level_rows(id).len(),
        m.width == level_rows(id)[0].len(),
        m.tiles@ == rows_tiles(level_rows(id)),
        m.spawn_points@ == level_spawns(id),
    ensures
        m.valid(),
{
    lemma_spawn_coords();
    if id == 0 {
        lemma_level_0_valid(m);
    } else if id == 1 {
        lemma_level_1_valid(m);
    } else {
        lemma_level_2_valid(m);
    }
}

/// Level 0, built from its rows and spawn points, is valid.
proof fn lemma_level_0_valid(m: MazeMap)
    requires
        m.height == level_0_rows().len(),
        m.width == level_0_rows()[0].len(),
        m.tiles@ == rows_tiles(level_0_rows()),
        m.spawn_points@ == level_spawns(0),
        f32_bits_trunc(F32_1_5) == 1,
        f32_bits_trunc(F32_13_5) == 13,
    ensures
        m.valid(),
{
    reveal_strlit("1000000000000001");
    reveal_strlit("1000001010000001");
    reveal_strlit("1000101000000001");
    reveal_strlit("1000101010000001");
    reveal_strlit("1010000010100001");
    reveal_strlit("1010001000100101");
    reveal_strlit("1010100000011101");
    reveal_strlit("1010101010101001");
    reveal_strlit("1010101111010001");
    reveal_strlit("1010111110100101");
    reveal_strlit("1011101011111101");
    reveal_strlit("1011101110111101");
    reveal_strlit("1011111010111101");
    reveal_strlit("1111101010111101");
    reveal_strlit("1111111111111111");
    let rows = level_0_rows();
    let w: int = 16;
    assert(m.width == w && m.height == w);
    assert forall|i: int| 0 <= i < rows.len() implies #[trigger] rows[i].len() == w by {}
    lemma_rows_tiles_index(rows, w);
    assert forall|x: int| 0 <= x < w implies m.tile(x, 0) == WALL && m.tile(x, w - 1) == WALL by {
        assert(rows[0][x] == '1' && rows[w - 1][x] == '1');
    }
    assert forall|y: int| 0 <= y < w implies m.tile(0, y) == WALL && m.tile(w - 1, y) == WALL by {
        assert(rows[y][0] == '1' && rows[y][w - 1] == '1');
    }
    assert(rows[1][1] == '0' && rows[1][13] == '0' && rows[13][1] == '0' && rows[13][13] == '0');
}

/// Level 1, built from its rows and spawn points, is valid.
proof fn lemma_level_1_valid(m: MazeMap)
    requires
        m.height == level_1_rows().len(),
        m.width == level_1_rows()[0].len(),
        m.tiles@ == rows_tiles(level_1_rows()),
        m.spawn_points@ == level_spawns(1),
        f32_bits_trunc(F32_1_5) == 1,
        f32_bits_trunc(F32_21_5) == 21,
    ensures
        m.valid(),
{
    reveal_strlit("100000000000001010000001");
    reveal_strlit("100000101010000000001001");
    reveal_strlit("100001000010000100001001");
    reveal_strlit("100010101000000000100001");
    reveal_strlit("100111111111111011111101");
    reveal_strlit("101000000000001010000001");
    reveal_strlit("101000001010100000000101");
    reveal_strlit("101000010010100000100001");
    reveal_strlit("101010000000001010000001");
    reveal_strlit("101010000000101000000001");
    reveal_strlit("101010000000101000000101");
    reveal_strlit("101010100000000010100001");
    reveal_strlit("101010101111111110101111");
    reveal_strlit("101010111111111010111101");
    reveal_strlit("101011110110101111100001");
    reveal_strlit("101011111110101111110001");
    reveal_strlit("101011111111101011111101");
    reveal_strlit("101111011010111101111101");
    reveal_strlit("101111101010111111110101");
    reveal_strlit("101111111111111010111111");
    reveal_strlit("111110101011111111101101");
    reveal_strlit("111111111111111111111111");
    let rows = level_1_rows();
    let w: int = 24;
    assert(m.width == w && m.height == w);
    assert forall|i: int| 0 <= i < rows.len() implies #[trigger] rows[i].len() == w by {}
    lemma_rows_tiles_index(rows, w);
    assert forall|x: int| 0 <= x < w implies m.tile(x, 0) == WALL && m.tile(x, w - 1) == WALL by {
        assert(rows[0][x] == '1' && rows[w - 1][x] == '1');
    }
    assert forall|y: int| 0 <= y < w implies m.tile(0, y) == WALL && m.tile(w - 1, y) == WALL by {
        assert(rows[y][0] == '1' && rows[y][w - 1] == '1');
    }
    assert(rows[1][1] == '0' && rows[1][21] == '0' && rows[21][1] == '0' && rows[21][21] == '0');
}

/// Level 2, built from its rows and spawn points, is valid.
proof fn lemma_level_2_valid(m: MazeMap)
    requires
        m.height == level_2_rows().len(),
        m.width == level_2_rows()[0].len(),
        m.tiles@ == rows_tiles(level_2_rows()),
        m.spawn_points@ == level_spawns(2),
        f32_bits_trunc(F32_1_5) == 1,
        f32_bits_trunc(F32_29_5) == 29,
    ensures
        m.valid(),
{
    reveal_strlit("10000000101000100000001000100011");
    reveal_strlit("10000010001000000010100000100011");
    reveal_strlit("10001000000000100010000010001011");
    reveal_strlit("10001000001000100000000000000011");
    reveal_strlit("10001000001010001000101000100011");
    reveal_strlit("10001000001010100010100010001011");
    reveal_strlit("10001000100000100000100010100011");
    reveal_strlit("10001000101010001000000010000011");
    reveal_strlit("10100000000000001000100000001011");
    reveal_strlit("10100000000010001010001000100011");
    reveal_strlit("10100000001000001010000010101011");
    reveal_strlit("10100000100000000010000000000011");
    reveal_strlit("10100000100010001010000000001011");
    reveal_strlit("10100010100010101010001000000011");
    reveal_strlit("10101010100010100000001010000011");
    reveal_strlit("10101010101010101111111010111111");
    reveal_strlit("10101010101010111010101111111011");
    reveal_strlit("10101011111011101111111010111011");
    reveal_strlit("10101110101110111010101110101011");
    reveal_strlit("10101110101111101011111111111011");
    reveal_strlit("10101111101011111011101110101111");
    reveal_strlit("10101111111111111010111111101011");
    reveal_strlit("10111010101010101111101010101011");
    reveal_strlit("10111010111111101111101011111011");
    reveal_strlit("10111110111111111010111110101011");
    reveal_strlit("10111111111011101110111110101011");
    reveal_strlit("11101110101010101011101011101111");
    reveal_strlit("11101111101010111010111011111011");
    reveal_strlit("11101111101011101111111010111011");
    reveal_strlit("11111111111111111111111111111111");
    let rows = level_2_rows();
    let w: int = 32;
    assert(m.width == w && m.height == w);
    assert forall|i: int| 0 <= i < rows.len() implies #[trigger] rows[i].len() == w by {}
    lemma_rows_tiles_index(rows, w);
    assert forall|x: int| 0 <= x < w implies m.tile(x, 0) == WALL && m.tile(x, w - 1) == WALL by {
        assert(rows[0][x] == '1' && rows[w - 1][x] == '1');
    }
    assert forall|y: int| 0 <= y < w implies m.tile(0, y) == WALL && m.tile(w - 1, y) == WALL by {
        assert(rows[y][0] == '1' && rows[y][w - 1] == '1');
    }
    assert(rows[1][1] == '0' && rows[1][29] == '0' && rows[29][1] == '0' && rows[29][29] == '0');
}

} // verus!
