use multiplayer_fps::map::{level, MazeMap, FLOOR, LEVEL_COUNT, WALL};

fn check_level(id: u8) {
    let map = level(id);

    // All rows must have the same width
    assert_eq!(map.tiles.len(), map.width * map.height);

    // Borders must all be walls
    for x in 0..map.width {
        assert_eq!(map.tiles[x], WALL, "level {id}: top border at x={x}");
        assert_eq!(
            map.tiles[(map.height - 1) * map.width + x],
            WALL,
            "level {id}: bottom border at x={x}"
        );
    }
    for y in 0..map.height {
        assert_eq!(map.tiles[y * map.width], WALL, "level {id}: left border at y={y}");
        assert_eq!(
            map.tiles[y * map.width + map.width - 1],
            WALL,
            "level {id}: right border at y={y}"
        );
    }

    // Spawn points must be on floor tiles
    for (sx, sy) in &map.spawn_points {
        let (sx, sy) = (f32::from_bits(*sx), f32::from_bits(*sy));
        assert!(
            !map.wall_at(sx as i32, sy as i32),
            "level {id}: spawn ({sx},{sy}) is on a wall"
        );
    }
}

#[test]
fn level_0_is_valid() {
    check_level(0);
}

#[test]
fn level_1_is_valid() {
    check_level(1);
}

#[test]
fn level_2_is_valid() {
    check_level(2);
}

#[test]
fn level_sizes_grow_with_difficulty() {
    let sizes: Vec<(usize, usize)> = (0..LEVEL_COUNT).map(|id| {
        let m = level(id);
        (m.width, m.height)
    }).collect();
    assert_eq!(sizes, vec![(16, 16), (24, 24), (32, 32)]);
}

#[test]
fn spawn_points_are_tile_centres() {
    let m = level(0);
    let spawns: Vec<(f32, f32)> = m
        .spawn_points
        .iter()
        .map(|(x, y)| (f32::from_bits(*x), f32::from_bits(*y)))
        .collect();
    assert_eq!(spawns, vec![(1.5, 1.5), (13.5, 1.5), (1.5, 13.5), (13.5, 13.5)]);
    let m = level(2);
    assert_eq!(f32::from_bits(m.spawn_points[3].0), 29.5);
    let m = level(1);
    assert_eq!(f32::from_bits(m.spawn_points[1].0), 21.5);
}

#[test]
fn wall_at_outside_the_grid_is_a_wall() {
    let m = level(0);
    assert!(m.wall_at(-1, 5));
    assert!(m.wall_at(5, -1));
    assert!(m.wall_at(16, 5));
    assert!(m.wall_at(5, 16));
    assert!(m.wall_at(i32::MIN, i32::MAX));
}

#[test]
fn wall_at_reads_row_major_tiles() {
    let m = level(0);
    // Row 2 of level 0 is "1011101110111101".
    let row = "1011101110111101";
    for (x, ch) in row.chars().enumerate() {
        assert_eq!(m.wall_at(x as i32, 2), ch == '1', "x={x}");
        assert_eq!(m.tiles[2 * 16 + x], if ch == '1' { WALL } else { FLOOR });
    }
    assert!(!m.wall_at(1, 1));
    assert!(m.wall_at(0, 0));
}

#[test]
fn custom_map_wall_query() {
    let m = MazeMap { id: 9, width: 3, height: 2, tiles: vec![1, 0, 1, 0, 0, 1], spawn_points: vec![] };
    assert!(m.wall_at(0, 0));
    assert!(!m.wall_at(1, 0));
    assert!(!m.wall_at(0, 1));
    assert!(m.wall_at(2, 1));
    assert!(m.wall_at(3, 0));
}
