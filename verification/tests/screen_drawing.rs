use multiplayer_fps::hud::{draw_fps, draw_glyph, draw_str, fps_text, glyph};
use multiplayer_fps::map::level;
use multiplayer_fps::minimap::{draw_dot, draw_tiles};
use multiplayer_fps::screen::{put, FRAME_LEN, SCREEN_W};

fn px(frame: &[u8], x: usize, y: usize) -> [u8; 4] {
    let i = (y * SCREEN_W + x) * 4;
    [frame[i], frame[i + 1], frame[i + 2], frame[i + 3]]
}

const YELLOW: [u8; 4] = [255, 220, 0, 255];

#[test]
fn fps_text_is_decimal() {
    assert_eq!(fps_text(0), b"FPS:0".to_vec());
    assert_eq!(fps_text(60), b"FPS:60".to_vec());
    assert_eq!(fps_text(1234), b"FPS:1234".to_vec());
    assert_eq!(fps_text(u32::MAX), b"FPS:4294967295".to_vec());
}

#[test]
fn glyph_table() {
    assert_eq!(glyph(b'1'), Some([0b00100, 0b01100, 0b00100, 0b00100, 0b00100, 0b00100, 0b11111]));
    assert_eq!(glyph(b' '), Some([0; 7]));
    assert_eq!(glyph(b'x'), None);
}

#[test]
fn put_sets_one_pixel_and_skips_off_screen() {
    let mut f = vec![0u8; FRAME_LEN];
    put(&mut f, 3, 2, [1, 2, 3, 4]);
    assert_eq!(px(&f, 3, 2), [1, 2, 3, 4]);
    assert_eq!(f.iter().filter(|b| **b != 0).count(), 4);
    put(&mut f, 640, 0, [9, 9, 9, 9]);
    put(&mut f, 0, 480, [9, 9, 9, 9]);
    assert_eq!(f.iter().filter(|b| **b != 0).count(), 4);
}

#[test]
fn glyph_is_drawn_at_double_scale() {
    let mut f = vec![0u8; FRAME_LEN];
    let one = glyph(b'1').unwrap();
    draw_glyph(&mut f, &one, 10, 20);
    // top row of '1' is 0b00100: only font column 2 (screen x 14..16)
    assert_eq!(px(&f, 14, 20), YELLOW);
    assert_eq!(px(&f, 15, 21), YELLOW);
    assert_eq!(px(&f, 13, 20), [0; 4]);
    assert_eq!(px(&f, 16, 20), [0; 4]);
    // bottom row is full: x 10..20, y 32..34
    for x in 10..20 {
        assert_eq!(px(&f, x, 33), YELLOW);
    }
    // 1 + 2 + 1*4 + 5 font pixels lit, 4 screen pixels each
    let lit = f.chunks(4).filter(|c| *c == YELLOW).count();
    assert_eq!(lit, 4 * (1 + 2 + 1 + 1 + 1 + 1 + 5));
}

#[test]
fn glyph_off_the_edge_is_clipped() {
    let mut f = vec![0u8; FRAME_LEN];
    let eight = glyph(b'8').unwrap();
    draw_glyph(&mut f, &eight, 636, 470);
    // row 0 of the glyph is full; row 4 (0b10001) lights only column 0
    assert_eq!(px(&f, 639, 470), YELLOW);
    assert_eq!(px(&f, 636, 479), YELLOW);
    assert_eq!(px(&f, 639, 479), [0; 4]);
    let lit = f.chunks(4).filter(|c| *c == YELLOW).count();
    // only columns 636..640 and rows 470..480 are on screen
    assert!(lit > 0 && lit <= 40);
}

#[test]
fn draw_str_skips_unknown_characters() {
    let mut f = vec![0u8; FRAME_LEN];
    draw_str(&mut f, b"x1", 0, 0);
    // 'x' has no glyph: nothing in its cell; '1' starts at x = 12
    for x in 0..12 {
        for y in 0..14 {
            assert_eq!(px(&f, x, y), [0; 4]);
        }
    }
    assert_eq!(px(&f, 16, 0), YELLOW);
}

#[test]
fn fps_counter_is_right_aligned() {
    let mut f = vec![0u8; FRAME_LEN];
    draw_fps(&mut f, 60);
    // "FPS:60" is 6 characters, 72 pixels wide, ending 4 pixels from the edge
    let x0 = 640 - (72 + 4);
    // 'F' top row is full
    for x in x0..x0 + 10 {
        assert_eq!(px(&f, x, 4), YELLOW);
    }
    assert_eq!(px(&f, x0 - 1, 4), [0; 4]);
    // nothing below the text
    for x in 0..640 {
        assert_eq!(px(&f, x, 18), [0; 4]);
    }
}

#[test]
fn minimap_tiles_and_dot() {
    let mut f = vec![0u8; FRAME_LEN];
    let m = level(0);
    draw_tiles(&mut f, &m);
    let wall = [180, 180, 180, 255];
    let floor = [35, 35, 35, 255];
    assert_eq!(px(&f, 4, 4), wall);
    assert_eq!(px(&f, 7, 7), wall);
    assert_eq!(px(&f, 8, 8), floor);
    assert_eq!(px(&f, 11, 11), floor);
    assert_eq!(px(&f, 3, 4), [0; 4]);
    assert_eq!(px(&f, 4 + 16 * 4, 4), [0; 4]);
    assert_eq!(px(&f, 4 + 16 * 4 - 1, 4 + 16 * 4 - 1), wall);
    let mut g = vec![0u8; FRAME_LEN];
    draw_dot(&mut g, 0, 10, [1, 1, 1, 1]);
    // corner clamped at 0: columns 0..3, rows 9..12
    assert_eq!(px(&g, 0, 9), [1, 1, 1, 1]);
    assert_eq!(px(&g, 2, 11), [1, 1, 1, 1]);
    assert_eq!(px(&g, 3, 11), [0; 4]);
    assert_eq!(g.chunks(4).filter(|c| *c == [1, 1, 1, 1]).count(), 9);
}

#[test]
fn put_needs_only_the_pixels_bytes() {
    // one row of the screen is enough for a pixel on that row
    let mut f = vec![0u8; SCREEN_W * 4];
    put(&mut f, 5, 0, [1, 2, 3, 4]);
    assert_eq!(&f[20..24], &[1, 2, 3, 4]);
    // an off-screen pixel writes nothing, whatever the frame's size
    let mut e: Vec<u8> = Vec::new();
    put(&mut e, SCREEN_W, 0, [9, 9, 9, 9]);
    assert!(e.is_empty());
}
