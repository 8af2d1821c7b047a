use multiplayer_fps::raycast::{column_span, draw_sprite, fill_columns, sprite_columns};
use multiplayer_fps::screen::{blit_xrgb, FRAME_LEN, SCREEN_H, SCREEN_W};

fn px(frame: &[u8], x: usize, y: usize) -> [u8; 4] {
    let i = (y * SCREEN_W + x) * 4;
    [frame[i], frame[i + 1], frame[i + 2], frame[i + 3]]
}

#[test]
fn column_span_is_centred_and_clamped() {
    assert_eq!(column_span(100), (190, 290));
    assert_eq!(column_span(101), (189, 290));
    assert_eq!(column_span(480), (0, 480));
    assert_eq!(column_span(10_000), (0, 480));
    assert_eq!(column_span(0), (240, 240));
    // odd negative sums round toward zero, as machine division does
    assert_eq!(column_span(481), (0, 480));
}

#[test]
fn sprite_columns_are_clamped_to_the_screen() {
    assert_eq!(sprite_columns(320, 100), (270, 370));
    assert_eq!(sprite_columns(10, 100), (0, 60));
    assert_eq!(sprite_columns(630, 100), (580, 640));
    assert_eq!(sprite_columns(-200, 100), (0, 0));
    assert_eq!(sprite_columns(320, 7), (317, 323));
}

#[test]
fn fill_columns_paints_ceiling_wall_floor() {
    let mut f = vec![7u8; FRAME_LEN];
    let mut starts = [0usize; SCREEN_W];
    let mut ends = [0usize; SCREEN_W];
    let mut colors = [[0u8; 4]; SCREEN_W];
    for x in 0..SCREEN_W {
        starts[x] = 100;
        ends[x] = 300;
        colors[x] = if x % 2 == 0 { [200, 200, 200, 255] } else { [110, 110, 110, 255] };
    }
    starts[5] = 0;
    ends[5] = SCREEN_H;
    fill_columns(&mut f, &starts, &ends, &colors);
    assert_eq!(px(&f, 0, 99), [20, 20, 40, 255]);
    assert_eq!(px(&f, 0, 100), [200, 200, 200, 255]);
    assert_eq!(px(&f, 1, 299), [110, 110, 110, 255]);
    assert_eq!(px(&f, 1, 300), [45, 30, 15, 255]);
    assert_eq!(px(&f, 5, 0), [110, 110, 110, 255]);
    assert_eq!(px(&f, 5, 479), [110, 110, 110, 255]);
    assert!(!f.contains(&7));
}

#[test]
fn draw_sprite_writes_only_drawable_columns() {
    let mut f = vec![0u8; FRAME_LEN];
    let mut drawable = [false; SCREEN_W];
    drawable[10] = true;
    drawable[12] = true;
    drawable[50] = true;
    draw_sprite(&mut f, 10, 20, 5, 8, &drawable);
    let sprite = [220, 70, 70, 255];
    assert_eq!(px(&f, 10, 5), sprite);
    assert_eq!(px(&f, 12, 7), sprite);
    assert_eq!(px(&f, 11, 6), [0; 4]);
    assert_eq!(px(&f, 50, 6), [0; 4]);
    assert_eq!(px(&f, 10, 8), [0; 4]);
    assert_eq!(f.chunks(4).filter(|c| *c == sprite).count(), 6);
    // an empty range draws nothing
    let mut g = vec![0u8; FRAME_LEN];
    draw_sprite(&mut g, 30, 20, 5, 8, &drawable);
    draw_sprite(&mut g, 0, 640, 9, 3, &drawable);
    assert!(g.iter().all(|b| *b == 0));
}

#[test]
fn blit_packs_rgb_and_drops_alpha() {
    let rgba = vec![0x12, 0x34, 0x56, 0xff, 1, 2, 3, 4, 9];
    let mut out = vec![0xdead_beef_u32; 3];
    blit_xrgb(&rgba, &mut out);
    assert_eq!(out, vec![0x0012_3456, 0x0001_0203, 0xdead_beef]);
    let mut short = vec![0u32; 1];
    blit_xrgb(&rgba, &mut short);
    assert_eq!(short, vec![0x0012_3456]);
}
