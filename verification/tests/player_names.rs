use multiplayer_fps::player::PlayerState;

#[test]
fn name_round_trips() {
    let p = PlayerState::new(3, "Alice", 1, 2);
    assert_eq!(p.id, 3);
    assert_eq!((p.x, p.y, p.angle), (1, 2, 0));
    assert_eq!(&p.name[..5], b"Alice");
    assert!(p.name[5..].iter().all(|b| *b == 0));
    assert_eq!(p.name_str(), "Alice");
}

#[test]
fn sixteen_byte_name_fits_exactly() {
    let p = PlayerState::new(0, "abcdefghijklmnop", 0, 0);
    assert_eq!(p.name_str(), "abcdefghijklmnop");
}

#[test]
fn long_name_is_truncated_to_sixteen_bytes() {
    let p = PlayerState::new(0, "abcdefghijklmnopqrstuvwxyz", 0, 0);
    assert_eq!(&p.name, b"abcdefghijklmnop");
    assert_eq!(p.name_str(), "abcdefghijklmnop");
}

#[test]
fn multibyte_name_round_trips() {
    let p = PlayerState::new(0, "Zoë😀", 0, 0);
    assert_eq!(p.name_str(), "Zoë😀");
}

#[test]
fn name_cut_inside_a_character_reads_as_question_marks() {
    // 15 ASCII bytes and a 2-byte character: the cut leaves half a character.
    let p = PlayerState::new(0, "aaaaaaaaaaaaaaaé", 0, 0);
    assert_eq!(p.name[15], 0xc3);
    assert_eq!(p.name_str(), "???");
}

#[test]
fn name_stops_at_first_nul() {
    let mut p = PlayerState::new(0, "Bob", 0, 0);
    p.name[5] = b'x';
    assert_eq!(p.name_str(), "Bob");
    let empty = PlayerState::new(0, "", 0, 0);
    assert_eq!(empty.name_str(), "");
}

#[test]
fn invalid_utf8_name_reads_as_question_marks() {
    let mut p = PlayerState::new(0, "", 0, 0);
    p.name[0] = 0xff;
    p.name[1] = b'a';
    assert_eq!(p.name_str(), "???");
}
