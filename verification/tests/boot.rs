use marginalia::boot::boot_sequence;
use marginalia::graphics::{
    enter, is_active, pixel_at, with_ink, write_annotation, Display, Writer, ANNOTATION_INK,
    HEIGHT, MARGIN_NOTE_INK, PAPER, ROWS, WIDTH,
};
use marginalia::vga::{
    mode_13h_step, palette_accesses, PortAccess, DAC_DATA_PORT, DAC_WRITE_INDEX_PORT,
    MODE_13H_ACCESSES,
};

fn page_of(display: &Display) -> Vec<u8> {
    (0..HEIGHT)
        .flat_map(|y| (0..WIDTH).map(move |x| (x, y)))
        .map(|(x, y)| pixel_at(display, x, y))
        .collect()
}

#[test]
fn boot_sequence_is_fifteen_annotations() {
    let mut booted = Display::new();
    enter(&mut booted);
    boot_sequence(&mut booted);
    let mut by_hand = Display::new();
    enter(&mut by_hand);
    for line in [
        "MARGINALIA",
        "an annotated machine, begun again",
        "",
        "leaf i.    the processor holds long mode",
        "leaf ii.   forty columns at 0xa0000",
        "leaf iii.  faults become annotations",
        "leaf iv.   a quire kept against doubling",
        "leaf v.    bells at 32; the keys speak",
        "leaf vi.   memory charted from an offset",
        "leaf vii.  a heap at 0x4444_4444_0000",
        "leaf viii. each task writes in its turn",
        "leaf ix.   the ink is true sepia at last",
        "",
        "the margin is quiet.",
        "it will note what follows.",
    ] {
        write_annotation(&mut by_hand, line);
    }
    assert_eq!(page_of(&booted), page_of(&by_hand));
    // the last line stands just above the empty bottom line
    let last_line: Vec<u8> = (0..8)
        .flat_map(|dy| (0..WIDTH).map(move |x| (x, (ROWS - 2) * 8 + dy)))
        .map(|(x, y)| pixel_at(&booted, x, y))
        .collect();
    assert!(last_line.contains(&ANNOTATION_INK));
}

#[test]
fn boot_sequence_without_a_page_writes_nothing() {
    let mut display = Display::new();
    boot_sequence(&mut display);
    assert!(!is_active(&display));
}

#[test]
fn rows_new_lines_clear_the_page() {
    let mut writer = Writer::new();
    for c in "every column of the line".chars() {
        writer.write_char(c);
    }
    for _ in 0..ROWS - 1 {
        writer.new_line();
    }
    let survivors = (0..HEIGHT)
        .flat_map(|y| (0..WIDTH).map(move |x| (x, y)))
        .filter(|&(x, y)| writer.pixel(x, y) != PAPER)
        .count();
    assert!(survivors > 0);
    for y in 8..HEIGHT {
        for x in 0..WIDTH {
            assert_eq!(writer.pixel(x, y), PAPER);
        }
    }
    writer.new_line();
    for y in 0..HEIGHT {
        for x in 0..WIDTH {
            assert_eq!(writer.pixel(x, y), PAPER);
        }
    }
}

#[test]
fn a_note_in_pieces_is_the_note_whole() {
    let mut pieces = Display::new();
    enter(&mut pieces);
    with_ink(&mut pieces, MARGIN_NOTE_INK, "the scribe's ", false);
    with_ink(&mut pieces, MARGIN_NOTE_INK, "last words", false);
    with_ink(&mut pieces, MARGIN_NOTE_INK, "", true);
    let mut whole = Display::new();
    enter(&mut whole);
    with_ink(&mut whole, MARGIN_NOTE_INK, "the scribe's last words", true);
    assert_eq!(page_of(&pieces), page_of(&whole));
}

#[test]
fn mode_13h_schedule_plays_back_in_order() {
    let mut accesses = Vec::new();
    let mut step = 0;
    while let Some(access) = mode_13h_step(step, 0x12) {
        accesses.push(access);
        step += 1;
    }
    assert_eq!(accesses.len(), MODE_13H_ACCESSES);
    assert_eq!(accesses[0], PortAccess::Write(0x3c2, 0x63));
    assert_eq!(accesses[1], PortAccess::Write(0x3c4, 0));
    assert_eq!(accesses[2], PortAccess::Write(0x3c5, 0x03));
    assert_eq!(accesses[10], PortAccess::Write(0x3c5, 0x0e));
    assert_eq!(accesses[11], PortAccess::Write(0x3d4, 0x03));
    assert_eq!(accesses[12], PortAccess::Read(0x3d5));
    assert_eq!(accesses[13], PortAccess::Write(0x3d5, 0x92));
    assert_eq!(accesses[14], PortAccess::Write(0x3d4, 0x11));
    assert_eq!(accesses[15], PortAccess::Read(0x3d5));
    assert_eq!(accesses[16], PortAccess::Write(0x3d5, 0x12));
    assert_eq!(accesses[17], PortAccess::Write(0x3d4, 0));
    assert_eq!(accesses[18], PortAccess::Write(0x3d5, 0x5f));
    assert_eq!(accesses[66], PortAccess::Write(0x3d5, 0xff));
    assert_eq!(accesses[67], PortAccess::Write(0x3ce, 0));
    assert_eq!(accesses[84], PortAccess::Write(0x3cf, 0xff));
    assert_eq!(accesses[85], PortAccess::Read(0x3da));
    assert_eq!(accesses[86], PortAccess::Write(0x3c0, 0));
    assert_eq!(accesses[87], PortAccess::Write(0x3c0, 0x00));
    assert_eq!(accesses[134], PortAccess::Write(0x3c0, 16));
    assert_eq!(accesses[135], PortAccess::Write(0x3c0, 0x41));
    assert_eq!(accesses[148], PortAccess::Read(0x3da));
    assert_eq!(accesses[149], PortAccess::Write(0x3c0, 0x20));
    let reads = accesses.iter().filter(|a| matches!(a, PortAccess::Read(_))).count();
    assert_eq!(reads, 24);
}

#[test]
fn crtc_unlock_follows_the_values_read() {
    assert_eq!(mode_13h_step(13, 0x00), Some(PortAccess::Write(0x3d5, 0x80)));
    assert_eq!(mode_13h_step(16, 0xff), Some(PortAccess::Write(0x3d5, 0x7f)));
    assert_eq!(mode_13h_step(16, 0x8e), Some(PortAccess::Write(0x3d5, 0x0e)));
    assert_eq!(mode_13h_step(150, 0), None);
    assert_eq!(mode_13h_step(usize::MAX, 0), None);
}

#[test]
fn writing_in_annotation_ink_keeps_the_annotation_ink() {
    let mut display = Display::new();
    enter(&mut display);
    with_ink(&mut display, ANNOTATION_INK, "\u{3a9}", false);
    assert_eq!(pixel_at(&display, 1, (ROWS - 1) * 8 + 1), ANNOTATION_INK);
}

#[test]
fn a_long_note_lifts_the_page_by_its_lines() {
    let block = "\u{3a9}";
    let mut display = Display::new();
    enter(&mut display);
    write_annotation(&mut display, block);
    // the marker stands on the second line from the bottom
    let marker_y = (ROWS - 2) * 8 + 1;
    assert_eq!(pixel_at(&display, 1, marker_y), ANNOTATION_INK);
    // 41 characters wrap once: two lines, then the line ends
    write_annotation(&mut display, &"x".repeat(41));
    assert_eq!(pixel_at(&display, 1, marker_y - 16), ANNOTATION_INK);
    assert_eq!(pixel_at(&display, 1, marker_y - 8), PAPER);
}

#[test]
fn columns_advance_and_wrap() {
    let mut writer = Writer::new();
    writer.write_str(&"x".repeat(40));
    assert_eq!(writer.column(), 40);
    writer.write_str("y");
    assert_eq!(writer.column(), 1);
    writer.write_str(&"z".repeat(42));
    assert_eq!(writer.column(), 3);
}

#[test]
fn new_lines_move_the_page_up_by_whole_lines() {
    let mut stepped = Writer::new();
    let mut at_once = Writer::new();
    for w in [&mut stepped, &mut at_once] {
        w.write_str("first line\nsecond line");
    }
    for _ in 0..3 {
        stepped.new_line();
    }
    at_once.new_lines(3);
    assert_eq!(at_once.column(), 0);
    for y in 0..HEIGHT {
        for x in 0..WIDTH {
            assert_eq!(stepped.pixel(x, y), at_once.pixel(x, y));
        }
    }
    // the old bottom line now stands three lines higher
    let mut before = Writer::new();
    before.write_str("first line\nsecond line");
    for y in 24..HEIGHT {
        for x in 0..WIDTH {
            assert_eq!(at_once.pixel(x, y - 24), before.pixel(x, y));
        }
    }
    at_once.new_lines(ROWS);
    for y in 0..HEIGHT {
        for x in 0..WIDTH {
            assert_eq!(at_once.pixel(x, y), PAPER);
        }
    }
    let column = at_once.column();
    at_once.new_lines(0);
    assert_eq!(at_once.column(), column);
}

#[test]
fn the_palette_starts_at_index_zero() {
    let accesses = palette_accesses();
    assert_eq!(accesses.len(), 769);
    assert_eq!(accesses[0], PortAccess::Write(0x3c8, 0));
    assert_eq!(DAC_WRITE_INDEX_PORT, 0x3c8);
    assert_eq!(DAC_DATA_PORT, 0x3c9);
    assert_eq!(accesses[4], PortAccess::Write(0x3c9, 28));
    assert_eq!(accesses[5], PortAccess::Write(0x3c9, 17));
    assert_eq!(accesses[6], PortAccess::Write(0x3c9, 5));
    assert_eq!(accesses[7], PortAccess::Write(0x3c9, 56));
    assert_eq!(accesses[9], PortAccess::Write(0x3c9, 8));
    assert!(accesses[10..].iter().all(|a| *a == PortAccess::Write(0x3c9, 0)));
}
