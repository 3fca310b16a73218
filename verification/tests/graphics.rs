use marginalia::graphics::{
    _print, enter, glyph, is_active, palette_dac_bytes, palette_entry, pixel_at, write_annotation,
    write_margin_note, Display, Writer, ANNOTATION_INK, COLUMNS, HEIGHT, MARGIN_NOTE_INK, PAPER,
    ROWS, WIDTH,
};

const BLOCK: char = '\u{3a9}';

fn painted() -> Display {
    let mut display = Display::new();
    enter(&mut display);
    display
}

fn page_of(display: &Display) -> Vec<u8> {
    let mut pixels = Vec::new();
    for y in 0..HEIGHT {
        for x in 0..WIDTH {
            pixels.push(pixel_at(display, x, y));
        }
    }
    pixels
}

#[test]
fn sepia_ink_lands_where_ruled() {
    let mut display = painted();
    write_annotation(&mut display, &format!("{}", BLOCK));
    let y = (ROWS - 2) * 8 + 1;
    assert_eq!(pixel_at(&display, 1, y), ANNOTATION_INK);
    assert_eq!(pixel_at(&display, 0, y - 1), PAPER);
}

#[test]
fn a_fault_note_is_set_in_yellow() {
    let mut display = painted();
    write_margin_note(&mut display, &format!("{}", BLOCK));
    let y = (ROWS - 2) * 8 + 1;
    assert_eq!(pixel_at(&display, 1, y), MARGIN_NOTE_INK);
}

#[test]
fn the_page_scrolls_without_losing_the_line() {
    let mut display = painted();
    write_annotation(&mut display, &format!("{}", BLOCK));
    write_annotation(&mut display, "");
    let y = (ROWS - 3) * 8 + 1;
    assert_eq!(pixel_at(&display, 1, y), ANNOTATION_INK);
}

#[test]
fn annotation_survives_a_bare_boot() {
    let mut display = Display::new();
    _print(&mut display, "an annotation set with nothing else prepared\n");
    write_annotation(&mut display, "and another");
    write_margin_note(&mut display, "and a note");
    assert!(!is_active(&display));
}

#[test]
fn entering_paints_the_page_in_paper() {
    let mut display = Display::new();
    assert!(!is_active(&display));
    enter(&mut display);
    assert!(is_active(&display));
    assert!(page_of(&display).iter().all(|&p| p == PAPER));
}

#[test]
fn fallback_block_fills_its_cell_but_the_margin() {
    let mut display = painted();
    write_margin_note(&mut display, &format!("{}", BLOCK));
    let top = (ROWS - 2) * 8;
    for dy in 0..8 {
        for dx in 0..8 {
            let expected = if (1..7).contains(&dy) && (1..7).contains(&dx) {
                MARGIN_NOTE_INK
            } else {
                PAPER
            };
            assert_eq!(pixel_at(&display, dx, top + dy), expected);
        }
    }
    // the bottom line is paper again after the note's new line
    for x in 0..WIDTH {
        for y in (ROWS - 1) * 8..HEIGHT {
            assert_eq!(pixel_at(&display, x, y), PAPER);
        }
    }
}

#[test]
fn print_stays_on_the_line_in_annotation_ink() {
    let mut display = painted();
    _print(&mut display, &format!("{}{}", BLOCK, BLOCK));
    let y = (ROWS - 1) * 8 + 1;
    assert_eq!(pixel_at(&display, 1, y), ANNOTATION_INK);
    assert_eq!(pixel_at(&display, 9, y), ANNOTATION_INK);
    assert_eq!(pixel_at(&display, 17, y), PAPER);
}

#[test]
fn printing_in_pieces_is_printing_the_whole() {
    let mut pieces = painted();
    _print(&mut pieces, "ab");
    _print(&mut pieces, "c\u{e9}");
    write_annotation(&mut pieces, "d");
    let mut whole = painted();
    write_annotation(&mut whole, "abc\u{e9}d");
    assert_eq!(page_of(&pieces), page_of(&whole));
}

#[test]
fn margin_note_and_annotation_differ_only_in_ink() {
    let mut note = painted();
    write_margin_note(&mut note, "ink");
    let mut annotation = painted();
    write_annotation(&mut annotation, "ink");
    let note_page = page_of(&note);
    let annotation_page = page_of(&annotation);
    for (n, a) in note_page.iter().zip(annotation_page.iter()) {
        match *a {
            ANNOTATION_INK => assert_eq!(*n, MARGIN_NOTE_INK),
            other => assert_eq!(*n, other),
        }
    }
    assert!(note_page.contains(&MARGIN_NOTE_INK));
}

#[test]
fn every_pixel_stays_paper_or_ink() {
    let mut display = painted();
    write_annotation(&mut display, "MARGINALIA");
    write_margin_note(&mut display, "\u{b6} the text breaks off");
    _print(&mut display, "\u{263a} unknown glyphs fall back");
    assert!(page_of(&display)
        .iter()
        .all(|&p| p == PAPER || p == ANNOTATION_INK || p == MARGIN_NOTE_INK));
}

#[test]
fn a_full_line_wraps_to_a_new_one() {
    let mut writer = Writer::new();
    let block = glyph(BLOCK);
    for _ in 0..COLUMNS {
        writer.put_glyph(block);
    }
    assert_eq!(writer.column(), COLUMNS);
    let bottom = (ROWS - 1) * 8 + 1;
    assert_eq!(writer.pixel((COLUMNS - 1) * 8 + 1, bottom), ANNOTATION_INK);
    writer.put_glyph(block);
    assert_eq!(writer.column(), 1);
    // the full line moved up; the new glyph sits at column 0 of the bottom line
    assert_eq!(writer.pixel((COLUMNS - 1) * 8 + 1, bottom - 8), ANNOTATION_INK);
    assert_eq!(writer.pixel((COLUMNS - 1) * 8 + 1, bottom), PAPER);
    assert_eq!(writer.pixel(1, bottom), ANNOTATION_INK);
}

#[test]
fn glyph_bits_run_from_the_left_edge() {
    let mut writer = Writer::new();
    writer.put_glyph([0x01, 0x80, 0x00, 0x00, 0x00, 0x00, 0x00, 0xff]);
    let top = (ROWS - 1) * 8;
    assert_eq!(writer.pixel(0, top), ANNOTATION_INK);
    assert_eq!(writer.pixel(7, top), PAPER);
    assert_eq!(writer.pixel(7, top + 1), ANNOTATION_INK);
    assert_eq!(writer.pixel(0, top + 1), PAPER);
    for dx in 0..8 {
        assert_eq!(writer.pixel(dx, top + 7), ANNOTATION_INK);
        assert_eq!(writer.pixel(8 + dx, top + 7), PAPER);
    }
    assert_eq!(writer.column(), 1);
}

#[test]
fn new_line_moves_everything_up_eight_rows() {
    let mut writer = Writer::new();
    writer.write_char('A');
    let before: Vec<u8> = (0..HEIGHT)
        .flat_map(|y| (0..WIDTH).map(move |x| (x, y)))
        .map(|(x, y)| writer.pixel(x, y))
        .collect();
    writer.write_char('\n');
    assert_eq!(writer.column(), 0);
    for y in 0..HEIGHT {
        for x in 0..WIDTH {
            let expected = if y + 8 < HEIGHT { before[(y + 8) * WIDTH + x] } else { PAPER };
            assert_eq!(writer.pixel(x, y), expected);
        }
    }
}

#[test]
fn write_str_writes_each_character() {
    let mut by_str = Writer::new();
    by_str.write_str("a\nb");
    let mut by_char = Writer::new();
    by_char.write_char('a');
    by_char.write_char('\n');
    by_char.write_char('b');
    assert_eq!(by_str.column(), 1);
    for y in 0..HEIGHT {
        for x in 0..WIDTH {
            assert_eq!(by_str.pixel(x, y), by_char.pixel(x, y));
        }
    }
}

#[test]
fn basic_latin_glyphs_come_from_the_font() {
    assert_eq!(glyph('A'), [0x0C, 0x1E, 0x33, 0x33, 0x3F, 0x33, 0x33, 0x00]);
    assert_eq!(glyph(' '), [0x00; 8]);
    assert_eq!(glyph('\u{7f}'), [0x00; 8]);
}

#[test]
fn latin_one_glyphs_come_from_the_font() {
    assert_eq!(glyph('\u{e9}'), [0x38, 0x00, 0x1E, 0x33, 0x3F, 0x03, 0x1E, 0x00]);
    assert_eq!(glyph('\u{a0}'), [0x00; 8]);
}

#[test]
fn characters_outside_the_font_get_the_block() {
    let block = [0x00, 0x7e, 0x7e, 0x7e, 0x7e, 0x7e, 0x7e, 0x00];
    assert_eq!(glyph(BLOCK), block);
    assert_eq!(glyph('\u{80}'), block);
    assert_eq!(glyph('\u{9f}'), block);
    assert_eq!(glyph('\u{100}'), block);
}

#[test]
fn the_ink_is_true_sepia_at_last() {
    assert_eq!(palette_entry(ANNOTATION_INK), (28, 17, 5));
    assert_eq!(palette_entry(MARGIN_NOTE_INK), (56, 45, 8));
    assert_eq!(palette_entry(PAPER), (0, 0, 0));
    assert_eq!(palette_entry(255), (0, 0, 0));
}

#[test]
fn the_dac_is_programmed_index_by_index() {
    let bytes = palette_dac_bytes();
    assert_eq!(bytes.len(), 768);
    assert_eq!(&bytes[0..9], &[0, 0, 0, 28, 17, 5, 56, 45, 8]);
    assert!(bytes[9..].iter().all(|&b| b == 0));
}
