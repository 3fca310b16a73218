//! What holds of the page across writes: where glyphs land, how lines
//! move up, and what the page's pixels and ink can be.

use vstd::prelude::*;
use vstd::arithmetic::div_mod::{lemma_fundamental_div_mod, lemma_fundamental_div_mod_converse};
use crate::font::{basic_legacy_rows, latin_legacy_rows};
use crate::graphics::{
    fallback_rows, palette_rgb,
    after_char, after_glyph, after_new_line, after_text, glyph_rows, in_cell, ink_bit, lemma_pixel_coords,
    lemma_text_keeps_page_wf, noted, pixel_index, scrolled, stamped, Page, ANNOTATION_INK, COLUMNS, HEIGHT,
    MARGIN_NOTE_INK, PAPER, ROWS, WIDTH,
};

verus! {

/// A palette index that the display paints with: paper or one of the inks.
pub open spec fn in_palette(color: u8) -> bool {
    color == PAPER || color == ANNOTATION_INK || color == MARGIN_NOTE_INK
}

/// Every pixel is paper or one of the inks.
pub open spec fn all_in_palette(pixels: Seq<u8>) -> bool {
    forall|i: int| 0 <= i < pixels.len() ==> #[trigger] in_palette(pixels[i])
}

/// A new line moves every line of the page up by one text line: the pixel
/// at `(x, y)` is the one that was eight rows below it, and the bottom
/// eight rows are paper.
pub proof fn law_scroll_moves_lines_up(pixels: Seq<u8>, x: int, y: int)
    requires
        pixels.len() == WIDTH * HEIGHT,
        0 <= x < WIDTH,
        0 <= y < HEIGHT,
    ensures
        scrolled(pixels)[pixel_index(x, y)] == if y + 8 < HEIGHT {
            pixels[pixel_index(x, y + 8)]
        } else {
            PAPER
        },
{
}

/// A glyph lands in the cell of its column on the bottom line (column 0
/// after a new line when the line was full): pixel `dx` of glyph row `dy`
/// is ink where the row's bit `dx` is set and paper where it is not.
pub proof fn law_glyph_lands_in_its_cell(page: Page, rows: Seq<u8>, dx: int, dy: int)
    requires
        page.wf(),
        0 <= dx < 8,
        0 <= dy < 8,
    ensures
        ({
            let column = if page.column >= COLUMNS {
                0
            } else {
                page.column as int
            };
            after_glyph(page, rows).pixels[pixel_index(column * 8 + dx, (ROWS - 1) * 8 + dy)]
                == if (rows[dy] >> (dx as u8)) & 1u8 == 1u8 {
                page.ink
            } else {
                PAPER
            }
        }),
{
    let column = if page.column >= COLUMNS {
        0
    } else {
        page.column as int
    };
    lemma_pixel_coords(column * 8 + dx, (ROWS - 1) * 8 + dy);
    law_glyph_bit_is_pixel_from_left(rows[dy], dx);
}

/// Setting a glyph touches no pixel outside its cell: every other pixel
/// keeps the value it had on the line the glyph is set on.
pub proof fn law_glyph_leaves_other_pixels(page: Page, rows: Seq<u8>, x: int, y: int)
    requires
        page.wf(),
        0 <= x < WIDTH,
        0 <= y < HEIGHT,
        !in_cell(
            if page.column >= COLUMNS {
                0
            } else {
                page.column as int
            },
            x,
            y,
        ),
    ensures
        after_glyph(page, rows).pixels[pixel_index(x, y)] == if page.column >= COLUMNS {
            scrolled(page.pixels)[pixel_index(x, y)]
        } else {
            page.pixels[pixel_index(x, y)]
        },
{
    lemma_pixel_coords(x, y);
}

/// Writing one character after another is writing the two texts joined.
pub proof fn law_text_concatenates(page: Page, first: Seq<char>, second: Seq<char>)
    ensures
        after_text(page, first + second) == after_text(after_text(page, first), second),
    decreases second.len(),
{
    if second.len() == 0 {
        assert(first + second =~= first);
    } else {
        law_text_concatenates(page, first, second.drop_last());
        assert((first + second).drop_last() =~= first + second.drop_last());
        assert((first + second).last() == second.last());
    }
}

/// A note that ends its line leaves the page on a fresh line, in
/// annotation ink, with the page still of the display's size; a note that
/// does not end its line still leaves annotation ink.
pub proof fn law_note_ends_on_fresh_line(page: Page, ink: u8, text: Seq<char>)
    requires
        page.wf(),
    ensures
        noted(page, ink, text, true).column == 0,
        noted(page, ink, text, true).ink == ANNOTATION_INK,
        noted(page, ink, text, true).wf(),
        noted(page, ink, text, false).ink == ANNOTATION_INK,
        noted(page, ink, text, false).wf(),
{
    lemma_text_keeps_page_wf(Page { column: page.column, ink: ink, pixels: page.pixels }, text);
}

/// A character noted on its own line, at a column short of the end, rises
/// with the new line that closes the note: its glyph stands in the same
/// column on the second line from the bottom, in the note's ink.
pub proof fn law_note_rises_one_line(page: Page, ink: u8, c: char, dx: int, dy: int)
    requires
        page.wf(),
        page.column < COLUMNS,
        c != '\n',
        0 <= dx < 8,
        0 <= dy < 8,
    ensures
        noted(page, ink, seq![c], true).pixels[pixel_index(
            page.column * 8 + dx,
            (ROWS - 2) * 8 + dy,
        )] == if (glyph_rows(c)[dy] >> (dx as u8)) & 1u8 == 1u8 {
            ink
        } else {
            PAPER
        },
{
    let inked = Page { column: page.column, ink: ink, pixels: page.pixels };
    assert(seq![c].drop_last() =~= Seq::<char>::empty());
    assert(after_text(inked, seq![c].drop_last()) == inked);
    assert(seq![c].last() == c);
    let set = after_glyph(inked, glyph_rows(c));
    law_glyph_lands_in_its_cell(inked, glyph_rows(c), dx, dy);
    law_scroll_moves_lines_up(set.pixels, page.column * 8 + dx, (ROWS - 2) * 8 + dy);
}

proof fn lemma_scroll_keeps_palette(pixels: Seq<u8>)
    requires
        pixels.len() == WIDTH * HEIGHT,
        all_in_palette(pixels),
    ensures
        all_in_palette(scrolled(pixels)),
{
    assert forall|i: int| 0 <= i < scrolled(pixels).len() implies #[trigger] in_palette(
        scrolled(pixels)[i],
    ) by {
        if i < WIDTH * (HEIGHT - 8) && i + WIDTH * 8 < pixels.len() {
            assert(in_palette(pixels[i + WIDTH * 8]));
        }
    }
}

proof fn lemma_char_keeps_palette(page: Page, c: char)
    requires
        page.wf(),
        all_in_palette(page.pixels),
        in_palette(page.ink),
    ensures
        all_in_palette(after_char(page, c).pixels),
        after_char(page, c).ink == page.ink,
{
    lemma_scroll_keeps_palette(page.pixels);
    let line = if page.column >= COLUMNS {
        after_new_line(page)
    } else {
        page
    };
    let out = stamped(line.pixels, line.column as int, line.ink, glyph_rows(c));
    assert forall|i: int| 0 <= i < out.len() implies #[trigger] in_palette(out[i]) by {
        assert(in_palette(line.pixels[i]));
    }
}

proof fn lemma_text_keeps_palette(page: Page, text: Seq<char>)
    requires
        page.wf(),
        all_in_palette(page.pixels),
        in_palette(page.ink),
    ensures
        all_in_palette(after_text(page, text).pixels),
        after_text(page, text).ink == page.ink,
    decreases text.len(),
{
    if text.len() > 0 {
        lemma_text_keeps_palette(page, text.drop_last());
        lemma_text_keeps_page_wf(page, text.drop_last());
        lemma_char_keeps_palette(after_text(page, text.drop_last()), text.last());
    }
}

/// Notes in one of the display's inks paint only with paper and inks: a
/// page whose pixels are all paper or ink stays so.
pub proof fn law_pixels_stay_in_palette(page: Page, ink: u8, text: Seq<char>, end_line: bool)
    requires
        page.wf(),
        all_in_palette(page.pixels),
        in_palette(ink),
    ensures
        all_in_palette(noted(page, ink, text, end_line).pixels),
{
    let inked = Page { column: page.column, ink: ink, pixels: page.pixels };
    lemma_text_keeps_palette(inked, text);
    lemma_text_keeps_page_wf(inked, text);
    lemma_char_keeps_palette(after_text(inked, text), '\n');
}

/// The freshly painted page is all paper.
pub proof fn law_blank_page_in_palette()
    ensures
        all_in_palette(Page::blank().pixels),
        Page::blank().wf(),
{
}


/// The pixels after `count` new lines in a row.
pub open spec fn scrolled_times(pixels: Seq<u8>, count: nat) -> Seq<u8>
    decreases count,
{
    if count == 0 {
        pixels
    } else {
        scrolled(scrolled_times(pixels, (count - 1) as nat))
    }
}

/// After `count` new lines in a row, the pixel at position `i` is the one
/// that was `count` text lines (`count * 8` rows) below it, or paper where
/// nothing was that far below.
pub proof fn law_new_lines_move_lines_up(pixels: Seq<u8>, count: nat, i: int)
    requires
        pixels.len() == WIDTH * HEIGHT,
        0 <= i < WIDTH * HEIGHT,
    ensures
        scrolled_times(pixels, count).len() == WIDTH * HEIGHT,
        scrolled_times(pixels, count)[i] == if i + count * (WIDTH * 8) < WIDTH * HEIGHT {
            pixels[i + count * (WIDTH * 8)]
        } else {
            PAPER
        },
    decreases count,
{
    if count > 0 {
        law_new_lines_move_lines_up(pixels, (count - 1) as nat, i);
        if i < WIDTH * (HEIGHT - 8) {
            law_new_lines_move_lines_up(pixels, (count - 1) as nat, i + WIDTH * 8);
        }
    }
}

/// A new line for every text line of the page leaves the page all paper.
pub proof fn law_rows_new_lines_clear_page(pixels: Seq<u8>)
    requires
        pixels.len() == WIDTH * HEIGHT,
    ensures
        scrolled_times(pixels, ROWS as nat) =~= Seq::new((WIDTH * HEIGHT) as nat, |i: int| PAPER),
{
    assert forall|i: int| 0 <= i < WIDTH * HEIGHT implies #[trigger] scrolled_times(
        pixels,
        ROWS as nat,
    )[i] == PAPER by {
        assert(ROWS == 25);
        law_new_lines_move_lines_up(pixels, ROWS as nat, i);
    }
    law_new_lines_move_lines_up(pixels, ROWS as nat, 0);
}

/// Three pixel sequences written alike in inks `a`, `b` and `c`: at each
/// position they agree, or they hold exactly the three inks.
spec fn inked_alike(pa: Seq<u8>, pb: Seq<u8>, pc: Seq<u8>, a: u8, b: u8, c: u8) -> bool {
    &&& pa.len() == WIDTH * HEIGHT
    &&& pb.len() == WIDTH * HEIGHT
    &&& pc.len() == WIDTH * HEIGHT
    &&& forall|i: int|
        0 <= i < WIDTH * HEIGHT ==> {
            ||| (#[trigger] pa[i] == pb[i] && pc[i] == pa[i])
            ||| (pa[i] == a && pb[i] == b && pc[i] == c)
        }
}

proof fn lemma_scroll_inked_alike(pa: Seq<u8>, pb: Seq<u8>, pc: Seq<u8>, a: u8, b: u8, c: u8)
    requires
        inked_alike(pa, pb, pc, a, b, c),
    ensures
        inked_alike(scrolled(pa), scrolled(pb), scrolled(pc), a, b, c),
{
    assert forall|i: int| 0 <= i < WIDTH * HEIGHT implies {
        ||| (#[trigger] scrolled(pa)[i] == scrolled(pb)[i] && scrolled(pc)[i] == scrolled(pa)[i])
        ||| (scrolled(pa)[i] == a && scrolled(pb)[i] == b && scrolled(pc)[i] == c)
    } by {
        if i < WIDTH * (HEIGHT - 8) {
            assert(pa[i + WIDTH * 8] == pb[i + WIDTH * 8] || pa[i + WIDTH * 8] == a);
        }
    }
}

proof fn lemma_char_inked_alike(pa: Page, pb: Page, pc: Page, ch: char)
    requires
        pa.wf(),
        pb.column == pa.column,
        pc.column == pa.column,
        inked_alike(pa.pixels, pb.pixels, pc.pixels, pa.ink, pb.ink, pc.ink),
    ensures
        after_char(pb, ch).column == after_char(pa, ch).column,
        after_char(pc, ch).column == after_char(pa, ch).column,
        after_char(pa, ch).ink == pa.ink,
        after_char(pb, ch).ink == pb.ink,
        after_char(pc, ch).ink == pc.ink,
        inked_alike(
            after_char(pa, ch).pixels,
            after_char(pb, ch).pixels,
            after_char(pc, ch).pixels,
            pa.ink,
            pb.ink,
            pc.ink,
        ),
{
    let (a, b, c) = (pa.ink, pb.ink, pc.ink);
    lemma_scroll_inked_alike(pa.pixels, pb.pixels, pc.pixels, a, b, c);
    if ch != '\n' {
        let wrap = pa.column >= COLUMNS;
        let la = if wrap { scrolled(pa.pixels) } else { pa.pixels };
        let lb = if wrap { scrolled(pb.pixels) } else { pb.pixels };
        let lc = if wrap { scrolled(pc.pixels) } else { pc.pixels };
        let column: int = if wrap { 0 } else { pa.column as int };
        let rows = glyph_rows(ch);
        let sa = stamped(la, column, a, rows);
        let sb = stamped(lb, column, b, rows);
        let sc = stamped(lc, column, c, rows);
        assert(inked_alike(la, lb, lc, a, b, c));
        assert forall|i: int| 0 <= i < WIDTH * HEIGHT implies {
            ||| (#[trigger] sa[i] == sb[i] && sc[i] == sa[i])
            ||| (sa[i] == a && sb[i] == b && sc[i] == c)
        } by {
            assert(la[i] == lb[i] || la[i] == a);
        }
        assert(inked_alike(sa, sb, sc, a, b, c));
    }
}

proof fn lemma_text_inked_alike(pa: Page, pb: Page, pc: Page, text: Seq<char>)
    requires
        pa.wf(),
        pb.column == pa.column,
        pc.column == pa.column,
        inked_alike(pa.pixels, pb.pixels, pc.pixels, pa.ink, pb.ink, pc.ink),
    ensures
        after_text(pb, text).column == after_text(pa, text).column,
        after_text(pc, text).column == after_text(pa, text).column,
        after_text(pa, text).ink == pa.ink,
        after_text(pb, text).ink == pb.ink,
        after_text(pc, text).ink == pc.ink,
        after_text(pa, text).wf(),
        inked_alike(
            after_text(pa, text).pixels,
            after_text(pb, text).pixels,
            after_text(pc, text).pixels,
            pa.ink,
            pb.ink,
            pc.ink,
        ),
    decreases text.len(),
{
    lemma_text_keeps_page_wf(pa, text);
    if text.len() > 0 {
        let rest = text.drop_last();
        lemma_text_inked_alike(pa, pb, pc, rest);
        lemma_char_inked_alike(
            after_text(pa, rest),
            after_text(pb, rest),
            after_text(pc, rest),
            text.last(),
        );
    }
}

/// The ink of a note decides only the colour of the pixels its glyphs set:
/// notes of the same text on the same page in inks `a` and `b` (`a != b`)
/// differ exactly at the pixels their glyphs ink, and the note in any ink
/// `c` holds `c` there and the common pixel everywhere else. Column and
/// ink after the note do not depend on the note's ink.
pub proof fn law_note_colours_only_its_glyphs(
    page: Page,
    a: u8,
    b: u8,
    c: u8,
    text: Seq<char>,
    end_line: bool,
)
    requires
        page.wf(),
        a != b,
    ensures
        ({
            let na = noted(page, a, text, end_line);
            let nb = noted(page, b, text, end_line);
            let nc = noted(page, c, text, end_line);
            &&& nc.column == na.column
            &&& nc.ink == na.ink
            &&& nc.pixels =~= Seq::new(
                na.pixels.len(),
                |i: int|
                    if na.pixels[i] != nb.pixels[i] {
                        c
                    } else {
                        na.pixels[i]
                    },
            )
        }),
{
    let pa = Page { column: page.column, ink: a, pixels: page.pixels };
    let pb = Page { column: page.column, ink: b, pixels: page.pixels };
    let pc = Page { column: page.column, ink: c, pixels: page.pixels };
    lemma_text_inked_alike(pa, pb, pc, text);
    let (wa, wb, wc) = (after_text(pa, text), after_text(pb, text), after_text(pc, text));
    lemma_char_inked_alike(wa, wb, wc, '\n');
    let na = noted(page, a, text, end_line);
    let nb = noted(page, b, text, end_line);
    let nc = noted(page, c, text, end_line);
    assert(inked_alike(na.pixels, nb.pixels, nc.pixels, a, b, c));
    assert forall|i: int| 0 <= i < na.pixels.len() implies nc.pixels[i] == (if na.pixels[i]
        != nb.pixels[i] {
        c
    } else {
        na.pixels[i]
    }) by {
        assert(na.pixels[i] == nb.pixels[i] || na.pixels[i] == a);
    }
}

/// A margin note is the annotation of the same text in the other ink: the
/// two pages end on the same column and agree at every pixel except the
/// ones the note's glyphs ink, which are annotation ink in the one and
/// margin-note ink in the other.
pub proof fn law_margin_note_is_annotation_in_other_ink(page: Page, text: Seq<char>)
    requires
        page.wf(),
    ensures
        ({
            let annotation = noted(page, ANNOTATION_INK, text, true);
            let margin_note = noted(page, MARGIN_NOTE_INK, text, true);
            &&& margin_note.column == annotation.column
            &&& margin_note.ink == annotation.ink
            &&& margin_note.pixels.len() == annotation.pixels.len()
            &&& forall|i: int|
                0 <= i < annotation.pixels.len() ==> {
                    ||| #[trigger] margin_note.pixels[i] == annotation.pixels[i]
                    ||| (annotation.pixels[i] == ANNOTATION_INK && margin_note.pixels[i]
                        == MARGIN_NOTE_INK)
                }
        }),
{
    law_note_colours_only_its_glyphs(page, ANNOTATION_INK, MARGIN_NOTE_INK, MARGIN_NOTE_INK, text, true);
    law_note_colours_only_its_glyphs(page, ANNOTATION_INK, MARGIN_NOTE_INK, ANNOTATION_INK, text, true);
}

/// Whether `text` holds no `'\n'`.
pub open spec fn single_line(text: Seq<char>) -> bool {
    forall|i: int| 0 <= i < text.len() ==> text[i] != '\n'
}

proof fn lemma_single_line_prefix(text: Seq<char>, k: int)
    requires
        single_line(text),
        0 <= k <= text.len(),
    ensures
        single_line(text.subrange(0, k)),
{
}

/// One step along the line: position `m + 1` is one column further on,
/// unless position `m` was at the last column, in which case it starts
/// the next line at column 0.
proof fn lemma_next_column(m: int)
    requires
        m >= 0,
    ensures
        m % (COLUMNS as int) + 1 < COLUMNS ==> {
            &&& (m + 1) % (COLUMNS as int) == m % (COLUMNS as int) + 1
            &&& (m + 1) / (COLUMNS as int) == m / (COLUMNS as int)
        },
        m % (COLUMNS as int) + 1 >= COLUMNS ==> {
            &&& (m + 1) % (COLUMNS as int) == 0
            &&& (m + 1) / (COLUMNS as int) == m / (COLUMNS as int) + 1
        },
{
    let q = m / (COLUMNS as int);
    let r = m % (COLUMNS as int);
    lemma_fundamental_div_mod(m, COLUMNS as int);
    assert(0 <= r < COLUMNS);
    assert(m == q * COLUMNS + r);
    if r + 1 < COLUMNS {
        lemma_fundamental_div_mod_converse(m + 1, COLUMNS as int, q, r + 1);
    } else {
        lemma_fundamental_div_mod_converse(m + 1, COLUMNS as int, q + 1, 0);
    }
}

/// Text with no `'\n'` moves the column on by one per character, wrapping
/// to a new line after the last column: after `n > 0` characters from
/// column `c0` the column is `(c0 + n - 1) % COLUMNS + 1`.
pub proof fn law_column_advances_and_wraps(page: Page, text: Seq<char>)
    requires
        page.wf(),
        single_line(text),
        text.len() > 0,
    ensures
        after_text(page, text).column == (page.column + text.len() - 1) % (COLUMNS as int) + 1,
    decreases text.len(),
{
    let n = text.len() as int;
    let rest = text.drop_last();
    assert(text.last() == text[n - 1]);
    lemma_text_keeps_page_wf(page, rest);
    if n == 1 {
        if page.column >= COLUMNS {
            lemma_fundamental_div_mod_converse(page.column as int, COLUMNS as int, 1, 0);
        } else {
            lemma_fundamental_div_mod_converse(page.column as int, COLUMNS as int, 0, page.column as int);
        }
    } else {
        lemma_single_line_prefix(text, rest.len() as int);
        assert(rest =~= text.subrange(0, rest.len() as int));
        law_column_advances_and_wraps(page, rest);
        lemma_next_column(page.column + n - 2);
    }
}

/// In text with no `'\n'`, character `k` is set at column
/// `(c0 + k) % COLUMNS` of the bottom line, `c0` being the column the text
/// starts at.
pub proof fn law_character_lands_at_its_column(page: Page, text: Seq<char>, k: int)
    requires
        page.wf(),
        page.column < COLUMNS,
        single_line(text),
        0 <= k < text.len(),
    ensures
        ({
            let before = after_text(page, text.take(k));
            (if before.column >= COLUMNS {
                0
            } else {
                before.column as int
            }) == (page.column + k) % (COLUMNS as int)
        }),
{
    if k == 0 {
        assert(text.take(0) =~= Seq::<char>::empty());
        lemma_fundamental_div_mod_converse(page.column as int, COLUMNS as int, 0, page.column as int);
    } else {
        let prefix = text.take(k);
        lemma_single_line_prefix(text, prefix.len() as int);
        assert(prefix =~= text.subrange(0, prefix.len() as int));
        law_column_advances_and_wraps(page, prefix);
        lemma_next_column(page.column + k - 1);
    }
}

proof fn lemma_text_keeps_ink(page: Page, text: Seq<char>)
    ensures
        after_text(page, text).ink == page.ink,
    decreases text.len(),
{
    if text.len() > 0 {
        lemma_text_keeps_ink(page, text.drop_last());
    }
}

/// A note written in pieces, each in the same ink and only the last ending
/// the line, is the note of the pieces joined.
pub proof fn law_note_in_pieces(page: Page, ink: u8, first: Seq<char>, second: Seq<char>, end_line: bool)
    ensures
        noted(noted(page, ink, first, false), ink, second, end_line) == noted(
            page,
            ink,
            first + second,
            end_line,
        ),
{
    let inked = Page { column: page.column, ink: ink, pixels: page.pixels };
    let written = after_text(inked, first);
    lemma_text_keeps_ink(inked, first);
    let again = noted(page, ink, first, false);
    assert(Page { column: again.column, ink: ink, pixels: again.pixels } == written);
    law_text_concatenates(inked, first, second);
}

/// The number of new lines a note of `count` characters with no `'\n'`
/// makes, starting at column 0: one for each full line it wraps past, and
/// the one that ends it; that is `max(1, ceil(count / COLUMNS))`.
pub open spec fn note_lines(count: nat) -> nat {
    if count == 0 {
        1
    } else {
        ((count - 1) as int / (COLUMNS as int) + 1) as nat
    }
}

proof fn lemma_glyph_keeps_upper_lines(page: Page, rows: Seq<u8>, i: int)
    requires
        page.wf(),
        0 <= i < WIDTH * (HEIGHT - 8),
    ensures
        after_glyph(page, rows).pixels[i] == if page.column >= COLUMNS {
            scrolled(page.pixels)[i]
        } else {
            page.pixels[i]
        },
{
    lemma_fundamental_div_mod(i, WIDTH as int);
}

proof fn lemma_text_lifts_upper_lines(page: Page, text: Seq<char>)
    requires
        page.wf(),
        page.column == 0,
        single_line(text),
        text.len() > 0,
    ensures
        forall|i: int|
            0 <= i && i + ((text.len() - 1) / (COLUMNS as int)) * (WIDTH * 8) < WIDTH * (HEIGHT - 8)
                ==> #[trigger] after_text(page, text).pixels[i] == page.pixels[i + ((text.len() - 1)
                / (COLUMNS as int)) * (WIDTH * 8)],
    decreases text.len(),
{
    let n = text.len() as int;
    let rest = text.drop_last();
    assert(text.last() == text[n - 1]);
    lemma_text_keeps_page_wf(page, rest);
    if n == 1 {
        assert(rest =~= Seq::<char>::empty());
        assert forall|i: int| 0 <= i && i + ((n - 1) / (COLUMNS as int)) * (WIDTH * 8) < WIDTH * (
        HEIGHT - 8) implies #[trigger] after_text(page, text).pixels[i] == page.pixels[i + ((n
            - 1) / (COLUMNS as int)) * (WIDTH * 8)] by {
            lemma_glyph_keeps_upper_lines(page, glyph_rows(text[0]), i);
        }
    } else {
        lemma_single_line_prefix(text, rest.len() as int);
        assert(rest =~= text.subrange(0, rest.len() as int));
        lemma_text_lifts_upper_lines(page, rest);
        law_column_advances_and_wraps(page, rest);
        let prev = after_text(page, rest);
        let before = n - 2;
        let q = before / (COLUMNS as int);
        let r = before % (COLUMNS as int);
        lemma_next_column(before);
        assert forall|i: int| 0 <= i && i + ((n - 1) / (COLUMNS as int)) * (WIDTH * 8) < WIDTH * (
        HEIGHT - 8) implies #[trigger] after_text(page, text).pixels[i] == page.pixels[i + ((n
            - 1) / (COLUMNS as int)) * (WIDTH * 8)] by {
            lemma_glyph_keeps_upper_lines(prev, glyph_rows(text[n - 1]), i);
            if r + 1 >= COLUMNS {
                assert(prev.pixels[i + WIDTH * 8] == page.pixels[i + WIDTH * 8 + q * (WIDTH * 8)]);
            } else {
                assert(prev.pixels[i] == page.pixels[i + q * (WIDTH * 8)]);
            }
        }
    }
}

/// A note of `n` characters with no `'\n'`, written from column 0, lifts
/// every line above the bottom one by `note_lines(n)` text lines: the pixel
/// at position `i` is the one `note_lines(n) * 8` rows below it, wherever
/// that pixel was above the bottom line.
pub proof fn law_note_lifts_upper_lines(page: Page, ink: u8, text: Seq<char>, i: int)
    requires
        page.wf(),
        page.column == 0,
        single_line(text),
        0 <= i,
        i + note_lines(text.len()) * (WIDTH * 8) < WIDTH * (HEIGHT - 8),
    ensures
        noted(page, ink, text, true).pixels[i] == page.pixels[i + note_lines(text.len()) * (
        WIDTH * 8)],
{
    let inked = Page { column: page.column, ink: ink, pixels: page.pixels };
    let written = after_text(inked, text);
    lemma_text_keeps_page_wf(inked, text);
    if text.len() == 0 {
        assert(written == inked);
    } else {
        let q = (text.len() - 1) / (COLUMNS as int);
        lemma_fundamental_div_mod(text.len() - 1, COLUMNS as int);
        assert(q >= 0);
        assert(note_lines(text.len()) == q + 1);
        assert((q + 1) * (WIDTH * 8) == q * (WIDTH * 8) + WIDTH * 8) by (nonlinear_arith);
        assert(inked.wf());
        lemma_text_lifts_upper_lines(inked, text);
        assert(written.pixels[i + WIDTH * 8] == page.pixels[i + WIDTH * 8 + q * (WIDTH * 8)]);
    }
    assert(noted(page, ink, text, true).pixels[i] == written.pixels[i + WIDTH * 8]);
}

/// Bit `dx` of a glyph row, counted from the least significant bit, is the
/// pixel `dx` places from the cell's left edge: the page's test for an
/// inked pixel is exactly that bit being set.
pub proof fn law_glyph_bit_is_pixel_from_left(row: u8, dx: int)
    requires
        0 <= dx < 8,
    ensures
        ink_bit(row, dx) <==> (row >> (dx as u8)) & 1u8 == 1u8,
{
    let d = dx as u8;
    assert((row & (1u8 << d) != 0) <==> (row >> d) & 1u8 == 1u8) by (bit_vector)
        requires
            d < 8,
    ;
}

/// Writing text is writing its characters one after another, whatever the
/// page: the empty text changes nothing, and one more character is that
/// character written on the page the text before it left.
pub proof fn law_text_writes_each_character(page: Page, text: Seq<char>, c: char)
    ensures
        after_text(page, Seq::<char>::empty()) == page,
        after_text(page, text.push(c)) == after_char(after_text(page, text), c),
{
    assert(text.push(c).drop_last() =~= text);
    assert(text.push(c).last() == c);
}

/// Every `'\n'` starts a new line, whatever the column (column 0
/// included): the page moves up eight rows, the bottom eight rows become
/// paper, the column returns to 0 and the ink stays.
pub proof fn law_new_line_always_scrolls(page: Page, x: int, y: int)
    requires
        page.wf(),
        0 <= x < WIDTH,
        0 <= y < HEIGHT,
    ensures
        after_char(page, '\n').column == 0,
        after_char(page, '\n').ink == page.ink,
        after_char(page, '\n').pixels.len() == WIDTH * HEIGHT,
        after_char(page, '\n').pixels[y * WIDTH + x] == if y + 8 < HEIGHT {
            page.pixels[(y + 8) * WIDTH + x]
        } else {
            PAPER
        },
{
}

/// Any other character sets its glyph in the page's ink in the cell it
/// lands on, a full line wrapping first to column 0 of a new line: pixel
/// `dx` of glyph row `dy` is ink exactly when bit `dx` of the row is set,
/// and the column moves on past the cell.
pub proof fn law_character_lands_in_its_cell(page: Page, c: char, dx: int, dy: int)
    requires
        page.wf(),
        c != '\n',
        0 <= dx < 8,
        0 <= dy < 8,
    ensures
        ({
            let column = if page.column >= COLUMNS {
                0
            } else {
                page.column as int
            };
            &&& after_char(page, c).column == column + 1
            &&& after_char(page, c).ink == page.ink
            &&& after_char(page, c).pixels.len() == WIDTH * HEIGHT
            &&& after_char(page, c).pixels[((ROWS - 1) * 8 + dy) * WIDTH + column * 8 + dx]
                == if (glyph_rows(c)[dy] >> (dx as u8)) & 1u8 == 1u8 {
                page.ink
            } else {
                PAPER
            }
        }),
{
    law_glyph_lands_in_its_cell(page, glyph_rows(c), dx, dy);
}

/// Any other character touches no pixel outside its cell: the rest of the
/// page is as the line it is set on left it (moved up eight rows first
/// when that line was full).
pub proof fn law_character_leaves_other_pixels(page: Page, c: char, x: int, y: int)
    requires
        page.wf(),
        c != '\n',
        0 <= x < WIDTH,
        0 <= y < HEIGHT,
        !({
            let column = if page.column >= COLUMNS {
                0
            } else {
                page.column as int
            };
            column * 8 <= x < column * 8 + 8 && (ROWS - 1) * 8 <= y
        }),
    ensures
        after_char(page, c).pixels[y * WIDTH + x] == if page.column < COLUMNS {
            page.pixels[y * WIDTH + x]
        } else if y + 8 < HEIGHT {
            page.pixels[(y + 8) * WIDTH + x]
        } else {
            PAPER
        },
{
    law_glyph_leaves_other_pixels(page, glyph_rows(c), x, y);
}

/// The glyph of a character comes from the `font8x8` basic-latin table for
/// `U+0000..=U+007F` and from its latin-1 table for `U+00A0..=U+00FF`;
/// every other character, and only those, gets the fallback block.
pub proof fn law_glyph_tables(c: char)
    ensures
        (c as u32) <= 0x7f ==> glyph_rows(c) == basic_legacy_rows((c as u32) as usize),
        0xa0 <= (c as u32) <= 0xff ==> glyph_rows(c) == latin_legacy_rows(
            ((c as u32) - 0xa0) as usize,
        ),
        ((c as u32) > 0x7f && !(0xa0 <= (c as u32) <= 0xff)) ==> glyph_rows(c) == seq![
            0x00u8,
            0x7e,
            0x7e,
            0x7e,
            0x7e,
            0x7e,
            0x7e,
            0x00,
        ],
{
    assert(seq![0x00u8, 0x7e, 0x7e, 0x7e, 0x7e, 0x7e, 0x7e, 0x00] =~= fallback_rows());
}

/// The DAC takes each colour component in 6-bit steps, a quarter of the
/// 8-bit value: annotation ink is the sepia rgb(112, 68, 20), margin-note
/// ink the fault yellow rgb(224, 180, 32), and every other index, paper
/// among them, is black. Every component fits the DAC's six bits.
pub proof fn law_palette_colours(index: u8)
    ensures
        palette_rgb(index).0 < 64 && palette_rgb(index).1 < 64 && palette_rgb(index).2 < 64,
        index == 1 ==> palette_rgb(index).0 * 4 == 112 && palette_rgb(index).1 * 4 == 68
            && palette_rgb(index).2 * 4 == 20,
        index == 2 ==> palette_rgb(index).0 * 4 == 224 && palette_rgb(index).1 * 4 == 180
            && palette_rgb(index).2 * 4 == 32,
        index != 1 && index != 2 ==> palette_rgb(index) == (0u8, 0u8, 0u8),
{
}
} // verus!
