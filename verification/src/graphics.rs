//! The page of VGA mode 13h: 320 x 200 pixels, one palette index per pixel,
//! with text set in 8 x 8 glyphs along the bottom line and scrolled upwards.

use vstd::prelude::*;
use vstd::arithmetic::div_mod::{lemma_fundamental_div_mod, lemma_fundamental_div_mod_converse};
use crate::font::{basic_legacy, basic_legacy_rows, latin_legacy, latin_legacy_rows};
use crate::laws::{
    all_in_palette, in_palette, law_note_ends_on_fresh_line, law_pixels_stay_in_palette, scrolled_times,
};

verus! {

pub const WIDTH: usize = 320;
pub const HEIGHT: usize = 200;
pub const COLUMNS: usize = WIDTH / 8;
pub const ROWS: usize = HEIGHT / 8;

pub const PAPER: u8 = 0;
pub const ANNOTATION_INK: u8 = 1;
pub const MARGIN_NOTE_INK: u8 = 2;

/// The glyph drawn for a character that neither font table covers: a
/// filled block with a one-pixel margin above, below and to each side.
pub open spec fn fallback_rows() -> Seq<u8> {
    seq![0x00u8, 0x7e, 0x7e, 0x7e, 0x7e, 0x7e, 0x7e, 0x00]
}

/// The rows of the glyph drawn for `c`.
pub open spec fn glyph_rows(c: char) -> Seq<u8> {
    let code = c as u32;
    if code <= 0x7f {
        basic_legacy_rows(code as usize)
    } else if 0xa0 <= code <= 0xff {
        latin_legacy_rows((code - 0xa0) as usize)
    } else {
        fallback_rows()
    }
}

/// The glyph drawn for `c`: the basic-latin table below `U+0080`, the
/// latin-1 table for `U+00A0..=U+00FF`, and the fallback block otherwise.
pub fn glyph(c: char) -> (rows: [u8; 8])
    ensures
        rows@ == glyph_rows(c),
{
    let code = c as u32;
    if code <= 0x7f {
        basic_legacy(code as usize)
    } else if 0xa0 <= code && code <= 0xff {
        latin_legacy((code - 0xa0) as usize)
    } else {
        let rows: [u8; 8] = [0x00, 0x7e, 0x7e, 0x7e, 0x7e, 0x7e, 0x7e, 0x00];
        assert(rows@ =~= fallback_rows());
        rows
    }
}

/// What a page holds: the text column where the next glyph goes, the ink
/// glyphs are set in, and the palette index of every pixel, row by row.
pub struct Page {
    pub column: nat,
    pub ink: u8,
    pub pixels: Seq<u8>,
}

impl Page {
    /// A page of the display's size whose column is within the line.
    pub open spec fn wf(self) -> bool {
        &&& self.pixels.len() == WIDTH * HEIGHT
        &&& self.column <= COLUMNS
    }

    /// The page as it is first painted: all paper, annotation ink, column 0.
    pub open spec fn blank() -> Page {
        Page {
            column: 0,
            ink: ANNOTATION_INK,
            pixels: Seq::new((WIDTH * HEIGHT) as nat, |i: int| PAPER),
        }
    }
}

/// The position of pixel `(x, y)` in the row-by-row pixel sequence.
pub open spec fn pixel_index(x: int, y: int) -> int {
    y * WIDTH + x
}

/// The horizontal position of the pixel at position `i`.
pub open spec fn column_of(i: int) -> int {
    i % (WIDTH as int)
}

/// The vertical position of the pixel at position `i`.
pub open spec fn row_of(i: int) -> int {
    i / (WIDTH as int)
}

/// The pixels after the page moves up by one text line: every pixel takes
/// the value of the pixel eight rows below it, and the bottom eight rows
/// become paper.
pub open spec fn scrolled(pixels: Seq<u8>) -> Seq<u8> {
    Seq::new(
        pixels.len(),
        |i: int|
            if i < WIDTH * (HEIGHT - 8) {
                pixels[i + WIDTH * 8]
            } else {
                PAPER
            },
    )
}

/// Whether a glyph row with bits `row` inks the pixel `dx` places from its
/// left edge.
pub open spec fn ink_bit(row: u8, dx: int) -> bool {
    row & (1u8 << (dx as u8)) != 0
}

/// Whether pixel `(x, y)` lies in the cell of text column `column` on the
/// bottom line.
pub open spec fn in_cell(column: int, x: int, y: int) -> bool {
    &&& column * 8 <= x < column * 8 + 8
    &&& (ROWS - 1) * 8 <= y < ROWS * 8
}

/// The colour glyph `rows`, set in `ink` at text column `column` of the
/// bottom line, gives the pixel `(x, y)` of its cell.
pub open spec fn cell_color(column: int, ink: u8, rows: Seq<u8>, x: int, y: int) -> u8 {
    if ink_bit(rows[y - (ROWS - 1) * 8], x - column * 8) {
        ink
    } else {
        PAPER
    }
}

/// The pixels after glyph `rows` is set in `ink` at text column `column`
/// of the bottom line: the 8 x 8 cell takes the glyph's colours, every other
/// pixel keeps its value.
pub open spec fn stamped(pixels: Seq<u8>, column: int, ink: u8, rows: Seq<u8>) -> Seq<u8> {
    Seq::new(
        pixels.len(),
        |i: int|
            if in_cell(column, column_of(i), row_of(i)) {
                cell_color(column, ink, rows, column_of(i), row_of(i))
            } else {
                pixels[i]
            },
    )
}

/// The page after a new line: the pixels scroll up and the column returns
/// to the start.
pub open spec fn after_new_line(page: Page) -> Page {
    Page { column: 0, ink: page.ink, pixels: scrolled(page.pixels) }
}

/// The page after glyph `rows` is set: on a full line a new line comes
/// first; the glyph is set at the column in the page's ink, and the column
/// moves on by one.
pub open spec fn after_glyph(page: Page, rows: Seq<u8>) -> Page {
    let line = if page.column >= COLUMNS {
        after_new_line(page)
    } else {
        page
    };
    Page {
        column: line.column + 1,
        ink: line.ink,
        pixels: stamped(line.pixels, line.column as int, line.ink, rows),
    }
}

/// The page after character `c` is written: `'\n'` starts a new line, any
/// other character sets its glyph.
pub open spec fn after_char(page: Page, c: char) -> Page {
    if c == '\n' {
        after_new_line(page)
    } else {
        after_glyph(page, glyph_rows(c))
    }
}

/// The page after the characters of `text` are written one by one.
pub open spec fn after_text(page: Page, text: Seq<char>) -> Page
    decreases text.len(),
{
    if text.len() == 0 {
        page
    } else {
        after_char(after_text(page, text.drop_last()), text.last())
    }
}

/// `stamped`, with only the first `count` pixels of the cell (row by row)
/// set so far.
spec fn stamped_part(pixels: Seq<u8>, column: int, ink: u8, rows: Seq<u8>, count: int) -> Seq<u8> {
    Seq::new(
        pixels.len(),
        |i: int|
            if in_cell(column, column_of(i), row_of(i)) && cell_offset(column, i) < count {
                cell_color(column, ink, rows, column_of(i), row_of(i))
            } else {
                pixels[i]
            },
    )
}

/// Where pixel `i` comes in its cell, counting row by row from the top left.
spec fn cell_offset(column: int, i: int) -> int {
    (row_of(i) - (ROWS - 1) * 8) * 8 + (column_of(i) - column * 8)
}

/// Pixel `(x, y)` sits at `pixel_index(x, y)`, and that position leads back
/// to `(x, y)`.
pub proof fn lemma_pixel_coords(x: int, y: int)
    requires
        0 <= x < WIDTH,
        0 <= y,
    ensures
        pixel_index(x, y) % (WIDTH as int) == x,
        pixel_index(x, y) / (WIDTH as int) == y,
{
    lemma_fundamental_div_mod_converse(pixel_index(x, y), WIDTH as int, y, x);
}

proof fn lemma_stamp_start(pixels: Seq<u8>, column: int, ink: u8, rows: Seq<u8>)
    ensures
        stamped_part(pixels, column, ink, rows, 0) =~= pixels,
{
    assert forall|i: int| 0 <= i < pixels.len() implies #[trigger] stamped_part(
        pixels,
        column,
        ink,
        rows,
        0,
    )[i] == pixels[i] by {
        if in_cell(column, column_of(i), row_of(i)) {
            assert(cell_offset(column, i) >= 0);
        }
    }
}

proof fn lemma_stamp_done(pixels: Seq<u8>, column: int, ink: u8, rows: Seq<u8>)
    ensures
        stamped_part(pixels, column, ink, rows, 64) =~= stamped(pixels, column, ink, rows),
{
}

proof fn lemma_stamp_step(pixels: Seq<u8>, column: int, ink: u8, rows: Seq<u8>, dy: int, dx: int)
    requires
        pixels.len() == WIDTH * HEIGHT,
        0 <= column < COLUMNS,
        0 <= dy < 8,
        0 <= dx < 8,
    ensures
        stamped_part(pixels, column, ink, rows, dy * 8 + dx).update(
            pixel_index(column * 8 + dx, (ROWS - 1) * 8 + dy),
            cell_color(column, ink, rows, column * 8 + dx, (ROWS - 1) * 8 + dy),
        ) =~= stamped_part(pixels, column, ink, rows, dy * 8 + dx + 1),
{
    let x = column * 8 + dx;
    let y = (ROWS - 1) * 8 + dy;
    let idx = pixel_index(x, y);
    lemma_pixel_coords(x, y);
    assert forall|i: int| 0 <= i < pixels.len() && i != idx implies #[trigger] stamped_part(
        pixels,
        column,
        ink,
        rows,
        dy * 8 + dx,
    )[i] == stamped_part(pixels, column, ink, rows, dy * 8 + dx + 1)[i] by {
        lemma_fundamental_div_mod(i, WIDTH as int);
        if in_cell(column, column_of(i), row_of(i)) && cell_offset(column, i) == dy * 8 + dx {
            assert(row_of(i) == y);
            assert(column_of(i) == x);
        }
    }
}

/// The page's pixels and the state of the text line on it.
pub struct Writer {
    column: usize,
    ink: u8,
    pixels: Vec<u8>,
}

impl View for Writer {
    type V = Page;

    closed spec fn view(&self) -> Page {
        Page { column: self.column as nat, ink: self.ink, pixels: self.pixels@ }
    }
}

impl Writer {
    /// The pixels fill the page and the column stays within the line.
    #[verifier::type_invariant]
    spec fn inv(self) -> bool {
        self@.wf()
    }

    /// A freshly painted page: all paper, annotation ink, column 0.
    pub fn new() -> (writer: Writer)
        ensures
            writer@ == Page::blank(),
            writer@.wf(),
    {
        let writer = Writer { column: 0, ink: ANNOTATION_INK, pixels: vec![PAPER; WIDTH * HEIGHT] };
        assert(writer@.pixels =~= Page::blank().pixels);
        writer
    }

    fn plot(&mut self, x: usize, y: usize, color: u8)
        requires
            x < WIDTH,
            y < HEIGHT,
        ensures
            final(self)@ == (Page {
                column: old(self)@.column,
                ink: old(self)@.ink,
                pixels: old(self)@.pixels.update(pixel_index(x as int, y as int), color),
            }),
    {
        proof {
            use_type_invariant(&*self);
        }
        self.pixels[y * WIDTH + x] = color;
    }

    /// Moves the page up by one text line and returns to column 0.
    pub fn new_line(&mut self)
        ensures
            final(self)@ == after_new_line(old(self)@),
            final(self)@.wf(),
    {
        proof {
            use_type_invariant(&*self);
        }
        let ghost before = self.pixels@;
        let mut i: usize = 0;
        while i < WIDTH * (HEIGHT - 8)
            invariant
                i <= WIDTH * (HEIGHT - 8),
                before == old(self)@.pixels,
                self.ink == old(self)@.ink,
                self.column <= COLUMNS,
                before.len() == WIDTH * HEIGHT,
                self.pixels@.len() == WIDTH * HEIGHT,
                forall|j: int| 0 <= j < i ==> self.pixels@[j] == before[j + WIDTH * 8],
                forall|j: int| i <= j < WIDTH * HEIGHT ==> self.pixels@[j] == before[j],
            decreases WIDTH * (HEIGHT - 8) - i,
        {
            let below = self.pixels[i + WIDTH * 8];
            self.pixels[i] = below;
            i += 1;
        }
        while i < WIDTH * HEIGHT
            invariant
                WIDTH * (HEIGHT - 8) <= i <= WIDTH * HEIGHT,
                before == old(self)@.pixels,
                self.ink == old(self)@.ink,
                self.column <= COLUMNS,
                before.len() == WIDTH * HEIGHT,
                self.pixels@.len() == WIDTH * HEIGHT,
                forall|j: int| 0 <= j < WIDTH * (HEIGHT - 8) ==> self.pixels@[j] == before[j + WIDTH * 8],
                forall|j: int| WIDTH * (HEIGHT - 8) <= j < i ==> self.pixels@[j] == PAPER,
            decreases WIDTH * HEIGHT - i,
        {
            self.pixels[i] = PAPER;
            i += 1;
        }
        self.column = 0;
        assert(self.pixels@ =~= scrolled(before));
    }

    /// Starts `count` new lines, one after another: the page moves up by
    /// `count` text lines (see `laws::law_new_lines_move_lines_up` for where
    /// each pixel ends up, and `laws::law_rows_new_lines_clear_page`).
    pub fn new_lines(&mut self, count: usize)
        ensures
            final(self)@.pixels == scrolled_times(old(self)@.pixels, count as nat),
            final(self)@.ink == old(self)@.ink,
            final(self)@.column == if count == 0 {
                old(self)@.column
            } else {
                0
            },
            final(self)@.wf(),
    {
        proof {
            use_type_invariant(&*self);
        }
        let mut done: usize = 0;
        while done < count
            invariant
                done <= count,
                self@.wf(),
                self@.pixels == scrolled_times(old(self)@.pixels, done as nat),
                self@.ink == old(self)@.ink,
                self@.column == if done == 0 {
                    old(self)@.column
                } else {
                    0
                },
            decreases count - done,
        {
            self.new_line();
            done += 1;
        }
    }

    /// Sets glyph `rows` at the current column of the bottom line in the
    /// current ink, starting a new line first when the line is full.
    pub fn put_glyph(&mut self, rows: [u8; 8])
        ensures
            final(self)@ == after_glyph(old(self)@, rows@),
            final(self)@.wf(),
    {
        proof {
            use_type_invariant(&*self);
        }
        if self.column >= COLUMNS {
            self.new_line();
        }
        let column = self.column;
        let ink = self.ink;
        let ghost start = self.pixels@;
        let x0 = column * 8;
        let y0 = (ROWS - 1) * 8;
        proof {
            lemma_stamp_start(start, column as int, ink, rows@);
        }
        let mut dy: usize = 0;
        while dy < 8
            invariant
                dy <= 8,
                column < COLUMNS,
                x0 == column * 8,
                y0 == (ROWS - 1) * 8,
                self.column == column,
                self.ink == ink,
                start.len() == WIDTH * HEIGHT,
                self.pixels@ == stamped_part(start, column as int, ink, rows@, dy * 8),
            decreases 8 - dy,
        {
            let row_bits = rows[dy];
            let mut dx: usize = 0;
            while dx < 8
                invariant
                    dx <= 8,
                    dy < 8,
                    column < COLUMNS,
                    x0 == column * 8,
                    y0 == (ROWS - 1) * 8,
                    row_bits == rows@[dy as int],
                    self.column == column,
                    self.ink == ink,
                    start.len() == WIDTH * HEIGHT,
                    self.pixels@ == stamped_part(start, column as int, ink, rows@, dy * 8 + dx),
                decreases 8 - dx,
            {
                let color = if row_bits & (1u8 << (dx as u8)) != 0 {
                    ink
                } else {
                    PAPER
                };
                proof {
                    lemma_stamp_step(start, column as int, ink, rows@, dy as int, dx as int);
                }
                self.plot(x0 + dx, y0 + dy, color);
                dx += 1;
            }
            dy += 1;
        }
        proof {
            lemma_stamp_done(start, column as int, ink, rows@);
        }
        self.column += 1;
    }

    /// The text column where the next glyph goes.
    pub fn column(&self) -> (column: usize)
        ensures
            column == self@.column,
    {
        self.column
    }

    /// The palette index of pixel `(x, y)`.
    pub fn pixel(&self, x: usize, y: usize) -> (color: u8)
        requires
            y * WIDTH + x < WIDTH * HEIGHT,
        ensures
            color == self@.pixels[pixel_index(x as int, y as int)],
    {
        proof {
            use_type_invariant(self);
        }
        self.pixels[y * WIDTH + x]
    }

    /// Writes one character: `'\n'` starts a new line, anything else sets
    /// its glyph.
    pub fn write_char(&mut self, c: char)
        ensures
            final(self)@ == after_char(old(self)@, c),
            final(self)@.wf(),
    {
        proof {
            use_type_invariant(&*self);
        }
        if c == '\n' {
            self.new_line();
            return;
        }
        let rows = glyph(c);
        self.put_glyph(rows);
    }
}

impl Writer {
    /// Writes the characters of `text` one by one.
    pub fn write_str(&mut self, text: &str)
        ensures
            final(self)@ == after_text(old(self)@, text@),
            final(self)@.wf(),
    {
        proof {
            use_type_invariant(&*self);
        }
        let ghost start = self@;
        for c in it: text.chars()
            invariant
                start == old(self)@,
                start.wf(),
                it.seq() == text@,
                self@ == after_text(start, text@.take(it.index() as int)),
        {
            proof {
                lemma_text_keeps_page_wf(start, text@.take(it.index() as int));
                assert(text@.take(it.index() + 1).drop_last() =~= text@.take(it.index() as int));
            }
            self.write_char(c);
        }
        assert(text@.take(text@.len() as int) =~= text@);
        proof {
            lemma_text_keeps_page_wf(start, text@);
        }
    }
}

/// Writing keeps a page of the display's size with its column within the
/// line.
pub proof fn lemma_text_keeps_page_wf(page: Page, text: Seq<char>)
    requires
        page.wf(),
    ensures
        after_text(page, text).wf(),
    decreases text.len(),
{
    if text.len() > 0 {
        lemma_text_keeps_page_wf(page, text.drop_last());
    }
}

/// The display as the kernel holds it: no page before the mode is entered,
/// then the one page that every note is written on.
pub struct Display {
    writer: Option<Writer>,
}

impl View for Display {
    type V = Option<Page>;

    closed spec fn view(&self) -> Option<Page> {
        match self.writer {
            Some(writer) => Some(writer@),
            None => None,
        }
    }
}

impl Display {
    /// Between notes, a page the display holds is of the display's size,
    /// with its column within the line, set for annotation ink, and painted
    /// only with paper and the inks.
    pub open spec fn wf(&self) -> bool {
        self@ matches Some(page) ==> {
            &&& page.wf()
            &&& page.ink == ANNOTATION_INK
            &&& all_in_palette(page.pixels)
        }
    }

    /// The invariant every display keeps between calls.
    #[verifier::type_invariant]
    pub(crate) open spec fn inv(self) -> bool {
        self.wf()
    }

    /// The display before the graphics mode is entered: no page yet.
    pub fn new() -> (display: Display)
        ensures
            display@ == None::<Page>,
            display.wf(),
    {
        Display { writer: None }
    }
}

/// The page after a note: `text` is written in `ink`, followed by a new
/// line when `end_line` holds, and the ink returns to annotation ink.
pub open spec fn noted(page: Page, ink: u8, text: Seq<char>, end_line: bool) -> Page {
    let written = after_text(Page { column: page.column, ink: ink, pixels: page.pixels }, text);
    let ended = if end_line {
        after_char(written, '\n')
    } else {
        written
    };
    Page { column: ended.column, ink: ANNOTATION_INK, pixels: ended.pixels }
}

/// The display after a note: a page takes the note, no page stays no page.
pub open spec fn noted_on(display: Option<Page>, ink: u8, text: Seq<char>, end_line: bool) -> Option<Page> {
    match display {
        Some(page) => Some(noted(page, ink, text, end_line)),
        None => None,
    }
}

/// Paints the page: all paper, annotation ink, column 0. From here on the
/// display is active.
pub fn enter(display: &mut Display)
    ensures
        final(display)@ == Some(Page::blank()),
        final(display).wf(),
{
    display.writer = Some(Writer::new());
}

/// Whether the page has been painted.
pub fn is_active(display: &Display) -> (active: bool)
    ensures
        active == (display@ is Some),
{
    display.writer.is_some()
}

/// Writes `text` in `ink`, followed by a new line when `end_line` holds;
/// the ink then returns to annotation ink.
pub fn with_ink(display: &mut Display, ink: u8, text: &str, end_line: bool)
    requires
        in_palette(ink),
    ensures
        final(display).wf(),
        final(display)@ == noted_on(old(display)@, ink, text@, end_line),
{
    proof {
        use_type_invariant(&*display);
    }
    let mut taken: Option<Writer> = None;
    std::mem::swap(&mut taken, &mut display.writer);
    match taken {
        Some(mut writer) => {
            let ghost page = writer@;
            proof {
                law_note_ends_on_fresh_line(page, ink, text@);
                law_pixels_stay_in_palette(page, ink, text@, end_line);
            }
            writer.ink = ink;
            writer.write_str(text);
            if end_line {
                writer.write_char('\n');
            }
            writer.ink = ANNOTATION_INK;
            display.writer = Some(writer);
        },
        None => {},
    }
}

/// Writes `text` in annotation ink, with no new line after it.
pub fn _print(display: &mut Display, text: &str)
    ensures
        final(display).wf(),
        final(display)@ == noted_on(old(display)@, ANNOTATION_INK, text@, false),
{
    with_ink(display, ANNOTATION_INK, text, false);
}

/// Writes `text` as an annotation: in annotation ink, followed by a new line.
pub fn write_annotation(display: &mut Display, text: &str)
    ensures
        final(display).wf(),
        final(display)@ == noted_on(old(display)@, ANNOTATION_INK, text@, true),
{
    with_ink(display, ANNOTATION_INK, text, true);
}

/// Writes `text` as a margin note: in margin-note ink, followed by a new
/// line; the ink then returns to annotation ink.
pub fn write_margin_note(display: &mut Display, text: &str)
    ensures
        final(display).wf(),
        final(display)@ == noted_on(old(display)@, MARGIN_NOTE_INK, text@, true),
{
    with_ink(display, MARGIN_NOTE_INK, text, true);
}

/// The palette index of pixel `(x, y)` of the painted page.
pub fn pixel_at(display: &Display, x: usize, y: usize) -> (color: u8)
    requires
        display@ is Some,
        y * WIDTH + x < WIDTH * HEIGHT,
    ensures
        color == display@->Some_0.pixels[pixel_index(x as int, y as int)],
        in_palette(color),
{
    proof {
        use_type_invariant(display);
    }
    match &display.writer {
        Some(writer) => writer.pixels[y * WIDTH + x],
        None => 0,
    }
}

/// The colour (red, green, blue, in the DAC's 6-bit steps) that palette
/// index `index` shows: sepia for annotation ink, the fault yellow for
/// margin-note ink, black for everything else.
pub open spec fn palette_rgb(index: u8) -> (u8, u8, u8) {
    if index == ANNOTATION_INK {
        (28, 17, 5)
    } else if index == MARGIN_NOTE_INK {
        (56, 45, 8)
    } else {
        (0, 0, 0)
    }
}

/// The colour that palette index `index` is programmed with.
pub fn palette_entry(index: u8) -> (rgb: (u8, u8, u8))
    ensures
        rgb == palette_rgb(index),
{
    if index == ANNOTATION_INK {
        (28, 17, 5)
    } else if index == MARGIN_NOTE_INK {
        (56, 45, 8)
    } else {
        (0, 0, 0)
    }
}

/// The bytes written to the DAC data port, after its index port is set to
/// 0, to program the whole palette: red, green and blue of index 0, then of
/// index 1, and so on up to index 255.
pub fn palette_dac_bytes() -> (bytes: Vec<u8>)
    ensures
        bytes@.len() == 768,
        forall|i: int|
            0 <= i < 256 ==> {
                &&& #[trigger] bytes@[3 * i] == palette_rgb(i as u8).0
                &&& bytes@[3 * i + 1] == palette_rgb(i as u8).1
                &&& bytes@[3 * i + 2] == palette_rgb(i as u8).2
            },
{
    let mut bytes: Vec<u8> = Vec::new();
    let mut i: usize = 0;
    while i < 256
        invariant
            i <= 256,
            bytes@.len() == 3 * i,
            forall|j: int|
                0 <= j < i ==> {
                    &&& #[trigger] bytes@[3 * j] == palette_rgb(j as u8).0
                    &&& bytes@[3 * j + 1] == palette_rgb(j as u8).1
                    &&& bytes@[3 * j + 2] == palette_rgb(j as u8).2
                },
        decreases 256 - i,
    {
        let (r, g, b) = palette_entry(i as u8);
        let ghost before = bytes@;
        bytes.push(r);
        bytes.push(g);
        bytes.push(b);
        assert(bytes@ =~= before + seq![r, g, b]);
        assert forall|j: int| 0 <= j <= i implies {
            &&& #[trigger] bytes@[3 * j] == palette_rgb(j as u8).0
            &&& bytes@[3 * j + 1] == palette_rgb(j as u8).1
            &&& bytes@[3 * j + 2] == palette_rgb(j as u8).2
        } by {
            if j < i {
                assert(bytes@[3 * j] == before[3 * j]);
                assert(bytes@[3 * j + 1] == before[3 * j + 1]);
                assert(bytes@[3 * j + 2] == before[3 * j + 2]);
            }
        }
        i += 1;
    }
    bytes
}

} // verus!
