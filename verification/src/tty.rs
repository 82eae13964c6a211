//! The text console: a grid of characters that is painted, glyph by
//! glyph, into the bytes of a picture.

use vstd::prelude::*;
use noto_sans_mono_bitmap::{FontWeight, RasterHeight};

verus! {

/// Number of lines of the console.
pub const ROWS: usize = 24;

/// Number of characters in a line of the console.
pub const COLS: usize = 80;

/// The place in the grid where the next character goes.
#[derive(Debug, Clone, Copy, PartialEq, Eq, Structural)]
pub struct Cursor {
    pub row: usize,
    pub col: usize,
}

impl Cursor {
    /// A cursor at the top left.
    pub fn new() -> (cursor: Cursor)
        ensures
            cursor.row == 0,
            cursor.col == 0,
    {
        Cursor { row: 0, col: 0 }
    }

    /// Moves the cursor to the top left.
    pub fn reset(&mut self)
        ensures
            final(self).row == 0,
            final(self).col == 0,
    {
        self.row = 0;
        self.col = 0;
    }

    /// Moves the cursor one column to the right, but not past column `max`.
    pub fn advance_col(&mut self, max: usize)
        ensures
            final(self).row == old(self).row,
            final(self).col == if old(self).col < max {
                old(self).col + 1
            } else {
                old(self).col as int
            },
    {
        if self.col < max {
            self.col += 1;
        }
    }

    /// Moves the cursor one row down, but not past row `max`.
    pub fn advance_row(&mut self, max: usize)
        ensures
            final(self).col == old(self).col,
            final(self).row == if old(self).row < max {
                old(self).row + 1
            } else {
                old(self).row as int
            },
    {
        if self.row < max {
            self.row += 1;
        }
    }
}

/// The four bytes of a pixel, lowest first.
pub open spec fn pixel_bytes(pixel: u32) -> Seq<u8> {
    seq![
        (pixel & 0xff) as u8,
        ((pixel >> 8) & 0xff) as u8,
        ((pixel >> 16) & 0xff) as u8,
        ((pixel >> 24) & 0xff) as u8,
    ]
}

/// The grey pixel of a given intensity.
pub open spec fn grey(intensity: u8) -> u32 {
    (intensity as u32) << 16 | (intensity as u32) << 8 | (intensity as u32)
}

/// A picture as the painting functions see it: its bytes, and how pixels
/// are laid out in them.
pub struct Canvas {
    pub pixels: Seq<u8>,
    /// Pixels in a line.
    pub width: int,
    /// Lines.
    pub height: int,
    /// Bytes from one line to the next.
    pub pitch: int,
    /// Bits from one pixel to the next.
    pub bpp: int,
}

impl Canvas {
    /// Where the bytes of the pixel at column `x` of line `y` start.
    pub open spec fn offset(self, x: int, y: int) -> int {
        x * self.bpp / 8 + y * self.pitch
    }

    /// The pixel lies in the picture and its four bytes in the buffer.
    pub open spec fn holds(self, x: int, y: int) -> bool {
        &&& 0 <= x < self.width
        &&& 0 <= y < self.height
        &&& self.offset(x, y) + 4 <= self.pixels.len()
    }

    /// The picture after one pixel was set. A pixel that the picture does
    /// not hold is dropped.
    pub open spec fn plot(self, x: int, y: int, pixel: u32) -> Canvas {
        if self.holds(x, y) {
            let at = self.offset(x, y);
            let bytes = pixel_bytes(pixel);
            Canvas {
                pixels: self.pixels.update(at, bytes[0]).update(at + 1, bytes[1]).update(
                    at + 2,
                    bytes[2],
                ).update(at + 3, bytes[3]),
                ..self
            }
        } else {
            self
        }
    }

    /// The picture after the first `count` pixels of a line of a rectangle
    /// were set, from the left.
    pub open spec fn fill_line(self, x: int, y: int, count: nat, pixel: u32) -> Canvas
        decreases count,
    {
        if count == 0 {
            self
        } else {
            self.fill_line(x, y, (count - 1) as nat, pixel).plot(x + count - 1, y, pixel)
        }
    }

    /// The picture after the first `count` lines of a rectangle of the given
    /// width were set, from the top.
    pub open spec fn fill(self, x: int, y: int, width: nat, count: nat, pixel: u32) -> Canvas
        decreases count,
    {
        if count == 0 {
            self
        } else {
            self.fill(x, y, width, (count - 1) as nat, pixel).fill_line(
                x,
                y + count - 1,
                width,
                pixel,
            )
        }
    }

    /// The picture after the first `count` intensities of one line of a
    /// glyph were painted, from the left.
    pub open spec fn paint_line(self, line: Seq<u8>, x: int, y: int, count: nat) -> Canvas
        decreases count,
    {
        if count == 0 {
            self
        } else {
            self.paint_line(line, x, y, (count - 1) as nat).plot(
                x + count - 1,
                y,
                grey(line[count - 1]),
            )
        }
    }

    /// The picture after the first `count` lines of a glyph were painted,
    /// from the top.
    pub open spec fn paint(self, glyph: Seq<Seq<u8>>, x: int, y: int, count: nat) -> Canvas
        decreases count,
    {
        if count == 0 {
            self
        } else {
            self.paint(glyph, x, y, (count - 1) as nat).paint_line(
                glyph[count - 1],
                x,
                y + count - 1,
                glyph[count - 1].len(),
            )
        }
    }

    /// The picture after the glyph of a character was painted with its top
    /// left at column `x` of line `y`. A character without a glyph paints
    /// nothing.
    pub open spec fn paint_char(self, character: char, x: int, y: int) -> Canvas {
        match raster_of(character) {
            Some(glyph) => self.paint(glyph, x, y, glyph.len()),
            None => self,
        }
    }

    /// The picture after the first `count` cells of the grid were painted,
    /// line by line, each cell `width` pixels wide and `height` pixels high.
    pub open spec fn paint_cells(
        self,
        grid: Seq<Seq<char>>,
        width: int,
        height: int,
        count: nat,
    ) -> Canvas
        decreases count,
    {
        if count == 0 {
            self
        } else {
            let cell = count - 1;
            let row = cell / COLS as int;
            let col = cell % COLS as int;
            self.paint_cells(grid, width, height, cell as nat).paint_char(
                grid[row][col],
                col * width,
                row * height,
            )
        }
    }

    /// The picture after the whole page was painted and the cursor, a white
    /// rectangle 6 pixels wide and 12 high, was set on top of it.
    pub open spec fn render(self, page: Page, width: int, height: int) -> Canvas {
        self.paint_cells(page.grid, width, height, (ROWS * COLS) as nat).fill(
            page.col * width,
            page.row * height,
            6,
            12,
            0xffff_ffff,
        )
    }
}

/// The text of the console and the place of its cursor.
pub struct Page {
    /// The characters, line by line.
    pub grid: Seq<Seq<char>>,
    pub row: int,
    pub col: int,
}

impl Page {
    /// The page after one character was written. A line feed moves the
    /// cursor to the start of the next line and stays on the last line. Any
    /// other character goes where the cursor is and moves it one to the
    /// right, where it stays at the end of the line.
    pub open spec fn put(self, character: char) -> Page {
        if character == '\n' {
            Page {
                col: 0,
                row: if self.row < ROWS - 1 {
                    self.row + 1
                } else {
                    self.row
                },
                ..self
            }
        } else {
            Page {
                grid: self.grid.update(self.row, self.grid[self.row].update(self.col, character)),
                col: if self.col < COLS - 1 {
                    self.col + 1
                } else {
                    self.col
                },
                ..self
            }
        }
    }

    /// The page after a text was written, character by character.
    pub open spec fn typed(self, text: Seq<char>) -> Page
        decreases text.len(),
    {
        if text.len() == 0 {
            self
        } else {
            self.typed(text.drop_last()).put(text.last())
        }
    }

    /// The page with every cell a space and the cursor at the top left.
    pub open spec fn blank() -> Page {
        Page {
            grid: Seq::new(ROWS as nat, |row: int| Seq::new(COLS as nat, |col: int| ' ')),
            row: 0,
            col: 0,
        }
    }
}

/// The raster of a character in the font of the console, regular weight at
/// height 16: its lines from the top, each an intensity per pixel from the
/// left. A character that the font lacks has none.
pub uninterp spec fn raster_of(character: char) -> Option<Seq<Seq<u8>>>;

/// The lines of a raster, each as the sequence of its intensities.
pub open spec fn lines_of(glyph: &[&[u8]]) -> Seq<Seq<u8>> {
    Seq::new(glyph@.len(), |line: int| glyph@[line]@)
}

/// Looks the raster of a character up in the font with
/// `noto_sans_mono_bitmap::get_raster`, for regular weight and height 16, and
/// hands out its lines. The font is a table: the result depends on the
/// character alone, and `raster_of` is the name of it.
#[verifier::external_body]
fn raster(character: char) -> (glyph: Option<&'static [&'static [u8]]>)
    ensures
        raster_of(character) == match glyph {
            Some(lines) => Some(lines_of(lines)),
            None => None,
        },
{
    let found = noto_sans_mono_bitmap::get_raster(
        character,
        FontWeight::Regular,
        RasterHeight::Size16,
    )?;
    Some(found.raster())
}

/// The width of every raster of the font, from
/// `noto_sans_mono_bitmap::get_raster_width` for regular weight and height
/// 16, which is 7 pixels.
#[verifier::external_body]
fn raster_width() -> (width: usize)
    ensures
        width == 7,
{
    noto_sans_mono_bitmap::get_raster_width(FontWeight::Regular, RasterHeight::Size16)
}

/// The height of every raster of the font, from
/// `noto_sans_mono_bitmap::RasterHeight::val` for height 16, which is the
/// number 16.
#[verifier::external_body]
fn raster_height() -> (height: usize)
    ensures
        height == 16,
{
    RasterHeight::Size16.val()
}

/// The first pixel of a cell lies within the range of the machine's numbers.
proof fn lemma_cell_origin(index: int, size: int)
    by (nonlinear_arith)
    requires
        0 <= index < 80,
        0 <= size <= 0xffff,
    ensures
        0 <= index * size <= 79 * 0xffff,
{
}

/// The size of a cell of the grid, in pixels.
#[derive(Debug, Clone, Copy, PartialEq, Eq, Structural)]
pub struct Block {
    pub height: usize,
    pub width: usize,
}

/// The bytes of a picture, with the layout of its pixels.
pub struct Frame<'a> {
    pub pixels: &'a mut [u8],
    /// Pixels in a line.
    pub width: usize,
    /// Lines.
    pub height: usize,
    /// Bytes from one line to the next.
    pub pitch: usize,
    /// Bits from one pixel to the next.
    pub bpp: u16,
}

impl<'a> View for Frame<'a> {
    type V = Canvas;

    open spec fn view(&self) -> Canvas {
        Canvas {
            pixels: self.pixels@,
            width: self.width as int,
            height: self.height as int,
            pitch: self.pitch as int,
            bpp: self.bpp as int,
        }
    }
}

impl<'a> Frame<'a> {
    /// A picture over the bytes `pixels`.
    pub fn new(
        pixels: &'a mut [u8],
        width: usize,
        height: usize,
        pitch: usize,
        bpp: u16,
    ) -> (frame: Frame<'a>)
        ensures
            frame@ == (Canvas {
                pixels: old(pixels)@,
                width: width as int,
                height: height as int,
                pitch: pitch as int,
                bpp: bpp as int,
            }),
    {
        Frame { pixels, width, height, pitch, bpp }
    }

    /// Sets the pixel at column `x` of line `y`.
    pub fn plot_pixel(&mut self, x: usize, y: usize, pixel: u32)
        ensures
            final(self)@ == old(self)@.plot(x as int, y as int, pixel),
    {
        if x >= self.width || y >= self.height {
            return;
        }
        let length: u128 = self.pixels.len() as u128;
        assert(x * self.bpp <= 0xffff_ffff_ffff_ffff * 0xffff) by (nonlinear_arith)
            requires
                x <= 0xffff_ffff_ffff_ffff,
                self.bpp <= 0xffff,
        ;
        let across: u128 = (x as u128) * (self.bpp as u128) / 8;
        if across > length {
            return;
        }
        assert(0 <= y * self.pitch <= 0xffff_ffff_ffff_ffff * 0xffff_ffff_ffff_ffff)
            by (nonlinear_arith)
            requires
                0 <= y <= 0xffff_ffff_ffff_ffff,
                0 <= self.pitch <= 0xffff_ffff_ffff_ffff,
        ;
        let down: u128 = (y as u128) * (self.pitch as u128);
        if down > length {
            return;
        }
        let offset: u128 = across + down;
        if offset + 4 > length {
            return;
        }
        let at: usize = offset as usize;
        self.pixels[at] = #[verifier::truncate] ((pixel & 0xff) as u8);
        self.pixels[at + 1] = #[verifier::truncate] (((pixel >> 8) & 0xff) as u8);
        self.pixels[at + 2] = #[verifier::truncate] (((pixel >> 16) & 0xff) as u8);
        self.pixels[at + 3] = #[verifier::truncate] (((pixel >> 24) & 0xff) as u8);
    }

    /// Sets every pixel of the rectangle of the given width and height whose
    /// top left is at column `x` of line `y`.
    pub fn draw_rect(&mut self, x: usize, y: usize, width: usize, height: usize, pixel: u32)
        ensures
            final(self)@ == old(self)@.fill(x as int, y as int, width as nat, height as nat, pixel),
    {
        let mut line: usize = 0;
        while line < height
            invariant
                line <= height,
                self@ == old(self)@.fill(x as int, y as int, width as nat, line as nat, pixel),
            decreases height - line,
        {
            let ghost start = self@;
            let mut column: usize = 0;
            while column < width
                invariant
                    column <= width,
                    line < height,
                    self@ == start.fill_line(x as int, y + line, column as nat, pixel),
                decreases width - column,
            {
                let ghost before = self@;
                if x <= usize::MAX - column && y <= usize::MAX - line {
                    self.plot_pixel(x + column, y + line, pixel);
                } else {
                    assert(!before.holds(x + column, y + line));
                }
                column += 1;
            }
            line += 1;
        }
    }

    /// Paints a glyph with its top left at column `x` of line `y`: every
    /// intensity of the glyph becomes a grey pixel.
    pub fn draw_glyph(&mut self, glyph: &[&[u8]], x: usize, y: usize)
        ensures
            final(self)@ == old(self)@.paint(
                lines_of(glyph),
                x as int,
                y as int,
                glyph@.len() as nat,
            ),
    {
        let mut line: usize = 0;
        while line < glyph.len()
            invariant
                line <= glyph.len(),
                self@ == old(self)@.paint(lines_of(glyph), x as int, y as int, line as nat),
            decreases glyph.len() - line,
        {
            let ghost start = self@;
            let row = glyph[line];
            assert(lines_of(glyph)[line as int] == row@);
            let mut column: usize = 0;
            while column < row.len()
                invariant
                    column <= row.len(),
                    self@ == start.paint_line(row@, x as int, y + line, column as nat),
                decreases row.len() - column,
            {
                let ghost before = self@;
                let color: u32 = row[column] as u32;
                let pixel: u32 = color << 16 | color << 8 | color;
                if x <= usize::MAX - column && y <= usize::MAX - line {
                    self.plot_pixel(x + column, y + line, pixel);
                } else {
                    assert(!before.holds(x + column, y + line));
                }
                column += 1;
            }
            line += 1;
        }
    }

    /// Paints the glyph of a character into the cell at line `row` and
    /// column `col` of a grid of cells of the size `block`.
    pub fn draw_char(&mut self, character: char, row: usize, col: usize, block: Block)
        requires
            row < ROWS,
            col < COLS,
            block.width <= 0xffff,
            block.height <= 0xffff,
        ensures
            final(self)@ == old(self)@.paint_char(
                character,
                col * block.width,
                row * block.height,
            ),
    {
        proof {
            lemma_cell_origin(col as int, block.width as int);
            lemma_cell_origin(row as int, block.height as int);
        }
        if let Some(glyph) = raster(character) {
            self.draw_glyph(glyph, col * block.width, row * block.height);
        }
    }
}

/// The console: a page of text, and the picture that shows it once it has
/// been rendered.
pub struct TTY<'a> {
    buffer: [[char; COLS]; ROWS],
    cursor: Cursor,
    frame: Frame<'a>,
    block: Block,
}

impl<'a> TTY<'a> {
    /// The console is sound: the cursor lies on the page, and a cell is at
    /// most 65535 pixels wide and high. `new` gives such a console, and every
    /// operation keeps it so.
    pub closed spec fn wf(self) -> bool {
        &&& self.cursor.row < ROWS
        &&& self.cursor.col < COLS
        &&& self.block.width <= 0xffff
        &&& self.block.height <= 0xffff
    }

    /// The text and the cursor.
    pub closed spec fn page(self) -> Page {
        Page {
            grid: Seq::new(ROWS as nat, |row: int| self.buffer@[row]@),
            row: self.cursor.row as int,
            col: self.cursor.col as int,
        }
    }

    /// The picture.
    pub closed spec fn canvas(self) -> Canvas {
        self.frame@
    }

    /// The size of a cell.
    pub closed spec fn cell(self) -> Block {
        self.block
    }

    /// A console with a blank page over the picture `frame`. Its cells have
    /// the size of the rasters of the font.
    pub fn new(frame: Frame<'a>) -> (tty: TTY<'a>)
        ensures
            tty.wf(),
            tty.page() == Page::blank(),
            tty.canvas() == frame@,
            tty.cell() == (Block { height: 16, width: 7 }),
    {
        let tty = TTY {
            buffer: [[' '; COLS]; ROWS],
            cursor: Cursor::new(),
            frame,
            block: Block { height: raster_height(), width: raster_width() },
        };
        proof {
            assert forall|row: int| 0 <= row < ROWS implies #[trigger] tty.page().grid[row]
                =~= Page::blank().grid[row] by {
                assert(tty.buffer@[row]@ =~= Seq::new(COLS as nat, |col: int| ' '));
            }
            assert(tty.page().grid =~= Page::blank().grid);
        }
        tty
    }

    /// Whether the console is sound; see `wf`.
    pub fn is_consistent(&self) -> (consistent: bool)
        ensures
            consistent == self.wf(),
    {
        self.cursor.row < ROWS && self.cursor.col < COLS && self.block.width <= 0xffff
            && self.block.height <= 0xffff
    }

    /// The place of the cursor.
    pub fn cursor(&self) -> (cursor: Cursor)
        ensures
            cursor.row == self.page().row,
            cursor.col == self.page().col,
            self.wf() ==> cursor.row < ROWS && cursor.col < COLS,
    {
        self.cursor
    }

    /// The character in the cell at line `row` and column `col`, if the page
    /// has such a cell.
    pub fn character(&self, row: usize, col: usize) -> (character: Option<char>)
        ensures
            row < ROWS && col < COLS ==> character == Some(
                self.page().grid[row as int][col as int],
            ),
            row >= ROWS || col >= COLS ==> character is None,
    {
        if row < ROWS && col < COLS {
            Some(self.buffer[row][col])
        } else {
            None
        }
    }

    /// The size of a cell, in pixels.
    pub fn block(&self) -> (block: Block)
        ensures
            block == self.cell(),
    {
        self.block
    }

    /// The picture as it was last painted.
    pub fn frame(&self) -> (frame: &Frame<'a>)
        ensures
            frame@ == self.canvas(),
    {
        &self.frame
    }

    /// Moves the cursor to the top left and paints the whole picture black.
    /// The text stays.
    pub fn clear(&mut self)
        requires
            old(self).wf(),
        ensures
            final(self).wf(),
            final(self).page() == (Page { row: 0, col: 0, ..old(self).page() }),
            final(self).cell() == old(self).cell(),
            final(self).canvas() == old(self).canvas().fill(
                0,
                0,
                old(self).canvas().width as nat,
                old(self).canvas().height as nat,
                0,
            ),
    {
        self.cursor.reset();
        let width = self.frame.width;
        let height = self.frame.height;
        self.frame.draw_rect(0, 0, width, height, 0x0000_0000);
    }

    /// Writes one character to the page.
    fn put(&mut self, character: char)
        requires
            old(self).wf(),
        ensures
            final(self).wf(),
            final(self).page() == old(self).page().put(character),
            final(self).cell() == old(self).cell(),
            final(self).canvas() == old(self).canvas(),
    {
        if character == '\n' {
            self.cursor.col = 0;
            self.cursor.advance_row(ROWS - 1);
            assert(self.page().grid =~= old(self).page().grid);
        } else {
            let row = self.cursor.row;
            let col = self.cursor.col;
            self.buffer[row][col] = character;
            self.cursor.advance_col(COLS - 1);
            proof {
                let expected = old(self).page().put(character);
                assert forall|line: int| 0 <= line < ROWS implies #[trigger] self.page().grid[line]
                    =~= expected.grid[line] by {}
                assert(self.page().grid =~= expected.grid);
            }
        }
    }

    /// Writes a text to the page, character by character. The picture does
    /// not change before `render`.
    pub fn write(&mut self, content: &str)
        requires
            old(self).wf(),
        ensures
            final(self).wf(),
            final(self).page() == old(self).page().typed(content@),
            final(self).cell() == old(self).cell(),
            final(self).canvas() == old(self).canvas(),
    {
        let length = content.unicode_len();
        let mut index: usize = 0;
        proof {
            assert(content@.take(0) =~= Seq::<char>::empty());
        }
        while index < length
            invariant
                index <= length,
                length == content@.len(),
                self.wf(),
                self.page() == old(self).page().typed(content@.take(index as int)),
                self.cell() == old(self).cell(),
                self.canvas() == old(self).canvas(),
            decreases length - index,
        {
            proof {
                assert(content@.take(index + 1).drop_last() =~= content@.take(index as int));
            }
            self.put(content.get_char(index));
            index += 1;
        }
        proof {
            assert(content@.take(length as int) =~= content@);
        }
    }

    /// Paints the page into the picture: every cell in turn, line by line,
    /// and then the cursor.
    pub fn render(&mut self)
        requires
            old(self).wf(),
        ensures
            final(self).wf(),
            final(self).page() == old(self).page(),
            final(self).cell() == old(self).cell(),
            final(self).canvas() == old(self).canvas().render(
                old(self).page(),
                old(self).cell().width as int,
                old(self).cell().height as int,
            ),
    {
        let block = self.block;
        let mut row: usize = 0;
        while row < ROWS
            invariant
                row <= ROWS,
                block == self.block,
                block.width <= 0xffff,
                block.height <= 0xffff,
                self.cursor.row < ROWS,
                self.cursor.col < COLS,
                self.page() == old(self).page(),
                self.cell() == old(self).cell(),
                self.canvas() == old(self).canvas().paint_cells(
                    old(self).page().grid,
                    block.width as int,
                    block.height as int,
                    (row * COLS) as nat,
                ),
            decreases ROWS - row,
        {
            let mut col: usize = 0;
            while col < COLS
                invariant
                    col <= COLS,
                    row < ROWS,
                    block == self.block,
                    block.width <= 0xffff,
                    block.height <= 0xffff,
                    self.cursor.row < ROWS,
                    self.cursor.col < COLS,
                    self.page() == old(self).page(),
                    self.cell() == old(self).cell(),
                    self.canvas() == old(self).canvas().paint_cells(
                        old(self).page().grid,
                        block.width as int,
                        block.height as int,
                        (row * COLS + col) as nat,
                    ),
                decreases COLS - col,
            {
                let character = self.buffer[row][col];
                assert(character == old(self).page().grid[row as int][col as int]);
                self.frame.draw_char(character, row, col, block);
                col += 1;
            }
            row += 1;
        }
        proof {
            lemma_cell_origin(self.cursor.col as int, self.block.width as int);
            lemma_cell_origin(self.cursor.row as int, self.block.height as int);
        }
        let x = self.cursor.col * self.block.width;
        let y = self.cursor.row * self.block.height;
        self.frame.draw_rect(x, y, 6, 12, 0xffff_ffff);
    }
}

} // verus!
