use kernel::tty::{Block, Cursor, Frame, COLS, ROWS, TTY};
use noto_sans_mono_bitmap::{get_raster, get_raster_width, FontWeight, RasterHeight};

const WIDTH: usize = 640;
const HEIGHT: usize = 400;
const PITCH: usize = WIDTH * 4;

fn screen() -> Vec<u8> {
    vec![0x55; PITCH * HEIGHT]
}

fn frame(bytes: &mut [u8]) -> Frame<'_> {
    Frame::new(bytes, WIDTH, HEIGHT, PITCH, 32)
}

fn pixel(frame: &Frame, x: usize, y: usize) -> u32 {
    let at = x * 4 + y * frame.pitch;
    u32::from_le_bytes([
        frame.pixels[at],
        frame.pixels[at + 1],
        frame.pixels[at + 2],
        frame.pixels[at + 3],
    ])
}

fn grey(intensity: u8) -> u32 {
    let color = intensity as u32;
    color << 16 | color << 8 | color
}

fn glyph(character: char) -> &'static [&'static [u8]] {
    get_raster(character, FontWeight::Regular, RasterHeight::Size16).unwrap().raster()
}

fn text(tty: &TTY, row: usize) -> String {
    (0..COLS).map(|col| tty.character(row, col).unwrap()).collect::<String>().trim_end().to_string()
}

#[test]
fn cursor_moves_within_its_bounds() {
    let mut cursor = Cursor::new();
    assert_eq!((cursor.row, cursor.col), (0, 0));
    cursor.advance_col(2);
    cursor.advance_col(2);
    cursor.advance_col(2);
    assert_eq!((cursor.row, cursor.col), (0, 2));
    cursor.advance_row(1);
    cursor.advance_row(1);
    assert_eq!((cursor.row, cursor.col), (1, 2));
    cursor.advance_row(0);
    cursor.advance_col(0);
    assert_eq!((cursor.row, cursor.col), (1, 2));
    cursor.reset();
    assert_eq!(cursor, Cursor::new());
}

#[test]
fn plot_pixel_stores_the_pixel_lowest_byte_first() {
    let mut bytes = vec![0; 64];
    let mut frame = Frame::new(&mut bytes, 4, 4, 16, 32);
    frame.plot_pixel(1, 2, 0x1122_3344);
    let mut expected = vec![0; 64];
    expected[36..40].copy_from_slice(&[0x44, 0x33, 0x22, 0x11]);
    assert_eq!(bytes, expected);
}

#[test]
fn plot_pixel_drops_what_the_picture_does_not_hold() {
    let mut bytes = vec![0; 62];
    let mut frame = Frame::new(&mut bytes, 4, 4, 16, 32);
    frame.plot_pixel(4, 0, 0xffff_ffff);
    frame.plot_pixel(0, 4, 0xffff_ffff);
    frame.plot_pixel(3, 3, 0xffff_ffff);
    frame.plot_pixel(usize::MAX, usize::MAX, 0xffff_ffff);
    assert_eq!(frame.pixels.to_vec(), vec![0; 62]);
    frame.plot_pixel(2, 3, 0xffff_ffff);
    assert_eq!(bytes[56..60], [0xff; 4]);
}

#[test]
fn plot_pixel_follows_the_bits_per_pixel() {
    let mut bytes = vec![0; 32];
    let mut frame = Frame::new(&mut bytes, 4, 2, 16, 24);
    frame.plot_pixel(1, 1, 0x00aa_bbcc);
    assert_eq!(bytes[19..23], [0xcc, 0xbb, 0xaa, 0x00]);
}

#[test]
fn draw_rect_fills_the_rectangle_and_nothing_else() {
    let mut bytes = vec![0; 8 * 8 * 4];
    let mut frame = Frame::new(&mut bytes, 8, 8, 32, 32);
    frame.draw_rect(2, 3, 4, 2, 0x0102_0304);
    for y in 0..8 {
        for x in 0..8 {
            let inside = (2..6).contains(&x) && (3..5).contains(&y);
            assert_eq!(pixel(&frame, x, y), if inside { 0x0102_0304 } else { 0 });
        }
    }
    frame.draw_rect(6, 6, 10, 10, 0xffff_ffff);
    assert_eq!(pixel(&frame, 7, 7), 0xffff_ffff);
    assert_eq!(pixel(&frame, 5, 7), 0);
    frame.draw_rect(usize::MAX, usize::MAX, 2, 2, 0x1111_1111);
    assert_eq!(pixel(&frame, 0, 0), 0);
}

#[test]
fn draw_glyph_paints_grey_pixels() {
    let mut bytes = vec![0; 8 * 8 * 4];
    let mut frame = Frame::new(&mut bytes, 8, 8, 32, 32);
    frame.draw_glyph(&[&[0, 0x10, 0xff], &[0x80], &[]], 1, 2);
    assert_eq!(pixel(&frame, 1, 2), 0);
    assert_eq!(pixel(&frame, 2, 2), 0x0010_1010);
    assert_eq!(pixel(&frame, 3, 2), 0x00ff_ffff);
    assert_eq!(pixel(&frame, 1, 3), 0x0080_8080);
    assert_eq!(pixel(&frame, 2, 3), 0);
}

#[test]
fn draw_char_paints_the_raster_of_the_font() {
    let mut bytes = screen();
    let mut frame = frame(&mut bytes);
    let block = Block { height: 16, width: 7 };
    frame.draw_char('A', 2, 5, block);
    let raster = glyph('A');
    assert!(raster.iter().any(|line| line.iter().any(|intensity| *intensity != 0)));
    for (y, line) in raster.iter().enumerate() {
        for (x, intensity) in line.iter().enumerate() {
            assert_eq!(pixel(&frame, 5 * 7 + x, 2 * 16 + y), grey(*intensity));
        }
    }
    assert_eq!(pixel(&frame, 5 * 7 - 1, 2 * 16), 0x5555_5555);
    assert_eq!(pixel(&frame, 5 * 7 + 7, 2 * 16), 0x5555_5555);
}

#[test]
fn draw_char_leaves_the_picture_alone_for_a_character_without_raster() {
    let mut bytes = screen();
    let mut frame = frame(&mut bytes);
    assert!(get_raster('\u{0}', FontWeight::Regular, RasterHeight::Size16).is_none());
    frame.draw_char('\u{0}', 0, 0, Block { height: 16, width: 7 });
    assert!(frame.pixels.iter().all(|byte| *byte == 0x55));
}

#[test]
fn new_console_is_blank_with_cells_of_the_font() {
    let mut bytes = screen();
    let tty = TTY::new(frame(&mut bytes));
    assert!(tty.is_consistent());
    assert_eq!(tty.cursor(), Cursor::new());
    assert_eq!(
        tty.block(),
        Block {
            height: RasterHeight::Size16.val(),
            width: get_raster_width(FontWeight::Regular, RasterHeight::Size16),
        }
    );
    assert_eq!(tty.block(), Block { height: 16, width: 7 });
    for row in 0..ROWS {
        for col in 0..COLS {
            assert_eq!(tty.character(row, col), Some(' '));
        }
    }
    assert_eq!(tty.character(ROWS, 0), None);
    assert_eq!(tty.character(0, COLS), None);
    assert!(tty.frame().pixels.iter().all(|byte| *byte == 0x55));
}

#[test]
fn write_puts_text_on_the_page() {
    let mut bytes = screen();
    let mut tty = TTY::new(frame(&mut bytes));
    tty.write("Welcome to lios!\nok");
    assert_eq!(text(&tty, 0), "Welcome to lios!");
    assert_eq!(text(&tty, 1), "ok");
    assert_eq!(tty.cursor(), Cursor { row: 1, col: 2 });
    assert!(tty.frame().pixels.iter().all(|byte| *byte == 0x55));
}

#[test]
fn write_stays_at_the_end_of_a_line() {
    let mut bytes = screen();
    let mut tty = TTY::new(frame(&mut bytes));
    let long: String = (0..100).map(|index| char::from(b'a' + (index % 26) as u8)).collect();
    tty.write(&long);
    assert_eq!(tty.cursor(), Cursor { row: 0, col: COLS - 1 });
    let expected: String = long[..COLS - 1].to_string() + &long[99..];
    assert_eq!(text(&tty, 0), expected);
    assert_eq!(text(&tty, 1), "");
}

#[test]
fn write_stays_on_the_last_line() {
    let mut bytes = screen();
    let mut tty = TTY::new(frame(&mut bytes));
    for line in 0..30 {
        tty.write(&format!("{}\n", line));
    }
    assert_eq!(tty.cursor(), Cursor { row: ROWS - 1, col: 0 });
    assert_eq!(text(&tty, 0), "0");
    assert_eq!(text(&tty, ROWS - 2), "22");
    assert_eq!(text(&tty, ROWS - 1), "29");
    tty.write("\u{e4}");
    assert_eq!(tty.character(ROWS - 1, 0), Some('\u{e4}'));
}

#[test]
fn render_paints_the_text_and_the_cursor() {
    let mut bytes = screen();
    let mut tty = TTY::new(frame(&mut bytes));
    tty.write("Hi\n!");
    tty.render();
    let picture = tty.frame();
    for (col, character) in ['H', 'i', ' '].iter().enumerate() {
        let raster = glyph(*character);
        for (y, line) in raster.iter().enumerate() {
            for (x, intensity) in line.iter().enumerate() {
                assert_eq!(pixel(picture, col * 7 + x, y), grey(*intensity));
            }
        }
    }
    let mark = glyph('!');
    for y in 0..16 {
        for x in 0..7 {
            assert_eq!(pixel(picture, x, 16 + y), grey(mark[y][x]));
        }
    }
    for y in 0..16 {
        for x in 0..7 {
            let expected = if x < 6 && y < 12 { 0xffff_ffff } else { 0 };
            assert_eq!(pixel(picture, 7 + x, 16 + y), expected);
        }
    }
    assert_eq!(pixel(picture, COLS * 7, 0), 0x5555_5555);
    assert_eq!(pixel(picture, 0, ROWS * 16), 0x5555_5555);
}

#[test]
fn clear_blackens_the_picture_and_keeps_the_text() {
    let mut bytes = screen();
    let mut tty = TTY::new(frame(&mut bytes));
    tty.write("text");
    tty.clear();
    assert_eq!(tty.cursor(), Cursor::new());
    assert_eq!(text(&tty, 0), "text");
    assert!(tty.frame().pixels.iter().all(|byte| *byte == 0));
    tty.write("T");
    assert_eq!(text(&tty, 0), "Text");
}
