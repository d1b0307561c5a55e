use kernel::vga::{Char, Color, ColorCode, Console, HEIGHT, WIDTH};

fn white(b: u8) -> Char {
    Char::new(b, ColorCode::white_on_black())
}

fn blank() -> Console {
    Console::new(vec![Char::none(); WIDTH * HEIGHT])
}

fn snapshot(c: &Console) -> Vec<Char> {
    let mut v = Vec::new();
    for r in 0..HEIGHT {
        for col in 0..WIDTH {
            v.push(c.cell(r, col));
        }
    }
    v
}

#[test]
fn color_code_packs_background_high() {
    assert_eq!(ColorCode::new(Color::White, Color::Black).value(), 0x0f);
    assert_eq!(ColorCode::new(Color::Blue, Color::Red).value(), 0x41);
    assert_eq!(ColorCode::new(Color::Black, Color::White).value(), 0xf0);
    assert_eq!(ColorCode::new(Color::Yellow, Color::Pink).value(), 0xde);
    assert_eq!(Color::LightGray.number(), 7);
}

#[test]
fn special_cells() {
    assert_eq!(Char::none().ch(), 0);
    assert_eq!(Char::none().color().value(), 0);
    assert_eq!(Char::unprintable().ch(), 0xfe);
    assert_eq!(Char::unprintable().color().value(), 0x0f);
}

#[test]
fn console_over_blank_cells() {
    let c = blank();
    assert_eq!(c.row(), 0);
    assert_eq!(c.col(), 0);
    assert!(snapshot(&c).iter().all(|x| *x == Char::none()));
}

#[test]
fn new_console_keeps_screen_contents() {
    let mut cells = vec![Char::none(); WIDTH * HEIGHT];
    cells[0] = white(b'B');
    cells[WIDTH * HEIGHT - 1] = Char::new(b'Z', ColorCode::from_attr(0x1e));
    let c = Console::new(cells.clone());
    assert_eq!((c.row(), c.col()), (0, 0));
    assert_eq!(snapshot(&c), cells);
    assert_eq!(c.cell(HEIGHT - 1, WIDTH - 1).color().value(), 0x1e);
}

#[test]
fn printable_text_is_stored_in_order() {
    let mut c = blank();
    c.write_str("Hi!");
    assert_eq!(c.cell(0, 0), white(b'H'));
    assert_eq!(c.cell(0, 1), white(b'i'));
    assert_eq!(c.cell(0, 2), white(b'!'));
    assert_eq!(c.cell(0, 3), Char::none());
    assert_eq!((c.row(), c.col()), (0, 3));
}

#[test]
fn newline_and_carriage_return() {
    let mut c = blank();
    c.write_str("ab\ncd\rX");
    assert_eq!(c.cell(0, 0), white(b'a'));
    assert_eq!(c.cell(0, 1), white(b'b'));
    assert_eq!(c.cell(1, 0), white(b'X'));
    assert_eq!(c.cell(1, 1), white(b'd'));
    assert_eq!((c.row(), c.col()), (1, 1));
}

#[test]
fn unprintable_bytes_show_marker() {
    let mut c = blank();
    c.write_bytes(&[0x07, 0x7f, 0x41]);
    assert_eq!(c.cell(0, 0), Char::unprintable());
    assert_eq!(c.cell(0, 1), Char::unprintable());
    assert_eq!(c.cell(0, 2), white(b'A'));
    // a colour given with the cell is kept for printable bytes only
    c.write_char(Char::new(b'z', ColorCode::new(Color::Green, Color::Blue)));
    assert_eq!(c.cell(0, 3).color().value(), 0x12);
    c.write_char(Char::new(0x01, ColorCode::new(Color::Green, Color::Blue)));
    assert_eq!(c.cell(0, 4), Char::unprintable());
}

#[test]
fn line_wraps_after_last_column() {
    let mut c = blank();
    let line = "x".repeat(WIDTH);
    c.write_str(&line);
    assert_eq!((c.row(), c.col()), (1, 0));
    assert_eq!(c.cell(0, WIDTH - 1), white(b'x'));
    c.write_str("y");
    assert_eq!(c.cell(1, 0), white(b'y'));
}

#[test]
fn bottom_row_scrolls() {
    let mut c = blank();
    c.write_str("top\n");
    for _ in 1..HEIGHT - 1 {
        c.write_str("\n");
    }
    assert_eq!(c.row(), HEIGHT - 1);
    c.write_str("last");
    assert_eq!(c.cell(0, 0), white(b't'));
    c.write_str("\n");
    // everything moved up one row, the cursor stays on the bottom row
    assert_eq!(c.row(), HEIGHT - 1);
    assert_eq!(c.col(), 0);
    assert_eq!(c.cell(0, 0), Char::none());
    assert_eq!(c.cell(HEIGHT - 2, 0), white(b'l'));
    assert_eq!(c.cell(HEIGHT - 1, 0), Char::none());
}

#[test]
fn writing_in_bottom_right_corner_scrolls() {
    let mut c = blank();
    for _ in 0..HEIGHT - 1 {
        c.write_str("\n");
    }
    let almost = "a".repeat(WIDTH - 1);
    c.write_str(&almost);
    c.write_str("Z");
    assert_eq!((c.row(), c.col()), (HEIGHT - 1, 0));
    assert_eq!(c.cell(HEIGHT - 2, WIDTH - 1), white(b'Z'));
    assert_eq!(c.cell(HEIGHT - 1, WIDTH - 1), Char::none());
}

#[test]
fn shift_rows_up_keeps_cursor() {
    let mut c = blank();
    c.write_str("a\nb\nc");
    c.shift_rows_up();
    assert_eq!(c.cell(0, 0), white(b'b'));
    assert_eq!(c.cell(1, 0), white(b'c'));
    assert_eq!(c.cell(2, 0), Char::none());
    assert_eq!((c.row(), c.col()), (2, 1));
}

#[test]
fn next_row_and_next_col() {
    let mut c = blank();
    c.next_col();
    assert_eq!((c.row(), c.col()), (0, 1));
    c.next_row();
    assert_eq!((c.row(), c.col()), (1, 0));
}

#[test]
fn split_write_equals_whole_write() {
    let mut a = blank();
    let mut b = blank();
    let text = "hello\nworld\r!\x01";
    a.write_str(text);
    b.write_str("hello\nwo");
    b.write_str("rld\r!\x01");
    assert_eq!(snapshot(&a), snapshot(&b));
    assert_eq!((a.row(), a.col()), (b.row(), b.col()));
}

#[test]
fn cell_write_overwrites() {
    let mut x = Char::none();
    x.write(white(b'q'));
    assert_eq!(x, white(b'q'));
}
