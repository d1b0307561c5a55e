//! The VGA text-mode console: a grid of `HEIGHT` rows of `WIDTH` cells with a
//! cursor that wraps at the end of a row and scrolls at the bottom of the screen.
use vstd::prelude::*;
use vstd::string::StringSliceAdditionalSpecFns;

verus! {

/// Number of character columns on the screen.
pub const WIDTH: usize = 80;

/// Number of character rows on the screen.
pub const HEIGHT: usize = 25;

/// The sixteen VGA text colours.
#[derive(Clone, Copy, Debug, PartialEq, Eq, Structural)]
pub enum Color {
    Black,
    Blue,
    Green,
    Cyan,
    Red,
    Magenta,
    Brown,
    LightGray,
    DarkGray,
    LightBlue,
    LightGreen,
    LightCyan,
    LightRed,
    Pink,
    Yellow,
    White,
}

impl Color {
    /// The hardware number of the colour.
    pub open spec fn code(self) -> u8 {
        match self {
            Color::Black => 0,
            Color::Blue => 1,
            Color::Green => 2,
            Color::Cyan => 3,
            Color::Red => 4,
            Color::Magenta => 5,
            Color::Brown => 6,
            Color::LightGray => 7,
            Color::DarkGray => 8,
            Color::LightBlue => 9,
            Color::LightGreen => 10,
            Color::LightCyan => 11,
            Color::LightRed => 12,
            Color::Pink => 13,
            Color::Yellow => 14,
            Color::White => 15,
        }
    }

    /// The hardware number of the colour.
    pub fn number(self) -> (r: u8)
        ensures
            r == self.code(),
            r < 16,
    {
        match self {
            Color::Black => 0,
            Color::Blue => 1,
            Color::Green => 2,
            Color::Cyan => 3,
            Color::Red => 4,
            Color::Magenta => 5,
            Color::Brown => 6,
            Color::LightGray => 7,
            Color::DarkGray => 8,
            Color::LightBlue => 9,
            Color::LightGreen => 10,
            Color::LightCyan => 11,
            Color::LightRed => 12,
            Color::Pink => 13,
            Color::Yellow => 14,
            Color::White => 15,
        }
    }
}

/// A foreground/background colour pair in the VGA attribute byte format:
/// the background in the high nibble, the foreground in the low nibble.
#[derive(Clone, Copy, Debug, PartialEq, Eq, Structural)]
pub struct ColorCode(u8);

impl ColorCode {
    /// The attribute byte.
    pub closed spec fn attr(self) -> u8 {
        self.0
    }

    pub fn new(fg: Color, bg: Color) -> (r: Self)
        ensures
            r.attr() == bg.code() * 16 + fg.code(),
    {
        let b = bg.number();
        let f = fg.number();
        assert(((b << 4u8) | f) == b * 16 + f) by (bit_vector)
            requires
                b < 16,
                f < 16,
        ;
        ColorCode((b << 4u8) | f)
    }

    /// The colour pair with attribute byte `attr`.
    pub fn from_attr(attr: u8) -> (r: Self)
        ensures
            r.attr() == attr,
    {
        ColorCode(attr)
    }

    /// The attribute byte.
    pub fn value(&self) -> (r: u8)
        ensures
            r == self.attr(),
    {
        self.0
    }

    /// Black on black.
    pub closed spec fn spec_black() -> Self {
        ColorCode(0)
    }

    /// White on black.
    pub closed spec fn spec_white_on_black() -> Self {
        ColorCode(15)
    }

    /// Black on black, the colour of an empty cell.
    pub fn black() -> (r: Self)
        ensures
            r == Self::spec_black(),
            r.attr() == 0,
    {
        ColorCode(0)
    }

    /// White on black, the colour of written text.
    pub fn white_on_black() -> (r: Self)
        ensures
            r == Self::spec_white_on_black(),
            r.attr() == 15,
    {
        ColorCode(15)
    }
}

/// One screen cell: a code-page byte and its colour.
#[derive(Clone, Copy, Debug, PartialEq, Eq, Structural)]
pub struct Char {
    char: u8,
    color: ColorCode,
}

impl Char {
    /// The byte shown in the cell.
    pub closed spec fn byte(self) -> u8 {
        self.char
    }

    /// The colour of the cell.
    pub closed spec fn colour(self) -> ColorCode {
        self.color
    }

    pub fn new(char: u8, color: ColorCode) -> (r: Self)
        ensures
            r == Self::spec_new(char, color),
            r.byte() == char,
            r.colour() == color,
    {
        Char { char, color }
    }

    pub closed spec fn spec_new(char: u8, color: ColorCode) -> Self {
        Char { char, color }
    }

    /// The cell content of an empty screen cell.
    pub closed spec fn spec_none() -> Self {
        Char { char: 0, color: ColorCode::spec_black() }
    }

    /// The cell shown in place of a byte that is not printable ASCII.
    pub closed spec fn spec_unprintable() -> Self {
        Char { char: 0xfe, color: ColorCode::spec_white_on_black() }
    }

    /// An empty cell: byte 0, black on black.
    pub fn none() -> (r: Self)
        ensures
            r == Self::spec_none(),
            r.byte() == 0,
            r.colour().attr() == 0,
    {
        Char { char: 0, color: ColorCode::black() }
    }

    /// The replacement cell for unprintable bytes: 0xfe, white on black.
    pub fn unprintable() -> (r: Self)
        ensures
            r == Self::spec_unprintable(),
            r.byte() == 0xfe,
            r.colour().attr() == 15,
    {
        Char { char: 0xfe, color: ColorCode::white_on_black() }
    }

    /// Overwrites this cell with `val`.
    pub fn write(&mut self, val: Self)
        ensures
            *final(self) == val,
    {
        *self = val;
    }

    /// The byte shown in the cell.
    pub fn ch(&self) -> (r: u8)
        ensures
            r == self.byte(),
    {
        self.char
    }

    /// The colour of the cell.
    pub fn color(&self) -> (r: ColorCode)
        ensures
            r == self.colour(),
    {
        self.color
    }
}


/// The abstract state of the screen: the cursor position and the cells in
/// row-major order.
pub struct Screen {
    pub row: int,
    pub col: int,
    pub cells: Seq<Char>,
}

/// Position of the cell at (`row`, `col`) in row-major order.
pub open spec fn cell_index(row: int, col: int) -> int {
    row * WIDTH + col
}

/// The screen cells after every row moved up by one; the bottom row is empty.
pub open spec fn scrolled(cells: Seq<Char>) -> Seq<Char> {
    Seq::new(
        (HEIGHT * WIDTH) as nat,
        |i: int|
            if i < (HEIGHT - 1) * WIDTH {
                cells[i + WIDTH]
            } else {
                Char::spec_none()
            },
    )
}

/// Move the cursor to the start of the next row, scrolling at the bottom.
pub open spec fn after_next_row(s: Screen) -> Screen {
    if s.row == HEIGHT - 1 {
        Screen { row: s.row, col: 0, cells: scrolled(s.cells) }
    } else {
        Screen { row: s.row + 1, col: 0, cells: s.cells }
    }
}

/// Advance the cursor by one column, wrapping to the next row after the last column.
pub open spec fn after_next_col(s: Screen) -> Screen {
    if s.col == WIDTH - 1 {
        after_next_row(s)
    } else {
        Screen { row: s.row, col: s.col + 1, cells: s.cells }
    }
}

/// Store `c` in the cell under the cursor.
pub open spec fn put(s: Screen, c: Char) -> Screen {
    Screen { row: s.row, col: s.col, cells: s.cells.update(cell_index(s.row, s.col), c) }
}

/// Whether a byte is visible ASCII (space through tilde).
pub open spec fn is_printable(b: u8) -> bool {
    0x20 <= b <= 0x7e
}

/// The screen after writing one cell: a newline moves to the next row, a
/// carriage return to the first column, a visible ASCII byte is stored and the
/// cursor advances, any other byte is shown as the unprintable marker.
pub open spec fn after_char(s: Screen, c: Char) -> Screen {
    if c.byte() == 0x0a {
        after_next_row(s)
    } else if c.byte() == 0x0d {
        Screen { row: s.row, col: 0, cells: s.cells }
    } else if is_printable(c.byte()) {
        after_next_col(put(s, c))
    } else {
        after_next_col(put(s, Char::spec_unprintable()))
    }
}

/// The screen after writing `bytes` one by one in white on black.
pub open spec fn after_bytes(s: Screen, bytes: Seq<u8>) -> Screen
    decreases bytes.len(),
{
    if bytes.len() == 0 {
        s
    } else {
        after_bytes(
            after_char(s, Char::spec_new(bytes[0], ColorCode::spec_white_on_black())),
            bytes.drop_first(),
        )
    }
}

/// A screen with the cursor on it and the right number of cells.
pub open spec fn screen_wf(s: Screen) -> bool {
    &&& 0 <= s.row < HEIGHT
    &&& 0 <= s.col < WIDTH
    &&& s.cells.len() == HEIGHT * WIDTH
}

/// Writing a string in two parts gives the same screen as writing it at once.
pub proof fn lemma_write_concat(s: Screen, a: Seq<u8>, b: Seq<u8>)
    ensures
        after_bytes(s, a + b) == after_bytes(after_bytes(s, a), b),
    decreases a.len(),
{
    if a.len() == 0 {
        assert(a + b =~= b);
    } else {
        let c = Char::spec_new(a[0], ColorCode::spec_white_on_black());
        assert((a + b).drop_first() =~= a.drop_first() + b);
        lemma_write_concat(after_char(s, c), a.drop_first(), b);
    }
}

/// Whatever is written, the cursor stays on the screen and the screen keeps
/// its size.
pub proof fn lemma_write_keeps_cursor_on_screen(s: Screen, bytes: Seq<u8>)
    requires
        screen_wf(s),
    ensures
        screen_wf(after_bytes(s, bytes)),
    decreases bytes.len(),
{
    if bytes.len() > 0 {
        let c = Char::spec_new(bytes[0], ColorCode::spec_white_on_black());
        assert(screen_wf(after_char(s, c)));
        lemma_write_keeps_cursor_on_screen(after_char(s, c), bytes.drop_first());
    }
}

/// A visible character is stored in the cell under the cursor, unless the
/// cursor was in the bottom-right corner, where the write scrolls the screen
/// and the character ends up one row higher.
pub proof fn lemma_printable_lands_under_cursor(s: Screen, c: Char)
    requires
        screen_wf(s),
        is_printable(c.byte()),
    ensures
        !(s.row == HEIGHT - 1 && s.col == WIDTH - 1) ==> after_char(s, c).cells[cell_index(s.row, s.col)] == c,
        (s.row == HEIGHT - 1 && s.col == WIDTH - 1) ==> after_char(s, c).cells[cell_index(s.row - 1, s.col)] == c,
{
}

/// Every byte from space (0x20) through tilde (0x7e) is shown as itself: the
/// cell under the cursor (one row higher if the write scrolled the screen from
/// the bottom-right corner) then holds exactly the written cell.
pub proof fn lemma_visible_ascii_is_shown(s: Screen, c: Char)
    requires
        screen_wf(s),
        0x20 <= c.byte() <= 0x7e,
    ensures
        !(s.row == HEIGHT - 1 && s.col == WIDTH - 1) ==> after_char(s, c).cells[cell_index(s.row, s.col)] == c,
        (s.row == HEIGHT - 1 && s.col == WIDTH - 1) ==> after_char(s, c).cells[cell_index(s.row - 1, s.col)] == c,
        after_char(s, c).cells.len() == s.cells.len(),
{
}

/// Every byte below space other than newline and carriage return, and every
/// byte above tilde, is shown as the marker 0xfe in white on black.
pub proof fn lemma_other_bytes_show_marker(s: Screen, c: Char)
    requires
        screen_wf(s),
        c.byte() < 0x20 || c.byte() > 0x7e,
        c.byte() != 0x0a,
        c.byte() != 0x0d,
    ensures
        !(s.row == HEIGHT - 1 && s.col == WIDTH - 1) ==> {
            let shown = after_char(s, c).cells[cell_index(s.row, s.col)];
            shown.byte() == 0xfe && shown.colour().attr() == 15
        },
{
}

/// The text console: a cursor and the screen buffer.
pub struct Console {
    row: usize,
    col: usize,
    buf: Vec<Char>,
}

impl View for Console {
    type V = Screen;

    closed spec fn view(&self) -> Screen {
        Screen { row: self.row as int, col: self.col as int, cells: self.buf@ }
    }
}

impl Console {
    pub open spec fn wf(&self) -> bool {
        screen_wf(self@)
    }

    /// A console over the screen cells `buf` (row-major, as they are found in
    /// the text buffer), with the cursor in the top-left corner. No cell is
    /// changed.
    pub fn new(buf: Vec<Char>) -> (r: Self)
        requires
            buf@.len() == HEIGHT * WIDTH,
        ensures
            r.wf(),
            r@.row == 0,
            r@.col == 0,
            r@.cells == buf@,
    {
        Console { row: 0, col: 0, buf }
    }

    /// Moves every row up by one and clears the bottom row; the cursor stays.
    pub fn shift_rows_up(&mut self)
        requires
            old(self).wf(),
        ensures
            final(self).wf(),
            final(self)@ == (Screen { row: old(self)@.row, col: old(self)@.col, cells: scrolled(old(self)@.cells) }),
    {
        let ghost old_cells = self.buf@;
        let ghost row = self.row;
        let ghost col = self.col;
        let n: usize = (HEIGHT - 1) * WIDTH;
        let mut i: usize = 0;
        while i < n
            invariant
                i <= n,
                n == (HEIGHT - 1) * WIDTH,
                self.buf@.len() == HEIGHT * WIDTH,
                old_cells.len() == HEIGHT * WIDTH,
                self.row == row,
                self.col == col,
                forall|j: int| 0 <= j < i ==> self.buf@[j] == old_cells[j + WIDTH],
                forall|j: int| i <= j < HEIGHT * WIDTH ==> self.buf@[j] == old_cells[j],
            decreases n - i,
        {
            let c = self.buf[i + WIDTH];
            self.buf[i] = c;
            i = i + 1;
        }
        while i < HEIGHT * WIDTH
            invariant
                n <= i <= HEIGHT * WIDTH,
                n == (HEIGHT - 1) * WIDTH,
                self.buf@.len() == HEIGHT * WIDTH,
                old_cells.len() == HEIGHT * WIDTH,
                self.row == row,
                self.col == col,
                forall|j: int| 0 <= j < n ==> self.buf@[j] == old_cells[j + WIDTH],
                forall|j: int| n <= j < i ==> self.buf@[j] == Char::spec_none(),
            decreases HEIGHT * WIDTH - i,
        {
            self.buf[i] = Char::none();
            i = i + 1;
        }
        assert(self.buf@ =~= scrolled(old_cells));
    }

    /// Moves the cursor to the start of the next row, scrolling at the bottom.
    pub fn next_row(&mut self)
        requires
            old(self).wf(),
        ensures
            final(self).wf(),
            final(self)@ == after_next_row(old(self)@),
    {
        if self.row == HEIGHT - 1 {
            self.shift_rows_up();
        } else {
            self.row = self.row + 1;
        }
        self.col = 0;
    }

    /// Advances the cursor by one column, wrapping after the last column.
    pub fn next_col(&mut self)
        requires
            old(self).wf(),
        ensures
            final(self).wf(),
            final(self)@ == after_next_col(old(self)@),
    {
        if self.col == WIDTH - 1 {
            self.next_row();
        } else {
            self.col = self.col + 1;
        }
    }

    /// Writes one cell at the cursor, handling newline and carriage return.
    pub fn write_char(&mut self, char: Char)
        requires
            old(self).wf(),
        ensures
            final(self).wf(),
            final(self)@ == after_char(old(self)@, char),
    {
        let b = char.char;
        if b == 0x0a {
            self.next_row();
        } else if b == 0x0d {
            self.col = 0;
        } else if 0x20 <= b && b <= 0x7e {
            let idx = self.row * WIDTH + self.col;
            self.buf[idx].write(char);
            self.next_col();
        } else {
            let idx = self.row * WIDTH + self.col;
            self.buf[idx].write(Char::unprintable());
            self.next_col();
        }
    }

    /// Writes every byte of `s` in white on black.
    pub fn write_str(&mut self, s: &str)
        requires
            old(self).wf(),
        ensures
            final(self).wf(),
            final(self)@ == after_bytes(old(self)@, s.spec_bytes()),
    {
        self.write_bytes(s.as_bytes());
    }

    /// Writes every byte of `bytes` in white on black.
    pub fn write_bytes(&mut self, bytes: &[u8])
        requires
            old(self).wf(),
        ensures
            final(self).wf(),
            final(self)@ == after_bytes(old(self)@, bytes@),
    {
        let ghost start = self@;
        let mut i: usize = 0;
        assert(bytes@.skip(0) =~= bytes@);
        while i < bytes.len()
            invariant
                i <= bytes@.len(),
                self.wf(),
                after_bytes(start, bytes@) == after_bytes(self@, bytes@.skip(i as int)),
            decreases bytes@.len() - i,
        {
            let ghost before = self@;
            self.write_char(Char::new(bytes[i], ColorCode::white_on_black()));
            proof {
                assert(bytes@.skip(i as int).drop_first() =~= bytes@.skip(i + 1));
            }
            i = i + 1;
        }
        assert(bytes@.skip(i as int) =~= Seq::<u8>::empty());
    }

    /// The cursor row.
    pub fn row(&self) -> (r: usize)
        ensures
            r == self@.row,
    {
        self.row
    }

    /// The cursor column.
    pub fn col(&self) -> (r: usize)
        ensures
            r == self@.col,
    {
        self.col
    }

    /// The cell at (`row`, `col`).
    pub fn cell(&self, row: usize, col: usize) -> (r: Char)
        requires
            self.wf(),
            row < HEIGHT,
            col < WIDTH,
        ensures
            r == self@.cells[cell_index(row as int, col as int)],
    {
        self.buf[row * WIDTH + col]
    }
}

} // verus!
