//! VGA text rendering: a 25×80 screen of character cells with a writing
//! cursor, colors, backspace and scrolling. The screen here is owned data
//! standing for the memory-mapped text buffer; mirroring the cells to the
//! device and moving the hardware cursor through its ports happens outside
//! the crate, fed by the positions computed here.

use vstd::prelude::*;
use vstd::string::StringSliceAdditionalSpecFns;

verus! {

/// Rows of the text screen.
pub const BUFFER_HEIGHT: usize = 25;

/// Columns of the text screen.
pub const BUFFER_WIDTH: usize = 80;

/// The sixteen VGA text-mode colors, in hardware order.
#[derive(Clone, Copy, PartialEq, Eq, Structural, Debug)]
pub enum Color {
    Black,
    Blue,
    Green,
    Cyan,
    Red,
    Magenta,
    Brown,
    LightGray,
    DarkGray,
    LightBlue,
    LightGreen,
    LightCyan,
    LightRed,
    Pink,
    Yellow,
    White,
}

impl Color {
    /// The 4-bit hardware code of each color.
    pub open spec fn code(self) -> int {
        match self {
            Color::Black => 0,
            Color::Blue => 1,
            Color::Green => 2,
            Color::Cyan => 3,
            Color::Red => 4,
            Color::Magenta => 5,
            Color::Brown => 6,
            Color::LightGray => 7,
            Color::DarkGray => 8,
            Color::LightBlue => 9,
            Color::LightGreen => 10,
            Color::LightCyan => 11,
            Color::LightRed => 12,
            Color::Pink => 13,
            Color::Yellow => 14,
            Color::White => 15,
        }
    }

    /// The color's hardware code as a byte.
    pub fn as_u8(self) -> (r: u8)
        ensures
            r == self.code(),
    {
        match self {
            Color::Black => 0,
            Color::Blue => 1,
            Color::Green => 2,
            Color::Cyan => 3,
            Color::Red => 4,
            Color::Magenta => 5,
            Color::Brown => 6,
            Color::LightGray => 7,
            Color::DarkGray => 8,
            Color::LightBlue => 9,
            Color::LightGreen => 10,
            Color::LightCyan => 11,
            Color::LightRed => 12,
            Color::Pink => 13,
            Color::Yellow => 14,
            Color::White => 15,
        }
    }

    /// The color a 4-bit hardware code names.
    pub fn from_u8(v: u8) -> (r: Color)
        requires
            v < 16,
        ensures
            r.code() == v,
    {
        match v {
            0 => Color::Black,
            1 => Color::Blue,
            2 => Color::Green,
            3 => Color::Cyan,
            4 => Color::Red,
            5 => Color::Magenta,
            6 => Color::Brown,
            7 => Color::LightGray,
            8 => Color::DarkGray,
            9 => Color::LightBlue,
            10 => Color::LightGreen,
            11 => Color::LightCyan,
            12 => Color::LightRed,
            13 => Color::Pink,
            14 => Color::Yellow,
            _ => Color::White,
        }
    }
}

/// A packed foreground/background color attribute: background in the high
/// nibble, foreground in the low.
#[derive(Clone, Copy, PartialEq, Eq, Structural, Debug)]
pub struct ColorCode(pub u8);

impl ColorCode {
    /// Pack a foreground and a background color.
    pub fn new(foreground: Color, background: Color) -> (r: ColorCode)
        ensures
            r.0 == background.code() * 16 + foreground.code(),
    {
        ColorCode(background.as_u8() * 16 + foreground.as_u8())
    }

    /// The packed attribute byte.
    pub fn raw(self) -> (r: u8)
        ensures
            r == self.0,
    {
        self.0
    }

    /// The foreground code packed in the low nibble.
    pub open spec fn fg_code(self) -> int {
        (self.0 % 16) as int
    }

    /// The background code packed in the high nibble.
    pub open spec fn bg_code(self) -> int {
        (self.0 / 16) as int
    }
}

/// One screen cell: a character byte and its color attribute, exactly as
/// the text buffer lays them out.
#[derive(Clone, Copy, PartialEq, Eq, Structural, Debug)]
pub struct ScreenChar {
    pub ascii_character: u8,
    pub color_code: ColorCode,
}

/// What a writer looks like to specifications: the grid of cells, the
/// cursor, and the current color.
#[verifier::ext_equal]
pub ghost struct ScreenView {
    pub rows: Seq<Seq<ScreenChar>>,
    pub row: int,
    pub col: int,
    pub color: ColorCode,
}

/// The blank cell rows are cleared with.
pub open spec fn blank_char(color: ColorCode) -> ScreenChar {
    ScreenChar { ascii_character: 32, color_code: color }
}

/// A whole row of blank cells.
pub open spec fn blank_row(color: ColorCode) -> Seq<ScreenChar> {
    Seq::new(BUFFER_WIDTH as nat, |c: int| blank_char(color))
}

impl ScreenView {
    /// The grid has exactly the screen's dimensions and the cursor is on it
    /// (the column may rest one past the last cell, meaning the row is
    /// full).
    pub open spec fn wf(self) -> bool {
        &&& self.rows.len() == BUFFER_HEIGHT
        &&& forall|r: int| 0 <= r < BUFFER_HEIGHT ==> self.rows[r].len() == BUFFER_WIDTH
        &&& 0 <= self.row < BUFFER_HEIGHT
        &&& 0 <= self.col <= BUFFER_WIDTH
    }

    /// Write one cell at the cursor's row and the given column.
    pub open spec fn put(self, r: int, c: int, byte: u8) -> ScreenView {
        ScreenView {
            rows: self.rows.update(
                r,
                self.rows[r].update(c, ScreenChar { ascii_character: byte, color_code: self.color }),
            ),
            ..self
        }
    }

    /// Line feed: move to the start of the next row, or — already on the
    /// last row — scroll everything up one row and blank the last.
    pub open spec fn newline(self) -> ScreenView {
        if self.row < BUFFER_HEIGHT - 1 {
            ScreenView { row: self.row + 1, col: 0, ..self }
        } else {
            ScreenView {
                rows: Seq::new(
                    BUFFER_HEIGHT as nat,
                    |r: int|
                        if r < BUFFER_HEIGHT - 1 {
                            self.rows[r + 1]
                        } else {
                            blank_row(self.color)
                        },
                ),
                col: 0,
                ..self
            }
        }
    }

    /// Backspace: step the cursor back one cell — wrapping to the end of
    /// the previous row at a row start, stuck at the top-left corner — and
    /// blank the cell stepped onto.
    pub open spec fn backspace(self) -> ScreenView {
        if self.col > 0 {
            ScreenView { col: self.col - 1, ..self }.put(self.row, self.col - 1, 32)
        } else if self.row > 0 {
            ScreenView { row: self.row - 1, col: BUFFER_WIDTH - 1, ..self }.put(
                self.row - 1,
                BUFFER_WIDTH - 1,
                32,
            )
        } else {
            self
        }
    }

    /// One byte of output: line feed, carriage return and backspace act as
    /// control; anything else is printed at the cursor, moving to a fresh
    /// line first when the row is full.
    pub open spec fn write_byte(self, byte: u8) -> ScreenView {
        if byte == 10 {
            self.newline()
        } else if byte == 13 {
            ScreenView { col: 0, ..self }
        } else if byte == 8 {
            self.backspace()
        } else {
            let base = if self.col >= BUFFER_WIDTH {
                self.newline()
            } else {
                self
            };
            ScreenView { col: base.col + 1, ..base.put(base.row, base.col, byte) }
        }
    }

    /// How strings are filtered: printable ASCII and the three control
    /// bytes pass; everything else prints as the block character 0xfe.
    pub open spec fn filter_byte(byte: u8) -> u8 {
        if (0x20 <= byte <= 0x7e) || byte == 10 || byte == 13 || byte == 8 {
            byte
        } else {
            0xfe
        }
    }

    /// A whole string of output, byte by byte, filtered.
    pub open spec fn write_string(self, bytes: Seq<u8>) -> ScreenView
        decreases bytes.len(),
    {
        if bytes.len() == 0 {
            self
        } else {
            self.write_byte(Self::filter_byte(bytes[0])).write_string(bytes.drop_first())
        }
    }
}

/// The text writer: cursor position, current color, and the owned cell grid
/// standing for the memory-mapped buffer.
pub struct Writer {
    pub row_position: usize,
    pub column_position: usize,
    pub color_code: ColorCode,
    pub chars: Vec<Vec<ScreenChar>>,
}

impl View for Writer {
    type V = ScreenView;

    open spec fn view(&self) -> ScreenView {
        ScreenView {
            rows: Seq::new(BUFFER_HEIGHT as nat, |r: int| self.chars@[r]@),
            row: self.row_position as int,
            col: self.column_position as int,
            color: self.color_code,
        }
    }
}

impl Writer {
    /// The writer's screen model is well-formed.
    pub open spec fn wf(&self) -> bool {
        &&& self@.wf()
        &&& self.chars@.len() == BUFFER_HEIGHT
        &&& forall|r: int|
            0 <= r < BUFFER_HEIGHT ==> (#[trigger] self.chars@[r])@.len() == BUFFER_WIDTH
    }

    /// A writer over a blank screen in the given color.
    pub fn new(color_code: ColorCode) -> (r: Writer)
        ensures
            r.wf(),
            r@.row == 0 && r@.col == 0,
            r@.color == color_code,
            forall|row: int| 0 <= row < BUFFER_HEIGHT ==> r@.rows[row] =~= blank_row(color_code),
    {
        let mut chars: Vec<Vec<ScreenChar>> = Vec::new();
        let mut row: usize = 0;
        while row < BUFFER_HEIGHT
            invariant
                row <= BUFFER_HEIGHT,
                chars@.len() == row,
                forall|r: int| 0 <= r < row ==> chars@[r]@ =~= blank_row(color_code),
            decreases BUFFER_HEIGHT - row,
        {
            let blank = ScreenChar { ascii_character: 32u8, color_code };
            let line: Vec<ScreenChar> = vec![blank; BUFFER_WIDTH];
            proof {
                assert(line@ =~= blank_row(color_code));
            }
            chars.push(line);
            row = row + 1;
        }
        Writer { row_position: 0, column_position: 0, color_code, chars }
    }

    /// Blank one row in the current color.
    pub fn clear_row(&mut self, row: usize)
        requires
            old(self).wf(),
            row < BUFFER_HEIGHT,
        ensures
            final(self).wf(),
            final(self)@ =~~= (ScreenView {
                rows: old(self)@.rows.update(row as int, blank_row(old(self)@.color)),
                ..old(self)@
            }),
    {
        let blank = ScreenChar { ascii_character: 32u8, color_code: self.color_code };
        let mut col: usize = 0;
        while col < BUFFER_WIDTH
            invariant
                old(self).wf(),
                col <= BUFFER_WIDTH,
                row < BUFFER_HEIGHT,
                self.chars@.len() == BUFFER_HEIGHT,
                self.row_position == old(self).row_position,
                self.column_position == old(self).column_position,
                self.color_code == old(self).color_code,
                blank == blank_char(old(self)@.color),
                self.chars@[row as int]@.len() == BUFFER_WIDTH,
                forall|r: int|
                    0 <= r < BUFFER_HEIGHT && r != row ==> self.chars@[r] == old(self).chars@[r],
                forall|c: int|
                    0 <= c < col ==> self.chars@[row as int]@[c] == blank_char(old(self)@.color),
                forall|c: int|
                    col <= c < BUFFER_WIDTH ==> self.chars@[row as int]@[c] == old(
                        self,
                    ).chars@[row as int]@[c],
            decreases BUFFER_WIDTH - col,
        {
            self.chars[row][col] = blank;
            col = col + 1;
        }
        proof {
            assert(self@.rows[row as int] =~= blank_row(old(self)@.color));
            assert(self@.rows =~~= old(self)@.rows.update(row as int, blank_row(old(self)@.color)));
        }
    }

    /// Move to a fresh line: down one row, or scroll when already at the
    /// bottom.
    pub fn new_line(&mut self)
        requires
            old(self).wf(),
        ensures
            final(self).wf(),
            final(self)@ =~~= old(self)@.newline(),
    {
        if self.row_position < BUFFER_HEIGHT - 1 {
            self.row_position = self.row_position + 1;
            self.column_position = 0;
            proof {
                assert(self@ =~~= old(self)@.newline());
            }
            return ;
        }
        let mut row: usize = 1;
        while row < BUFFER_HEIGHT
            invariant
                old(self).wf(),
                1 <= row <= BUFFER_HEIGHT,
                self.chars@.len() == BUFFER_HEIGHT,
                self.row_position == old(self).row_position,
                self.column_position == old(self).column_position,
                self.color_code == old(self).color_code,
                forall|r: int| 0 <= r < BUFFER_HEIGHT ==> self.chars@[r]@.len() == BUFFER_WIDTH,
                forall|r: int| 0 <= r < row - 1 ==> self.chars@[r]@ =~= old(self).chars@[r + 1]@,
                forall|r: int|
                    row - 1 <= r < BUFFER_HEIGHT ==> self.chars@[r]@ =~= old(self).chars@[r]@,
            decreases BUFFER_HEIGHT - row,
        {
            let ghost snap = self.chars@;
            let mut col: usize = 0;
            while col < BUFFER_WIDTH
                invariant
                    col <= BUFFER_WIDTH,
                    1 <= row < BUFFER_HEIGHT,
                    self.chars@.len() == BUFFER_HEIGHT,
                    snap.len() == BUFFER_HEIGHT,
                    self.row_position == old(self).row_position,
                    self.column_position == old(self).column_position,
                    self.color_code == old(self).color_code,
                    forall|r: int|
                        0 <= r < BUFFER_HEIGHT ==> (#[trigger] self.chars@[r])@.len() == BUFFER_WIDTH
                            && snap[r]@.len() == BUFFER_WIDTH,
                    forall|r: int|
                        0 <= r < BUFFER_HEIGHT && r != row - 1 ==> self.chars@[r] == snap[r],
                    forall|c: int|
                        0 <= c < col ==> (#[trigger] self.chars@[row - 1]@[c])
                            == snap[row as int]@[c],
                    forall|c: int|
                        col <= c < BUFFER_WIDTH ==> (#[trigger] self.chars@[row - 1]@[c])
                            == snap[row - 1]@[c],
                decreases BUFFER_WIDTH - col,
            {
                let cell = self.chars[row][col];
                self.chars[row - 1][col] = cell;
                col = col + 1;
            }
            proof {
                assert(self.chars@[row - 1]@ =~= snap[row as int]@);
            }
            row = row + 1;
        }
        self.clear_row(BUFFER_HEIGHT - 1);
        self.column_position = 0;
        proof {
            let target = old(self)@.newline();
            assert forall|r: int| 0 <= r < BUFFER_HEIGHT implies self@.rows[r] =~= target.rows[r] by {
                if r < BUFFER_HEIGHT - 1 {
                    assert(self@.rows[r] == old(self)@.rows[r + 1]);
                }
            }
            assert(self@ =~~= target);
        }
    }

    /// Step back one cell and blank it; at the top-left corner nothing
    /// happens.
    pub fn backspace(&mut self)
        requires
            old(self).wf(),
        ensures
            final(self).wf(),
            final(self)@ =~~= old(self)@.backspace(),
    {
        if self.column_position > 0 {
            self.column_position = self.column_position - 1;
        } else if self.row_position > 0 {
            self.row_position = self.row_position - 1;
            self.column_position = BUFFER_WIDTH - 1;
        } else {
            proof {
                assert(self@ =~~= old(self)@.backspace());
            }
            return ;
        }
        let row = self.row_position;
        let col = self.column_position;
        let cell = ScreenChar { ascii_character: 32u8, color_code: self.color_code };
        self.chars[row][col] = cell;
        proof {
            assert(self@.rows =~~= old(self)@.backspace().rows);
            assert(self@ =~~= old(self)@.backspace());
        }
    }

    /// Print one byte: line feed, carriage return and backspace act as
    /// control, anything else lands at the cursor, wrapping to a fresh line
    /// when the row is full.
    pub fn write_byte(&mut self, byte: u8)
        requires
            old(self).wf(),
        ensures
            final(self).wf(),
            final(self)@ =~~= old(self)@.write_byte(byte),
    {
        if byte == 10 {
            self.new_line();
        } else if byte == 13 {
            self.column_position = 0;
            proof {
                assert(self@ =~~= old(self)@.write_byte(byte));
            }
        } else if byte == 8 {
            self.backspace();
        } else {
            if self.column_position >= BUFFER_WIDTH {
                self.new_line();
            }
            let ghost base = if old(self)@.col >= BUFFER_WIDTH {
                old(self)@.newline()
            } else {
                old(self)@
            };
            let row = self.row_position;
            let col = self.column_position;
            let cell = ScreenChar { ascii_character: byte, color_code: self.color_code };
            self.chars[row][col] = cell;
            self.column_position = self.column_position + 1;
            proof {
                assert(self@.rows =~~= base.put(base.row, base.col, byte).rows);
                assert(self@ =~~= old(self)@.write_byte(byte));
            }
        }
    }

    /// Print a string: printable ASCII and the three control bytes pass
    /// through, any other byte prints as the block character.
    pub fn write_string(&mut self, s: &str)
        requires
            old(self).wf(),
        ensures
            final(self).wf(),
            final(self)@ =~~= old(self)@.write_string(s.spec_bytes()),
    {
        let bytes = s.as_bytes();
        let n = bytes.len();
        let mut i: usize = 0;
        while i < n
            invariant
                self.wf(),
                n == bytes@.len(),
                bytes@ == s.spec_bytes(),
                i <= n,
                old(self)@.write_string(bytes@.take(i as int)) =~~= self@,
            decreases n - i,
        {
            let byte = bytes[i];
            let filtered: u8 = if (0x20 <= byte && byte <= 0x7e) || byte == 10 || byte == 13
                || byte == 8 {
                byte
            } else {
                0xfe
            };
            let ghost pre = self@;
            self.write_byte(filtered);
            proof {
                assert(filtered == ScreenView::filter_byte(bytes@[i as int]));
                lemma_write_string_snoc(old(self)@, bytes@.take(i as int + 1));
                assert(bytes@.take(i as int + 1).drop_last() =~= bytes@.take(i as int));
                assert(self@ =~~= old(self)@.write_string(bytes@.take(i as int + 1)));
            }
            i = i + 1;
        }
        proof {
            assert(bytes@.take(n as int) =~= bytes@);
        }
    }

    /// Change the current writing color.
    pub fn set_color(&mut self, fg: Color, bg: Color)
        requires
            old(self).wf(),
        ensures
            final(self).wf(),
            final(self)@ =~~= (ScreenView {
                color: ColorCode((bg.code() * 16 + fg.code()) as u8),
                ..old(self)@
            }),
    {
        self.color_code = ColorCode::new(fg, bg);
        proof {
            assert(self@ =~~= (ScreenView { color: self.color_code, ..old(self)@ }));
        }
    }

    /// The current foreground and background colors, unpacked.
    pub fn get_color(&self) -> (r: (Color, Color))
        ensures
            r.0.code() == self@.color.fg_code(),
            r.1.code() == self@.color.bg_code(),
    {
        let code = self.color_code.raw();
        let fg = Color::from_u8(code % 16);
        let bg = Color::from_u8(code / 16);
        (fg, bg)
    }

    /// Print a string in the given colors, restoring the current color
    /// afterwards.
    pub fn write_colored(&mut self, s: &str, fg: Color, bg: Color)
        requires
            old(self).wf(),
        ensures
            final(self).wf(),
            final(self)@ =~~= (ScreenView {
                color: old(self)@.color,
                ..(ScreenView {
                    color: ColorCode((bg.code() * 16 + fg.code()) as u8),
                    ..old(self)@
                }).write_string(s.spec_bytes())
            }),
    {
        let old_color = self.color_code;
        self.set_color(fg, bg);
        self.write_string(s);
        self.color_code = old_color;
        proof {
            assert(self@ =~~= (ScreenView {
                color: old(self)@.color,
                ..(ScreenView {
                    color: ColorCode((bg.code() * 16 + fg.code()) as u8),
                    ..old(self)@
                }).write_string(s.spec_bytes())
            }));
        }
    }

    /// Blank the whole screen and home the cursor.
    pub fn clear_screen(&mut self)
        requires
            old(self).wf(),
        ensures
            final(self).wf(),
            final(self)@.row == 0 && final(self)@.col == 0,
            final(self)@.color == old(self)@.color,
            forall|r: int|
                0 <= r < BUFFER_HEIGHT ==> final(self)@.rows[r] =~= blank_row(old(self)@.color),
    {
        let mut row: usize = 0;
        while row < BUFFER_HEIGHT
            invariant
                self.wf(),
                row <= BUFFER_HEIGHT,
                self@.color == old(self)@.color,
                self@.row == old(self)@.row,
                self@.col == old(self)@.col,
                forall|r: int| 0 <= r < row ==> self@.rows[r] =~= blank_row(old(self)@.color),
            decreases BUFFER_HEIGHT - row,
        {
            self.clear_row(row);
            row = row + 1;
        }
        self.row_position = 0;
        self.column_position = 0;
    }
}

/// Writing a string is writing all but its last byte, then its last byte.
pub proof fn lemma_write_string_snoc(s: ScreenView, bytes: Seq<u8>)
    requires
        bytes.len() > 0,
    ensures
        s.write_string(bytes) == s.write_string(bytes.drop_last()).write_byte(
            ScreenView::filter_byte(bytes.last()),
        ),
    decreases bytes.len(),
{
    if bytes.len() == 1 {
        assert(bytes.drop_first() =~= Seq::<u8>::empty());
        assert(bytes.drop_last() =~= Seq::<u8>::empty());
        assert(s.write_string(bytes) == s.write_byte(ScreenView::filter_byte(bytes[0])).write_string(
            bytes.drop_first(),
        ));
        assert(s.write_string(Seq::<u8>::empty()) == s);
        assert(s.write_string(bytes.drop_last()).write_byte(ScreenView::filter_byte(bytes.last()))
            == s.write_byte(ScreenView::filter_byte(bytes[0])));
    } else {
        let b0 = ScreenView::filter_byte(bytes[0]);
        let s1 = s.write_byte(b0);
        lemma_write_string_snoc(s1, bytes.drop_first());
        assert(bytes.drop_first().drop_last() =~= bytes.drop_last().drop_first());
        assert(bytes.drop_first().last() == bytes.last());
        assert(bytes.drop_last()[0] == bytes[0]);
        assert(s.write_string(bytes) == s1.write_string(bytes.drop_first()));
        assert(s.write_string(bytes.drop_last()) == s1.write_string(
            bytes.drop_last().drop_first(),
        ));
        assert(s1.write_string(bytes.drop_first()) == s1.write_string(
            bytes.drop_first().drop_last(),
        ).write_byte(ScreenView::filter_byte(bytes.drop_first().last())));
    }
}

/// The hardware-cursor cell index for a row and column.
pub open spec fn cursor_cell(row: int, col: int) -> int {
    row * BUFFER_WIDTH + col
}

/// One write to a VGA CRT-controller register: an index-port byte followed
/// by a data-port byte.
#[derive(Clone, Copy, PartialEq, Eq, Structural, Debug)]
pub struct CrtcWrite {
    pub index: u8,
    pub data: u8,
}

/// Compute the register writes that move the hardware cursor to a row and
/// column: the cell index's low byte to register 0x0F, its high byte to
/// register 0x0E. The machine performs them against ports 0x3D4/0x3D5.
pub fn set_cursor_pos_rc(row: usize, col: usize) -> (r: Vec<CrtcWrite>)
    requires
        row < BUFFER_HEIGHT,
        col <= BUFFER_WIDTH,
    ensures
        r@.len() == 2,
        r@[0] == (CrtcWrite { index: 0x0F, data: (cursor_cell(row as int, col as int) % 256) as u8 }),
        r@[1] == (CrtcWrite { index: 0x0E, data: (cursor_cell(row as int, col as int) / 256) as u8 }),
{
    let pos: u16 = (row as u16) * (BUFFER_WIDTH as u16) + (col as u16);
    let mut ops: Vec<CrtcWrite> = Vec::new();
    ops.push(CrtcWrite { index: 0x0F, data: (pos % 256) as u8 });
    ops.push(CrtcWrite { index: 0x0E, data: (pos / 256) as u8 });
    ops
}

/// Change the writer's colors (in the machine, under the writer's lock with
/// interrupts off).
pub fn set_colors(writer: &mut Writer, foreground: Color, background: Color)
    requires
        old(writer).wf(),
    ensures
        final(writer).wf(),
        final(writer)@.color.0 == background.code() * 16 + foreground.code(),
{
    writer.set_color(foreground, background);
}

/// Read the writer's colors back.
pub fn get_colors(writer: &Writer) -> (r: (Color, Color))
    ensures
        r.0.code() == writer@.color.fg_code(),
        r.1.code() == writer@.color.bg_code(),
{
    writer.get_color()
}

/// Blank the screen and home the cursor (in the machine, under the
/// writer's lock with interrupts off, then syncing the hardware cursor).
pub fn clear_screen(writer: &mut Writer)
    requires
        old(writer).wf(),
    ensures
        final(writer).wf(),
        final(writer)@.row == 0 && final(writer)@.col == 0,
        forall|r: int|
            0 <= r < BUFFER_HEIGHT ==> final(writer)@.rows[r] =~= blank_row(old(writer)@.color),
{
    writer.clear_screen();
}

} // verus!
