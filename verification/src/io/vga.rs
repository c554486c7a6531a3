//! The text screen: 25 rows of 80 characters, each a byte and a colour.

use vstd::prelude::*;

verus! {

/// Characters in a row.
pub const VGA_WIDTH: usize = 80;

/// Rows on the screen.
pub const VGA_HEIGHT: usize = 25;

/// Cells on the screen.
pub const VGA_CELLS: usize = 2000;

/// The blank character.
pub const BLANK: u8 = 32;

/// The line feed character.
pub const LINE_FEED: u8 = 10;

/// Address of the screen's first cell in the video memory.
pub const VGA_BUFFER_ADDR: usize = 0xB8000;

/// The sixteen colours of text mode.
#[derive(Debug, Clone, Copy, PartialEq, Eq)]
pub enum VgaColor {
    Black,
    Blue,
    Green,
    Cyan,
    Red,
    Magneta,
    Brown,
    LightGrey,
    DarkGrey,
    LightBlue,
    LightGreen,
    LightCyan,
    LightRed,
    LightMagneta,
    LightBrown,
    White,
}

impl VgaColor {
    /// The colour's number, 0 to 15.
    pub open spec fn spec_code(self) -> u8 {
        match self {
            VgaColor::Black => 0,
            VgaColor::Blue => 1,
            VgaColor::Green => 2,
            VgaColor::Cyan => 3,
            VgaColor::Red => 4,
            VgaColor::Magneta => 5,
            VgaColor::Brown => 6,
            VgaColor::LightGrey => 7,
            VgaColor::DarkGrey => 8,
            VgaColor::LightBlue => 9,
            VgaColor::LightGreen => 10,
            VgaColor::LightCyan => 11,
            VgaColor::LightRed => 12,
            VgaColor::LightMagneta => 13,
            VgaColor::LightBrown => 14,
            VgaColor::White => 15,
        }
    }

    /// The colour's number, 0 to 15.
    pub fn code(self) -> (code: u8)
        ensures
            code == self.spec_code(),
            code < 16,
    {
        match self {
            VgaColor::Black => 0,
            VgaColor::Blue => 1,
            VgaColor::Green => 2,
            VgaColor::Cyan => 3,
            VgaColor::Red => 4,
            VgaColor::Magneta => 5,
            VgaColor::Brown => 6,
            VgaColor::LightGrey => 7,
            VgaColor::DarkGrey => 8,
            VgaColor::LightBlue => 9,
            VgaColor::LightGreen => 10,
            VgaColor::LightCyan => 11,
            VgaColor::LightRed => 12,
            VgaColor::LightMagneta => 13,
            VgaColor::LightBrown => 14,
            VgaColor::White => 15,
        }
    }
}

/// The colour byte: foreground in the low four bits, background in the high.
pub open spec fn spec_color(fore_ground_color: VgaColor, back_ground_color: VgaColor) -> u8 {
    (fore_ground_color.spec_code() + 16 * back_ground_color.spec_code()) as u8
}

/// One cell: the character in the low byte, the colour in the high.
pub open spec fn spec_cell(character: u8, color: u8) -> u16 {
    (character + 256 * color) as u16
}

/// The screen and the place where the next character goes.
pub struct Screen {
    pub row: nat,
    pub column: nat,
    pub color: u8,
    pub cells: Seq<u16>,
}

impl Screen {
    /// The screen after a line break: the first column of the next row, the
    /// first row after the last.
    pub open spec fn new_line(self) -> Screen {
        Screen {
            row: if self.row + 1 == VGA_HEIGHT {
                0
            } else {
                self.row + 1
            },
            column: 0,
            ..self
        }
    }

    /// The screen after the place moved one cell on, with a line break at the
    /// end of a row.
    pub open spec fn advance(self) -> Screen {
        if self.column + 1 == VGA_WIDTH {
            self.new_line()
        } else {
            Screen { column: self.column + 1, ..self }
        }
    }

    /// The screen after one byte was written: a line feed breaks the line,
    /// any other byte fills the cell and moves on.
    pub open spec fn put(self, character: u8) -> Screen {
        if character == LINE_FEED {
            self.new_line()
        } else {
            Screen {
                cells: self.cells.update(
                    self.row * VGA_WIDTH + self.column,
                    spec_cell(character, self.color),
                ),
                ..self
            }.advance()
        }
    }

    /// The screen after the first `n` bytes of `text` were written.
    pub open spec fn put_all(self, text: Seq<u8>, n: nat) -> Screen
        decreases n,
    {
        if n == 0 || n > text.len() {
            self
        } else {
            self.put_all(text, (n - 1) as nat).put(text[n - 1])
        }
    }
}

/// The text screen.
pub struct Terminal {
    terminal_row: usize,
    terminal_column: usize,
    terminal_color: u8,
    terminal_buffer: Vec<u16>,
}

impl View for Terminal {
    type V = Screen;

    closed spec fn view(&self) -> Screen {
        Screen {
            row: self.terminal_row as nat,
            column: self.terminal_column as nat,
            color: self.terminal_color,
            cells: self.terminal_buffer@,
        }
    }
}

impl Terminal {
    /// The place lies on the screen, and the screen has all its cells.
    pub open spec fn wf(&self) -> bool {
        &&& self@.row < VGA_HEIGHT
        &&& self@.column < VGA_WIDTH
        &&& self@.cells.len() == VGA_CELLS
    }

    /// A terminal that writes in the given colours, from the top left.
    /// Its cells hold nothing yet: `init` clears them.
    pub fn new(fore_ground_color: VgaColor, back_ground_color: VgaColor) -> (terminal: Terminal)
        ensures
            terminal.wf(),
            terminal@.row == 0,
            terminal@.column == 0,
            terminal@.color == spec_color(fore_ground_color, back_ground_color),
            forall|i: int| 0 <= i < VGA_CELLS ==> terminal@.cells[i] == 0,
    {
        let terminal_row: usize = 0;
        let terminal_column: usize = 0;
        let terminal_color = Terminal::set_color(fore_ground_color, back_ground_color);
        let terminal_buffer = vec![0u16; VGA_CELLS];

        Terminal { terminal_row, terminal_column, terminal_color, terminal_buffer }
    }

    /// Fills the screen with blanks in the terminal's colours.
    pub fn init(&mut self)
        requires
            old(self).wf(),
        ensures
            final(self).wf(),
            final(self)@.row == old(self)@.row,
            final(self)@.column == old(self)@.column,
            final(self)@.color == old(self)@.color,
            forall|i: int|
                0 <= i < VGA_CELLS ==> final(self)@.cells[i] == spec_cell(BLANK, old(self)@.color),
    {
        let blank = self.set_screen_character(BLANK);
        let mut y: usize = 0;
        while y < VGA_HEIGHT
            invariant
                self.wf(),
                y <= VGA_HEIGHT,
                self@.row == old(self)@.row,
                self@.column == old(self)@.column,
                self@.color == old(self)@.color,
                blank == spec_cell(BLANK, old(self)@.color),
                forall|i: int| 0 <= i < y * VGA_WIDTH ==> self@.cells[i] == blank,
            decreases VGA_HEIGHT - y,
        {
            let mut x: usize = 0;
            while x < VGA_WIDTH
                invariant
                    self.wf(),
                    y < VGA_HEIGHT,
                    x <= VGA_WIDTH,
                    self@.row == old(self)@.row,
                    self@.column == old(self)@.column,
                    self@.color == old(self)@.color,
                    blank == spec_cell(BLANK, old(self)@.color),
                    forall|i: int| 0 <= i < y * VGA_WIDTH + x ==> self@.cells[i] == blank,
                decreases VGA_WIDTH - x,
            {
                let index = y * VGA_WIDTH + x;
                self.terminal_buffer[index] = blank;
                x += 1;
            }
            y += 1;
        }
    }

    /// The cells of the screen, row by row, as they are to stand in the
    /// video memory.
    pub fn cells(&self) -> (cells: &Vec<u16>)
        ensures
            cells@ == self@.cells,
    {
        &self.terminal_buffer
    }

    /// Row and column of the place where the next character goes.
    pub fn cursor(&self) -> (place: (usize, usize))
        ensures
            place.0 == self@.row,
            place.1 == self@.column,
    {
        (self.terminal_row, self.terminal_column)
    }

    /// Writes `text` to the screen, byte by byte.
    pub fn write_text(&mut self, text: &[u8])
        requires
            old(self).wf(),
        ensures
            final(self).wf(),
            final(self)@ == old(self)@.put_all(text@, text@.len()),
    {
        let mut i: usize = 0;
        while i < text.len()
            invariant
                self.wf(),
                i <= text@.len(),
                self@ == old(self)@.put_all(text@, i as nat),
            decreases text@.len() - i,
        {
            let character = text[i];
            if character == LINE_FEED {
                self.handle_new_line();
            } else {
                self.write_character(character);
            }
            i += 1;
        }
    }

    /// Breaks the line.
    pub fn handle_new_line(&mut self)
        requires
            old(self).wf(),
        ensures
            final(self).wf(),
            final(self)@ == old(self)@.new_line(),
    {
        self.terminal_column = 0;
        self.terminal_row += 1;
        if self.terminal_row == VGA_HEIGHT {
            self.terminal_row = 0;
        }
    }

    /// Puts `character` where the place is and moves the place on.
    pub fn write_character(&mut self, character: u8)
        requires
            old(self).wf(),
        ensures
            final(self).wf(),
            final(self)@ == (Screen {
                cells: old(self)@.cells.update(
                    old(self)@.row * VGA_WIDTH + old(self)@.column,
                    spec_cell(character, old(self)@.color),
                ),
                ..old(self)@
            }).advance(),
    {
        let index = self.terminal_row * VGA_WIDTH + self.terminal_column;
        let cell = self.set_screen_character(character);
        self.terminal_buffer[index] = cell;

        self.set_cursor()
    }

    /// The colour byte for a foreground and a background colour.
    pub fn set_color(fore_ground_color: VgaColor, back_ground_color: VgaColor) -> (color: u8)
        ensures
            color == spec_color(fore_ground_color, back_ground_color),
    {
        let fore = fore_ground_color.code();
        let back = back_ground_color.code();
        assert(fore | (back << 4) == fore + 16 * back) by (bit_vector)
            requires
                fore < 16,
                back < 16,
        ;
        fore | back << 4
    }

    /// The cell for `character` in the terminal's colours.
    pub fn set_screen_character(&self, character: u8) -> (cell: u16)
        ensures
            cell == spec_cell(character, self@.color),
    {
        let color = self.terminal_color;
        assert(character as u16 | ((color as u16) << 8) == character + 256 * color) by (bit_vector);
        character as u16 | (self.terminal_color as u16) << 8
    }

    /// Moves the place one cell on, with a line break at the end of a row.
    pub fn set_cursor(&mut self)
        requires
            old(self).wf(),
        ensures
            final(self).wf(),
            final(self)@ == old(self)@.advance(),
    {
        self.terminal_column += 1;
        if self.terminal_column == VGA_WIDTH {
            self.terminal_column = 0;
            self.terminal_row += 1;
            if self.terminal_row == VGA_HEIGHT {
                self.terminal_row = 0;
            }
        }
    }
}

} // verus!
