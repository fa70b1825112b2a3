//! The 3x6 digit font and the 1x6 colon used by the clock face.
//!
//! A glyph is a stack of columns; each column is a bit mask whose bit `r`
//! (counted from the least significant bit) lights row `r`.
use vstd::prelude::*;

verus! {

/// Something that can be drawn column by column onto the grid.
pub trait Glyph {
    /// Number of columns.
    spec fn spec_width(&self) -> u8;

    /// Number of rows.
    spec fn spec_height(&self) -> u8;

    /// Bit mask of column `col`; bit `r` set means row `r` is lit.
    spec fn spec_col(&self, col: u8) -> u32;

    fn width(&self) -> (r: u8)
        ensures
            r == self.spec_width(),
    ;

    fn height(&self) -> (r: u8)
        ensures
            r == self.spec_height(),
    ;

    fn col(&self, col: u8) -> (r: u32)
        ensures
            r == self.spec_col(col),
    ;
}

/// Column `col` of the bitmap of digit `digit` (zero outside the three columns).
pub open spec fn digit_column(digit: u8, col: u8) -> u32 {
    let cols: (u32, u32, u32) = if digit == 0 {
        (0b00011110, 0b00100001, 0b00011110)
    } else if digit == 1 {
        (0b00010001, 0b00111111, 0b00000001)
    } else if digit == 2 {
        (0b00010011, 0b00100101, 0b00011001)
    } else if digit == 3 {
        (0b00100010, 0b00101001, 0b00110110)
    } else if digit == 4 {
        (0b00111000, 0b00001000, 0b00111111)
    } else if digit == 5 {
        (0b00111010, 0b00101001, 0b00100110)
    } else if digit == 6 {
        (0b00011110, 0b00101001, 0b00000110)
    } else if digit == 7 {
        (0b00100011, 0b00101100, 0b00110000)
    } else if digit == 8 {
        (0b00010110, 0b00101001, 0b00010110)
    } else {
        (0b00011000, 0b00100101, 0b00011110)
    };
    if col == 0 {
        cols.0
    } else if col == 1 {
        cols.1
    } else if col == 2 {
        cols.2
    } else {
        0
    }
}

/// Column `col` of the colon bitmap: dots at rows 1 and 4 of its only column.
pub open spec fn colon_column(col: u8) -> u32 {
    if col == 0 {
        0b00010010
    } else {
        0
    }
}

/// Law: every digit bitmap lies inside its 3x6 box: no column lights a row
/// below the sixth, and the columns past the third are blank.
pub proof fn lemma_digit_in_box(digit: u8, col: u8)
    ensures
        digit_column(digit, col) < 64,
        col >= 3 ==> digit_column(digit, col) == 0,
{
}

/// Law: the colon lies inside its 1x6 box.
pub proof fn lemma_colon_in_box(col: u8)
    ensures
        colon_column(col) < 64,
        col >= 1 ==> colon_column(col) == 0,
{
}

/// Law: each decimal digit has its own bitmap: two different digits differ
/// in some column.
pub proof fn lemma_digits_distinct(d1: u8, d2: u8)
    requires
        d1 <= 9,
        d2 <= 9,
        d1 != d2,
    ensures
        digit_column(d1, 0) != digit_column(d2, 0) || digit_column(d1, 1) != digit_column(d2, 1)
            || digit_column(d1, 2) != digit_column(d2, 2),
{
}

/// Law: the digit font. Column by column (bit `r` lights row `r`, row 0 at
/// the top of the glyph), each digit of the 3x6 font is drawn as below.
pub proof fn lemma_digit_font()
    ensures
        digit_column(0, 0) == 0b011110 && digit_column(0, 1) == 0b100001 && digit_column(0, 2) == 0b011110,
        digit_column(1, 0) == 0b010001 && digit_column(1, 1) == 0b111111 && digit_column(1, 2) == 0b000001,
        digit_column(2, 0) == 0b010011 && digit_column(2, 1) == 0b100101 && digit_column(2, 2) == 0b011001,
        digit_column(3, 0) == 0b100010 && digit_column(3, 1) == 0b101001 && digit_column(3, 2) == 0b110110,
        digit_column(4, 0) == 0b111000 && digit_column(4, 1) == 0b001000 && digit_column(4, 2) == 0b111111,
        digit_column(5, 0) == 0b111010 && digit_column(5, 1) == 0b101001 && digit_column(5, 2) == 0b100110,
        digit_column(6, 0) == 0b011110 && digit_column(6, 1) == 0b101001 && digit_column(6, 2) == 0b000110,
        digit_column(7, 0) == 0b100011 && digit_column(7, 1) == 0b101100 && digit_column(7, 2) == 0b110000,
        digit_column(8, 0) == 0b010110 && digit_column(8, 1) == 0b101001 && digit_column(8, 2) == 0b010110,
        digit_column(9, 0) == 0b011000 && digit_column(9, 1) == 0b100101 && digit_column(9, 2) == 0b011110,
{
}

/// A glyph three columns wide and six rows tall.
struct Glyph6by3 {
    data: [u8; 3],
}

impl Glyph for Glyph6by3 {
    open spec fn spec_width(&self) -> u8 {
        3
    }

    open spec fn spec_height(&self) -> u8 {
        6
    }

    closed spec fn spec_col(&self, col: u8) -> u32 {
        if col < 3 {
            self.data@[col as int] as u32
        } else {
            0
        }
    }

    fn width(&self) -> (r: u8) {
        3
    }

    fn height(&self) -> (r: u8) {
        6
    }

    fn col(&self, col: u8) -> (r: u32) {
        let col = col as usize;
        if col < 3 {
            self.data[col] as u32
        } else {
            0
        }
    }
}

/// A glyph one column wide and six rows tall.
struct Glyph6by1 {
    data: u8,
}

impl Glyph for Glyph6by1 {
    open spec fn spec_width(&self) -> u8 {
        1
    }

    open spec fn spec_height(&self) -> u8 {
        6
    }

    closed spec fn spec_col(&self, col: u8) -> u32 {
        if col == 0 {
            self.data as u32
        } else {
            0
        }
    }

    fn width(&self) -> (r: u8) {
        1
    }

    fn height(&self) -> (r: u8) {
        6
    }

    fn col(&self, col: u8) -> (r: u32) {
        if col == 0 {
            self.data as u32
        } else {
            0
        }
    }
}

/// The colon drawn between minutes and seconds.
pub fn get_colon_glyph() -> (g: impl Glyph)
    ensures
        g.spec_width() == 1,
        g.spec_height() == 6,
        forall|c: u8| #[trigger] g.spec_col(c) == colon_column(c),
{
    Glyph6by1 { data: 0b00010010 }
}

/// The bitmap of a decimal digit.
pub fn get_digit_glyph(digit: u8) -> (g: impl Glyph)
    requires
        digit <= 9,
    ensures
        g.spec_width() == 3,
        g.spec_height() == 6,
        forall|c: u8| #[trigger] g.spec_col(c) == digit_column(digit, c),
        forall|c: u8| #[trigger] g.spec_col(c) < 64 && (c >= 3 ==> g.spec_col(c) == 0),
{
    let data: [u8; 3] = match digit {
        0 => [0b00011110, 0b00100001, 0b00011110],
        1 => [0b00010001, 0b00111111, 0b00000001],
        2 => [0b00010011, 0b00100101, 0b00011001],
        3 => [0b00100010, 0b00101001, 0b00110110],
        4 => [0b00111000, 0b00001000, 0b00111111],
        5 => [0b00111010, 0b00101001, 0b00100110],
        6 => [0b00011110, 0b00101001, 0b00000110],
        7 => [0b00100011, 0b00101100, 0b00110000],
        8 => [0b00010110, 0b00101001, 0b00010110],
        _ => [0b00011000, 0b00100101, 0b00011110],
    };
    Glyph6by3 { data }
}

} // verus!
