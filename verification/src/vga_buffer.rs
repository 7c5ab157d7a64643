//! Color encoding for the text-mode display buffer.
//!
//! A character cell on the text-mode display carries one attribute byte:
//! the background color in the high four bits and the foreground color in
//! the low four bits.  This module holds the verified encoding; the writer
//! that copies characters into the memory-mapped display buffer lives in
//! the runtime shell around this library.

use vstd::prelude::*;

verus! {

/// The sixteen colors of the text-mode palette.
#[derive(Clone, Copy, Debug, PartialEq, Eq, Structural)]
pub enum Color {
    Black,
    Blue,
    Green,
    Cyan,
    Red,
    Magenta,
    Brown,
    LightGray,
    DarkGray,
    LightBlue,
    LightGreen,
    LightCyan,
    LightRed,
    Pink,
    Yellow,
    White,
}

impl Color {
    /// The palette number of this color.
    pub open spec fn spec_number(self) -> u8 {
        match self {
            Color::Black => 0,
            Color::Blue => 1,
            Color::Green => 2,
            Color::Cyan => 3,
            Color::Red => 4,
            Color::Magenta => 5,
            Color::Brown => 6,
            Color::LightGray => 7,
            Color::DarkGray => 8,
            Color::LightBlue => 9,
            Color::LightGreen => 10,
            Color::LightCyan => 11,
            Color::LightRed => 12,
            Color::Pink => 13,
            Color::Yellow => 14,
            Color::White => 15,
        }
    }

    /// The palette number of this color.
    pub fn number(self) -> (r: u8)
        ensures
            r == self.spec_number(),
    {
        match self {
            Color::Black => 0,
            Color::Blue => 1,
            Color::Green => 2,
            Color::Cyan => 3,
            Color::Red => 4,
            Color::Magenta => 5,
            Color::Brown => 6,
            Color::LightGray => 7,
            Color::DarkGray => 8,
            Color::LightBlue => 9,
            Color::LightGreen => 10,
            Color::LightCyan => 11,
            Color::LightRed => 12,
            Color::Pink => 13,
            Color::Yellow => 14,
            Color::White => 15,
        }
    }
}

/// The attribute byte of a character cell: background color in the high
/// four bits, foreground color in the low four bits.
#[derive(Clone, Copy, Debug, PartialEq, Eq, Structural)]
pub struct ColorCode(pub u8);

impl ColorCode {
    /// Build the attribute byte for the given foreground and background.
    pub fn new(foreground: Color, background: Color) -> (r: ColorCode)
        ensures
            r.0 == background.spec_number() * 16 + foreground.spec_number(),
    {
        let fg = foreground.number();
        let bg = background.number();
        proof {
            assert(bg < 16 && fg < 16 ==> (bg << 4 | fg) == bg * 16 + fg) by (bit_vector);
        }
        ColorCode(bg << 4 | fg)
    }
}

} // verus!
