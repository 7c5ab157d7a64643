//! Interrupt vector numbering.
//!
//! The two programmable interrupt controllers are remapped away from the CPU
//! exception range: the primary controller to vectors 32-39, the secondary to
//! vectors 40-47.  This module holds the pure, value-level part of that
//! configuration: the vector numbers themselves and the decoding of the
//! keypad scancodes reported by the keyboard controller.  Loading the
//! descriptor table and talking to the controllers is left to the runtime
//! shell around this library.

use vstd::prelude::*;

verus! {

/// First interrupt vector of the primary interrupt controller.
pub const PIC_1_OFFSET: u8 = 32;

/// First interrupt vector of the secondary interrupt controller.
pub const PIC_2_OFFSET: u8 = PIC_1_OFFSET + 8;

/// Hardware interrupt lines, numbered relative to the primary controller's
/// first vector.
#[derive(Clone, Copy, Debug, PartialEq, Eq, Structural)]
pub enum InterruptIndex {
    /// Timer interrupt, on the controller's first line.
    Timer,
    /// Keyboard interrupt, on the controller's second line.
    Keyboard,
}

impl InterruptIndex {
    /// The interrupt vector this line is mapped to.
    pub open spec fn spec_vector(self) -> u8 {
        match self {
            InterruptIndex::Timer => PIC_1_OFFSET,
            InterruptIndex::Keyboard => (PIC_1_OFFSET + 1) as u8,
        }
    }

    /// The interrupt vector this line is mapped to, as a byte.
    pub fn as_u8(self) -> (r: u8)
        ensures
            r == self.spec_vector(),
    {
        match self {
            InterruptIndex::Timer => PIC_1_OFFSET,
            InterruptIndex::Keyboard => PIC_1_OFFSET + 1,
        }
    }

    /// The interrupt vector this line is mapped to, as a table index.
    pub fn as_usize(self) -> (r: usize)
        ensures
            r == self.spec_vector(),
    {
        self.as_u8() as usize
    }
}

/// The digit reported by the keyboard controller for a scancode, if the
/// scancode is one of the digit keys of the top row.
pub open spec fn spec_key_for_scancode(scancode: u8) -> Option<char> {
    match scancode {
        0x02 => Some('1'),
        0x03 => Some('2'),
        0x04 => Some('3'),
        0x05 => Some('4'),
        0x06 => Some('5'),
        0x07 => Some('6'),
        0x08 => Some('7'),
        0x09 => Some('8'),
        0x0A => Some('9'),
        0x0B => Some('0'),
        _ => None,
    }
}

/// Decode a keyboard scancode to the digit it stands for, if any.
///
/// Only the ten digit keys of the top row are decoded; every other scancode
/// is ignored.
pub fn key_for_scancode(scancode: u8) -> (r: Option<char>)
    ensures
        r == spec_key_for_scancode(scancode),
{
    match scancode {
        0x02 => Some('1'),
        0x03 => Some('2'),
        0x04 => Some('3'),
        0x05 => Some('4'),
        0x06 => Some('5'),
        0x07 => Some('6'),
        0x08 => Some('7'),
        0x09 => Some('8'),
        0x0A => Some('9'),
        0x0B => Some('0'),
        _ => None,
    }
}

} // verus!
