//! Core library of a small teaching kernel.
//!
//! The heart of the crate is the heap-allocation subsystem under
//! [`allocator`]: three interchangeable allocation strategies (a monotonic
//! bump allocator, an explicit free-list allocator, and a segregated
//! fixed-size-block allocator with a free-list fallback) unified behind one
//! mutual-exclusion wrapper.  Every strategy is specified over a
//! mathematical model of the heap region and verified against it.
//!
//! The remaining modules hold the pure, value-level parts of the kernel's
//! hardware configuration: interrupt vector numbers and display color codes.

use vstd::prelude::*;

pub mod allocator;
pub mod interrupts;
pub mod vga_buffer;

verus! {

/// Exit status reported to the emulator when the kernel shuts down.
#[derive(Clone, Copy, Debug, PartialEq, Eq, Structural)]
pub enum QemuExitCode {
    Success,
    Failed,
}

impl QemuExitCode {
    /// The value written to the emulator's debug-exit port for this status.
    pub open spec fn spec_code(self) -> u32 {
        match self {
            QemuExitCode::Success => 0x10,
            QemuExitCode::Failed => 0x11,
        }
    }

    /// The value written to the emulator's debug-exit port.
    pub fn code(self) -> (r: u32)
        ensures
            r == self.spec_code(),
    {
        match self {
            QemuExitCode::Success => 0x10,
            QemuExitCode::Failed => 0x11,
        }
    }
}

} // verus!
