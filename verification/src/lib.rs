//! Marginalia: the verified core of a small kernel's annotation display.
//!
//! The `graphics` module models the 320x200 page of VGA mode 13h as a
//! sequence of palette indices and proves what writing text onto it does;
//! the `font` module reaches the `font8x8` glyph tables; `QemuExitCode`
//! names the codes the test harness hands to the emulator's exit device.

use vstd::prelude::*;

pub mod font;
pub mod graphics;
pub mod laws;
pub mod boot;
pub mod vga;

verus! {

/// The two outcomes a test run reports to the emulator's `isa-debug-exit`
/// device.
#[derive(Debug, Clone, Copy, PartialEq, Eq, Structural)]
pub enum QemuExitCode {
    Success,
    Failed,
}

impl QemuExitCode {
    /// The value written to the exit device's port for this outcome.
    pub open spec fn spec_code(self) -> u32 {
        match self {
            QemuExitCode::Success => 0x10,
            QemuExitCode::Failed => 0x11,
        }
    }

    /// The value written to the exit device's port for this outcome.
    pub fn code(self) -> (value: u32)
        ensures
            value == self.spec_code(),
    {
        match self {
            QemuExitCode::Success => 0x10,
            QemuExitCode::Failed => 0x11,
        }
    }
}

} // verus!
