//! Exit codes reported to the emulator that runs the kernel's tests.
use vstd::prelude::*;

verus! {

/// Outcome of a test run, as written to the emulator's exit port.
#[derive(Debug, Clone, Copy, PartialEq, Eq, Structural)]
pub enum QemuExitCode {
    Success,
    Failed,
}

/// Value written to the exit port for each outcome.
pub open spec fn exit_code_value(code: QemuExitCode) -> u32 {
    match code {
        QemuExitCode::Success => 0x10,
        QemuExitCode::Failed => 0x11,
    }
}

impl QemuExitCode {
    pub fn as_u32(self) -> (r: u32)
        ensures
            r == exit_code_value(self),
    {
        match self {
            QemuExitCode::Success => 0x10,
            QemuExitCode::Failed => 0x11,
        }
    }
}

} // verus!
