//! Architecture logic that does not touch the hardware itself: exit codes
//! for the emulator, interrupt numbers, the boot-core check and running code
//! with interrupts disabled.
use vstd::prelude::*;

verus! {

/// The I/O port of the emulator's exit device.
pub const EXIT_PORT: u16 = 0xf4;

/// Interrupt vector of the first line of the primary interrupt controller.
pub const PIC_1_OFFSET: u8 = 32;

/// Interrupt vector of the first line of the secondary interrupt controller.
pub const PIC_2_OFFSET: u8 = 40;

/// The core that boots the kernel.
pub const BOOT_CORE_ID: u64 = 0;

/// The bits of the multiprocessor affinity register that number the core.
pub const CORE_ID_MASK: u64 = 0b11;

/// How the kernel ends.
#[derive(Clone, Copy, Debug, PartialEq, Eq, Structural)]
pub enum ExitCode {
    Success,
    Failed,
}

impl ExitCode {
    /// The value written to the exit device.
    pub open spec fn spec_code(self) -> u32 {
        match self {
            ExitCode::Success => 0x10,
            ExitCode::Failed => 0x11,
        }
    }

    /// The value written to the exit device.
    pub fn code(self) -> (r: u32)
        ensures
            r == self.spec_code(),
    {
        match self {
            ExitCode::Success => 0x10,
            ExitCode::Failed => 0x11,
        }
    }
}

/// A value to be written to an I/O port.
#[derive(Clone, Copy, Debug, PartialEq, Eq, Structural)]
pub struct PortWrite {
    pub port: u16,
    pub value: u32,
}

/// The port write that makes the emulator exit with `exit_code`.
pub fn shut_down(exit_code: ExitCode) -> (r: PortWrite)
    ensures
        r.port == EXIT_PORT,
        r.value == exit_code.spec_code(),
{
    PortWrite { port: EXIT_PORT, value: exit_code.code() }
}

/// The hardware interrupts that the kernel handles.
#[derive(Clone, Copy, Debug, PartialEq, Eq, Structural)]
pub enum Interrupt {
    Timer,
    KeyBoard,
}

impl Interrupt {
    /// The interrupt vector.
    pub open spec fn spec_vector(self) -> u8 {
        match self {
            Interrupt::Timer => PIC_1_OFFSET,
            Interrupt::KeyBoard => (PIC_1_OFFSET + 1) as u8,
        }
    }

    /// The interrupt vector.
    pub fn vector(self) -> (r: u8)
        ensures
            r == self.spec_vector(),
    {
        match self {
            Interrupt::Timer => PIC_1_OFFSET,
            Interrupt::KeyBoard => PIC_1_OFFSET + 1,
        }
    }
}

/// Whether the core whose affinity register reads `mpidr` is the boot core.
pub fn check_core_is_boot_core(mpidr: u64) -> (r: bool)
    ensures
        r == (mpidr % 4 == BOOT_CORE_ID),
{
    let core_id = mpidr & CORE_ID_MASK;
    assert(mpidr & 0b11u64 == mpidr % 4) by (bit_vector);
    core_id == BOOT_CORE_ID
}

/// Reads the interrupt flag of the processor. Calls
/// `x86_64::instructions::interrupts::are_enabled`, which reads the flags
/// register; nothing is claimed of the result, which is machine state.
#[verifier::external_body]
fn interrupts_are_enabled() -> bool {
    x86_64::instructions::interrupts::are_enabled()
}

/// Clears the interrupt flag. Calls `x86_64::instructions::interrupts::disable`
/// (the `cli` instruction); nothing is claimed.
#[verifier::external_body]
fn disable_interrupts() {
    x86_64::instructions::interrupts::disable()
}

/// Sets the interrupt flag. Calls `x86_64::instructions::interrupts::enable`
/// (the `sti` instruction); nothing is claimed.
#[verifier::external_body]
fn enable_interrupts() {
    x86_64::instructions::interrupts::enable()
}

/// Runs `f` with interrupts disabled and enables them again afterwards if
/// they were enabled before; returns the result of `f`.
pub fn without_interrupts<T, F: FnOnce() -> T>(f: F) -> (r: T)
    requires
        f.requires(()),
    ensures
        f.ensures((), r),
{
    let enabled = interrupts_are_enabled();
    if enabled {
        disable_interrupts();
    }
    let ret = f();
    if enabled {
        enable_interrupts();
    }
    ret
}

} // verus!
