//! Kernel core: the text console, the kernel heap allocators, physical frame
//! allocation, lazy initialisation, the task scheduler and the small pieces of
//! architecture logic that can be stated independently of the hardware.
use vstd::prelude::*;

pub mod arch;
pub mod executor;
pub mod heap;
pub mod keyboard;
pub mod lazy;
pub mod logger;
pub mod memory;
pub mod queue;
pub mod slab;
pub mod sync;
pub mod vga;
