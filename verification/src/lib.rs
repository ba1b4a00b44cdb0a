//! The logic of a small x86-64 kernel, verified.
//!
//! The heart is memory management (`mm`): a bitmap-backed physical frame
//! allocator, slab classes drawn from it, and the heap dispatcher that
//! routes every request to one of the two. Around it stand the parts of the
//! kernel that compute rather than touch hardware: the console on the frame
//! buffer, the tables of the firmware, the descriptor tables of the
//! processor, and what the interrupt, timer, logging and backtrace code
//! decide.

pub mod acpi;
pub mod apic;
pub mod backtrace;
pub mod cpu;
pub mod fb_renderer;
pub mod framebuffer;
pub mod gdt;
pub mod hpet;
pub mod interrupts;
pub mod logging;
pub mod mm;
pub mod utils;
