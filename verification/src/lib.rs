//! A CHIP-8 virtual machine interpreter.
//!
//! The machine state (registers, memory, call stack, timers, keypad and
//! framebuffer) lives in [`state::Chip8`].  One call to [`state::Chip8::cycle`]
//! fetches, decodes and executes a single instruction and then steps the two
//! countdown timers.  Every state change is specified against the ghost view
//! [`state::Chip8View`], and illegal programs (unknown opcodes, stack misuse,
//! out-of-range accesses) surface as [`state::Chip8Error`] values instead of
//! aborting.

pub mod cycle;
pub mod decode;
pub mod draw;
pub mod laws;
pub mod ops;
pub mod state;

pub use state::Chip8;
pub use state::Chip8Error;
pub use state::Chip8View;
