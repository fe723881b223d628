//! A verified CHIP-8 virtual machine core.
//!
//! The crate has two components: a monochrome bit-packed framebuffer
//! ([`video_buffer::VideoBuffer`]) and the interpreter that owns it
//! ([`vm::Vm`]), which executes one instruction per `tick` over program
//! memory, a register file, a call stack, two 60 Hz timers and a 16-key
//! input mask. Windowing, rendering and audio are host concerns: the
//! library hands the host a byte-level framebuffer snapshot and a sound
//! timer value, and takes program bytes and key states in return.

pub mod font;
pub mod instr;
pub mod laws;
pub mod video_buffer;
pub mod vm;
