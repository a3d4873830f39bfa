//! A verified CHIP-8 virtual machine core.
//!
//! The interpreter fetches two-byte instruction words from a flat 4096-byte
//! memory image, decodes them into a tagged operation, and executes them
//! against a register file, a call stack, a monochrome framebuffer and a
//! 16-key pad.  Every state transition is specified against a mathematical
//! model of the machine ([`state::CpuState`]) and proved.
//!
//! The host is expected to load a program image with [`cpu::Cpu::load_rom`],
//! call [`cpu::Cpu::step`] at its chosen instruction rate, decrement the two
//! timers at 60 Hz, feed key states in and render the framebuffer out.

pub mod cpu;
pub mod decode;
pub mod error;
pub mod laws;
pub mod rng;
pub mod state;
