//! A verified interpreter core for a classic 8-bit virtual machine:
//! 4 KB of memory, sixteen 8-bit registers, a 12-bit address register,
//! a 16-level call stack, two 60 Hz timers and a 64x32 monochrome
//! framebuffer driven by an XOR sprite renderer.

pub mod model;
pub mod chip;
pub mod laws;
mod rng;
