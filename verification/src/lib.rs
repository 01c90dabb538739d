//! A verified CHIP-8 virtual machine core: a 4KB byte memory, sixteen 8-bit
//! registers, a 16-bit address register, a call stack, two countdown timers,
//! and a 64x32 monochrome framebuffer with XOR sprite compositing, driven by
//! a fetch-decode-execute cycle over 2-byte big-endian instructions.

pub mod cpu;
pub mod display;
pub mod laws;
pub mod model;
