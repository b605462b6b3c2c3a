//! RISC-V 64-bit supervisor mode.

pub mod trap;
