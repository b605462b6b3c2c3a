//! Architecture support.

pub mod riscv64;
