//! Verified core of a small RISC-V supervisor kernel: the flattened device
//! tree walkers, the SBI call encodings and their results, the timer and
//! trap decisions, and the UART transmit protocol.

pub mod fdt;
pub mod sbi;
pub mod arch;
pub mod timer;
pub mod drivers;
