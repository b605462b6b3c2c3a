//! Device drivers.

pub mod uart;
