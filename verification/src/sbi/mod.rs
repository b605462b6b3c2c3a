//! Supervisor Binary Interface (SBI) calls: which `ecall` each service takes,
//! and what its answer means.

pub mod base;
pub mod reset;
pub mod timer;

pub use base::get_spec_version;
pub use reset::set_reset_call;
pub use timer::set_timer;

use vstd::prelude::*;

verus! {

/// The base extension.
pub const EXT_BASE: usize = 0x10;

/// The timer extension ("TIME").
pub const EXT_TIME: usize = 0x5449_4d45;

/// The system reset extension ("SRST").
pub const EXT_SRST: usize = 0x5352_5354;

/// The base extension's function that returns the SBI specification version.
pub const BASE_GET_SPEC_VERSION: usize = 0;

/// The timer extension's function that programs the next timer event.
pub const TIME_SET_TIMER: usize = 0;

/// The system reset extension's function that resets the system.
pub const SRST_SYSTEM_RESET: usize = 0;

} // verus!
