//! The system reset extension.

use vstd::prelude::*;

use super::base::SbiCall;
use super::{EXT_SRST, SRST_SYSTEM_RESET};

verus! {

/// The reset type that shuts the system down.
pub const RESET_TYPE_SHUTDOWN: usize = 0;

/// The reset reason "no reason".
pub const RESET_REASON_NONE: usize = 0;

/// The `ecall` that shuts the system down, for no reason.
pub fn set_reset_call() -> (r: SbiCall)
    ensures
        r.calls(EXT_SRST, SRST_SYSTEM_RESET, RESET_TYPE_SHUTDOWN, RESET_REASON_NONE),
{
    let r = SbiCall {
        extension: EXT_SRST,
        function: SRST_SYSTEM_RESET,
        args: [RESET_TYPE_SHUTDOWN, RESET_REASON_NONE, 0, 0, 0, 0],
    };
    assert(r.args@ =~= seq![RESET_TYPE_SHUTDOWN, RESET_REASON_NONE, 0usize, 0usize, 0usize, 0usize]);
    r
}

} // verus!
