//! The timer extension.

use vstd::prelude::*;

use super::base::{SbiCall, SbiError, SbiRet};
use super::{EXT_TIME, TIME_SET_TIMER};

verus! {

/// The `ecall` that programs the next timer event for `time`.
pub fn set_timer_call(time: u64) -> (r: SbiCall)
    ensures
        r.calls(EXT_TIME, TIME_SET_TIMER, time as usize, 0),
{
    let r = SbiCall {
        extension: EXT_TIME,
        function: TIME_SET_TIMER,
        args: [time as usize, 0, 0, 0, 0, 0],
    };
    assert(r.args@ =~= seq![time as usize, 0usize, 0usize, 0usize, 0usize, 0usize]);
    r
}

/// Whether the timer was programmed, from the answer to `set_timer_call`:
/// `Ok` where the answer's error is `Success`, else that error.
pub fn set_timer(ret: SbiRet) -> (r: Result<(), SbiError>)
    ensures
        r is Ok <==> ret.error == SbiError::Success,
        r matches Err(e) ==> e == ret.error,
{
    if ret.error == SbiError::Success {
        Ok(())
    } else {
        Err(ret.error)
    }
}

} // verus!
