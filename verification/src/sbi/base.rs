//! The SBI error codes, the shape of an `ecall` and of its answer, and the
//! base extension.

use vstd::prelude::*;

use super::{BASE_GET_SPEC_VERSION, EXT_BASE};

verus! {

/// The error half of an SBI answer.
#[derive(Clone, Copy, Debug, PartialEq, Eq, Structural)]
pub enum SbiError {
    Success,
    Failed,
    NotSupported,
    InvalidParam,
    Denied,
    InvalidAddress,
    AlreadyAvailable,
    AlreadyStarted,
    AlreadyStopped,
    NoShmem,
    InvalidState,
    BadRange,
    TimeOut,
    ErrIo,
    DeniedLocked,
    Unknown(isize),
}

impl SbiError {
    /// The error that the code in `a0` stands for: the codes `0` down to
    /// `-14` of the SBI specification, and `Unknown` for any other code.
    pub open spec fn spec_from_raw(error: isize) -> SbiError {
        if error == 0 {
            SbiError::Success
        } else if error == -1 {
            SbiError::Failed
        } else if error == -2 {
            SbiError::NotSupported
        } else if error == -3 {
            SbiError::InvalidParam
        } else if error == -4 {
            SbiError::Denied
        } else if error == -5 {
            SbiError::InvalidAddress
        } else if error == -6 {
            SbiError::AlreadyAvailable
        } else if error == -7 {
            SbiError::AlreadyStarted
        } else if error == -8 {
            SbiError::AlreadyStopped
        } else if error == -9 {
            SbiError::NoShmem
        } else if error == -10 {
            SbiError::InvalidState
        } else if error == -11 {
            SbiError::BadRange
        } else if error == -12 {
            SbiError::TimeOut
        } else if error == -13 {
            SbiError::ErrIo
        } else if error == -14 {
            SbiError::DeniedLocked
        } else {
            SbiError::Unknown(error)
        }
    }

    /// Decodes an SBI error code.
    pub fn from_raw(error: isize) -> (r: Self)
        ensures
            r == Self::spec_from_raw(error),
            r is Unknown <==> !(-14 <= error <= 0),
    {
        match error {
            0 => Self::Success,
            -1 => Self::Failed,
            -2 => Self::NotSupported,
            -3 => Self::InvalidParam,
            -4 => Self::Denied,
            -5 => Self::InvalidAddress,
            -6 => Self::AlreadyAvailable,
            -7 => Self::AlreadyStarted,
            -8 => Self::AlreadyStopped,
            -9 => Self::NoShmem,
            -10 => Self::InvalidState,
            -11 => Self::BadRange,
            -12 => Self::TimeOut,
            -13 => Self::ErrIo,
            -14 => Self::DeniedLocked,
            other => Self::Unknown(other),
        }
    }
}

/// Distinct error codes decode to distinct errors, so no code is lost.
pub proof fn lemma_from_raw_injective(a: isize, b: isize)
    ensures
        SbiError::spec_from_raw(a) == SbiError::spec_from_raw(b) ==> a == b,
{
}

/// The SBI error codes: `Success` is 0, and `Failed` down to `DeniedLocked`
/// are -1 down to -14 in the order of the SBI specification; every other code
/// is `Unknown`, carrying the code.
pub proof fn lemma_sbi_codes(e: isize)
    ensures
        SbiError::spec_from_raw(e) == SbiError::Success <==> e == 0,
        SbiError::spec_from_raw(e) == SbiError::Failed <==> e == -1,
        SbiError::spec_from_raw(e) == SbiError::NotSupported <==> e == -2,
        SbiError::spec_from_raw(e) == SbiError::InvalidParam <==> e == -3,
        SbiError::spec_from_raw(e) == SbiError::Denied <==> e == -4,
        SbiError::spec_from_raw(e) == SbiError::InvalidAddress <==> e == -5,
        SbiError::spec_from_raw(e) == SbiError::AlreadyAvailable <==> e == -6,
        SbiError::spec_from_raw(e) == SbiError::AlreadyStarted <==> e == -7,
        SbiError::spec_from_raw(e) == SbiError::AlreadyStopped <==> e == -8,
        SbiError::spec_from_raw(e) == SbiError::NoShmem <==> e == -9,
        SbiError::spec_from_raw(e) == SbiError::InvalidState <==> e == -10,
        SbiError::spec_from_raw(e) == SbiError::BadRange <==> e == -11,
        SbiError::spec_from_raw(e) == SbiError::TimeOut <==> e == -12,
        SbiError::spec_from_raw(e) == SbiError::ErrIo <==> e == -13,
        SbiError::spec_from_raw(e) == SbiError::DeniedLocked <==> e == -14,
        !(-14 <= e <= 0) ==> SbiError::spec_from_raw(e) == SbiError::Unknown(e),
{
}

/// The answer of an `ecall`: the error code (decoded) from `a0` and the value
/// from `a1`.
#[derive(Clone, Debug, Copy, PartialEq, Eq, Structural)]
pub struct SbiRet {
    pub error: SbiError,
    pub value: usize,
}

/// An `ecall` to make: the extension (`a7`), the function (`a6`) and the six
/// arguments (`a0` to `a5`).
#[derive(Clone, Debug, Copy, PartialEq, Eq)]
pub struct SbiCall {
    pub extension: usize,
    pub function: usize,
    pub args: [usize; 6],
}

impl SbiCall {
    /// Whether this is the call of `function` of `extension` with `arg0` and
    /// `arg1` as its first two arguments and zero for the rest.
    pub open spec fn calls(self, extension: usize, function: usize, arg0: usize, arg1: usize) -> bool {
        &&& self.extension == extension
        &&& self.function == function
        &&& self.args@ == seq![arg0, arg1, 0usize, 0usize, 0usize, 0usize]
    }
}

/// What an answer means for a service that returns a value: the value where
/// the error is `Success`, else the error.
pub open spec fn spec_sbi_result(ret: SbiRet) -> Result<usize, SbiError> {
    if ret.error == SbiError::Success {
        Ok(ret.value)
    } else {
        Err(ret.error)
    }
}

/// The `ecall` that asks for the SBI specification version.
pub fn get_spec_version_call() -> (r: SbiCall)
    ensures
        r.calls(EXT_BASE, BASE_GET_SPEC_VERSION, 0, 0),
{
    let r = SbiCall { extension: EXT_BASE, function: BASE_GET_SPEC_VERSION, args: [0, 0, 0, 0, 0, 0] };
    assert(r.args@ =~= seq![0usize, 0usize, 0usize, 0usize, 0usize, 0usize]);
    r
}

/// The SBI specification version, from the answer to
/// `get_spec_version_call()`: the answer's value where its error is
/// `Success`, else that error.
pub fn get_spec_version(ret: SbiRet) -> (r: Result<usize, SbiError>)
    ensures
        r == spec_sbi_result(ret),
{
    if ret.error == SbiError::Success {
        Ok(ret.value)
    } else {
        Err(ret.error)
    }
}

} // verus!
