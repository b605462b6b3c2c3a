use kernel::sbi::base::{get_spec_version_call, SbiError, SbiRet};
use kernel::sbi::reset::{RESET_REASON_NONE, RESET_TYPE_SHUTDOWN};
use kernel::sbi::timer::set_timer_call;
use kernel::sbi::{
    get_spec_version, set_reset_call, set_timer, BASE_GET_SPEC_VERSION, EXT_BASE, EXT_SRST,
    EXT_TIME, SRST_SYSTEM_RESET, TIME_SET_TIMER,
};

#[test]
fn error_codes_decode() {
    let expected = [
        (0, SbiError::Success),
        (-1, SbiError::Failed),
        (-2, SbiError::NotSupported),
        (-3, SbiError::InvalidParam),
        (-4, SbiError::Denied),
        (-5, SbiError::InvalidAddress),
        (-6, SbiError::AlreadyAvailable),
        (-7, SbiError::AlreadyStarted),
        (-8, SbiError::AlreadyStopped),
        (-9, SbiError::NoShmem),
        (-10, SbiError::InvalidState),
        (-11, SbiError::BadRange),
        (-12, SbiError::TimeOut),
        (-13, SbiError::ErrIo),
        (-14, SbiError::DeniedLocked),
    ];
    for (code, err) in expected {
        assert_eq!(SbiError::from_raw(code), err);
    }
    assert_eq!(SbiError::from_raw(-15), SbiError::Unknown(-15));
    assert_eq!(SbiError::from_raw(1), SbiError::Unknown(1));
    assert_eq!(SbiError::from_raw(isize::MIN), SbiError::Unknown(isize::MIN));
}

#[test]
fn distinct_codes_decode_distinctly() {
    for a in -20isize..5 {
        for b in -20isize..5 {
            assert_eq!(SbiError::from_raw(a) == SbiError::from_raw(b), a == b);
        }
    }
}

#[test]
fn spec_version_answer() {
    let ok = SbiRet { error: SbiError::Success, value: 0x0100_0000 };
    assert_eq!(get_spec_version(ok), Ok(0x0100_0000));
    let err = SbiRet { error: SbiError::NotSupported, value: 7 };
    assert_eq!(get_spec_version(err), Err(SbiError::NotSupported));
    let call = get_spec_version_call();
    assert_eq!(call.extension, EXT_BASE);
    assert_eq!(call.function, BASE_GET_SPEC_VERSION);
    assert_eq!(call.args, [0; 6]);
}

#[test]
fn set_timer_answer_and_call() {
    assert_eq!(set_timer(SbiRet { error: SbiError::Success, value: 5 }), Ok(()));
    assert_eq!(
        set_timer(SbiRet { error: SbiError::Unknown(-99), value: 0 }),
        Err(SbiError::Unknown(-99))
    );
    let call = set_timer_call(123_456);
    assert_eq!(call.extension, EXT_TIME);
    assert_eq!(call.extension, 0x5449_4d45);
    assert_eq!(call.function, TIME_SET_TIMER);
    assert_eq!(call.args, [123_456, 0, 0, 0, 0, 0]);
}

#[test]
fn reset_call() {
    let call = set_reset_call();
    assert_eq!(call.extension, EXT_SRST);
    assert_eq!(call.extension, 0x5352_5354);
    assert_eq!(call.function, SRST_SYSTEM_RESET);
    assert_eq!(call.args, [RESET_TYPE_SHUTDOWN, RESET_REASON_NONE, 0, 0, 0, 0]);
}
