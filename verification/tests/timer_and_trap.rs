use kernel::arch::riscv64::trap::{handle_trap, is_supervisor_timer_interrupt, TrapAction, TrapFrame};
use kernel::sbi::base::{SbiError, SbiRet};
use kernel::timer::{finish_init, init, Timer, TimerError};

#[test]
fn init_sets_interval_and_first_deadline() {
    let mut t = Timer::default();
    assert_eq!(t, Timer { ticks: 0, interval: 0, next_deadline: 0 });
    assert_eq!(init(&mut t, 10_000_000, 10, 5_000), Ok(105_000));
    assert_eq!(t, Timer { ticks: 0, interval: 100_000, next_deadline: 105_000 });
}

#[test]
fn init_keeps_the_tick_count() {
    let mut t = Timer { ticks: 42, interval: 7, next_deadline: 9 };
    assert_eq!(init(&mut t, 1_000, 5, 100), Ok(105));
    assert_eq!(t, Timer { ticks: 42, interval: 5, next_deadline: 105 });
}

#[test]
fn init_errors_store_nothing() {
    let before = Timer { ticks: 3, interval: 10, next_deadline: 20 };
    let mut t = before;
    assert_eq!(init(&mut t, u64::MAX, 2, 0), Err(TimerError::InvalidFrequency));
    assert_eq!(init(&mut t, 999, 1, 0), Err(TimerError::ZeroInterval));
    assert_eq!(init(&mut t, 0, 10, 0), Err(TimerError::ZeroInterval));
    assert_eq!(init(&mut t, 1000, 1, u64::MAX), Err(TimerError::DeadlineOverflow));
    assert_eq!(t, before);
    assert_eq!(init(&mut t, 1000, 1, u64::MAX - 1), Ok(u64::MAX));
    assert_eq!(t, Timer { ticks: 3, interval: 1, next_deadline: u64::MAX });
    assert_eq!(TimerError::InvalidFrequency.message(), "invalid time-base-frequency");
    assert_eq!(TimerError::ZeroInterval.message(), "timer interval is zero");
    assert_eq!(TimerError::DeadlineOverflow.message(), "timer deadline overflow");
    assert_eq!(TimerError::SetTimerFailed.message(), "SBI set_timer failed");
}

#[test]
fn init_outcome_from_sbi_answer() {
    assert_eq!(finish_init(SbiRet { error: SbiError::Success, value: 0 }), Ok(()));
    assert_eq!(
        finish_init(SbiRet { error: SbiError::Denied, value: 0 }),
        Err(TimerError::SetTimerFailed)
    );
    assert_eq!(
        finish_init(SbiRet { error: SbiError::Unknown(-77), value: 1 }),
        Err(TimerError::SetTimerFailed)
    );
}

#[test]
fn tick_moves_deadline_by_one_interval() {
    let mut t = Timer { ticks: 0, interval: 100, next_deadline: 1000 };
    let a = t.on_tick(1001);
    assert_eq!(a.deadline, 1100);
    assert!(!a.report);
    assert_eq!(t, Timer { ticks: 1, interval: 100, next_deadline: 1100 });
}

#[test]
fn late_tick_skips_one_interval() {
    let mut t = Timer { ticks: 4, interval: 100, next_deadline: 1000 };
    let a = t.on_tick(1100);
    assert_eq!(a.deadline, 1200);
    assert_eq!(t.ticks, 5);
    // Even far behind, at most one interval is skipped.
    let a = t.on_tick(5000);
    assert_eq!(a.deadline, 1400);
}

#[test]
fn every_hundredth_tick_is_reported() {
    let mut t = Timer { ticks: 0, interval: 10, next_deadline: 10 };
    let mut reported = Vec::new();
    for i in 0..250u64 {
        let a = t.on_tick(i * 10);
        assert!(a.deadline > i * 10 || a.deadline == t.next_deadline);
        if a.report {
            reported.push(t.ticks);
        }
    }
    assert_eq!(reported, vec![100, 200]);
    assert_eq!(t.ticks, 250);
}

#[test]
fn timer_interrupt_cause() {
    assert!(is_supervisor_timer_interrupt(0x8000_0000_0000_0005));
    assert!(!is_supervisor_timer_interrupt(5));
    assert!(!is_supervisor_timer_interrupt(0x8000_0000_0000_0001));
    assert!(!is_supervisor_timer_interrupt(0x8000_0000_0000_0009));
    assert!(!is_supervisor_timer_interrupt(0xC000_0000_0000_0005));
    assert!(!is_supervisor_timer_interrupt(0));
}

#[test]
fn trap_decisions() {
    let mut frame = TrapFrame { x: [0; 32], sstatus: 0, sepc: 0x8020_0000, scause: 0x8000_0000_0000_0005, stval: 0 };
    assert_eq!(handle_trap(&frame), TrapAction::TimerTick);
    frame.scause = 2;
    assert_eq!(handle_trap(&frame), TrapAction::Unhandled(2));
}
