//! The periodic supervisor timer: setting it up from the timebase frequency,
//! and choosing the next deadline at each tick.

use vstd::prelude::*;

use crate::sbi::base::{SbiError, SbiRet};
use crate::sbi::set_timer;

verus! {

/// Why the timer could not be set up.
#[derive(Clone, Copy, Debug, PartialEq, Eq, Structural)]
pub enum TimerError {
    /// The frequency times the interval does not fit in 64 bits.
    InvalidFrequency,
    /// The interval is shorter than one timebase tick.
    ZeroInterval,
    /// The first deadline does not fit in 64 bits.
    DeadlineOverflow,
    /// The SBI refused to program the timer.
    SetTimerFailed,
}

impl TimerError {
    /// The message that describes the error.
    pub fn message(&self) -> (r: &'static str)
        ensures
            *self == TimerError::InvalidFrequency ==> r@ == "invalid time-base-frequency"@,
            *self == TimerError::ZeroInterval ==> r@ == "timer interval is zero"@,
            *self == TimerError::DeadlineOverflow ==> r@ == "timer deadline overflow"@,
            *self == TimerError::SetTimerFailed ==> r@ == "SBI set_timer failed"@,
    {
        match self {
            TimerError::InvalidFrequency => "invalid time-base-frequency",
            TimerError::ZeroInterval => "timer interval is zero",
            TimerError::DeadlineOverflow => "timer deadline overflow",
            TimerError::SetTimerFailed => "SBI set_timer failed",
        }
    }
}

/// The timer's state: how many ticks have been taken, the interval between
/// deadlines, and the deadline the timer is programmed for, all in timebase
/// units.
#[derive(Clone, Copy, Debug, PartialEq, Eq, Structural)]
pub struct Timer {
    pub ticks: u64,
    pub interval: u64,
    pub next_deadline: u64,
}

/// What to do at a tick: program the timer for `deadline`, and print the
/// tick count where `report` holds.
#[derive(Clone, Copy, Debug, PartialEq, Eq, Structural)]
pub struct TickAction {
    pub deadline: u64,
    pub report: bool,
}

/// The timer that `init` leaves when it sets up `timer` for a timebase of
/// `time_frequency` Hz, a period of `interval_ms` milliseconds and the
/// current time `now`: the new interval and first deadline, with the tick
/// count kept as it was.
pub open spec fn spec_init(timer: Timer, time_frequency: u64, interval_ms: u64, now: u64) -> Result<
    Timer,
    TimerError,
> {
    if time_frequency * interval_ms > u64::MAX {
        Err(TimerError::InvalidFrequency)
    } else if time_frequency * interval_ms / 1000 == 0 {
        Err(TimerError::ZeroInterval)
    } else if now + time_frequency * interval_ms / 1000 > u64::MAX {
        Err(TimerError::DeadlineOverflow)
    } else {
        Ok(
            Timer {
                ticks: timer.ticks,
                interval: (time_frequency * interval_ms / 1000) as u64,
                next_deadline: (now + time_frequency * interval_ms / 1000) as u64,
            },
        )
    }
}

/// Sets up the timer: the interval is `interval_ms` milliseconds of a timebase
/// of `time_frequency` Hz, and the first deadline is one interval after `now`
/// (the time read just before). On success the interval and deadline are
/// stored, the tick count is left as it was, and the deadline to program
/// with `set_timer_call` is returned; its answer goes to `finish_init`. On an
/// error nothing is stored.
pub fn init(timer: &mut Timer, time_frequency: u64, interval_ms: u64, now: u64) -> (r: Result<
    u64,
    TimerError,
>)
    ensures
        match spec_init(*old(timer), time_frequency, interval_ms, now) {
            Ok(t) => r == Ok::<u64, TimerError>(t.next_deadline) && *final(timer) == t,
            Err(e) => r == Err::<u64, TimerError>(e) && *final(timer) == *old(timer),
        },
        r is Ok ==> final(timer).interval > 0 && final(timer).next_deadline == now
            + final(timer).interval && final(timer).ticks == old(timer).ticks,
        r == Err::<u64, TimerError>(TimerError::InvalidFrequency) <==> time_frequency * interval_ms
            > u64::MAX,
        (time_frequency * interval_ms <= u64::MAX && time_frequency * interval_ms >= 1000 && now
            + time_frequency * interval_ms / 1000 <= u64::MAX) ==> (r == Ok::<u64, TimerError>(
            (now + time_frequency * interval_ms / 1000) as u64)
            && final(timer).interval == time_frequency * interval_ms / 1000),
{
    let product = match time_frequency.checked_mul(interval_ms) {
        Some(v) => v,
        None => {
            return Err(TimerError::InvalidFrequency);
        },
    };
    let interval = product / 1000;
    if interval == 0 {
        return Err(TimerError::ZeroInterval);
    }
    let deadline = match now.checked_add(interval) {
        Some(d) => d,
        None => {
            return Err(TimerError::DeadlineOverflow);
        },
    };
    timer.interval = interval;
    timer.next_deadline = deadline;
    Ok(deadline)
}

/// The outcome of setting up the timer, from the SBI's answer to programming
/// the first deadline: `Ok` where the answer's error is `Success`, else
/// `SetTimerFailed` (the stored interval and deadline stay as `init` left
/// them).
pub fn finish_init(ret: SbiRet) -> (r: Result<(), TimerError>)
    ensures
        r is Ok <==> ret.error == SbiError::Success,
        r matches Err(e) ==> e == TimerError::SetTimerFailed,
{
    match set_timer(ret) {
        Ok(()) => Ok(()),
        Err(_) => Err(TimerError::SetTimerFailed),
    }
}

impl Default for Timer {
    /// The timer before it is set up: no ticks, no interval, no deadline.
    fn default() -> (r: Self)
        ensures
            r == (Timer { ticks: 0, interval: 0, next_deadline: 0 }),
    {
        Timer { ticks: 0, interval: 0, next_deadline: 0 }
    }
}

impl Timer {
    /// The deadline that the tick at time `now` moves to: one interval on from
    /// the current deadline, or two where one interval on is already past.
    pub open spec fn spec_next_deadline(self, now: u64) -> int {
        if self.next_deadline + self.interval <= now {
            self.next_deadline + 2 * self.interval
        } else {
            self.next_deadline + self.interval
        }
    }

    /// Whether a tick at time `now` stays within 64 bits.
    pub open spec fn tick_fits(self, now: u64) -> bool {
        &&& self.ticks < u64::MAX
        &&& self.spec_next_deadline(now) <= u64::MAX
    }

    /// Takes a timer interrupt at time `now`: counts the tick, moves the
    /// deadline on, and says which deadline to program and whether this tick
    /// is a multiple of a hundred, to be reported.
    pub fn on_tick(&mut self, now: u64) -> (a: TickAction)
        requires
            old(self).tick_fits(now),
        ensures
            final(self).ticks == old(self).ticks + 1,
            final(self).interval == old(self).interval,
            final(self).next_deadline == old(self).spec_next_deadline(now),
            old(self).next_deadline + old(self).interval > now ==> final(self).next_deadline
                == old(self).next_deadline + old(self).interval,
            old(self).next_deadline + old(self).interval <= now ==> final(self).next_deadline
                == old(self).next_deadline + 2 * old(self).interval,
            a.deadline == final(self).next_deadline,
            a.report == (final(self).ticks % 100 == 0),
    {
        let interval = self.interval;
        let ticks = self.ticks + 1;
        self.ticks = ticks;
        let mut next_deadline = self.next_deadline + interval;
        if next_deadline <= now {
            next_deadline = next_deadline + interval;
        }
        self.next_deadline = next_deadline;
        TickAction { deadline: next_deadline, report: ticks % 100 == 0 }
    }
}

/// With a non-zero interval, every tick moves the deadline strictly later, by
/// one or two intervals.
pub proof fn lemma_deadline_advances(t: Timer, now: u64)
    requires
        t.interval > 0,
    ensures
        t.spec_next_deadline(now) > t.next_deadline,
        t.spec_next_deadline(now) - t.next_deadline == t.interval || t.spec_next_deadline(now)
            - t.next_deadline == 2 * t.interval,
{
}

/// A tick moves the deadline one interval on where that is still after
/// `now`, and two intervals on only where one interval on is already at or
/// before `now`.
pub proof fn lemma_next_deadline_one_or_two(t: Timer, now: u64)
    ensures
        t.next_deadline + t.interval > now ==> t.spec_next_deadline(now) == t.next_deadline
            + t.interval,
        t.next_deadline + t.interval <= now ==> t.spec_next_deadline(now) == t.next_deadline + 2
            * t.interval,
{
}

/// Setting up the timer fails with `InvalidFrequency` exactly when the
/// frequency times the period does not fit in 64 bits, with `ZeroInterval`
/// exactly when that product fits but is under a thousand, and with
/// `DeadlineOverflow` exactly when the interval fits but `now` plus it does
/// not; otherwise it succeeds with the interval the product divided by a
/// thousand, the deadline `now` plus that interval, and the tick count kept.
/// It never fails with `SetTimerFailed`.
pub proof fn lemma_init_outcomes(timer: Timer, time_frequency: u64, interval_ms: u64, now: u64)
    ensures
        spec_init(timer, time_frequency, interval_ms, now) == Err::<Timer, TimerError>(
            TimerError::InvalidFrequency,
        ) <==> time_frequency * interval_ms > u64::MAX,
        spec_init(timer, time_frequency, interval_ms, now) == Err::<Timer, TimerError>(
            TimerError::ZeroInterval,
        ) <==> (time_frequency * interval_ms <= u64::MAX && time_frequency * interval_ms < 1000),
        spec_init(timer, time_frequency, interval_ms, now) == Err::<Timer, TimerError>(
            TimerError::DeadlineOverflow,
        ) <==> (time_frequency * interval_ms <= u64::MAX && time_frequency * interval_ms >= 1000
            && now + time_frequency * interval_ms / 1000 > u64::MAX),
        spec_init(timer, time_frequency, interval_ms, now) != Err::<Timer, TimerError>(
            TimerError::SetTimerFailed,
        ),
        (time_frequency * interval_ms <= u64::MAX && time_frequency * interval_ms >= 1000 && now
            + time_frequency * interval_ms / 1000 <= u64::MAX) ==> spec_init(
            timer,
            time_frequency,
            interval_ms,
            now,
        ) == Ok::<Timer, TimerError>(
            Timer {
                ticks: timer.ticks,
                interval: (time_frequency * interval_ms / 1000) as u64,
                next_deadline: (now + time_frequency * interval_ms / 1000) as u64,
            },
        ),
{
    let p = time_frequency * interval_ms;
    assert(p / 1000 == 0 <==> p < 1000) by (nonlinear_arith)
        requires
            p >= 0,
    ;
}

} // verus!
