//! Supervisor traps: the saved register frame, and what to do with a trap.

use vstd::prelude::*;

verus! {

/// The registers that the trap entry saves, in the order it saves them.
pub struct TrapFrame {
    pub x: [usize; 32],
    /// The supervisor status register.
    pub sstatus: usize,
    /// The supervisor exception program counter.
    pub sepc: usize,
    /// The trap cause: the top bit tells an interrupt from an exception, the
    /// rest is the code.
    pub scause: usize,
    /// The supervisor trap value.
    pub stval: usize,
}

/// The interrupt bit of `scause`.
pub const INTERRUPT_FLAG: u64 = 0x8000_0000_0000_0000;

/// The interrupt code of the supervisor timer interrupt.
pub const SUPERVISOR_TIMER_INTERRUPT: u64 = 5;

/// The supervisor timer interrupt enable bit of `sie`.
pub const SIE_STIE: usize = 0x20;

/// The supervisor interrupt enable bit of `sstatus`.
pub const SSTATUS_SIE: usize = 0x2;

/// Whether `scause` has the interrupt bit set and the supervisor timer code in
/// the other bits.
pub open spec fn spec_is_supervisor_timer_interrupt(scause: usize) -> bool {
    (scause as u64) & INTERRUPT_FLAG != 0 && (scause as u64) & !INTERRUPT_FLAG
        == SUPERVISOR_TIMER_INTERRUPT
}

/// Whether a trap with cause `scause` is the supervisor timer interrupt.
pub fn is_supervisor_timer_interrupt(scause: usize) -> (r: bool)
    ensures
        r == spec_is_supervisor_timer_interrupt(scause),
        r == (scause as u64 == 0x8000_0000_0000_0005u64),
{
    let cause = scause as u64;
    assert((cause & 0x8000_0000_0000_0000u64 != 0 && cause & !0x8000_0000_0000_0000u64 == 5u64)
        == (cause == 0x8000_0000_0000_0005u64)) by (bit_vector);
    cause & INTERRUPT_FLAG != 0 && (cause & !INTERRUPT_FLAG) == SUPERVISOR_TIMER_INTERRUPT
}

/// What a trap calls for.
#[derive(Clone, Copy, Debug, PartialEq, Eq, Structural)]
pub enum TrapAction {
    /// Take a timer tick and return from the trap.
    TimerTick,
    /// Report the cause and stop.
    Unhandled(usize),
}

/// Decides what the trap whose registers are in `frame` calls for.
pub fn handle_trap(frame: &TrapFrame) -> (r: TrapAction)
    ensures
        r == (if spec_is_supervisor_timer_interrupt(frame.scause) {
            TrapAction::TimerTick
        } else {
            TrapAction::Unhandled(frame.scause)
        }),
{
    if is_supervisor_timer_interrupt(frame.scause) {
        TrapAction::TimerTick
    } else {
        TrapAction::Unhandled(frame.scause)
    }
}

} // verus!
