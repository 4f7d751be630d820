//! The per-thread preemption timer: TSC-deadline where the CPU supports it,
//! else the local APIC's one-shot countdown.
use vstd::prelude::*;
use crate::x2apic::{LocalVector, TimerMode, timer_mode_code};

verus! {

/// Calibration runs the stopwatch for 50 ms, a twentieth of a second.
pub const MEASUREMENT_FREQUENCY_FACTOR: u64 = 20;

#[derive(Debug, Clone, Copy, PartialEq, Eq, Structural)]
pub enum Error {
    /// The wait does not fit the timer's counter.
    InvalidWait,
}

/// The selected timer and its frequency in hertz.
#[derive(Debug, Clone, Copy, PartialEq, Eq, Structural)]
pub enum LocalTimer {
    TimestampCounter { frequency: u64 },
    LocalApic { apic_frequency: u32 },
}

/// What to write to arm the timer.
#[derive(Debug, Clone, Copy, PartialEq, Eq, Structural)]
pub enum TimerArm {
    /// The TSC value at which the interrupt fires.
    Deadline(u64),
    /// The APIC timer's initial count.
    InitialCount(u32),
}

/// What arms the timer `wait_us` microseconds after the TSC reading `now`:
/// a deadline of `now` plus the ticks, or an initial count of the ticks;
/// `InvalidWait` when the ticks overflow the counter.
pub open spec fn wait_arm(timer: LocalTimer, wait_us: u64, now: u64) -> Result<TimerArm, Error> {
    match timer {
        LocalTimer::TimestampCounter { frequency: frequency } => {
            let ticks = (frequency / 1_000_000) * wait_us;
            if now + ticks <= u64::MAX {
                Ok(TimerArm::Deadline((now + ticks) as u64))
            } else {
                Err(Error::InvalidWait)
            }
        },
        LocalTimer::LocalApic { apic_frequency: frequency } => {
            let ticks = (frequency / 1_000_000) * wait_us;
            if ticks <= u32::MAX {
                Ok(TimerArm::InitialCount(ticks as u32))
            } else {
                Err(Error::InvalidWait)
            }
        },
    }
}

/// The TSC-deadline timer is used exactly when the CPU has a TSC, the
/// deadline mode and an invariant TSC.
pub fn use_tsc_deadline(has_tsc: bool, has_tsc_deadline: bool, has_invariant_tsc: bool) -> (r: bool)
    ensures
        r == (has_tsc && has_tsc_deadline && has_invariant_tsc),
{
    has_tsc && has_tsc_deadline && has_invariant_tsc
}

/// A frequency from ticks counted over the calibration interval.
pub fn measured_frequency(elapsed_ticks: u64) -> (r: Option<u64>)
    ensures
        elapsed_ticks * 20 <= u64::MAX ==> r == Some((elapsed_ticks * 20) as u64),
        elapsed_ticks * 20 > u64::MAX ==> r is None,
{
    elapsed_ticks.checked_mul(MEASUREMENT_FREQUENCY_FACTOR)
}

impl LocalTimer {
    /// The timer: TSC-deadline when `tsc_deadline` holds, with the frequency
    /// of the CPUID frequency leaf, else of the hypervisor leaf, else the
    /// measured one; else the APIC timer, with the hypervisor's frequency or
    /// the measured one. The timer's local vector entry is put in the
    /// matching mode: TSC-deadline or one-shot.
    pub fn configure(
        lvt_timer: &mut LocalVector,
        tsc_deadline: bool,
        leaf_tsc_frequency: Option<u64>,
        hypervisor_tsc_frequency: Option<u64>,
        measured_tsc_frequency: u64,
        hypervisor_apic_frequency: Option<u32>,
        measured_apic_frequency: u32,
    ) -> (r: LocalTimer)
        ensures
            final(lvt_timer).raw == (old(lvt_timer).raw & !0x6_0000u32) | (timer_mode_code(
                if tsc_deadline {
                    TimerMode::TscDeadline
                } else {
                    TimerMode::OneShot
                },
            ) << 17u32),
            tsc_deadline ==> r == (LocalTimer::TimestampCounter {
                frequency: match leaf_tsc_frequency {
                    Some(f) => f,
                    None => match hypervisor_tsc_frequency {
                        Some(f) => f,
                        None => measured_tsc_frequency,
                    },
                },
            }),
            !tsc_deadline ==> r == (LocalTimer::LocalApic {
                apic_frequency: match hypervisor_apic_frequency {
                    Some(f) => f,
                    None => measured_apic_frequency,
                },
            }),
    {
        if tsc_deadline {
            lvt_timer.set_mode(TimerMode::TscDeadline, true);
        } else {
            lvt_timer.set_mode(TimerMode::OneShot, false);
        }
        if tsc_deadline {
            let frequency = match leaf_tsc_frequency {
                Some(f) => f,
                None => match hypervisor_tsc_frequency {
                    Some(f) => f,
                    None => measured_tsc_frequency,
                },
            };
            LocalTimer::TimestampCounter { frequency }
        } else {
            let frequency = match hypervisor_apic_frequency {
                Some(f) => f,
                None => measured_apic_frequency,
            };
            LocalTimer::LocalApic { apic_frequency: frequency }
        }
    }

    /// What arms the next interrupt `wait_us` microseconds after the TSC
    /// reading `now`: a deadline of `now` plus the ticks, or an initial
    /// count of the ticks; `InvalidWait` when the ticks overflow the counter.
    pub fn set_wait(&self, wait_us: u64, now: u64) -> (r: Result<TimerArm, Error>)
        ensures
            r == wait_arm(*self, wait_us, now),
    {
        match *self {
            LocalTimer::TimestampCounter { frequency } => {
                let per_us = frequency / 1_000_000;
                match per_us.checked_mul(wait_us) {
                    Some(ticks) => match now.checked_add(ticks) {
                        Some(deadline) => Ok(TimerArm::Deadline(deadline)),
                        None => Err(Error::InvalidWait),
                    },
                    None => {
                        assert(now + per_us * wait_us > u64::MAX);
                        Err(Error::InvalidWait)
                    },
                }
            },
            LocalTimer::LocalApic { apic_frequency: frequency } => {
                if wait_us > u32::MAX as u64 {
                    if frequency / 1_000_000 == 0 {
                        assert((frequency / 1_000_000) as int * wait_us as int == 0) by (nonlinear_arith)
                            requires frequency / 1_000_000 == 0;
                        return Ok(TimerArm::InitialCount(0));
                    }
                    assert((frequency / 1_000_000) * wait_us > u32::MAX) by (nonlinear_arith)
                        requires
                            frequency / 1_000_000 >= 1,
                            wait_us > 0xFFFF_FFFFu64,
                    ;
                    return Err(Error::InvalidWait);
                }
                let per_us = frequency / 1_000_000;
                match per_us.checked_mul(wait_us as u32) {
                    Some(ticks) => Ok(TimerArm::InitialCount(ticks)),
                    None => Err(Error::InvalidWait),
                }
            },
        }
    }
}

} // verus!
