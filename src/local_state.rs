//! Per-hardware-thread state: the preemption timer, the scheduler, and the
//! slot through which the fault handler hands a caught exception to a
//! guarded kernel probe.
use vstd::prelude::*;
use crate::exceptions::Exception;
use crate::local_timer::{Error as TimerError, LocalTimer, TimerArm, wait_arm};
use crate::scheduling::Scheduler;

verus! {

/// The exception slot: idle, waiting for a fault, or holding one.
#[derive(Debug, Clone, Copy, PartialEq, Eq, Structural)]
pub enum ExceptionCatcher {
    Caught(Exception),
    Await,
    Idle,
}

impl ExceptionCatcher {
    /// Arms the slot before a probe that may fault; a caught exception not
    /// yet taken is dropped.
    pub fn begin(&mut self)
        ensures
            *final(self) == ExceptionCatcher::Await,
    {
        *self = ExceptionCatcher::Await;
    }

    /// The fault handler's offer: an armed slot takes the exception and the
    /// fault is survived (`true`); otherwise the fault is fatal (`false`)
    /// and the slot is unchanged.
    pub fn post(&mut self, exception: Exception) -> (caught: bool)
        ensures
            caught == (*old(self) == ExceptionCatcher::Await),
            caught ==> *final(self) == ExceptionCatcher::Caught(exception),
            !caught ==> *final(self) == *old(self),
    {
        match *self {
            ExceptionCatcher::Await => {
                *self = ExceptionCatcher::Caught(exception);
                true
            },
            _ => false,
        }
    }

    /// After the probe: the exception it raised, if any; the slot goes idle.
    pub fn take(&mut self) -> (r: Option<Exception>)
        ensures
            *final(self) == ExceptionCatcher::Idle,
            r == match *old(self) {
                ExceptionCatcher::Caught(e) => Some(e),
                _ => None::<Exception>,
            },
    {
        let r = match *self {
            ExceptionCatcher::Caught(e) => Some(e),
            _ => None,
        };
        *self = ExceptionCatcher::Idle;
        r
    }
}

/// One hardware thread's local state.
pub struct LocalState {
    pub timer: LocalTimer,
    pub scheduler: Scheduler,
    pub catcher: ExceptionCatcher,
}

impl LocalState {
    /// The state of a thread that has just configured its timer and built
    /// its scheduler.
    pub fn init(timer: LocalTimer, scheduler: Scheduler) -> (r: LocalState)
        ensures
            r.timer == timer,
            r.scheduler == scheduler,
            r.catcher == ExceptionCatcher::Idle,
    {
        LocalState { timer, scheduler, catcher: ExceptionCatcher::Idle }
    }

    /// The thread's scheduler.
    pub fn with_scheduler(&mut self) -> (r: &mut Scheduler)
        ensures
            *r == old(self).scheduler,
    {
        &mut self.scheduler
    }

    /// What arms the next preemption `wait_ms` milliseconds after the TSC
    /// reading `now`.
    pub fn set_preemption_wait(&self, wait_ms: u64, now: u64) -> (r: Result<TimerArm, TimerError>)
        requires
            wait_ms <= u64::MAX / 1000,
        ensures
            r == wait_arm(self.timer, (wait_ms * 1000) as u64, now),
    {
        self.timer.set_wait(wait_ms * 1000, now)
    }
}

} // verus!
