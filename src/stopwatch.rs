//! The system stopwatch: the ACPI power-management timer, read in a spin
//! loop and accumulated across counter wraparound.
use vstd::prelude::*;

verus! {

/// Fixed frequency of the power-management timer, in hertz.
pub const PM_TIMER_FREQUENCY: u64 = 3_579_545;

/// Largest count of a 24-bit timer.
pub const MAX_24_BIT: u64 = 0x00FF_FFFF;

/// Largest count of a 32-bit timer.
pub const MAX_32_BIT: u64 = 0xFFFF_FFFF;

/// Ticks between two readings of a counter that wraps after `max`.
pub open spec fn elapsed_spec(last: u64, now: u64, max: u64) -> int {
    if last <= now {
        now - last
    } else {
        (max - last) + now + 1
    }
}

/// Ticks that cover `duration_us` microseconds, rounded up; saturates.
pub open spec fn wait_ticks_spec(duration_us: u64) -> int {
    let t = (duration_us * PM_TIMER_FREQUENCY + 999_999) / 1_000_000;
    if t > u64::MAX {
        u64::MAX as int
    } else {
        t
    }
}

/// The timer, described by its width.
#[derive(Debug, Clone, Copy, PartialEq, Eq, Structural)]
pub struct Stopwatch {
    max_value: u64,
}

/// A spin wait under way: the ticks still to wait and the last reading.
#[derive(Debug, Clone, Copy, PartialEq, Eq, Structural)]
pub struct SpinWait {
    pub remaining: u64,
    pub last: u64,
}

impl Stopwatch {
    pub closed spec fn max(&self) -> u64 {
        self.max_value
    }

    /// The largest count of the timer.
    pub fn max_value(&self) -> (r: u64)
        ensures
            r == self.max(),
    {
        self.max_value
    }

    /// A stopwatch over a 32-bit timer, or a 24-bit one.
    pub fn new(supports_32bit: bool) -> (r: Stopwatch)
        ensures
            r.max() == if supports_32bit {
                MAX_32_BIT
            } else {
                MAX_24_BIT
            },
    {
        Stopwatch { max_value: if supports_32bit { MAX_32_BIT } else { MAX_24_BIT } }
    }

    /// Ticks between two readings, across one wraparound.
    pub fn elapsed(&self, last: u64, now: u64) -> (r: u64)
        requires
            last <= self.max(),
            now <= self.max(),
        ensures
            r == elapsed_spec(last, now, self.max()),
    {
        if last <= now {
            now - last
        } else {
            (self.max_value - last) + now + 1
        }
    }

    /// Ticks that `duration_us` microseconds take.
    pub fn wait_ticks(duration_us: u64) -> (r: u64)
        ensures
            r == wait_ticks_spec(duration_us),
    {
        assert((duration_us as u128) * 3_579_545u128 <= 0xFFFF_FFFF_FFFF_FFFFu128 * 3_579_545u128)
            by (nonlinear_arith);
        let t: u128 = (duration_us as u128 * PM_TIMER_FREQUENCY as u128 + 999_999) / 1_000_000;
        if t > u64::MAX as u128 {
            u64::MAX
        } else {
            t as u64
        }
    }

    /// Starts a wait of `duration_us` microseconds at reading `now`.
    pub fn start(&self, duration_us: u64, now: u64) -> (r: SpinWait)
        ensures
            r.remaining == wait_ticks_spec(duration_us),
            r.last == now,
    {
        SpinWait { remaining: Stopwatch::wait_ticks(duration_us), last: now }
    }

    /// Takes a new reading: counts the ticks since the last one and says
    /// whether the wait is over.
    pub fn step(&self, wait: &mut SpinWait, now: u64) -> (done: bool)
        requires
            old(wait).last <= self.max(),
            now <= self.max(),
        ensures
            final(wait).last == now,
            final(wait).remaining == if old(wait).remaining >= elapsed_spec(
                old(wait).last,
                now,
                self.max(),
            ) {
                old(wait).remaining - elapsed_spec(old(wait).last, now, self.max())
            } else {
                0
            },
            done == (final(wait).remaining == 0),
    {
        let e = self.elapsed(wait.last, now);
        wait.remaining = wait.remaining.saturating_sub(e);
        wait.last = now;
        wait.remaining == 0
    }
}

/// Ticks still to wait after the readings `readings`, from `remaining`
/// and the reading `last`.
pub open spec fn remaining_after(remaining: int, last: u64, readings: Seq<u64>, max: u64) -> int
    decreases readings.len(),
{
    if readings.len() == 0 {
        remaining
    } else {
        let e = elapsed_spec(last, readings[0], max);
        let rest = if remaining >= e {
            remaining - e
        } else {
            0
        };
        remaining_after(rest, readings[0], readings.drop_first(), max)
    }
}

/// Ticks counted over the readings `readings`, from the reading `last`.
pub open spec fn counted(last: u64, readings: Seq<u64>, max: u64) -> int
    decreases readings.len(),
{
    if readings.len() == 0 {
        0
    } else {
        elapsed_spec(last, readings[0], max) + counted(readings[0], readings.drop_first(), max)
    }
}

/// Monotonicity of the wait: it is over only once the ticks counted
/// between readings, each counted across wraparound, reach the ticks asked
/// for.
pub proof fn lemma_wait_covers(remaining: int, last: u64, readings: Seq<u64>, max: u64)
    requires
        remaining >= 0,
        last <= max,
        forall|i: int| 0 <= i < readings.len() ==> readings[i] <= max,
    ensures
        remaining_after(remaining, last, readings, max) == 0 ==> counted(last, readings, max)
            >= remaining,
        remaining_after(remaining, last, readings, max) >= 0,
    decreases readings.len(),
{
    if readings.len() > 0 {
        let e = elapsed_spec(last, readings[0], max);
        let rest = if remaining >= e {
            remaining - e
        } else {
            0
        };
        lemma_wait_covers(rest, readings[0], readings.drop_first(), max);
        lemma_elapsed_nonneg(readings.drop_first(), readings[0], max);
    }
}

proof fn lemma_elapsed_nonneg(readings: Seq<u64>, first: u64, max: u64)
    requires
        first <= max,
        forall|i: int| 0 <= i < readings.len() ==> readings[i] <= max,
    ensures
        counted(first, readings, max) >= 0,
    decreases readings.len(),
{
    if readings.len() > 0 {
        lemma_elapsed_nonneg(readings.drop_first(), readings[0], max);
    }
}

/// A counter reading that stays at or below the timer's maximum, read after
/// a wraparound, counts the ticks that passed and not a whole period more.
pub proof fn lemma_elapsed_wraps(last: u64, now: u64, max: u64)
    requires
        last <= max,
        now <= max,
    ensures
        0 <= elapsed_spec(last, now, max) <= max,
        (last + elapsed_spec(last, now, max)) % (max + 1) == now as int,
{
    let m: int = max as int + 1;
    vstd::arithmetic::div_mod::lemma_small_mod(now as nat, m as nat);
    if last > now {
        assert(last as int + elapsed_spec(last, now, max) == m + now as int);
        vstd::arithmetic::div_mod::lemma_mod_add_multiples_vanish(now as int, m);
    } else {
        assert(last as int + elapsed_spec(last, now, max) == now as int);
    }
}

} // verus!
