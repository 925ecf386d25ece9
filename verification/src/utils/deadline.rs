use vstd::prelude::*;

use std::time::{Duration, Instant};

verus! {

#[verifier::external_type_specification]
#[verifier::external_body]
pub struct ExInstant(Instant);

/// Relies on std::time::Instant::now: an opaque reading of the monotonic
/// clock. Nothing is promised of a clock reading.
#[verifier::external_body]
fn instant_now() -> Instant {
    Instant::now()
}

/// Relies on std::time::Instant::elapsed: the time since `start` by the
/// monotonic clock. Nothing is promised of a clock reading.
#[verifier::external_body]
fn elapsed_since(start: &Instant) -> Duration {
    start.elapsed()
}

/// Relies on std::time::Duration::as_nanos: the duration's whole number of
/// nanoseconds. Nothing is promised here of the value, since it came from
/// the clock.
#[verifier::external_body]
fn duration_nanos(d: &Duration) -> u128 {
    d.as_nanos()
}

/// A wall-clock budget for an iterative run: a fixed starting instant and
/// total duration, plus a count of the iterations performed so far, from
/// which the controller predicts whether one more iteration is affordable.
pub struct Deadline {
    /// The instant the budget started.
    start: Instant,
    /// The whole budget, in nanoseconds.
    total_nanos: u64,
    /// The number of iterations performed so far.
    ticks: usize,
}

/// The overshoot prediction as a pure function of an elapsed-time reading:
/// once the budget is used up the answer is yes; before half the budget has
/// passed there is too little data and the answer is no; afterwards one
/// more average-length iteration (elapsed time over iteration count) must
/// fit in what remains, compared exactly over the integers. With no
/// iterations on record but time on the clock, the average is unbounded
/// and the answer is yes.
pub open spec fn spec_will_exceed(elapsed: int, total: int, ticks: int) -> bool {
    if elapsed >= total {
        true
    } else if elapsed < total / 2 {
        false
    } else if ticks == 0 {
        elapsed > 0
    } else {
        elapsed > (total - elapsed) * ticks
    }
}

/// The budget is spent: an elapsed reading strictly beyond it.
pub open spec fn spec_expired_at(elapsed: int, total: int) -> bool {
    elapsed > total
}

/// What is left of the budget at an elapsed reading: the saturated
/// difference.
pub open spec fn spec_remaining_at(elapsed: int, total: int) -> int {
    if elapsed >= total {
        0
    } else {
        total - elapsed
    }
}

/// A fresh budget predicts no overshoot: whatever the iteration count,
/// the prediction stays quiet until half the budget has elapsed.
pub proof fn lemma_patient_before_half(elapsed: int, total: int, ticks: int)
    requires
        0 <= elapsed,
        elapsed < total / 2,
    ensures
        !spec_will_exceed(elapsed, total, ticks),
{
}

/// Once the whole budget has elapsed the prediction is overshoot,
/// regardless of the iteration count.
pub proof fn lemma_overshoot_once_elapsed(elapsed: int, total: int, ticks: int)
    requires
        elapsed >= total,
    ensures
        spec_will_exceed(elapsed, total, ticks),
{
}

impl Deadline {
    /// The budget in nanoseconds.
    pub closed spec fn spec_total_nanos(&self) -> int {
        self.total_nanos as int
    }

    /// The iterations recorded so far.
    pub closed spec fn spec_ticks(&self) -> int {
        self.ticks as int
    }

    /// The instant the budget started.
    pub closed spec fn spec_start(&self) -> Instant {
        self.start
    }

    /// Creates a budget of `duration` milliseconds starting now; budgets
    /// beyond the nanosecond range of the counter saturate.
    pub fn new(duration: u64) -> (d: Deadline)
        ensures
            d.spec_total_nanos() == (if duration * 1_000_000 <= u64::MAX {
                duration * 1_000_000
            } else {
                u64::MAX as int
            }),
            d.spec_ticks() == 0,
    {
        let total_nanos = match duration.checked_mul(1_000_000) {
            Some(v) => v,
            None => u64::MAX,
        };
        Deadline { start: instant_now(), total_nanos, ticks: 0 }
    }

    /// The overshoot prediction on explicit readings, exactly as
    /// `spec_will_exceed` states it.
    pub fn will_exceed_at(elapsed_nanos: u128, total_nanos: u64, ticks: usize) -> (r: bool)
        ensures
            r == spec_will_exceed(elapsed_nanos as int, total_nanos as int, ticks as int),
    {
        let total = total_nanos as u128;
        if elapsed_nanos >= total {
            return true;
        }
        if elapsed_nanos < total / 2 {
            return false;
        }
        if ticks == 0 {
            return elapsed_nanos > 0;
        }
        let rem: u128 = total - elapsed_nanos;
        let t: u128 = ticks as u128;
        proof {
            assert(rem * t < 0x1_0000_0000_0000_0000 * 0x1_0000_0000_0000_0000)
                by (nonlinear_arith)
                requires
                    0 <= (rem as int) && (rem as int) < 0x1_0000_0000_0000_0000,
                    0 <= (t as int) && (t as int) < 0x1_0000_0000_0000_0000,
            {
            }
        }
        elapsed_nanos > rem * t
    }

    /// Predicts, without guarantee, whether one more iteration would
    /// overshoot the deadline: the prediction is `spec_will_exceed` of
    /// whatever elapsed time the clock reported. False negatives are
    /// possible and are the caller's to tolerate.
    pub fn will_exceed_deadline(&self) -> (r: bool)
        ensures
            exists|e: int|
                0 <= e && r == spec_will_exceed(e, self.spec_total_nanos(), self.spec_ticks()),
    {
        let d = elapsed_since(&self.start);
        let e = duration_nanos(&d);
        let r = Self::will_exceed_at(e, self.total_nanos, self.ticks);
        proof {
            assert(0 <= e as int && r == spec_will_exceed(
                e as int,
                self.spec_total_nanos(),
                self.spec_ticks(),
            ));
        }
        r
    }

    /// Whether the clock has read past the whole budget.
    pub fn is_expired(&self) -> (r: bool)
        ensures
            exists|e: int| 0 <= e && r == #[trigger] spec_expired_at(e, self.spec_total_nanos()),
    {
        let d = elapsed_since(&self.start);
        let e = duration_nanos(&d);
        let r = e > self.total_nanos as u128;
        proof {
            assert(0 <= e as int && r == spec_expired_at(e as int, self.spec_total_nanos()));
        }
        r
    }

    /// Nanoseconds of budget not yet used by the clock's reading: the
    /// saturated difference between the budget and whatever elapsed time
    /// the clock reported, so never more than the whole budget.
    pub fn remaining(&self) -> (r: u128)
        ensures
            exists|e: int|
                0 <= e && r == #[trigger] spec_remaining_at(e, self.spec_total_nanos()),
            r <= self.spec_total_nanos(),
    {
        let d = elapsed_since(&self.start);
        let e = duration_nanos(&d);
        let total = self.total_nanos as u128;
        let r = if e >= total {
            0
        } else {
            total - e
        };
        proof {
            assert(0 <= e as int && r == spec_remaining_at(e as int, self.spec_total_nanos()));
        }
        r
    }

    /// Records one more iteration; the count saturates at the counter's
    /// maximum rather than wrapping.
    pub fn tick(&mut self)
        ensures
            final(self).spec_ticks() == (if old(self).spec_ticks() < usize::MAX {
                old(self).spec_ticks() + 1
            } else {
                old(self).spec_ticks()
            }),
            final(self).spec_total_nanos() == old(self).spec_total_nanos(),
            final(self).spec_start() == old(self).spec_start(),
    {
        if self.ticks < usize::MAX {
            self.ticks = self.ticks + 1;
        }
    }
}

} // verus!
