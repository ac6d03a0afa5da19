//! The learning-rate schedule: a linear ramp up over the warmup steps,
//! then a linear ramp down to zero at the last step.
//!
//! The schedule is the factor by which the base learning rate is scaled.
//! It is an exact fraction; multiplying the base rate by it is left to the
//! caller.

use vstd::prelude::*;

verus! {

/// The part of the schedule a step falls in.
#[derive(Debug, Clone, Copy, PartialEq, Eq)]
pub enum SchedulePhase {
    /// Before `warmup_steps`: the factor is `step / warmup_steps`.
    Warmup,
    /// From `warmup_steps` up to `total_steps`: the factor is
    /// `1 - (step - warmup_steps) / (total_steps - warmup_steps)`.
    Decay,
    /// At `total_steps` and after it: the factor stays at zero.
    Finished,
}

/// The factor of a step, as the fraction `numerator / denominator`.
#[derive(Debug, Clone, Copy, PartialEq, Eq)]
pub struct LrScale {
    pub phase: SchedulePhase,
    pub numerator: usize,
    pub denominator: usize,
}

/// The factor of `step` in a schedule of `warmup_steps` and `total_steps`.
///
/// During warmup it is `step / warmup_steps`. During decay it is
/// `(total_steps - step) / (total_steps - warmup_steps)`, which is
/// `1 - (step - warmup_steps) / (total_steps - warmup_steps)`. From
/// `total_steps` on it is clamped to zero, so that it never turns negative
/// and nothing is divided by zero where the two bounds coincide.
pub open spec fn schedule(step: usize, warmup_steps: usize, total_steps: usize) -> LrScale {
    if step < warmup_steps {
        LrScale { phase: SchedulePhase::Warmup, numerator: step, denominator: warmup_steps }
    } else if step < total_steps {
        LrScale {
            phase: SchedulePhase::Decay,
            numerator: (total_steps - step) as usize,
            denominator: (total_steps - warmup_steps) as usize,
        }
    } else {
        LrScale { phase: SchedulePhase::Finished, numerator: 0, denominator: 1 }
    }
}

impl LrScale {
    /// The factor is zero.
    pub open spec fn is_zero(self) -> bool {
        self.numerator == 0
    }

    /// The factor is one.
    pub open spec fn is_one(self) -> bool {
        self.numerator == self.denominator
    }

    /// The factor is at most `other`.
    pub open spec fn le(self, other: LrScale) -> bool {
        self.numerator * other.denominator <= other.numerator * self.denominator
    }

    /// The factor is less than `other`.
    pub open spec fn lt(self, other: LrScale) -> bool {
        self.numerator * other.denominator < other.numerator * self.denominator
    }
}

/// The factor by which the base learning rate is scaled at `step`.
pub fn learning_rate_scale(step: usize, warmup_steps: usize, total_steps: usize) -> (s: LrScale)
    ensures
        s == schedule(step, warmup_steps, total_steps),
        0 < s.denominator,
        s.numerator <= s.denominator,
{
    if step < warmup_steps {
        LrScale { phase: SchedulePhase::Warmup, numerator: step, denominator: warmup_steps }
    } else if step < total_steps {
        LrScale {
            phase: SchedulePhase::Decay,
            numerator: total_steps - step,
            denominator: total_steps - warmup_steps,
        }
    } else {
        LrScale { phase: SchedulePhase::Finished, numerator: 0, denominator: 1 }
    }
}

/// The factor is a fraction between zero and one with a positive
/// denominator, whatever the step and the bounds.
pub proof fn lemma_schedule_bounded(step: usize, warmup_steps: usize, total_steps: usize)
    ensures
        0 < schedule(step, warmup_steps, total_steps).denominator,
        schedule(step, warmup_steps, total_steps).numerator <= schedule(
            step,
            warmup_steps,
            total_steps,
        ).denominator,
{
}

/// The schedule starts at zero where there is a warmup, reaches one at the
/// end of the warmup where a decay follows it, and is zero at the last
/// step where that does not lie inside the warmup.
pub proof fn lemma_schedule_boundaries(warmup_steps: usize, total_steps: usize)
    ensures
        warmup_steps > 0 ==> schedule(0, warmup_steps, total_steps).is_zero(),
        warmup_steps < total_steps ==> schedule(warmup_steps, warmup_steps, total_steps).is_one(),
        warmup_steps <= total_steps ==> schedule(total_steps, warmup_steps, total_steps).is_zero(),
{
}

/// During warmup the factor rises from each step to every later one.
pub proof fn lemma_warmup_increases(
    earlier: usize,
    later: usize,
    warmup_steps: usize,
    total_steps: usize,
)
    requires
        earlier < later < warmup_steps,
    ensures
        schedule(earlier, warmup_steps, total_steps).lt(
            schedule(later, warmup_steps, total_steps),
        ),
{
    assert(earlier * warmup_steps < later * warmup_steps) by (nonlinear_arith)
        requires
            earlier < later,
            0 < warmup_steps,
    ;
}

/// From the end of the warmup on the factor never rises from one step to
/// a later one, and up to the last step it falls.
pub proof fn lemma_decay_decreases(
    earlier: usize,
    later: usize,
    warmup_steps: usize,
    total_steps: usize,
)
    requires
        warmup_steps <= earlier < later,
    ensures
        schedule(later, warmup_steps, total_steps).le(
            schedule(earlier, warmup_steps, total_steps),
        ),
        earlier < total_steps ==> schedule(later, warmup_steps, total_steps).lt(
            schedule(earlier, warmup_steps, total_steps),
        ),
{
    let before = schedule(earlier, warmup_steps, total_steps);
    if later < total_steps {
        let span = (total_steps - warmup_steps) as int;
        assert((total_steps - later) * span < (total_steps - earlier) * span)
            by (nonlinear_arith)
            requires
                earlier < later,
                0 < span,
        ;
    } else {
        assert(0 * before.denominator == 0 && 0 <= before.numerator * 1);
    }
}

} // verus!
