//! Step-decay annealing of the learning and exploration rates: every
//! `step_size` iterations the rate is multiplied by `decay / SCALE`,
//! rounding down. The schedule is a value handed to the player, so other
//! decay curves of the same family can be swapped in without touching the
//! player or the trainer.

use vstd::prelude::*;

verus! {

use crate::states::SCALE;

/// Default initial learning rate: three quarters of `SCALE`.
pub const INITIAL_LEARNING_RATE: u64 = 750_000;

/// Default initial exploration rate: a fifth of `SCALE`.
pub const INITIAL_EXPLORATION_RATE: u64 = 200_000;

/// Decay factor shared by the default schedules: nine tenths of `SCALE`.
pub const DEFAULT_DECAY: u64 = 900_000;

/// Rate left after applying `k` steps of decay `decay / SCALE` to
/// `initial`, rounding down after each step.
pub open spec fn decay_pow(initial: u64, decay: u64, k: nat) -> int
    decreases k,
{
    if k == 0 {
        initial as int
    } else {
        decay_pow(initial, decay, (k - 1) as nat) * decay / (SCALE as int)
    }
}

/// Decayed rates stay between zero and the initial rate.
pub proof fn lemma_decay_pow_bounds(initial: u64, decay: u64, k: nat)
    requires
        decay <= SCALE,
    ensures
        0 <= decay_pow(initial, decay, k) <= initial,
    decreases k,
{
    if k > 0 {
        lemma_decay_pow_bounds(initial, decay, (k - 1) as nat);
        let prev = decay_pow(initial, decay, (k - 1) as nat);
        assert(0 <= prev * decay <= prev * SCALE) by (nonlinear_arith)
            requires
                0 <= prev,
                0 <= decay <= SCALE,
        ;
        assert(0 <= prev * decay / (SCALE as int) <= prev) by (nonlinear_arith)
            requires
                0 <= prev * decay <= prev * SCALE,
                0 < SCALE,
        ;
    }
}

/// Applying more decay steps never increases the rate.
pub proof fn lemma_decay_pow_nonincreasing(initial: u64, decay: u64, k1: nat, k2: nat)
    requires
        decay <= SCALE,
        k1 <= k2,
    ensures
        decay_pow(initial, decay, k2) <= decay_pow(initial, decay, k1),
    decreases k2 - k1,
{
    if k2 > k1 {
        lemma_decay_pow_nonincreasing(initial, decay, k1, (k2 - 1) as nat);
        lemma_decay_pow_bounds(initial, decay, (k2 - 1) as nat);
        let prev = decay_pow(initial, decay, (k2 - 1) as nat);
        assert(0 <= prev * decay <= prev * SCALE) by (nonlinear_arith)
            requires
                0 <= prev,
                0 <= decay <= SCALE,
        ;
        assert(0 <= prev * decay / (SCALE as int) <= prev) by (nonlinear_arith)
            requires
                0 <= prev * decay <= prev * SCALE,
                0 < SCALE,
        ;
    }
}

/// A step-decay annealing schedule.
#[derive(Copy, Clone, Debug, PartialEq, Eq, Structural)]
pub struct Schedule {
    /// Multiplier applied once per step, as a fraction of `SCALE`.
    pub decay: u64,
    /// Number of iterations a step lasts.
    pub step_size: u32,
}

impl Schedule {
    /// A usable schedule decays by a factor strictly between zero and one
    /// and steps over a positive number of iterations.
    pub open spec fn wf(&self) -> bool {
        0 < self.decay < SCALE && self.step_size > 0
    }

    /// The rate this schedule yields for `initial` at `iteration`.
    pub open spec fn rate_spec(&self, initial: u64, iteration: u32) -> int {
        decay_pow(initial, self.decay, (iteration as int / self.step_size as int) as nat)
    }

    /// Compute the annealed rate for `initial` at `iteration`.
    pub fn rate(&self, initial: u64, iteration: u32) -> (r: u64)
        requires
            self.wf(),
            initial <= SCALE,
        ensures
            r as int == self.rate_spec(initial, iteration),
            r <= initial,
    {
        let k: u32 = iteration / self.step_size;
        let mut r: u64 = initial;
        let mut j: u32 = 0;
        while j < k
            invariant
                j <= k,
                r as int == decay_pow(initial, self.decay, j as nat),
                r <= initial,
                initial <= SCALE,
                self.wf(),
            decreases k - j,
        {
            proof {
                assert(r * self.decay <= SCALE * SCALE) by (nonlinear_arith)
                    requires
                        r <= SCALE,
                        self.decay <= SCALE,
                ;
                assert(r * self.decay / (SCALE as int) <= r) by (nonlinear_arith)
                    requires
                        0 < SCALE,
                        self.decay <= SCALE,
                        0 <= r,
                ;
            }
            r = (r * self.decay) / SCALE;
            j += 1;
        }
        r
    }
}

/// The default learning-rate schedule: decay nine tenths, step twenty.
pub open spec fn spec_default_learning_schedule() -> Schedule {
    Schedule { decay: DEFAULT_DECAY, step_size: 20 }
}

/// The default exploration-rate schedule: decay nine tenths, step ten.
pub open spec fn spec_default_exploration_schedule() -> Schedule {
    Schedule { decay: DEFAULT_DECAY, step_size: 10 }
}

/// The default learning-rate schedule.
pub fn default_learning_schedule() -> (s: Schedule)
    ensures
        s == spec_default_learning_schedule(),
        s.wf(),
{
    Schedule { decay: DEFAULT_DECAY, step_size: 20 }
}

/// The default exploration-rate schedule.
pub fn default_exploration_schedule() -> (s: Schedule)
    ensures
        s == spec_default_exploration_schedule(),
        s.wf(),
{
    Schedule { decay: DEFAULT_DECAY, step_size: 10 }
}

/// Learning rate at `iteration` under the default step-decay schedule.
pub fn learning_rate_function(initial_rate: u64, iteration: u32) -> (r: u64)
    requires
        initial_rate <= SCALE,
    ensures
        r as int == spec_default_learning_schedule().rate_spec(initial_rate, iteration),
        r <= initial_rate,
{
    let s = default_learning_schedule();
    s.rate(initial_rate, iteration)
}

/// Exploration rate at `iteration` under the default step-decay schedule.
pub fn exploration_rate_function(initial_rate: u64, iteration: u32) -> (r: u64)
    requires
        initial_rate <= SCALE,
    ensures
        r as int == spec_default_exploration_schedule().rate_spec(initial_rate, iteration),
        r <= initial_rate,
{
    let s = default_exploration_schedule();
    s.rate(initial_rate, iteration)
}

/// Annealing monotonicity: a step-decay schedule whose decay lies strictly
/// between zero and one yields the initial rate at iteration zero and a
/// rate that never increases as the iteration grows.
pub proof fn lemma_annealing_monotone(s: Schedule, initial: u64, i1: u32, i2: u32)
    requires
        s.wf(),
        i1 <= i2,
    ensures
        s.rate_spec(initial, 0) == initial,
        s.rate_spec(initial, i2) <= s.rate_spec(initial, i1),
{
    let step = s.step_size as int;
    assert(0int / step == 0) by (nonlinear_arith)
        requires
            0 < step,
    ;
    let k1 = i1 as int / step;
    let k2 = i2 as int / step;
    vstd::arithmetic::div_mod::lemma_div_is_ordered(i1 as int, i2 as int, step);
    vstd::arithmetic::div_mod::lemma_div_pos_is_pos(i1 as int, step);
    vstd::arithmetic::div_mod::lemma_div_pos_is_pos(i2 as int, step);
    lemma_decay_pow_nonincreasing(initial, s.decay, k1 as nat, k2 as nat);
}

} // verus!
