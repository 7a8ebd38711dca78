//! A one-pole lowpass filter in fixed point.
use vstd::prelude::*;
use crate::fixed::{UNIT, unit, ceil_div};

verus! {

/// One filter step: the output moves from `prev` toward `x` by the fraction
/// `alpha / UNIT` of the distance, rounded away from `prev`, so that any
/// nonzero coefficient makes progress and none overshoots.
pub open spec fn one_pole_step(prev: int, alpha: int, x: int) -> int {
    if x >= prev {
        prev + ceil_div(alpha * (x - prev), unit())
    } else {
        prev - ceil_div(alpha * (prev - x), unit())
    }
}

/// The output after feeding the constant `x` for `n` frames, starting from `prev`.
pub open spec fn settle(prev: int, alpha: int, x: int, n: nat) -> int
    decreases n,
{
    if n == 0 {
        prev
    } else {
        settle(one_pole_step(prev, alpha, x), alpha, x, (n - 1) as nat)
    }
}

proof fn lemma_increment_bounds(alpha: int, d: int)
    requires
        0 <= alpha <= unit(),
        0 <= d,
    ensures
        0 <= ceil_div(alpha * d, unit()) <= d,
        alpha > 0 && d > 0 ==> ceil_div(alpha * d, unit()) >= 1,
{
    let u = unit();
    assert(0 <= alpha * d <= u * d) by (nonlinear_arith)
        requires
            0 <= alpha <= u,
            0 <= d,
    ;
    assert(0 <= (alpha * d + u - 1) / u <= d) by (nonlinear_arith)
        requires
            0 <= alpha * d <= u * d,
            u > 0,
    ;
    if alpha > 0 && d > 0 {
        assert(alpha * d >= 1) by (nonlinear_arith)
            requires
                alpha > 0,
                d > 0,
        ;
        assert((alpha * d + u - 1) / u >= 1) by (nonlinear_arith)
            requires
                alpha * d >= 1,
                u > 0,
        ;
    }
}

/// Each step lands between the previous output and the input; with a nonzero
/// coefficient it comes strictly closer unless it is already there.
pub proof fn lemma_step_approaches(prev: int, alpha: int, x: int)
    requires
        0 <= alpha <= unit(),
    ensures
        prev <= x ==> prev <= one_pole_step(prev, alpha, x) <= x,
        x <= prev ==> x <= one_pole_step(prev, alpha, x) <= prev,
        alpha > 0 && prev < x ==> prev < one_pole_step(prev, alpha, x),
        alpha > 0 && x < prev ==> one_pole_step(prev, alpha, x) < prev,
        one_pole_step(x, alpha, x) == x,
{
    if x >= prev {
        lemma_increment_bounds(alpha, x - prev);
    } else {
        lemma_increment_bounds(alpha, prev - x);
    }
    lemma_increment_bounds(alpha, 0);
}

/// With the coefficient at one the output equals the input at once.
pub proof fn lemma_unit_coefficient_passes(prev: int, x: int)
    ensures
        one_pole_step(prev, unit(), x) == x,
{
    let u = unit();
    if x >= prev {
        vstd::arithmetic::div_mod::lemma_div_multiples_vanish_fancy(x - prev, u - 1, u);
        assert(u * (x - prev) + u - 1 == (x - prev) * u + (u - 1)) by (nonlinear_arith);
    } else {
        vstd::arithmetic::div_mod::lemma_div_multiples_vanish_fancy(prev - x, u - 1, u);
        assert(u * (prev - x) + u - 1 == (prev - x) * u + (u - 1)) by (nonlinear_arith);
    }
}

/// Fed a constant input, a filter with a nonzero coefficient reaches that input
/// exactly within as many frames as the input is far from the starting output.
pub proof fn lemma_settles(prev: int, alpha: int, x: int, n: nat)
    requires
        0 < alpha <= unit(),
        n >= (if x >= prev { x - prev } else { prev - x }),
    ensures
        settle(prev, alpha, x, n) == x,
    decreases n,
{
    lemma_step_approaches(prev, alpha, x);
    if n > 0 {
        lemma_settles(one_pole_step(prev, alpha, x), alpha, x, (n - 1) as nat);
    } else {
        assert(prev == x);
    }
}

#[derive(Clone, Copy, Debug)]
pub struct OnePoleLowpass {
    prev_output: i32,
    alpha: u64,
}

impl View for OnePoleLowpass {
    /// The last output and the coefficient.
    type V = (int, int);

    closed spec fn view(&self) -> (int, int) {
        (self.prev_output as int, self.alpha as int)
    }
}

impl OnePoleLowpass {
    /// The coefficient lies in `[0, UNIT]` and the last output is a sample.
    pub open spec fn wf(&self) -> bool {
        &&& 0 <= self@.1 <= unit()
        &&& i32::MIN <= self@.0 <= i32::MAX
    }

    /// A silent filter whose coefficient is one (no smoothing).
    pub fn new() -> (r: OnePoleLowpass)
        ensures
            r.wf(),
            r@ == (0int, unit()),
    {
        OnePoleLowpass { prev_output: 0, alpha: UNIT }
    }

    /// Sets the smoothing coefficient, `1 - exp(-2 pi cutoff / sample_rate)` in
    /// Q32, held to `[0, UNIT]`.
    pub fn set_cutoff(&mut self, coefficient: u64)
        requires
            old(self).wf(),
        ensures
            final(self).wf(),
            final(self)@ == (old(self)@.0, if coefficient > UNIT { unit() } else { coefficient as int }),
    {
        self.alpha = if coefficient > UNIT { UNIT } else { coefficient };
    }

    /// Filters one sample.
    pub fn process(&mut self, input: i32) -> (r: i32)
        requires
            old(self).wf(),
        ensures
            final(self).wf(),
            r == one_pole_step(old(self)@.0, old(self)@.1, input as int),
            final(self)@ == (r as int, old(self)@.1),
    {
        proof {
            lemma_step_approaches(self.prev_output as int, self.alpha as int, input as int);
        }
        let u: u128 = UNIT as u128;
        let a: u128 = self.alpha as u128;
        let output: i32 = if input >= self.prev_output {
            let d: u128 = (input as i64 - self.prev_output as i64) as u128;
            assert(a * d <= u * 0x1_0000_0000) by (nonlinear_arith)
                requires
                    a <= u,
                    d <= 0x1_0000_0000,
            ;
            let inc: u128 = (a * d + u - 1) / u;
            (self.prev_output as i64 + inc as i64) as i32
        } else {
            let d: u128 = (self.prev_output as i64 - input as i64) as u128;
            assert(a * d <= u * 0x1_0000_0000) by (nonlinear_arith)
                requires
                    a <= u,
                    d <= 0x1_0000_0000,
            ;
            let inc: u128 = (a * d + u - 1) / u;
            (self.prev_output as i64 - inc as i64) as i32
        };
        self.prev_output = output;
        output
    }

    /// Silences the filter and sets its coefficient back to one.
    pub fn reset(&mut self)
        ensures
            final(self).wf(),
            final(self)@ == (0int, unit()),
    {
        self.prev_output = 0;
        self.alpha = UNIT;
    }

    /// The last output.
    pub fn previous_output(&self) -> (r: i32)
        ensures
            r == self@.0,
    {
        self.prev_output
    }

    /// The smoothing coefficient in Q32.
    pub fn coefficient(&self) -> (r: u64)
        ensures
            r == self@.1,
    {
        self.alpha
    }
}

} // verus!
