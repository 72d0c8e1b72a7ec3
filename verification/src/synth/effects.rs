//! The effects chain: an ordered sequence of per-sample transforms.
//!
//! Today the chain holds at most one stage, a one-pole low-pass filter with
//! the recurrence `output = coeff * input + (1 - coeff) * previous_output`,
//! computed in `SCALE` fixed point with truncation toward zero.  The
//! coefficient is `dt / (rc + dt)` with `rc = 1 / (2*pi*cutoff)` and
//! `dt = 1 / sample_rate`, which reduces to
//! `2*pi*cutoff / (2*pi*cutoff + sample_rate)`; `2*pi` is approximated by
//! the rational `710 / 113`.  The cutoff is always clamped into
//! `(0, sample_rate / 2]` and the coefficient re-derived immediately after
//! every cutoff change, so it is never stale and always lies in `[0, 1)`.

use vstd::prelude::*;
use crate::synth::fixed::{
    SCALE,
    MAX_SAMPLE_RATE_HZ,
    spec_tdiv_scale,
    tdiv_scale,
    lemma_tdiv_scale_between,
    lemma_tdiv_scale_exact,
};

verus! {

/// The filter coefficient for a cutoff and sample rate, in `SCALE` fixed
/// point: `2*pi*cutoff / (2*pi*cutoff + rate)` with `2*pi ~ 710/113`.
pub open spec fn spec_coefficient(cutoff: int, rate: int) -> int {
    (710 * cutoff * (SCALE as int)) / (710 * cutoff + 113 * rate)
}

/// A requested cutoff clamped into `[1, rate / 2]` hertz.
pub open spec fn spec_clamp_cutoff(cutoff: int, rate: int) -> int {
    if cutoff < 1 {
        1
    } else if cutoff > rate / 2 {
        rate / 2
    } else {
        cutoff
    }
}

/// One filter step: the fixed-point one-pole recurrence.
pub open spec fn spec_lpf_output(coeff: int, prev: int, input: int) -> int {
    spec_tdiv_scale(coeff * input + (SCALE - coeff) * prev)
}

/// The filter state after feeding a constant input for `n` samples.
pub open spec fn spec_lpf_run(coeff: int, prev: int, input: int, n: nat) -> int
    decreases n,
{
    if n == 0 {
        prev
    } else {
        spec_lpf_output(coeff, spec_lpf_run(coeff, prev, input, (n - 1) as nat), input)
    }
}

/// A one-pole low-pass filter; its entire state is one retained output.
#[derive(Clone, Copy, PartialEq, Eq, Structural)]
pub struct LowPassFilter {
    /// Cutoff frequency in hertz, always in `[1, sample_rate / 2]`.
    pub cutoff_frequency: u64,
    /// Sample rate in hertz.
    pub sample_rate: u64,
    /// The previous output sample, the filter's feedback state.
    pub previous_output: i64,
    /// The feedback coefficient, always freshly derived from the cutoff.
    pub coefficient: i64,
}

impl LowPassFilter {
    /// Well-formedness: the cutoff is inside the stable band and the
    /// coefficient agrees with it.
    pub open spec fn wf(&self) -> bool {
        &&& 2 <= self.sample_rate <= MAX_SAMPLE_RATE_HZ
        &&& 1 <= self.cutoff_frequency <= self.sample_rate / 2
        &&& self.coefficient == spec_coefficient(
            self.cutoff_frequency as int,
            self.sample_rate as int,
        )
        &&& 0 <= self.coefficient < SCALE
        &&& -SCALE <= self.previous_output <= SCALE
    }

    /// A fresh filter with the requested cutoff clamped into the stable
    /// band and no retained state.
    pub fn new(cutoff_frequency: u64, sample_rate: u64) -> (f: LowPassFilter)
        requires
            2 <= sample_rate <= MAX_SAMPLE_RATE_HZ,
        ensures
            f.wf(),
            f.sample_rate == sample_rate,
            f.cutoff_frequency == spec_clamp_cutoff(cutoff_frequency as int, sample_rate as int),
            f.previous_output == 0,
    {
        let cutoff = clamp_cutoff(cutoff_frequency, sample_rate);
        let coefficient = coefficient_of(cutoff, sample_rate);
        LowPassFilter { cutoff_frequency: cutoff, sample_rate, previous_output: 0, coefficient }
    }

    /// Change the cutoff, clamped into the stable band; the coefficient is
    /// re-derived immediately.  The retained state is kept.
    pub fn set_cutoff_frequency(&mut self, cutoff_frequency: u64)
        requires
            old(self).wf(),
        ensures
            final(self).wf(),
            final(self).cutoff_frequency == spec_clamp_cutoff(
                cutoff_frequency as int,
                old(self).sample_rate as int,
            ),
            final(self).sample_rate == old(self).sample_rate,
            final(self).previous_output == old(self).previous_output,
            final(self).coefficient == spec_coefficient(
                final(self).cutoff_frequency as int,
                old(self).sample_rate as int,
            ),
    {
        self.cutoff_frequency = clamp_cutoff(cutoff_frequency, self.sample_rate);
        self.coefficient = coefficient_of(self.cutoff_frequency, self.sample_rate);
    }

    /// The current (clamped) cutoff frequency in hertz.
    pub fn get_cutoff_frequency(&self) -> (c: u64)
        ensures
            c == self.cutoff_frequency,
    {
        self.cutoff_frequency
    }

    /// Process a single sample through the low pass filter: the output
    /// always lies between the retained state and the input, and an input
    /// equal to the retained state passes through unchanged.
    pub fn process(&mut self, input: i64) -> (output: i64)
        requires
            old(self).wf(),
            -SCALE <= input <= SCALE,
        ensures
            final(self).wf(),
            output == spec_lpf_output(
                old(self).coefficient as int,
                old(self).previous_output as int,
                input as int,
            ),
            *final(self) == (LowPassFilter { previous_output: output, ..*old(self) }),
            old(self).previous_output <= input ==> old(self).previous_output <= output <= input,
            input <= old(self).previous_output ==> input <= output <= old(self).previous_output,
            -SCALE <= output <= SCALE,
            old(self).previous_output == input ==> output == input,
    {
        let c: i64 = self.coefficient;
        let p: i64 = self.previous_output;
        proof {
            assert(-1_000_000_000_000 <= c * input <= 1_000_000_000_000) by (nonlinear_arith)
                requires
                    0 <= c <= 1_000_000,
                    -1_000_000 <= input <= 1_000_000,
            ;
            assert(-1_000_000_000_000 <= (SCALE - c) * p <= 1_000_000_000_000)
                by (nonlinear_arith)
                requires
                    0 <= SCALE - c <= 1_000_000,
                    -1_000_000 <= p <= 1_000_000,
            ;
        }
        let v: i64 = c * input + (SCALE - c) * p;
        let output = tdiv_scale(v);
        proof {
            lemma_lpf_output_between(c as int, p as int, input as int);
            if p == input {
                lemma_lpf_fixed_point(c as int, input as int);
            }
        }
        self.previous_output = output;
        output
    }

    /// Clear the retained state without touching cutoff or coefficient.
    pub fn reset(&mut self)
        requires
            old(self).wf(),
        ensures
            final(self).wf(),
            *final(self) == (LowPassFilter { previous_output: 0, ..*old(self) }),
    {
        self.previous_output = 0;
    }
}

/// A requested cutoff clamped into `[1, rate / 2]` hertz.
fn clamp_cutoff(cutoff: u64, rate: u64) -> (c: u64)
    requires
        2 <= rate,
    ensures
        c == spec_clamp_cutoff(cutoff as int, rate as int),
        1 <= c <= rate / 2,
{
    let nyquist = rate / 2;
    if cutoff < 1 {
        1
    } else if cutoff > nyquist {
        nyquist
    } else {
        cutoff
    }
}

/// The fixed-point filter coefficient for a cutoff inside the stable band.
fn coefficient_of(cutoff: u64, rate: u64) -> (c: i64)
    requires
        2 <= rate <= MAX_SAMPLE_RATE_HZ,
        1 <= cutoff <= rate / 2,
    ensures
        c == spec_coefficient(cutoff as int, rate as int),
        0 <= c < SCALE,
{
    let num: u64 = 710 * cutoff * 1_000_000;
    let den: u64 = 710 * cutoff + 113 * rate;
    let q: u64 = num / den;
    assert(q < SCALE) by {
        assert(num < (SCALE as int) * den);
        assert(num / den < SCALE) by (nonlinear_arith)
            requires
                num < (SCALE as int) * den,
                den > 0,
                num >= 0,
        ;
    };
    q as i64
}

/// The steady state: a filter already resting at the input value returns
/// it exactly — the steady-state gain is one.
pub proof fn lemma_lpf_fixed_point(coeff: int, x: int)
    requires
        0 <= coeff <= SCALE,
        -SCALE <= x <= SCALE,
    ensures
        spec_lpf_output(coeff, x, x) == x,
{
    assert(coeff * x + (SCALE - coeff) * x == x * SCALE) by (nonlinear_arith);
    lemma_tdiv_scale_exact(x);
}

/// One filter step lands between the retained state and the input, so the
/// distance to a constant input never grows.
pub proof fn lemma_lpf_output_between(coeff: int, prev: int, input: int)
    requires
        0 <= coeff <= SCALE,
        -SCALE <= prev <= SCALE,
        -SCALE <= input <= SCALE,
    ensures
        ({
            let out = spec_lpf_output(coeff, prev, input);
            &&& prev <= input ==> prev <= out <= input
            &&& input <= prev ==> input <= out <= prev
            &&& -SCALE <= out <= SCALE
        }),
{
    let s = SCALE as int;
    let v = coeff * input + (s - coeff) * prev;
    let lo = if prev <= input {
        prev
    } else {
        input
    };
    let hi = if prev <= input {
        input
    } else {
        prev
    };
    assert(lo * s <= v <= hi * s) by (nonlinear_arith)
        requires
            0 <= coeff <= s,
            lo <= input <= hi,
            lo <= prev <= hi,
            v == coeff * input + (s - coeff) * prev,
    ;
    lemma_tdiv_scale_between(v, lo, hi);
}

/// With zero input a nonzero retained state strictly shrinks toward
/// silence, and a silent filter stays silent: the filter is stable.
pub proof fn lemma_lpf_zero_input_decays(coeff: int, prev: int)
    requires
        1 <= coeff <= SCALE,
        -SCALE <= prev <= SCALE,
    ensures
        ({
            let out = spec_lpf_output(coeff, prev, 0);
            &&& prev == 0 ==> out == 0
            &&& prev > 0 ==> 0 <= out < prev
            &&& prev < 0 ==> prev < out <= 0
        }),
{
    let s = SCALE as int;
    let v = (s - coeff) * prev;
    assert(coeff * 0 + (s - coeff) * prev == v) by (nonlinear_arith)
        requires
            v == (s - coeff) * prev,
    ;
    if prev > 0 {
        assert(0 <= v <= s * prev - prev) by (nonlinear_arith)
            requires
                1 <= coeff <= s,
                prev > 0,
                v == (s - coeff) * prev,
        ;
        assert(v / s < prev) by (nonlinear_arith)
            requires
                0 <= v <= s * prev - 1,
                prev > 0,
                s > 0,
        ;
        assert(v / s >= 0);
    } else if prev < 0 {
        let m = -v;
        assert(0 <= m <= s * (-prev) - (-prev)) by (nonlinear_arith)
            requires
                1 <= coeff <= s,
                prev < 0,
                v == (s - coeff) * prev,
                m == -v,
        ;
        assert(m / s < -prev) by (nonlinear_arith)
            requires
                0 <= m <= s * (-prev) - 1,
                prev < 0,
                s > 0,
        ;
        assert(m / s >= 0);
    }
}

/// Feeding a constant input converges to exactly that input — the
/// steady-state gain is one — whenever the state approaches the input
/// from the side away from zero: a non-negative input approached from
/// above, or a non-positive input approached from below.  Zero input from
/// any state is covered: the output decays to exactly 0.
pub proof fn lemma_lpf_constant_converges(coeff: int, prev: int, input: int, n: nat)
    requires
        1 <= coeff <= SCALE,
        -SCALE <= prev <= SCALE,
        -SCALE <= input <= SCALE,
        0 <= input <= prev || prev <= input <= 0,
        n + input >= prev,
        n + prev >= input,
    ensures
        spec_lpf_run(coeff, prev, input, n) == input,
    decreases n,
{
    let s = SCALE as int;
    if prev == input {
        lemma_lpf_run_at_fixed_point(coeff, input, n);
    } else {
        let out = spec_lpf_output(coeff, prev, input);
        if 0 <= input < prev {
            let v = coeff * input + (s - coeff) * prev;
            assert(s * input <= v <= s * prev - (prev - input)) by (nonlinear_arith)
                requires
                    1 <= coeff <= s,
                    0 <= input < prev,
                    v == coeff * input + (s - coeff) * prev,
            ;
            assert(v >= 0);
            assert(input <= v / s <= prev - 1) by (nonlinear_arith)
                requires
                    s * input <= v <= s * prev - 1,
                    s > 0,
                    v >= 0,
                    input >= 0,
            ;
            assert(out == v / s);
            lemma_lpf_constant_converges(coeff, out, input, (n - 1) as nat);
            lemma_lpf_run_shift(coeff, prev, input, (n - 1) as nat);
        } else {
            let v = coeff * input + (s - coeff) * prev;
            let m = -v;
            assert(s * (-input) <= m <= s * (-prev) - ((-prev) - (-input))) by (nonlinear_arith)
                requires
                    1 <= coeff <= s,
                    prev < input <= 0,
                    v == coeff * input + (s - coeff) * prev,
                    m == -v,
            ;
            assert(m >= 0);
            assert(-input <= m / s <= -prev - 1) by (nonlinear_arith)
                requires
                    s * (-input) <= m <= s * (-prev) - 1,
                    s > 0,
                    m >= 0,
                    -input >= 0,
            ;
            assert(v <= 0);
            assert(out == -(m / s));
            assert(prev + 1 <= out <= input);
            lemma_lpf_constant_converges(coeff, out, input, (n - 1) as nat);
            lemma_lpf_run_shift(coeff, prev, input, (n - 1) as nat);
        }
    }
}

/// A filter resting at the input stays there for any number of samples.
proof fn lemma_lpf_run_at_fixed_point(coeff: int, x: int, n: nat)
    requires
        0 <= coeff <= SCALE,
        -SCALE <= x <= SCALE,
    ensures
        spec_lpf_run(coeff, x, x, n) == x,
    decreases n,
{
    if n > 0 {
        lemma_lpf_run_at_fixed_point(coeff, x, (n - 1) as nat);
        lemma_lpf_fixed_point(coeff, x);
    }
}

/// Running `n + 1` samples from a state is running `n` samples from the
/// state after one step.
proof fn lemma_lpf_run_shift(coeff: int, prev: int, input: int, n: nat)
    ensures
        spec_lpf_run(coeff, prev, input, n + 1) == spec_lpf_run(
            coeff,
            spec_lpf_output(coeff, prev, input),
            input,
            n,
        ),
    decreases n,
{
    let stepped = spec_lpf_output(coeff, prev, input);
    if n > 0 {
        lemma_lpf_run_shift(coeff, prev, input, (n - 1) as nat);
        assert(spec_lpf_run(coeff, prev, input, n) == spec_lpf_run(
            coeff,
            stepped,
            input,
            (n - 1) as nat,
        ));
        assert(spec_lpf_run(coeff, prev, input, n + 1) == spec_lpf_output(
            coeff,
            spec_lpf_run(coeff, prev, input, n),
            input,
        ));
        assert(spec_lpf_run(coeff, stepped, input, n) == spec_lpf_output(
            coeff,
            spec_lpf_run(coeff, stepped, input, (n - 1) as nat),
            input,
        ));
    } else {
        assert(spec_lpf_run(coeff, prev, input, 1) == spec_lpf_output(
            coeff,
            spec_lpf_run(coeff, prev, input, 0),
            input,
        ));
    }
}

/// The ordered sequence of optional effect stages; the low-pass filter is
/// the first and currently only stage.
#[derive(Clone, Copy)]
pub struct EffectsChain {
    /// The optional low-pass stage.
    pub low_pass_filter: Option<LowPassFilter>,
}

impl EffectsChain {
    /// Every present stage is well-formed.
    pub open spec fn wf(&self) -> bool {
        match self.low_pass_filter {
            Option::Some(f) => f.wf(),
            Option::None => true,
        }
    }

    /// What the chain returns for one input sample.
    pub open spec fn spec_output(&self, input: int) -> int {
        match self.low_pass_filter {
            Option::Some(f) => spec_lpf_output(
                f.coefficient as int,
                f.previous_output as int,
                input,
            ),
            Option::None => input,
        }
    }

    /// The chain's state after processing one input sample.
    pub open spec fn spec_after(&self, input: int) -> EffectsChain {
        match self.low_pass_filter {
            Option::Some(f) => EffectsChain {
                low_pass_filter: Option::Some(
                    LowPassFilter { previous_output: self.spec_output(input) as i64, ..f },
                ),
            },
            Option::None => *self,
        }
    }

    /// An empty chain with no stages.
    pub fn new() -> (chain: EffectsChain)
        ensures
            chain == (EffectsChain { low_pass_filter: Option::<LowPassFilter>::None }),
            chain.wf(),
    {
        EffectsChain { low_pass_filter: Option::None }
    }

    /// Install (or replace) the low-pass stage with a fresh filter.
    pub fn add_low_pass_filter(&mut self, cutoff_frequency: u64, sample_rate: u64)
        requires
            2 <= sample_rate <= MAX_SAMPLE_RATE_HZ,
        ensures
            final(self).wf(),
            final(self).low_pass_filter matches Some(f) && f.sample_rate == sample_rate
                && f.cutoff_frequency == spec_clamp_cutoff(
                cutoff_frequency as int,
                sample_rate as int,
            ) && f.previous_output == 0,
    {
        self.low_pass_filter = Some(LowPassFilter::new(cutoff_frequency, sample_rate));
    }

    /// Remove the low pass filter from the effects chain.
    pub fn remove_low_pass_filter(&mut self)
        ensures
            *final(self) == (EffectsChain { low_pass_filter: Option::<LowPassFilter>::None }),
            final(self).wf(),
    {
        self.low_pass_filter = None;
    }

    /// Process a sample through all active effects in the chain, in their
    /// fixed order.  An empty chain passes the sample through unchanged.
    pub fn process(&mut self, input: i64) -> (output: i64)
        requires
            old(self).wf(),
            -SCALE <= input <= SCALE,
        ensures
            final(self).wf(),
            output == old(self).spec_output(input as int),
            *final(self) == old(self).spec_after(input as int),
            -SCALE <= output <= SCALE,
            old(self).low_pass_filter is None ==> output == input,
    {
        let mut output = input;
        if let Some(filter) = &mut self.low_pass_filter {
            output = filter.process(output);
        }
        output
    }

    /// Reset every stage's retained state; cutoffs and coefficients are
    /// untouched.
    pub fn reset(&mut self)
        requires
            old(self).wf(),
        ensures
            final(self).wf(),
            final(self).low_pass_filter == match old(self).low_pass_filter {
                Option::Some(f) => Option::Some(LowPassFilter { previous_output: 0, ..f }),
                Option::None => Option::<LowPassFilter>::None,
            },
    {
        if let Some(filter) = &mut self.low_pass_filter {
            filter.reset();
        }
    }
}

impl Default for EffectsChain {
    /// The default chain is empty.
    fn default() -> (chain: EffectsChain)
        ensures
            chain == (EffectsChain { low_pass_filter: Option::<LowPassFilter>::None }),
    {
        EffectsChain::new()
    }
}

} // verus!
