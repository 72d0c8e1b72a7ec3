//! Waveform oscillators.
//!
//! An oscillator advances a phase through one waveform cycle and returns the
//! waveform value at the current phase.  The phase is the exact rational
//! `phase / (1000 * sample_rate)` of a cycle, in `[0, 1)`: every sample it
//! advances by `frequency_mhz / (1000 * sample_rate)` — that is, by
//! frequency / sample rate cycles — and wraps to 0 when it reaches or passes
//! a full cycle, so it never grows unbounded.
//!
//! The sine waveform value is computed in fixed point with a rational
//! approximation of `sin(2*pi*phase)` that is exact at the quarter-cycle
//! points: 0 at phase 0 and 1/2, +1.0 at phase 1/4, -1.0 at phase 3/4.

use vstd::prelude::*;
use crate::synth::fixed::{SCALE, MAX_FREQ_MHZ, MAX_SAMPLE_RATE_HZ};

verus! {

/// The phase denominator for a sample rate: phases are counted in
/// thousandths of a sample-rate step, so a frequency in millihertz is
/// exactly one phase step per sample.
pub open spec fn phase_den(rate: int) -> int {
    1000 * rate
}

/// One phase advance: add the increment, wrapping to 0 at a full cycle.
pub open spec fn spec_phase_step(p: int, inc: int, den: int) -> int {
    if p + inc >= den {
        0
    } else {
        p + inc
    }
}

/// The phase after `k` advances from phase 0.
pub open spec fn spec_phase_at(inc: int, den: int, k: nat) -> int
    decreases k,
{
    if k == 0 {
        0
    } else {
        spec_phase_step(spec_phase_at(inc, den, (k - 1) as nat), inc, den)
    }
}

/// The number of samples in one full cycle starting from phase 0: the
/// smallest `n` with `n * inc >= den`, i.e. the ceiling of `den / inc`.
pub open spec fn spec_period(inc: int, den: int) -> int
    recommends
        inc >= 1,
{
    (den + inc - 1) / inc
}

/// The sine value over the first half cycle, for a phase numerator `p` with
/// `2 * p <= den`: a rational approximation of `sin(2*pi*p/den)` in `SCALE`
/// fixed point, built from `u = (p/den) * (1 - 2*p/den)`.
pub open spec fn spec_sine_half(p: int, den: int) -> int {
    let u = p * (den - 2 * p);
    let d = den * den;
    (32 * (SCALE as int) * u) / (5 * d - 8 * u)
}

/// The sine waveform value at phase `p / den`, in `SCALE` fixed point: the
/// first half cycle is non-negative, the second half is its mirror image.
pub open spec fn spec_sine_value(p: int, den: int) -> int {
    if 2 * p < den {
        spec_sine_half(p, den)
    } else {
        -spec_sine_half(p - den / 2, den)
    }
}

/// The square waveform value at phase `p / den` with the given duty
/// fraction (in `SCALE` fixed point): high while `p/den < duty/SCALE`.
pub open spec fn spec_square_value(p: int, den: int, duty: int) -> int {
    if (SCALE as int) * p < duty * den {
        SCALE as int
    } else {
        -(SCALE as int)
    }
}

/// The sine half-wave value is in `[0, SCALE]`.
pub proof fn lemma_sine_half_bounds(p: int, den: int)
    requires
        0 <= 2 * p <= den,
        2 <= den,
    ensures
        0 <= spec_sine_half(p, den) <= SCALE,
{
    let u = p * (den - 2 * p);
    let d = den * den;
    assert(0 <= 8 * u <= d) by (nonlinear_arith)
        requires
            0 <= 2 * p <= den,
            u == p * (den - 2 * p),
            d == den * den,
    ;
    assert(d >= 4) by (nonlinear_arith)
        requires
            den >= 2,
            d == den * den,
    ;
    let num = 32 * (SCALE as int) * u;
    let div = 5 * d - 8 * u;
    assert(div >= 4 * d >= 16);
    assert(num >= 0) by (nonlinear_arith)
        requires
            u >= 0,
            num == 32 * (SCALE as int) * u,
    ;
    assert(num / div >= 0);
    assert(num <= (SCALE as int) * div) by (nonlinear_arith)
        requires
            8 * u <= d,
            u >= 0,
            num == 32 * (SCALE as int) * u,
            div == 5 * d - 8 * u,
    ;
    assert(num / div <= SCALE) by (nonlinear_arith)
        requires
            num <= (SCALE as int) * div,
            div > 0,
            num >= 0,
    ;
}

/// The sine waveform value is always in `[-SCALE, SCALE]`.
pub proof fn lemma_sine_value_bounds(p: int, den: int)
    requires
        0 <= p < den,
        2 <= den,
        den % 2 == 0,
    ensures
        -SCALE <= spec_sine_value(p, den) <= SCALE,
{
    if 2 * p < den {
        lemma_sine_half_bounds(p, den);
    } else {
        let q = p - den / 2;
        assert(0 <= 2 * q <= den);
        lemma_sine_half_bounds(q, den);
    }
}

/// The waveform variants the core knows: two implemented, two reserved.
#[derive(Clone, Copy, PartialEq, Eq, Structural, Debug)]
pub enum WaveformType {
    Sine,
    Square,
    Sawtooth,
    Triangle,
}

impl WaveformType {
    /// Whether this variant has a working oscillator.  The reserved
    /// variants must never reach the sample path.
    pub open spec fn spec_implemented(&self) -> bool {
        self is Sine || self is Square
    }

    /// Whether this variant has a working oscillator.
    pub fn is_implemented(&self) -> (b: bool)
        ensures
            b == self.spec_implemented(),
    {
        matches!(self, WaveformType::Sine | WaveformType::Square)
    }
}

/// The common shape of every oscillator: frequency and sample rate access,
/// phase-increment upkeep, and the per-sample advance.
pub trait Oscillatable: Sized {
    /// Fields are in range and the phase increment agrees with the
    /// frequency (it is recomputed on every frequency change).
    spec fn wf(&self) -> bool;

    /// The frequency, in millihertz.
    spec fn freq_mhz(&self) -> int;

    /// The sample rate, in hertz.
    spec fn rate_hz(&self) -> int;

    /// The current phase numerator over `phase_den(rate_hz())`.
    spec fn phase_num(&self) -> int;

    /// The waveform value at the current phase, in `SCALE` fixed point.
    spec fn sample_value(&self) -> int;

    /// The oscillator state after one phase advance: the phase is stepped
    /// and wrapped, everything else is unchanged.
    spec fn advanced(&self) -> Self;

    /// Change the frequency; the phase increment is recomputed at once.
    fn set_frequency(&mut self, frequency: u64)
        requires
            old(self).wf(),
            1 <= frequency <= MAX_FREQ_MHZ,
        ensures
            final(self).wf(),
            final(self).freq_mhz() == frequency,
            final(self).rate_hz() == old(self).rate_hz(),
            final(self).phase_num() == old(self).phase_num(),
    ;

    /// The frequency, in millihertz.
    fn get_frequency(&self) -> (f: u64)
        requires
            self.wf(),
        ensures
            f == self.freq_mhz(),
    ;

    /// The sample rate, in hertz.
    fn get_sample_rate(&self) -> (r: u64)
        requires
            self.wf(),
        ensures
            r == self.rate_hz(),
    ;

    /// Recompute the phase increment from the current frequency.  On a
    /// well-formed oscillator the increment is already current, so the
    /// state does not change.
    fn set_phase_increment(&mut self)
        requires
            old(self).wf(),
        ensures
            *final(self) == *old(self),
    ;

    /// Return the waveform value at the current phase and advance the phase
    /// by the phase increment, wrapping to 0 at a full cycle.
    fn next(&mut self) -> (sample: i64)
        requires
            old(self).wf(),
        ensures
            final(self).wf(),
            sample == old(self).sample_value(),
            -SCALE <= sample <= SCALE,
            *final(self) == old(self).advanced(),
            final(self).phase_num() == spec_phase_step(
                old(self).phase_num(),
                old(self).freq_mhz(),
                phase_den(old(self).rate_hz()),
            ),
    ;
}

/// A sine-wave oscillator.
#[derive(Clone, Copy, PartialEq, Eq, Structural)]
pub struct Sine {
    /// Frequency in millihertz.
    pub frequency: u64,
    /// Sample rate in hertz, fixed for the oscillator's lifetime.
    pub sample_rate: u64,
    /// Phase numerator over `phase_den(sample_rate)`, always in `[0, den)`.
    pub phase: u64,
    /// Per-sample phase advance; always equal to `frequency`.
    pub phase_increment: u64,
}

impl Sine {
    /// A sine oscillator at phase 0 with its phase increment derived from
    /// the initial frequency.
    pub fn new(frequency: u64, sample_rate: u64) -> (osc: Sine)
        requires
            1 <= frequency <= MAX_FREQ_MHZ,
            1 <= sample_rate <= MAX_SAMPLE_RATE_HZ,
        ensures
            osc.wf(),
            osc.frequency == frequency,
            osc.sample_rate == sample_rate,
            osc.phase == 0,
    {
        let mut osc = Sine { frequency, sample_rate, phase: 0, phase_increment: 0 };
        osc.phase_increment = osc.frequency;
        osc
    }
}

impl Oscillatable for Sine {
    open spec fn wf(&self) -> bool {
        &&& 1 <= self.frequency <= MAX_FREQ_MHZ
        &&& 1 <= self.sample_rate <= MAX_SAMPLE_RATE_HZ
        &&& (self.phase as int) < phase_den(self.sample_rate as int)
        &&& self.phase_increment == self.frequency
    }

    open spec fn freq_mhz(&self) -> int {
        self.frequency as int
    }

    open spec fn rate_hz(&self) -> int {
        self.sample_rate as int
    }

    open spec fn phase_num(&self) -> int {
        self.phase as int
    }

    open spec fn sample_value(&self) -> int {
        spec_sine_value(self.phase as int, phase_den(self.sample_rate as int))
    }

    open spec fn advanced(&self) -> Sine {
        Sine {
            phase: spec_phase_step(
                self.phase as int,
                self.frequency as int,
                phase_den(self.sample_rate as int),
            ) as u64,
            ..*self
        }
    }

    fn set_frequency(&mut self, frequency: u64) {
        self.frequency = frequency;
        self.phase_increment = self.frequency;
    }

    fn get_frequency(&self) -> (f: u64) {
        self.frequency
    }

    fn get_sample_rate(&self) -> (r: u64) {
        self.sample_rate
    }

    fn set_phase_increment(&mut self) {
        self.phase_increment = self.frequency;
    }

    fn next(&mut self) -> (sample: i64) {
        let den: u64 = 1000 * self.sample_rate;
        let sample = sine_sample(self.phase, den);
        self.phase = self.phase + self.phase_increment;
        if self.phase >= den {
            self.phase = 0;
        }
        sample
    }
}

/// A square-wave oscillator with a configurable duty fraction.
#[derive(Clone, Copy, PartialEq, Eq, Structural)]
pub struct Square {
    /// Frequency in millihertz.
    pub frequency: u64,
    /// Sample rate in hertz, fixed for the oscillator's lifetime.
    pub sample_rate: u64,
    /// Phase numerator over `phase_den(sample_rate)`, always in `[0, den)`.
    pub phase: u64,
    /// Per-sample phase advance; always equal to `frequency`.
    pub phase_increment: u64,
    /// Fraction of the cycle spent high, in `SCALE` fixed point.
    pub duty: i64,
}

impl Square {
    /// A square oscillator at phase 0 with the given duty fraction.
    pub fn new(frequency: u64, sample_rate: u64, duty: i64) -> (osc: Square)
        requires
            1 <= frequency <= MAX_FREQ_MHZ,
            1 <= sample_rate <= MAX_SAMPLE_RATE_HZ,
            0 <= duty <= SCALE,
        ensures
            osc.wf(),
            osc.frequency == frequency,
            osc.sample_rate == sample_rate,
            osc.phase == 0,
            osc.duty == duty,
    {
        let mut osc = Square { frequency, sample_rate, phase: 0, phase_increment: 0, duty };
        osc.phase_increment = osc.frequency;
        osc
    }

    /// Change the duty fraction of the cycle spent high.
    pub fn set_duty(&mut self, duty: i64)
        requires
            old(self).wf(),
            0 <= duty <= SCALE,
        ensures
            final(self).wf(),
            *final(self) == (Square { duty, ..*old(self) }),
    {
        self.duty = duty;
    }
}

impl Oscillatable for Square {
    open spec fn wf(&self) -> bool {
        &&& 1 <= self.frequency <= MAX_FREQ_MHZ
        &&& 1 <= self.sample_rate <= MAX_SAMPLE_RATE_HZ
        &&& (self.phase as int) < phase_den(self.sample_rate as int)
        &&& self.phase_increment == self.frequency
        &&& 0 <= self.duty <= SCALE
    }

    open spec fn freq_mhz(&self) -> int {
        self.frequency as int
    }

    open spec fn rate_hz(&self) -> int {
        self.sample_rate as int
    }

    open spec fn phase_num(&self) -> int {
        self.phase as int
    }

    open spec fn sample_value(&self) -> int {
        spec_square_value(
            self.phase as int,
            phase_den(self.sample_rate as int),
            self.duty as int,
        )
    }

    open spec fn advanced(&self) -> Square {
        Square {
            phase: spec_phase_step(
                self.phase as int,
                self.frequency as int,
                phase_den(self.sample_rate as int),
            ) as u64,
            ..*self
        }
    }

    fn set_frequency(&mut self, frequency: u64) {
        self.frequency = frequency;
        self.phase_increment = self.frequency;
    }

    fn get_frequency(&self) -> (f: u64) {
        self.frequency
    }

    fn get_sample_rate(&self) -> (r: u64) {
        self.sample_rate
    }

    fn set_phase_increment(&mut self) {
        self.phase_increment = self.frequency;
    }

    fn next(&mut self) -> (sample: i64) {
        let den: u64 = 1000 * self.sample_rate;
        proof {
            assert((self.phase as int) * (SCALE as int) < 0x10000000000000000000000000000)
                by (nonlinear_arith)
                requires
                    0 <= self.phase < 1_000_000_000_000,
            ;
            assert((self.duty as int) * (den as int) < 0x10000000000000000000000000000)
                by (nonlinear_arith)
                requires
                    0 <= self.duty <= 1_000_000,
                    0 <= den <= 1_000_000_000,
            ;
        }
        let lhs: u128 = (self.phase as u128) * (SCALE as u128);
        let rhs: u128 = ((self.duty as u64) as u128) * (den as u128);
        let sample: i64 = if lhs < rhs {
            SCALE
        } else {
            -SCALE
        };
        self.phase = self.phase + self.phase_increment;
        if self.phase >= den {
            self.phase = 0;
        }
        sample
    }
}

/// A reserved sawtooth variant: it has no sample path yet.
#[derive(Clone, Copy)]
pub struct Sawtooth {}

/// A reserved triangle variant: it has no sample path yet.
#[derive(Clone, Copy)]
pub struct Triangle {}

/// One oscillator of any waveform.  Only the sine and square variants are
/// implemented: the reserved variants are never well-formed, so the sample
/// path can never be entered with one.
#[derive(Clone, Copy)]
pub enum Oscillator {
    Sine(Sine),
    Square(Square),
    Sawtooth(Sawtooth),
    Triangle(Triangle),
}

impl Oscillator {
    /// Well-formed means: an implemented variant whose oscillator is
    /// well-formed.
    pub open spec fn wf(&self) -> bool {
        match self {
            Oscillator::Sine(o) => o.wf(),
            Oscillator::Square(o) => o.wf(),
            Oscillator::Sawtooth(_) => false,
            Oscillator::Triangle(_) => false,
        }
    }

    /// The frequency, in millihertz.
    pub open spec fn spec_freq_mhz(&self) -> int {
        match self {
            Oscillator::Sine(o) => o.freq_mhz(),
            Oscillator::Square(o) => o.freq_mhz(),
            Oscillator::Sawtooth(_) => 0,
            Oscillator::Triangle(_) => 0,
        }
    }

    /// The sample rate, in hertz.
    pub open spec fn spec_rate_hz(&self) -> int {
        match self {
            Oscillator::Sine(o) => o.rate_hz(),
            Oscillator::Square(o) => o.rate_hz(),
            Oscillator::Sawtooth(_) => 0,
            Oscillator::Triangle(_) => 0,
        }
    }

    /// The current phase numerator.
    pub open spec fn spec_phase_num(&self) -> int {
        match self {
            Oscillator::Sine(o) => o.phase_num(),
            Oscillator::Square(o) => o.phase_num(),
            Oscillator::Sawtooth(_) => 0,
            Oscillator::Triangle(_) => 0,
        }
    }

    /// The waveform value at the current phase, in `SCALE` fixed point.
    pub open spec fn spec_sample_value(&self) -> int {
        match self {
            Oscillator::Sine(o) => o.sample_value(),
            Oscillator::Square(o) => o.sample_value(),
            Oscillator::Sawtooth(_) => 0,
            Oscillator::Triangle(_) => 0,
        }
    }

    /// The oscillator state after one phase advance.
    pub open spec fn spec_advanced(&self) -> Oscillator {
        match self {
            Oscillator::Sine(o) => Oscillator::Sine(o.advanced()),
            Oscillator::Square(o) => Oscillator::Square(o.advanced()),
            Oscillator::Sawtooth(_) => *self,
            Oscillator::Triangle(_) => *self,
        }
    }

    /// Return the waveform value at the current phase and advance the
    /// phase.  The reserved variants are excluded: they are not
    /// well-formed.
    pub fn next(&mut self) -> (sample: i64)
        requires
            old(self).wf(),
        ensures
            final(self).wf(),
            sample == old(self).spec_sample_value(),
            -SCALE <= sample <= SCALE,
            *final(self) == old(self).spec_advanced(),
    {
        match *self {
            Oscillator::Sine(mut osc) => {
                let sample = osc.next();
                *self = Oscillator::Sine(osc);
                sample
            },
            Oscillator::Square(mut osc) => {
                let sample = osc.next();
                *self = Oscillator::Square(osc);
                sample
            },
            Oscillator::Sawtooth(_) => unreached(),
            Oscillator::Triangle(_) => unreached(),
        }
    }
}

/// The sine waveform value at a phase numerator `p` over an even
/// denominator `den`, in `SCALE` fixed point.
fn sine_sample(p: u64, den: u64) -> (s: i64)
    requires
        p < den,
        2 <= den <= 1_000_000_000,
        den % 2 == 0,
    ensures
        s == spec_sine_value(p as int, den as int),
        -SCALE <= s <= SCALE,
{
    proof {
        lemma_sine_value_bounds(p as int, den as int);
    }
    let half = den / 2;
    if p < half {
        sine_half_sample(p, den)
    } else {
        -sine_half_sample(p - half, den)
    }
}

/// The sine value over the first half cycle, for `2 * p <= den`.
fn sine_half_sample(p: u64, den: u64) -> (s: i64)
    requires
        2 * (p as int) <= den as int,
        2 <= den <= 1_000_000_000,
    ensures
        s == spec_sine_half(p as int, den as int),
        0 <= s <= SCALE,
{
    proof {
        lemma_sine_half_bounds(p as int, den as int);
    }
    let pw: u128 = p as u128;
    let dw: u128 = den as u128;
    proof {
        assert((pw as int) * ((dw as int) - 2 * (pw as int)) <= (dw as int) * (dw as int)
            && (dw as int) * (dw as int) <= 1_000_000_000_000_000_000) by (nonlinear_arith)
            requires
                0 <= 2 * (pw as int) <= dw as int,
                dw <= 1_000_000_000,
        ;
    }
    let u: u128 = pw * (dw - 2 * pw);
    let d: u128 = dw * dw;
    assert(8 * u <= d) by (nonlinear_arith)
        requires
            0 <= 2 * pw <= dw,
            u == pw * (dw - 2 * pw),
            d == dw * dw,
    ;
    assert(d >= 4) by (nonlinear_arith)
        requires
            dw >= 2,
            d == dw * dw,
    ;
    let num: u128 = 32 * (SCALE as u128) * u;
    let div: u128 = 5 * d - 8 * u;
    assert(div >= 4 * d);
    let q: u128 = num / div;
    assert(num <= (SCALE as u128) * div) by (nonlinear_arith)
        requires
            8 * u <= d,
            u >= 0,
            num == 32 * (SCALE as u128) * u,
            div == 5 * d - 8 * u,
    ;
    assert(q <= SCALE) by (nonlinear_arith)
        requires
            num <= (SCALE as u128) * div,
            div > 0,
            num >= 0,
            q == num / div,
    ;
    q as i64
}

/// Advancing a well-formed oscillator keeps it well-formed and keeps its
/// frequency and sample rate.
pub proof fn lemma_oscillator_advanced_wf(o: Oscillator)
    requires
        o.wf(),
    ensures
        o.spec_advanced().wf(),
        o.spec_advanced().spec_freq_mhz() == o.spec_freq_mhz(),
        o.spec_advanced().spec_rate_hz() == o.spec_rate_hz(),
{
}

/// A well-formed oscillator's sample value lies in `[-SCALE, SCALE]`.
pub proof fn lemma_oscillator_sample_bounds(o: Oscillator)
    requires
        o.wf(),
    ensures
        -SCALE <= o.spec_sample_value() <= SCALE,
{
    match o {
        Oscillator::Sine(si) => {
            let den = phase_den(si.sample_rate as int);
            assert(2 <= den && den % 2 == 0) by (nonlinear_arith)
                requires
                    den == 1000 * (si.sample_rate as int),
                    1 <= si.sample_rate,
            ;
            lemma_sine_value_bounds(si.phase as int, den);
        },
        _ => {},
    }
}

/// The ceiling `(a + f - 1) / f` is the unique `m` with
/// `(m - 1) * f < a <= m * f`.
proof fn lemma_ceil_div_char(a: int, f: int)
    requires
        1 <= a,
        1 <= f,
    ensures
        ({
            let m = (a + f - 1) / f;
            &&& 1 <= m
            &&& (m - 1) * f < a <= m * f
        }),
{
    let x = a + f - 1;
    vstd::arithmetic::div_mod::lemma_fundamental_div_mod(x, f);
    vstd::arithmetic::div_mod::lemma_mod_bound(x, f);
    let m = x / f;
    let r = x % f;
    assert(m * f == f * m) by (nonlinear_arith);
    assert(m * f == a + f - 1 - r);
    assert((m - 1) * f == m * f - f) by (nonlinear_arith);
    assert(m >= 1) by (nonlinear_arith)
        requires
            m * f >= a,
            a >= 1,
            f >= 1,
    ;
}

/// Starting from phase 0, the phase after `k` advances within the first
/// period is exactly `k` increments, with no wrap yet.
pub proof fn lemma_phase_at_linear(inc: int, den: int, k: nat)
    requires
        1 <= inc,
        1 <= den,
        k < spec_period(inc, den),
    ensures
        spec_phase_at(inc, den, k) == k * inc,
        k * inc < den,
    decreases k,
{
    let n = spec_period(inc, den);
    lemma_ceil_div_char(den, inc);
    assert(k * inc <= (n - 1) * inc) by (nonlinear_arith)
        requires
            k <= n - 1,
            inc >= 1,
            k >= 0,
    ;
    if k == 0 {
        assert(0 * inc == 0) by (nonlinear_arith);
    } else {
        lemma_phase_at_linear(inc, den, (k - 1) as nat);
        assert((k - 1) * inc + inc == k * inc) by (nonlinear_arith);
    }
}

/// After one full period the phase has wrapped back to 0.
pub proof fn lemma_phase_period_wraps(inc: int, den: int)
    requires
        1 <= inc,
        1 <= den,
    ensures
        spec_phase_at(inc, den, spec_period(inc, den) as nat) == 0,
{
    let n = spec_period(inc, den);
    lemma_ceil_div_char(den, inc);
    lemma_phase_at_linear(inc, den, (n - 1) as nat);
    assert((n - 1) * inc + inc == n * inc) by (nonlinear_arith);
    assert(spec_phase_at(inc, den, n as nat) == spec_phase_step(
        spec_phase_at(inc, den, (n - 1) as nat),
        inc,
        den,
    ));
}

/// The phase sequence from phase 0 repeats with the period: sample `k`
/// and sample `k + period` see the same phase.
pub proof fn lemma_phase_periodic(inc: int, den: int, k: nat)
    requires
        1 <= inc,
        1 <= den,
    ensures
        spec_phase_at(inc, den, (k + spec_period(inc, den)) as nat) == spec_phase_at(
            inc,
            den,
            k,
        ),
    decreases k,
{
    let n = spec_period(inc, den);
    lemma_ceil_div_char(den, inc);
    if k == 0 {
        lemma_phase_period_wraps(inc, den);
    } else {
        lemma_phase_periodic(inc, den, (k - 1) as nat);
        assert((k + n) as nat == ((k - 1 + n) as nat) + 1);
    }
}

/// The phase from phase 0 always stays in `[0, den)`.
pub proof fn lemma_phase_at_range(inc: int, den: int, k: nat)
    requires
        1 <= inc,
        1 <= den,
    ensures
        0 <= spec_phase_at(inc, den, k) < den,
    decreases k,
{
    if k > 0 {
        lemma_phase_at_range(inc, den, (k - 1) as nat);
    }
}

/// For every frequency and sample rate, the sine output sequence from
/// phase 0 repeats after one period — the ceiling of den / freq samples,
/// which is exactly the sample rate over the frequency whenever the
/// frequency divides the phase denominator evenly — and every output
/// sample lies in `[-SCALE, SCALE]`.
pub proof fn lemma_sine_output_periodic(freq: int, rate: int, k: nat)
    requires
        1 <= freq <= MAX_FREQ_MHZ,
        1 <= rate <= MAX_SAMPLE_RATE_HZ,
    ensures
        ({
            let den = phase_den(rate);
            let n = spec_period(freq, den);
            &&& spec_sine_value(spec_phase_at(freq, den, (k + n) as nat), den)
                == spec_sine_value(spec_phase_at(freq, den, k), den)
            &&& -SCALE <= spec_sine_value(spec_phase_at(freq, den, k), den) <= SCALE
            &&& den % freq == 0 ==> n == den / freq
        }),
{
    let den = phase_den(rate);
    let n = spec_period(freq, den);
    assert(2 <= den && den % 2 == 0) by (nonlinear_arith)
        requires
            den == 1000 * rate,
            1 <= rate,
    ;
    lemma_phase_periodic(freq, den, k);
    lemma_phase_at_range(freq, den, k);
    lemma_sine_value_bounds(spec_phase_at(freq, den, k), den);
    if den % freq == 0 {
        vstd::arithmetic::div_mod::lemma_fundamental_div_mod(den, freq);
        lemma_ceil_div_char(den, freq);
        let q = den / freq;
        assert(n == q) by (nonlinear_arith)
            requires
                den == freq * q,
                (n - 1) * freq < den <= n * freq,
                freq >= 1,
        ;
    }
}

/// How many of the first `n` square-wave samples from phase 0 are high.
pub open spec fn spec_count_high(inc: int, den: int, duty: int, n: nat) -> int
    decreases n,
{
    if n == 0 {
        0
    } else {
        spec_count_high(inc, den, duty, (n - 1) as nat) + if spec_square_value(
            spec_phase_at(inc, den, (n - 1) as nat),
            den,
            duty,
        ) == SCALE {
            1int
        } else {
            0int
        }
    }
}

/// With duty 1/2, the first `n` samples of a period are high exactly
/// while the phase is still in the first half cycle.
proof fn lemma_count_high_half(freq: int, den: int, n: nat)
    requires
        1 <= freq,
        2 <= den,
        den % 2 == 0,
        n <= spec_period(freq, den),
    ensures
        ({
            let m = spec_period(freq, den / 2);
            spec_count_high(freq, den, SCALE as int / 2, n) == if n <= m {
                n as int
            } else {
                m
            }
        }),
    decreases n,
{
    let half = den / 2;
    let m = spec_period(freq, half);
    lemma_ceil_div_char(half, freq);
    if n > 0 {
        lemma_count_high_half(freq, den, (n - 1) as nat);
        let k = (n - 1) as nat;
        lemma_phase_at_linear(freq, den, k);
        let p = spec_phase_at(freq, den, k);
        assert((SCALE as int / 2) * den == SCALE * half) by (nonlinear_arith)
            requires
                den == 2 * half,
        ;
        assert((SCALE as int) * p < SCALE * half <==> p < half) by (nonlinear_arith);
        if p < half {
            assert(k * freq < half);
            assert(k < m) by (nonlinear_arith)
                requires
                    k * freq < half <= m * freq,
                    freq >= 1,
                    k >= 0,
            ;
        } else {
            assert(k * freq >= half);
            assert(k >= m) by (nonlinear_arith)
                requires
                    k * freq >= half > (m - 1) * freq,
                    freq >= 1,
                    m >= 1,
            ;
        }
    }
}

/// With duty 1/2, one full period from phase 0 emits as many high as low
/// samples, up to one extra high sample when the period length is odd.
pub proof fn lemma_square_balanced(freq: int, rate: int)
    requires
        1 <= freq <= MAX_FREQ_MHZ,
        1 <= rate <= MAX_SAMPLE_RATE_HZ,
    ensures
        ({
            let den = phase_den(rate);
            let n = spec_period(freq, den);
            let hi = spec_count_high(freq, den, SCALE as int / 2, n as nat);
            let lo = n - hi;
            0 <= hi - lo <= 1
        }),
{
    let den = phase_den(rate);
    assert(2 <= den && den % 2 == 0) by (nonlinear_arith)
        requires
            den == 1000 * rate,
            1 <= rate,
    ;
    let half = den / 2;
    let n = spec_period(freq, den);
    let m = spec_period(freq, half);
    lemma_ceil_div_char(den, freq);
    lemma_ceil_div_char(half, freq);
    vstd::arithmetic::div_mod::lemma_div_is_ordered(half + freq - 1, den + freq - 1, freq);
    lemma_count_high_half(freq, den, n as nat);
    let hi = spec_count_high(freq, den, SCALE as int / 2, n as nat);
    assert(hi == m);
    assert(n <= 2 * m) by (nonlinear_arith)
        requires
            (n - 1) * freq < den,
            den == 2 * half,
            half <= m * freq,
            freq >= 1,
    ;
    assert(n >= 2 * m - 1) by (nonlinear_arith)
        requires
            den <= n * freq,
            den == 2 * half,
            (m - 1) * freq < half,
            freq >= 1,
    ;
}

} // verus!
