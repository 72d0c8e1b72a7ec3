//! The attack / decay / sustain / release amplitude envelope.
//!
//! The envelope is a per-voice state machine advanced once per sample.  Each
//! timed segment follows a smooth exponential curve: every sample the
//! distance to the segment's target shrinks by a fixed per-sample factor
//! derived from the segment length, so segment boundaries carry no audible
//! click from a slope jump.  Segment times are integer milliseconds,
//! amplitudes are `SCALE` fixed point, and time within a segment is counted
//! in whole samples.
//!
//! Retrigger policy: a note-on discards any in-flight decay or release and
//! restarts the attack from amplitude 0.  A note-off is a no-op while the
//! envelope is still inactive.

use vstd::prelude::*;
use crate::synth::fixed::{SCALE, MAX_SAMPLE_RATE_HZ, MAX_TIME_MS, div_scale_nn};

verus! {

/// The envelope's segment: it starts `Inactive`, a note-on moves it to
/// `Attack`, elapsed time alone moves it `Attack` to `Decay` to `Sustain`,
/// a note-off moves it to `Release`, and elapsed time alone moves
/// `Release` back to `Inactive`.
#[derive(Clone, Copy, PartialEq, Eq, Structural, Debug)]
pub enum ADSRstate {
    Inactive,
    Attack,
    Decay,
    Sustain,
    Release,
}

/// The envelope: user-set segment times and sustain level, plus the
/// machine's own state, current amplitude, release snapshot, and time in
/// the current segment.
#[derive(Clone, Copy, PartialEq, Eq, Structural)]
pub struct ADSR {
    /// Attack time in milliseconds.
    pub attack: u64,
    /// Decay time in milliseconds.
    pub decay: u64,
    /// Sustain level, a gain in `[0, SCALE]`.
    pub sustain: i64,
    /// Release time in milliseconds.
    pub release: u64,
    /// Sample rate in hertz.
    pub sample_rate: u64,
    /// The current segment.
    pub state: ADSRstate,
    /// The last computed gain, always in `[0, SCALE]`.
    pub current_amplitude: i64,
    /// The amplitude snapshotted at the instant release began.
    pub release_start_amplitude: i64,
    /// Samples spent in the current timed segment.
    pub time_in_state: u64,
}

/// A segment time in milliseconds converted to whole samples.
pub open spec fn spec_ms_to_samples(ms: int, rate: int) -> int {
    (ms * rate) / 1000
}

/// The per-sample shrink factor of a segment that is `dur` samples long:
/// the fixed-point form of the exponential's constant ratio, chosen so
/// the distance to the segment target falls by about e^-3 over the whole
/// segment.  A degenerate segment shrinks all the way each sample.
pub open spec fn spec_decay_factor(dur: int) -> int {
    if dur <= 0 {
        0
    } else {
        let drop = (3 * (SCALE as int)) / dur;
        if drop >= SCALE {
            0
        } else {
            SCALE - drop
        }
    }
}

/// One attack step: the amplitude moves toward full scale by the
/// complement of the shrink factor.
pub open spec fn spec_attack_amp(amp: int, rho: int) -> int {
    amp + ((SCALE - rho) * (SCALE - amp)) / (SCALE as int)
}

/// One decay step: the distance above the sustain level shrinks.
pub open spec fn spec_decay_amp(amp: int, sustain: int, rho: int) -> int {
    sustain + (rho * (amp - sustain)) / (SCALE as int)
}

/// One release step: the amplitude itself shrinks toward silence.
pub open spec fn spec_release_amp(amp: int, rho: int) -> int {
    (rho * amp) / (SCALE as int)
}

impl ADSR {
    /// The attack length in samples.
    pub open spec fn spec_attack_samples(&self) -> int {
        spec_ms_to_samples(self.attack as int, self.sample_rate as int)
    }

    /// The decay length in samples.
    pub open spec fn spec_decay_samples(&self) -> int {
        spec_ms_to_samples(self.decay as int, self.sample_rate as int)
    }

    /// The release length in samples.
    pub open spec fn spec_release_samples(&self) -> int {
        spec_ms_to_samples(self.release as int, self.sample_rate as int)
    }

    /// Well-formedness: parameters in range, the amplitude clamped to
    /// `[0, SCALE]`, and each segment's bookkeeping consistent with it.
    pub open spec fn wf(&self) -> bool {
        &&& self.attack <= MAX_TIME_MS
        &&& self.decay <= MAX_TIME_MS
        &&& self.release <= MAX_TIME_MS
        &&& 1 <= self.sample_rate <= MAX_SAMPLE_RATE_HZ
        &&& 0 <= self.sustain <= SCALE
        &&& 0 <= self.current_amplitude <= SCALE
        &&& 0 <= self.release_start_amplitude <= SCALE
        &&& (self.state is Inactive ==> self.current_amplitude == 0 && self.time_in_state == 0)
        &&& (self.state is Attack ==> self.time_in_state <= self.spec_attack_samples())
        &&& (self.state is Decay ==> self.time_in_state <= self.spec_decay_samples()
            && self.sustain <= self.current_amplitude)
        &&& (self.state is Sustain ==> self.current_amplitude == self.sustain
            && self.time_in_state == 0)
        &&& (self.state is Release ==> self.time_in_state <= self.spec_release_samples()
            && self.current_amplitude <= self.release_start_amplitude)
    }

    /// The envelope after a note-on: restart the attack from amplitude 0,
    /// whatever was in flight.
    pub open spec fn spec_note_on(self) -> ADSR {
        ADSR { state: ADSRstate::Attack, time_in_state: 0, current_amplitude: 0, ..self }
    }

    /// The envelope after a note-off: snapshot the amplitude and begin the
    /// release; from `Inactive` a note-off is a no-op.
    pub open spec fn spec_note_off(self) -> ADSR {
        if self.state is Inactive {
            self
        } else {
            ADSR {
                state: ADSRstate::Release,
                time_in_state: 0,
                release_start_amplitude: self.current_amplitude,
                ..self
            }
        }
    }

    /// The envelope after one sample: advance the segment clock, update
    /// the amplitude along the segment's curve, and take any transition
    /// that the elapsed time forces.
    pub open spec fn spec_step(self) -> ADSR {
        match self.state {
            ADSRstate::Inactive => ADSR { current_amplitude: 0, ..self },
            ADSRstate::Attack => {
                let t = self.time_in_state + 1;
                if t >= self.spec_attack_samples() {
                    ADSR {
                        state: ADSRstate::Decay,
                        time_in_state: 0,
                        current_amplitude: SCALE,
                        ..self
                    }
                } else {
                    let rho = spec_decay_factor(self.spec_attack_samples());
                    ADSR {
                        time_in_state: t as u64,
                        current_amplitude: spec_attack_amp(
                            self.current_amplitude as int,
                            rho,
                        ) as i64,
                        ..self
                    }
                }
            },
            ADSRstate::Decay => {
                let t = self.time_in_state + 1;
                if t >= self.spec_decay_samples() {
                    ADSR {
                        state: ADSRstate::Sustain,
                        time_in_state: 0,
                        current_amplitude: self.sustain,
                        ..self
                    }
                } else {
                    let rho = spec_decay_factor(self.spec_decay_samples());
                    ADSR {
                        time_in_state: t as u64,
                        current_amplitude: spec_decay_amp(
                            self.current_amplitude as int,
                            self.sustain as int,
                            rho,
                        ) as i64,
                        ..self
                    }
                }
            },
            ADSRstate::Sustain => ADSR { current_amplitude: self.sustain, ..self },
            ADSRstate::Release => {
                let t = self.time_in_state + 1;
                if t >= self.spec_release_samples() {
                    ADSR {
                        state: ADSRstate::Inactive,
                        time_in_state: 0,
                        current_amplitude: 0,
                        ..self
                    }
                } else {
                    let rho = spec_decay_factor(self.spec_release_samples());
                    ADSR {
                        time_in_state: t as u64,
                        current_amplitude: spec_release_amp(
                            self.current_amplitude as int,
                            rho,
                        ) as i64,
                        ..self
                    }
                }
            },
        }
    }

    /// The envelope after `n` samples with no note events in between.
    pub open spec fn spec_run(self, n: nat) -> ADSR
        decreases n,
    {
        if n == 0 {
            self
        } else {
            self.spec_run((n - 1) as nat).spec_step()
        }
    }

    /// A fresh envelope: inactive and silent, with the given segment
    /// times (milliseconds), sustain level, and sample rate.
    pub fn new(attack: u64, decay: u64, sustain: i64, release: u64, sample_rate: u64) -> (e:
        ADSR)
        requires
            attack <= MAX_TIME_MS,
            decay <= MAX_TIME_MS,
            release <= MAX_TIME_MS,
            0 <= sustain <= SCALE,
            1 <= sample_rate <= MAX_SAMPLE_RATE_HZ,
        ensures
            e == (ADSR {
                attack,
                decay,
                sustain,
                release,
                sample_rate,
                state: ADSRstate::Inactive,
                current_amplitude: 0,
                release_start_amplitude: 0,
                time_in_state: 0,
            }),
            e.wf(),
    {
        ADSR {
            attack,
            decay,
            sustain,
            release,
            sample_rate,
            state: ADSRstate::Inactive,
            current_amplitude: 0,
            release_start_amplitude: 0,
            time_in_state: 0,
        }
    }

    /// Start (or restart) the attack segment.
    pub fn note_on(&mut self)
        requires
            old(self).wf(),
        ensures
            *final(self) == old(self).spec_note_on(),
            final(self).wf(),
    {
        self.state = ADSRstate::Attack;
        self.time_in_state = 0;
        self.current_amplitude = 0;
    }

    /// Begin the release segment from the current amplitude; a no-op
    /// while the envelope is inactive.
    pub fn note_off(&mut self)
        requires
            old(self).wf(),
        ensures
            *final(self) == old(self).spec_note_off(),
            final(self).wf(),
    {
        if !matches!(self.state, ADSRstate::Inactive) {
            self.release_start_amplitude = self.current_amplitude;
            self.state = ADSRstate::Release;
            self.time_in_state = 0;
        }
    }

    /// Advance the envelope by one sample and return the gain for this
    /// sample, clamped to `[0, SCALE]`.
    pub fn next_sample(&mut self) -> (amp: i64)
        requires
            old(self).wf(),
        ensures
            *final(self) == old(self).spec_step(),
            final(self).wf(),
            amp == final(self).current_amplitude,
            0 <= amp <= SCALE,
    {
        proof {
            lemma_step_wf(*old(self));
        }
        match self.state {
            ADSRstate::Inactive => {
                self.current_amplitude = 0;
            },
            ADSRstate::Attack => {
                let dur: u64 = samples_of(self.attack, self.sample_rate);
                let t: u64 = self.time_in_state + 1;
                if t >= dur {
                    self.state = ADSRstate::Decay;
                    self.time_in_state = 0;
                    self.current_amplitude = SCALE;
                } else {
                    let rho: i64 = decay_factor(dur);
                    let gap: i64 = SCALE - self.current_amplitude;
                    proof {
                        assert(0 <= (SCALE - rho) * gap <= 1_000_000_000_000) by (nonlinear_arith)
                            requires
                                0 <= SCALE - rho <= 1_000_000,
                                0 <= gap <= 1_000_000,
                        ;
                    }
                    let rise: i64 = div_scale_nn((SCALE - rho) * gap);
                    proof {
                        assert((SCALE - rho) * gap <= SCALE * gap) by (nonlinear_arith)
                            requires
                                0 <= SCALE - rho <= SCALE,
                                gap >= 0,
                        ;
                        assert(SCALE * gap / (SCALE as int) == gap) by (nonlinear_arith)
                            requires
                                gap >= 0,
                        ;
                        vstd::arithmetic::div_mod::lemma_div_is_ordered(
                            (SCALE - rho) * gap,
                            SCALE * gap,
                            SCALE as int,
                        );
                    }
                    self.time_in_state = t;
                    self.current_amplitude = self.current_amplitude + rise;
                }
            },
            ADSRstate::Decay => {
                let dur: u64 = samples_of(self.decay, self.sample_rate);
                let t: u64 = self.time_in_state + 1;
                if t >= dur {
                    self.state = ADSRstate::Sustain;
                    self.time_in_state = 0;
                    self.current_amplitude = self.sustain;
                } else {
                    let rho: i64 = decay_factor(dur);
                    let over: i64 = self.current_amplitude - self.sustain;
                    proof {
                        assert(0 <= rho * over <= 1_000_000_000_000) by (nonlinear_arith)
                            requires
                                0 <= rho <= 1_000_000,
                                0 <= over <= 1_000_000,
                        ;
                    }
                    let kept: i64 = div_scale_nn(rho * over);
                    proof {
                        assert(rho * over <= SCALE * over) by (nonlinear_arith)
                            requires
                                0 <= rho <= SCALE,
                                over >= 0,
                        ;
                        assert(SCALE * over / (SCALE as int) == over) by (nonlinear_arith)
                            requires
                                over >= 0,
                        ;
                        vstd::arithmetic::div_mod::lemma_div_is_ordered(
                            rho * over,
                            SCALE * over,
                            SCALE as int,
                        );
                    }
                    self.time_in_state = t;
                    self.current_amplitude = self.sustain + kept;
                }
            },
            ADSRstate::Sustain => {
                self.current_amplitude = self.sustain;
            },
            ADSRstate::Release => {
                let dur: u64 = samples_of(self.release, self.sample_rate);
                let t: u64 = self.time_in_state + 1;
                if t >= dur {
                    self.state = ADSRstate::Inactive;
                    self.time_in_state = 0;
                    self.current_amplitude = 0;
                } else {
                    let rho: i64 = decay_factor(dur);
                    let cur: i64 = self.current_amplitude;
                    proof {
                        assert(0 <= rho * cur <= 1_000_000_000_000) by (nonlinear_arith)
                            requires
                                0 <= rho <= 1_000_000,
                                0 <= cur <= 1_000_000,
                        ;
                    }
                    let kept: i64 = div_scale_nn(rho * cur);
                    proof {
                        assert(rho * cur <= SCALE * cur) by (nonlinear_arith)
                            requires
                                0 <= rho <= SCALE,
                                cur >= 0,
                        ;
                        assert(SCALE * cur / (SCALE as int) == cur) by (nonlinear_arith)
                            requires
                                cur >= 0,
                        ;
                        vstd::arithmetic::div_mod::lemma_div_is_ordered(
                            rho * cur,
                            SCALE * cur,
                            SCALE as int,
                        );
                    }
                    self.time_in_state = t;
                    self.current_amplitude = kept;
                }
            },
        }
        self.current_amplitude
    }

    /// The current segment.
    pub fn current_state(self) -> (s: ADSRstate)
        ensures
            s == self.state,
    {
        self.state
    }

    /// Whether the envelope has fallen silent.
    pub fn is_finished(&self) -> (b: bool)
        ensures
            b == (self.state is Inactive),
    {
        matches!(self.state, ADSRstate::Inactive)
    }
}

/// A segment time in milliseconds as a whole number of samples.
fn samples_of(ms: u64, rate: u64) -> (n: u64)
    requires
        ms <= MAX_TIME_MS,
        rate <= MAX_SAMPLE_RATE_HZ,
    ensures
        n == spec_ms_to_samples(ms as int, rate as int),
        n <= 4_000_000_000_000,
{
    proof {
        assert((ms as int) * (rate as int) <= 3_600_000_000_000_000) by (nonlinear_arith)
            requires
                0 <= ms <= MAX_TIME_MS,
                0 <= rate <= MAX_SAMPLE_RATE_HZ,
        ;
    }
    (ms * rate) / 1000
}

/// The per-sample shrink factor for a segment `dur` samples long.
fn decay_factor(dur: u64) -> (r: i64)
    requires
        dur <= 4_000_000_000_000,
    ensures
        r == spec_decay_factor(dur as int),
        0 <= r <= SCALE,
{
    if dur == 0 {
        0
    } else {
        let drop: u64 = (3 * 1_000_000u64) / dur;
        if drop >= 1_000_000 {
            0
        } else {
            SCALE - (drop as i64)
        }
    }
}

/// One envelope step preserves well-formedness.
pub proof fn lemma_step_wf(e: ADSR)
    requires
        e.wf(),
    ensures
        e.spec_step().wf(),
        0 <= e.spec_step().current_amplitude <= SCALE,
{
    let s = SCALE as int;
    match e.state {
        ADSRstate::Attack => {
            let t = e.time_in_state + 1;
            if !(t >= e.spec_attack_samples()) {
                let rho = spec_decay_factor(e.spec_attack_samples());
                let gap = s - e.current_amplitude;
                assert(0 <= (s - rho) * gap <= s * gap) by (nonlinear_arith)
                    requires
                        0 <= s - rho <= s,
                        gap >= 0,
                ;
                assert(s * gap / s == gap) by (nonlinear_arith)
                    requires
                        gap >= 0,
                        s > 0,
                ;
                vstd::arithmetic::div_mod::lemma_div_is_ordered((s - rho) * gap, s * gap, s);
                vstd::arithmetic::div_mod::lemma_div_is_ordered(0, (s - rho) * gap, s);
            }
        },
        ADSRstate::Decay => {
            let t = e.time_in_state + 1;
            if !(t >= e.spec_decay_samples()) {
                let rho = spec_decay_factor(e.spec_decay_samples());
                let over = e.current_amplitude - e.sustain;
                assert(0 <= rho * over <= s * over) by (nonlinear_arith)
                    requires
                        0 <= rho <= s,
                        over >= 0,
                ;
                assert(s * over / s == over) by (nonlinear_arith)
                    requires
                        over >= 0,
                        s > 0,
                ;
                vstd::arithmetic::div_mod::lemma_div_is_ordered(rho * over, s * over, s);
                vstd::arithmetic::div_mod::lemma_div_is_ordered(0, rho * over, s);
            }
        },
        ADSRstate::Release => {
            let t = e.time_in_state + 1;
            if !(t >= e.spec_release_samples()) {
                let rho = spec_decay_factor(e.spec_release_samples());
                let amp = e.current_amplitude as int;
                assert(0 <= rho * amp <= s * amp) by (nonlinear_arith)
                    requires
                        0 <= rho <= s,
                        amp >= 0,
                ;
                assert(s * amp / s == amp) by (nonlinear_arith)
                    requires
                        amp >= 0,
                        s > 0,
                ;
                vstd::arithmetic::div_mod::lemma_div_is_ordered(rho * amp, s * amp, s);
                vstd::arithmetic::div_mod::lemma_div_is_ordered(0, rho * amp, s);
            }
        },
        _ => {},
    }
}

/// Running the envelope preserves well-formedness.
pub proof fn lemma_run_wf(e: ADSR, n: nat)
    requires
        e.wf(),
    ensures
        e.spec_run(n).wf(),
    decreases n,
{
    if n > 0 {
        lemma_run_wf(e, (n - 1) as nat);
        lemma_step_wf(e.spec_run((n - 1) as nat));
    }
}

/// During the attack the amplitude never falls: one step either raises it
/// along the attack curve or hands it to the decay at full scale.
pub proof fn lemma_attack_nondecreasing(e: ADSR)
    requires
        e.wf(),
        e.state is Attack,
    ensures
        e.spec_step().current_amplitude >= e.current_amplitude,
        e.spec_step().state is Attack || e.spec_step().state is Decay,
{
    let s = SCALE as int;
    let t = e.time_in_state + 1;
    if !(t >= e.spec_attack_samples()) {
        let rho = spec_decay_factor(e.spec_attack_samples());
        let gap = s - e.current_amplitude;
        assert(0 <= (s - rho) * gap <= s * gap) by (nonlinear_arith)
            requires
                0 <= s - rho <= s,
                gap >= 0,
        ;
        assert(s * gap / s == gap) by (nonlinear_arith)
            requires
                gap >= 0,
                s > 0,
        ;
        vstd::arithmetic::div_mod::lemma_div_is_ordered(0, (s - rho) * gap, s);
        vstd::arithmetic::div_mod::lemma_div_is_ordered((s - rho) * gap, s * gap, s);
    }
}

/// A run of envelope steps never changes the user-set parameters.
pub proof fn lemma_run_config(e: ADSR, n: nat)
    ensures
        e.spec_run(n).attack == e.attack,
        e.spec_run(n).decay == e.decay,
        e.spec_run(n).sustain == e.sustain,
        e.spec_run(n).release == e.release,
        e.spec_run(n).sample_rate == e.sample_rate,
    decreases n,
{
    if n > 0 {
        lemma_run_config(e, (n - 1) as nat);
    }
}

/// Elapsed time alone never releases a note: from attack, decay, or
/// sustain, a step without a note-off stays in attack, decay, or sustain.
pub proof fn lemma_no_auto_release(e: ADSR)
    requires
        e.wf(),
        e.state is Attack || e.state is Decay || e.state is Sustain,
    ensures
        e.spec_step().state is Attack || e.spec_step().state is Decay || e.spec_step().state
            is Sustain,
{
}

/// A sustained envelope holds the configured sustain level exactly, for
/// as long as no note-off arrives.
pub proof fn lemma_sustain_holds(e: ADSR, n: nat)
    requires
        e.wf(),
        e.state is Sustain,
    ensures
        e.spec_run(n).state is Sustain,
        e.spec_run(n).current_amplitude == e.sustain,
    decreases n,
{
    if n > 0 {
        lemma_sustain_holds(e, (n - 1) as nat);
    }
}

/// Without a note event the envelope never releases: a whole run from
/// attack, decay, or sustain stays within attack, decay, and sustain.
pub proof fn lemma_no_auto_release_run(e: ADSR, n: nat)
    requires
        e.wf(),
        e.state is Attack || e.state is Decay || e.state is Sustain,
    ensures
        e.spec_run(n).state is Attack || e.spec_run(n).state is Decay || e.spec_run(n).state
            is Sustain,
    decreases n,
{
    if n > 0 {
        lemma_no_auto_release_run(e, (n - 1) as nat);
        lemma_run_wf(e, (n - 1) as nat);
        lemma_no_auto_release(e.spec_run((n - 1) as nat));
    }
}

/// After a release has begun the amplitude never rises again, the state
/// never leaves release or inactive, and an inactive envelope is frozen
/// silent.
pub proof fn lemma_release_nonincreasing(e: ADSR)
    requires
        e.wf(),
        e.state is Release || e.state is Inactive,
    ensures
        e.spec_step().current_amplitude <= e.current_amplitude,
        e.spec_step().state is Release || e.spec_step().state is Inactive,
        e.state is Inactive ==> e.spec_step() == e,
{
    let s = SCALE as int;
    if e.state is Release {
        let t = e.time_in_state + 1;
        if !(t >= e.spec_release_samples()) {
            let rho = spec_decay_factor(e.spec_release_samples());
            let cur = e.current_amplitude as int;
            assert(rho * cur <= s * cur) by (nonlinear_arith)
                requires
                    0 <= rho <= s,
                    cur >= 0,
            ;
            assert(s * cur / s == cur) by (nonlinear_arith)
                requires
                    cur >= 0,
                    s > 0,
            ;
            vstd::arithmetic::div_mod::lemma_div_is_ordered(rho * cur, s * cur, s);
        }
    }
}

/// Over a whole run after a note-off the amplitude sequence is monotone
/// non-increasing.
pub proof fn lemma_release_monotone_run(e: ADSR, i: nat, j: nat)
    requires
        e.wf(),
        e.state is Release || e.state is Inactive,
        i <= j,
    ensures
        e.spec_run(j).current_amplitude <= e.spec_run(i).current_amplitude,
        e.spec_run(j).state is Release || e.spec_run(j).state is Inactive,
    decreases j,
{
    if j == 0 {
    } else if i == j {
        lemma_release_monotone_run(e, (i - 1) as nat, (j - 1) as nat);
        lemma_run_wf(e, (j - 1) as nat);
        lemma_release_nonincreasing(e.spec_run((j - 1) as nat));
    } else {
        lemma_release_monotone_run(e, i, (j - 1) as nat);
        lemma_run_wf(e, (j - 1) as nat);
        lemma_release_nonincreasing(e.spec_run((j - 1) as nat));
    }
}

/// While a run stays in release, the segment clock counts every step.
proof fn lemma_release_time(e: ADSR, k: nat)
    requires
        e.wf(),
        e.state is Release,
    ensures
        e.spec_run(k).state is Release ==> e.spec_run(k).time_in_state == e.time_in_state
            + k,
    decreases k,
{
    if k > 0 {
        let prev = e.spec_run((k - 1) as nat);
        lemma_release_time(e, (k - 1) as nat);
        lemma_run_wf(e, (k - 1) as nat);
        lemma_run_config(e, (k - 1) as nat);
        lemma_release_monotone_run(e, (k - 1) as nat, (k - 1) as nat);
        lemma_release_nonincreasing(prev);
        if e.spec_run(k).state is Release {
            assert(e.spec_run(k) == prev.spec_step());
            assert(prev.state is Release);
            assert(prev.time_in_state == e.time_in_state + (k - 1));
            let prod = (e.release as int) * (e.sample_rate as int);
            assert(0 <= prod <= 3_600_000_000_000_000) by (nonlinear_arith)
                requires
                    prod == (e.release as int) * (e.sample_rate as int),
                    0 <= e.release <= MAX_TIME_MS,
                    0 <= e.sample_rate <= MAX_SAMPLE_RATE_HZ,
            ;
            vstd::arithmetic::div_mod::lemma_div_is_ordered(prod, 3_600_000_000_000_000, 1000);
            vstd::arithmetic::div_mod::lemma_div_is_ordered(0, prod, 1000);
            assert(prev.time_in_state + 1 <= u64::MAX);
        }
    }
}

/// A release completes: at most one sample past the release length the
/// envelope is inactive with amplitude pinned at 0, and it stays so.
pub proof fn lemma_release_completes(e: ADSR, n: nat)
    requires
        e.wf(),
        e.state is Release,
        n > e.spec_release_samples(),
    ensures
        e.spec_run(n).state is Inactive,
        e.spec_run(n).current_amplitude == 0,
{
    lemma_release_monotone_run(e, n, n);
    lemma_run_wf(e, n);
    lemma_run_config(e, n);
    lemma_release_time(e, n);
}

/// While a run stays in attack, the segment clock counts every step.
proof fn lemma_attack_time(e: ADSR, k: nat)
    requires
        e.wf(),
        e.state is Attack,
    ensures
        e.spec_run(k).state is Attack ==> e.spec_run(k).time_in_state == e.time_in_state + k,
    decreases k,
{
    if k > 0 {
        let prev = e.spec_run((k - 1) as nat);
        lemma_attack_time(e, (k - 1) as nat);
        lemma_run_wf(e, (k - 1) as nat);
        lemma_run_config(e, (k - 1) as nat);
        if e.spec_run(k).state is Attack {
            assert(e.spec_run(k) == prev.spec_step());
            assert(prev.state is Attack);
            let prod = (e.attack as int) * (e.sample_rate as int);
            assert(0 <= prod <= 3_600_000_000_000_000) by (nonlinear_arith)
                requires
                    prod == (e.attack as int) * (e.sample_rate as int),
                    0 <= e.attack <= MAX_TIME_MS,
                    0 <= e.sample_rate <= MAX_SAMPLE_RATE_HZ,
            ;
            vstd::arithmetic::div_mod::lemma_div_is_ordered(prod, 3_600_000_000_000_000, 1000);
            vstd::arithmetic::div_mod::lemma_div_is_ordered(0, prod, 1000);
            assert(prev.time_in_state + 1 <= u64::MAX);
        }
    }
}

/// An attack completes: at most one sample past the attack length the
/// envelope has handed over to decay or sustain — never to release.
pub proof fn lemma_attack_completes(e: ADSR, n: nat)
    requires
        e.wf(),
        e.state is Attack,
        n > e.spec_attack_samples(),
    ensures
        !(e.spec_run(n).state is Attack),
        e.spec_run(n).state is Decay || e.spec_run(n).state is Sustain,
    decreases n,
{
    lemma_run_wf(e, n);
    lemma_run_config(e, n);
    lemma_attack_time(e, n);
    lemma_no_auto_release_run(e, n);
}

/// During an uninterrupted attack the amplitude sequence is monotone
/// non-decreasing, up to and including the hand-off into decay.
pub proof fn lemma_attack_monotone_run(e: ADSR, i: nat, j: nat)
    requires
        e.wf(),
        i <= j,
        forall|k: nat| k < j ==> (#[trigger] e.spec_run(k)).state is Attack,
    ensures
        e.spec_run(i).current_amplitude <= e.spec_run(j).current_amplitude,
    decreases j,
{
    if i < j {
        lemma_attack_monotone_run(e, i, (j - 1) as nat);
        lemma_run_wf(e, (j - 1) as nat);
        assert(e.spec_run((j - 1) as nat).state is Attack);
        lemma_attack_nondecreasing(e.spec_run((j - 1) as nat));
    }
}

} // verus!
