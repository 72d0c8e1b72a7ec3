//! Voices and the voice manager.
//!
//! A voice is one sounding note: it owns its oscillator, envelope, and
//! effects chain by value, and applies them in the fixed order generate,
//! shape amplitude, filter.  The voice manager owns the live voices keyed
//! by note identity, mixes them down to one output sample per call, and
//! reaps voices whose envelopes have finished.

use vstd::prelude::*;
use crate::synth::fixed::{SCALE, MAX_FREQ_MHZ, MAX_SAMPLE_RATE_HZ, spec_tdiv_scale, tdiv_scale,
    lemma_tdiv_scale_between};
use crate::synth::oscillators::{Oscillator, WaveformType, Sine, Square,
    lemma_oscillator_advanced_wf, lemma_oscillator_sample_bounds};
use crate::synth::effects::{EffectsChain, lemma_lpf_output_between};
use crate::synth::adsr::{ADSR, lemma_step_wf};
use crate::synth::conf::SynthConfig;

verus! {

/// One sounding note: an oscillator, an envelope, and an effects chain,
/// owned by value, plus the originating frequency and an active flag.
#[derive(Clone, Copy)]
pub struct Voice {
    /// Which waveform this voice was spawned with.
    pub waveform: WaveformType,
    /// The voice's own oscillator.
    pub osci: Oscillator,
    /// The voice's own effects chain.
    pub effects: EffectsChain,
    /// The voice's own amplitude envelope.
    pub envelope: ADSR,
    /// The originating frequency in millihertz.
    pub frequency: u64,
    /// The sample rate in hertz, shared by all three sub-components.
    pub sample_rate: u64,
    /// Whether the voice still sounds; once false it stays false and the
    /// voice is eligible for removal.
    pub is_active: bool,
}

/// The voice a spawn builds: the envelope is pre-triggered to note-on and
/// the oscillator starts at phase 0 (a square wave with duty 1/2).
pub open spec fn spec_new_voice(
    waveform: WaveformType,
    effects: EffectsChain,
    envelope: ADSR,
    frequency: u64,
    sample_rate: u64,
) -> Voice {
    let osci = match waveform {
        WaveformType::Sine => Oscillator::Sine(
            Sine { frequency, sample_rate, phase: 0, phase_increment: frequency },
        ),
        WaveformType::Square => Oscillator::Square(
            Square { frequency, sample_rate, phase: 0, phase_increment: frequency, duty: 500_000 },
        ),
        WaveformType::Sawtooth => arbitrary(),
        WaveformType::Triangle => arbitrary(),
    };
    Voice {
        waveform,
        osci,
        effects,
        envelope: envelope.spec_note_on(),
        frequency,
        sample_rate,
        is_active: true,
    }
}

impl Voice {
    /// Well-formedness: every sub-component is well-formed and they agree
    /// on the frequency and the sample rate.
    pub open spec fn wf(&self) -> bool {
        &&& self.osci.wf()
        &&& self.effects.wf()
        &&& self.envelope.wf()
        &&& self.envelope.sample_rate == self.sample_rate
        &&& self.osci.spec_rate_hz() == self.sample_rate
        &&& self.osci.spec_freq_mhz() == self.frequency
        &&& 1 <= self.frequency <= MAX_FREQ_MHZ
        &&& 1 <= self.sample_rate <= MAX_SAMPLE_RATE_HZ
    }

    /// The sample the voice's next advance returns: the oscillator value,
    /// shaped by the envelope gain of the same advance, then filtered.
    pub open spec fn spec_output(&self) -> int {
        self.effects.spec_output(
            spec_tdiv_scale(
                self.envelope.spec_step().current_amplitude * self.osci.spec_sample_value(),
            ),
        )
    }

    /// The voice after one advance: all three sub-components stepped, and
    /// the active flag cleared once the envelope reports finished.
    pub open spec fn spec_after(&self) -> Voice {
        let scaled = spec_tdiv_scale(
            self.envelope.spec_step().current_amplitude * self.osci.spec_sample_value(),
        );
        Voice {
            osci: self.osci.spec_advanced(),
            envelope: self.envelope.spec_step(),
            effects: self.effects.spec_after(scaled),
            is_active: self.is_active && !(self.envelope.spec_step().state is Inactive),
            ..*self
        }
    }

    /// A new voice, already sounding: the envelope's note-on has fired.
    /// Only the implemented waveforms can be spawned.
    pub fn new(
        waveform: WaveformType,
        effects: EffectsChain,
        envelope: ADSR,
        frequency: u64,
        sample_rate: u64,
    ) -> (v: Voice)
        requires
            waveform.spec_implemented(),
            effects.wf(),
            envelope.wf(),
            envelope.sample_rate == sample_rate,
            1 <= frequency <= MAX_FREQ_MHZ,
            1 <= sample_rate <= MAX_SAMPLE_RATE_HZ,
        ensures
            v == spec_new_voice(waveform, effects, envelope, frequency, sample_rate),
            v.wf(),
    {
        let mut envelope = envelope;
        envelope.note_on();
        let osci = match waveform {
            WaveformType::Sine => Oscillator::Sine(Sine::new(frequency, sample_rate)),
            WaveformType::Square => Oscillator::Square(
                Square::new(frequency, sample_rate, 500_000),
            ),
            WaveformType::Sawtooth => unreached(),
            WaveformType::Triangle => unreached(),
        };
        Voice { waveform, osci, effects, envelope, frequency, sample_rate, is_active: true }
    }

    /// One output sample: generate, shape amplitude, filter, in that fixed
    /// order; then clear the active flag if the envelope just finished —
    /// the sample already computed is still returned.
    pub fn next_sample(&mut self) -> (sample: i64)
        requires
            old(self).wf(),
        ensures
            final(self).wf(),
            sample == old(self).spec_output(),
            *final(self) == old(self).spec_after(),
            -SCALE <= sample <= SCALE,
    {
        let osc_sample = self.osci.next();
        let amp = self.envelope.next_sample();
        proof {
            assert(-1_000_000_000_000 <= amp * osc_sample <= 1_000_000_000_000)
                by (nonlinear_arith)
                requires
                    0 <= amp <= 1_000_000,
                    -1_000_000 <= osc_sample <= 1_000_000,
            ;
            lemma_tdiv_scale_between((amp * osc_sample) as int, -(SCALE as int), SCALE as int);
        }
        let scaled = tdiv_scale(amp * osc_sample);
        let sample = self.effects.process(scaled);
        if self.envelope.is_finished() {
            self.is_active = false;
        }
        sample
    }

    /// Force the active flag and fire a note-off on the envelope: the
    /// voice keeps producing its fading release tail until the envelope
    /// finishes on its own.
    pub fn set_active(&mut self, active: bool)
        requires
            old(self).wf(),
        ensures
            final(self).wf(),
            *final(self) == (Voice {
                is_active: active,
                envelope: old(self).envelope.spec_note_off(),
                ..*old(self)
            }),
    {
        self.is_active = active;
        self.envelope.note_off();
    }
}

/// A stepped voice is still well-formed, with the same identity fields.
pub proof fn lemma_voice_after_wf(v: Voice)
    requires
        v.wf(),
    ensures
        v.spec_after().wf(),
        v.spec_after().sample_rate == v.sample_rate,
        v.spec_after().frequency == v.frequency,
        -SCALE <= v.spec_output() <= SCALE,
{
    lemma_step_wf(v.envelope);
    lemma_oscillator_advanced_wf(v.osci);
    lemma_oscillator_sample_bounds(v.osci);
    let amp = v.envelope.spec_step().current_amplitude;
    let osc = v.osci.spec_sample_value();
    assert(-(SCALE as int) * SCALE <= amp * osc <= (SCALE as int) * SCALE) by (nonlinear_arith)
        requires
            0 <= amp <= SCALE,
            -SCALE <= osc <= SCALE,
    ;
    lemma_tdiv_scale_between(amp * osc, -(SCALE as int), SCALE as int);
    let scaled = spec_tdiv_scale(amp * osc);
    match v.effects.low_pass_filter {
        Option::Some(f) => {
            lemma_lpf_output_between(f.coefficient as int, f.previous_output as int, scaled);
        },
        Option::None => {},
    }
}

/// A voice whose envelope has not been released never silences itself:
/// with no note-off, an active attacking, decaying, or sustaining voice
/// is still active — and still in one of those segments — after any
/// advance.  Only an explicit note-off or destroy ever ends it.
pub proof fn lemma_voice_no_self_stop(v: Voice)
    requires
        v.wf(),
        v.is_active,
        v.envelope.state is Attack || v.envelope.state is Decay || v.envelope.state
            is Sustain,
    ensures
        v.spec_after().is_active,
        v.spec_after().envelope.state is Attack || v.spec_after().envelope.state is Decay
            || v.spec_after().envelope.state is Sustain,
{
    crate::synth::adsr::lemma_no_auto_release(v.envelope);
}

/// The sum of the samples every voice in the sequence will produce on its
/// next advance.
pub open spec fn spec_mix_sum(s: Seq<(u8, Voice)>) -> int
    decreases s.len(),
{
    if s.len() == 0 {
        0
    } else {
        spec_mix_sum(s.drop_last()) + s.last().1.spec_output()
    }
}

/// Every voice advanced by one sample, in order, with the voices that
/// just went inactive dropped.
pub open spec fn spec_advance_keep(s: Seq<(u8, Voice)>) -> Seq<(u8, Voice)>
    decreases s.len(),
{
    if s.len() == 0 {
        Seq::empty()
    } else {
        let prefix = spec_advance_keep(s.drop_last());
        let v = s.last().1.spec_after();
        if v.is_active {
            prefix.push((s.last().0, v))
        } else {
            prefix
        }
    }
}

/// Whether some entry of the sequence carries the note.
pub open spec fn spec_has_note(s: Seq<(u8, Voice)>, note: u8) -> bool {
    exists|i: int| 0 <= i < s.len() && (#[trigger] s[i]).0 == note
}

/// Truncating division of a mixed sum by a positive voice count.
pub open spec fn spec_tdiv(v: int, n: int) -> int
    recommends
        n > 0,
{
    if v >= 0 {
        v / n
    } else {
        -((-v) / n)
    }
}

/// Advancing and reaping preserves note uniqueness and voice
/// well-formedness, and introduces no new notes.
proof fn lemma_advance_keep_props(s: Seq<(u8, Voice)>, rate: u64)
    requires
        forall|i: int, j: int|
            0 <= i < j < s.len() ==> (#[trigger] s[i]).0 != (#[trigger] s[j]).0,
        forall|i: int| 0 <= i < s.len() ==> (#[trigger] s[i]).1.wf() && s[i].1.sample_rate
            == rate,
    ensures
        ({
            let r = spec_advance_keep(s);
            &&& forall|i: int, j: int|
                0 <= i < j < r.len() ==> (#[trigger] r[i]).0 != (#[trigger] r[j]).0
            &&& forall|i: int| 0 <= i < r.len() ==> (#[trigger] r[i]).1.wf()
                && r[i].1.sample_rate == rate
            &&& forall|i: int| 0 <= i < r.len() ==> exists|j: int|
                0 <= j < s.len() && (#[trigger] s[j]).0 == (#[trigger] r[i]).0
        }),
    decreases s.len(),
{
    if s.len() > 0 {
        let head = s.drop_last();
        assert forall|i: int, j: int|
            0 <= i < j < head.len() implies (#[trigger] head[i]).0 != (
        #[trigger] head[j]).0 by {
            assert(head[i] == s[i]);
            assert(head[j] == s[j]);
        }
        assert forall|i: int| 0 <= i < head.len() implies (#[trigger] head[i]).1.wf()
            && head[i].1.sample_rate == rate by {
            assert(head[i] == s[i]);
        }
        lemma_advance_keep_props(head, rate);
        lemma_voice_after_wf(s.last().1);
        assert(s.last() == s[s.len() - 1]);
        let r0 = spec_advance_keep(head);
        let v = s.last().1.spec_after();
        if v.is_active {
            assert forall|i: int| 0 <= i < r0.len() implies (#[trigger] r0[i]).0 != s.last().0 by {
                let j = choose|j: int| 0 <= j < head.len() && (#[trigger] head[j]).0 == r0[i].0;
                assert(head[j] == s[j]);
                assert(s[j].0 != s[s.len() - 1].0);
            }
            let r = spec_advance_keep(s);
            assert(r == r0.push((s.last().0, v)));
            assert forall|i: int| 0 <= i < r.len() implies exists|j: int|
                0 <= j < s.len() && (#[trigger] s[j]).0 == (#[trigger] r[i]).0 by {
                if i < r0.len() {
                    let j = choose|j: int|
                        0 <= j < head.len() && (#[trigger] head[j]).0 == r0[i].0;
                    assert(head[j] == s[j]);
                    assert(r[i] == r0[i]);
                    assert(s[j].0 == r[i].0);
                } else {
                    assert(r[i] == (s.last().0, v));
                    assert(s[s.len() - 1].0 == r[i].0);
                }
            }
        } else {
            let r = spec_advance_keep(s);
            assert(r == r0);
            assert forall|i: int| 0 <= i < r.len() implies exists|j: int|
                0 <= j < s.len() && (#[trigger] s[j]).0 == (#[trigger] r[i]).0 by {
                let j = choose|j: int| 0 <= j < head.len() && (#[trigger] head[j]).0 == r0[i].0;
                assert(head[j] == s[j]);
                assert(s[j].0 == r[i].0);
            }
        }
    }
}

/// The live voices keyed by note identity, and the shared configuration
/// handed to every voice spawned through the manager.
pub struct VoiceManager {
    /// The live voices as `(note, voice)` entries with pairwise distinct
    /// notes; entry order carries no meaning since mixing is commutative.
    pub voices: Vec<(u8, Voice)>,
    /// The configuration new voices inherit.
    pub config: SynthConfig,
}

impl VoiceManager {
    /// Well-formedness: notes are pairwise distinct and every voice is
    /// well-formed at the manager's sample rate.
    pub open spec fn wf(&self) -> bool {
        &&& forall|i: int, j: int|
            0 <= i < j < self.voices@.len() ==> (#[trigger] self.voices@[i]).0 != (
            #[trigger] self.voices@[j]).0
        &&& forall|i: int| 0 <= i < self.voices@.len() ==> (#[trigger] self.voices@[i]).1.wf()
            && self.voices@[i].1.sample_rate == self.config.sample_rate
        &&& 1 <= self.config.sample_rate <= MAX_SAMPLE_RATE_HZ
    }

    /// An empty manager at the given sample rate.
    pub fn new(sample_rate: u64) -> (m: VoiceManager)
        requires
            1 <= sample_rate <= MAX_SAMPLE_RATE_HZ,
        ensures
            m.wf(),
            m.voices@.len() == 0,
            m.config == (SynthConfig { base_freq: 440_000u64, sample_rate }),
    {
        let config = SynthConfig::new(440_000, sample_rate);
        VoiceManager { voices: Vec::new(), config }
    }

    /// The index of the entry carrying the note, if any.
    fn find_note(&self, note: u8) -> (r: Option<usize>)
        ensures
            match r {
                Option::Some(i) => i < self.voices@.len() && self.voices@[i as int].0 == note,
                Option::None => !spec_has_note(self.voices@, note),
            },
    {
        let n = self.voices.len();
        let mut i: usize = 0;
        while i < n
            invariant
                i <= n,
                n == self.voices@.len(),
                forall|j: int| 0 <= j < i ==> (#[trigger] self.voices@[j]).0 != note,
            decreases n - i,
        {
            if self.voices[i].0 == note {
                return Some(i);
            }
            i += 1;
        }
        None
    }

    /// Construct a new voice — its envelope pre-triggered to note-on —
    /// and insert it at the note, replacing any prior voice there.
    pub fn spawn(
        &mut self,
        note: u8,
        freq: u64,
        waveform: WaveformType,
        effects: EffectsChain,
        envelope: ADSR,
    )
        requires
            old(self).wf(),
            waveform.spec_implemented(),
            effects.wf(),
            envelope.wf(),
            envelope.sample_rate == old(self).config.sample_rate,
            1 <= freq <= MAX_FREQ_MHZ,
        ensures
            final(self).wf(),
            final(self).config == old(self).config,
            ({
                let v = spec_new_voice(
                    waveform,
                    effects,
                    envelope,
                    freq,
                    old(self).config.sample_rate,
                );
                if spec_has_note(old(self).voices@, note) {
                    exists|i: int|
                        0 <= i < old(self).voices@.len() && (#[trigger] old(
                            self,
                        ).voices@[i]).0 == note && final(self).voices@ == old(
                            self,
                        ).voices@.update(i, (note, v))
                } else {
                    final(self).voices@ == old(self).voices@.push((note, v))
                }
            }),
    {
        let voice = Voice::new(waveform, effects, envelope, freq, self.config.sample_rate);
        match self.find_note(note) {
            Some(i) => {
                self.voices[i] = (note, voice);
            },
            None => {
                self.voices.push((note, voice));
            },
        }
    }

    /// Remove the voice at the note immediately, firing its note-off on
    /// the way out: a hard stop with no release tail, by design.  A
    /// missing note is a benign no-op.
    pub fn destroy(&mut self, note: u8)
        requires
            old(self).wf(),
        ensures
            final(self).wf(),
            final(self).config == old(self).config,
            !spec_has_note(old(self).voices@, note) ==> *final(self) == *old(self),
            spec_has_note(old(self).voices@, note) ==> exists|i: int|
                0 <= i < old(self).voices@.len() && (#[trigger] old(self).voices@[i]).0 == note
                    && final(self).voices@ == old(self).voices@.remove(i),
    {
        match self.find_note(note) {
            Some(i) => {
                let entry = self.voices.remove(i);
                let mut voice = entry.1;
                voice.set_active(false);
            },
            None => {},
        }
    }

    /// One mix pass: advance every live voice, sum their samples, reap
    /// the voices that just finished, and return the sum averaged over
    /// the pre-pass voice count — zero voices give exactly 0.
    pub fn next_sample(&mut self) -> (sample: i64)
        requires
            old(self).wf(),
        ensures
            final(self).wf(),
            final(self).config == old(self).config,
            final(self).voices@ == spec_advance_keep(old(self).voices@),
            old(self).voices@.len() == 0 ==> sample == 0,
            old(self).voices@.len() > 0 ==> sample == spec_tdiv(
                spec_mix_sum(old(self).voices@),
                old(self).voices@.len() as int,
            ),
            old(self).voices@.len() == 1 ==> sample == old(self).voices@[0].1.spec_output(),
            -SCALE <= sample <= SCALE,
    {
        let ghost old_seq = self.voices@;
        let n = self.voices.len();
        let mut kept: Vec<(u8, Voice)> = Vec::new();
        let mut sum: i128 = 0;
        let mut i: usize = 0;
        while i < n
            invariant
                *self == *old(self),
                old(self).wf(),
                n == old_seq.len(),
                old_seq == self.voices@,
                i <= n,
                sum == spec_mix_sum(old_seq.take(i as int)),
                kept@ == spec_advance_keep(old_seq.take(i as int)),
                -((i as int) * (SCALE as int)) <= sum <= (i as int) * (SCALE as int),
            decreases n - i,
        {
            let (note, mut v) = self.voices[i];
            let s = v.next_sample();
            proof {
                assert(old_seq.take(i as int + 1).drop_last() =~= old_seq.take(i as int));
                assert(old_seq.take(i as int + 1).last() == old_seq[i as int]);
                assert((i as int + 1) * (SCALE as int) == (i as int) * (SCALE as int) + SCALE)
                    by (nonlinear_arith);
            }
            sum = sum + (s as i128);
            if v.is_active {
                kept.push((note, v));
            }
            i += 1;
        }
        proof {
            assert(old_seq.take(n as int) =~= old_seq);
            lemma_advance_keep_props(old_seq, old(self).config.sample_rate);
        }
        self.voices = kept;
        if n == 0 {
            0
        } else {
            proof {
                assert(-((n as int) * (SCALE as int)) <= sum <= (n as int) * (SCALE as int));
                assert(sum >= 0 ==> (sum as int) / (n as int) <= SCALE) by (nonlinear_arith)
                    requires
                        sum <= (n as int) * (SCALE as int),
                        n > 0,
                ;
                assert(sum < 0 ==> (-(sum as int)) / (n as int) <= SCALE) by (nonlinear_arith)
                    requires
                        -((n as int) * (SCALE as int)) <= sum,
                        n > 0,
                ;
                if n == 1 {
                    assert(old_seq.drop_last().len() == 0);
                    assert(spec_mix_sum(old_seq.drop_last()) == 0);
                    assert(old_seq.last() == old_seq[0]);
                    assert(spec_mix_sum(old_seq) == spec_mix_sum(old_seq.drop_last())
                        + old_seq.last().1.spec_output());
                    assert(spec_mix_sum(old_seq) == old_seq[0].1.spec_output());
                    assert((sum as int) / 1int == sum as int);
                    assert((-(sum as int)) / 1int == -(sum as int));
                }
            }
            if sum >= 0 {
                ((sum as u128) / (n as u128)) as i64
            } else {
                let m: u128 = (-sum) as u128;
                -((m / (n as u128)) as i64)
            }
        }
    }
}

} // verus!
