use tonomaly::synth::adsr::ADSR;
use tonomaly::synth::effects::{EffectsChain, LowPassFilter};
use tonomaly::synth::fixed::tdiv_scale;
use tonomaly::synth::oscillators::{Oscillatable, Sine, WaveformType};
use tonomaly::synth::voices::{Voice, VoiceManager};

fn test_envelope(rate: u64) -> ADSR {
    ADSR::new(100, 200, 800_000, 1_000, rate)
}

fn test_chain() -> EffectsChain {
    EffectsChain { low_pass_filter: Some(LowPassFilter::new(4_000, 44_100)) }
}

#[test]
fn test_voice_signal_path_order() {
    let mut voice = Voice::new(WaveformType::Sine, test_chain(), test_envelope(44_100), 440_000, 44_100);
    // Rebuild the same path from the parts: generate, shape, filter.
    let mut osc = Sine::new(440_000, 44_100);
    let mut env = test_envelope(44_100);
    env.note_on();
    let mut chain = test_chain();
    for _ in 0..200 {
        let expected = chain.process(tdiv_scale(env.next_sample() * osc.next()));
        assert_eq!(voice.next_sample(), expected);
    }
}

#[test]
fn test_voice_release_tail_then_inactive() {
    let mut voice = Voice::new(
        WaveformType::Sine,
        EffectsChain::new(),
        test_envelope(44_100),
        440_000,
        44_100,
    );
    assert!(voice.is_active);
    // A forced note-off starts the release tail; the voice stays active
    // until the envelope finishes on its own.
    voice.set_active(false);
    voice.set_active(true);
    let mut steps = 0;
    while voice.is_active {
        voice.next_sample();
        steps += 1;
        assert!(steps <= 44_101, "release tail should end within one second");
    }
    assert_eq!(voice.next_sample(), 0);
}

#[test]
fn test_manager_zero_voices_is_silent() {
    let mut manager = VoiceManager::new(44_100);
    for _ in 0..10 {
        assert_eq!(manager.next_sample(), 0);
    }
}

#[test]
fn test_manager_one_voice_unaveraged() {
    let mut manager = VoiceManager::new(44_100);
    manager.spawn(1, 440_000, WaveformType::Sine, test_chain(), test_envelope(44_100));
    let mut solo = Voice::new(WaveformType::Sine, test_chain(), test_envelope(44_100), 440_000, 44_100);
    for _ in 0..100 {
        assert_eq!(manager.next_sample(), solo.next_sample());
    }
}

#[test]
fn test_manager_averages_two_voices() {
    let mut manager = VoiceManager::new(44_100);
    manager.spawn(1, 880_000, WaveformType::Sine, test_chain(), test_envelope(44_100));
    manager.spawn(2, 440_000, WaveformType::Sine, test_chain(), test_envelope(44_100));
    let mut a = Voice::new(WaveformType::Sine, test_chain(), test_envelope(44_100), 880_000, 44_100);
    let mut b = Voice::new(WaveformType::Sine, test_chain(), test_envelope(44_100), 440_000, 44_100);
    for _ in 0..100 {
        let expected = ((a.next_sample() as i128 + b.next_sample() as i128) / 2) as i64;
        assert_eq!(manager.next_sample(), expected);
    }
}

#[test]
fn test_spawn_replaces_same_note() {
    let mut manager = VoiceManager::new(44_100);
    manager.spawn(5, 440_000, WaveformType::Sine, test_chain(), test_envelope(44_100));
    manager.spawn(5, 880_000, WaveformType::Square, test_chain(), test_envelope(44_100));
    assert_eq!(manager.voices.len(), 1);
    assert_eq!(manager.voices[0].1.frequency, 880_000);
}

#[test]
fn test_destroy_removes_immediately() {
    let mut manager = VoiceManager::new(44_100);
    manager.spawn(1, 440_000, WaveformType::Sine, test_chain(), test_envelope(44_100));
    manager.spawn(2, 660_000, WaveformType::Sine, test_chain(), test_envelope(44_100));
    manager.destroy(1);
    assert_eq!(manager.voices.len(), 1);
    assert_eq!(manager.voices[0].0, 2);
}

#[test]
fn test_destroy_missing_note_is_noop() {
    let mut manager = VoiceManager::new(44_100);
    manager.spawn(1, 440_000, WaveformType::Sine, test_chain(), test_envelope(44_100));
    manager.destroy(9);
    assert_eq!(manager.voices.len(), 1);
}

#[test]
fn test_manager_reaps_finished_voice() {
    let mut manager = VoiceManager::new(44_100);
    manager.spawn(1, 440_000, WaveformType::Sine, EffectsChain::new(), test_envelope(44_100));
    // Fire the note-off directly on the stored voice: the release tail
    // plays out and the mix pass reaps the voice once it finishes.
    manager.voices[0].1.set_active(true);
    manager.voices[0].1.envelope.note_off();
    let mut steps = 0;
    while !manager.voices.is_empty() {
        manager.next_sample();
        steps += 1;
        assert!(steps <= 44_101, "a released voice should be reaped within one second");
    }
    assert_eq!(manager.next_sample(), 0);
}

#[test]
fn test_voice_sustains_without_note_off() {
    let mut manager = VoiceManager::new(44_100);
    manager.spawn(1, 440_000, WaveformType::Sine, EffectsChain::new(), test_envelope(44_100));
    // Attack and decay take 0.3 s; well past that the voice still sounds.
    for _ in 0..30_000 {
        manager.next_sample();
    }
    assert_eq!(manager.voices.len(), 1);
    assert!(manager.voices[0].1.is_active);
}
