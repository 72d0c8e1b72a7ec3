use tonomaly::synth::adsr::{ADSRstate, ADSR};

fn scenario_envelope() -> ADSR {
    // attack 0.1 s, decay 0.2 s, sustain 0.8, release 1.0 s, 44100 Hz.
    ADSR::new(100, 200, 800_000, 1_000, 44_100)
}

#[test]
fn test_new_is_inactive_and_silent() {
    let mut env = scenario_envelope();
    assert_eq!(env.current_state(), ADSRstate::Inactive);
    assert!(env.is_finished());
    for _ in 0..10 {
        assert_eq!(env.next_sample(), 0);
    }
    assert_eq!(env.current_state(), ADSRstate::Inactive);
}

#[test]
fn test_attack_is_monotone_until_decay() {
    let mut env = scenario_envelope();
    env.note_on();
    let mut last = 0;
    for _ in 0..4410 {
        assert_eq!(env.current_state(), ADSRstate::Attack);
        let amp = env.next_sample();
        assert!(amp >= last);
        assert!((0..=1_000_000).contains(&amp));
        last = amp;
    }
    // Exactly 0.1 s of samples later the attack has handed over.
    assert_eq!(env.current_state(), ADSRstate::Decay);
}

#[test]
fn test_end_to_end_scenario() {
    let mut env = scenario_envelope();
    env.note_on();
    for _ in 0..4410 {
        env.next_sample();
    }
    assert_eq!(env.current_state(), ADSRstate::Decay);
    for _ in 0..8820 {
        env.next_sample();
    }
    // 0.3 s in: sustaining at exactly the configured level.
    assert_eq!(env.current_state(), ADSRstate::Sustain);
    assert_eq!(env.next_sample(), 800_000);
    env.note_off();
    assert_eq!(env.current_state(), ADSRstate::Release);
    let mut amp = 800_000;
    for _ in 0..44_100 {
        amp = env.next_sample();
    }
    // 1.0 s after the note-off the envelope has fallen silent.
    assert_eq!(amp, 0);
    assert_eq!(env.current_state(), ADSRstate::Inactive);
    assert!(env.is_finished());
}

#[test]
fn test_release_is_monotone_to_zero() {
    let mut env = scenario_envelope();
    env.note_on();
    for _ in 0..13_230 {
        env.next_sample();
    }
    env.note_off();
    let mut last = 1_000_000;
    for _ in 0..44_100 {
        let amp = env.next_sample();
        assert!(amp <= last);
        last = amp;
    }
    assert_eq!(last, 0);
    // Silence persists once inactive.
    for _ in 0..100 {
        assert_eq!(env.next_sample(), 0);
        assert_eq!(env.current_state(), ADSRstate::Inactive);
    }
}

#[test]
fn test_note_off_from_inactive_is_noop() {
    let mut env = scenario_envelope();
    env.note_off();
    assert_eq!(env.current_state(), ADSRstate::Inactive);
    assert_eq!(env.next_sample(), 0);
}

#[test]
fn test_retrigger_restarts_from_silence() {
    let mut env = scenario_envelope();
    env.note_on();
    let first = env.next_sample();
    for _ in 0..2000 {
        env.next_sample();
    }
    // Re-trigger: the attack restarts from amplitude 0, discarding the
    // amplitude already reached.
    env.note_on();
    assert_eq!(env.current_state(), ADSRstate::Attack);
    assert_eq!(env.next_sample(), first);
}

#[test]
fn test_sustain_never_auto_releases() {
    let mut env = scenario_envelope();
    env.note_on();
    for _ in 0..13_230 {
        env.next_sample();
    }
    assert_eq!(env.current_state(), ADSRstate::Sustain);
    // A voice sustains forever until an explicit note-off.
    for _ in 0..50_000 {
        assert_eq!(env.next_sample(), 800_000);
        assert_eq!(env.current_state(), ADSRstate::Sustain);
        assert!(!env.is_finished());
    }
}
