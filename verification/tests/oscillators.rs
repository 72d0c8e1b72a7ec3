use tonomaly::synth::fixed::SCALE;
use tonomaly::synth::oscillators::{Oscillatable, Oscillator, Sine, Square, WaveformType};

#[test]
fn test_sine_quarter_points() {
    // One cycle every 4 samples: 11025 Hz at 44100 Hz.
    let mut osc = Sine::new(11_025_000, 44_100);
    for _ in 0..3 {
        assert_eq!(osc.next(), 0);
        assert_eq!(osc.next(), SCALE);
        assert_eq!(osc.next(), 0);
        assert_eq!(osc.next(), -SCALE);
    }
}

#[test]
fn test_sine_periodicity() {
    // 4410 Hz at 44100 Hz: period of exactly 10 samples.
    let mut osc = Sine::new(4_410_000, 44_100);
    let samples: Vec<i64> = (0..30).map(|_| osc.next()).collect();
    for k in 0..20 {
        assert_eq!(samples[k], samples[k + 10]);
    }
}

#[test]
fn test_sine_range() {
    let mut osc = Sine::new(441_000, 44_100);
    for _ in 0..300 {
        let s = osc.next();
        assert!(-SCALE <= s && s <= SCALE);
    }
}

#[test]
fn test_sine_set_frequency_updates_increment() {
    let mut osc = Sine::new(440_000, 44_100);
    osc.set_frequency(880_000);
    assert_eq!(osc.get_frequency(), 880_000);
    assert_eq!(osc.get_sample_rate(), 44_100);
    assert_eq!(osc.phase_increment, 880_000);
    osc.next();
    // The very next advance already uses the new increment.
    assert_eq!(osc.phase, 880_000);
}

#[test]
fn test_square_duty_balance_even_period() {
    // 441 Hz at 44100 Hz: period of exactly 100 samples.
    let mut osc = Square::new(441_000, 44_100, 500_000);
    let mut high = 0;
    let mut low = 0;
    for _ in 0..100 {
        match osc.next() {
            s if s == SCALE => high += 1,
            s if s == -SCALE => low += 1,
            other => panic!("unexpected square sample {other}"),
        }
    }
    assert_eq!(high, 50);
    assert_eq!(low, 50);
}

#[test]
fn test_square_duty_balance_odd_period() {
    // 4900 Hz at 44100 Hz: period of exactly 9 samples; the high half
    // gets the extra sample.
    let mut osc = Square::new(4_900_000, 44_100, 500_000);
    let mut high = 0;
    let mut low = 0;
    for _ in 0..9 {
        if osc.next() == SCALE {
            high += 1;
        } else {
            low += 1;
        }
    }
    assert_eq!(high, 5);
    assert_eq!(low, 4);
}

#[test]
fn test_square_quarter_duty() {
    // Duty 1/4 over a 100-sample period: 25 high samples.
    let mut osc = Square::new(441_000, 44_100, 250_000);
    let mut high = 0;
    for _ in 0..100 {
        if osc.next() == SCALE {
            high += 1;
        }
    }
    assert_eq!(high, 25);
}

#[test]
fn test_square_set_duty() {
    let mut osc = Square::new(441_000, 44_100, 500_000);
    osc.set_duty(0);
    // Duty 0 never goes high.
    for _ in 0..50 {
        assert_eq!(osc.next(), -SCALE);
    }
}

#[test]
fn test_waveform_implemented_flags() {
    assert!(WaveformType::Sine.is_implemented());
    assert!(WaveformType::Square.is_implemented());
    assert!(!WaveformType::Sawtooth.is_implemented());
    assert!(!WaveformType::Triangle.is_implemented());
}

#[test]
fn test_oscillator_enum_dispatch() {
    let mut plain = Sine::new(440_000, 44_100);
    let mut wrapped = Oscillator::Sine(Sine::new(440_000, 44_100));
    for _ in 0..50 {
        assert_eq!(plain.next(), wrapped.next());
    }
}
