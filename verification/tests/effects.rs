use tonomaly::synth::effects::{EffectsChain, LowPassFilter};

#[test]
fn test_lpf_converges_to_constant_input() {
    // Approached from above, the output settles at exactly the input:
    // the steady-state gain is one.
    let mut filter = LowPassFilter::new(4_000, 44_100);
    for _ in 0..100 {
        filter.process(1_000_000);
    }
    let mut out = 0;
    for _ in 0..300 {
        out = filter.process(500_000);
    }
    assert_eq!(out, 500_000);
    assert_eq!(filter.process(500_000), 500_000);
}

#[test]
fn test_lpf_converges_from_below_within_quantum() {
    // Approached from below, truncation toward zero can leave the output
    // a couple of fixed-point quanta under the input, and it stays put.
    let mut filter = LowPassFilter::new(4_000, 44_100);
    let mut out = 0;
    for _ in 0..300 {
        out = filter.process(500_000);
    }
    assert!((499_998..=500_000).contains(&out));
    assert_eq!(filter.process(500_000), out);
}

#[test]
fn test_lpf_zero_input_decays_to_silence() {
    let mut filter = LowPassFilter::new(4_000, 44_100);
    for _ in 0..100 {
        filter.process(900_000);
    }
    let mut last = 1_000_000;
    for _ in 0..500 {
        let out = filter.process(0);
        assert!(out.abs() <= last);
        last = out.abs();
    }
    assert_eq!(last, 0);
}

#[test]
fn test_lpf_output_stays_between_state_and_input() {
    let mut filter = LowPassFilter::new(2_000, 44_100);
    let inputs = [1_000_000, -1_000_000, 300_000, 300_000, -50_000, 0];
    let mut prev = 0;
    for &input in inputs.iter() {
        let out = filter.process(input);
        let (lo, hi) = if prev <= input { (prev, input) } else { (input, prev) };
        assert!(lo <= out && out <= hi);
        prev = out;
    }
}

#[test]
fn test_lpf_cutoff_clamped_to_nyquist() {
    let filter = LowPassFilter::new(1_000_000, 44_100);
    assert_eq!(filter.get_cutoff_frequency(), 22_050);
    let mut filter = LowPassFilter::new(4_000, 44_100);
    filter.set_cutoff_frequency(0);
    assert_eq!(filter.get_cutoff_frequency(), 1);
    filter.set_cutoff_frequency(8_000);
    assert_eq!(filter.get_cutoff_frequency(), 8_000);
}

#[test]
fn test_lpf_reset_clears_state_only() {
    let mut filter = LowPassFilter::new(4_000, 44_100);
    for _ in 0..50 {
        filter.process(750_000);
    }
    let cutoff = filter.get_cutoff_frequency();
    filter.reset();
    assert_eq!(filter.get_cutoff_frequency(), cutoff);
    // With no retained state, zero input gives exactly zero out.
    assert_eq!(filter.process(0), 0);
}

#[test]
fn test_empty_chain_passes_through() {
    let mut chain = EffectsChain::new();
    for input in [-1_000_000, -3, 0, 7, 1_000_000] {
        assert_eq!(chain.process(input), input);
    }
}

#[test]
fn test_chain_add_and_remove_filter() {
    let mut chain = EffectsChain::new();
    chain.add_low_pass_filter(4_000, 44_100);
    // The filter smooths: a first full-scale sample is attenuated.
    let filtered = chain.process(1_000_000);
    assert!(0 < filtered && filtered < 1_000_000);
    chain.remove_low_pass_filter();
    assert_eq!(chain.process(1_000_000), 1_000_000);
}

#[test]
fn test_chain_reset_matches_filter_reset() {
    let mut chain = EffectsChain::new();
    chain.add_low_pass_filter(4_000, 44_100);
    for _ in 0..20 {
        chain.process(600_000);
    }
    chain.reset();
    assert_eq!(chain.process(0), 0);
}

#[test]
fn test_chain_default_is_empty() {
    let mut chain = EffectsChain::default();
    assert_eq!(chain.process(123_456), 123_456);
}
