use analog_synth::envelope::{ADSR, LEVEL_ONE};

const SAMPLE_RATE: f32 = 44100.0;

/// Seconds as a sample count.
fn samples(secs: f32) -> u64 {
    (secs * SAMPLE_RATE).round() as u64
}

/// An amplitude as a fixed-point level.
fn level(amplitude: f32) -> u32 {
    (amplitude * LEVEL_ONE as f32).round() as u32
}

/// A fixed-point level as an amplitude.
fn amp(l: u32) -> f32 {
    l as f32 / LEVEL_ONE as f32
}

#[test]
fn test_envelope_adsr_basic() {
    let mut envelope = ADSR::new(samples(0.1), samples(0.1), level(0.5), samples(0.2));
    envelope.start(0);

    assert_eq!(amp(envelope.value(samples(0.0))), 0.0, "Envelope should start at 0");
    assert_eq!(amp(envelope.value(samples(0.05))), 0.5, "Envelope should be halfway through attack at 0.05s");
    assert_eq!(amp(envelope.value(samples(0.1))), 1.0, "Envelope should reach peak at 0.1s");

    assert_eq!(amp(envelope.value(samples(0.15))), 0.75, "Envelope should be decaying at 0.15s");
    assert_eq!(amp(envelope.value(samples(0.2))), 0.5, "Envelope should reach sustain at 0.2s");

    assert_eq!(amp(envelope.value(samples(0.5))), 0.5, "Envelope should hold sustain");
    assert_eq!(amp(envelope.value(samples(1.0))), 0.5, "Envelope should hold sustain");
}

#[test]
fn test_envelope_release_behavior() {
    let mut envelope = ADSR::new(samples(0.1), samples(0.1), level(0.5), samples(0.2));
    envelope.start(0);
    envelope.stop(samples(1.0));

    let release_start_value = amp(envelope.value(samples(1.0)));
    assert!(release_start_value > 0.4, "Should start release from sustain level");

    let mid_release_value = amp(envelope.value(samples(1.1)));
    assert!(mid_release_value < release_start_value, "Should be decreasing during release");
    assert!(mid_release_value > 0.0, "Should not reach zero yet");

    let end_release_value = amp(envelope.value(samples(1.2)));
    assert!(end_release_value < 0.1, "Should be near zero at end of release");

    let post_release_value = amp(envelope.value(samples(1.3)));
    assert_eq!(post_release_value, 0.0, "Should be zero after release");
}

#[test]
fn test_envelope_timing_precision() {
    let mut envelope = ADSR::new(samples(0.001), samples(0.001), level(0.8), samples(0.001));
    envelope.start(0);

    let values: Vec<(f32, f32)> = (0..10)
        .map(|i| {
            let time = i as f32 * 0.0001;
            (time, amp(envelope.value(samples(time))))
        })
        .collect();

    assert!(values[9].1 > values[0].1, "Envelope should be rising");
}

#[test]
fn release_value_equals_sustain_value_just_before() {
    let mut envelope = ADSR::new(4410, 4410, 500_000, 8820);
    envelope.start(0);
    let held = envelope.value(44_099);
    envelope.stop(44_100);
    assert_eq!(envelope.value(44_100), held);
    assert_eq!(envelope.value(44_100), 500_000);
    assert_eq!(envelope.value(44_100 + 4410), 250_000);
    assert_eq!(envelope.value(44_100 + 8820), 0);
}

#[test]
fn release_during_attack_starts_from_reached_level() {
    let mut envelope = ADSR::new(100, 100, 500_000, 100);
    envelope.start(0);
    envelope.stop(25);
    assert_eq!(envelope.value(25), 250_000);
    assert_eq!(envelope.value(75), 125_000);
    assert_eq!(envelope.value(125), 0);
    // before the release the held curve still applies
    assert_eq!(envelope.value(10), 100_000);
}

#[test]
fn second_stop_changes_nothing() {
    let mut envelope = ADSR::new(100, 100, 500_000, 100);
    envelope.start(0);
    envelope.stop(300);
    envelope.stop(350);
    assert_eq!(envelope.value(300), 500_000);
    assert_eq!(envelope.value(350), 250_000);
}

#[test]
fn start_forgets_release() {
    let mut envelope = ADSR::new(100, 100, 500_000, 100);
    envelope.start(0);
    envelope.stop(300);
    envelope.start(0);
    assert_eq!(envelope.value(1000), 500_000);
}

#[test]
fn sustain_is_clamped_to_full_scale() {
    let mut envelope = ADSR::new(10, 10, 2 * LEVEL_ONE, 10);
    assert_eq!(envelope.value(100), LEVEL_ONE);
    envelope.update_sustain(3 * LEVEL_ONE);
    assert_eq!(envelope.value(100), LEVEL_ONE);
}

#[test]
fn zero_length_phases() {
    let mut envelope = ADSR::new(0, 0, 300_000, 0);
    envelope.start(0);
    assert_eq!(envelope.value(0), 300_000);
    envelope.stop(5);
    assert_eq!(envelope.value(5), 0);
    assert_eq!(envelope.value(4), 300_000);
}

#[test]
fn parameter_updates_apply_at_next_reading() {
    let mut envelope = ADSR::new(100, 100, 500_000, 100);
    envelope.start(0);
    assert_eq!(envelope.value(50), 500_000);
    envelope.update_attack(200);
    assert_eq!(envelope.value(50), 250_000);
    envelope.update_decay(400);
    envelope.update_sustain(200_000);
    assert_eq!(envelope.value(400), 600_000);
    envelope.stop(1000);
    envelope.update_release(400);
    assert_eq!(envelope.value(1100), 150_000);
}
