use std::sync::atomic::Ordering;
use voice_harmonics::drone::{DroneState, INITIAL_AMPLITUDE_BITS, INITIAL_FREQUENCY_BITS};

#[test]
fn new_drone_is_silent_at_110_hz() {
    let d = DroneState::new();
    assert!(!d.enabled.load(Ordering::Relaxed));
    assert_eq!(f32::from_bits(d.frequency.load(Ordering::Relaxed)), 110.0);
    assert_eq!(f32::from_bits(d.amplitude.load(Ordering::Relaxed)), 0.3);
    assert_eq!(INITIAL_FREQUENCY_BITS, 110.0f32.to_bits());
    assert_eq!(INITIAL_AMPLITUDE_BITS, 0.3f32.to_bits());
}
