use vstd::prelude::*;
use std::sync::atomic::{AtomicBool, AtomicU32};

verus! {

/// Bit pattern of the `f32` value 110.0, the drone's initial frequency in Hz.
pub const INITIAL_FREQUENCY_BITS: u32 = 0x42DC_0000;

/// Bit pattern of the `f32` value 0.3, the drone's initial amplitude.
pub const INITIAL_AMPLITUDE_BITS: u32 = 0x3E99_999A;

/// The value a boolean atomic was created with. It is a fixed property of the
/// atomic: later stores do not change it.
pub uninterp spec fn bool_created_with(a: AtomicBool) -> bool;

/// The value a 32-bit atomic was created with. It is a fixed property of the
/// atomic: later stores do not change it.
pub uninterp spec fn u32_created_with(a: AtomicU32) -> u32;

/// `AtomicBool::new`: an atomic holding `v`. What it holds later depends on
/// the threads that store into it, so only the value it was created with is
/// claimed.
#[verifier::external_body]
fn new_atomic_bool(v: bool) -> (a: AtomicBool)
    ensures
        bool_created_with(a) == v,
{
    AtomicBool::new(v)
}

/// `AtomicU32::new`: an atomic holding `v`. What it holds later depends on
/// the threads that store into it, so only the value it was created with is
/// claimed.
#[verifier::external_body]
fn new_atomic_u32(v: u32) -> (a: AtomicU32)
    ensures
        u32_created_with(a) == v,
{
    AtomicU32::new(v)
}

/// Settings shared between the UI and the drone output thread.
/// Frequency and amplitude are `f32` values stored by their bit patterns.
pub struct DroneState {
    pub enabled: AtomicBool,
    pub frequency: AtomicU32,
    pub amplitude: AtomicU32,
}

impl DroneState {
    /// A silent drone at 110 Hz with amplitude 0.3.
    pub fn new() -> (s: DroneState)
        ensures
            !bool_created_with(s.enabled),
            u32_created_with(s.frequency) == INITIAL_FREQUENCY_BITS,
            u32_created_with(s.amplitude) == INITIAL_AMPLITUDE_BITS,
    {
        DroneState {
            enabled: new_atomic_bool(false),
            frequency: new_atomic_u32(INITIAL_FREQUENCY_BITS),
            amplitude: new_atomic_u32(INITIAL_AMPLITUDE_BITS),
        }
    }
}

} // verus!
