use voice_harmonics::config::FFT_SIZE;
use voice_harmonics::history::AnalysisBuffer;
use voice_harmonics::waveform::WaveformHistory;
use voice_harmonics::config::WAVEFORM_SAMPLES;

#[test]
fn analysis_buffer_fills_then_keeps_newest_frame() {
    let mut b: AnalysisBuffer<u32> = AnalysisBuffer::new(0);
    assert_eq!(b.len(), 0);
    assert!(!b.is_full());
    for i in 0..(FFT_SIZE as u32 + 5) {
        b.push(i + 1);
    }
    assert!(b.is_full());
    assert_eq!(b.len(), FFT_SIZE);
    let mut frame = vec![0u32; FFT_SIZE];
    b.copy_frame(&mut frame);
    // the five oldest samples were dropped; the rest come out oldest first
    assert_eq!(frame[0], 6);
    assert_eq!(frame[FFT_SIZE - 1], FFT_SIZE as u32 + 5);
    for k in 1..FFT_SIZE {
        assert_eq!(frame[k], frame[k - 1] + 1);
    }
}

#[test]
fn analysis_buffer_clear_forgets_samples() {
    let mut b: AnalysisBuffer<i16> = AnalysisBuffer::new(0);
    for _ in 0..10 {
        b.push(7);
    }
    b.clear();
    assert_eq!(b.len(), 0);
    b.push(3);
    assert_eq!(b.len(), 1);
}

#[test]
fn waveform_history_drops_oldest_when_full() {
    let mut w: WaveformHistory<u32> = WaveformHistory::new();
    for i in 0..(WAVEFORM_SAMPLES as u32 + 3) {
        w.push(i);
    }
    assert_eq!(w.len(), WAVEFORM_SAMPLES);
    let mut out = vec![99u32; 2];
    w.copy_into(&mut out);
    assert_eq!(out.len(), WAVEFORM_SAMPLES);
    assert_eq!(out[0], 3);
    assert_eq!(out[WAVEFORM_SAMPLES - 1], WAVEFORM_SAMPLES as u32 + 2);
    w.clear();
    assert_eq!(w.len(), 0);
    w.copy_into(&mut out);
    assert!(out.is_empty());
}
