use voice_harmonics::layout::{frame_ranges, next_frame, waveform_sample_indices, FrameRange};

#[test]
fn stereo_buffer_splits_into_frames_of_two() {
    assert_eq!(
        frame_ranges(4, 2),
        vec![FrameRange { start: 0, end: 2 }, FrameRange { start: 2, end: 4 }]
    );
}

#[test]
fn ragged_tail_and_zero_channels() {
    assert_eq!(
        frame_ranges(5, 2),
        vec![FrameRange { start: 0, end: 2 }, FrameRange { start: 2, end: 4 }, FrameRange { start: 4, end: 5 }]
    );
    assert_eq!(frame_ranges(3, 0).len(), 3);
    assert!(frame_ranges(0, 2).is_empty());
}

#[test]
fn waveform_columns_spread_samples() {
    let idx = waveform_sample_indices(5, 4);
    assert_eq!(idx, vec![0, 1, 2, 3]);
    assert!(waveform_sample_indices(5, 0).is_empty());
    let idx = waveform_sample_indices(4096, 2048);
    assert_eq!(idx.len(), 2048);
    assert_eq!(idx[0], 0);
    assert_eq!(idx[2047], 2047 * 4095 / 2048);
    assert!(idx.windows(2).all(|w| w[0] <= w[1]));
}

#[test]
fn next_frame_takes_one_frame_or_the_rest() {
    assert_eq!(next_frame(0, 4, 2), FrameRange { start: 0, end: 2 });
    assert_eq!(next_frame(4, 5, 2), FrameRange { start: 4, end: 5 });
    assert_eq!(next_frame(1, 3, 0), FrameRange { start: 1, end: 2 });
}
