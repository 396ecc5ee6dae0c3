use rtrb::RingBuffer;
use voice_harmonics::config::{FFT_HOP_SIZE, FFT_SIZE, MAX_AUDIO_BACKLOG, MAX_AUDIO_SAMPLES_PER_FRAME, WAVEFORM_SAMPLES};
use voice_harmonics::frontend::{backlog_is_stale, stale_backlog, AudioFrontEnd, SampleQueue};

#[test]
fn backlog_is_stale_on_overflow_or_long_queue() {
    assert!(backlog_is_stale(true, 0));
    assert!(!backlog_is_stale(false, MAX_AUDIO_BACKLOG));
    assert!(backlog_is_stale(false, MAX_AUDIO_BACKLOG + 1));
}

#[test]
fn first_frame_comes_when_history_is_full_then_every_hop() {
    let mut fe: AudioFrontEnd<u32> = AudioFrontEnd::new(0);
    let mut frame = vec![0u32; FFT_SIZE];
    let mut frames_at = Vec::new();
    let total = FFT_SIZE + 3 * FFT_HOP_SIZE;
    for i in 0..total {
        if fe.push_sample(i as u32, &mut frame) {
            frames_at.push(i);
            // the frame is the newest FFT_SIZE samples, oldest first
            assert_eq!(frame[0], (i + 1 - FFT_SIZE) as u32);
            assert_eq!(frame[FFT_SIZE - 1], i as u32);
        }
    }
    assert_eq!(
        frames_at,
        vec![FFT_SIZE - 1, FFT_SIZE - 1 + FFT_HOP_SIZE, FFT_SIZE - 1 + 2 * FFT_HOP_SIZE, FFT_SIZE - 1 + 3 * FFT_HOP_SIZE]
    );
    let mut wave = Vec::new();
    fe.copy_waveform(&mut wave);
    assert_eq!(wave.len(), WAVEFORM_SAMPLES);
    assert_eq!(*wave.last().unwrap(), (total - 1) as u32);
}

#[test]
fn reset_forgets_input() {
    let mut fe: AudioFrontEnd<u32> = AudioFrontEnd::new(0);
    let mut frame = vec![0u32; FFT_SIZE];
    for i in 0..100u32 {
        assert!(!fe.push_sample(i, &mut frame));
    }
    assert_eq!(fe.history_len(), 100);
    fe.reset();
    assert_eq!(fe.history_len(), 0);
    let mut wave = vec![1u32];
    fe.copy_waveform(&mut wave);
    assert!(wave.is_empty());
}

#[test]
fn pump_stops_at_each_frame_and_at_the_repaint_budget() {
    let (mut producer, consumer) = RingBuffer::<u32>::new(FFT_SIZE * 2);
    for i in 0..(FFT_SIZE + FFT_HOP_SIZE) as u32 {
        producer.push(i).unwrap();
    }
    let mut queue = SampleQueue::new(consumer);
    let mut fe: AudioFrontEnd<u32> = AudioFrontEnd::new(0);
    let mut frame = vec![0u32; FFT_SIZE];
    // the budget is half a frame: the first repaint ends without a frame, the
    // second completes the first frame, the third the next one after a hop
    let mut frames_per_repaint = Vec::new();
    let mut frames = 0;
    for _ in 0..4 {
        fe.begin_repaint();
        let mut here = 0;
        loop {
            let (ready, _) = fe.pump(&mut queue, &mut frame);
            if !ready {
                break;
            }
            here += 1;
            frames += 1;
            assert_eq!(frame[FFT_SIZE - 1] as usize + 1, FFT_SIZE + (frames - 1) * FFT_HOP_SIZE);
            assert_eq!(frame[0] as usize, (frames - 1) * FFT_HOP_SIZE);
        }
        frames_per_repaint.push(here);
    }
    assert_eq!(MAX_AUDIO_SAMPLES_PER_FRAME * 2, FFT_SIZE);
    assert_eq!(frames_per_repaint, vec![0, 1, 1, 0]);
    assert_eq!(fe.history_len(), FFT_SIZE);
    assert_eq!(queue.discard_queued(), 0);
}

#[test]
fn pump_leaves_the_rest_queued_in_order() {
    let (mut producer, consumer) = RingBuffer::<u32>::new(MAX_AUDIO_SAMPLES_PER_FRAME + 10);
    for i in 0..(MAX_AUDIO_SAMPLES_PER_FRAME + 10) as u32 {
        producer.push(i).unwrap();
    }
    let mut queue = SampleQueue::new(consumer);
    let mut fe: AudioFrontEnd<u32> = AudioFrontEnd::new(0);
    let mut frame = vec![0u32; FFT_SIZE];
    fe.begin_repaint();
    let (ready, _) = fe.pump(&mut queue, &mut frame);
    assert!(!ready);
    assert_eq!(fe.history_len(), MAX_AUDIO_SAMPLES_PER_FRAME);
    let mut wave = Vec::new();
    fe.copy_waveform(&mut wave);
    assert_eq!(*wave.last().unwrap() as usize, MAX_AUDIO_SAMPLES_PER_FRAME - 1);
    assert_eq!(queue.discard_queued(), 10);
}

#[test]
fn pump_on_empty_queue_takes_nothing() {
    let (_producer, consumer) = RingBuffer::<u8>::new(4);
    let mut queue = SampleQueue::new(consumer);
    let mut fe: AudioFrontEnd<u8> = AudioFrontEnd::new(0);
    let mut frame = vec![9u8; FFT_SIZE];
    let (ready, _) = fe.pump(&mut queue, &mut frame);
    assert!(!ready);
    assert_eq!(fe.history_len(), 0);
    assert_eq!(frame[0], 9);
}

#[test]
fn stale_backlog_asks_the_queue() {
    let (mut producer, consumer) = RingBuffer::<u16>::new(MAX_AUDIO_BACKLOG + 8);
    let mut queue = SampleQueue::new(consumer);
    assert!(stale_backlog(true, &queue));
    assert!(!stale_backlog(false, &queue));
    for _ in 0..MAX_AUDIO_BACKLOG {
        producer.push(1).unwrap();
    }
    assert!(!stale_backlog(false, &queue));
    producer.push(1).unwrap();
    assert!(stale_backlog(false, &queue));
    assert_eq!(queue.discard_queued(), MAX_AUDIO_BACKLOG + 1);
    assert!(!stale_backlog(false, &queue));
}

#[test]
fn after_reset_no_frame_before_a_full_history_of_new_input() {
    let mut fe: AudioFrontEnd<u32> = AudioFrontEnd::new(0);
    let mut frame = vec![0u32; FFT_SIZE];
    for i in 0..(FFT_SIZE + 10) as u32 {
        fe.push_sample(i, &mut frame);
    }
    fe.reset();
    for i in 0..(FFT_SIZE - 1) as u32 {
        assert!(!fe.push_sample(1000 + i, &mut frame));
    }
    assert!(fe.push_sample(7, &mut frame));
    assert_eq!(frame[0], 1000);
    assert_eq!(frame[FFT_SIZE - 1], 7);
}
