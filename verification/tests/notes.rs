use voice_harmonics::notes::{is_black_key, pitch_class_and_octave, pitch_class_name};

#[test]
fn a4_is_class_nine_octave_four() {
    assert_eq!(pitch_class_and_octave(69), (9, 4));
    assert_eq!(pitch_class_name(9), "A");
    assert_eq!(pitch_class_and_octave(60), (0, 4));
    assert_eq!(pitch_class_name(0), "C");
    assert_eq!(pitch_class_name(1), "C#");
    assert_eq!(pitch_class_name(11), "B");
}

#[test]
fn negative_notes_round_the_octave_toward_zero() {
    assert_eq!(pitch_class_and_octave(-1), (11, -1));
    assert_eq!(pitch_class_and_octave(-12), (0, -2));
    assert_eq!(pitch_class_and_octave(-13), (11, -2));
}

#[test]
fn black_keys_of_the_keyboard() {
    let blacks: Vec<i32> = (36..=84).filter(|&m| is_black_key(m)).collect();
    assert_eq!(blacks.len(), 20);
    assert_eq!(blacks[0], 37);
    assert!(!is_black_key(60));
    assert!(is_black_key(61));
    assert!(!is_black_key(-11));
}

#[test]
fn spelling_the_note_back() {
    for midi in 0..128 {
        let (class, octave) = pitch_class_and_octave(midi);
        assert_eq!(12 * (octave + 1) + class as i32, midi);
    }
}
