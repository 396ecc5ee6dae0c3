use vstd::prelude::*;

verus! {

/// Integer division rounded toward zero, as Rust's `/` computes it, for a
/// positive divisor.
pub open spec fn trunc_div(a: int, b: int) -> int {
    if a >= 0 { a / b } else { -((-a) / b) }
}

/// Remainder of `trunc_div`, as Rust's `%` computes it; it has the sign of `a`.
pub open spec fn trunc_rem(a: int, b: int) -> int {
    a - b * trunc_div(a, b)
}

/// Name of pitch class `index` (0 is C), sharps for the black keys.
pub open spec fn pitch_name(index: int) -> Seq<char> {
    if index == 0 { "C"@ }
    else if index == 1 { "C#"@ }
    else if index == 2 { "D"@ }
    else if index == 3 { "D#"@ }
    else if index == 4 { "E"@ }
    else if index == 5 { "F"@ }
    else if index == 6 { "F#"@ }
    else if index == 7 { "G"@ }
    else if index == 8 { "G#"@ }
    else if index == 9 { "A"@ }
    else if index == 10 { "A#"@ }
    else { "B"@ }
}

/// Whether pitch class `class` is played on a black key.
pub open spec fn is_black_class(class: int) -> bool {
    class == 1 || class == 3 || class == 6 || class == 8 || class == 10
}

/// Pitch class and octave number of the rounded MIDI note `midi`: the class
/// is `midi` modulo 12 (0 is C), and the octave is `midi / 12 - 1` with the
/// division rounded toward zero.
pub fn pitch_class_and_octave(midi: i32) -> (res: (usize, i32))
    ensures
        res.0 == midi % 12,
        res.1 == trunc_div(midi as int, 12) - 1,
{
    let r: i32 = midi % 12;
    let class: i32 = (r + 12) % 12;
    let octave: i32 = midi / 12 - 1;
    (class as usize, octave)
}

/// The name of pitch class `index`.
pub fn pitch_class_name(index: usize) -> (name: &'static str)
    requires
        index < 12,
    ensures
        name@ == pitch_name(index as int),
{
    match index {
        0 => "C",
        1 => "C#",
        2 => "D",
        3 => "D#",
        4 => "E",
        5 => "F",
        6 => "F#",
        7 => "G",
        8 => "G#",
        9 => "A",
        10 => "A#",
        _ => "B",
    }
}

/// Whether MIDI note `midi` is drawn as a black key: its remainder modulo 12,
/// taken as Rust's `%` takes it, is 1, 3, 6, 8 or 10.
pub fn is_black_key(midi: i32) -> (black: bool)
    ensures
        black == is_black_class(trunc_rem(midi as int, 12)),
{
    let r: i32 = midi % 12;
    r == 1 || r == 3 || r == 6 || r == 8 || r == 10
}

/// For notes at or above MIDI 0, octave and pitch class spell the note back:
/// `midi == 12 * (octave + 1) + class`, and a note twelve semitones higher has
/// the same class and the next octave.
pub proof fn octave_and_class_spell_the_note(midi: int)
    requires
        0 <= midi,
    ensures
        12 * (trunc_div(midi, 12) - 1 + 1) + midi % 12 == midi,
        (midi + 12) % 12 == midi % 12,
        trunc_div(midi + 12, 12) == trunc_div(midi, 12) + 1,
{
}

/// The letter that follows `c` in the musical alphabet C D E F G A B.
pub open spec fn next_letter(c: char) -> char {
    if c == 'G' { 'A' } else { ((c as int) + 1) as char }
}

/// Whether pitch class `k` (taken modulo 12) is a natural, named by a single
/// letter.
pub open spec fn is_natural_name(k: int) -> bool {
    pitch_name(k % 12).len() == 1
}

/// The pitch names are the chromatic scale: class 0 is C; every name is a
/// letter, alone or followed by '#'; a name carries '#' exactly when its class
/// is played on a black key, and then it is the name below it with '#'
/// added; the naturals follow one another in the musical alphabet; and a
/// sharp follows every natural except E and B.
pub proof fn pitch_names_are_the_chromatic_scale(k: int)
    requires
        0 <= k < 12,
    ensures
        pitch_name(0) == "C"@,
        pitch_name(k).len() == 1 || (pitch_name(k).len() == 2 && pitch_name(k)[1] == '#'),
        is_black_class(k) <==> pitch_name(k).contains('#'),
        is_black_class(k) ==> k >= 1 && pitch_name(k) == pitch_name(k - 1).push('#'),
        !is_black_class(k) ==> {
            let up = if is_natural_name(k + 1) { (k + 1) % 12 } else { (k + 2) % 12 };
            &&& is_natural_name(up)
            &&& pitch_name(up)[0] == next_letter(pitch_name(k)[0])
            &&& (is_natural_name(k + 1) <==> (pitch_name(k)[0] == 'E' || pitch_name(k)[0] == 'B'))
        },
{
    reveal_strlit("C");
    reveal_strlit("C#");
    reveal_strlit("D");
    reveal_strlit("D#");
    reveal_strlit("E");
    reveal_strlit("F");
    reveal_strlit("F#");
    reveal_strlit("G");
    reveal_strlit("G#");
    reveal_strlit("A");
    reveal_strlit("A#");
    reveal_strlit("B");
    assert("C#"@ =~= "C"@.push('#'));
    assert("D#"@ =~= "D"@.push('#'));
    assert("F#"@ =~= "F"@.push('#'));
    assert("G#"@ =~= "G"@.push('#'));
    assert("A#"@ =~= "A"@.push('#'));
    assert(!"C"@.contains('#'));
    assert(!"D"@.contains('#'));
    assert(!"E"@.contains('#'));
    assert(!"F"@.contains('#'));
    assert(!"G"@.contains('#'));
    assert(!"A"@.contains('#'));
    assert(!"B"@.contains('#'));
    assert("C#"@[1] == '#');
    assert("D#"@[1] == '#');
    assert("F#"@[1] == '#');
    assert("G#"@[1] == '#');
    assert("A#"@[1] == '#');
}

/// A keyboard key is black exactly when the name of its note carries a sharp,
/// and the pattern repeats every octave.
pub proof fn black_keys_are_the_sharps(midi: int)
    requires
        0 <= midi,
    ensures
        is_black_class(trunc_rem(midi, 12)) <==> pitch_name(midi % 12).contains('#'),
        is_black_class(trunc_rem(midi + 12, 12)) == is_black_class(trunc_rem(midi, 12)),
{
    pitch_names_are_the_chromatic_scale(midi % 12);
    assert(trunc_rem(midi, 12) == midi % 12);
    assert(trunc_rem(midi + 12, 12) == (midi + 12) % 12);
}

} // verus!
