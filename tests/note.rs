use synth_player::note::{MidiNote, MidiNoteLike, MidiNoteParseError, Semitones};

fn try_parse(value: &'static str) -> Result<MidiNote, MidiNoteParseError> {
    MidiNote::try_from_str(value)
}

#[test]
fn test_a4_works() {
    assert_eq!(MidiNote::parse("A4"), Ok(MidiNote(69)));
}

#[test]
fn test_c4_works() {
    assert_eq!(MidiNote::parse("C4"), Ok(MidiNote(60)));
}

#[test]
fn test_weird_notes_work() {
    let f4: MidiNote = MidiNote::parse("F4").unwrap();
    assert_eq!(MidiNote::parse("E#4"), Ok(f4));

    let b3: MidiNote = MidiNote::parse("B3").unwrap();
    assert_eq!(MidiNote::parse("Cb4"), Ok(b3));
}

#[test]
fn test_sharps_work() {
    assert_eq!(MidiNote::parse("C#4"), Ok(MidiNote(61)));
}

#[test]
fn test_flats_work() {
    assert_eq!(MidiNote::parse("Bb4"), Ok(MidiNote(70)));
}

#[test]
fn test_octaves_work() {
    assert_eq!(MidiNote::parse("A0"), Ok(MidiNote(21)));
    assert_eq!(MidiNote::parse("G9"), Ok(MidiNote(127)));
}

#[test]
fn test_invalid_length_error() {
    assert_eq!(try_parse("A"), Err(MidiNoteParseError::InvalidLength));
    assert_eq!(try_parse("Ab4k"), Err(MidiNoteParseError::InvalidLength));
}

#[test]
fn test_invalid_note_character() {
    assert_eq!(
        try_parse("Z4"),
        Err(MidiNoteParseError::InvalidNoteCharacter)
    );
}

#[test]
fn test_invalid_accidental_character() {
    assert_eq!(
        try_parse("Ak4"),
        Err(MidiNoteParseError::InvalidAccidentalCharacter)
    );
}

#[test]
fn test_invalid_octave_character() {
    assert_eq!(
        try_parse("Ap"),
        Err(MidiNoteParseError::InvalidOctaveCharacter)
    );
}

#[test]
fn notes_above_the_midi_range_are_rejected() {
    assert_eq!(try_parse("G#9"), Err(MidiNoteParseError::OutOfRange));
    assert_eq!(try_parse("A9"), Err(MidiNoteParseError::OutOfRange));
    assert_eq!(try_parse("Cb0"), Ok(MidiNote(11)));
}

#[test]
fn empty_and_non_ascii_names_are_rejected() {
    assert_eq!(try_parse(""), Err(MidiNoteParseError::InvalidLength));
    assert_eq!(try_parse("é4"), Err(MidiNoteParseError::InvalidNoteCharacter));
}

#[test]
fn transposing_stays_within_midi_notes() {
    assert_eq!(MidiNote(60).transposed(Semitones(12)), Some(MidiNote(72)));
    assert_eq!(MidiNote(60).transposed(Semitones(-60)), Some(MidiNote(0)));
    assert_eq!(MidiNote(120).transposed(Semitones(8)), None);
    assert_eq!(MidiNote(3).transposed(Semitones(-4)), None);
    assert_eq!(Semitones(3).negated(), Semitones(-3));
}

#[test]
fn note_like_values_resolve() {
    assert_eq!("D4".to_midi_note(), Ok(MidiNote(62)));
    assert_eq!(MidiNote(40).to_midi_note(), Ok(MidiNote(40)));
    assert_eq!("H4".to_midi_note(), Err(MidiNoteParseError::InvalidNoteCharacter));
}
