use vstd::prelude::*;

verus! {

/// A MIDI note number; 60 is middle C and 69 is A4.
#[derive(Debug, Clone, Copy, PartialEq, Eq, Structural)]
pub struct MidiNote(pub i8);

/// A signed distance between notes, in semitones.
#[derive(Debug, Clone, Copy, PartialEq, Eq, Structural)]
pub struct Semitones(pub i8);

#[derive(Debug, Clone, Copy, PartialEq, Eq, Structural)]
pub enum MidiNoteParseError {
    InvalidLength,
    InvalidNoteCharacter,
    InvalidAccidentalCharacter,
    InvalidOctaveCharacter,
    /// The name is well formed but lies above the highest MIDI note.
    OutOfRange,
}

/// The MIDI number of A4.
pub const A4_MIDI_NOTE: i8 = 69;

pub const SEMITONES_PER_OCTAVE: i8 = 12;

/// The highest MIDI note number.
pub const MAX_MIDI_NOTE: i8 = 127;

/// Semitones from A of the same octave to the named note.
pub open spec fn spec_letter_offset(c: char) -> Option<int> {
    if c == 'C' {
        Some(-9)
    } else if c == 'D' {
        Some(-7)
    } else if c == 'E' {
        Some(-5)
    } else if c == 'F' {
        Some(-4)
    } else if c == 'G' {
        Some(-2)
    } else if c == 'A' {
        Some(0)
    } else if c == 'B' {
        Some(2)
    } else {
        None
    }
}

/// `#` raises by a semitone, `b` lowers by one, no accidental leaves the note.
pub open spec fn spec_accidental_offset(a: Option<char>) -> Option<int> {
    match a {
        None => Some(0),
        Some(c) => if c == '#' {
            Some(1)
        } else if c == 'b' {
            Some(-1)
        } else {
            None
        },
    }
}

/// Octaves from octave 4, for a digit.
pub open spec fn spec_octave_offset(c: char) -> Option<int> {
    if '0' <= c && c <= '9' {
        Some(c as int - '4' as int)
    } else {
        None
    }
}

/// The note that a letter, an optional accidental and an octave digit name.
pub open spec fn spec_from_chars(note: char, accidental: Option<char>, octave: char) -> Result<
    MidiNote,
    MidiNoteParseError,
> {
    if spec_letter_offset(note) is None {
        Err(MidiNoteParseError::InvalidNoteCharacter)
    } else if spec_accidental_offset(accidental) is None {
        Err(MidiNoteParseError::InvalidAccidentalCharacter)
    } else if spec_octave_offset(octave) is None {
        Err(MidiNoteParseError::InvalidOctaveCharacter)
    } else {
        let v = 69 + spec_letter_offset(note).unwrap() + spec_accidental_offset(accidental).unwrap()
            + 12 * spec_octave_offset(octave).unwrap();
        if v <= 127 {
            Ok(MidiNote(v as i8))
        } else {
            Err(MidiNoteParseError::OutOfRange)
        }
    }
}

/// A note name is two characters (letter, octave) or three (letter, accidental, octave).
pub open spec fn spec_parse(s: Seq<char>) -> Result<MidiNote, MidiNoteParseError> {
    if s.len() == 3 {
        spec_from_chars(s[0], Some(s[1]), s[2])
    } else if s.len() == 2 {
        spec_from_chars(s[0], None, s[1])
    } else {
        Err(MidiNoteParseError::InvalidLength)
    }
}

fn letter_offset(c: char) -> (r: Option<i8>)
    ensures
        r matches Some(v) ==> spec_letter_offset(c) == Some(v as int),
        r is None ==> spec_letter_offset(c) is None,
{
    if c == 'C' {
        Some(-9)
    } else if c == 'D' {
        Some(-7)
    } else if c == 'E' {
        Some(-5)
    } else if c == 'F' {
        Some(-4)
    } else if c == 'G' {
        Some(-2)
    } else if c == 'A' {
        Some(0)
    } else if c == 'B' {
        Some(2)
    } else {
        None
    }
}

fn accidental_offset(a: Option<char>) -> (r: Option<i8>)
    ensures
        r matches Some(v) ==> spec_accidental_offset(a) == Some(v as int),
        r is None ==> spec_accidental_offset(a) is None,
{
    match a {
        None => Some(0),
        Some(c) => if c == '#' {
            Some(1)
        } else if c == 'b' {
            Some(-1)
        } else {
            None
        },
    }
}

fn octave_offset(c: char) -> (r: Option<i8>)
    ensures
        r matches Some(v) ==> spec_octave_offset(c) == Some(v as int) && -4 <= v <= 5,
        r is None ==> spec_octave_offset(c) is None,
{
    if '0' <= c && c <= '9' {
        Some(((c as u32) - ('0' as u32)) as i8 - 4)
    } else {
        None
    }
}

impl MidiNote {
    /// Parses a note name such as `C4`, `F#3` or `Bb5`.
    pub fn parse(value: &str) -> (r: Result<MidiNote, MidiNoteParseError>)
        ensures
            r == spec_parse(value@),
    {
        MidiNote::try_from_str(value)
    }

    pub fn try_from_str(value: &str) -> (r: Result<MidiNote, MidiNoteParseError>)
        ensures
            r == spec_parse(value@),
    {
        let n = value.unicode_len();
        if n == 3 {
            MidiNote::try_from_chars(value.get_char(0), Some(value.get_char(1)), value.get_char(2))
        } else if n == 2 {
            MidiNote::try_from_chars(value.get_char(0), None, value.get_char(1))
        } else {
            Err(MidiNoteParseError::InvalidLength)
        }
    }

    pub fn try_from_chars(note: char, accidental: Option<char>, octave: char) -> (r: Result<
        MidiNote,
        MidiNoteParseError,
    >)
        ensures
            r == spec_from_chars(note, accidental, octave),
    {
        let note_semitones_from_a = match letter_offset(note) {
            Some(v) => v,
            None => return Err(MidiNoteParseError::InvalidNoteCharacter),
        };
        let accidental_semitone_offset = match accidental_offset(accidental) {
            Some(v) => v,
            None => return Err(MidiNoteParseError::InvalidAccidentalCharacter),
        };
        let octaves_from_4 = match octave_offset(octave) {
            Some(v) => v,
            None => return Err(MidiNoteParseError::InvalidOctaveCharacter),
        };
        let v: i16 = A4_MIDI_NOTE as i16 + note_semitones_from_a as i16
            + accidental_semitone_offset as i16 + octaves_from_4 as i16
            * SEMITONES_PER_OCTAVE as i16;
        if v <= MAX_MIDI_NOTE as i16 {
            Ok(MidiNote(v as i8))
        } else {
            Err(MidiNoteParseError::OutOfRange)
        }
    }

    /// The note `s` semitones away, if it is a MIDI note (0 to 127).
    pub fn transposed(self, s: Semitones) -> (r: Option<MidiNote>)
        ensures
            0 <= self.0 + s.0 <= 127 ==> r == Some(MidiNote((self.0 + s.0) as i8)),
            !(0 <= self.0 + s.0 <= 127) ==> r is None,
    {
        let v: i16 = self.0 as i16 + s.0 as i16;
        if 0 <= v && v <= MAX_MIDI_NOTE as i16 {
            Some(MidiNote(v as i8))
        } else {
            None
        }
    }
}

impl Semitones {
    /// The same distance in the other direction.
    pub fn negated(self) -> (r: Semitones)
        requires
            self.0 > i8::MIN,
        ensures
            r.0 == -self.0,
    {
        Semitones(-self.0)
    }
}

/// Something that names a MIDI note.
pub trait MidiNoteLike {
    /// The note named, or why the name is not one.
    spec fn spec_midi_note(&self) -> Result<MidiNote, MidiNoteParseError>;

    fn to_midi_note(&self) -> (r: Result<MidiNote, MidiNoteParseError>)
        ensures
            r == self.spec_midi_note(),
    ;
}

impl MidiNoteLike for MidiNote {
    open spec fn spec_midi_note(&self) -> Result<MidiNote, MidiNoteParseError> {
        Ok(*self)
    }

    fn to_midi_note(&self) -> (r: Result<MidiNote, MidiNoteParseError>) {
        Ok(*self)
    }
}

impl<'a> MidiNoteLike for &'a str {
    open spec fn spec_midi_note(&self) -> Result<MidiNote, MidiNoteParseError> {
        spec_parse(self@)
    }

    fn to_midi_note(&self) -> (r: Result<MidiNote, MidiNoteParseError>) {
        MidiNote::parse(*self)
    }
}

} // verus!
