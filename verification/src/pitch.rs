//! Pitches, their spellings and their MIDI note numbers.
//!
//! A pitch is spelled in scientific pitch notation: a note letter, an optional
//! accidental sign and an octave number, as in `C#1`. Its MIDI note number counts
//! semitones from C in octave -1, which is note 0.

use vstd::prelude::*;
use crate::text::chars_of;

verus! {

/// The highest MIDI note number.
pub const MIDI_MAX: u8 = 127;

/// A note name: one of the letters A to G, in either case.
pub open spec fn is_note_letter(c: char) -> bool {
    ('a' <= c && c <= 'g') || ('A' <= c && c <= 'G')
}

/// An accidental sign: `#` or `♯` for sharp, `b` or `♭` for flat, `♮` for natural.
pub open spec fn is_accidental(c: char) -> bool {
    c == '#' || c == '\u{266f}' || c == '\u{266e}' || c == 'b' || c == '\u{266d}'
}

/// An octave number of one digit.
pub open spec fn is_octave_digit(c: char) -> bool {
    '0' <= c && c <= '9'
}

/// The semitones from C up to the note that the letter names.
pub open spec fn letter_semitone(c: char) -> int {
    if c == 'c' || c == 'C' {
        0
    } else if c == 'd' || c == 'D' {
        2
    } else if c == 'e' || c == 'E' {
        4
    } else if c == 'f' || c == 'F' {
        5
    } else if c == 'g' || c == 'G' {
        7
    } else if c == 'a' || c == 'A' {
        9
    } else {
        11
    }
}

/// The semitones by which an accidental sign moves a note: up one for a sharp,
/// down one for a flat, none for a natural.
pub open spec fn accidental_shift(c: char) -> int {
    if c == '#' || c == '\u{266f}' {
        1
    } else if c == 'b' || c == '\u{266d}' {
        -1
    } else {
        0
    }
}

/// The number that a digit stands for.
pub open spec fn digit_value(c: char) -> int {
    c as int - '0' as int
}

/// The MIDI note number of a note in an octave: twelve semitones to the octave,
/// octave -1 starting at note 0.
pub open spec fn note_number(semitone: int, octave: int) -> int {
    12 * (octave + 1) + semitone
}

/// A spelling in the order letter, accidental, octave digit; the accidental may
/// be left out.
pub open spec fn is_spelling(s: Seq<char>) -> bool {
    ||| s.len() == 2 && is_note_letter(s[0]) && is_octave_digit(s[1])
    ||| s.len() == 3 && is_note_letter(s[0]) && is_accidental(s[1]) && is_octave_digit(s[2])
}

/// The MIDI note number that a spelling names. It lies between 11 (`Cb0`) and
/// 132 (`B#9`), so the highest spellings name no MIDI note.
pub open spec fn spelling_number(s: Seq<char>) -> int
    recommends
        is_spelling(s),
{
    note_number(
        letter_semitone(s[0]) + if s.len() == 3 {
            accidental_shift(s[1])
        } else {
            0
        },
        digit_value(s.last()),
    )
}

/// A pitch that has a MIDI note number.
#[derive(Clone, Copy, Debug, PartialEq, Eq)]
pub struct Pitch {
    midi: u8,
}

impl Pitch {
    #[verifier::type_invariant]
    spec fn in_midi_range(self) -> bool {
        self.midi <= MIDI_MAX
    }

    /// The pitch's MIDI note number.
    pub closed spec fn number(self) -> int {
        self.midi as int
    }

    /// The lowest pitch, C in octave -1: MIDI note 0. It stands for every pitch
    /// that could not be read.
    pub fn sentinel() -> (p: Pitch)
        ensures
            p.number() == 0,
            p.number() == note_number(letter_semitone('C'), -1),
    {
        Pitch { midi: 0 }
    }

    /// The pitch of a MIDI note, if `midi` is one.
    pub fn from_midi(midi: u8) -> (r: Option<Pitch>)
        ensures
            r is Some <==> midi <= MIDI_MAX,
            r matches Some(p) ==> p.number() == midi,
    {
        if midi <= MIDI_MAX {
            Some(Pitch { midi })
        } else {
            None
        }
    }

    /// The pitch's MIDI note number.
    pub fn to_midi(&self) -> (midi: u8)
        ensures
            midi == self.number(),
            midi <= MIDI_MAX,
    {
        proof {
            use_type_invariant(self);
        }
        self.midi
    }

    /// Reads a spelling. There is a pitch exactly when `spelling` is one and the
    /// note it names is a MIDI note.
    pub fn from_spelling(spelling: &str) -> (r: Option<Pitch>)
        ensures
            r is Some <==> is_spelling(spelling@) && spelling_number(spelling@) <= MIDI_MAX,
            r matches Some(p) ==> p.number() == spelling_number(spelling@),
    {
        let chars = chars_of(spelling);
        let n = chars.len();
        if n != 2 && n != 3 {
            return None;
        }
        let letter = chars[0];
        let octave = chars[n - 1];
        if !is_letter(letter) || !is_digit(octave) {
            return None;
        }
        let shift: i16 = if n == 3 {
            if !is_sign(chars[1]) {
                return None;
            }
            shift_of(chars[1])
        } else {
            0
        };
        // G9 is the highest MIDI note: what is spelled above it is not handed on
        let number: i16 = 12 * (value_of(octave) + 1) + semitone_of(letter) + shift;
        if number > MIDI_MAX as i16 {
            return None;
        }
        match spelled_midi(spelling) {
            Some(midi) => Some(Pitch { midi }),
            None => None,
        }
    }
}

/// Whether `c` is a note letter.
pub fn is_letter(c: char) -> (r: bool)
    ensures
        r == is_note_letter(c),
{
    (c >= 'a' && c <= 'g') || (c >= 'A' && c <= 'G')
}

/// Whether `c` is an accidental sign.
pub fn is_sign(c: char) -> (r: bool)
    ensures
        r == is_accidental(c),
{
    c == '#' || c == '\u{266f}' || c == '\u{266e}' || c == 'b' || c == '\u{266d}'
}

/// Whether `c` is an octave digit.
pub fn is_digit(c: char) -> (r: bool)
    ensures
        r == is_octave_digit(c),
{
    c >= '0' && c <= '9'
}

fn semitone_of(c: char) -> (r: i16)
    requires
        is_note_letter(c),
    ensures
        r == letter_semitone(c),
{
    match c {
        'c' | 'C' => 0,
        'd' | 'D' => 2,
        'e' | 'E' => 4,
        'f' | 'F' => 5,
        'g' | 'G' => 7,
        'a' | 'A' => 9,
        _ => 11,
    }
}

fn shift_of(c: char) -> (r: i16)
    ensures
        r == accidental_shift(c),
{
    if c == '#' || c == '\u{266f}' {
        1
    } else if c == 'b' || c == '\u{266d}' {
        -1
    } else {
        0
    }
}

fn value_of(c: char) -> (r: i16)
    requires
        is_octave_digit(c),
    ensures
        r == digit_value(c),
{
    (c as u32 - '0' as u32) as i16
}

/// `Pitch::try_from` of musical_scales reads the spelling, and `Pitch::to_midi`
/// gives the note number of what was read. Claimed for spellings in the order
/// letter, accidental, octave digit that name a MIDI note: the spelling is
/// accepted, and the number is twelve times the octave above -1, plus the
/// letter's semitones, moved by the accidental.
#[verifier::external_body]
fn spelled_midi(spelling: &str) -> (midi: Option<u8>)
    requires
        is_spelling(spelling@),
        spelling_number(spelling@) <= MIDI_MAX,
    ensures
        midi == Some(spelling_number(spelling@) as u8),
{
    match musical_scales::Pitch::try_from(spelling) {
        Ok(pitch) => Some(pitch.to_midi()),
        Err(_) => None,
    }
}

} // verus!
