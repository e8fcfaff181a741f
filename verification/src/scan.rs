//! Finding the pitch in a file name.
//!
//! A pitch token is a note letter with an octave digit next to it, and an
//! accidental sign either between the two or after the digit: `C1`, `C#1` and
//! `C1#` are tokens. A name's pitch is read from the first token in it.

use vstd::prelude::*;
use crate::pitch::{
    is_accidental, is_digit, is_letter, is_note_letter, is_octave_digit, is_sign, is_spelling,
    spelling_number, Pitch, MIDI_MAX,
};
use crate::text::{chars_of, push_char};

verus! {

/// The token that starts at position `i` of `name`, spelled letter, accidental,
/// octave digit. The form with the digit next to the letter is tried first, and
/// takes an accidental that follows the digit.
pub open spec fn token_at(name: Seq<char>, i: int) -> Option<Seq<char>> {
    if 0 <= i && i + 1 < name.len() && is_note_letter(name[i]) {
        if is_octave_digit(name[i + 1]) {
            if i + 2 < name.len() && is_accidental(name[i + 2]) {
                Some(seq![name[i], name[i + 2], name[i + 1]])
            } else {
                Some(seq![name[i], name[i + 1]])
            }
        } else if i + 2 < name.len() && is_accidental(name[i + 1]) && is_octave_digit(
            name[i + 2],
        ) {
            Some(seq![name[i], name[i + 1], name[i + 2]])
        } else {
            None
        }
    } else {
        None
    }
}

/// The first token of `name` that starts at position `i` or later.
pub open spec fn first_token_from(name: Seq<char>, i: int) -> Option<Seq<char>>
    decreases name.len() - i,
{
    if i < 0 || i >= name.len() {
        None
    } else if token_at(name, i) is Some {
        token_at(name, i)
    } else {
        first_token_from(name, i + 1)
    }
}

/// The first token of `name`.
pub open spec fn first_token(name: Seq<char>) -> Option<Seq<char>> {
    first_token_from(name, 0)
}

/// The MIDI note number that a name resolves to: that of its first token, or 0
/// where the name has no token or its first token names a note above the MIDI
/// range. Tokens after the first are never looked at.
pub open spec fn resolved_number(name: Seq<char>) -> int {
    match first_token(name) {
        Some(token) => if spelling_number(token) <= MIDI_MAX {
            spelling_number(token)
        } else {
            0
        },
        None => 0,
    }
}

/// Every token is a spelling.
pub proof fn lemma_token_is_spelling(name: Seq<char>, i: int)
    requires
        token_at(name, i) is Some,
    ensures
        is_spelling(token_at(name, i).unwrap()),
{
}

/// The first token is the token at the least position at which one starts, and
/// there is none exactly when no position starts one.
pub proof fn lemma_first_token_is_leftmost(name: Seq<char>)
    ensures
        first_token(name) is None <==> forall|i: int| token_at(name, i) is None,
        first_token(name) is Some ==> exists|i: int|
            0 <= i < name.len() && #[trigger] token_at(name, i) == first_token(name) && forall|
                j: int,
            |
                j < i ==> token_at(name, j) is None,
{
    lemma_first_token_from(name, 0);
}

proof fn lemma_first_token_from(name: Seq<char>, start: int)
    requires
        0 <= start,
    ensures
        first_token_from(name, start) is None <==> forall|i: int|
            start <= i ==> token_at(name, i) is None,
        first_token_from(name, start) is Some ==> exists|i: int|
            start <= i < name.len() && #[trigger] token_at(name, i) == first_token_from(
                name,
                start,
            ) && forall|j: int| start <= j < i ==> token_at(name, j) is None,
    decreases name.len() - start,
{
    if start >= name.len() {
    } else if token_at(name, start) is Some {
        assert(token_at(name, start) == first_token_from(name, start));
    } else {
        lemma_first_token_from(name, start + 1);
        if first_token_from(name, start) is Some {
            let i = choose|i: int|
                start + 1 <= i < name.len() && #[trigger] token_at(name, i) == first_token_from(
                    name,
                    start + 1,
                ) && forall|j: int| start + 1 <= j < i ==> token_at(name, j) is None;
            assert(token_at(name, i) == first_token_from(name, start));
        }
    }
}

/// A name in which no token starts resolves to note 0.
pub proof fn lemma_no_token_resolves_to_zero(name: Seq<char>)
    requires
        forall|i: int| token_at(name, i) is None,
    ensures
        resolved_number(name) == 0,
{
    lemma_first_token_is_leftmost(name);
}

/// Every name resolves to a MIDI note.
pub proof fn lemma_resolved_number_in_range(name: Seq<char>)
    ensures
        0 <= resolved_number(name) <= MIDI_MAX,
{
    lemma_first_token_is_leftmost(name);
    if first_token(name) is Some {
        let i = choose|i: int|
            0 <= i < name.len() && #[trigger] token_at(name, i) == first_token(name);
        lemma_token_is_spelling(name, i);
    }
}

/// An accidental reads the same on either side of the octave digit: with the
/// letter `l`, the sign `a` and the digit `d`, the tokens of `l a d` and of
/// `l d a` are one spelling, whatever follows them.
pub proof fn lemma_accidental_on_either_side(l: char, a: char, d: char, rest: Seq<char>)
    requires
        is_note_letter(l),
        is_accidental(a),
        is_octave_digit(d),
    ensures
        token_at(seq![l, a, d] + rest, 0) == Some(seq![l, a, d]),
        token_at(seq![l, d, a] + rest, 0) == Some(seq![l, a, d]),
        resolved_number(seq![l, a, d] + rest) == resolved_number(seq![l, d, a] + rest),
{
}

/// The first pitch token of `name`, spelled letter, accidental, octave digit.
pub fn find_pitch_token(name: &str) -> (token: Option<String>)
    ensures
        token is Some <==> first_token(name@) is Some,
        token matches Some(t) ==> first_token(name@) == Some(t@),
{
    let chars = chars_of(name);
    let n = chars.len();
    let mut i: usize = 0;
    while i < n
        invariant
            i <= n,
            n == chars@.len(),
            chars@ == name@,
            first_token(name@) == first_token_from(name@, i as int),
        decreases n - i,
    {
        if n - i >= 2 && is_letter(chars[i]) {
            if is_digit(chars[i + 1]) {
                let mut token = String::new();
                push_char(&mut token, chars[i]);
                if n - i >= 3 && is_sign(chars[i + 2]) {
                    push_char(&mut token, chars[i + 2]);
                }
                push_char(&mut token, chars[i + 1]);
                assert(Some(token@) == token_at(name@, i as int));
                return Some(token);
            } else if n - i >= 3 && is_sign(chars[i + 1]) && is_digit(chars[i + 2]) {
                let mut token = String::new();
                push_char(&mut token, chars[i]);
                push_char(&mut token, chars[i + 1]);
                push_char(&mut token, chars[i + 2]);
                assert(Some(token@) == token_at(name@, i as int));
                return Some(token);
            }
        }
        i += 1;
    }
    None
}

/// The pitch of the sample in the file `file_name`: that of the first pitch
/// token in the name. Where the name has no token, or the token names a note
/// above the MIDI range, the pitch is the sentinel, note 0.
pub fn dir2pitch(file_name: &str) -> (pitch: Pitch)
    ensures
        pitch.number() == resolved_number(file_name@),
        0 <= pitch.number() <= MIDI_MAX,
{
    proof {
        lemma_resolved_number_in_range(file_name@);
    }
    match find_pitch_token(file_name) {
        Some(token) => {
            proof {
                lemma_first_token_is_leftmost(file_name@);
            }
            match Pitch::from_spelling(token.as_str()) {
                Some(pitch) => pitch,
                None => Pitch::sentinel(),
            }
        },
        None => Pitch::sentinel(),
    }
}

} // verus!
