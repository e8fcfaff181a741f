//! The playlist: one entry per sample, by rising pitch, and its text.
//!
//! Each entry names a file, the note at which the sample sounds unchanged (its
//! natural note) and, from the second entry on, the note at which playback
//! switches to it from the entry before. All notes are written with the offset
//! taken off.

use vstd::prelude::*;
use vstd::string::StringExecFns;
use crate::decimal::{decimal_text, push_decimal};
use crate::order::{
    is_ordered, lemma_order_is_arrangement, lemma_order_rises, order_by_pitch, sort_by_pitch,
};
use crate::scan::{dir2pitch, lemma_resolved_number_in_range, resolved_number};

verus! {

/// What an entry says.
pub struct EntryModel {
    pub file_name: Seq<char>,
    pub natural: int,
    pub switch: Option<int>,
}

/// What a playlist says.
pub struct PlaylistModel {
    pub looping: bool,
    pub entries: Seq<EntryModel>,
}

/// One sample of a playlist.
#[derive(Clone, Debug)]
pub struct Entry {
    pub file_name: String,
    pub natural: i32,
    pub switch: Option<i32>,
}

/// A playlist: whether the samples loop, and the samples by rising pitch.
#[derive(Clone, Debug)]
pub struct Playlist {
    pub looping: bool,
    pub entries: Vec<Entry>,
}

impl View for Entry {
    type V = EntryModel;

    open spec fn view(&self) -> EntryModel {
        EntryModel {
            file_name: self.file_name@,
            natural: self.natural as int,
            switch: match self.switch {
                Some(note) => Some(note as int),
                None => None,
            },
        }
    }
}

impl View for Playlist {
    type V = PlaylistModel;

    open spec fn view(&self) -> PlaylistModel {
        PlaylistModel {
            looping: self.looping,
            entries: Seq::new(self.entries@.len(), |k: int| self.entries@[k]@),
        }
    }
}

/// Half of `d`, rounded toward zero.
pub open spec fn half_toward_zero(d: int) -> int {
    if d >= 0 {
        d / 2
    } else {
        -((-d) / 2)
    }
}

/// The note at which playback passes from a sample at `below` to the next one at
/// `note`: `below` plus half the distance, the half rounded toward zero.
pub open spec fn crossover(below: int, note: int) -> int {
    below + half_toward_zero(note - below)
}

/// The MIDI note of every name, in the order of the names.
pub open spec fn name_keys(names: Seq<Seq<char>>) -> Seq<u8> {
    Seq::new(names.len(), |k: int| resolved_number(names[k]) as u8)
}

/// The entry at place `k` of the playlist in which the names come in the order
/// `order`. The first entry has no switch note. A later one has the crossover
/// from the entry before it, less the offset, unless the crossover itself is 0.
pub open spec fn entry_at(
    names: Seq<Seq<char>>,
    order: Seq<usize>,
    k: int,
    offset: int,
) -> EntryModel {
    let name = names[order[k] as int];
    let note = resolved_number(name);
    EntryModel {
        file_name: name,
        natural: note - offset,
        switch: if k > 0 && crossover(resolved_number(names[order[k - 1] as int]), note) != 0 {
            Some(crossover(resolved_number(names[order[k - 1] as int]), note) - offset)
        } else {
            None
        },
    }
}

/// The playlist of the samples in the files `names`.
pub open spec fn playlist_of(names: Seq<Seq<char>>, looping: bool, offset: int) -> PlaylistModel {
    PlaylistModel {
        looping,
        entries: Seq::new(
            names.len(),
            |k: int| entry_at(names, order_by_pitch(name_keys(names)), k, offset),
        ),
    }
}

/// The two lines that every playlist text starts with.
pub open spec fn header_text(looping: bool) -> Seq<char> {
    "disting playlist v1\n"@ + if looping {
        "- loop=1\n"@
    } else {
        "- loop=0\n"@
    }
}

/// The lines of one entry: the file name, the natural note, and the switch note
/// if the entry has one.
pub open spec fn entry_text(entry: EntryModel) -> Seq<char> {
    let switch_line = match entry.switch {
        Some(note) => "- switch "@ + decimal_text(note) + "\n"@,
        None => Seq::empty(),
    };
    entry.file_name + "\n"@ + "- natural "@ + decimal_text(entry.natural) + "\n"@ + switch_line
}

/// The lines of the first `n` entries.
pub open spec fn entries_text(entries: Seq<EntryModel>, n: nat) -> Seq<char>
    decreases n,
{
    if n == 0 {
        Seq::empty()
    } else {
        entries_text(entries, (n - 1) as nat) + entry_text(entries[n - 1])
    }
}

/// The text of a playlist: the header, then every entry in order.
pub open spec fn playlist_text(playlist: PlaylistModel) -> Seq<char> {
    header_text(playlist.looping) + entries_text(playlist.entries, playlist.entries.len())
}

/// Entries come by rising pitch: along the playlist neither the MIDI note of an
/// entry's file nor its natural note ever falls.
pub proof fn lemma_entries_rise(names: Seq<Seq<char>>, looping: bool, offset: int)
    requires
        names.len() <= usize::MAX,
    ensures
        forall|a: int, b: int|
            0 <= a <= b < names.len() ==> resolved_number(
                (#[trigger] playlist_of(names, looping, offset).entries[a]).file_name,
            ) <= resolved_number(
                (#[trigger] playlist_of(names, looping, offset).entries[b]).file_name,
            ),
        forall|a: int, b: int|
            0 <= a <= b < names.len() ==> (#[trigger] playlist_of(
                names,
                looping,
                offset,
            ).entries[a]).natural <= (#[trigger] playlist_of(
                names,
                looping,
                offset,
            ).entries[b]).natural,
{
    let keys = name_keys(names);
    let order = order_by_pitch(keys);
    lemma_order_rises(keys);
    lemma_order_is_arrangement(keys);
    assert forall|a: int, b: int| 0 <= a <= b < names.len() implies resolved_number(
        names[order[a] as int],
    ) <= resolved_number(names[order[b] as int]) by {
        lemma_resolved_number_in_range(names[order[a] as int]);
        lemma_resolved_number_in_range(names[order[b] as int]);
        assert(keys[order[a] as int] <= keys[order[b] as int]);
    }
}

/// The playlist holds every name once: each position of `names` is the file of
/// exactly one entry.
pub proof fn lemma_entries_are_the_names(names: Seq<Seq<char>>, looping: bool, offset: int)
    requires
        names.len() <= usize::MAX,
    ensures
        playlist_of(names, looping, offset).entries.len() == names.len(),
        forall|k: int|
            0 <= k < names.len() ==> (#[trigger] playlist_of(
                names,
                looping,
                offset,
            ).entries[k]).file_name == names[order_by_pitch(name_keys(names))[k] as int],
        forall|i: usize| i < names.len() ==> order_by_pitch(name_keys(names)).contains(i),
        forall|a: int, b: int|
            0 <= a < b < names.len() ==> order_by_pitch(name_keys(names))[a] != order_by_pitch(
                name_keys(names),
            )[b],
{
    lemma_order_is_arrangement(name_keys(names));
}

/// The first entry has no switch note, and so its text has no switch line: it
/// is the file name and the natural note, a line each.
pub proof fn lemma_first_entry_has_no_switch(names: Seq<Seq<char>>, looping: bool, offset: int)
    requires
        0 < names.len() <= usize::MAX,
    ensures
        playlist_of(names, looping, offset).entries[0].switch is None,
        entry_text(playlist_of(names, looping, offset).entries[0]) == playlist_of(
            names,
            looping,
            offset,
        ).entries[0].file_name + "\n"@ + "- natural "@ + decimal_text(
            playlist_of(names, looping, offset).entries[0].natural,
        ) + "\n"@,
{
}

/// An entry after the first has a switch note exactly when the crossover from
/// the entry before it is not 0, and the crossover lies between the two notes.
pub proof fn lemma_later_entries_switch(names: Seq<Seq<char>>, looping: bool, offset: int, k: int)
    requires
        names.len() <= usize::MAX,
        0 < k < names.len(),
    ensures
        ({
            let entries = playlist_of(names, looping, offset).entries;
            let below = resolved_number(entries[k - 1].file_name);
            let note = resolved_number(entries[k].file_name);
            &&& below <= crossover(below, note) <= note
            &&& entries[k].switch == if crossover(below, note) != 0 {
                Some(crossover(below, note) - offset)
            } else {
                None
            }
        }),
{
    lemma_entries_rise(names, looping, offset);
    let entries = playlist_of(names, looping, offset).entries;
    assert(resolved_number(entries[k - 1].file_name) <= resolved_number(entries[k].file_name));
}

/// Every playlist text starts with the header: the line `disting playlist v1`,
/// then the line `- loop=1` where the samples loop and `- loop=0` where they do
/// not. The entries follow it.
pub proof fn lemma_text_starts_with_header(playlist: PlaylistModel)
    ensures
        header_text(true) == "disting playlist v1\n- loop=1\n"@,
        header_text(false) == "disting playlist v1\n- loop=0\n"@,
        header_text(playlist.looping).is_prefix_of(playlist_text(playlist)),
        playlist_text(playlist).skip(header_text(playlist.looping).len() as int) == entries_text(
            playlist.entries,
            playlist.entries.len(),
        ),
{
    reveal_strlit("disting playlist v1\n");
    reveal_strlit("- loop=1\n");
    reveal_strlit("- loop=0\n");
    reveal_strlit("disting playlist v1\n- loop=1\n");
    reveal_strlit("disting playlist v1\n- loop=0\n");
    assert(header_text(true) =~= "disting playlist v1\n- loop=1\n"@);
    assert(header_text(false) =~= "disting playlist v1\n- loop=0\n"@);
    let header = header_text(playlist.looping);
    let text = playlist_text(playlist);
    assert(text.subrange(0, header.len() as int) =~= header);
    assert(text.skip(header.len() as int) =~= entries_text(
        playlist.entries,
        playlist.entries.len(),
    ));
}

/// With no sample the playlist has no entry and its text is the header alone.
pub proof fn lemma_empty_playlist(looping: bool, offset: int)
    ensures
        playlist_of(Seq::empty(), looping, offset).entries.len() == 0,
        playlist_text(playlist_of(Seq::empty(), looping, offset)) == header_text(looping),
{
    assert(playlist_text(playlist_of(Seq::empty(), looping, offset)) =~= header_text(looping));
}

/// The note at which playback passes from a sample at `below` to one at `note`.
pub fn switch_note(below: u8, note: u8) -> (switch: i32)
    ensures
        switch == crossover(below as int, note as int),
{
    let below: i32 = below as i32;
    let note: i32 = note as i32;
    if note >= below {
        below + (note - below) / 2
    } else {
        below - (below - note) / 2
    }
}

impl Playlist {
    /// The playlist of the samples in the files `names`: their pitches read from
    /// the names, the entries by rising pitch, samples of one pitch in the order
    /// in which they were given.
    pub fn build(names: &Vec<String>, looping: bool, offset: i16) -> (playlist: Playlist)
        ensures
            playlist@ == playlist_of(names.deep_view(), looping, offset as int),
    {
        let ghost texts = names.deep_view();
        let n = names.len();
        let mut keys: Vec<u8> = Vec::new();
        let mut i: usize = 0;
        while i < n
            invariant
                i <= n,
                n == names@.len(),
                texts == names.deep_view(),
                keys@ == name_keys(texts).take(i as int),
            decreases n - i,
        {
            let pitch = dir2pitch(names[i].as_str());
            keys.push(pitch.to_midi());
            assert(keys@ == name_keys(texts).take(i + 1));
            i += 1;
        }
        assert(keys@ == name_keys(texts));
        let order = sort_by_pitch(&keys);
        let mut entries: Vec<Entry> = Vec::new();
        let mut k: usize = 0;
        while k < n
            invariant
                k <= n,
                n == names@.len(),
                n == order@.len(),
                texts == names.deep_view(),
                keys@ == name_keys(texts),
                order@ == order_by_pitch(keys@),
                is_ordered(keys@, order@),
                entries@.len() == k,
                forall|j: int|
                    0 <= j < k ==> (#[trigger] entries@[j])@ == entry_at(
                        texts,
                        order@,
                        j,
                        offset as int,
                    ),
            decreases n - k,
        {
            let at = order[k];
            let note = keys[at];
            let switch: Option<i32> = if k > 0 {
                let crossing = switch_note(keys[order[k - 1]], note);
                if crossing != 0 {
                    Some(crossing - offset as i32)
                } else {
                    None
                }
            } else {
                None
            };
            let entry = Entry {
                file_name: names[at].clone(),
                natural: note as i32 - offset as i32,
                switch,
            };
            proof {
                lemma_resolved_number_in_range(texts[at as int]);
                if k > 0 {
                    lemma_resolved_number_in_range(texts[order@[k - 1] as int]);
                }
                assert(entry.file_name@ == texts[at as int]);
                assert(entry@.natural == entry_at(texts, order@, k as int, offset as int).natural);
                assert(entry@.switch == entry_at(texts, order@, k as int, offset as int).switch);
            }
            assert(entry@ == entry_at(texts, order@, k as int, offset as int));
            entries.push(entry);
            k += 1;
        }
        let playlist = Playlist { looping, entries };
        assert(playlist@.entries =~= playlist_of(texts, looping, offset as int).entries);
        playlist
    }

    /// The playlist as text, every line ended by a line feed.
    pub fn to_text(&self) -> (text: String)
        ensures
            text@ == playlist_text(self@),
    {
        let mut text = String::from_str("disting playlist v1\n");
        if self.looping {
            text.append("- loop=1\n");
        } else {
            text.append("- loop=0\n");
        }
        let n = self.entries.len();
        let mut k: usize = 0;
        while k < n
            invariant
                k <= n,
                n == self.entries@.len(),
                text@ == header_text(self.looping) + entries_text(self@.entries, k as nat),
            decreases n - k,
        {
            let entry = &self.entries[k];
            let ghost before = text@;
            text.append(entry.file_name.as_str());
            text.append("\n");
            text.append("- natural ");
            push_decimal(&mut text, entry.natural);
            text.append("\n");
            match entry.switch {
                Some(note) => {
                    text.append("- switch ");
                    push_decimal(&mut text, note);
                    text.append("\n");
                },
                None => {},
            }
            assert(text@ == before + entry_text(entry@));
            assert(self@.entries[k as int] == entry@);
            k += 1;
        }
        text
    }
}

/// The playlist text for the samples in the files `names`.
pub fn build_playlist(names: &Vec<String>, looping: bool, offset: i16) -> (text: String)
    ensures
        text@ == playlist_text(playlist_of(names.deep_view(), looping, offset as int)),
{
    Playlist::build(names, looping, offset).to_text()
}

} // verus!
