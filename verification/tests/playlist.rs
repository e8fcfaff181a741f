use disting_playlist::decimal::{decimal, push_decimal};
use disting_playlist::extension::has_wav_extension;
use disting_playlist::order::sort_by_pitch;
use disting_playlist::playlist::{build_playlist, switch_note, Entry, Playlist};
use disting_playlist::scan::dir2pitch;
use disting_playlist::text::chars_of;

fn names(list: &[&str]) -> Vec<String> {
    list.iter().map(|s| s.to_string()).collect()
}

#[test]
fn chars_of_keeps_every_character() {
    assert_eq!(chars_of("C♯1.wav"), vec!['C', '♯', '1', '.', 'w', 'a', 'v']);
    assert_eq!(chars_of(""), Vec::<char>::new());
}

#[test]
fn decimal_text_of_numbers() {
    assert_eq!(decimal(0), "0");
    assert_eq!(decimal(7), "7");
    assert_eq!(decimal(10), "10");
    assert_eq!(decimal(66), "66");
    assert_eq!(decimal(-24), "-24");
    assert_eq!(decimal(-1), "-1");
    assert_eq!(decimal(32895), "32895");
    assert_eq!(decimal(1234567890), "1234567890");
    assert_eq!(decimal(i32::MAX), "2147483647");
    assert_eq!(decimal(i32::MIN), "-2147483648");
}

#[test]
fn push_decimal_adds_to_the_end() {
    let mut text = String::from("- natural ");
    push_decimal(&mut text, 60);
    assert_eq!(text, "- natural 60");
    push_decimal(&mut text, -5);
    assert_eq!(text, "- natural 60-5");
}

#[test]
fn order_rises_by_key() {
    assert_eq!(sort_by_pitch(&vec![60, 36, 48]), vec![1, 2, 0]);
    assert_eq!(sort_by_pitch(&vec![1, 2, 3]), vec![0, 1, 2]);
    assert_eq!(sort_by_pitch(&vec![3, 2, 1, 0]), vec![3, 2, 1, 0]);
    assert_eq!(sort_by_pitch(&vec![]), Vec::<usize>::new());
    assert_eq!(sort_by_pitch(&vec![9]), vec![0]);
}

#[test]
fn order_keeps_equal_keys_as_they_came() {
    assert_eq!(sort_by_pitch(&vec![48, 36, 48, 36]), vec![1, 3, 0, 2]);
    assert_eq!(sort_by_pitch(&vec![0, 0, 0]), vec![0, 1, 2]);
    assert_eq!(sort_by_pitch(&vec![5, 0, 5, 0, 5]), vec![1, 3, 0, 2, 4]);
}

#[test]
fn order_is_an_arrangement_that_never_falls() {
    let keys: Vec<u8> = vec![17, 250, 3, 3, 99, 0, 17, 128, 64, 3];
    let order = sort_by_pitch(&keys);
    assert_eq!(order.len(), keys.len());
    let mut seen = vec![false; keys.len()];
    for &at in &order {
        assert!(!seen[at]);
        seen[at] = true;
    }
    for pair in order.windows(2) {
        assert!(keys[pair[0]] < keys[pair[1]] || (keys[pair[0]] == keys[pair[1]] && pair[0] < pair[1]));
    }
}

#[test]
fn switch_is_half_way_rounded_toward_zero() {
    assert_eq!(switch_note(36, 48), 42);
    assert_eq!(switch_note(48, 60), 54);
    assert_eq!(switch_note(0, 0), 0);
    assert_eq!(switch_note(0, 1), 0);
    assert_eq!(switch_note(0, 2), 1);
    assert_eq!(switch_note(60, 61), 60);
    assert_eq!(switch_note(60, 63), 61);
    assert_eq!(switch_note(0, 127), 63);
    assert_eq!(switch_note(61, 60), 61);
    assert_eq!(switch_note(63, 60), 62);
    assert_eq!(switch_note(127, 127), 127);
}

#[test]
fn switch_computation() {
    let files = names(&["pad-C4.wav", "pad-C2.wav", "pad-C3.wav"]);
    assert_eq!(dir2pitch("pad-C2.wav").to_midi(), 36);
    assert_eq!(dir2pitch("pad-C3.wav").to_midi(), 48);
    assert_eq!(dir2pitch("pad-C4.wav").to_midi(), 60);
    let playlist = Playlist::build(&files, false, -24);
    assert!(!playlist.looping);
    assert_eq!(playlist.entries.len(), 3);
    assert_eq!(playlist.entries[0].file_name, "pad-C2.wav");
    assert_eq!(playlist.entries[0].natural, 60);
    assert_eq!(playlist.entries[0].switch, None);
    assert_eq!(playlist.entries[1].file_name, "pad-C3.wav");
    assert_eq!(playlist.entries[1].natural, 72);
    assert_eq!(playlist.entries[1].switch, Some(66));
    assert_eq!(playlist.entries[2].file_name, "pad-C4.wav");
    assert_eq!(playlist.entries[2].natural, 84);
    assert_eq!(playlist.entries[2].switch, Some(78));
    assert_eq!(
        build_playlist(&files, false, -24),
        "disting playlist v1\n- loop=0\npad-C2.wav\n- natural 60\npad-C3.wav\n- natural 72\n- switch 66\npad-C4.wav\n- natural 84\n- switch 78\n"
    );
    assert_eq!(playlist.to_text(), build_playlist(&files, false, -24));
}

#[test]
fn empty_input() {
    assert_eq!(build_playlist(&Vec::new(), false, -24), "disting playlist v1\n- loop=0\n");
    assert_eq!(build_playlist(&Vec::new(), true, -24), "disting playlist v1\n- loop=1\n");
    let playlist = Playlist::build(&Vec::new(), false, 0);
    assert!(playlist.entries.is_empty());
}

#[test]
fn header_comes_first() {
    for looping in [false, true] {
        for files in [names(&[]), names(&["a-C1.wav"]), names(&["- loop=1", "b2", "zz"])] {
            let text = build_playlist(&files, looping, 3);
            let mut lines = text.lines();
            assert_eq!(lines.next(), Some("disting playlist v1"));
            assert_eq!(lines.next(), Some(if looping { "- loop=1" } else { "- loop=0" }));
            assert!(text.ends_with('\n'));
        }
    }
}

#[test]
fn first_entry_has_no_switch() {
    let one = names(&["solo-A4.wav"]);
    assert_eq!(build_playlist(&one, true, 0), "disting playlist v1\n- loop=1\nsolo-A4.wav\n- natural 69\n");
    let playlist = Playlist::build(&names(&["b-C5.wav", "a-C1.wav", "c-G9.wav"]), false, -24);
    assert_eq!(playlist.entries[0].file_name, "a-C1.wav");
    assert_eq!(playlist.entries[0].switch, None);
    assert!(playlist.entries[1].switch.is_some());
    assert!(playlist.entries[2].switch.is_some());
}

#[test]
fn entries_come_by_rising_note() {
    let files = names(&["x-G9.wav", "none.wav", "x-C1#.wav", "x-C#1.wav", "x-a4.wav", "x-A9.wav", "x-Cb0.wav", "x-C1.wav"]);
    let playlist = Playlist::build(&files, false, 0);
    let got: Vec<(&str, i32)> = playlist.entries.iter().map(|e| (e.file_name.as_str(), e.natural)).collect();
    assert_eq!(
        got,
        vec![
            ("none.wav", 0),
            ("x-A9.wav", 0),
            ("x-Cb0.wav", 11),
            ("x-C1.wav", 24),
            ("x-C1#.wav", 25),
            ("x-C#1.wav", 25),
            ("x-a4.wav", 69),
            ("x-G9.wav", 127),
        ]
    );
    for pair in playlist.entries.windows(2) {
        assert!(pair[0].natural <= pair[1].natural);
    }
}

#[test]
fn a_crossover_of_zero_is_left_out() {
    let files = names(&["one.wav", "two.wav", "x-Cb0.wav"]);
    assert_eq!(
        build_playlist(&files, false, -24),
        "disting playlist v1\n- loop=0\none.wav\n- natural 24\ntwo.wav\n- natural 24\nx-Cb0.wav\n- natural 35\n- switch 29\n"
    );
}

#[test]
fn the_zero_test_is_made_before_the_offset() {
    let files = names(&["none.wav", "x-Cb0.wav"]);
    let playlist = Playlist::build(&files, false, 5);
    assert_eq!(playlist.entries[1].natural, 6);
    assert_eq!(playlist.entries[1].switch, Some(0));
    assert_eq!(
        playlist.to_text(),
        "disting playlist v1\n- loop=0\nnone.wav\n- natural -5\nx-Cb0.wav\n- natural 6\n- switch 0\n"
    );
}

#[test]
fn offsets_at_the_ends_of_their_range() {
    let files = names(&["x-G9.wav"]);
    assert_eq!(build_playlist(&files, false, i16::MIN), "disting playlist v1\n- loop=0\nx-G9.wav\n- natural 32895\n");
    assert_eq!(build_playlist(&files, false, i16::MAX), "disting playlist v1\n- loop=0\nx-G9.wav\n- natural -32640\n");
}

#[test]
fn to_text_writes_what_the_entries_say() {
    let playlist = Playlist {
        looping: true,
        entries: vec![
            Entry { file_name: String::from("low"), natural: -3, switch: None },
            Entry { file_name: String::from("high"), natural: 40, switch: Some(18) },
        ],
    };
    assert_eq!(playlist.to_text(), "disting playlist v1\n- loop=1\nlow\n- natural -3\nhigh\n- natural 40\n- switch 18\n");
}

#[test]
fn extension_case_insensitivity() {
    assert!(has_wav_extension("sample-A3.WAV"));
    assert!(!has_wav_extension("sample-A3.wav.bak"));
    assert!(has_wav_extension("sample-A3.wav"));
    assert!(has_wav_extension("sample-A3.Wav"));
    assert!(has_wav_extension("sample-A3.wAv"));
    assert!(has_wav_extension("a.wav"));
    assert!(has_wav_extension("..wav"));
    assert!(has_wav_extension("é.wav"));
}

#[test]
fn names_without_the_extension() {
    for name in ["", "wav", ".wav", "awav", "a.wave", "a.wa", "a.mp3", "a.wav ", "a.wav.", "a.w4v", "a_wav", "playlist.txt"] {
        assert!(!has_wav_extension(name), "{:?}", name);
    }
}
