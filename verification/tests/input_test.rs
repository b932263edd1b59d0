use midianimator::gm::gm_program_to_name;
use midianimator::graph::node_kind;
use midianimator::note_input::{
    convert_note_numbers, try_convert_note_numbers, try_type_of_note_number, type_of_note_number,
    InputKind,
};
use midianimator::scene_send::{scenes_accepted, sender_script};
use midianimator::tempo::{closest_tempo, tempo_in_force, tempo_map};
use midianimator::smf::{EventKind, TrackEvent};

#[test]
fn numbers_and_names_convert_to_note_numbers() {
    assert_eq!(convert_note_numbers("60"), Ok(vec![60]));
    assert_eq!(convert_note_numbers("007"), Ok(vec![7]));
    assert_eq!(convert_note_numbers("C3"), Ok(vec![60]));
    assert_eq!(convert_note_numbers("C#3"), Ok(vec![61]));
    assert_eq!(convert_note_numbers("C-2"), Ok(vec![0]));
    assert_eq!(convert_note_numbers("C#-2"), Ok(vec![1]));
    assert_eq!(convert_note_numbers("60, C3 ,,D3"), Ok(vec![60, 60, 62]));
    assert_eq!(convert_note_numbers(","), Ok(vec![]));
}

#[test]
fn other_input_is_an_error() {
    let message = "'{input_str}' has an invalid note number or name.".to_string();
    assert_eq!(convert_note_numbers("hello"), Err(message.clone()));
    assert_eq!(convert_note_numbers(""), Err(message.clone()));
    assert_eq!(convert_note_numbers("C9"), Err(message.clone()));
    assert_eq!(convert_note_numbers("C#"), Err(message.clone()));
    assert_eq!(type_of_note_number("6 0"), Err(message));
}

#[test]
fn input_without_a_value_is_told_apart() {
    assert_eq!(try_convert_note_numbers("99999999999"), None);
    assert_eq!(try_convert_note_numbers("c3"), None);
    assert_eq!(try_convert_note_numbers("C--1"), None);
    assert_eq!(try_convert_note_numbers("C-#1"), None);
    assert_eq!(try_convert_note_numbers("60,x"), None);
    assert_eq!(try_convert_note_numbers("60, ,61"), None);
    assert_eq!(try_convert_note_numbers("2147483647"), Some(Ok(vec![2147483647])));
    assert_eq!(try_convert_note_numbers("2147483648"), None);
}

#[test]
fn kinds_of_input_are_named() {
    assert_eq!(type_of_note_number("60"), Ok(vec!["note"]));
    assert_eq!(type_of_note_number("g#-8"), Ok(vec!["name"]));
    assert_eq!(type_of_note_number("A-#-0"), Ok(vec!["name"]));
    assert_eq!(type_of_note_number("60,C3,\u{a0}61\t"), Ok(vec!["note", "name", "note"]));
    assert_eq!(try_type_of_note_number("99999999999"), Some(Ok(vec![InputKind::Note])));
    assert_eq!(try_type_of_note_number("60,?"), None);
    assert_eq!(try_type_of_note_number("A##1").map(|r| r.is_err()), Some(true));
    assert_eq!(try_type_of_note_number("A-1#").map(|r| r.is_err()), Some(true));
}

#[test]
fn programs_have_their_general_midi_names() {
    assert_eq!(gm_program_to_name(0), "Acoustic Grand Piano");
    assert_eq!(gm_program_to_name(4), "Electric Piano 1");
    assert_eq!(gm_program_to_name(40), "Violin");
    assert_eq!(gm_program_to_name(73), "Flute");
    assert_eq!(gm_program_to_name(127), "Gunshot");
}

#[test]
fn the_kind_of_a_node_stands_before_the_first_hyphen() {
    assert_eq!(node_kind("get_midi_file-1234-abcd"), "get_midi_file");
    assert_eq!(node_kind("viewer"), "viewer");
    assert_eq!(node_kind("-x"), "");
    assert_eq!(node_kind(""), "");
}

#[test]
fn the_sender_script_takes_the_scenes() {
    let template = "import bpy\nJSON_DATA = r\"\"\"\"\"\"\nrun(JSON_DATA)\n";
    let script = sender_script(template, "{\"Scene\":{}}");
    assert_eq!(script, "import bpy\nJSON_DATA = r\"\"\"{\"Scene\":{}}\"\"\"\nrun(JSON_DATA)\n");
    assert_eq!(sender_script("nothing to fill", "{}"), "nothing to fill");
    assert!(scenes_accepted("OK"));
    assert!(!scenes_accepted("ok"));
    assert!(!scenes_accepted("OK\n"));
}

#[test]
fn the_tempo_in_force_is_the_closest_preceding_mark() {
    let marks = vec![(0u64, 500_000u32), (100, 250_000), (200, 125_000)];
    assert_eq!(closest_tempo(&marks, 0, false), Some((0, 500_000)));
    assert_eq!(closest_tempo(&marks, 99, false), Some((0, 500_000)));
    assert_eq!(closest_tempo(&marks, 100, false), Some((100, 250_000)));
    assert_eq!(closest_tempo(&marks, 5000, false), Some((200, 125_000)));
    assert_eq!(closest_tempo(&vec![], 5, false), None);
    assert_eq!(closest_tempo(&vec![(7, 1)], 0, false), Some((7, 1)));
    assert_eq!(closest_tempo(&vec![(50, 2), (10, 1)], 20, true), Some((10, 1)));
    assert_eq!(closest_tempo(&vec![(10, 1), (50, 2)], 5, false), Some((50, 2)));
}

#[test]
fn the_mark_in_force_is_the_last_one_that_is_not_later() {
    let marks = vec![(0u64, 500_000u32), (0, 400_000), (100, 250_000)];
    assert_eq!(tempo_in_force(&marks, 0), Some((0, 400_000)));
    assert_eq!(tempo_in_force(&marks, 99), Some((0, 400_000)));
    assert_eq!(tempo_in_force(&marks, 100), Some((100, 250_000)));
    assert_eq!(tempo_in_force(&vec![(7, 1)], 6), None);
    assert_eq!(tempo_in_force(&vec![], 0), None);
}

#[test]
fn the_tempo_map_is_sorted_by_time() {
    let tracks = vec![
        vec![TrackEvent { delta: 10, kind: EventKind::Tempo(300_000) }],
        vec![
            TrackEvent { delta: 4, kind: EventKind::Tempo(200_000) },
            TrackEvent { delta: 30, kind: EventKind::Tempo(100_000) },
        ],
    ];
    assert_eq!(
        tempo_map(&tracks),
        Ok(vec![(2_000_000, 200_000), (5_000_000, 300_000), (8_000_000, 100_000)])
    );
    let late = vec![vec![TrackEvent { delta: u32::MAX, kind: EventKind::Other }; 5], vec![]];
    assert!(tempo_map(&late).is_ok());
    let mut long = vec![TrackEvent { delta: 0, kind: EventKind::Tempo(u32::MAX) }];
    long.extend(vec![TrackEvent { delta: u32::MAX, kind: EventKind::Other }; 3]);
    assert_eq!(tempo_map(&vec![long]), Err(midianimator::midi::MidiError::InvalidFile));
}
