use midianimator::file::MIDIFile;
use midianimator::midi::{MIDINote, MidiError, Ratio};
use midianimator::smf::{ChannelMessage, Division, EventKind, FileFormat, TrackEvent};
use midianimator::track::MIDITrack;

fn varlen(mut value: u32) -> Vec<u8> {
    let mut bytes = vec![(value & 0x7f) as u8];
    value >>= 7;
    while value > 0 {
        bytes.insert(0, ((value & 0x7f) as u8) | 0x80);
        value >>= 7;
    }
    bytes
}

fn header(format: u16, tracks: u16, division: u16) -> Vec<u8> {
    let mut bytes = b"MThd".to_vec();
    bytes.extend_from_slice(&[0, 0, 0, 6]);
    bytes.extend_from_slice(&format.to_be_bytes());
    bytes.extend_from_slice(&tracks.to_be_bytes());
    bytes.extend_from_slice(&division.to_be_bytes());
    bytes
}

fn chunk(events: &[(u32, Vec<u8>)]) -> Vec<u8> {
    let mut body = Vec::new();
    for (delta, data) in events {
        body.extend(varlen(*delta));
        body.extend_from_slice(data);
    }
    let mut bytes = b"MTrk".to_vec();
    bytes.extend_from_slice(&(body.len() as u32).to_be_bytes());
    bytes.extend(body);
    bytes
}

fn track_name(name: &str) -> Vec<u8> {
    let mut data = vec![0xff, 0x03];
    data.extend(varlen(name.len() as u32));
    data.extend_from_slice(name.as_bytes());
    data
}

fn tempo(micros: u32) -> Vec<u8> {
    let b = micros.to_be_bytes();
    vec![0xff, 0x51, 0x03, b[1], b[2], b[3]]
}

fn end_of_track() -> Vec<u8> {
    vec![0xff, 0x2f, 0x00]
}

fn note_on(channel: u8, key: u8, vel: u8) -> Vec<u8> {
    vec![0x90 | channel, key, vel]
}

fn note_off(channel: u8, key: u8) -> Vec<u8> {
    vec![0x80 | channel, key, 0]
}

fn type_0() -> Vec<u8> {
    let mut bytes = header(0, 1, 480);
    bytes.extend(chunk(&[
        (0, track_name("Classic Electric Piano")),
        (0, note_on(0, 60, 100)),
        (480, note_off(0, 60)),
        (0, note_on(0, 64, 90)),
        (480, note_off(0, 64)),
        (0, end_of_track()),
    ]));
    bytes
}

fn type_1() -> Vec<u8> {
    let mut bytes = header(1, 2, 480);
    bytes.extend(chunk(&[(0, tempo(500_000)), (0, end_of_track())]));
    bytes.extend(chunk(&[
        (0, track_name("Classic Electric Piano")),
        (0, note_on(0, 60, 100)),
        (480, note_off(0, 60)),
        (0, note_on(0, 64, 90)),
        (480, note_off(0, 64)),
        (0, end_of_track()),
    ]));
    bytes
}

fn seconds(file: &MIDIFile, units: u64) -> f64 {
    units as f64 / file.units_per_second as f64
}

#[test]
fn test_load_valid_midi_file() {
    let midi_file = MIDIFile::new(&type_0()).unwrap();
    assert!(midi_file.get_midi_tracks().len() > 0);
}

#[test]
fn test_load_invalid_midi_file() {
    let midi_file = MIDIFile::new(b"this is no midi file");
    assert!(midi_file.is_err());
    assert_eq!(midi_file.err(), Some(MidiError::InvalidFile));
}

#[test]
fn test_get_midi_tracks_type_0() {
    let midi_file = MIDIFile::new(&type_0()).unwrap();
    let tracks = midi_file.get_midi_tracks();
    println!("Number of tracks: {}", tracks.len());
    for track in tracks {
        println!("Track name: {}", track.name);
    }
    assert_eq!(tracks.len(), 1);
}

#[test]
fn test_get_midi_tracks_type_1() {
    let midi_file = MIDIFile::new(&type_1()).unwrap();
    let tracks = midi_file.get_midi_tracks();
    println!("Number of tracks: {}", tracks.len());
    for track in tracks {
        println!("Track name: {}", track.name);
    }
    assert_eq!(tracks.len(), 1);
}

#[test]
fn test_find_track_by_name_type_0() {
    let midi_file = MIDIFile::new(&type_0()).unwrap();
    let track = midi_file.find_track("Classic Electric Piano");
    assert!(track.is_some());
}

#[test]
fn test_find_track_by_name_type_1() {
    let midi_file = MIDIFile::new(&type_1()).unwrap();
    let track = midi_file.find_track("Classic Electric Piano");
    assert!(track.is_some());
}

#[test]
fn test_merge_tracks() {
    let midi_file = MIDIFile::new(&type_1()).unwrap();
    let track1 = midi_file.find_track("Classic Electric Piano").unwrap();
    let track2 = midi_file.find_track("Classic Electric Piano").unwrap();
    let merged_track = midi_file.merge_tracks(track1, track2, Some("Merged Track"));
    assert_eq!(merged_track.name, "Merged Track");
    assert_eq!(merged_track.notes.len(), 4);
    let starts: Vec<u64> = merged_track.notes.iter().map(|n| n.time_on).collect();
    assert_eq!(starts, vec![0, 0, 240_000_000, 240_000_000]);
}

#[test]
fn note_times_are_exact_seconds() {
    let file = MIDIFile::new(&type_1()).unwrap();
    assert_eq!(file.units_per_second, 480_000_000);
    let notes = &file.get_midi_tracks()[0].notes;
    assert_eq!(notes.len(), 2);
    assert_eq!((notes[0].note_number, notes[0].velocity, notes[0].channel), (60, 100, 0));
    assert_eq!(seconds(&file, notes[0].time_on), 0.0);
    assert_eq!(seconds(&file, notes[0].time_off.unwrap()), 0.5);
    assert_eq!(seconds(&file, notes[1].time_on), 0.5);
    assert_eq!(seconds(&file, notes[1].time_off.unwrap()), 1.0);
}

#[test]
fn missing_file_name_is_not_found() {
    let file = MIDIFile::new(&type_0()).unwrap();
    assert!(file.find_track("No Such Track").is_none());
    assert_eq!(file.list_track_names(), vec!["Classic Electric Piano".to_string()]);
}

#[test]
fn sequential_format_is_unsupported() {
    let mut bytes = header(2, 1, 480);
    bytes.extend(chunk(&[(0, end_of_track())]));
    assert_eq!(MIDIFile::new(&bytes).err(), Some(MidiError::UnsupportedFormat));
}

#[test]
fn note_off_without_note_on_is_an_error() {
    let mut bytes = header(0, 1, 480);
    bytes.extend(chunk(&[(0, note_off(0, 60)), (0, end_of_track())]));
    assert_eq!(MIDIFile::new(&bytes).err(), Some(MidiError::UnpairedNoteOff));
}

#[test]
fn zero_division_is_invalid() {
    let mut bytes = header(0, 1, 0);
    bytes.extend(chunk(&[(0, end_of_track())]));
    assert_eq!(MIDIFile::new(&bytes).err(), Some(MidiError::InvalidFile));
}

#[test]
fn note_on_with_velocity_zero_ends_the_note() {
    let mut bytes = header(0, 1, 480);
    bytes.extend(chunk(&[
        (0, note_on(0, 60, 100)),
        (480, note_on(0, 60, 0)),
        (0, end_of_track()),
    ]));
    let file = MIDIFile::new(&bytes).unwrap();
    let notes = &file.get_midi_tracks()[0].notes;
    assert_eq!(notes.len(), 1);
    assert_eq!(notes[0].time_on, 0);
    assert_eq!(notes[0].time_off, Some(480 * 500_000));
    assert_eq!(notes[0].velocity, 100);
}

#[test]
fn tempo_at_tick_zero_applies_to_the_first_delta() {
    let mut bytes = header(0, 1, 480);
    bytes.extend(chunk(&[
        (0, tempo(1_000_000)),
        (480, note_on(0, 60, 100)),
        (480, note_off(0, 60)),
        (0, end_of_track()),
    ]));
    let file = MIDIFile::new(&bytes).unwrap();
    let notes = &file.get_midi_tracks()[0].notes;
    assert_eq!(seconds(&file, notes[0].time_on), 1.0);
    assert_eq!(seconds(&file, notes[0].time_off.unwrap()), 2.0);
}

#[test]
fn same_pitch_notes_pair_first_in_first_out() {
    let mut bytes = header(0, 1, 480);
    bytes.extend(chunk(&[
        (0, note_on(0, 60, 10)),
        (10, note_on(0, 60, 20)),
        (10, note_off(0, 60)),
        (10, note_off(0, 60)),
        (0, end_of_track()),
    ]));
    let file = MIDIFile::new(&bytes).unwrap();
    let notes = &file.get_midi_tracks()[0].notes;
    assert_eq!(notes.len(), 2);
    assert_eq!((notes[0].velocity, notes[0].time_on, notes[0].time_off), (10, 0, Some(20 * 500_000)));
    assert_eq!(
        (notes[1].velocity, notes[1].time_on, notes[1].time_off),
        (20, 10 * 500_000, Some(30 * 500_000))
    );
}

#[test]
fn single_track_file_routes_by_channel() {
    let mut bytes = header(0, 1, 480);
    bytes.extend(chunk(&[
        (0, vec![0xc9, 0]),
        (0, note_on(0, 60, 100)),
        (0, note_on(9, 36, 100)),
        (480, note_off(0, 60)),
        (0, note_off(9, 36)),
        (0, end_of_track()),
    ]));
    let file = MIDIFile::new(&bytes).unwrap();
    let tracks = file.get_midi_tracks();
    assert_eq!(tracks.len(), 2);
    assert!(tracks[0].notes.iter().all(|n| n.channel == 0));
    assert!(tracks[1].notes.iter().all(|n| n.channel == 9));
    assert_eq!(tracks[0].name, "Track 2");
    assert_eq!(tracks[1].name, "Drumset");
}

#[test]
fn program_change_names_a_track_with_a_default_name() {
    let mut bytes = header(1, 1, 480);
    bytes.extend(chunk(&[
        (0, vec![0xc0, 4]),
        (0, note_on(0, 60, 100)),
        (480, note_off(0, 60)),
        (0, end_of_track()),
    ]));
    let file = MIDIFile::new(&bytes).unwrap();
    assert_eq!(file.get_midi_tracks()[0].name, "Electric Piano 1");
}

#[test]
fn parallel_tracks_take_tempo_from_the_map() {
    let mut bytes = header(1, 2, 480);
    bytes.extend(chunk(&[(0, tempo(250_000)), (0, end_of_track())]));
    bytes.extend(chunk(&[
        (0, note_on(0, 60, 100)),
        (480, note_off(0, 60)),
        (0, end_of_track()),
    ]));
    let file = MIDIFile::new(&bytes).unwrap();
    let notes = &file.get_midi_tracks()[0].notes;
    assert_eq!(notes[0].time_on, 0);
    assert_eq!(seconds(&file, notes[0].time_off.unwrap()), 0.25);
}

#[test]
fn continuous_events_are_exact_fractions() {
    let mut bytes = header(0, 1, 480);
    bytes.extend(chunk(&[
        (0, vec![0xb0, 7, 100]),
        (0, vec![0xe0, 0x00, 0x60]),
        (0, vec![0xa0, 60, 127]),
        (0, end_of_track()),
    ]));
    let file = MIDIFile::new(&bytes).unwrap();
    let track = &file.get_midi_tracks()[0];
    assert_eq!(track.control_change.len(), 1);
    assert_eq!(track.control_change[0].controller, 7);
    assert_eq!(track.control_change[0].events[0].value, Ratio { num: 100, den: 1 });
    assert_eq!(track.pitchwheel[0].value, Ratio { num: 0x3000 - 8192, den: 8192 });
    assert_eq!(track.aftertouch[0].value, Ratio { num: 127, den: 127 });
}

#[test]
fn timecode_division_reads_ticks_per_second() {
    let division: u16 = ((-25i8 as u8 as u16) << 8) | 40;
    let mut bytes = header(0, 1, division);
    bytes.extend(chunk(&[
        (0, note_on(0, 60, 100)),
        (1000, note_off(0, 60)),
        (0, end_of_track()),
    ]));
    let file = MIDIFile::new(&bytes).unwrap();
    let notes = &file.get_midi_tracks()[0].notes;
    assert_eq!(seconds(&file, notes[0].time_off.unwrap()), 1.0);
}

#[test]
fn events_build_the_same_file_as_bytes() {
    let events = vec![vec![
        TrackEvent { delta: 0, kind: EventKind::TrackName("Lead".to_string()) },
        TrackEvent {
            delta: 0,
            kind: EventKind::Channel { channel: 3, message: ChannelMessage::NoteOn { key: 70, vel: 5 } },
        },
        TrackEvent {
            delta: 96,
            kind: EventKind::Channel { channel: 3, message: ChannelMessage::NoteOff { key: 70, vel: 0 } },
        },
        TrackEvent { delta: 0, kind: EventKind::EndOfTrack },
    ]];
    let file = MIDIFile::from_events(FileFormat::Parallel, Division::Metrical(96), &events).unwrap();
    assert_eq!(file.units_per_second, 96_000_000);
    let track = &file.get_midi_tracks()[0];
    assert_eq!(track.name, "Lead");
    assert_eq!(track.notes[0].time_off, Some(96 * 500_000));
    assert_eq!(track.all_used_notes(), vec![70]);
}

#[test]
fn track_methods_pair_notes() {
    let mut track = MIDITrack::new("t");
    assert!(track.is_empty());
    track.add_note_on(1, 60, 90, 5);
    assert_eq!(track.add_note_off(1, 61, 0, 9), Err(MidiError::UnpairedNoteOff));
    assert_eq!(track.add_note_off(1, 60, 0, 9), Ok(()));
    assert!(!track.is_empty());
    assert_eq!(track.notes[0].time_off, Some(9));
    assert!(track.notes[0] == MIDINote::new(0, 0, 0, 5, None));
    assert!(track.notes[0] < MIDINote::new(0, 0, 0, 6, None));
}

#[test]
fn tempo_at_tick_zero_applies_to_every_parallel_track() {
    let bytes: Vec<u8> = vec![
        0x4d, 0x54, 0x68, 0x64, 0x00, 0x00, 0x00, 0x06, 0x00, 0x01, 0x00, 0x02, 0x01, 0xe0,
        0x4d, 0x54, 0x72, 0x6b, 0x00, 0x00, 0x00, 0x0b,
        0x00, 0xff, 0x51, 0x03, 0x0f, 0x42, 0x40, 0x00, 0xff, 0x2f, 0x00,
        0x4d, 0x54, 0x72, 0x6b, 0x00, 0x00, 0x00, 0x0e,
        0x83, 0x60, 0x90, 0x3c, 0x64, 0x83, 0x60, 0x80, 0x3c, 0x00, 0x00, 0xff, 0x2f, 0x00,
    ];
    let file = MIDIFile::new(&bytes).unwrap();
    assert_eq!(file.units_per_second, 480_000_000);
    let tracks = file.get_midi_tracks();
    assert_eq!(tracks.len(), 1);
    let notes = &tracks[0].notes;
    assert_eq!(notes.len(), 1);
    assert_eq!((notes[0].channel, notes[0].note_number, notes[0].velocity), (0, 60, 100));
    assert_eq!(notes[0].time_on, 480_000_000);
    assert_eq!(notes[0].time_off, Some(960_000_000));
    assert_eq!(seconds(&file, notes[0].time_on), 1.0);
    assert_eq!(seconds(&file, notes[0].time_off.unwrap()), 2.0);
}

#[test]
fn the_last_of_several_tempos_at_tick_zero_is_in_force() {
    let mut bytes = header(1, 2, 480);
    bytes.extend(chunk(&[(0, tempo(250_000)), (0, tempo(1_000_000)), (0, end_of_track())]));
    bytes.extend(chunk(&[(480, note_on(0, 60, 100)), (480, note_off(0, 60)), (0, end_of_track())]));
    let file = MIDIFile::new(&bytes).unwrap();
    let notes = &file.get_midi_tracks()[0].notes;
    assert_eq!(notes[0].time_on, 480_000_000);
    assert_eq!(notes[0].time_off, Some(960_000_000));
}

#[test]
fn a_later_tempo_is_not_in_force_before_its_time() {
    let mut bytes = header(1, 2, 480);
    bytes.extend(chunk(&[(480, tempo(1_000_000)), (0, end_of_track())]));
    bytes.extend(chunk(&[
        (0, note_on(0, 60, 100)),
        (240, note_off(0, 60)),
        (240, note_on(0, 62, 100)),
        (480, note_off(0, 62)),
        (0, end_of_track()),
    ]));
    let file = MIDIFile::new(&bytes).unwrap();
    let notes = &file.get_midi_tracks()[0].notes;
    assert_eq!(seconds(&file, notes[0].time_on), 0.0);
    assert_eq!(seconds(&file, notes[0].time_off.unwrap()), 0.25);
    assert_eq!(seconds(&file, notes[1].time_on), 0.5);
    assert_eq!(seconds(&file, notes[1].time_off.unwrap()), 1.5);
}

#[test]
fn tempo_events_of_later_tracks_are_timed_from_their_own_start() {
    let mut bytes = header(1, 3, 480);
    bytes.extend(chunk(&[(960, tempo(250_000)), (0, end_of_track())]));
    bytes.extend(chunk(&[(480, tempo(1_000_000)), (0, end_of_track())]));
    bytes.extend(chunk(&[
        (480, note_on(0, 60, 100)),
        (480, note_off(0, 60)),
        (480, note_on(0, 62, 100)),
        (480, note_off(0, 62)),
        (0, end_of_track()),
    ]));
    let file = MIDIFile::new(&bytes).unwrap();
    let notes = &file.get_midi_tracks()[0].notes;
    assert_eq!(seconds(&file, notes[0].time_on), 0.5);
    assert_eq!(seconds(&file, notes[0].time_off.unwrap()), 1.5);
    assert_eq!(seconds(&file, notes[1].time_on), 1.75);
    assert_eq!(seconds(&file, notes[1].time_off.unwrap()), 2.0);
}

#[test]
fn a_single_track_file_with_two_tracks_is_invalid() {
    let mut bytes = header(0, 2, 480);
    bytes.extend(chunk(&[(0, note_on(0, 60, 100)), (480, note_off(0, 60)), (0, end_of_track())]));
    bytes.extend(chunk(&[(0, note_on(0, 62, 100)), (480, note_off(0, 62)), (0, end_of_track())]));
    assert_eq!(MIDIFile::new(&bytes).err(), Some(MidiError::InvalidFile));
    let events = vec![vec![], vec![]];
    assert_eq!(
        MIDIFile::from_events(FileFormat::SingleTrack, Division::Metrical(480), &events).err(),
        Some(MidiError::InvalidFile)
    );
}

#[test]
fn each_channel_track_holds_exactly_the_notes_of_its_channel() {
    let mut bytes = header(0, 1, 480);
    bytes.extend(chunk(&[
        (0, note_on(0, 60, 100)),
        (0, note_on(9, 36, 90)),
        (240, note_off(9, 36)),
        (0, note_on(9, 38, 80)),
        (240, note_off(0, 60)),
        (0, note_on(0, 62, 70)),
        (240, note_off(9, 38)),
        (240, note_off(0, 62)),
        (0, end_of_track()),
    ]));
    let file = MIDIFile::new(&bytes).unwrap();
    let tracks = file.get_midi_tracks();
    assert_eq!(tracks.len(), 2);
    let unit = 240 * 500_000u64;
    let zero: Vec<(u8, u8, u8, u64, Option<u64>)> =
        tracks[0].notes.iter().map(|n| (n.channel, n.note_number, n.velocity, n.time_on, n.time_off)).collect();
    assert_eq!(zero, vec![(0, 60, 100, 0, Some(2 * unit)), (0, 62, 70, 2 * unit, Some(4 * unit))]);
    let nine: Vec<(u8, u8, u8, u64, Option<u64>)> =
        tracks[1].notes.iter().map(|n| (n.channel, n.note_number, n.velocity, n.time_on, n.time_off)).collect();
    assert_eq!(nine, vec![(9, 36, 90, 0, Some(unit)), (9, 38, 80, unit, Some(3 * unit))]);
}

#[test]
fn events_of_parallel_tracks_start_at_the_tempo_in_force() {
    let note = |delta: u32, message: ChannelMessage| TrackEvent {
        delta,
        kind: EventKind::Channel { channel: 0, message },
    };
    let events = vec![
        vec![
            TrackEvent { delta: 0, kind: EventKind::Tempo(1_000_000) },
            TrackEvent { delta: 0, kind: EventKind::EndOfTrack },
        ],
        vec![
            note(480, ChannelMessage::NoteOn { key: 60, vel: 100 }),
            note(480, ChannelMessage::NoteOff { key: 60, vel: 0 }),
            TrackEvent { delta: 0, kind: EventKind::EndOfTrack },
        ],
    ];
    let file = MIDIFile::from_events(FileFormat::Parallel, Division::Metrical(480), &events).unwrap();
    assert_eq!(file.units_per_second, 480_000_000);
    let notes = &file.get_midi_tracks()[0].notes;
    assert_eq!(notes[0].time_on, 480_000_000);
    assert_eq!(notes[0].time_off, Some(960_000_000));
}
