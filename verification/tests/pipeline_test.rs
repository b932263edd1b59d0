use midianimator::animation::{
    assign_notes_to_objects, overlap_policy, parse_animation_property, AnimationGenerator, Co,
    ObjectMap, Overlap,
};
use midianimator::file::MIDIFile;
use midianimator::keyframes::{find_overlap, interval, note_to_objects};

#[derive(Clone, Debug, PartialEq)]
struct Key {
    frame: f64,
    value: f64,
    data_path: String,
    array_index: u32,
}

struct Note {
    note_number: u8,
    velocity: u8,
    time_on: f64,
    time_off: f64,
}

fn order_key(frame: f64) -> i64 {
    let bits = (frame + 0.0).to_bits() as i64;
    if bits < 0 {
        bits ^ i64::MAX
    } else {
        bits
    }
}

fn order_keys(keys: &[Key]) -> Vec<i64> {
    keys.iter().map(|k| order_key(k.frame)).collect()
}

fn get_value(k1: &Key, k2: &Key, frame: f64) -> f64 {
    let m = if (k2.frame - k1.frame).abs() < f64::EPSILON {
        0.0
    } else {
        (k2.value - k1.value) / (k2.frame - k1.frame)
    };
    m * frame + (k1.value - m * k1.frame)
}

fn add_keyframes(inserted: &mut Vec<Key>, next: &mut Vec<Key>) {
    let start = find_overlap(&order_keys(inserted), &order_keys(next));
    let overlapping: Vec<Key> = inserted[start..].to_vec();
    if !overlapping.is_empty() {
        let over_keys = order_keys(&overlapping);
        let given: Vec<Key> = next.clone();
        for key in next.iter_mut() {
            if let Some((a, b)) = interval(&over_keys, order_key(key.frame)) {
                key.value += get_value(&overlapping[a], &overlapping[b], key.frame);
            }
        }
        let given_keys = order_keys(&given);
        for key in inserted.iter_mut() {
            if overlapping.iter().any(|k| k.frame == key.frame) {
                if let Some((a, b)) = interval(&given_keys, order_key(key.frame)) {
                    key.value += get_value(&given[a], &given[b], key.frame);
                }
            }
        }
    }
    let deduplicate = !overlapping.is_empty();
    inserted.append(next);
    inserted.sort_by(|a, b| a.frame.partial_cmp(&b.frame).unwrap());
    if deduplicate {
        inserted.dedup_by(|a, b| (a.frame - b.frame).abs() < f64::EPSILON);
    }
}

fn expand(template: &[Co], time: f64, anchor: u64, scale: f64, path: &str, index: u32) -> Vec<Key> {
    template
        .iter()
        .map(|co| Key {
            frame: f64::from_bits(co.frame) + time + f64::from_bits(anchor),
            value: f64::from_bits(co.value) * scale,
            data_path: path.to_string(),
            array_index: index,
        })
        .collect()
}

fn synthesize(map: &ObjectMap, notes: &[Note]) -> Vec<(String, Vec<Key>)> {
    let mut per_object: Vec<(String, Vec<Key>)> = Vec::new();
    for note in notes {
        for target in note_to_objects(map, note.note_number) {
            let generator = &map.animations[target.animation];
            let (path, index) = parse_animation_property(&generator.animation_property);
            let intensity = f64::from_bits(generator.velocity_intensity);
            let scale = if intensity != 0.0 { note.velocity as f64 / 127.0 * intensity } else { 1.0 };
            let mut keys =
                expand(&generator.note_on_keyframes, note.time_on, generator.note_on_anchor_point, scale, &path, index);
            keys.extend(expand(
                &generator.note_off_keyframes,
                note.time_off,
                generator.note_off_anchor_point,
                scale,
                &path,
                index,
            ));
            keys.sort_by(|a, b| a.frame.partial_cmp(&b.frame).unwrap());
            if keys.is_empty() || overlap_policy(&generator.animation_overlap) != Overlap::Add {
                continue;
            }
            let name = &map.objects[target.object].name;
            let at = match per_object.iter().position(|(n, _)| n == name) {
                Some(at) => at,
                None => {
                    per_object.push((name.clone(), Vec::new()));
                    per_object.len() - 1
                }
            };
            add_keyframes(&mut per_object[at].1, &mut keys);
        }
    }
    per_object
}

fn generator(velocity_intensity: f64) -> AnimationGenerator {
    AnimationGenerator {
        name: "gen".to_string(),
        note_on_keyframes: vec![Co { frame: 0f64.to_bits(), value: 0f64.to_bits() }],
        note_on_anchor_point: 0f64.to_bits(),
        note_off_keyframes: vec![Co { frame: 0f64.to_bits(), value: 1f64.to_bits() }],
        note_off_anchor_point: 0f64.to_bits(),
        time_mapper: String::new(),
        amplitude_mapper: String::new(),
        velocity_intensity: velocity_intensity.to_bits(),
        animation_overlap: "add".to_string(),
        animation_property: "location[0]".to_string(),
    }
}

fn two_notes(first_velocity: u8, second_velocity: u8) -> Vec<u8> {
    let mut bytes = b"MThd".to_vec();
    bytes.extend_from_slice(&[0, 0, 0, 6, 0, 1, 0, 1, 0x01, 0xe0]);
    let body: Vec<u8> = vec![
        0x00, 0x90, 60, first_velocity,
        0x87, 0x40, 0x80, 60, 0,
        0x00, 0x90, 62, second_velocity,
        0x87, 0x40, 0x80, 62, 0,
        0x00, 0xff, 0x2f, 0x00,
    ];
    bytes.extend_from_slice(b"MTrk");
    bytes.extend_from_slice(&(body.len() as u32).to_be_bytes());
    bytes.extend(body);
    bytes
}

fn notes_of(bytes: &[u8]) -> Vec<Note> {
    let file = MIDIFile::new(bytes).unwrap();
    let tracks = file.get_midi_tracks();
    assert_eq!(tracks.len(), 1);
    tracks[0]
        .notes
        .iter()
        .map(|n| Note {
            note_number: n.note_number,
            velocity: n.velocity,
            time_on: n.time_on as f64 / file.units_per_second as f64,
            time_off: n.time_off.unwrap() as f64 / file.units_per_second as f64,
        })
        .collect()
}

fn points(keys: &[Key]) -> Vec<(f64, f64)> {
    keys.iter().map(|k| (k.frame, k.value)).collect()
}

#[test]
fn two_notes_animate_two_objects() {
    let notes = notes_of(&two_notes(100, 100));
    assert_eq!(notes.len(), 2);
    assert_eq!((notes[0].time_on, notes[0].time_off), (0.0, 1.0));
    assert_eq!((notes[1].time_on, notes[1].time_off), (1.0, 2.0));
    let numbers: Vec<u8> = notes.iter().map(|n| n.note_number).collect();
    let objects = vec!["A".to_string(), "B".to_string()];
    let map = assign_notes_to_objects(&objects, &numbers, generator(0.0));
    let result = synthesize(&map, &notes);
    assert_eq!(result.len(), 2);
    assert_eq!(result[0].0, "A");
    assert_eq!(points(&result[0].1), vec![(0.0, 0.0), (1.0, 1.0)]);
    assert_eq!(result[1].0, "B");
    assert_eq!(points(&result[1].1), vec![(1.0, 0.0), (2.0, 1.0)]);
    for (_, keys) in &result {
        assert!(keys.iter().all(|k| k.data_path == "location" && k.array_index == 0));
    }
}

#[test]
fn velocity_scales_the_values() {
    let notes = notes_of(&two_notes(64, 127));
    let numbers: Vec<u8> = notes.iter().map(|n| n.note_number).collect();
    let objects = vec!["A".to_string(), "B".to_string()];
    let map = assign_notes_to_objects(&objects, &numbers, generator(1.0));
    let result = synthesize(&map, &notes);
    assert_eq!(points(&result[0].1), vec![(0.0, 0.0), (1.0, 64.0 / 127.0)]);
    assert_eq!(points(&result[1].1), vec![(1.0, 0.0), (2.0, 1.0)]);
    assert!((result[0].1[1].value - 0.504).abs() < 0.0005);
}

#[test]
fn overlapping_notes_add_up() {
    let notes = vec![
        Note { note_number: 60, velocity: 100, time_on: 0.0, time_off: 1.0 },
        Note { note_number: 60, velocity: 100, time_on: 0.5, time_off: 1.5 },
    ];
    let objects = vec!["A".to_string()];
    let map = assign_notes_to_objects(&objects, &vec![60], generator(0.0));
    let result = synthesize(&map, &notes);
    assert_eq!(result.len(), 1);
    let keys = &result[0].1;
    let at_one = keys.iter().find(|k| k.frame == 1.0).unwrap();
    assert_eq!(at_one.value, 1.5);
    assert!(keys.windows(2).all(|w| w[0].frame < w[1].frame));
}
