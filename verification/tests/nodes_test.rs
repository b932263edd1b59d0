use midianimator::animation::{
    assign_notes_to_objects, overlap_policy, parse_animation_property, AnimationGenerator,
    BlendKeyframe, Co, Overlap,
};
use midianimator::file::MIDIFile;
use midianimator::keyframes::{find_overlap, interval, note_to_objects, Target};
use midianimator::midi::MIDINote;
use midianimator::nodes::{
    canonical_name, curves_nameable, get_midi_file_statistics, get_midi_track_data,
    keyframes_from_object, scene_link,
};
use midianimator::scene::{AnimCurve, BlendShapes, Object, ObjectGroup, Scene, Vector3};
use midianimator::track::MIDITrack;

fn generator(name: &str) -> AnimationGenerator {
    AnimationGenerator {
        name: name.to_string(),
        note_on_keyframes: vec![Co { frame: 0f64.to_bits(), value: 0f64.to_bits() }],
        note_on_anchor_point: 0f64.to_bits(),
        note_off_keyframes: vec![Co { frame: 0f64.to_bits(), value: 1f64.to_bits() }],
        note_off_anchor_point: 0f64.to_bits(),
        time_mapper: String::new(),
        amplitude_mapper: String::new(),
        velocity_intensity: 0f64.to_bits(),
        animation_overlap: "add".to_string(),
        animation_property: "location[0]".to_string(),
    }
}

fn curve(path: &str, index: u32) -> AnimCurve {
    AnimCurve {
        array_index: index,
        auto_smoothing: String::new(),
        data_path: path.to_string(),
        extrapolation: String::new(),
        keyframe_points: vec![],
        range: vec![],
    }
}

fn object(name: &str, curves: Vec<AnimCurve>) -> Object {
    let zero = Vector3 { x: 0, y: 0, z: 0 };
    Object {
        name: name.to_string(),
        position: zero,
        rotation: zero,
        scale: zero,
        blend_shapes: BlendShapes { keys: vec![], reference: None },
        anim_curves: curves,
    }
}

fn file_with_end(units: u64) -> MIDIFile {
    let mut track = MIDITrack::new("t");
    track.notes.push(MIDINote::new(0, 60, 1, 0, Some(units)));
    MIDIFile { tracks: vec![track], units_per_second: 1000 }
}

#[test]
fn properties_split_into_path_and_index() {
    assert_eq!(parse_animation_property("location[0]"), ("location".to_string(), 0));
    assert_eq!(parse_animation_property("rotation[2]"), ("rotation".to_string(), 2));
    assert_eq!(parse_animation_property("scale"), ("scale".to_string(), 0));
    assert_eq!(parse_animation_property("a[x]"), ("a".to_string(), 0));
    assert_eq!(parse_animation_property("a[12]]]"), ("a".to_string(), 12));
    assert_eq!(parse_animation_property("a[+3]"), ("a".to_string(), 3));
    assert_eq!(parse_animation_property("a[-3]"), ("a".to_string(), 0));
    assert_eq!(parse_animation_property("a[4294967296]"), ("a".to_string(), 0));
    assert_eq!(parse_animation_property("a[1][2]"), ("a".to_string(), 0));
    assert_eq!(parse_animation_property(""), ("".to_string(), 0));
}

#[test]
fn statistics_show_tracks_and_length() {
    assert_eq!(get_midi_file_statistics(&file_with_end(5_999)), "1 tracks\n05 seconds");
    assert_eq!(get_midi_file_statistics(&file_with_end(65_000)), "1 tracks\n01:05 minutes");
    assert_eq!(get_midi_file_statistics(&file_with_end(3_725_000)), "1 tracks\n01:02:05 minutes");
    assert_eq!(get_midi_file_statistics(&file_with_end(3_600_000)), "1 tracks\n01:00 minutes");
    let empty = MIDIFile { tracks: vec![], units_per_second: 1 };
    assert_eq!(get_midi_file_statistics(&empty), "0 tracks\n00 seconds");
}

#[test]
fn track_data_is_found_by_name() {
    let tracks = vec![MIDITrack::new("a"), MIDITrack::new("b")];
    assert_eq!(get_midi_track_data(&tracks, "b").map(|t| t.name.clone()), Some("b".to_string()));
    assert!(get_midi_track_data(&tracks, "c").is_none());
}

#[test]
fn the_scene_link_shows_the_scene_named_scene() {
    let scenes = vec![
        Scene { name: "Other".to_string(), object_groups: vec![] },
        Scene { name: "Scene".to_string(), object_groups: vec![] },
    ];
    assert_eq!(scene_link(&scenes).map(|s| s.name.clone()), Some("Scene".to_string()));
    assert!(scene_link(&vec![]).is_none());
}

#[test]
fn curves_are_named_by_path_and_axis() {
    assert_eq!(canonical_name(&curve("location", 0)), "location_x");
    assert_eq!(canonical_name(&curve("rotation", 1)), "rotation_y");
    assert_eq!(canonical_name(&curve("scale", 2)), "scale_z");
    assert_eq!(canonical_name(&curve("key_blocks[\"Smile\"].value", 10)), "key_blocks[\"Smile\"].value_10");
    assert!(curves_nameable(&object("o", vec![curve("location", 2), curve("other", 9)])));
    assert!(!curves_nameable(&object("o", vec![curve("location", 3)])));
}

#[test]
fn keyframes_of_an_object_come_by_canonical_name() {
    let groups = vec![ObjectGroup {
        name: "G".to_string(),
        objects: vec![
            object("A", vec![curve("location", 0), curve("scale", 1), curve("location", 0)]),
            object("B", vec![]),
        ],
    }];
    let out = keyframes_from_object(&groups, "G", "A");
    let pairs: Vec<(String, usize)> = out.iter().map(|e| (e.name.clone(), e.curve)).collect();
    assert_eq!(pairs, vec![("location_x".to_string(), 2), ("scale_y".to_string(), 1)]);
}

#[test]
fn keyframes_of_an_object_that_is_not_there_are_empty() {
    let groups = vec![ObjectGroup { name: "G".to_string(), objects: vec![object("A", vec![curve("location", 0)])] }];
    assert!(keyframes_from_object(&groups, "G", "Z").is_empty());
    assert!(keyframes_from_object(&groups, "H", "A").is_empty());
    assert!(keyframes_from_object(&vec![], "G", "A").is_empty());
}

#[test]
fn notes_go_to_objects_in_order() {
    let names = vec!["A".to_string(), "B".to_string()];
    let map = assign_notes_to_objects(&names, &vec![62, 60, 62], generator("gen"));
    assert_eq!(map.animations.len(), 1);
    assert_eq!(map.objects.len(), 2);
    assert_eq!(map.objects[0].name, "A");
    assert_eq!(map.objects[0].entry.note_number, vec![60]);
    assert_eq!(map.objects[0].entry.animations, vec!["gen".to_string()]);
    assert_eq!(map.objects[1].entry.note_number, vec![62]);
}

#[test]
fn notes_are_padded_to_the_number_of_objects() {
    let names: Vec<String> = vec!["A", "B", "C", "D"].into_iter().map(String::from).collect();
    let map = assign_notes_to_objects(&names, &vec![60, 70], generator("gen"));
    let notes: Vec<Vec<u8>> = map.objects.iter().map(|o| o.entry.note_number.clone()).collect();
    assert_eq!(notes, vec![vec![60], vec![63], vec![66], vec![70]]);
    let low = assign_notes_to_objects(&names, &vec![0], generator("gen"));
    let notes: Vec<Vec<u8>> = low.objects.iter().map(|o| o.entry.note_number.clone()).collect();
    assert_eq!(notes, vec![vec![], vec![], vec![0], vec![1]]);
    let none = assign_notes_to_objects(&names, &vec![], generator("gen"));
    assert!(none.objects.is_empty());
}

#[test]
fn a_note_drives_the_animations_of_the_objects_that_list_it() {
    let names = vec!["A".to_string(), "B".to_string()];
    let mut map = assign_notes_to_objects(&names, &vec![60, 62], generator("gen"));
    map.objects[1].entry.note_number.push(60);
    map.objects[1].entry.animations.push("missing".to_string());
    assert_eq!(
        note_to_objects(&map, 60),
        vec![Target { object: 0, animation: 0 }, Target { object: 1, animation: 0 }]
    );
    assert_eq!(note_to_objects(&map, 62), vec![Target { object: 1, animation: 0 }]);
    assert!(note_to_objects(&map, 61).is_empty());
}

#[test]
fn only_adding_is_a_supported_overlap() {
    assert_eq!(overlap_policy("add"), Overlap::Add);
    assert_eq!(overlap_policy(""), Overlap::Add);
    assert_eq!(overlap_policy("replace"), Overlap::Unsupported);
}

#[test]
fn a_frame_lies_between_two_keyframes() {
    assert_eq!(interval(&vec![], 5), None);
    assert_eq!(interval(&vec![10, 20, 30], 5), Some((0, 0)));
    assert_eq!(interval(&vec![10, 20, 30], 35), Some((2, 2)));
    assert_eq!(interval(&vec![10, 20, 30], 20), Some((0, 1)));
    assert_eq!(interval(&vec![10, 20, 30], 25), Some((1, 2)));
    assert_eq!(interval(&vec![10], 10), None);
}

#[test]
fn the_overlap_is_the_tail_that_is_later_than_the_next_start() {
    assert_eq!(find_overlap(&vec![0, 10, 20, 30], &vec![15, 40]), 1);
    assert_eq!(find_overlap(&vec![0, 10, 20, 30], &vec![30, 40]), 4);
    assert_eq!(find_overlap(&vec![0, 10, 20, 30], &vec![0]), 0);
    assert_eq!(find_overlap(&vec![], &vec![1]), 0);
    assert_eq!(find_overlap(&vec![1], &vec![]), 1);
}

#[test]
fn keyframes_carry_their_property() {
    let key = BlendKeyframe::new(1f64.to_bits(), 2f64.to_bits(), "location", 1);
    assert_eq!((key.data_path.as_str(), key.array_index), ("location", 1));
    let bare = BlendKeyframe::bare(1f64.to_bits(), 2f64.to_bits());
    assert_eq!((bare.data_path.as_str(), bare.array_index), ("", 0));
    assert_eq!(f64::from_bits(bare.value), 2.0);
}

#[test]
fn a_generator_without_inputs_is_empty() {
    let empty = midianimator::animation::animation_generator(None, None, None, None, None, None, None, None, None, None);
    assert_eq!(empty.name, "");
    assert!(empty.note_on_keyframes.is_empty() && empty.note_off_keyframes.is_empty());
    assert_eq!(f64::from_bits(empty.note_on_anchor_point), 0.0);
    assert_eq!(f64::from_bits(empty.velocity_intensity), 0.0);
    assert_eq!(empty.animation_overlap, "");
    let given = midianimator::animation::animation_generator(
        Some("g".to_string()),
        Some(vec![Co { frame: 1f64.to_bits(), value: 2f64.to_bits() }]),
        Some(0.5f64.to_bits()),
        None,
        None,
        None,
        None,
        Some(1f64.to_bits()),
        Some("add".to_string()),
        Some("scale[2]".to_string()),
    );
    assert_eq!(given.name, "g");
    assert_eq!(given.note_on_keyframes.len(), 1);
    assert_eq!(f64::from_bits(given.note_on_anchor_point), 0.5);
    assert_eq!(given.animation_property, "scale[2]");
    assert!(midianimator::graph::runs_here("rust"));
    assert!(!midianimator::graph::runs_here("javascript"));
}
