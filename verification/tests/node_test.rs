use midianimator::node::{Node, NodeGraph, Position};
use midianimator::stable::sort_order;
use midianimator::track::{sort_notes, MIDITrack};
use midianimator::midi::MIDINote;

fn node(id: i32, name: &str) -> Node {
    Node {
        id,
        name: name.to_string(),
        position: Position { x: 0, y: 0 },
        is_realtime: true,
        input_handles: vec![],
        output_handles: vec![],
    }
}

#[test]
fn nodes_are_added_found_and_removed() {
    let mut graph = NodeGraph::new();
    assert!(graph.get_node(1).is_none());
    graph.add_node(node(1, "a"));
    graph.add_node(node(2, "b"));
    graph.add_node(node(1, "c"));
    assert_eq!(graph.get_node(1).map(|n| n.name.clone()), Some("a".to_string()));
    assert_eq!(graph.get_node(2).map(|n| n.name.clone()), Some("b".to_string()));
    if let Some(found) = graph.get_node_mut(2) {
        found.name = "renamed".to_string();
    }
    assert_eq!(graph.nodes[1].name, "renamed");
    assert!(graph.get_node_mut(9).is_none());
    graph.remove_node(1);
    assert_eq!(graph.nodes.len(), 1);
    assert_eq!(graph.nodes[0].id, 2);
    graph.remove_node(7);
    assert_eq!(graph.nodes.len(), 1);
}

#[test]
fn equal_keys_keep_their_order() {
    assert_eq!(sort_order(&vec![5, 1, 5, 0, 1]), vec![3, 1, 4, 0, 2]);
    assert_eq!(sort_order(&vec![]), Vec::<usize>::new());
    let notes = vec![
        MIDINote::new(0, 60, 1, 10, Some(11)),
        MIDINote::new(0, 61, 2, 5, Some(6)),
        MIDINote::new(0, 62, 3, 10, Some(12)),
    ];
    let sorted = sort_notes(&notes);
    let numbers: Vec<u8> = sorted.iter().map(|n| n.note_number).collect();
    assert_eq!(numbers, vec![61, 60, 62]);
}

#[test]
fn a_track_lists_the_notes_it_uses() {
    let mut track = MIDITrack::new("t");
    for (key, time) in [(64u8, 0u64), (60, 1), (64, 2), (0, 3), (127, 4)] {
        track.add_note_on(0, key, 100, time);
        assert_eq!(track.add_note_off(0, key, 0, time + 1), Ok(()));
    }
    assert_eq!(track.all_used_notes(), vec![0, 60, 64, 127]);
    let copy = track.duplicate();
    assert_eq!(copy.name, "t");
    assert_eq!(copy.notes.len(), 5);
    track.add_control_change(7, 0, 100, 0);
    track.add_control_change(1, 0, 5, 1);
    track.add_control_change(7, 0, 90, 2);
    assert_eq!(track.control_change.len(), 2);
    assert_eq!(track.control_change[0].controller, 7);
    assert_eq!(track.control_change[0].events.len(), 2);
}
