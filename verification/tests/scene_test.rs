use midianimator::scene::{BlendShapes, Object, ObjectGroup, Scene, Vector3};
use midianimator::scene_diff::{compare_scene_data, SceneDiff};
use midianimator::state::{AppState, FollowUp, SavedProject, SceneUpdate, ValidationError};

fn object(name: &str) -> Object {
    let zero = Vector3 { x: 0, y: 0, z: 0 };
    Object {
        name: name.to_string(),
        position: zero,
        rotation: zero,
        scale: zero,
        blend_shapes: BlendShapes { keys: vec![], reference: None },
        anim_curves: vec![],
    }
}

fn group(name: &str, objects: &[&str]) -> ObjectGroup {
    ObjectGroup { name: name.to_string(), objects: objects.iter().map(|o| object(o)).collect() }
}

fn scene(name: &str, groups: Vec<ObjectGroup>) -> Scene {
    Scene { name: name.to_string(), object_groups: groups }
}

#[test]
fn a_snapshot_does_not_differ_from_itself() {
    let a = vec![scene("Scene", vec![group("G1", &["A", "B"]), group("G2", &["C"])])];
    let b = vec![scene("Scene", vec![group("G1", &["A", "B"]), group("G2", &["C"])])];
    let diff = compare_scene_data(&a, &b);
    assert!(!diff.has_changes());
    assert!(!SceneDiff::empty().has_changes());
}

#[test]
fn a_group_that_only_the_fresh_snapshot_has_is_new() {
    let saved = vec![scene("Scene", vec![group("G1", &["A"])])];
    let fresh = vec![scene("Scene", vec![group("G1", &["A"]), group("G2", &["B"])])];
    let diff = compare_scene_data(&saved, &fresh);
    assert_eq!(diff.new_collections, vec!["Scene/G2".to_string()]);
    assert!(diff.missing_collections.is_empty());
    assert!(diff.missing_objects.is_empty());
    assert!(diff.new_objects.is_empty());
    assert!(diff.has_changes());
}

#[test]
fn objects_differ_within_groups_of_one_name() {
    let saved = vec![scene("S", vec![group("G", &["A", "B"]), group("Old", &["X"])])];
    let fresh = vec![scene("S", vec![group("G", &["B", "C"])]), scene("Other", vec![])];
    let diff = compare_scene_data(&saved, &fresh);
    assert_eq!(diff.missing_objects, vec!["S/G/A".to_string()]);
    assert_eq!(diff.new_objects, vec!["S/G/C".to_string()]);
    assert_eq!(diff.missing_collections, vec!["S/Old".to_string()]);
    assert!(diff.new_collections.is_empty());
}

#[test]
fn scenes_that_only_one_side_has_add_nothing() {
    let saved = vec![scene("A", vec![group("G", &["x"])])];
    let fresh = vec![scene("B", vec![group("H", &["y"])])];
    assert!(!compare_scene_data(&saved, &fresh).has_changes());
}

#[test]
fn the_state_starts_empty() {
    let state: AppState<u8> = AppState::new();
    assert!(!state.ready && !state.connected && !state.execution_paused);
    assert!(state.scene_data.is_empty());
    assert!(state.pending_scene_data.is_none());
}

#[test]
fn accepting_takes_the_pending_snapshot_and_resumes() {
    let mut state: AppState<u8> = AppState::new();
    state.execution_paused = true;
    state.pending_scene_data = Some(vec![scene("Scene", vec![group("G2", &[])])]);
    let (diff, next) = state.check_scene_changes();
    assert_eq!(next, FollowUp::Stay);
    assert!(!diff.unwrap().has_changes());
    let (result, next) = state.accept_scene_changes();
    assert_eq!(result, Ok(()));
    assert_eq!(next, FollowUp::Resume);
    assert!(!state.execution_paused);
    assert!(state.pending_scene_data.is_none());
    assert_eq!(state.scene_data[0].object_groups[0].name, "G2");
}

#[test]
fn rejecting_drops_the_pending_snapshot_and_stays_paused() {
    let mut state: AppState<u8> = AppState::new();
    state.execution_paused = true;
    state.pending_scene_data = Some(vec![]);
    state.reject_scene_changes();
    assert!(state.execution_paused);
    assert!(state.pending_scene_data.is_none());
}

#[test]
fn checking_without_a_pending_snapshot_resumes() {
    let mut state: AppState<u8> = AppState::new();
    let (result, next) = state.check_scene_changes();
    assert_eq!(result.err(), Some(ValidationError::NotPaused));
    assert_eq!(next, FollowUp::Stay);
    state.execution_paused = true;
    let (result, next) = state.check_scene_changes();
    assert_eq!(result.err(), Some(ValidationError::NothingPending));
    assert_eq!(next, FollowUp::Resume);
    assert!(!state.execution_paused);
    let (result, _) = state.accept_scene_changes();
    assert_eq!(result, Err(ValidationError::NothingPending));
}

#[test]
fn reconnecting_connects_only_without_differences() {
    let mut state: AppState<u8> = AppState::new();
    state.scene_data = vec![scene("Scene", vec![group("G", &["A"])])];
    let diff = state.reconnect_with_validation(vec![scene("Scene", vec![group("G", &["B"])])]);
    assert!(diff.has_changes());
    assert!(!state.connected);
    assert_eq!(state.scene_data[0].object_groups[0].objects[0].name, "A");
    let diff = state.reconnect_with_validation(vec![scene("Scene", vec![group("G", &["A"])])]);
    assert!(!diff.has_changes());
    assert!(state.connected);
}

#[test]
fn loading_a_project_replaces_scenes_and_graph() {
    let mut state: AppState<u8> = AppState::new();
    state.connected = true;
    state.store_execution(
        vec![midianimator::state::Entry { key: "n".to_string(), value: 1 }],
        vec![],
    );
    {
        let (scenes, graph) = state.save_project();
        assert!(scenes.is_empty() && graph.is_empty());
    }
    state.load_project(SavedProject {
        scene_data: vec![scene("Scene", vec![])],
        rf_instance: vec![midianimator::state::Entry { key: "nodes".to_string(), value: 7 }],
    });
    assert_eq!(state.scene_data[0].name, "Scene");
    assert_eq!(state.rf_instance[0].value, 7);
    assert!(state.executed_results.is_empty());
    assert!(state.execution_paused);
    let (scenes, graph) = state.save_project();
    assert_eq!(scenes[0].name, "Scene");
    assert_eq!(graph[0].key, "nodes");
}

#[test]
fn only_scene_updates_replace_the_scenes() {
    let mut state: AppState<u8> = AppState::new();
    state.ready();
    assert!(state.ready);
    let other = SceneUpdate {
        kind: "hello".to_string(),
        change_type: None,
        changed_data: None,
        scene_data: vec![scene("X", vec![])],
    };
    assert!(!state.process_scene_update(other));
    assert!(state.scene_data.is_empty());
    let update = SceneUpdate {
        kind: "scene_update".to_string(),
        change_type: Some("object".to_string()),
        changed_data: None,
        scene_data: vec![scene("X", vec![])],
    };
    assert!(state.process_scene_update(update));
    assert_eq!(state.scene_data[0].name, "X");
}
