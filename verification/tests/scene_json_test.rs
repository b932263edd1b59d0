use midianimator::scene_json::{scenes_from_json, SceneError};

const SNAPSHOT: &str = r#"{
  "Scene": {
    "object_group": {
      "G": {
        "objects": [
          {
            "name": "A",
            "location": [1.0, 2.0, 3.0],
            "rotation": [0, 0, 0],
            "scale": [1, 1, 1],
            "blend_shapes": {"keys": ["Basis", 7, "Smile"], "reference": "Basis"},
            "anim_curves": [
              {
                "array_index": 2,
                "auto_smoothing": "NONE",
                "data_path": "location",
                "extrapolation": "CONSTANT",
                "range": [1.0, "x", 250.0],
                "keyframe_points": [
                  {
                    "amplitude": 0.8, "back": 1.7, "easing": "AUTO",
                    "handle_left": [0.0, 1.0], "handle_left_type": "AUTO",
                    "handle_right": [2.0, 3.0], "handle_right_type": "AUTO",
                    "interpolation": "BEZIER", "co": [1.0, 0.5], "period": 4.1
                  },
                  {"amplitude": 0.8}
                ]
              },
              {"array_index": -1}
            ]
          },
          {"name": "no location"},
          {
            "name": "B",
            "location": [1.0, 2.0],
            "rotation": [0, 0, 0],
            "scale": [1, 1, 1],
            "blend_shapes": {"keys": []},
            "anim_curves": []
          },
          {
            "name": "C",
            "location": [0, 0, 0],
            "rotation": [0, 0, 0],
            "scale": [1, 1, 1],
            "blend_shapes": {"keys": []},
            "anim_curves": []
          }
        ]
      },
      "Empty": {}
    }
  },
  "NoGroups": {"other": 1},
  "Second": {"object_group": {}}
}"#;

#[test]
fn a_snapshot_is_read_with_its_groups_and_objects() {
    let scenes = scenes_from_json(SNAPSHOT).unwrap();
    let names: Vec<&str> = scenes.iter().map(|s| s.name.as_str()).collect();
    assert_eq!(names, vec!["Scene", "Second"]);
    let scene = &scenes[0];
    let groups: Vec<&str> = scene.object_groups.iter().map(|g| g.name.as_str()).collect();
    assert_eq!(groups, vec!["Empty", "G"]);
    assert!(scene.object_groups[0].objects.is_empty());
    let objects: Vec<&str> = scene.object_groups[1].objects.iter().map(|o| o.name.as_str()).collect();
    assert_eq!(objects, vec!["A", "C"]);
}

#[test]
fn numbers_are_kept_by_their_bits() {
    let scenes = scenes_from_json(SNAPSHOT).unwrap();
    let a = &scenes[0].object_groups[1].objects[0];
    assert_eq!(f64::from_bits(a.position.x), 1.0);
    assert_eq!(f64::from_bits(a.position.y), 2.0);
    assert_eq!(f64::from_bits(a.position.z), 3.0);
    assert_eq!(f64::from_bits(a.scale.x), 1.0);
    assert_eq!(a.blend_shapes.keys, vec!["Basis".to_string(), "Smile".to_string()]);
    assert_eq!(a.blend_shapes.reference, Some("Basis".to_string()));
    assert_eq!(a.anim_curves.len(), 1);
    let curve = &a.anim_curves[0];
    assert_eq!(curve.array_index, 2);
    assert_eq!(curve.data_path, "location");
    let range: Vec<f64> = curve.range.iter().map(|b| f64::from_bits(*b)).collect();
    assert_eq!(range, vec![1.0, 250.0]);
    assert_eq!(curve.keyframe_points.len(), 1);
    let point = &curve.keyframe_points[0];
    assert_eq!(f64::from_bits(point.co[0]), 1.0);
    assert_eq!(f64::from_bits(point.co[1]), 0.5);
    assert_eq!(f64::from_bits(point.period), 4.1);
    assert_eq!(point.interpolation, "BEZIER");
}

#[test]
fn text_that_is_no_object_is_a_schema_mismatch() {
    assert_eq!(scenes_from_json("not json").err(), Some(SceneError::SchemaMismatch));
    assert_eq!(scenes_from_json("[1, 2]").err(), Some(SceneError::SchemaMismatch));
    assert_eq!(scenes_from_json("null").err(), Some(SceneError::SchemaMismatch));
    assert_eq!(scenes_from_json("{}").unwrap().len(), 0);
}
