//! The mirror of the host's scene: scenes hold object groups, groups hold
//! objects. Numbers that the library only carries are kept as the bits of
//! their IEEE 754 double-precision form.

use vstd::prelude::*;
use vstd::string::*;

verus! {

/// A vector of three numbers, each as its bits.
#[derive(Clone, Copy, Debug, PartialEq, Eq, Structural)]
pub struct Vector3 {
    pub x: u64,
    pub y: u64,
    pub z: u64,
}

/// A time and a value, each a number as its bits.
#[derive(Clone, Copy, Debug, PartialEq, Eq, Structural)]
pub struct Keyframe {
    pub time: u64,
    pub value: u64,
}

/// One control point of an animation curve. Numbers are given by their
/// bits; `co` is `[frame, value]`.
#[derive(Clone, Debug)]
pub struct KeyframePoint {
    pub amplitude: u64,
    pub back: u64,
    pub easing: String,
    pub handle_left: Vec<u64>,
    pub handle_left_type: String,
    pub handle_right: Vec<u64>,
    pub handle_right_type: String,
    pub interpolation: String,
    pub co: Vec<u64>,
    pub period: u64,
}

/// An animation curve of one property of an object.
#[derive(Clone, Debug)]
pub struct AnimCurve {
    pub array_index: u32,
    pub auto_smoothing: String,
    pub data_path: String,
    pub extrapolation: String,
    pub keyframe_points: Vec<KeyframePoint>,
    pub range: Vec<u64>,
}

/// The blend-shape keys of an object.
#[derive(Clone, Debug)]
pub struct BlendShapes {
    pub keys: Vec<String>,
    pub reference: Option<String>,
}

/// An object of the scene.
#[derive(Clone, Debug)]
pub struct Object {
    pub name: String,
    pub position: Vector3,
    pub rotation: Vector3,
    pub scale: Vector3,
    pub blend_shapes: BlendShapes,
    pub anim_curves: Vec<AnimCurve>,
}

/// A named collection of objects.
#[derive(Clone, Debug)]
pub struct ObjectGroup {
    pub name: String,
    pub objects: Vec<Object>,
}

/// A scene: a named list of object groups.
#[derive(Clone, Debug)]
pub struct Scene {
    pub name: String,
    pub object_groups: Vec<ObjectGroup>,
}

/// A [`KeyframePoint`] as a mathematical value.
#[verifier::ext_equal]
pub struct PointView {
    pub amplitude: u64,
    pub back: u64,
    pub easing: Seq<char>,
    pub handle_left: Seq<u64>,
    pub handle_left_type: Seq<char>,
    pub handle_right: Seq<u64>,
    pub handle_right_type: Seq<char>,
    pub interpolation: Seq<char>,
    pub co: Seq<u64>,
    pub period: u64,
}

/// An [`AnimCurve`] as a mathematical value.
#[verifier::ext_equal]
pub struct CurveView {
    pub array_index: u32,
    pub auto_smoothing: Seq<char>,
    pub data_path: Seq<char>,
    pub extrapolation: Seq<char>,
    pub keyframe_points: Seq<PointView>,
    pub range: Seq<u64>,
}

/// A [`BlendShapes`] as a mathematical value.
#[verifier::ext_equal]
pub struct ShapesView {
    pub keys: Seq<Seq<char>>,
    pub reference: Option<Seq<char>>,
}

/// An [`Object`] as a mathematical value.
#[verifier::ext_equal]
pub struct ObjectView {
    pub name: Seq<char>,
    pub position: Vector3,
    pub rotation: Vector3,
    pub scale: Vector3,
    pub blend_shapes: ShapesView,
    pub anim_curves: Seq<CurveView>,
}

/// An [`ObjectGroup`] as a mathematical value.
#[verifier::ext_equal]
pub struct GroupView {
    pub name: Seq<char>,
    pub objects: Seq<ObjectView>,
}

/// A [`Scene`] as a mathematical value.
#[verifier::ext_equal]
pub struct SceneView {
    pub name: Seq<char>,
    pub object_groups: Seq<GroupView>,
}

impl View for KeyframePoint {
    type V = PointView;

    open spec fn view(&self) -> PointView {
        PointView {
            amplitude: self.amplitude,
            back: self.back,
            easing: self.easing@,
            handle_left: self.handle_left@,
            handle_left_type: self.handle_left_type@,
            handle_right: self.handle_right@,
            handle_right_type: self.handle_right_type@,
            interpolation: self.interpolation@,
            co: self.co@,
            period: self.period,
        }
    }
}

impl View for AnimCurve {
    type V = CurveView;

    open spec fn view(&self) -> CurveView {
        CurveView {
            array_index: self.array_index,
            auto_smoothing: self.auto_smoothing@,
            data_path: self.data_path@,
            extrapolation: self.extrapolation@,
            keyframe_points: self.keyframe_points@.map_values(|p: KeyframePoint| p@),
            range: self.range@,
        }
    }
}

impl View for BlendShapes {
    type V = ShapesView;

    open spec fn view(&self) -> ShapesView {
        ShapesView {
            keys: self.keys@.map_values(|k: String| k@),
            reference: match self.reference {
                Some(r) => Some(r@),
                None => None,
            },
        }
    }
}

impl View for Object {
    type V = ObjectView;

    open spec fn view(&self) -> ObjectView {
        ObjectView {
            name: self.name@,
            position: self.position,
            rotation: self.rotation,
            scale: self.scale,
            blend_shapes: self.blend_shapes@,
            anim_curves: self.anim_curves@.map_values(|c: AnimCurve| c@),
        }
    }
}

impl View for ObjectGroup {
    type V = GroupView;

    open spec fn view(&self) -> GroupView {
        GroupView { name: self.name@, objects: self.objects@.map_values(|o: Object| o@) }
    }
}

impl View for Scene {
    type V = SceneView;

    open spec fn view(&self) -> SceneView {
        SceneView {
            name: self.name@,
            object_groups: self.object_groups@.map_values(|g: ObjectGroup| g@),
        }
    }
}

/// The scenes as mathematical values.
pub open spec fn scenes_view(scenes: Seq<Scene>) -> Seq<SceneView> {
    scenes.map_values(|s: Scene| s@)
}

/// The names of the objects of a group, in order.
pub open spec fn object_names(group: ObjectGroup) -> Seq<Seq<char>> {
    group.objects@.map_values(|o: Object| o.name@)
}

/// The names of the groups of a scene, in order.
pub open spec fn group_names(scene: Scene) -> Seq<Seq<char>> {
    scene.object_groups@.map_values(|g: ObjectGroup| g.name@)
}

/// The names of a list of scenes, in order.
pub open spec fn scene_names(scenes: Seq<Scene>) -> Seq<Seq<char>> {
    scenes.map_values(|s: Scene| s.name@)
}

/// No name occurs twice.
pub open spec fn distinct(names: Seq<Seq<char>>) -> bool {
    forall|i: int, j: int| 0 <= i < j < names.len() ==> names[i] != names[j]
}

/// Names are unique within their container: no two scenes, no two groups
/// of a scene and no two objects of a group share a name.
pub open spec fn scenes_wf(scenes: Seq<Scene>) -> bool {
    &&& distinct(scene_names(scenes))
    &&& forall|i: int| 0 <= i < scenes.len() ==> distinct(group_names(#[trigger] scenes[i]))
    &&& forall|i: int, j: int|
        0 <= i < scenes.len() && 0 <= j < scenes[i].object_groups@.len() ==> distinct(
            object_names(#[trigger] scenes[i].object_groups@[j]),
        )
}

/// The first position from `from` on at which `name` stands in `names`,
/// or the length of `names`.
pub open spec fn position_of(names: Seq<Seq<char>>, name: Seq<char>, from: int) -> int
    decreases names.len() - from,
{
    if from < 0 || from >= names.len() {
        names.len() as int
    } else if names[from] == name {
        from
    } else {
        position_of(names, name, from + 1)
    }
}

/// `position_of` gives the first position of the name at or behind
/// `from`, and the length exactly where the name does not occur there.
pub proof fn lemma_position_of(names: Seq<Seq<char>>, name: Seq<char>, from: int)
    requires
        0 <= from <= names.len(),
    ensures
        from <= position_of(names, name, from) <= names.len(),
        position_of(names, name, from) < names.len() ==> names[position_of(names, name, from)]
            == name,
        forall|i: int| from <= i < position_of(names, name, from) ==> names[i] != name,
    decreases names.len() - from,
{
    if from < names.len() && names[from] != name {
        lemma_position_of(names, name, from + 1);
    }
}

} // verus!
