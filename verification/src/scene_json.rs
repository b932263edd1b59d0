//! Reading a snapshot of the scenes from the JSON text of the host.
//!
//! The text is an object of scenes. A scene counts if it has an object
//! under `object_group`, whose members are its groups. The elements of a
//! group's `objects` are its objects; an element that lacks a part of an
//! object is left out, and so it is with the curves of an object and the
//! points of a curve.

use vstd::prelude::*;
use vstd::string::*;
use crate::json::{
    find_member, items, json_field, json_items, json_members, json_natural, json_number,
    json_parsed, json_text, lookup, members, members_view, natural, number, parse, text, Member,
};
use crate::scene::{
    scenes_view, AnimCurve, BlendShapes, CurveView, GroupView, KeyframePoint, Object, ObjectGroup,
    ObjectView, PointView, Scene, SceneView, ShapesView, Vector3,
};

verus! {

/// Why a snapshot could not be read.
#[derive(Clone, Copy, Debug, PartialEq, Eq, Structural)]
pub enum SceneError {
    /// The text is no JSON, or not an object of scenes.
    SchemaMismatch,
}

/// The members of a JSON object.
pub type Members = Seq<(Seq<char>, serde_json::Value)>;

/// The number under `key`.
pub open spec fn number_in(m: Members, key: Seq<char>) -> Option<u64> {
    match lookup(m, key, 0) {
        Some(v) => json_number(v),
        None => None,
    }
}

/// The text under `key`.
pub open spec fn text_in(m: Members, key: Seq<char>) -> Option<Seq<char>> {
    match lookup(m, key, 0) {
        Some(v) => json_text(v),
        None => None,
    }
}

/// The elements of the array under `key`.
pub open spec fn items_in(m: Members, key: Seq<char>) -> Option<Seq<serde_json::Value>> {
    match lookup(m, key, 0) {
        Some(v) => json_items(v),
        None => None,
    }
}

/// The first two elements of the array under `key`, both numbers.
pub open spec fn pair_in(m: Members, key: Seq<char>) -> Option<Seq<u64>> {
    match items_in(m, key) {
        Some(found) => if found.len() >= 2 && json_number(found[0]) is Some && json_number(
            found[1],
        ) is Some {
            Some(seq![json_number(found[0])->0, json_number(found[1])->0])
        } else {
            None
        },
        None => None,
    }
}

/// The three numbers of the array under `key`, as a vector; the array may
/// hold more or less than three elements and is then no vector.
pub open spec fn vector_in(m: Members, key: Seq<char>) -> Option<Vector3> {
    match items_in(m, key) {
        Some(found) => if found.len() == 3 && json_number(found[0]) is Some && json_number(
            found[1],
        ) is Some && json_number(found[2]) is Some {
            Some(
                Vector3 {
                    x: json_number(found[0])->0,
                    y: json_number(found[1])->0,
                    z: json_number(found[2])->0,
                },
            )
        } else {
            None
        },
        None => None,
    }
}

/// The numbers among the first `n` elements.
pub open spec fn numbers_of(found: Seq<serde_json::Value>, n: int) -> Seq<u64>
    decreases n,
{
    if n <= 0 {
        seq![]
    } else {
        match json_number(found[n - 1]) {
            Some(x) => numbers_of(found, n - 1).push(x),
            None => numbers_of(found, n - 1),
        }
    }
}

/// The texts among the first `n` elements.
pub open spec fn texts_of(found: Seq<serde_json::Value>, n: int) -> Seq<Seq<char>>
    decreases n,
{
    if n <= 0 {
        seq![]
    } else {
        match json_text(found[n - 1]) {
            Some(x) => texts_of(found, n - 1).push(x),
            None => texts_of(found, n - 1),
        }
    }
}

/// The control point that a value stands for, if it has every part of one.
pub open spec fn point_of(v: serde_json::Value) -> Option<PointView> {
    match json_members(v) {
        None => None,
        Some(m) => {
            let amplitude = number_in(m, "amplitude"@);
            let back = number_in(m, "back"@);
            let easing = text_in(m, "easing"@);
            let handle_left = pair_in(m, "handle_left"@);
            let handle_left_type = text_in(m, "handle_left_type"@);
            let handle_right = pair_in(m, "handle_right"@);
            let handle_right_type = text_in(m, "handle_right_type"@);
            let interpolation = text_in(m, "interpolation"@);
            let co = pair_in(m, "co"@);
            let period = number_in(m, "period"@);
            if amplitude is Some && back is Some && easing is Some && handle_left is Some
                && handle_left_type is Some && handle_right is Some && handle_right_type is Some
                && interpolation is Some && co is Some && period is Some {
                Some(
                    PointView {
                        amplitude: amplitude->0,
                        back: back->0,
                        easing: easing->0,
                        handle_left: handle_left->0,
                        handle_left_type: handle_left_type->0,
                        handle_right: handle_right->0,
                        handle_right_type: handle_right_type->0,
                        interpolation: interpolation->0,
                        co: co->0,
                        period: period->0,
                    },
                )
            } else {
                None
            }
        },
    }
}

/// The control points among the first `n` elements.
pub open spec fn points_of(found: Seq<serde_json::Value>, n: int) -> Seq<PointView>
    decreases n,
{
    if n <= 0 {
        seq![]
    } else {
        match point_of(found[n - 1]) {
            Some(x) => points_of(found, n - 1).push(x),
            None => points_of(found, n - 1),
        }
    }
}

/// The natural number under `key`.
pub open spec fn natural_in(m: Members, key: Seq<char>) -> Option<u64> {
    match lookup(m, key, 0) {
        Some(v) => json_natural(v),
        None => None,
    }
}

/// The curve that a value stands for, if it has every part of one. Its
/// array index is taken modulo 2^32.
pub open spec fn curve_of(v: serde_json::Value) -> Option<CurveView> {
    match json_members(v) {
        None => None,
        Some(m) => {
            let array_index = natural_in(m, "array_index"@);
            let auto_smoothing = text_in(m, "auto_smoothing"@);
            let data_path = text_in(m, "data_path"@);
            let extrapolation = text_in(m, "extrapolation"@);
            let range = items_in(m, "range"@);
            let points = items_in(m, "keyframe_points"@);
            if array_index is Some && auto_smoothing is Some && data_path is Some
                && extrapolation is Some && range is Some && points is Some {
                Some(
                    CurveView {
                        array_index: (array_index->0 % 0x1_0000_0000) as u32,
                        auto_smoothing: auto_smoothing->0,
                        data_path: data_path->0,
                        extrapolation: extrapolation->0,
                        keyframe_points: points_of(points->0, points->0.len() as int),
                        range: numbers_of(range->0, range->0.len() as int),
                    },
                )
            } else {
                None
            }
        },
    }
}

/// The curves among the first `n` elements.
pub open spec fn curves_of(found: Seq<serde_json::Value>, n: int) -> Seq<CurveView>
    decreases n,
{
    if n <= 0 {
        seq![]
    } else {
        match curve_of(found[n - 1]) {
            Some(x) => curves_of(found, n - 1).push(x),
            None => curves_of(found, n - 1),
        }
    }
}

/// The blend shapes that a value stands for, if it is an object with an
/// array of keys.
pub open spec fn shapes_of(v: serde_json::Value) -> Option<ShapesView> {
    match json_members(v) {
        None => None,
        Some(m) => match items_in(m, "keys"@) {
            None => None,
            Some(keys) => Some(
                ShapesView {
                    keys: texts_of(keys, keys.len() as int),
                    reference: text_in(m, "reference"@),
                },
            ),
        },
    }
}

/// The object that a value stands for, if it has every part of one.
pub open spec fn object_of(v: serde_json::Value) -> Option<ObjectView> {
    match json_members(v) {
        None => None,
        Some(m) => {
            let name = text_in(m, "name"@);
            let position = vector_in(m, "location"@);
            let rotation = vector_in(m, "rotation"@);
            let scale = vector_in(m, "scale"@);
            let shapes = match lookup(m, "blend_shapes"@, 0) {
                Some(b) => shapes_of(b),
                None => None,
            };
            let curves = items_in(m, "anim_curves"@);
            if name is Some && position is Some && rotation is Some && scale is Some
                && shapes is Some && curves is Some {
                Some(
                    ObjectView {
                        name: name->0,
                        position: position->0,
                        rotation: rotation->0,
                        scale: scale->0,
                        blend_shapes: shapes->0,
                        anim_curves: curves_of(curves->0, curves->0.len() as int),
                    },
                )
            } else {
                None
            }
        },
    }
}

/// The objects among the first `n` elements.
pub open spec fn objects_of(found: Seq<serde_json::Value>, n: int) -> Seq<ObjectView>
    decreases n,
{
    if n <= 0 {
        seq![]
    } else {
        match object_of(found[n - 1]) {
            Some(x) => objects_of(found, n - 1).push(x),
            None => objects_of(found, n - 1),
        }
    }
}

/// The group that a member stands for: its key is the name, the objects
/// are those of the array under `objects`, none where there is no array.
pub open spec fn group_of(name: Seq<char>, v: serde_json::Value) -> GroupView {
    GroupView {
        name,
        objects: match json_field(v, "objects"@) {
            Some(list) => match json_items(list) {
                Some(found) => objects_of(found, found.len() as int),
                None => seq![],
            },
            None => seq![],
        },
    }
}

/// The groups of the first `n` members.
pub open spec fn groups_of(m: Members, n: int) -> Seq<GroupView>
    decreases n,
{
    if n <= 0 {
        seq![]
    } else {
        groups_of(m, n - 1).push(group_of(m[n - 1].0, m[n - 1].1))
    }
}

/// The groups of a scene: the members of the object under `object_group`.
pub open spec fn scene_groups(v: serde_json::Value) -> Option<Members> {
    match json_field(v, "object_group"@) {
        Some(g) => json_members(g),
        None => None,
    }
}

/// The scenes of the first `n` members: each member with groups, under
/// its key as name.
pub open spec fn scenes_of(m: Members, n: int) -> Seq<SceneView>
    decreases n,
{
    if n <= 0 {
        seq![]
    } else {
        match scene_groups(m[n - 1].1) {
            Some(groups) => scenes_of(m, n - 1).push(
                SceneView { name: m[n - 1].0, object_groups: groups_of(groups, groups.len() as int) },
            ),
            None => scenes_of(m, n - 1),
        }
    }
}

/// The snapshot that a text stands for: `None` where the text is no JSON
/// or its value is no object.
pub open spec fn snapshot_of(text: Seq<char>) -> Option<Seq<SceneView>> {
    match json_parsed(text) {
        None => None,
        Some(v) => match json_members(v) {
            None => None,
            Some(m) => Some(scenes_of(m, m.len() as int)),
        },
    }
}

/// The value under `key`.
fn value_in<'a>(m: &'a Vec<Member>, key: &str) -> (r: Option<&'a serde_json::Value>)
    ensures
        match r {
            Some(v) => lookup(members_view(m@), key@, 0) == Some(*v),
            None => lookup(members_view(m@), key@, 0) is None,
        },
{
    match find_member(m, key) {
        Some(at) => Some(&m[at].value),
        None => None,
    }
}

/// The number under `key`.
fn read_number(m: &Vec<Member>, key: &str) -> (r: Option<u64>)
    ensures
        r == number_in(members_view(m@), key@),
{
    match value_in(m, key) {
        Some(v) => number(v),
        None => None,
    }
}

/// The natural number under `key`.
fn read_natural(m: &Vec<Member>, key: &str) -> (r: Option<u64>)
    ensures
        r == natural_in(members_view(m@), key@),
{
    match value_in(m, key) {
        Some(v) => natural(v),
        None => None,
    }
}

/// The text under `key`.
fn read_text(m: &Vec<Member>, key: &str) -> (r: Option<String>)
    ensures
        match r {
            Some(found) => text_in(members_view(m@), key@) == Some(found@),
            None => text_in(members_view(m@), key@) is None,
        },
{
    match value_in(m, key) {
        Some(v) => text(v),
        None => None,
    }
}

/// The elements of the array under `key`.
fn read_items(m: &Vec<Member>, key: &str) -> (r: Option<Vec<serde_json::Value>>)
    ensures
        match r {
            Some(found) => items_in(members_view(m@), key@) == Some(found@),
            None => items_in(members_view(m@), key@) is None,
        },
{
    match value_in(m, key) {
        Some(v) => items(v),
        None => None,
    }
}

/// The first two numbers of the array under `key`.
fn read_pair(m: &Vec<Member>, key: &str) -> (r: Option<Vec<u64>>)
    ensures
        match r {
            Some(found) => pair_in(members_view(m@), key@) == Some(found@),
            None => pair_in(members_view(m@), key@) is None,
        },
{
    match read_items(m, key) {
        None => None,
        Some(found) => {
            if found.len() < 2 {
                return None;
            }
            match (number(&found[0]), number(&found[1])) {
                (Some(a), Some(b)) => {
                    let mut pair: Vec<u64> = Vec::new();
                    pair.push(a);
                    pair.push(b);
                    assert(pair@ =~= seq![a, b]);
                    Some(pair)
                },
                _ => None,
            }
        },
    }
}

/// The vector under `key`.
fn read_vector(m: &Vec<Member>, key: &str) -> (r: Option<Vector3>)
    ensures
        r == vector_in(members_view(m@), key@),
{
    match read_items(m, key) {
        None => None,
        Some(found) => {
            if found.len() != 3 {
                return None;
            }
            match (number(&found[0]), number(&found[1]), number(&found[2])) {
                (Some(x), Some(y), Some(z)) => Some(Vector3 { x, y, z }),
                _ => None,
            }
        },
    }
}

/// The numbers among `found`.
fn read_numbers(found: &Vec<serde_json::Value>) -> (r: Vec<u64>)
    ensures
        r@ == numbers_of(found@, found.len() as int),
{
    let mut out: Vec<u64> = Vec::new();
    let mut n: usize = 0;
    while n < found.len()
        invariant
            n <= found.len(),
            out@ == numbers_of(found@, n as int),
        decreases found.len() - n,
    {
        match number(&found[n]) {
            Some(x) => {
                out.push(x);
            },
            None => {},
        }
        n += 1;
    }
    out
}

/// The texts among `found`.
fn read_texts(found: &Vec<serde_json::Value>) -> (r: Vec<String>)
    ensures
        r@.map_values(|k: String| k@) == texts_of(found@, found.len() as int),
{
    let mut out: Vec<String> = Vec::new();
    let mut n: usize = 0;
    assert(out@.map_values(|k: String| k@) =~= texts_of(found@, 0));
    while n < found.len()
        invariant
            n <= found.len(),
            out@.map_values(|k: String| k@) == texts_of(found@, n as int),
        decreases found.len() - n,
    {
        match text(&found[n]) {
            Some(x) => {
                let ghost before = out@.map_values(|k: String| k@);
                out.push(x);
                assert(out@.map_values(|k: String| k@) =~= before.push(x@));
            },
            None => {},
        }
        n += 1;
    }
    out
}

/// The control point that `v` stands for.
fn read_point(v: &serde_json::Value) -> (r: Option<KeyframePoint>)
    ensures
        match r {
            Some(point) => point_of(*v) == Some(point@),
            None => point_of(*v) is None,
        },
{
    let m = match members(v) {
        Some(m) => m,
        None => {
            return None;
        },
    };
    let amplitude = read_number(&m, "amplitude");
    let back = read_number(&m, "back");
    let easing = read_text(&m, "easing");
    let handle_left = read_pair(&m, "handle_left");
    let handle_left_type = read_text(&m, "handle_left_type");
    let handle_right = read_pair(&m, "handle_right");
    let handle_right_type = read_text(&m, "handle_right_type");
    let interpolation = read_text(&m, "interpolation");
    let co = read_pair(&m, "co");
    let period = read_number(&m, "period");
    match (amplitude, back, easing, handle_left, handle_left_type) {
        (Some(amplitude), Some(back), Some(easing), Some(handle_left), Some(handle_left_type)) => {
            match (handle_right, handle_right_type, interpolation, co, period) {
                (
                    Some(handle_right),
                    Some(handle_right_type),
                    Some(interpolation),
                    Some(co),
                    Some(period),
                ) => {
                    let point = KeyframePoint {
                        amplitude,
                        back,
                        easing,
                        handle_left,
                        handle_left_type,
                        handle_right,
                        handle_right_type,
                        interpolation,
                        co,
                        period,
                    };
                    assert(point_of(*v)->0 =~= point@);
                    Some(point)
                },
                _ => None,
            }
        },
        _ => None,
    }
}

/// The control points among `found`.
fn read_points(found: &Vec<serde_json::Value>) -> (r: Vec<KeyframePoint>)
    ensures
        r@.map_values(|p: KeyframePoint| p@) == points_of(found@, found.len() as int),
{
    let mut out: Vec<KeyframePoint> = Vec::new();
    let mut n: usize = 0;
    assert(out@.map_values(|p: KeyframePoint| p@) =~= points_of(found@, 0));
    while n < found.len()
        invariant
            n <= found.len(),
            out@.map_values(|p: KeyframePoint| p@) == points_of(found@, n as int),
        decreases found.len() - n,
    {
        match read_point(&found[n]) {
            Some(x) => {
                let ghost before = out@.map_values(|p: KeyframePoint| p@);
                let ghost view = x@;
                out.push(x);
                assert(out@.map_values(|p: KeyframePoint| p@) =~= before.push(view));
            },
            None => {},
        }
        n += 1;
    }
    out
}

/// The curve that `v` stands for.
fn read_curve(v: &serde_json::Value) -> (r: Option<AnimCurve>)
    ensures
        match r {
            Some(curve) => curve_of(*v) == Some(curve@),
            None => curve_of(*v) is None,
        },
{
    let m = match members(v) {
        Some(m) => m,
        None => {
            return None;
        },
    };
    let array_index = read_natural(&m, "array_index");
    let auto_smoothing = read_text(&m, "auto_smoothing");
    let data_path = read_text(&m, "data_path");
    let extrapolation = read_text(&m, "extrapolation");
    let range = read_items(&m, "range");
    let points = read_items(&m, "keyframe_points");
    match (array_index, auto_smoothing, data_path, extrapolation, range, points) {
        (
            Some(array_index),
            Some(auto_smoothing),
            Some(data_path),
            Some(extrapolation),
            Some(range),
            Some(points),
        ) => {
            let curve = AnimCurve {
                array_index: (array_index % 0x1_0000_0000) as u32,
                auto_smoothing,
                data_path,
                extrapolation,
                keyframe_points: read_points(&points),
                range: read_numbers(&range),
            };
            assert(curve_of(*v)->0 =~= curve@);
            Some(curve)
        },
        _ => None,
    }
}

/// The curves among `found`.
fn read_curves(found: &Vec<serde_json::Value>) -> (r: Vec<AnimCurve>)
    ensures
        r@.map_values(|c: AnimCurve| c@) == curves_of(found@, found.len() as int),
{
    let mut out: Vec<AnimCurve> = Vec::new();
    let mut n: usize = 0;
    assert(out@.map_values(|c: AnimCurve| c@) =~= curves_of(found@, 0));
    while n < found.len()
        invariant
            n <= found.len(),
            out@.map_values(|c: AnimCurve| c@) == curves_of(found@, n as int),
        decreases found.len() - n,
    {
        match read_curve(&found[n]) {
            Some(x) => {
                let ghost before = out@.map_values(|c: AnimCurve| c@);
                let ghost view = x@;
                out.push(x);
                assert(out@.map_values(|c: AnimCurve| c@) =~= before.push(view));
            },
            None => {},
        }
        n += 1;
    }
    out
}

/// The blend shapes that `v` stands for.
fn read_shapes(v: &serde_json::Value) -> (r: Option<BlendShapes>)
    ensures
        match r {
            Some(shapes) => shapes_of(*v) == Some(shapes@),
            None => shapes_of(*v) is None,
        },
{
    let m = match members(v) {
        Some(m) => m,
        None => {
            return None;
        },
    };
    match read_items(&m, "keys") {
        None => None,
        Some(keys) => {
            let shapes = BlendShapes { keys: read_texts(&keys), reference: read_text(&m, "reference") };
            assert(shapes_of(*v)->0 =~= shapes@);
            Some(shapes)
        },
    }
}

/// The object that `v` stands for.
fn read_object(v: &serde_json::Value) -> (r: Option<Object>)
    ensures
        match r {
            Some(object) => object_of(*v) == Some(object@),
            None => object_of(*v) is None,
        },
{
    let m = match members(v) {
        Some(m) => m,
        None => {
            return None;
        },
    };
    let name = read_text(&m, "name");
    let position = read_vector(&m, "location");
    let rotation = read_vector(&m, "rotation");
    let scale = read_vector(&m, "scale");
    let shapes = match value_in(&m, "blend_shapes") {
        Some(b) => read_shapes(b),
        None => None,
    };
    let curves = read_items(&m, "anim_curves");
    match (name, position, rotation, scale, shapes, curves) {
        (Some(name), Some(position), Some(rotation), Some(scale), Some(blend_shapes), Some(curves)) => {
            let object = Object {
                name,
                position,
                rotation,
                scale,
                blend_shapes,
                anim_curves: read_curves(&curves),
            };
            assert(object_of(*v)->0 =~= object@);
            Some(object)
        },
        _ => None,
    }
}

/// The objects among `found`.
fn read_objects(found: &Vec<serde_json::Value>) -> (r: Vec<Object>)
    ensures
        r@.map_values(|o: Object| o@) == objects_of(found@, found.len() as int),
{
    let mut out: Vec<Object> = Vec::new();
    let mut n: usize = 0;
    assert(out@.map_values(|o: Object| o@) =~= objects_of(found@, 0));
    while n < found.len()
        invariant
            n <= found.len(),
            out@.map_values(|o: Object| o@) == objects_of(found@, n as int),
        decreases found.len() - n,
    {
        match read_object(&found[n]) {
            Some(x) => {
                let ghost before = out@.map_values(|o: Object| o@);
                let ghost view = x@;
                out.push(x);
                assert(out@.map_values(|o: Object| o@) =~= before.push(view));
            },
            None => {},
        }
        n += 1;
    }
    out
}

/// The group that the member `name`, `v` stands for.
fn read_group(name: &String, v: &serde_json::Value) -> (r: ObjectGroup)
    ensures
        r@ == group_of(name@, *v),
{
    let objects = match members(v) {
        None => Vec::new(),
        Some(m) => match read_items(&m, "objects") {
            Some(found) => read_objects(&found),
            None => Vec::new(),
        },
    };
    let group = ObjectGroup { name: name.clone(), objects };
    assert(group@ =~= group_of(name@, *v));
    group
}

/// The groups that the members stand for.
fn read_groups(m: &Vec<Member>) -> (r: Vec<ObjectGroup>)
    ensures
        r@.map_values(|g: ObjectGroup| g@) == groups_of(members_view(m@), m.len() as int),
{
    let ghost pairs = members_view(m@);
    let mut out: Vec<ObjectGroup> = Vec::new();
    let mut n: usize = 0;
    assert(out@.map_values(|g: ObjectGroup| g@) =~= groups_of(pairs, 0));
    while n < m.len()
        invariant
            n <= m.len(),
            pairs == members_view(m@),
            out@.map_values(|g: ObjectGroup| g@) == groups_of(pairs, n as int),
        decreases m.len() - n,
    {
        assert(pairs[n as int] == (m@[n as int].key@, m@[n as int].value));
        let group = read_group(&m[n].key, &m[n].value);
        let ghost before = out@.map_values(|g: ObjectGroup| g@);
        let ghost view = group@;
        out.push(group);
        assert(out@.map_values(|g: ObjectGroup| g@) =~= before.push(view));
        n += 1;
    }
    out
}

/// The members of the object under `object_group` of `v`.
fn read_scene_groups(v: &serde_json::Value) -> (r: Option<Vec<Member>>)
    ensures
        match r {
            Some(found) => scene_groups(*v) == Some(members_view(found@)),
            None => scene_groups(*v) is None,
        },
{
    match members(v) {
        None => None,
        Some(m) => match value_in(&m, "object_group") {
            Some(g) => members(g),
            None => None,
        },
    }
}

/// Reads the snapshot that the host sent as JSON text: see
/// [`snapshot_of`]. The error is `SchemaMismatch`.
pub fn scenes_from_json(reply: &str) -> (r: Result<Vec<Scene>, SceneError>)
    ensures
        match r {
            Ok(scenes) => snapshot_of(reply@) == Some(scenes_view(scenes@)),
            Err(e) => snapshot_of(reply@) is None && e == SceneError::SchemaMismatch,
        },
{
    let value = match parse(reply) {
        Some(value) => value,
        None => {
            return Err(SceneError::SchemaMismatch);
        },
    };
    let m = match members(&value) {
        Some(m) => m,
        None => {
            return Err(SceneError::SchemaMismatch);
        },
    };
    let ghost pairs = members_view(m@);
    let mut scenes: Vec<Scene> = Vec::new();
    let mut n: usize = 0;
    assert(scenes_view(scenes@) =~= scenes_of(pairs, 0));
    while n < m.len()
        invariant
            n <= m.len(),
            pairs == members_view(m@),
            scenes_view(scenes@) == scenes_of(pairs, n as int),
        decreases m.len() - n,
    {
        assert(pairs[n as int] == (m@[n as int].key@, m@[n as int].value));
        match read_scene_groups(&m[n].value) {
            Some(groups) => {
                let scene = Scene { name: m[n].key.clone(), object_groups: read_groups(&groups) };
                let ghost before = scenes_view(scenes@);
                let ghost view = scene@;
                assert(view =~= SceneView {
                    name: pairs[n as int].0,
                    object_groups: groups_of(members_view(groups@), groups.len() as int),
                });
                scenes.push(scene);
                assert(scenes_view(scenes@) =~= before.push(view));
            },
            None => {},
        }
        n += 1;
    }
    Ok(scenes)
}

} // verus!
