//! The difference between a saved and a fresh snapshot of the scenes: by
//! name, within scenes of the same name and groups of the same name.

use vstd::prelude::*;
use vstd::string::*;
use crate::scene::{
    group_names, lemma_position_of, object_names, position_of, scene_names, scenes_wf, Object,
    ObjectGroup, Scene,
};
use crate::text::{join_path, joined, strings_view};

verus! {

/// What differs between two snapshots. Collections are written
/// `scene/group`, objects `scene/group/object`.
#[derive(Clone, Debug)]
pub struct SceneDiff {
    /// Objects of the saved snapshot that the fresh one lacks.
    pub missing_objects: Vec<String>,
    /// Objects of the fresh snapshot that the saved one lacks.
    pub new_objects: Vec<String>,
    pub missing_collections: Vec<String>,
    pub new_collections: Vec<String>,
}

/// A [`SceneDiff`] as a mathematical value.
#[verifier::ext_equal]
pub struct DiffView {
    pub missing_objects: Seq<Seq<char>>,
    pub new_objects: Seq<Seq<char>>,
    pub missing_collections: Seq<Seq<char>>,
    pub new_collections: Seq<Seq<char>>,
}

impl View for SceneDiff {
    type V = DiffView;

    open spec fn view(&self) -> DiffView {
        DiffView {
            missing_objects: strings_view(self.missing_objects@),
            new_objects: strings_view(self.new_objects@),
            missing_collections: strings_view(self.missing_collections@),
            new_collections: strings_view(self.new_collections@),
        }
    }
}

impl DiffView {
    /// The difference with nothing in it.
    pub open spec fn empty() -> DiffView {
        DiffView {
            missing_objects: seq![],
            new_objects: seq![],
            missing_collections: seq![],
            new_collections: seq![],
        }
    }

    /// Whether anything differs.
    pub open spec fn has_changes(self) -> bool {
        self.missing_objects.len() > 0 || self.new_objects.len() > 0
            || self.missing_collections.len() > 0 || self.new_collections.len() > 0
    }

    /// This difference followed by `other`, list by list.
    pub open spec fn followed_by(self, other: DiffView) -> DiffView {
        DiffView {
            missing_objects: self.missing_objects + other.missing_objects,
            new_objects: self.new_objects + other.new_objects,
            missing_collections: self.missing_collections + other.missing_collections,
            new_collections: self.new_collections + other.new_collections,
        }
    }
}

impl SceneDiff {
    /// Whether anything differs.
    pub fn has_changes(&self) -> (r: bool)
        ensures
            r == self@.has_changes(),
    {
        self.missing_objects.len() > 0 || self.new_objects.len() > 0
            || self.missing_collections.len() > 0 || self.new_collections.len() > 0
    }

    /// The difference with nothing in it.
    pub fn empty() -> (diff: Self)
        ensures
            diff@ == DiffView::empty(),
            !diff@.has_changes(),
    {
        let diff = SceneDiff {
            missing_objects: Vec::new(),
            new_objects: Vec::new(),
            missing_collections: Vec::new(),
            new_collections: Vec::new(),
        };
        assert(diff@ =~= DiffView::empty());
        diff
    }
}

/// The names among the first `n` of `a` that `b` lacks, each once, in the
/// order of their first appearance, each written behind `prefix` and a
/// slash.
pub open spec fn lacking(prefix: Seq<char>, a: Seq<Seq<char>>, b: Seq<Seq<char>>, n: int) -> Seq<
    Seq<char>,
>
    decreases n,
{
    if n <= 0 {
        seq![]
    } else {
        let rest = lacking(prefix, a, b, n - 1);
        let name = a[n - 1];
        if position_of(b, name, 0) == b.len() && position_of(a, name, 0) == n - 1 {
            rest.push(joined(prefix, name))
        } else {
            rest
        }
    }
}

/// What differs between two groups of one name in the scene `scene`.
pub open spec fn group_diff(scene: Seq<char>, saved: ObjectGroup, fresh: ObjectGroup) -> DiffView {
    DiffView {
        missing_objects: lacking(
            joined(scene, saved.name@),
            object_names(saved),
            object_names(fresh),
            saved.objects@.len() as int,
        ),
        new_objects: lacking(
            joined(scene, fresh.name@),
            object_names(fresh),
            object_names(saved),
            fresh.objects@.len() as int,
        ),
        missing_collections: seq![],
        new_collections: seq![],
    }
}

/// What differs in the objects of the first `n` groups of `saved` against
/// the groups of the same name in `fresh`.
pub open spec fn groups_diff(saved: Scene, fresh: Scene, n: int) -> DiffView
    decreases n,
{
    if n <= 0 {
        DiffView::empty()
    } else {
        let rest = groups_diff(saved, fresh, n - 1);
        let group = saved.object_groups@[n - 1];
        let at = position_of(group_names(fresh), group.name@, 0);
        if at < fresh.object_groups@.len() {
            rest.followed_by(group_diff(saved.name@, group, fresh.object_groups@[at]))
        } else {
            rest
        }
    }
}

/// What differs between two scenes of one name: first their collections,
/// then the objects of the collections that both have.
pub open spec fn scene_diff(saved: Scene, fresh: Scene) -> DiffView {
    let collections = DiffView {
        missing_objects: seq![],
        new_objects: seq![],
        missing_collections: lacking(
            saved.name@,
            group_names(saved),
            group_names(fresh),
            saved.object_groups@.len() as int,
        ),
        new_collections: lacking(
            saved.name@,
            group_names(fresh),
            group_names(saved),
            fresh.object_groups@.len() as int,
        ),
    };
    collections.followed_by(groups_diff(saved, fresh, saved.object_groups@.len() as int))
}

/// What differs between the first `n` scenes of `saved` and the scenes of
/// the same name in `fresh`. Scenes that only one side has add nothing.
pub open spec fn scenes_diff(saved: Seq<Scene>, fresh: Seq<Scene>, n: int) -> DiffView
    decreases n,
{
    if n <= 0 {
        DiffView::empty()
    } else {
        let rest = scenes_diff(saved, fresh, n - 1);
        let at = position_of(scene_names(fresh), saved[n - 1].name@, 0);
        if at < fresh.len() {
            rest.followed_by(scene_diff(saved[n - 1], fresh[at]))
        } else {
            rest
        }
    }
}

/// Against itself a list of names lacks nothing.
pub proof fn lemma_lacking_self(prefix: Seq<char>, a: Seq<Seq<char>>, n: int)
    requires
        0 <= n <= a.len(),
    ensures
        lacking(prefix, a, a, n) == Seq::<Seq<char>>::empty(),
    decreases n,
{
    if n > 0 {
        lemma_lacking_self(prefix, a, n - 1);
        lemma_position_of(a, a[n - 1], 0);
    }
}

/// Among distinct names each stands first at its own position.
pub proof fn lemma_position_of_distinct(names: Seq<Seq<char>>, i: int)
    requires
        0 <= i < names.len(),
        forall|a: int, b: int| 0 <= a < b < names.len() ==> names[a] != names[b],
    ensures
        position_of(names, names[i], 0) == i,
{
    lemma_position_of(names, names[i], 0);
}

/// Against itself a scene whose groups have distinct names shows no
/// difference in its objects.
pub proof fn lemma_groups_diff_self(scene: Scene, n: int)
    requires
        0 <= n <= scene.object_groups@.len(),
        forall|a: int, b: int|
            0 <= a < b < group_names(scene).len() ==> group_names(scene)[a] != group_names(scene)[b],
    ensures
        groups_diff(scene, scene, n) == DiffView::empty(),
    decreases n,
{
    if n > 0 {
        lemma_groups_diff_self(scene, n - 1);
        let group = scene.object_groups@[n - 1];
        assert(group_names(scene)[n - 1] == group.name@);
        lemma_position_of_distinct(group_names(scene), n - 1);
        lemma_lacking_self(
            joined(scene.name@, group.name@),
            object_names(group),
            group.objects@.len() as int,
        );
        assert(groups_diff(scene, scene, n) =~= DiffView::empty());
    }
}

/// The first `n` scenes of a snapshot whose names are unique within their
/// containers show no difference against the snapshot itself.
pub proof fn lemma_scenes_diff_self(scenes: Seq<Scene>, n: int)
    requires
        scenes_wf(scenes),
        0 <= n <= scenes.len(),
    ensures
        scenes_diff(scenes, scenes, n) == DiffView::empty(),
        !scenes_diff(scenes, scenes, n).has_changes(),
    decreases n,
{
    if n > 0 {
        lemma_scenes_diff_self(scenes, n - 1);
        let scene = scenes[n - 1];
        assert(scene_names(scenes)[n - 1] == scene.name@);
        lemma_position_of_distinct(scene_names(scenes), n - 1);
        lemma_lacking_self(scene.name@, group_names(scene), scene.object_groups@.len() as int);
        lemma_groups_diff_self(scene, scene.object_groups@.len() as int);
        assert(scene_diff(scene, scene) =~= DiffView::empty());
        assert(scenes_diff(scenes, scenes, n) =~= DiffView::empty());
    }
}

/// Comparing a snapshot with itself gives the empty difference, provided
/// names are unique within their containers.
pub proof fn lemma_compare_same(scenes: Seq<Scene>)
    requires
        scenes_wf(scenes),
    ensures
        scenes_diff(scenes, scenes, scenes.len() as int) == DiffView::empty(),
        !scenes_diff(scenes, scenes, scenes.len() as int).has_changes(),
{
    lemma_scenes_diff_self(scenes, scenes.len() as int);
}

/// The first object of `objects` named `name`, by position.
fn find_object(objects: &Vec<Object>, name: &String) -> (at: usize)
    ensures
        at == position_of(objects@.map_values(|o: Object| o.name@), name@, 0),
        at <= objects.len(),
{
    let ghost names = objects@.map_values(|o: Object| o.name@);
    let mut at: usize = 0;
    proof {
        lemma_position_of(names, name@, 0);
    }
    while at < objects.len() && !(objects[at].name == *name)
        invariant
            at <= objects.len(),
            names == objects@.map_values(|o: Object| o.name@),
            position_of(names, name@, at as int) == position_of(names, name@, 0),
        decreases objects.len() - at,
    {
        assert(names[at as int] == objects@[at as int].name@);
        at += 1;
    }
    proof {
        if at < objects.len() {
            assert(names[at as int] == objects@[at as int].name@);
        }
    }
    at
}

/// The first group of `groups` named `name`, by position.
fn find_group(groups: &Vec<ObjectGroup>, name: &String) -> (at: usize)
    ensures
        at == position_of(groups@.map_values(|g: ObjectGroup| g.name@), name@, 0),
        at <= groups.len(),
{
    let ghost names = groups@.map_values(|g: ObjectGroup| g.name@);
    let mut at: usize = 0;
    proof {
        lemma_position_of(names, name@, 0);
    }
    while at < groups.len() && !(groups[at].name == *name)
        invariant
            at <= groups.len(),
            names == groups@.map_values(|g: ObjectGroup| g.name@),
            position_of(names, name@, at as int) == position_of(names, name@, 0),
        decreases groups.len() - at,
    {
        assert(names[at as int] == groups@[at as int].name@);
        at += 1;
    }
    proof {
        if at < groups.len() {
            assert(names[at as int] == groups@[at as int].name@);
        }
    }
    at
}

/// The first scene of `scenes` named `name`, by position.
pub fn find_scene(scenes: &Vec<Scene>, name: &String) -> (at: usize)
    ensures
        at == position_of(scene_names(scenes@), name@, 0),
        at <= scenes.len(),
{
    let ghost names = scene_names(scenes@);
    let mut at: usize = 0;
    proof {
        lemma_position_of(names, name@, 0);
    }
    while at < scenes.len() && !(scenes[at].name == *name)
        invariant
            at <= scenes.len(),
            names == scene_names(scenes@),
            position_of(names, name@, at as int) == position_of(names, name@, 0),
        decreases scenes.len() - at,
    {
        assert(names[at as int] == scenes@[at as int].name@);
        at += 1;
    }
    proof {
        if at < scenes.len() {
            assert(names[at as int] == scenes@[at as int].name@);
        }
    }
    at
}

/// Appends to `out` the objects of `a` that `b` lacks.
fn push_lacking_objects(out: &mut Vec<String>, prefix: &String, a: &Vec<Object>, b: &Vec<Object>)
    ensures
        strings_view(final(out)@) == strings_view(old(out)@) + lacking(
            prefix@,
            a@.map_values(|o: Object| o.name@),
            b@.map_values(|o: Object| o.name@),
            a.len() as int,
        ),
{
    let ghost an = a@.map_values(|o: Object| o.name@);
    let ghost bn = b@.map_values(|o: Object| o.name@);
    let mut i: usize = 0;
    assert(strings_view(out@) =~= strings_view(old(out)@) + lacking(prefix@, an, bn, 0));
    while i < a.len()
        invariant
            i <= a.len(),
            an == a@.map_values(|o: Object| o.name@),
            bn == b@.map_values(|o: Object| o.name@),
            strings_view(out@) == strings_view(old(out)@) + lacking(prefix@, an, bn, i as int),
        decreases a.len() - i,
    {
        let name = &a[i].name;
        assert(an[i as int] == name@);
        if find_object(b, name) == b.len() && find_object(a, name) == i {
            let ghost before = strings_view(out@);
            out.push(join_path(prefix.as_str(), name.as_str()));
            assert(strings_view(out@) =~= before.push(joined(prefix@, name@)));
            assert(strings_view(out@) =~= strings_view(old(out)@) + lacking(
                prefix@,
                an,
                bn,
                i + 1,
            ));
        }
        i += 1;
    }
}

/// Appends to `out` the groups of `a` that `b` lacks.
fn push_lacking_groups(
    out: &mut Vec<String>,
    prefix: &String,
    a: &Vec<ObjectGroup>,
    b: &Vec<ObjectGroup>,
)
    ensures
        strings_view(final(out)@) == strings_view(old(out)@) + lacking(
            prefix@,
            a@.map_values(|g: ObjectGroup| g.name@),
            b@.map_values(|g: ObjectGroup| g.name@),
            a.len() as int,
        ),
{
    let ghost an = a@.map_values(|g: ObjectGroup| g.name@);
    let ghost bn = b@.map_values(|g: ObjectGroup| g.name@);
    let mut i: usize = 0;
    assert(strings_view(out@) =~= strings_view(old(out)@) + lacking(prefix@, an, bn, 0));
    while i < a.len()
        invariant
            i <= a.len(),
            an == a@.map_values(|g: ObjectGroup| g.name@),
            bn == b@.map_values(|g: ObjectGroup| g.name@),
            strings_view(out@) == strings_view(old(out)@) + lacking(prefix@, an, bn, i as int),
        decreases a.len() - i,
    {
        let name = &a[i].name;
        assert(an[i as int] == name@);
        if find_group(b, name) == b.len() && find_group(a, name) == i {
            let ghost before = strings_view(out@);
            out.push(join_path(prefix.as_str(), name.as_str()));
            assert(strings_view(out@) =~= before.push(joined(prefix@, name@)));
            assert(strings_view(out@) =~= strings_view(old(out)@) + lacking(
                prefix@,
                an,
                bn,
                i + 1,
            ));
        }
        i += 1;
    }
}

/// Appends to `diff` what differs between two scenes of one name.
fn push_scene_diff(diff: &mut SceneDiff, saved: &Scene, fresh: &Scene)
    ensures
        final(diff)@ == old(diff)@.followed_by(scene_diff(*saved, *fresh)),
{
    push_lacking_groups(
        &mut diff.missing_collections,
        &saved.name,
        &saved.object_groups,
        &fresh.object_groups,
    );
    push_lacking_groups(
        &mut diff.new_collections,
        &saved.name,
        &fresh.object_groups,
        &saved.object_groups,
    );
    let ghost start = diff@;
    let mut j: usize = 0;
    assert(diff@ =~= start.followed_by(groups_diff(*saved, *fresh, 0)));
    while j < saved.object_groups.len()
        invariant
            j <= saved.object_groups.len(),
            diff@ == start.followed_by(groups_diff(*saved, *fresh, j as int)),
        decreases saved.object_groups.len() - j,
    {
        let group = &saved.object_groups[j];
        let at = find_group(&fresh.object_groups, &group.name);
        if at < fresh.object_groups.len() {
            let other = &fresh.object_groups[at];
            let ghost before = diff@;
            let saved_path = join_path(saved.name.as_str(), group.name.as_str());
            let fresh_path = join_path(saved.name.as_str(), other.name.as_str());
            push_lacking_objects(&mut diff.missing_objects, &saved_path, &group.objects, &other.objects);
            push_lacking_objects(&mut diff.new_objects, &fresh_path, &other.objects, &group.objects);
            assert(diff@ =~= before.followed_by(group_diff(saved.name@, *group, *other)));
            assert(diff@ =~= start.followed_by(groups_diff(*saved, *fresh, j + 1)));
        }
        j += 1;
    }
    assert(diff@ =~= old(diff)@.followed_by(scene_diff(*saved, *fresh)));
}

/// What differs between the saved and the fresh snapshot: for each saved
/// scene that the fresh snapshot has too, the collections that only one of
/// the two has, and, within collections that both have, the objects that
/// only one of the two has.
pub fn compare_scene_data(saved: &Vec<Scene>, fresh: &Vec<Scene>) -> (diff: SceneDiff)
    ensures
        diff@ == scenes_diff(saved@, fresh@, saved.len() as int),
{
    let mut diff = SceneDiff::empty();
    let mut i: usize = 0;
    while i < saved.len()
        invariant
            i <= saved.len(),
            diff@ == scenes_diff(saved@, fresh@, i as int),
        decreases saved.len() - i,
    {
        let at = find_scene(fresh, &saved[i].name);
        if at < fresh.len() {
            push_scene_diff(&mut diff, &saved[i], &fresh[at]);
        }
        i += 1;
    }
    diff
}

} // verus!
