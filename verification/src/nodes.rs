//! The fixed catalog of nodes: what each computes from its inputs.

use vstd::prelude::*;
use vstd::string::*;
use crate::file::{track_position, MIDIFile};
use crate::parse::views;
use crate::scene::{
    lemma_position_of, object_names, position_of, scene_names, AnimCurve, Object, ObjectGroup,
    Scene,
};
use crate::scene_diff::find_scene;
use crate::text::{decimal, push_decimal, push_str, string_of};
use crate::track::{MIDITrack, TrackView};

verus! {

/// The latest `time_off` among the first `n` notes, or `least` if none is
/// later.
pub open spec fn latest_off(notes: Seq<crate::midi::MIDINote>, n: int, least: int) -> int
    decreases n,
{
    if n <= 0 {
        least
    } else {
        let rest = latest_off(notes, n - 1, least);
        match notes[n - 1].time_off {
            Some(off) => if off > rest {
                off as int
            } else {
                rest
            },
            None => rest,
        }
    }
}

/// The latest `time_off` among the notes of the first `t` tracks, or 0.
pub open spec fn latest_end(tracks: Seq<TrackView>, t: int) -> int
    decreases t,
{
    if t <= 0 {
        0
    } else {
        latest_off(tracks[t - 1].notes, tracks[t - 1].notes.len() as int, latest_end(tracks, t - 1))
    }
}

/// `n` in decimal, with a leading zero below ten.
pub open spec fn two_digits(n: nat) -> Seq<char> {
    if n < 10 {
        seq!['0'] + decimal(n)
    } else {
        decimal(n)
    }
}

/// A duration of whole seconds as a clock: hours and minutes each only
/// where they are not zero, then seconds, then the word ` seconds` where
/// neither hours nor minutes are shown and ` minutes` otherwise.
pub open spec fn clock_text(total: nat) -> Seq<char> {
    let hours = total / 3600;
    let minutes = (total / 60) % 60;
    let seconds = total % 60;
    let h = if hours > 0 {
        two_digits(hours) + seq![':']
    } else {
        seq![]
    };
    let m = if minutes > 0 {
        two_digits(minutes) + seq![':']
    } else {
        seq![]
    };
    h + m + two_digits(seconds) + (if hours == 0 && minutes == 0 {
        " seconds"@
    } else {
        " minutes"@
    })
}

/// The statistics of a file: the number of its tracks, and on a second
/// line its length as a clock. The length is the latest end of a note, in
/// whole seconds.
pub open spec fn statistics(tracks: Seq<TrackView>, units_per_second: u64) -> Seq<char> {
    decimal(tracks.len()) + " tracks\n"@ + clock_text(
        (latest_end(tracks, tracks.len() as int) / (units_per_second as int)) as nat,
    )
}

/// Appends `n` with a leading zero below ten.
fn push_two_digits(out: &mut Vec<char>, n: u64)
    ensures
        final(out)@ == old(out)@ + two_digits(n as nat),
{
    if n < 10 {
        out.push('0');
        push_decimal(out, n);
        assert(out@ =~= old(out)@ + two_digits(n as nat));
    } else {
        push_decimal(out, n);
    }
}

/// The statistics of `midi_file`: see [`statistics`].
pub fn get_midi_file_statistics(midi_file: &MIDIFile) -> (text: String)
    requires
        midi_file.units_per_second > 0,
    ensures
        text@ == statistics(midi_file@.tracks, midi_file.units_per_second),
{
    let ghost all = midi_file@.tracks;
    let mut latest: u64 = 0;
    let mut t: usize = 0;
    while t < midi_file.tracks.len()
        invariant
            t <= midi_file.tracks.len(),
            all == views(midi_file.tracks@),
            latest == latest_end(all, t as int),
        decreases midi_file.tracks.len() - t,
    {
        let notes = &midi_file.tracks[t].notes;
        assert(all[t as int].notes == notes@);
        let ghost least = latest as int;
        let mut i: usize = 0;
        while i < notes.len()
            invariant
                i <= notes.len(),
                latest == latest_off(notes@, i as int, least),
            decreases notes.len() - i,
        {
            match notes[i].time_off {
                Some(off) => {
                    if off > latest {
                        latest = off;
                    }
                },
                None => {},
            }
            i += 1;
        }
        t += 1;
    }
    let total: u64 = latest / midi_file.units_per_second;
    let hours = total / 3600;
    let minutes = (total / 60) % 60;
    let seconds = total % 60;
    let mut out: Vec<char> = Vec::new();
    push_decimal(&mut out, midi_file.tracks.len() as u64);
    push_str(&mut out, " tracks\n");
    let ghost head = out@;
    assert(head =~= decimal(all.len()) + " tracks\n"@);
    if hours > 0 {
        push_two_digits(&mut out, hours);
        out.push(':');
    }
    if minutes > 0 {
        push_two_digits(&mut out, minutes);
        out.push(':');
    }
    push_two_digits(&mut out, seconds);
    if hours == 0 && minutes == 0 {
        push_str(&mut out, " seconds");
    } else {
        push_str(&mut out, " minutes");
    }
    assert(out@ =~= head + clock_text(total as nat));
    string_of(&out)
}

/// The first of `tracks` named `track_name`, whose notes and events the
/// node hands on; `None` where no track has that name.
pub fn get_midi_track_data<'a>(tracks: &'a Vec<MIDITrack>, track_name: &str) -> (r: Option<
    &'a MIDITrack,
>)
    ensures
        match r {
            Some(track) => {
                let at = track_position(views(tracks@), track_name@, 0);
                at < tracks.len() && *track == tracks@[at]
            },
            None => track_position(views(tracks@), track_name@, 0) == tracks.len(),
        },
{
    let wanted = String::from_str(track_name);
    let ghost all = views(tracks@);
    let mut at: usize = 0;
    while at < tracks.len() && !(tracks[at].name == wanted)
        invariant
            at <= tracks.len(),
            all == views(tracks@),
            wanted@ == track_name@,
            track_position(all, track_name@, at as int) == track_position(all, track_name@, 0),
        decreases tracks.len() - at,
    {
        assert(all[at as int].name == tracks@[at as int].name@);
        at += 1;
    }
    if at < tracks.len() {
        assert(all[at as int].name == tracks@[at as int].name@);
        Some(&tracks[at])
    } else {
        None
    }
}

/// The scene that the scene-link node shows: the one named `Scene`.
pub fn scene_link(scenes: &Vec<Scene>) -> (r: Option<&Scene>)
    ensures
        match r {
            Some(scene) => {
                let at = position_of(scene_names(scenes@), "Scene"@, 0);
                at < scenes.len() && *scene == scenes@[at]
            },
            None => position_of(scene_names(scenes@), "Scene"@, 0) == scenes.len(),
        },
{
    let name = String::from_str("Scene");
    let at = find_scene(scenes, &name);
    if at < scenes.len() {
        Some(&scenes[at])
    } else {
        None
    }
}

/// The axis letter of an array index below three.
pub open spec fn axis(index: int) -> char {
    if index == 0 {
        'x'
    } else if index == 1 {
        'y'
    } else {
        'z'
    }
}

/// Whether a data path is one of a transform: location, rotation or scale.
pub open spec fn is_transform(path: Seq<char>) -> bool {
    path == "location"@ || path == "rotation"@ || path == "scale"@
}

/// The canonical name of a curve: its data path, an underscore, and the
/// axis letter for a transform or else the array index.
pub open spec fn curve_name(path: Seq<char>, index: u32) -> Seq<char> {
    if is_transform(path) {
        path + seq!['_', axis(index as int)]
    } else {
        path + seq!['_'] + decimal(index as nat)
    }
}

/// A curve can be named: a transform has an array index below three.
pub open spec fn nameable(curve: AnimCurve) -> bool {
    is_transform(curve.data_path@) ==> curve.array_index < 3
}

/// Whether `path` is a transform path.
fn transform_path(path: &String) -> (r: bool)
    ensures
        r == is_transform(path@),
{
    let location = String::from_str("location");
    let rotation = String::from_str("rotation");
    let scale = String::from_str("scale");
    *path == location || *path == rotation || *path == scale
}

/// Whether every curve of `object` can be named.
pub fn curves_nameable(object: &Object) -> (r: bool)
    ensures
        r == forall|i: int| 0 <= i < object.anim_curves@.len() ==> nameable(#[trigger] object.anim_curves@[i]),
{
    let mut i: usize = 0;
    while i < object.anim_curves.len()
        invariant
            i <= object.anim_curves.len(),
            forall|k: int| 0 <= k < i ==> nameable(#[trigger] object.anim_curves@[k]),
        decreases object.anim_curves.len() - i,
    {
        let curve = &object.anim_curves[i];
        if transform_path(&curve.data_path) && curve.array_index >= 3 {
            return false;
        }
        i += 1;
    }
    true
}

/// The canonical name of `curve`.
pub fn canonical_name(curve: &AnimCurve) -> (name: String)
    requires
        nameable(*curve),
    ensures
        name@ == curve_name(curve.data_path@, curve.array_index),
{
    let mut out: Vec<char> = Vec::new();
    push_str(&mut out, curve.data_path.as_str());
    out.push('_');
    if transform_path(&curve.data_path) {
        let letter = if curve.array_index == 0 {
            'x'
        } else if curve.array_index == 1 {
            'y'
        } else {
            'z'
        };
        out.push(letter);
        assert(out@ =~= curve.data_path@ + seq!['_', axis(curve.array_index as int)]);
    } else {
        push_decimal(&mut out, curve.array_index as u64);
        assert(out@ =~= curve.data_path@ + seq!['_'] + decimal(curve.array_index as nat));
    }
    string_of(&out)
}

/// The object that the keyframes node reads: the first object named
/// `object_name` of the first group named `object_group_name`.
pub open spec fn picked_object(
    groups: Seq<ObjectGroup>,
    group_name: Seq<char>,
    object_name: Seq<char>,
) -> Option<Object> {
    let names = groups.map_values(|g: ObjectGroup| g.name@);
    let g = position_of(names, group_name, 0);
    if g < groups.len() {
        let o = position_of(object_names(groups[g]), object_name, 0);
        if o < groups[g].objects@.len() {
            Some(groups[g].objects@[o])
        } else {
            None
        }
    } else {
        None
    }
}

/// The object that the keyframes node reads; `None` where the group or
/// the object is not there.
pub fn pick_object<'a>(
    object_groups: &'a Vec<ObjectGroup>,
    object_group_name: &str,
    object_name: &str,
) -> (r: Option<&'a Object>)
    ensures
        match r {
            Some(object) => picked_object(object_groups@, object_group_name@, object_name@) == Some(
                *object,
            ),
            None => picked_object(object_groups@, object_group_name@, object_name@) is None,
        },
{
    let group_wanted = String::from_str(object_group_name);
    let object_wanted = String::from_str(object_name);
    let ghost names = object_groups@.map_values(|g: ObjectGroup| g.name@);
    let mut g: usize = 0;
    proof {
        lemma_position_of(names, object_group_name@, 0);
    }
    while g < object_groups.len() && !(object_groups[g].name == group_wanted)
        invariant
            g <= object_groups.len(),
            group_wanted@ == object_group_name@,
            names == object_groups@.map_values(|g: ObjectGroup| g.name@),
            position_of(names, object_group_name@, g as int) == position_of(
                names,
                object_group_name@,
                0,
            ),
        decreases object_groups.len() - g,
    {
        assert(names[g as int] == object_groups@[g as int].name@);
        g += 1;
    }
    if g == object_groups.len() {
        return None;
    }
    assert(names[g as int] == object_groups@[g as int].name@);
    let objects = &object_groups[g].objects;
    let ghost onames = object_names(object_groups@[g as int]);
    let mut o: usize = 0;
    proof {
        lemma_position_of(onames, object_name@, 0);
    }
    while o < objects.len() && !(objects[o].name == object_wanted)
        invariant
            o <= objects.len(),
            object_wanted@ == object_name@,
            onames == objects@.map_values(|x: Object| x.name@),
            position_of(onames, object_name@, o as int) == position_of(onames, object_name@, 0),
        decreases objects.len() - o,
    {
        assert(onames[o as int] == objects@[o as int].name@);
        o += 1;
    }
    if o == objects.len() {
        return None;
    }
    assert(onames[o as int] == objects@[o as int].name@);
    Some(&objects[o])
}

/// A curve of an object under its canonical name.
#[derive(Clone, Debug)]
pub struct NamedCurve {
    pub name: String,
    /// The position of the curve among the curves of its object.
    pub curve: usize,
}

/// The curves of the first `n` curves under their canonical names: a
/// later curve takes the place of an earlier one of the same name.
pub open spec fn named_curves(curves: Seq<AnimCurve>, n: int) -> Seq<(Seq<char>, int)>
    decreases n,
{
    if n <= 0 {
        seq![]
    } else {
        let rest = named_curves(curves, n - 1);
        let name = curve_name(curves[n - 1].data_path@, curves[n - 1].array_index);
        let at = pair_position(rest, name, 0);
        if at < rest.len() {
            rest.update(at, (name, n - 1))
        } else {
            rest.push((name, n - 1))
        }
    }
}

/// The first position from `from` on of a pair named `name`, or the
/// number of pairs.
pub open spec fn pair_position(pairs: Seq<(Seq<char>, int)>, name: Seq<char>, from: int) -> int
    decreases pairs.len() - from,
{
    if from < 0 || from >= pairs.len() {
        pairs.len() as int
    } else if pairs[from].0 == name {
        from
    } else {
        pair_position(pairs, name, from + 1)
    }
}

/// The entries as pairs of name and position.
pub open spec fn pairs_of(entries: Seq<NamedCurve>) -> Seq<(Seq<char>, int)> {
    entries.map_values(|e: NamedCurve| (e.name@, e.curve as int))
}

/// The mapping that the keyframes node gives for an object: its curves by
/// canonical name. Without the object the mapping is empty.
pub fn keyframes_from_object(
    object_groups: &Vec<ObjectGroup>,
    object_group_name: &str,
    object_name: &str,
) -> (output: Vec<NamedCurve>)
    requires
        picked_object(object_groups@, object_group_name@, object_name@) matches Some(object)
            ==> forall|i: int|
            0 <= i < object.anim_curves@.len() ==> nameable(#[trigger] object.anim_curves@[i]),
    ensures
        match picked_object(object_groups@, object_group_name@, object_name@) {
            Some(object) => pairs_of(output@) == named_curves(
                object.anim_curves@,
                object.anim_curves@.len() as int,
            ),
            None => output@.len() == 0,
        },
{
    let mut output: Vec<NamedCurve> = Vec::new();
    match pick_object(object_groups, object_group_name, object_name) {
        None => {},
        Some(object) => {
            let curves = &object.anim_curves;
            let mut n: usize = 0;
            assert(pairs_of(output@) =~= named_curves(curves@, 0));
            while n < curves.len()
                invariant
                    n <= curves.len(),
                    forall|i: int| 0 <= i < curves@.len() ==> nameable(#[trigger] curves@[i]),
                    pairs_of(output@) == named_curves(curves@, n as int),
                decreases curves.len() - n,
            {
                let name = canonical_name(&curves[n]);
                let ghost before = pairs_of(output@);
                let mut at: usize = 0;
                while at < output.len() && !(output[at].name == name)
                    invariant
                        at <= output.len(),
                        before == pairs_of(output@),
                        pair_position(before, name@, at as int) == pair_position(before, name@, 0),
                    decreases output.len() - at,
                {
                    assert(before[at as int].0 == output@[at as int].name@);
                    at += 1;
                }
                if at < output.len() {
                    assert(before[at as int].0 == output@[at as int].name@);
                    output.set(at, NamedCurve { name, curve: n });
                    assert(pairs_of(output@) =~= before.update(at as int, (name@, n as int)));
                } else {
                    output.push(NamedCurve { name, curve: n });
                    assert(pairs_of(output@) =~= before.push((name@, n as int)));
                }
                n += 1;
            }
        },
    }
    output
}

} // verus!
