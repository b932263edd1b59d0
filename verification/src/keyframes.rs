//! Where keyframes stand relative to each other.
//!
//! Frames are given by their order keys: integers that compare as the
//! frames do. What is found is given by position, so that the caller can
//! do the arithmetic on the keyframes themselves.

use vstd::prelude::*;
use crate::animation::{AnimationGenerator, ObjectMap};

verus! {

/// The first position `i` from `from` on with `frames[i] <= frame <=
/// frames[i + 1]`, or the last position if there is none.
pub open spec fn first_between(frames: Seq<i64>, frame: i64, from: int) -> int
    decreases frames.len() - from,
{
    if from < 0 || from + 1 >= frames.len() {
        frames.len() - 1
    } else if frames[from] <= frame && frame <= frames[from + 1] {
        from
    } else {
        first_between(frames, frame, from + 1)
    }
}

/// The two keyframes between which `frame` lies, by position.
///
/// Before the first keyframe both are the first, behind the last both are
/// the last. Otherwise they are the first neighbours that have `frame`
/// between them. There are none without keyframes, nor where no
/// neighbours have `frame` between them.
pub open spec fn bracket(frames: Seq<i64>, frame: i64) -> Option<(int, int)> {
    if frames.len() == 0 {
        None
    } else if frames[0] > frame {
        Some((0, 0))
    } else if frames.last() < frame {
        Some((frames.len() - 1, frames.len() - 1))
    } else {
        let at = first_between(frames, frame, 0);
        if at + 1 < frames.len() {
            Some((at, at + 1))
        } else {
            None
        }
    }
}

/// The two keyframes between which `frame` lies: see [`bracket`].
pub fn interval(frames: &Vec<i64>, frame: i64) -> (r: Option<(usize, usize)>)
    ensures
        match r {
            Some((a, b)) => bracket(frames@, frame) == Some((a as int, b as int)) && a < frames.len()
                && b < frames.len(),
            None => bracket(frames@, frame) is None,
        },
{
    let n = frames.len();
    if n == 0 {
        return None;
    }
    if frames[0] > frame {
        return Some((0, 0));
    }
    if frames[n - 1] < frame {
        return Some((n - 1, n - 1));
    }
    let mut i: usize = 0;
    while i + 1 < n
        invariant
            n == frames.len(),
            n > 0,
            i <= n - 1,
            frames@[0] <= frame,
            frames@[n - 1] >= frame,
            first_between(frames@, frame, i as int) == first_between(frames@, frame, 0),
        decreases n - i,
    {
        if frames[i] <= frame && frame <= frames[i + 1] {
            return Some((i, i + 1));
        }
        i += 1;
    }
    None
}

/// How many of the first `n` frames, counted from the end, are later than
/// `bound` without one in between that is not.
pub open spec fn trailing_later(frames: Seq<i64>, bound: i64, n: int) -> int
    decreases n,
{
    if n <= 0 || n > frames.len() {
        0
    } else if frames[frames.len() - n] > bound && trailing_later(frames, bound, n - 1) == n - 1 {
        n
    } else {
        trailing_later(frames, bound, n - 1)
    }
}

/// Where the overlap of `first` with keyframes that start at `next`
/// begins: the keyframes of `first` at its end that are later than `next`,
/// and the one before them. The length of `first` where its last keyframe
/// is not later than `next`.
pub open spec fn overlap_start(first: Seq<i64>, next: i64) -> int {
    let later = trailing_later(first, next, first.len() as int);
    if later == 0 {
        first.len() as int
    } else if later == first.len() {
        0
    } else {
        first.len() - later - 1
    }
}

/// Where a run of `t` frames at the end is later than the bound and the
/// frame before it is not, the count of trailing later frames among the
/// last `n` is `t`, or `n` if that is less.
pub proof fn lemma_trailing_later_is(frames: Seq<i64>, bound: i64, n: int, t: int)
    requires
        0 <= t <= frames.len(),
        0 <= n <= frames.len(),
        forall|i: int| frames.len() - t <= i < frames.len() ==> frames[i] > bound,
        t < frames.len() ==> frames[frames.len() - t - 1] <= bound,
    ensures
        trailing_later(frames, bound, n) == (if n < t {
            n
        } else {
            t
        }),
    decreases n,
{
    if n > 0 {
        lemma_trailing_later_is(frames, bound, n - 1, t);
    }
}

/// Where the overlap of the keyframes `key_list1` with the keyframes
/// `key_list2` begins in `key_list1`: see [`overlap_start`]. Without
/// keyframes on either side there is no overlap.
pub fn find_overlap(key_list1: &Vec<i64>, key_list2: &Vec<i64>) -> (start: usize)
    requires
        key_list1.len() > 0 && key_list2.len() > 0 ==> key_list1@[0] <= key_list2@[0],
    ensures
        start <= key_list1.len(),
        start == (if key_list1.len() == 0 || key_list2.len() == 0 {
            key_list1.len() as int
        } else {
            overlap_start(key_list1@, key_list2@[0])
        }),
{
    if key_list1.len() == 0 || key_list2.len() == 0 {
        return key_list1.len();
    }
    let next = key_list2[0];
    let n = key_list1.len();
    let mut at: usize = n;
    while at > 0 && key_list1[at - 1] > next
        invariant
            at <= n,
            n == key_list1.len(),
            forall|i: int| at <= i < n ==> key_list1@[i] > next,
        decreases at,
    {
        at -= 1;
    }
    proof {
        lemma_trailing_later_is(key_list1@, next, n as int, n - at);
    }
    if at == n {
        n
    } else if at == 0 {
        0
    } else {
        at - 1
    }
}

/// An object and one of its animations, by position in the object map.
#[derive(Clone, Copy, Debug, PartialEq, Eq, Structural)]
pub struct Target {
    pub object: usize,
    pub animation: usize,
}

/// The first position from `from` on of the generator named `name`, or
/// the number of generators.
pub open spec fn generator_index(animations: Seq<AnimationGenerator>, name: Seq<char>, from: int) -> int
    decreases animations.len() - from,
{
    if from < 0 || from >= animations.len() {
        animations.len() as int
    } else if animations[from].name@ == name {
        from
    } else {
        generator_index(animations, name, from + 1)
    }
}

/// The targets that the first `n` animations of the object at `object`
/// give: one for each name that the map has a generator for.
pub open spec fn object_targets(map: ObjectMap, object: int, n: int) -> Seq<Target>
    decreases n,
{
    if n <= 0 {
        seq![]
    } else {
        let rest = object_targets(map, object, n - 1);
        let name = map.objects@[object].entry.animations@[n - 1]@;
        let at = generator_index(map.animations@, name, 0);
        if at < map.animations@.len() {
            rest.push(Target { object: object as usize, animation: at as usize })
        } else {
            rest
        }
    }
}

/// The targets of the note `note_number` among the first `n` objects:
/// for every object that lists the note, its animations.
pub open spec fn targets(map: ObjectMap, note_number: u8, n: int) -> Seq<Target>
    decreases n,
{
    if n <= 0 {
        seq![]
    } else {
        let rest = targets(map, note_number, n - 1);
        let object = map.objects@[n - 1];
        if object.entry.note_number@.contains(note_number) {
            rest + object_targets(map, n - 1, object.entry.animations@.len() as int)
        } else {
            rest
        }
    }
}

/// Whether `notes` holds `note_number`.
fn lists_note(notes: &Vec<u8>, note_number: u8) -> (r: bool)
    ensures
        r == notes@.contains(note_number),
{
    let mut i: usize = 0;
    while i < notes.len()
        invariant
            i <= notes.len(),
            forall|k: int| 0 <= k < i ==> notes@[k] != note_number,
        decreases notes.len() - i,
    {
        if notes[i] == note_number {
            return true;
        }
        i += 1;
    }
    false
}

/// The objects and animations that the note `note_number` drives: for
/// every object of the map that lists the note, in order, each of its
/// animations that the map has a generator for.
pub fn note_to_objects(map: &ObjectMap, note_number: u8) -> (found: Vec<Target>)
    ensures
        found@ == targets(*map, note_number, map.objects@.len() as int),
        forall|i: int|
            0 <= i < found.len() ==> (#[trigger] found@[i]).object < map.objects@.len()
                && found@[i].animation < map.animations@.len(),
{
    let mut found: Vec<Target> = Vec::new();
    let mut o: usize = 0;
    while o < map.objects.len()
        invariant
            o <= map.objects.len(),
            found@ == targets(*map, note_number, o as int),
            forall|i: int|
                0 <= i < found.len() ==> (#[trigger] found@[i]).object < map.objects@.len()
                    && found@[i].animation < map.animations@.len(),
        decreases map.objects.len() - o,
    {
        let object = &map.objects[o];
        if lists_note(&object.entry.note_number, note_number) {
            let ghost before = found@;
            let mut a: usize = 0;
            while a < object.entry.animations.len()
                invariant
                    a <= object.entry.animations.len(),
                    o < map.objects.len(),
                    *object == map.objects@[o as int],
                    found@ == before + object_targets(*map, o as int, a as int),
                    forall|i: int|
                        0 <= i < found.len() ==> (#[trigger] found@[i]).object < map.objects@.len()
                            && found@[i].animation < map.animations@.len(),
                decreases object.entry.animations.len() - a,
            {
                let name = &object.entry.animations[a];
                let mut at: usize = 0;
                while at < map.animations.len() && !(map.animations[at].name == *name)
                    invariant
                        at <= map.animations.len(),
                        generator_index(map.animations@, name@, at as int) == generator_index(
                            map.animations@,
                            name@,
                            0,
                        ),
                    decreases map.animations.len() - at,
                {
                    at += 1;
                }
                if at < map.animations.len() {
                    found.push(Target { object: o, animation: at });
                    assert(found@ =~= before + object_targets(*map, o as int, a + 1));
                }
                a += 1;
            }
        }
        o += 1;
    }
    found
}

} // verus!
