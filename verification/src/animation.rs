//! Animation generators and the map from objects to notes.
//!
//! Numbers that the library only carries (frames, values, anchor points)
//! are kept as the bits of their IEEE 754 double-precision form.

use vstd::prelude::*;
use vstd::string::*;
use crate::numbers::ints;
use crate::padding::{lemma_padded_bounds, pad_nums, padded};
use crate::text::{chars_of, digits_value, parse_digits, string_of, strings_view};

verus! {

/// The notes and animations assigned to one object.
#[derive(Clone, Debug)]
pub struct ObjectMapEntry {
    pub note_number: Vec<u8>,
    /// Names of animations of the object map.
    pub animations: Vec<String>,
}

/// A keyframe of a template: `co = [frame, value]`.
#[derive(Clone, Copy, Debug, PartialEq, Eq, Structural)]
pub struct Co {
    pub frame: u64,
    pub value: u64,
}

/// A keyframe for one property of an object.
#[derive(Clone, Debug)]
pub struct BlendKeyframe {
    pub frame: u64,
    pub value: u64,
    pub data_path: String,
    pub array_index: u32,
}

impl BlendKeyframe {
    /// A keyframe of the property `data_path[array_index]`.
    pub fn new(frame: u64, value: u64, data_path: &str, array_index: u32) -> (key: Self)
        ensures
            key.frame == frame,
            key.value == value,
            key.data_path@ == data_path@,
            key.array_index == array_index,
    {
        BlendKeyframe { frame, value, data_path: String::from_str(data_path), array_index }
    }

    /// A keyframe of no property yet.
    pub fn bare(frame: u64, value: u64) -> (key: Self)
        ensures
            key.frame == frame,
            key.value == value,
            key.data_path@.len() == 0,
            key.array_index == 0,
    {
        BlendKeyframe { frame, value, data_path: String::new(), array_index: 0 }
    }
}

/// A named template that turns a note into keyframes around its start
/// and around its end.
#[derive(Clone, Debug)]
pub struct AnimationGenerator {
    pub name: String,
    pub note_on_keyframes: Vec<Co>,
    pub note_on_anchor_point: u64,
    pub note_off_keyframes: Vec<Co>,
    pub note_off_anchor_point: u64,
    /// Carried, not evaluated.
    pub time_mapper: String,
    /// Carried, not evaluated.
    pub amplitude_mapper: String,
    pub velocity_intensity: u64,
    /// How keyframes that overlap in time combine: `add`.
    pub animation_overlap: String,
    /// The property to animate: `path` or `path[index]`.
    pub animation_property: String,
}

/// The text given, or the empty text.
fn text_or_empty(given: Option<String>) -> (text: String)
    ensures
        text@ == (match given {
            Some(t) => t@,
            None => seq![],
        }),
{
    match given {
        Some(t) => t,
        None => String::new(),
    }
}

/// The keyframes given, or none.
fn keys_or_none(given: Option<Vec<Co>>) -> (keys: Vec<Co>)
    ensures
        keys@ == (match given {
            Some(k) => k@,
            None => seq![],
        }),
{
    match given {
        Some(k) => k,
        None => Vec::new(),
    }
}

/// The number given, or zero; each by its bits.
fn number_or_zero(given: Option<u64>) -> (bits: u64)
    ensures
        bits == (match given {
            Some(b) => b,
            None => 0,
        }),
{
    match given {
        Some(b) => b,
        None => 0,
    }
}

/// The generator that the inputs of the generator node describe. An input
/// that is not given is empty or zero.
pub fn animation_generator(
    name: Option<String>,
    note_on_keyframes: Option<Vec<Co>>,
    note_on_anchor_point: Option<u64>,
    note_off_keyframes: Option<Vec<Co>>,
    note_off_anchor_point: Option<u64>,
    time_mapper: Option<String>,
    amplitude_mapper: Option<String>,
    velocity_intensity: Option<u64>,
    animation_overlap: Option<String>,
    animation_property: Option<String>,
) -> (generator: AnimationGenerator)
    ensures
        generator.name@ == (match name {
            Some(t) => t@,
            None => seq![],
        }),
        generator.note_on_keyframes@ == (match note_on_keyframes {
            Some(k) => k@,
            None => seq![],
        }),
        generator.note_on_anchor_point == (match note_on_anchor_point {
            Some(b) => b,
            None => 0,
        }),
        generator.note_off_keyframes@ == (match note_off_keyframes {
            Some(k) => k@,
            None => seq![],
        }),
        generator.note_off_anchor_point == (match note_off_anchor_point {
            Some(b) => b,
            None => 0,
        }),
        generator.time_mapper@ == (match time_mapper {
            Some(t) => t@,
            None => seq![],
        }),
        generator.amplitude_mapper@ == (match amplitude_mapper {
            Some(t) => t@,
            None => seq![],
        }),
        generator.velocity_intensity == (match velocity_intensity {
            Some(b) => b,
            None => 0,
        }),
        generator.animation_overlap@ == (match animation_overlap {
            Some(t) => t@,
            None => seq![],
        }),
        generator.animation_property@ == (match animation_property {
            Some(t) => t@,
            None => seq![],
        }),
{
    AnimationGenerator {
        name: text_or_empty(name),
        note_on_keyframes: keys_or_none(note_on_keyframes),
        note_on_anchor_point: number_or_zero(note_on_anchor_point),
        note_off_keyframes: keys_or_none(note_off_keyframes),
        note_off_anchor_point: number_or_zero(note_off_anchor_point),
        time_mapper: text_or_empty(time_mapper),
        amplitude_mapper: text_or_empty(amplitude_mapper),
        velocity_intensity: number_or_zero(velocity_intensity),
        animation_overlap: text_or_empty(animation_overlap),
        animation_property: text_or_empty(animation_property),
    }
}

/// An object and what is assigned to it.
#[derive(Clone, Debug)]
pub struct ObjectAssignment {
    pub name: String,
    pub entry: ObjectMapEntry,
}

/// Which notes and which animations belong to which objects.
#[derive(Clone, Debug)]
pub struct ObjectMap {
    pub animations: Vec<AnimationGenerator>,
    pub objects: Vec<ObjectAssignment>,
}

/// How keyframes that overlap in time combine.
#[derive(Clone, Copy, Debug, PartialEq, Eq, Structural)]
pub enum Overlap {
    /// Values add up.
    Add,
    /// A policy that is not supported: the keyframes are left out.
    Unsupported,
}

/// The policy that a generator names: `add`, or nothing, for adding.
pub fn overlap_policy(text: &str) -> (policy: Overlap)
    ensures
        policy == (if text@ == "add"@ || text@.len() == 0 {
            Overlap::Add
        } else {
            Overlap::Unsupported
        }),
{
    let given = String::from_str(text);
    let add = String::from_str("add");
    if given == add || text.unicode_len() == 0 {
        Overlap::Add
    } else {
        Overlap::Unsupported
    }
}

/// An [`ObjectAssignment`] as a mathematical value.
#[verifier::ext_equal]
pub struct AssignmentView {
    pub name: Seq<char>,
    pub notes: Seq<u8>,
    pub animations: Seq<Seq<char>>,
}

impl View for ObjectAssignment {
    type V = AssignmentView;

    open spec fn view(&self) -> AssignmentView {
        AssignmentView {
            name: self.name@,
            notes: self.entry.note_number@,
            animations: strings_view(self.entry.animations@),
        }
    }
}

/// The assignments as mathematical values.
pub open spec fn assignments_view(objects: Seq<ObjectAssignment>) -> Seq<AssignmentView> {
    objects.map_values(|o: ObjectAssignment| o@)
}

/// The first position from `from` on of the assignment of the object
/// `name`, or the number of assignments.
pub open spec fn assignment_index(objects: Seq<AssignmentView>, name: Seq<char>, from: int) -> int
    decreases objects.len() - from,
{
    if from < 0 || from >= objects.len() {
        objects.len() as int
    } else if objects[from].name == name {
        from
    } else {
        assignment_index(objects, name, from + 1)
    }
}

/// The notes that a padded value stands for: the value itself where it is
/// a byte, none otherwise.
pub open spec fn note_of(value: int) -> Seq<u8> {
    if 0 <= value <= 255 {
        seq![value as u8]
    } else {
        seq![]
    }
}

/// `objects` with the note of `value` and the animation `animation`
/// appended to the entry of the object `name`, which is made if it is not
/// there.
pub open spec fn assigned(objects: Seq<AssignmentView>, name: Seq<char>, value: int, animation: Seq<char>) -> Seq<
    AssignmentView,
> {
    let at = assignment_index(objects, name, 0);
    if at < objects.len() {
        objects.update(
            at,
            AssignmentView {
                name,
                notes: objects[at].notes + note_of(value),
                animations: objects[at].animations.push(animation),
            },
        )
    } else {
        objects.push(AssignmentView { name, notes: note_of(value), animations: seq![animation] })
    }
}

/// The assignments of the first `n` objects: the `i`-th object gets the
/// `i`-th value, as long as there are values.
pub open spec fn assignments(names: Seq<Seq<char>>, values: Seq<int>, animation: Seq<char>, n: int) -> Seq<
    AssignmentView,
>
    decreases n,
{
    if n <= 0 {
        seq![]
    } else if n - 1 < values.len() {
        assigned(assignments(names, values, animation, n - 1), names[n - 1], values[n - 1], animation)
    } else {
        assignments(names, values, animation, n - 1)
    }
}

/// Every animation that an assignment lists is `animation`.
pub open spec fn lists_only(objects: Seq<AssignmentView>, animation: Seq<char>) -> bool {
    forall|o: int, a: int|
        0 <= o < objects.len() && 0 <= a < objects[o].animations.len() ==> (
        #[trigger] objects[o].animations[a]) == animation
}

/// `assignment_index` gives a position at or behind `from`.
pub proof fn lemma_assignment_index(objects: Seq<AssignmentView>, name: Seq<char>, from: int)
    requires
        0 <= from <= objects.len(),
    ensures
        from <= assignment_index(objects, name, from) <= objects.len(),
    decreases objects.len() - from,
{
    if from < objects.len() && objects[from].name != name {
        lemma_assignment_index(objects, name, from + 1);
    }
}

/// The assignments list no animation but the one that was assigned.
pub proof fn lemma_assignments_list(names: Seq<Seq<char>>, values: Seq<int>, animation: Seq<char>, n: int)
    requires
        0 <= n <= names.len(),
    ensures
        lists_only(assignments(names, values, animation, n), animation),
    decreases n,
{
    if n > 0 {
        lemma_assignments_list(names, values, animation, n - 1);
        if n - 1 < values.len() {
            let before = assignments(names, values, animation, n - 1);
            let after = assigned(before, names[n - 1], values[n - 1], animation);
            let at = assignment_index(before, names[n - 1], 0);
            lemma_assignment_index(before, names[n - 1], 0);
            assert forall|o: int, a: int|
                0 <= o < after.len() && 0 <= a < after[o].animations.len() implies (
            #[trigger] after[o].animations[a]) == animation by {
                if at < before.len() {
                    if o == at {
                        if a < before[at].animations.len() {
                            assert(before[at].animations[a] == animation);
                        }
                    } else {
                        assert(before[o].animations[a] == animation);
                    }
                } else {
                    if o < before.len() {
                        assert(before[o].animations[a] == animation);
                    }
                }
            }
        }
    }
}

/// The note numbers as mathematical integers.
pub open spec fn note_numbers(notes: Seq<u8>) -> Seq<int> {
    notes.map_values(|v: u8| v as int)
}

/// The most objects that notes can be assigned to.
pub const MAX_OBJECTS: usize = 0x4000_0000;

/// Assigns the notes in use to the objects, in order: the distinct note
/// numbers, padded to the number of objects, go to the objects one by
/// one, each with the generator's name among its animations. The
/// generator is the one animation of the map.
pub fn assign_notes_to_objects(
    object_names: &Vec<String>,
    midi_notes: &Vec<u8>,
    generator: AnimationGenerator,
) -> (map: ObjectMap)
    requires
        object_names.len() <= MAX_OBJECTS,
    ensures
        map.animations@ == seq![generator],
        assignments_view(map.objects@) == assignments(
            strings_view(object_names@),
            padded(note_numbers(midi_notes@), object_names.len() as int),
            generator.name@,
            object_names.len() as int,
        ),
        lists_only(assignments_view(map.objects@), generator.name@),
{
    let ghost given = note_numbers(midi_notes@);
    let ghost names = strings_view(object_names@);
    let mut wide: Vec<i32> = Vec::new();
    let mut i: usize = 0;
    while i < midi_notes.len()
        invariant
            i <= midi_notes.len(),
            ints(wide@) == given.take(i as int),
            given == note_numbers(midi_notes@),
        decreases midi_notes.len() - i,
    {
        let ghost before = ints(wide@);
        wide.push(midi_notes[i] as i32);
        assert(ints(wide@) =~= before.push(midi_notes@[i as int] as int));
        assert(ints(wide@) =~= given.take(i + 1));
        i += 1;
    }
    assert(given.take(midi_notes.len() as int) =~= given);
    proof {
        lemma_padded_bounds(
            given,
            object_names.len() as int,
            -(MAX_OBJECTS as int),
            255 + MAX_OBJECTS,
        );
    }
    let values = pad_nums(&wide, object_names.len());
    let ghost wanted = padded(given, object_names.len() as int);
    let mut objects: Vec<ObjectAssignment> = Vec::new();
    let mut n: usize = 0;
    assert(assignments_view(objects@) =~= assignments(names, wanted, generator.name@, 0));
    while n < object_names.len()
        invariant
            n <= object_names.len(),
            names == strings_view(object_names@),
            ints(values@) == wanted,
            assignments_view(objects@) == assignments(names, wanted, generator.name@, n as int),
        decreases object_names.len() - n,
    {
        assert(names[n as int] == object_names@[n as int]@);
        if n < values.len() {
            let value = values[n];
            assert(wanted[n as int] == value as int);
            let ghost before = assignments_view(objects@);
            let mut at: usize = 0;
            while at < objects.len() && !(objects[at].name == object_names[n])
                invariant
                    at <= objects.len(),
                    before == assignments_view(objects@),
                    n < object_names.len(),
                    assignment_index(before, object_names@[n as int]@, at as int)
                        == assignment_index(before, object_names@[n as int]@, 0),
                decreases objects.len() - at,
            {
                assert(before[at as int].name == objects@[at as int].name@);
                at += 1;
            }
            if at < objects.len() {
                assert(before[at as int].name == objects@[at as int].name@);
                if 0 <= value && value <= 255 {
                    objects[at].entry.note_number.push(value as u8);
                }
                objects[at].entry.animations.push(generator.name.clone());
                assert(objects@[at as int]@ =~= (AssignmentView {
                    name: names[n as int],
                    notes: before[at as int].notes + note_of(value as int),
                    animations: before[at as int].animations.push(generator.name@),
                }));
                assert(assignments_view(objects@) =~= assigned(
                    before,
                    names[n as int],
                    value as int,
                    generator.name@,
                ));
            } else {
                let mut note_number: Vec<u8> = Vec::new();
                if 0 <= value && value <= 255 {
                    note_number.push(value as u8);
                }
                let mut animations: Vec<String> = Vec::new();
                animations.push(generator.name.clone());
                let made = ObjectAssignment {
                    name: object_names[n].clone(),
                    entry: ObjectMapEntry { note_number, animations },
                };
                assert(made@ =~= (AssignmentView {
                    name: names[n as int],
                    notes: note_of(value as int),
                    animations: seq![generator.name@],
                }));
                objects.push(made);
                assert(assignments_view(objects@) =~= assigned(
                    before,
                    names[n as int],
                    value as int,
                    generator.name@,
                ));
            }
        }
        n += 1;
    }
    proof {
        lemma_assignments_list(names, wanted, generator.name@, object_names.len() as int);
    }
    let mut animations: Vec<AnimationGenerator> = Vec::new();
    animations.push(generator);
    ObjectMap { animations, objects }
}

/// The first position of `c` in `s`, or the length of `s`.
pub open spec fn first_of(s: Seq<char>, c: char, from: int) -> int
    decreases s.len() - from,
{
    if from < 0 || from >= s.len() {
        s.len() as int
    } else if s[from] == c {
        from
    } else {
        first_of(s, c, from + 1)
    }
}

/// `s` without the closing brackets at its end.
pub open spec fn without_closing(s: Seq<char>) -> Seq<char>
    decreases s.len(),
{
    if s.len() > 0 && s.last() == ']' {
        without_closing(s.drop_last())
    } else {
        s
    }
}

/// The number that the decimal digits of `s` write, an optional `+` before
/// them; `None` where `s` is not of that form or the number is no `u32`.
pub open spec fn index_value(s: Seq<char>) -> Option<int> {
    let digits = if s.len() > 0 && s[0] == '+' {
        s.skip(1)
    } else {
        s
    };
    match digits_value(digits) {
        Some(v) => if v <= u32::MAX {
            Some(v as int)
        } else {
            None
        },
        None => None,
    }
}

/// The data path of the property `prop`: what stands before its first
/// opening bracket, or all of it.
pub open spec fn property_path(prop: Seq<char>) -> Seq<char> {
    prop.take(first_of(prop, '[', 0))
}

/// The array index of the property `prop`: the number between its first
/// opening bracket and the closing brackets at its end; 0 where there is
/// no bracket or no such number.
pub open spec fn property_index(prop: Seq<char>) -> int {
    let at = first_of(prop, '[', 0);
    if at < prop.len() {
        match index_value(without_closing(prop.skip(at + 1))) {
            Some(v) => v,
            None => 0,
        }
    } else {
        0
    }
}

/// Cutting the closing brackets off the end of `s` leaves its first `end`
/// characters, where everything from `end` on is a closing bracket and
/// the character before `end` is none.
pub proof fn lemma_without_closing(s: Seq<char>, end: int)
    requires
        0 <= end <= s.len(),
        forall|i: int| end <= i < s.len() ==> s[i] == ']',
        end > 0 ==> s[end - 1] != ']',
    ensures
        without_closing(s) == s.take(end),
    decreases s.len(),
{
    if end == s.len() {
        assert(s.take(end) =~= s);
    } else {
        lemma_without_closing(s.drop_last(), end);
        assert(s.drop_last().take(end) =~= s.take(end));
    }
}

/// `first_of` gives the first position of the character at or behind
/// `from`, or the length.
pub proof fn lemma_first_of(s: Seq<char>, c: char, from: int)
    requires
        0 <= from <= s.len(),
    ensures
        from <= first_of(s, c, from) <= s.len(),
        first_of(s, c, from) < s.len() ==> s[first_of(s, c, from)] == c,
        forall|i: int| from <= i < first_of(s, c, from) ==> s[i] != c,
    decreases s.len() - from,
{
    if from < s.len() && s[from] != c {
        lemma_first_of(s, c, from + 1);
    }
}

/// The characters `cs[from..to]`.
fn slice_of(cs: &Vec<char>, from: usize, to: usize) -> (part: Vec<char>)
    requires
        from <= to <= cs.len(),
    ensures
        part@ == cs@.subrange(from as int, to as int),
{
    let mut part: Vec<char> = Vec::new();
    let mut i: usize = from;
    while i < to
        invariant
            from <= i <= to <= cs.len(),
            part@ == cs@.subrange(from as int, i as int),
        decreases to - i,
    {
        part.push(cs[i]);
        assert(part@ =~= cs@.subrange(from as int, i + 1));
        i += 1;
    }
    part
}

/// Splits a property such as `rotation[0]` into its data path and its
/// array index. A property without a bracket has index 0, and so has one
/// whose bracket holds no number.
pub fn parse_animation_property(prop: &str) -> (r: (String, u32))
    ensures
        r.0@ == property_path(prop@),
        r.1 == property_index(prop@),
{
    let cs = chars_of(prop);
    let mut at: usize = 0;
    proof {
        lemma_first_of(cs@, '[', 0);
    }
    while at < cs.len() && cs[at] != '['
        invariant
            at <= cs.len(),
            first_of(cs@, '[', at as int) == first_of(cs@, '[', 0),
        decreases cs.len() - at,
    {
        at += 1;
    }
    if at == cs.len() {
        assert(cs@.take(at as int) =~= cs@);
        return (string_of(&cs), 0);
    }
    let path = slice_of(&cs, 0, at);
    assert(path@ =~= cs@.take(at as int));
    let mut end: usize = cs.len();
    while end > at + 1 && cs[end - 1] == ']'
        invariant
            at + 1 <= end <= cs.len(),
            forall|i: int| end <= i < cs.len() ==> cs@[i] == ']',
        decreases end,
    {
        end -= 1;
    }
    let inner = slice_of(&cs, at + 1, end);
    proof {
        let tail = cs@.skip(at + 1);
        lemma_without_closing(tail, end - (at + 1));
        assert(tail.take(end - (at + 1)) =~= inner@);
    }
    let start: usize = if inner.len() > 0 && inner[0] == '+' {
        1
    } else {
        0
    };
    assert(inner@.skip(0) =~= inner@);
    let index = match parse_digits(&inner, start, 0xffff_ffff) {
        Some(v) => v as u32,
        None => 0,
    };
    (string_of(&path), index)
}

} // verus!
