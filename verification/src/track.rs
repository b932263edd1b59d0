//! A MIDI track: its notes, its continuous events, and the note-ons that
//! still wait for their note-off.

use vstd::prelude::*;
use vstd::string::*;
use crate::midi::{MIDIEvent, MIDINote, MidiError, Ratio};
use crate::stable::{positions, sort_order, stable_order};

verus! {

/// The events of one controller number.
#[derive(Clone, Debug)]
pub struct ControlLane {
    pub controller: u8,
    pub events: Vec<MIDIEvent>,
}

/// A [`ControlLane`] as a mathematical value.
#[verifier::ext_equal]
pub struct LaneView {
    pub controller: u8,
    pub events: Seq<MIDIEvent>,
}

impl View for ControlLane {
    type V = LaneView;

    open spec fn view(&self) -> LaneView {
        LaneView { controller: self.controller, events: self.events@ }
    }
}

/// One track of a MIDI file.
#[derive(Clone, Debug)]
pub struct MIDITrack {
    pub name: String,
    /// The notes whose note-off has come, in the order of their note-offs
    /// until the track is finished, then by `time_on`.
    pub notes: Vec<MIDINote>,
    /// One lane per controller number, in the order of first appearance.
    pub control_change: Vec<ControlLane>,
    pub pitchwheel: Vec<MIDIEvent>,
    pub aftertouch: Vec<MIDIEvent>,
    /// The note-ons that wait for their note-off, oldest first.
    pub note_table: Vec<MIDINote>,
}

/// A [`MIDITrack`] as a mathematical value.
#[verifier::ext_equal]
pub struct TrackView {
    pub name: Seq<char>,
    pub notes: Seq<MIDINote>,
    pub control_change: Seq<LaneView>,
    pub pitchwheel: Seq<MIDIEvent>,
    pub aftertouch: Seq<MIDIEvent>,
    pub open_notes: Seq<MIDINote>,
}

/// The lanes of a track as mathematical values.
pub open spec fn lanes_view(lanes: Seq<ControlLane>) -> Seq<LaneView> {
    lanes.map_values(|l: ControlLane| l@)
}

impl View for MIDITrack {
    type V = TrackView;

    open spec fn view(&self) -> TrackView {
        TrackView {
            name: self.name@,
            notes: self.notes@,
            control_change: lanes_view(self.control_change@),
            pitchwheel: self.pitchwheel@,
            aftertouch: self.aftertouch@,
            open_notes: self.note_table@,
        }
    }
}

/// The first position from `from` on at which an open note of `channel`
/// and `note_number` waits, or the length of `open` if none does.
pub open spec fn find_open(open: Seq<MIDINote>, channel: u8, note_number: u8, from: int) -> int
    decreases open.len() - from,
{
    if from < 0 || from >= open.len() {
        open.len() as int
    } else if open[from].channel == channel && open[from].note_number == note_number {
        from
    } else {
        find_open(open, channel, note_number, from + 1)
    }
}

/// The first position from `from` on of the lane of `controller`, or the
/// number of lanes if it has none.
pub open spec fn find_lane(lanes: Seq<LaneView>, controller: u8, from: int) -> int
    decreases lanes.len() - from,
{
    if from < 0 || from >= lanes.len() {
        lanes.len() as int
    } else if lanes[from].controller == controller {
        from
    } else {
        find_lane(lanes, controller, from + 1)
    }
}

/// The keys by which notes are ordered: their `time_on`.
pub open spec fn note_keys(notes: Seq<MIDINote>) -> Seq<u64> {
    notes.map_values(|n: MIDINote| n.time_on)
}

/// The keys by which events are ordered: their `time`.
pub open spec fn event_keys(events: Seq<MIDIEvent>) -> Seq<u64> {
    events.map_values(|e: MIDIEvent| e.time)
}

/// `items` visited in the order `order`.
pub open spec fn arranged<T>(items: Seq<T>, order: Seq<int>) -> Seq<T> {
    Seq::new(order.len(), |i: int| items[order[i]])
}

/// `notes` by `time_on`, notes of one `time_on` in their given order.
pub open spec fn notes_by_time(notes: Seq<MIDINote>) -> Seq<MIDINote> {
    arranged(notes, stable_order(note_keys(notes), notes.len() as int))
}

/// `events` by `time`, events of one `time` in their given order.
pub open spec fn events_by_time(events: Seq<MIDIEvent>) -> Seq<MIDIEvent> {
    arranged(events, stable_order(event_keys(events), events.len() as int))
}

/// Each note starts no later than the one after it.
pub open spec fn sorted_by_time_on(notes: Seq<MIDINote>) -> bool {
    forall|i: int, j: int| 0 <= i < j < notes.len() ==> notes[i].time_on <= notes[j].time_on
}

impl TrackView {
    /// The track with no content and the given name.
    pub open spec fn empty(name: Seq<char>) -> TrackView {
        TrackView {
            name,
            notes: seq![],
            control_change: seq![],
            pitchwheel: seq![],
            aftertouch: seq![],
            open_notes: seq![],
        }
    }

    /// The track under another name.
    pub open spec fn named(self, name: Seq<char>) -> TrackView {
        TrackView { name, ..self }
    }

    /// The track after a note-on.
    pub open spec fn note_on(self, channel: u8, note_number: u8, velocity: u8, time_on: u64) -> TrackView {
        TrackView {
            open_notes: self.open_notes.push(
                MIDINote { channel, note_number, velocity, time_on, time_off: None },
            ),
            ..self
        }
    }

    /// Whether a note-on of `channel` and `note_number` waits.
    pub open spec fn has_open(self, channel: u8, note_number: u8) -> bool {
        find_open(self.open_notes, channel, note_number, 0) < self.open_notes.len()
    }

    /// The track after a note-off that finds its note-on: the oldest
    /// waiting note of that channel and key leaves the waiting notes and
    /// joins the notes, ended at `time_off`.
    pub open spec fn note_off(self, channel: u8, note_number: u8, time_off: u64) -> TrackView {
        let at = find_open(self.open_notes, channel, note_number, 0);
        let note = MIDINote { time_off: Some(time_off), ..self.open_notes[at] };
        TrackView { notes: self.notes.push(note), open_notes: self.open_notes.remove(at), ..self }
    }

    /// The track after a control change.
    pub open spec fn control(self, controller: u8, event: MIDIEvent) -> TrackView {
        let at = find_lane(self.control_change, controller, 0);
        if at < self.control_change.len() {
            let lane = self.control_change[at];
            TrackView {
                control_change: self.control_change.update(
                    at,
                    LaneView { controller, events: lane.events.push(event) },
                ),
                ..self
            }
        } else {
            TrackView {
                control_change: self.control_change.push(LaneView { controller, events: seq![event] }),
                ..self
            }
        }
    }

    /// The track after a pitch-wheel event.
    pub open spec fn bend(self, event: MIDIEvent) -> TrackView {
        TrackView { pitchwheel: self.pitchwheel.push(event), ..self }
    }

    /// The track after an aftertouch event.
    pub open spec fn touch(self, event: MIDIEvent) -> TrackView {
        TrackView { aftertouch: self.aftertouch.push(event), ..self }
    }

    /// The track holds neither notes nor events.
    pub open spec fn is_empty(self) -> bool {
        self.notes.len() == 0 && self.control_change.len() == 0 && self.pitchwheel.len() == 0
            && self.aftertouch.len() == 0
    }

    /// The track with its notes by `time_on`.
    pub open spec fn finished(self) -> TrackView {
        TrackView { notes: notes_by_time(self.notes), ..self }
    }
}

impl MIDITrack {
    /// An empty track named `name`.
    pub fn new(name: &str) -> (track: Self)
        ensures
            track@ == TrackView::empty(name@),
    {
        let track = MIDITrack {
            name: String::from_str(name),
            notes: Vec::new(),
            control_change: Vec::new(),
            pitchwheel: Vec::new(),
            aftertouch: Vec::new(),
            note_table: Vec::new(),
        };
        assert(track@ =~= TrackView::empty(name@));
        track
    }

    /// Records a note-on: the note waits for its note-off.
    pub fn add_note_on(&mut self, channel: u8, note_number: u8, velocity: u8, time_on: u64)
        ensures
            final(self)@ == old(self)@.note_on(channel, note_number, velocity, time_on),
    {
        self.note_table.push(MIDINote::new(channel, note_number, velocity, time_on, None));
        assert(self@ =~= old(self)@.note_on(channel, note_number, velocity, time_on));
    }

    /// Records a note-off: the oldest waiting note of that channel and key
    /// ends at `time_off` and joins the notes. Without such a note the
    /// track stays as it is and the error is `UnpairedNoteOff`.
    pub fn add_note_off(&mut self, channel: u8, note_number: u8, _velocity: u8, time_off: u64) -> (r:
        Result<(), MidiError>)
        ensures
            r is Ok <==> old(self)@.has_open(channel, note_number),
            r is Ok ==> final(self)@ == old(self)@.note_off(channel, note_number, time_off),
            r is Err ==> r == Err::<(), MidiError>(MidiError::UnpairedNoteOff) && final(self)@ == old(
                self,
            )@,
    {
        let mut at: usize = 0;
        proof {
            lemma_find_open(self.note_table@, channel, note_number, 0);
        }
        while at < self.note_table.len() && !(self.note_table[at].channel == channel
            && self.note_table[at].note_number == note_number)
            invariant
                at <= self.note_table.len(),
                *self == *old(self),
                find_open(self.note_table@, channel, note_number, at as int) == find_open(
                    self.note_table@,
                    channel,
                    note_number,
                    0,
                ),
            decreases self.note_table.len() - at,
        {
            at += 1;
        }
        if at == self.note_table.len() {
            return Err(MidiError::UnpairedNoteOff);
        }
        let waiting = self.note_table.remove(at);
        self.notes.push(
            MIDINote::new(
                waiting.channel,
                waiting.note_number,
                waiting.velocity,
                waiting.time_on,
                Some(time_off),
            ),
        );
        assert(self@ =~= old(self)@.note_off(channel, note_number, time_off));
        Ok(())
    }

    /// Records a control change in the lane of its controller.
    pub fn add_control_change(&mut self, control_number: u8, channel: u8, value: u8, time: u64)
        ensures
            final(self)@ == old(self)@.control(
                control_number,
                MIDIEvent { channel, value: Ratio { num: value as i32, den: 1 }, time },
            ),
    {
        let event = MIDIEvent::new(channel, Ratio { num: value as i32, den: 1 }, time);
        let ghost lanes = lanes_view(self.control_change@);
        let mut at: usize = 0;
        proof {
            lemma_find_lane(lanes, control_number, 0);
        }
        while at < self.control_change.len() && self.control_change[at].controller != control_number
            invariant
                at <= self.control_change.len(),
                *self == *old(self),
                lanes == lanes_view(self.control_change@),
                find_lane(lanes, control_number, at as int) == find_lane(lanes, control_number, 0),
            decreases self.control_change.len() - at,
        {
            assert(lanes[at as int].controller == self.control_change@[at as int].controller);
            at += 1;
        }
        if at < self.control_change.len() {
            assert(lanes[at as int].controller == self.control_change@[at as int].controller);
            self.control_change[at].events.push(event);
            assert(lanes_view(self.control_change@) =~= lanes.update(
                at as int,
                LaneView { controller: control_number, events: lanes[at as int].events.push(event) },
            ));
        } else {
            let mut events: Vec<MIDIEvent> = Vec::new();
            events.push(event);
            self.control_change.push(ControlLane { controller: control_number, events });
            assert(lanes_view(self.control_change@) =~= lanes.push(
                LaneView { controller: control_number, events: seq![event] },
            ));
        }
        assert(self@ =~= old(self)@.control(control_number, event));
    }

    /// Records a pitch-wheel event.
    pub fn add_pitchwheel(&mut self, channel: u8, value: Ratio, time: u64)
        ensures
            final(self)@ == old(self)@.bend(MIDIEvent { channel, value, time }),
    {
        self.pitchwheel.push(MIDIEvent::new(channel, value, time));
        assert(self@ =~= old(self)@.bend(MIDIEvent { channel, value, time }));
    }

    /// Records an aftertouch event.
    pub fn add_aftertouch(&mut self, channel: u8, value: Ratio, time: u64)
        ensures
            final(self)@ == old(self)@.touch(MIDIEvent { channel, value, time }),
    {
        self.aftertouch.push(MIDIEvent::new(channel, value, time));
        assert(self@ =~= old(self)@.touch(MIDIEvent { channel, value, time }));
    }

    /// The distinct note numbers of the track's notes, in increasing order.
    pub fn all_used_notes(&self) -> (used: Vec<u8>)
        ensures
            forall|i: int, j: int| 0 <= i < j < used.len() ==> used@[i] < used@[j],
            forall|v: u8| used@.contains(v) <==> note_used(self.notes@, v),
    {
        let mut seen: Vec<bool> = Vec::new();
        let mut k: usize = 0;
        while k < 256
            invariant
                k <= 256,
                seen.len() == k,
                forall|v: int| 0 <= v < k ==> !seen@[v],
            decreases 256 - k,
        {
            seen.push(false);
            k += 1;
        }
        let mut i: usize = 0;
        while i < self.notes.len()
            invariant
                i <= self.notes.len(),
                seen.len() == 256,
                forall|v: u8| seen@[v as int] <==> note_used(self.notes@.take(i as int), v),
            decreases self.notes.len() - i,
        {
            let number = self.notes[i].note_number;
            let ghost before = seen@;
            seen.set(number as usize, true);
            assert forall|v: u8| seen@[v as int] <==> note_used(
                self.notes@.take(i + 1),
                v,
            ) by {
                let shorter = self.notes@.take(i as int);
                let longer = self.notes@.take(i + 1);
                if note_used(shorter, v) {
                    let w = choose|w: int| 0 <= w < shorter.len() && shorter[w].note_number == v;
                    assert(longer[w].note_number == v);
                }
                if v == number {
                    assert(longer[i as int].note_number == v);
                }
                if note_used(longer, v) {
                    let w = choose|w: int| 0 <= w < longer.len() && longer[w].note_number == v;
                    if w < i {
                        assert(shorter[w].note_number == v);
                    }
                }
            }
            i += 1;
        }
        assert(self.notes@.take(i as int) =~= self.notes@);
        let mut used: Vec<u8> = Vec::new();
        let mut v: usize = 0;
        while v < 256
            invariant
                v <= 256,
                seen.len() == 256,
                forall|a: int, b: int| 0 <= a < b < used.len() ==> used@[a] < used@[b],
                forall|a: int| 0 <= a < used.len() ==> used@[a] < v && seen@[used@[a] as int],
                forall|w: u8| w < v && seen@[w as int] ==> used@.contains(w),
            decreases 256 - v,
        {
            if seen[v] {
                let ghost before = used@;
                used.push(v as u8);
                assert forall|w: u8| w < v + 1 && seen@[w as int] implies used@.contains(w) by {
                    if w < v {
                        assert(before.contains(w));
                        let a = choose|a: int| 0 <= a < before.len() && before[a] == w;
                        assert(used@[a] == w);
                    } else {
                        assert(used@[used.len() - 1] == w);
                    }
                }
            }
            v += 1;
        }
        assert forall|w: u8| used@.contains(w) <==> note_used(self.notes@, w) by {
            if used@.contains(w) {
                let a = choose|a: int| 0 <= a < used.len() && used@[a] == w;
                assert(seen@[used@[a] as int]);
            }
        }
        used
    }

    /// A copy of the track.
    pub fn duplicate(&self) -> (copy: Self)
        ensures
            copy@ == self@,
    {
        let mut lanes: Vec<ControlLane> = Vec::new();
        let mut i: usize = 0;
        while i < self.control_change.len()
            invariant
                i <= self.control_change.len(),
                lanes_view(lanes@) == lanes_view(self.control_change@).take(i as int),
            decreases self.control_change.len() - i,
        {
            let ghost before = lanes_view(lanes@);
            lanes.push(
                ControlLane {
                    controller: self.control_change[i].controller,
                    events: copy_of(&self.control_change[i].events),
                },
            );
            assert(lanes_view(lanes@) =~= before.push(self.control_change@[i as int]@));
            assert(lanes_view(self.control_change@).take(i as int).push(
                self.control_change@[i as int]@,
            ) =~= lanes_view(self.control_change@).take(i + 1));
            i += 1;
        }
        assert(lanes_view(self.control_change@).take(i as int) =~= lanes_view(
            self.control_change@,
        ));
        let copy = MIDITrack {
            name: self.name.clone(),
            notes: copy_of(&self.notes),
            control_change: lanes,
            pitchwheel: copy_of(&self.pitchwheel),
            aftertouch: copy_of(&self.aftertouch),
            note_table: copy_of(&self.note_table),
        };
        assert(copy@ =~= self@);
        copy
    }

    /// Whether the track holds neither notes nor events.
    pub fn is_empty(&self) -> (r: bool)
        ensures
            r == self@.is_empty(),
    {
        self.notes.len() == 0 && self.control_change.len() == 0 && self.pitchwheel.len() == 0
            && self.aftertouch.len() == 0
    }
}

/// Whether some note of `notes` has the note number `v`.
pub open spec fn note_used(notes: Seq<MIDINote>, v: u8) -> bool {
    exists|i: int| 0 <= i < notes.len() && notes[i].note_number == v
}

/// A copy of `items`.
pub fn copy_of<T: Copy>(items: &Vec<T>) -> (copy: Vec<T>)
    ensures
        copy@ == items@,
{
    let mut copy: Vec<T> = Vec::new();
    let mut i: usize = 0;
    while i < items.len()
        invariant
            i <= items.len(),
            copy@ == items@.take(i as int),
        decreases items.len() - i,
    {
        copy.push(items[i]);
        assert(items@.take(i as int).push(items@[i as int]) =~= items@.take(i + 1));
        i += 1;
    }
    assert(items@.take(i as int) =~= items@);
    copy
}

/// `find_open` gives a position at or behind `from`, at which, if it is in
/// range, the first matching note waits.
pub proof fn lemma_find_open(open: Seq<MIDINote>, channel: u8, note_number: u8, from: int)
    requires
        0 <= from <= open.len(),
    ensures
        from <= find_open(open, channel, note_number, from) <= open.len(),
        find_open(open, channel, note_number, from) < open.len() ==> {
            let at = find_open(open, channel, note_number, from);
            open[at].channel == channel && open[at].note_number == note_number
        },
        forall|i: int|
            from <= i < find_open(open, channel, note_number, from) ==> !(open[i].channel == channel
                && open[i].note_number == note_number),
    decreases open.len() - from,
{
    if from < open.len() && !(open[from].channel == channel && open[from].note_number
        == note_number) {
        lemma_find_open(open, channel, note_number, from + 1);
    }
}

/// `find_lane` gives a position at or behind `from`, at which, if it is in
/// range, the first lane of the controller stands.
pub proof fn lemma_find_lane(lanes: Seq<LaneView>, controller: u8, from: int)
    requires
        0 <= from <= lanes.len(),
    ensures
        from <= find_lane(lanes, controller, from) <= lanes.len(),
        find_lane(lanes, controller, from) < lanes.len() ==> lanes[find_lane(
            lanes,
            controller,
            from,
        )].controller == controller,
        forall|i: int|
            from <= i < find_lane(lanes, controller, from) ==> lanes[i].controller != controller,
    decreases lanes.len() - from,
{
    if from < lanes.len() && lanes[from].controller != controller {
        lemma_find_lane(lanes, controller, from + 1);
    }
}

/// The notes of `notes` by `time_on`, notes of one `time_on` in their
/// given order.
pub fn sort_notes(notes: &Vec<MIDINote>) -> (sorted: Vec<MIDINote>)
    ensures
        sorted@ == notes_by_time(notes@),
        sorted.len() == notes.len(),
        sorted_by_time_on(sorted@),
        forall|i: int| 0 <= i < sorted.len() ==> notes@.contains(#[trigger] sorted@[i]),
{
    let mut keys: Vec<u64> = Vec::new();
    let mut i: usize = 0;
    while i < notes.len()
        invariant
            i <= notes.len(),
            keys@ == note_keys(notes@).take(i as int),
        decreases notes.len() - i,
    {
        keys.push(notes[i].time_on);
        assert(note_keys(notes@).take(i as int).push(note_keys(notes@)[i as int]) =~= note_keys(
            notes@,
        ).take(i + 1));
        i += 1;
    }
    assert(note_keys(notes@).take(notes.len() as int) =~= note_keys(notes@));
    let order = sort_order(&keys);
    let mut out: Vec<MIDINote> = Vec::new();
    let mut k: usize = 0;
    while k < order.len()
        invariant
            k <= order.len(),
            order.len() == notes.len(),
            keys@ == note_keys(notes@),
            positions(order@) == stable_order(keys@, keys.len() as int),
            forall|i: int| 0 <= i < order.len() ==> order@[i] < keys.len(),
            out.len() == k,
            forall|i: int| 0 <= i < k ==> out@[i] == notes@[order@[i] as int],
        decreases order.len() - k,
    {
        out.push(notes[order[k]]);
        k += 1;
    }
    proof {
        let full = stable_order(note_keys(notes@), notes.len() as int);
        assert forall|i: int| 0 <= i < out.len() implies out@[i] == notes_by_time(notes@)[i] by {
            assert(positions(order@)[i] == order@[i] as int);
        }
        assert(out@ =~= notes_by_time(notes@));
        assert forall|i: int, j: int| 0 <= i < j < out.len() implies out@[i].time_on
            <= out@[j].time_on by {
            assert(keys@[order@[i] as int] <= keys@[order@[j] as int]);
        }
        assert forall|i: int| 0 <= i < out.len() implies notes@.contains(#[trigger] out@[i]) by {
            assert(notes@[order@[i] as int] == out@[i]);
        }
    }
    out
}

/// The events of `events` by `time`, events of one `time` in their given
/// order.
pub fn sort_events(events: &Vec<MIDIEvent>) -> (sorted: Vec<MIDIEvent>)
    ensures
        sorted@ == events_by_time(events@),
        sorted.len() == events.len(),
{
    let mut keys: Vec<u64> = Vec::new();
    let mut i: usize = 0;
    while i < events.len()
        invariant
            i <= events.len(),
            keys@ == event_keys(events@).take(i as int),
        decreases events.len() - i,
    {
        keys.push(events[i].time);
        assert(event_keys(events@).take(i as int).push(event_keys(events@)[i as int])
            =~= event_keys(events@).take(i + 1));
        i += 1;
    }
    assert(event_keys(events@).take(events.len() as int) =~= event_keys(events@));
    let order = sort_order(&keys);
    let mut out: Vec<MIDIEvent> = Vec::new();
    let mut k: usize = 0;
    while k < order.len()
        invariant
            k <= order.len(),
            order.len() == events.len(),
            keys@ == event_keys(events@),
            positions(order@) == stable_order(keys@, keys.len() as int),
            forall|i: int| 0 <= i < order.len() ==> order@[i] < keys.len(),
            out.len() == k,
            forall|i: int| 0 <= i < k ==> out@[i] == events@[order@[i] as int],
        decreases order.len() - k,
    {
        out.push(events[order[k]]);
        k += 1;
    }
    proof {
        assert forall|i: int| 0 <= i < out.len() implies out@[i] == events_by_time(events@)[i] by {
            assert(positions(order@)[i] == order@[i] as int);
        }
        assert(out@ =~= events_by_time(events@));
    }
    out
}

} // verus!
