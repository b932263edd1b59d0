//! A MIDI file: its tracks, and how they are read from the bytes of a
//! Standard MIDI File.

use vstd::prelude::*;
use vstd::string::*;
use crate::channels::{lanes, lemma_tracks_are_lanes, unnamed};
use crate::midi::MidiError;
use crate::parse::{
    lemma_run_all_error, lemma_run_error, unnamed_track, views, Reader, Reading,
};
use crate::smf::{
    decoded, events_in_range, read_smf, tracks_view, Division, FileFormat, TrackEvent,
};
use crate::tempo::{marks_by_time, tempo_map, time_base, units_per_second, Clock};
use crate::timing::{
    lemma_parsed_notes_in_order, lemma_single_track_channels, notes_sorted, notes_well_timed,
    tracks_by_channel, tracks_not_empty,
};
use crate::track::{
    copy_of, events_by_time, lanes_view, lemma_find_lane, find_lane, notes_by_time, sort_events,
    sort_notes, ControlLane, LaneView, MIDITrack, TrackView,
};

verus! {

/// The tracks of a MIDI file, none of them empty, and its time base.
#[derive(Clone, Debug)]
pub struct MIDIFile {
    pub tracks: Vec<MIDITrack>,
    /// How many time units make one second.
    pub units_per_second: u64,
}

/// A [`MIDIFile`] as a mathematical value.
#[verifier::ext_equal]
pub struct FileView {
    pub tracks: Seq<TrackView>,
    pub units_per_second: u64,
}

impl View for MIDIFile {
    type V = FileView;

    open spec fn view(&self) -> FileView {
        FileView { tracks: views(self.tracks@), units_per_second: self.units_per_second }
    }
}

/// The first `n` gathered tracks without the empty ones, each with its
/// notes by `time_on`.
pub open spec fn finalized(gathered: Seq<TrackView>, n: int) -> Seq<TrackView>
    decreases n,
{
    if n <= 0 {
        seq![]
    } else if gathered[n - 1].is_empty() {
        finalized(gathered, n - 1)
    } else {
        finalized(gathered, n - 1).push(gathered[n - 1].finished())
    }
}

/// The tempo marks that the reading of a file uses: those of all its
/// tracks, sorted by time, for a file of parallel tracks; none otherwise.
pub open spec fn marks_of(format: FileFormat, tracks: Seq<Seq<TrackEvent>>) -> Seq<(u64, u32)> {
    if format is Parallel {
        marks_by_time(Clock::start().run_all(tracks, tracks.len() as int).marks)
    } else {
        seq![]
    }
}

/// The file that header and events stand for, or why there is none.
///
/// A sequential file is `UnsupportedFormat`. A single-track file that
/// holds more than one track is `InvalidFile`; so is a division of zero
/// ticks, and so is a time line that leaves the range of `u64`. A note-off
/// without its note-on is `UnpairedNoteOff`. Otherwise the events are read
/// track by track, and the gathered tracks are finalized.
pub open spec fn file_of(format: FileFormat, division: Division, tracks: Seq<Seq<TrackEvent>>) -> Result<
    FileView,
    MidiError,
> {
    if format is Sequential {
        Err(MidiError::UnsupportedFormat)
    } else if format is SingleTrack && tracks.len() > 1 {
        Err(MidiError::InvalidFile)
    } else if units_per_second(division) == 0 {
        Err(MidiError::InvalidFile)
    } else if format is Parallel && Clock::start().run_all(tracks, tracks.len() as int).late {
        Err(MidiError::InvalidFile)
    } else {
        match Reading::start(format).run_all(
            tracks,
            tracks.len() as int,
            format,
            marks_of(format, tracks),
        ) {
            Err(e) => Err(e),
            Ok(reading) => Ok(
                FileView {
                    tracks: finalized(
                        reading.gathered(format),
                        reading.gathered(format).len() as int,
                    ),
                    units_per_second: units_per_second(division) as u64,
                },
            ),
        }
    }
}

/// `lanes` with `lane` put in: in place of the first lane of the same
/// controller, or behind the others.
pub open spec fn lane_put(lanes: Seq<LaneView>, lane: LaneView) -> Seq<LaneView> {
    let at = find_lane(lanes, lane.controller, 0);
    if at < lanes.len() {
        lanes.update(at, lane)
    } else {
        lanes.push(lane)
    }
}

/// `lanes` with the first `n` lanes of `more` put in, one after the other.
pub open spec fn lanes_put(lanes: Seq<LaneView>, more: Seq<LaneView>, n: int) -> Seq<LaneView>
    decreases n,
{
    if n <= 0 {
        lanes
    } else {
        lane_put(lanes_put(lanes, more, n - 1), more[n - 1])
    }
}

/// Two tracks merged under a name: notes, pitch-wheel and aftertouch
/// events of both, each list by time; the controller lanes of the first
/// track, then those of the second, a later lane taking the place of an
/// earlier one of the same controller. No note waits in the merged track.
pub open spec fn merged(a: TrackView, b: TrackView, name: Seq<char>) -> TrackView {
    TrackView {
        name,
        notes: notes_by_time(a.notes + b.notes),
        control_change: lanes_put(
            lanes_put(seq![], a.control_change, a.control_change.len() as int),
            b.control_change,
            b.control_change.len() as int,
        ),
        pitchwheel: events_by_time(a.pitchwheel + b.pitchwheel),
        aftertouch: events_by_time(a.aftertouch + b.aftertouch),
        open_notes: seq![],
    }
}

/// The first position from `from` on of a track named `name`, or the
/// number of tracks.
pub open spec fn track_position(tracks: Seq<TrackView>, name: Seq<char>, from: int) -> int
    decreases tracks.len() - from,
{
    if from < 0 || from >= tracks.len() {
        tracks.len() as int
    } else if tracks[from].name == name {
        from
    } else {
        track_position(tracks, name, from + 1)
    }
}

/// `a` followed by `b`.
fn concat<T: Copy>(a: &Vec<T>, b: &Vec<T>) -> (both: Vec<T>)
    ensures
        both@ == a@ + b@,
{
    let mut both = copy_of(a);
    let mut i: usize = 0;
    while i < b.len()
        invariant
            i <= b.len(),
            both@ == a@ + b@.take(i as int),
        decreases b.len() - i,
    {
        both.push(b[i]);
        assert(both@ =~= a@ + b@.take(i + 1));
        i += 1;
    }
    assert(b@.take(b.len() as int) =~= b@);
    both
}

/// Puts the lanes of `more` into `lanes`.
fn put_lanes(lanes: &mut Vec<ControlLane>, more: &Vec<ControlLane>)
    ensures
        lanes_view(final(lanes)@) == lanes_put(
            lanes_view(old(lanes)@),
            lanes_view(more@),
            more.len() as int,
        ),
{
    let ghost start = lanes_view(lanes@);
    let ghost extra = lanes_view(more@);
    let mut n: usize = 0;
    while n < more.len()
        invariant
            n <= more.len(),
            start == lanes_view(old(lanes)@),
            extra == lanes_view(more@),
            lanes_view(lanes@) == lanes_put(start, extra, n as int),
        decreases more.len() - n,
    {
        let controller = more[n].controller;
        let events = copy_of(&more[n].events);
        let ghost lane = LaneView { controller, events: events@ };
        assert(extra[n as int] == lane);
        let ghost before = lanes_view(lanes@);
        let mut at: usize = 0;
        proof {
            lemma_find_lane(before, controller, 0);
        }
        while at < lanes.len() && lanes[at].controller != controller
            invariant
                at <= lanes.len(),
                before == lanes_view(lanes@),
                find_lane(before, controller, at as int) == find_lane(before, controller, 0),
            decreases lanes.len() - at,
        {
            assert(before[at as int].controller == lanes@[at as int].controller);
            at += 1;
        }
        if at < lanes.len() {
            assert(before[at as int].controller == lanes@[at as int].controller);
            lanes.set(at, ControlLane { controller, events });
            assert(lanes_view(lanes@) =~= before.update(at as int, lane));
        } else {
            lanes.push(ControlLane { controller, events });
            assert(lanes_view(lanes@) =~= before.push(lane));
        }
        n += 1;
    }
}

impl MIDIFile {
    /// Reads a Standard MIDI File from its bytes.
    ///
    /// Bytes that the decoder refuses are `InvalidFile`. Otherwise the
    /// result is what [`file_of`] makes of the decoded header and events,
    /// which are within the ranges of MIDI data. No track of the file is
    /// empty, its notes are sorted by `time_on`, and none ends before it
    /// starts. The tracks of a single-track file are the lanes of its
    /// channels.
    pub fn new(bytes: &[u8]) -> (r: Result<Self, MidiError>)
        ensures
            match decoded(bytes@) {
                None => r == Err::<Self, MidiError>(MidiError::InvalidFile),
                Some(model) => match r {
                    Ok(file) => file_of(model.format, model.division, model.tracks) == Ok::<
                        FileView,
                        MidiError,
                    >(file@),
                    Err(e) => file_of(model.format, model.division, model.tracks) == Err::<
                        FileView,
                        MidiError,
                    >(e),
                },
            },
            decoded(bytes@) matches Some(model) ==> events_in_range(model.tracks),
            r matches Ok(file) ==> {
                &&& decoded(bytes@) matches Some(model)
                &&& tracks_not_empty(file@)
                &&& notes_sorted(file@)
                &&& notes_well_timed(file@)
                &&& (model.format is SingleTrack ==> tracks_by_channel(file@))
                &&& (model.format is SingleTrack ==> unnamed(file@.tracks) == finalized(
                    lanes(model.tracks),
                    16,
                ))
            },
    {
        match read_smf(bytes) {
            None => Err(MidiError::InvalidFile),
            Some(data) => MIDIFile::from_events(data.format, data.division, &data.tracks),
        }
    }

    /// Builds the file that header and events stand for.
    pub fn from_events(format: FileFormat, division: Division, tracks: &Vec<Vec<TrackEvent>>) -> (r:
        Result<Self, MidiError>)
        requires
            events_in_range(tracks_view(tracks@)),
        ensures
            match r {
                Ok(file) => file_of(format, division, tracks_view(tracks@)) == Ok::<
                    FileView,
                    MidiError,
                >(file@),
                Err(e) => file_of(format, division, tracks_view(tracks@)) == Err::<
                    FileView,
                    MidiError,
                >(e),
            },
            r matches Ok(file) ==> {
                &&& tracks_not_empty(file@)
                &&& notes_sorted(file@)
                &&& notes_well_timed(file@)
                &&& (format is SingleTrack ==> tracks_by_channel(file@))
                &&& (format is SingleTrack ==> unnamed(file@.tracks) == finalized(
                    lanes(tracks_view(tracks@)),
                    16,
                ))
            },
    {
        let ghost all = tracks_view(tracks@);
        match format {
            FileFormat::Sequential => {
                return Err(MidiError::UnsupportedFormat);
            },
            FileFormat::SingleTrack => {
                if tracks.len() > 1 {
                    return Err(MidiError::InvalidFile);
                }
            },
            FileFormat::Parallel => {},
        }
        let units = time_base(division);
        if units == 0 {
            return Err(MidiError::InvalidFile);
        }
        let marks: Vec<(u64, u32)> = match format {
            FileFormat::Parallel => match tempo_map(tracks) {
                Err(e) => {
                    return Err(e);
                },
                Ok(marks) => marks,
            },
            _ => Vec::new(),
        };
        assert(marks@ =~= marks_of(format, all));
        let mut reader = Reader::start(format);
        let mut m: usize = 0;
        while m < tracks.len()
            invariant
                m <= tracks.len(),
                all == tracks_view(tracks@),
                events_in_range(all),
                !(format is Sequential),
                format is SingleTrack ==> all.len() <= 1,
                units_per_second(division) != 0,
                marks@ == marks_of(format, all),
                format is Parallel ==> !Clock::start().run_all(all, all.len() as int).late,
                reader@.wf(format),
                Reading::start(format).run_all(all, m as int, format, marks@) == Ok::<
                    Reading,
                    MidiError,
                >(reader@),
            decreases tracks.len() - m,
        {
            let events = &tracks[m];
            assert(all[m as int] == events@);
            let ghost outer = reader@;
            reader.begin_track(format, &marks);
            let ghost begun = reader@;
            let mut i: usize = 0;
            while i < events.len()
                invariant
                    i <= events.len(),
                    m < tracks.len(),
                    all == tracks_view(tracks@),
                    all[m as int] == events@,
                    events_in_range(all),
                    !(format is Sequential),
                    format is SingleTrack ==> all.len() <= 1,
                    units_per_second(division) != 0,
                    marks@ == marks_of(format, all),
                    format is Parallel ==> !Clock::start().run_all(all, all.len() as int).late,
                    reader@.wf(format),
                    Reading::start(format).run_all(all, m as int, format, marks@) == Ok::<
                        Reading,
                        MidiError,
                    >(outer),
                    begun == outer.begin_track(format, marks@),
                    begun.run(events@, i as int, format, marks@) == Ok::<Reading, MidiError>(
                        reader@,
                    ),
                decreases events.len() - i,
            {
                assert(all[m as int][i as int].kind.in_range());
                match reader.event(&events[i], format, &marks) {
                    Err(e) => {
                        proof {
                            assert(begun.run(events@, i + 1, format, marks@) == Err::<
                                Reading,
                                MidiError,
                            >(e));
                            lemma_run_error(begun, events@, i + 1, events.len() as int, format, marks@);
                            assert(Reading::start(format).run_all(all, m + 1, format, marks@)
                                == Err::<Reading, MidiError>(e));
                            lemma_run_all_error(
                                Reading::start(format),
                                all,
                                m + 1,
                                tracks.len() as int,
                                format,
                                marks@,
                            );
                        }
                        return Err(e);
                    },
                    Ok(_) => {},
                }
                i += 1;
            }
            m += 1;
        }
        let ghost reading = reader@;
        let gathered: Vec<MIDITrack> = match format {
            FileFormat::SingleTrack => reader.tracks,
            _ => reader.finished,
        };
        assert(views(gathered@) == reading.gathered(format));
        let mut kept: Vec<MIDITrack> = Vec::new();
        let mut k: usize = 0;
        while k < gathered.len()
            invariant
                k <= gathered.len(),
                views(kept@) == finalized(views(gathered@), k as int),
            decreases gathered.len() - k,
        {
            assert(views(gathered@)[k as int] == gathered@[k as int]@);
            if !gathered[k].is_empty() {
                let mut track = gathered[k].duplicate();
                let sorted = sort_notes(&track.notes);
                track.notes = sorted;
                assert(track@ =~= gathered@[k as int]@.finished());
                let ghost before = views(kept@);
                kept.push(track);
                assert(views(kept@) =~= before.push(gathered@[k as int]@.finished()));
            }
            k += 1;
        }
        let file = MIDIFile { tracks: kept, units_per_second: units };
        assert(file@ =~= FileView {
            tracks: finalized(reading.gathered(format), reading.gathered(format).len() as int),
            units_per_second: units_per_second(division) as u64,
        });
        proof {
            lemma_parsed_notes_in_order(format, division, all);
            if format is SingleTrack {
                lemma_single_track_channels(division, all);
                lemma_tracks_are_lanes(division, all);
            }
        }
        Ok(file)
    }

    /// The tracks of the file.
    pub fn get_midi_tracks(&self) -> (tracks: &Vec<MIDITrack>)
        ensures
            *tracks == self.tracks,
    {
        &self.tracks
    }

    /// The tracks of the file, by value.
    pub fn into_tracks(self) -> (tracks: Vec<MIDITrack>)
        ensures
            tracks == self.tracks,
    {
        self.tracks
    }

    /// The first track named `name`.
    pub fn find_track(&self, name: &str) -> (r: Option<&MIDITrack>)
        ensures
            match r {
                Some(track) => {
                    let at = track_position(self@.tracks, name@, 0);
                    at < self.tracks.len() && *track == self.tracks@[at]
                },
                None => track_position(self@.tracks, name@, 0) == self.tracks.len(),
            },
    {
        let wanted = String::from_str(name);
        let mut at: usize = 0;
        while at < self.tracks.len() && !(self.tracks[at].name == wanted)
            invariant
                at <= self.tracks.len(),
                wanted@ == name@,
                track_position(self@.tracks, name@, at as int) == track_position(
                    self@.tracks,
                    name@,
                    0,
                ),
            decreases self.tracks.len() - at,
        {
            assert(self@.tracks[at as int].name == self.tracks@[at as int].name@);
            at += 1;
        }
        if at < self.tracks.len() {
            assert(self@.tracks[at as int].name == self.tracks@[at as int].name@);
            Some(&self.tracks[at])
        } else {
            None
        }
    }

    /// The names of the tracks, in order.
    pub fn list_track_names(&self) -> (names: Vec<String>)
        ensures
            names.len() == self.tracks.len(),
            forall|i: int| 0 <= i < names.len() ==> names@[i]@ == self.tracks@[i].name@,
    {
        let mut names: Vec<String> = Vec::new();
        let mut i: usize = 0;
        while i < self.tracks.len()
            invariant
                i <= self.tracks.len(),
                names.len() == i,
                forall|k: int| 0 <= k < i ==> names@[k]@ == self.tracks@[k].name@,
            decreases self.tracks.len() - i,
        {
            names.push(self.tracks[i].name.clone());
            i += 1;
        }
        names
    }

    /// The two tracks merged, named `name` or left without a name.
    pub fn merge_tracks(&self, track1: &MIDITrack, track2: &MIDITrack, name: Option<&str>) -> (track:
        MIDITrack)
        ensures
            track@ == merged(
                track1@,
                track2@,
                match name {
                    Some(n) => n@,
                    None => seq![],
                },
            ),
    {
        let mut track = match name {
            Some(n) => MIDITrack::new(n),
            None => unnamed_track(),
        };
        let notes = concat(&track1.notes, &track2.notes);
        track.notes = sort_notes(&notes);
        assert(lanes_view(track.control_change@) =~= Seq::<LaneView>::empty());
        put_lanes(&mut track.control_change, &track1.control_change);
        put_lanes(&mut track.control_change, &track2.control_change);
        let bends = concat(&track1.pitchwheel, &track2.pitchwheel);
        track.pitchwheel = sort_events(&bends);
        let touches = concat(&track1.aftertouch, &track2.aftertouch);
        track.aftertouch = sort_events(&touches);
        assert(track@ =~= merged(
            track1@,
            track2@,
            match name {
                Some(n) => n@,
                None => seq![],
            },
        ));
        track
    }
}

} // verus!
