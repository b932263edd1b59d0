//! What holds of the notes of every reading: notes end no earlier than
//! they start, and the channel tracks of a single-track file hold only
//! notes of their own channel.

use vstd::prelude::*;
use crate::midi::MIDINote;
use crate::parse::Reading;
use crate::file::{file_of, finalized, marks_of, FileView};
use crate::smf::{events_in_range, ChannelMessage, Division, EventKind, FileFormat, TrackEvent};
use crate::stable::{lemma_stable_order, stable_order};
use crate::track::{
    find_open, lemma_find_open, note_keys, notes_by_time, sorted_by_time_on, TrackView,
};

verus! {

/// Every note has its end, and none ends before it starts.
pub open spec fn well_timed(notes: Seq<MIDINote>) -> bool {
    forall|i: int| 0 <= i < notes.len() ==> (#[trigger] notes[i]).well_timed()
}

/// Every note started at or before `now`.
pub open spec fn started_by(notes: Seq<MIDINote>, now: int) -> bool {
    forall|i: int| 0 <= i < notes.len() ==> (#[trigger] notes[i]).time_on <= now
}

/// Every note is on channel `channel`.
pub open spec fn on_channel(notes: Seq<MIDINote>, channel: int) -> bool {
    forall|i: int| 0 <= i < notes.len() ==> (#[trigger] notes[i]).channel == channel
}

impl Reading {
    /// The notes of the reading are in order: in a single-track file the
    /// track of each channel holds only notes of that channel, the notes
    /// of every track are well timed, and the notes that wait started at
    /// or before the reading's time.
    pub open spec fn orderly(self, format: FileFormat) -> bool {
        &&& format is SingleTrack ==> forall|k: int|
            0 <= k < self.tracks.len() ==> on_channel((#[trigger] self.tracks[k]).notes, k)
                && on_channel(self.tracks[k].open_notes, k)
        &&& forall|k: int|
            0 <= k < self.tracks.len() ==> well_timed((#[trigger] self.tracks[k]).notes)
                && started_by(self.tracks[k].open_notes, self.time)
        &&& forall|k: int|
            0 <= k < self.finished.len() ==> well_timed((#[trigger] self.finished[k]).notes)
    }
}

/// A note-off keeps the notes of a track in order.
pub proof fn lemma_note_off_orderly(track: TrackView, channel: u8, key: u8, time_off: u64)
    requires
        track.has_open(channel, key),
    ensures
        forall|c: int|
            on_channel(track.notes, c) && on_channel(track.open_notes, c) ==> on_channel(
                track.note_off(channel, key, time_off).notes,
                c,
            ) && on_channel(track.note_off(channel, key, time_off).open_notes, c),
        well_timed(track.notes) && started_by(track.open_notes, time_off as int) ==> well_timed(
            track.note_off(channel, key, time_off).notes,
        ) && started_by(track.note_off(channel, key, time_off).open_notes, time_off as int),
{
    lemma_find_open(track.open_notes, channel, key, 0);
    let at = find_open(track.open_notes, channel, key, 0);
    let after = track.note_off(channel, key, time_off);
    assert forall|i: int| 0 <= i < after.open_notes.len() implies after.open_notes[i] == (if i
        < at {
        track.open_notes[i]
    } else {
        track.open_notes[i + 1]
    }) by {}
    assert forall|c: int|
        on_channel(track.notes, c) && on_channel(track.open_notes, c) implies on_channel(
        after.notes,
        c,
    ) && on_channel(after.open_notes, c) by {
        assert(track.open_notes[at].channel == c);
        assert forall|i: int| 0 <= i < after.notes.len() implies (#[trigger] after.notes[i]).channel
            == c by {
            if i < track.notes.len() {
                assert(track.notes[i].channel == c);
            }
        }
        assert forall|i: int| 0 <= i < after.open_notes.len() implies (
        #[trigger] after.open_notes[i]).channel == c by {
            if i < at {
                assert(track.open_notes[i].channel == c);
            } else {
                assert(track.open_notes[i + 1].channel == c);
            }
        }
    }
    if well_timed(track.notes) && started_by(track.open_notes, time_off as int) {
        assert(track.open_notes[at].time_on <= time_off);
        assert forall|i: int| 0 <= i < after.notes.len() implies (
        #[trigger] after.notes[i]).well_timed() by {
            if i < track.notes.len() {
                assert(track.notes[i].well_timed());
            }
        }
        assert forall|i: int| 0 <= i < after.open_notes.len() implies (
        #[trigger] after.open_notes[i]).time_on <= time_off by {
            if i < at {
                assert(track.open_notes[i].time_on <= time_off);
            } else {
                assert(track.open_notes[i + 1].time_on <= time_off);
            }
        }
    }
}

/// Replacing the current track by one whose notes are in order keeps the
/// reading in order.
pub proof fn lemma_with_track_orderly(
    reading: Reading,
    track: TrackView,
    format: FileFormat,
)
    requires
        reading.wf(format),
        reading.orderly(format),
        format is SingleTrack ==> on_channel(track.notes, reading.current) && on_channel(
            track.open_notes,
            reading.current,
        ),
        well_timed(track.notes) && started_by(track.open_notes, reading.time),
    ensures
        reading.with_track(track).orderly(format),
        reading.with_track(track).wf(format),
{
    let after = reading.with_track(track);
    assert forall|k: int| 0 <= k < after.tracks.len() implies (format is SingleTrack ==> on_channel(
        (#[trigger] after.tracks[k]).notes,
        k,
    ) && on_channel(after.tracks[k].open_notes, k)) && well_timed(after.tracks[k].notes) && started_by(
        after.tracks[k].open_notes,
        after.time,
    ) by {
        if k != reading.current {
            assert(after.tracks[k] == reading.tracks[k]);
        }
    }
}

/// A channel message keeps a reading in order, where the current track is
/// the track of the message's channel in a single-track file.
pub proof fn lemma_message_orderly(
    reading: Reading,
    channel: u8,
    message: ChannelMessage,
    format: FileFormat,
)
    requires
        reading.wf(format),
        reading.orderly(format),
        format is SingleTrack ==> reading.current == channel,
        reading.message(channel, message) is Ok,
    ensures
        reading.message(channel, message)->Ok_0.orderly(format),
        reading.message(channel, message)->Ok_0.wf(format),
        reading.message(channel, message)->Ok_0.time == reading.time,
{
    let track = reading.track();
    let time = reading.time as u64;
    let after = reading.message(channel, message)->Ok_0;
    assert(reading.tracks[reading.current] == track);
    match message {
        ChannelMessage::NoteOn { key, vel } => {
            if vel == 0 {
                lemma_note_off_orderly(track, channel, key, time);
                lemma_with_track_orderly(reading, track.note_off(channel, key, time), format);
            } else {
                let next = track.note_on(channel, key, vel, time);
                assert forall|i: int| 0 <= i < next.open_notes.len() implies (
                #[trigger] next.open_notes[i]).time_on <= reading.time && (format is SingleTrack
                    ==> next.open_notes[i].channel == reading.current) by {
                    if i < track.open_notes.len() {
                        assert(next.open_notes[i] == track.open_notes[i]);
                        assert(track.open_notes[i].time_on <= reading.time);
                        if format is SingleTrack {
                            assert(track.open_notes[i].channel == reading.current);
                        }
                    }
                }
                lemma_with_track_orderly(reading, next, format);
            }
        },
        ChannelMessage::NoteOff { key, vel } => {
            lemma_note_off_orderly(track, channel, key, time);
            lemma_with_track_orderly(reading, track.note_off(channel, key, time), format);
        },
        ChannelMessage::ProgramChange { program } => {
            if track.name.len() == 0 || reading.placeholder[reading.current] {
                lemma_renamed_orderly(
                    reading,
                    crate::parse::program_name(channel, program),
                    false,
                    format,
                );
            }
        },
        ChannelMessage::Controller { controller, value } => {
            lemma_with_track_orderly(reading, after.tracks[reading.current], format);
            assert(after =~= reading.with_track(after.tracks[reading.current]));
        },
        ChannelMessage::PitchBend { bend } => {
            lemma_with_track_orderly(reading, after.tracks[reading.current], format);
            assert(after =~= reading.with_track(after.tracks[reading.current]));
        },
        ChannelMessage::Aftertouch { key, vel } => {
            lemma_with_track_orderly(reading, after.tracks[reading.current], format);
            assert(after =~= reading.with_track(after.tracks[reading.current]));
        },
        ChannelMessage::ChannelAftertouch { vel } => {},
    }
}

/// Renaming the current track keeps a reading in order.
pub proof fn lemma_renamed_orderly(
    reading: Reading,
    name: Seq<char>,
    placeholder: bool,
    format: FileFormat,
)
    requires
        reading.wf(format),
        reading.orderly(format),
    ensures
        reading.renamed(name, placeholder).orderly(format),
        reading.renamed(name, placeholder).wf(format),
{
    let after = reading.renamed(name, placeholder);
    assert forall|k: int| 0 <= k < after.tracks.len() implies (format is SingleTrack ==> on_channel(
        (#[trigger] after.tracks[k]).notes,
        k,
    ) && on_channel(after.tracks[k].open_notes, k)) && well_timed(after.tracks[k].notes) && started_by(
        after.tracks[k].open_notes,
        after.time,
    ) by {
        assert(after.tracks[k].notes == reading.tracks[k].notes);
        assert(after.tracks[k].open_notes == reading.tracks[k].open_notes);
    }
}

/// Moving the time on keeps a reading in order.
pub proof fn lemma_later_orderly(reading: Reading, time: int, format: FileFormat)
    requires
        reading.wf(format),
        reading.orderly(format),
        reading.time <= time <= u64::MAX,
    ensures
        (Reading { time, ..reading }).orderly(format),
        (Reading { time, ..reading }).wf(format),
{
    let after = Reading { time, ..reading };
    assert forall|k: int| 0 <= k < after.tracks.len() implies well_timed(
        (#[trigger] after.tracks[k]).notes,
    ) && started_by(after.tracks[k].open_notes, after.time) by {
        assert(started_by(reading.tracks[k].open_notes, reading.time));
        assert forall|i: int| 0 <= i < after.tracks[k].open_notes.len() implies (
        #[trigger] after.tracks[k].open_notes[i]).time_on <= time by {
            assert(reading.tracks[k].open_notes[i].time_on <= reading.time);
        }
    }
}

/// An event keeps a reading in order.
pub proof fn lemma_event_orderly(
    reading: Reading,
    event: TrackEvent,
    format: FileFormat,
    marks: Seq<(u64, u32)>,
)
    requires
        reading.wf(format),
        reading.orderly(format),
        event.kind.in_range(),
        reading.event(event, format, marks) is Ok,
    ensures
        reading.event(event, format, marks)->Ok_0.orderly(format),
        reading.event(event, format, marks)->Ok_0.wf(format),
{
    let time = reading.time + event.delta * reading.tempo;
    assert(event.delta * reading.tempo >= 0) by (nonlinear_arith)
        requires
            event.delta >= 0,
            reading.tempo >= 0,
    ;
    lemma_later_orderly(reading, time, format);
    let now = Reading { time, ..reading };
    let after = reading.event(event, format, marks)->Ok_0;
    match event.kind {
        EventKind::Channel { channel, message } => {
            let here = if format is SingleTrack {
                Reading { current: channel as int, ..now }
            } else {
                now
            };
            assert(here.orderly(format));
            let named = if here.track().name.len() == 0 {
                Reading { named: here.named + 1, ..here }.renamed(
                    crate::parse::default_name(here.named + 1),
                    true,
                )
            } else {
                here
            };
            if here.track().name.len() == 0 {
                let counted = Reading { named: here.named + 1, ..here };
                assert(counted.orderly(format));
                lemma_renamed_orderly(
                    counted,
                    crate::parse::default_name(here.named + 1),
                    true,
                    format,
                );
            }
            lemma_message_orderly(named, channel, message, format);
            let done = named.message(channel, message)->Ok_0;
            if format is Parallel {
                assert(done.retimed(marks).orderly(format));
            }
        },
        EventKind::TrackName(name) => {
            lemma_renamed_orderly(now, name@, false, format);
        },
        EventKind::Tempo(tempo) => {
            assert(after.orderly(format));
        },
        EventKind::EndOfTrack => {
            if format is Parallel {
                assert forall|k: int| 0 <= k < after.finished.len() implies well_timed(
                    (#[trigger] after.finished[k]).notes,
                ) by {
                    if k < now.finished.len() {
                        assert(after.finished[k] == now.finished[k]);
                    } else {
                        assert(after.finished[k] == now.tracks[now.current]);
                    }
                }
            }
        },
        EventKind::Other => {},
    }
}

/// A run over events keeps a reading in order.
pub proof fn lemma_run_orderly(
    reading: Reading,
    events: Seq<TrackEvent>,
    n: int,
    format: FileFormat,
    marks: Seq<(u64, u32)>,
)
    requires
        reading.wf(format),
        reading.orderly(format),
        0 <= n <= events.len(),
        forall|i: int| 0 <= i < events.len() ==> (#[trigger] events[i]).kind.in_range(),
        reading.run(events, n, format, marks) is Ok,
    ensures
        reading.run(events, n, format, marks)->Ok_0.orderly(format),
        reading.run(events, n, format, marks)->Ok_0.wf(format),
    decreases n,
{
    if n > 0 {
        lemma_run_orderly(reading, events, n - 1, format, marks);
        let before = reading.run(events, n - 1, format, marks)->Ok_0;
        lemma_event_orderly(before, events[n - 1], format, marks);
    }
}

/// A run over the tracks of a file keeps the reading in order, where a
/// single-track file has no more than one track.
pub proof fn lemma_run_all_orderly(
    tracks: Seq<Seq<TrackEvent>>,
    m: int,
    format: FileFormat,
    marks: Seq<(u64, u32)>,
)
    requires
        !(format is Sequential),
        0 <= m <= tracks.len(),
        crate::smf::events_in_range(tracks),
        format is SingleTrack ==> m <= 1,
        Reading::start(format).run_all(tracks, m, format, marks) is Ok,
    ensures
        Reading::start(format).run_all(tracks, m, format, marks)->Ok_0.orderly(format),
        Reading::start(format).run_all(tracks, m, format, marks)->Ok_0.wf(format),
    decreases m,
{
    let start = Reading::start(format);
    if m > 0 {
        lemma_run_all_orderly(tracks, m - 1, format, marks);
        let before = start.run_all(tracks, m - 1, format, marks)->Ok_0;
        let begun = before.begin_track(format, marks);
        assert(begun.wf(format));
        assert(begun.orderly(format)) by {
            if format is SingleTrack {
                assert(before == start);
            }
        }
        assert forall|i: int| 0 <= i < tracks[m - 1].len() implies (
        #[trigger] tracks[m - 1][i]).kind.in_range() by {}
        lemma_run_orderly(begun, tracks[m - 1], tracks[m - 1].len() as int, format, marks);
    }
}

/// The tracks of the first `n` gathered tracks that are kept, by position.
pub open spec fn kept(gathered: Seq<TrackView>, n: int) -> Seq<int>
    decreases n,
{
    if n <= 0 {
        seq![]
    } else if gathered[n - 1].is_empty() {
        kept(gathered, n - 1)
    } else {
        kept(gathered, n - 1).push(n - 1)
    }
}

/// Each finalized track is a gathered track with its notes by time; the
/// kept positions grow.
pub proof fn lemma_kept(gathered: Seq<TrackView>, n: int)
    requires
        0 <= n <= gathered.len(),
    ensures
        kept(gathered, n).len() == finalized(gathered, n).len(),
        kept(gathered, n).len() <= n,
        forall|i: int|
            0 <= i < kept(gathered, n).len() ==> 0 <= #[trigger] kept(gathered, n)[i] < n
                && finalized(gathered, n)[i] == gathered[kept(gathered, n)[i]].finished()
                && !gathered[kept(gathered, n)[i]].is_empty(),
        forall|i: int, j: int|
            0 <= i < j < kept(gathered, n).len() ==> kept(gathered, n)[i] < kept(gathered, n)[j],
        kept(gathered, n).len() == n ==> forall|i: int| 0 <= i < n ==> kept(gathered, n)[i] == i,
    decreases n,
{
    if n > 0 {
        lemma_kept(gathered, n - 1);
    }
}

/// Notes by time are the same notes, each starting no later than the next.
pub proof fn lemma_notes_by_time(notes: Seq<MIDINote>)
    ensures
        notes_by_time(notes).len() == notes.len(),
        sorted_by_time_on(notes_by_time(notes)),
        forall|i: int|
            0 <= i < notes.len() ==> notes.contains(#[trigger] notes_by_time(notes)[i]),
        well_timed(notes) ==> well_timed(notes_by_time(notes)),
        forall|c: int| on_channel(notes, c) ==> on_channel(notes_by_time(notes), c),
{
    let keys = note_keys(notes);
    let n = notes.len() as int;
    lemma_stable_order(keys, n);
    let order = stable_order(keys, n);
    let sorted = notes_by_time(notes);
    assert forall|i: int, j: int| 0 <= i < j < sorted.len() implies sorted[i].time_on
        <= sorted[j].time_on by {
        assert(crate::stable::before(keys, order[i], order[j]));
    }
    assert forall|i: int| 0 <= i < notes.len() implies notes.contains(#[trigger] sorted[i]) by {
        assert(0 <= order[i] < n);
        assert(notes[order[i]] == sorted[i]);
    }
    if well_timed(notes) {
        assert forall|i: int| 0 <= i < sorted.len() implies (#[trigger] sorted[i]).well_timed() by {
            assert(0 <= order[i] < n);
            assert(notes[order[i]].well_timed());
        }
    }
    assert forall|c: int| on_channel(notes, c) implies on_channel(sorted, c) by {
        assert forall|i: int| 0 <= i < sorted.len() implies (#[trigger] sorted[i]).channel == c by {
            assert(0 <= order[i] < n);
            assert(notes[order[i]].channel == c);
        }
    }
}

/// In every track the notes are sorted by `time_on`.
pub open spec fn notes_sorted(file: FileView) -> bool {
    forall|t: int| 0 <= t < file.tracks.len() ==> sorted_by_time_on((#[trigger] file.tracks[t]).notes)
}

/// In every track every note has its end and does not end before it
/// starts.
pub open spec fn notes_well_timed(file: FileView) -> bool {
    forall|t: int| 0 <= t < file.tracks.len() ==> well_timed((#[trigger] file.tracks[t]).notes)
}

/// The notes of one track are on one channel, and a later track has its
/// notes on a higher channel than an earlier one. With all sixteen tracks
/// present, track `k` has the notes of channel `k`.
pub open spec fn tracks_by_channel(file: FileView) -> bool {
    &&& forall|t: int, i: int, j: int|
        0 <= t < file.tracks.len() && 0 <= i < file.tracks[t].notes.len() && 0 <= j
            < file.tracks[t].notes.len() ==> (#[trigger] file.tracks[t].notes[i]).channel == (
        #[trigger] file.tracks[t].notes[j]).channel
    &&& forall|s: int, t: int, i: int, j: int|
        0 <= s < t < file.tracks.len() && 0 <= i < file.tracks[s].notes.len() && 0 <= j
            < file.tracks[t].notes.len() ==> (#[trigger] file.tracks[s].notes[i]).channel < (
        #[trigger] file.tracks[t].notes[j]).channel
    &&& file.tracks.len() == 16 ==> forall|k: int, i: int|
        0 <= k < 16 && 0 <= i < file.tracks[k].notes.len() ==> (
        #[trigger] file.tracks[k].notes[i]).channel == k
}

/// No track is empty: each holds a note or an event.
pub open spec fn tracks_not_empty(file: FileView) -> bool {
    forall|t: int| 0 <= t < file.tracks.len() ==> !(#[trigger] file.tracks[t]).is_empty()
}

/// After parsing, no track is empty, the notes of every track are sorted
/// by `time_on`, and every note ends no earlier than it starts.
pub proof fn lemma_parsed_notes_in_order(
    format: FileFormat,
    division: Division,
    tracks: Seq<Seq<TrackEvent>>,
)
    requires
        events_in_range(tracks),
        file_of(format, division, tracks) is Ok,
    ensures
        tracks_not_empty(file_of(format, division, tracks)->Ok_0),
        notes_sorted(file_of(format, division, tracks)->Ok_0),
        notes_well_timed(file_of(format, division, tracks)->Ok_0),
{
    let file = file_of(format, division, tracks)->Ok_0;
    let marks = marks_of(format, tracks);
    lemma_run_all_orderly(tracks, tracks.len() as int, format, marks);
    let reading = Reading::start(format).run_all(tracks, tracks.len() as int, format, marks)->Ok_0;
    let gathered = reading.gathered(format);
    lemma_kept(gathered, gathered.len() as int);
    let positions = kept(gathered, gathered.len() as int);
    assert forall|t: int| 0 <= t < file.tracks.len() implies sorted_by_time_on(
        (#[trigger] file.tracks[t]).notes,
    ) && well_timed(file.tracks[t].notes) && !file.tracks[t].is_empty() by {
        let source = gathered[positions[t]];
        assert(file.tracks[t] == source.finished());
        assert(!source.is_empty());
        lemma_notes_by_time(source.notes);
        if format is SingleTrack {
            assert(well_timed(reading.tracks[positions[t]].notes));
        } else {
            assert(well_timed(reading.finished[positions[t]].notes));
        }
    }
}

/// After parsing a single-track file, each track holds the notes of one
/// channel, the tracks stand in the order of their channels, and where
/// none of the sixteen channel tracks was dropped as empty, every note of
/// track `k` has channel `k`.
pub proof fn lemma_single_track_channels(division: Division, tracks: Seq<Seq<TrackEvent>>)
    requires
        events_in_range(tracks),
        file_of(FileFormat::SingleTrack, division, tracks) is Ok,
    ensures
        tracks_by_channel(file_of(FileFormat::SingleTrack, division, tracks)->Ok_0),
{
    let format = FileFormat::SingleTrack;
    let file = file_of(format, division, tracks)->Ok_0;
    let marks = marks_of(format, tracks);
    lemma_run_all_orderly(tracks, tracks.len() as int, format, marks);
    let reading = Reading::start(format).run_all(tracks, tracks.len() as int, format, marks)->Ok_0;
    let gathered = reading.gathered(format);
    lemma_kept(gathered, gathered.len() as int);
    let positions = kept(gathered, gathered.len() as int);
    assert forall|t: int| 0 <= t < file.tracks.len() implies on_channel(
        (#[trigger] file.tracks[t]).notes,
        positions[t],
    ) by {
        let source = gathered[positions[t]];
        assert(file.tracks[t] == source.finished());
        lemma_notes_by_time(source.notes);
        assert(on_channel(reading.tracks[positions[t]].notes, positions[t]));
    }
    assert forall|t: int, i: int, j: int|
        0 <= t < file.tracks.len() && 0 <= i < file.tracks[t].notes.len() && 0 <= j
            < file.tracks[t].notes.len() implies (#[trigger] file.tracks[t].notes[i]).channel == (
    #[trigger] file.tracks[t].notes[j]).channel by {
        assert(on_channel(file.tracks[t].notes, positions[t]));
    }
    assert forall|s: int, t: int, i: int, j: int|
        0 <= s < t < file.tracks.len() && 0 <= i < file.tracks[s].notes.len() && 0 <= j
            < file.tracks[t].notes.len() implies (#[trigger] file.tracks[s].notes[i]).channel < (
    #[trigger] file.tracks[t].notes[j]).channel by {
        assert(on_channel(file.tracks[s].notes, positions[s]));
        assert(on_channel(file.tracks[t].notes, positions[t]));
        assert(positions[s] < positions[t]);
    }
    if file.tracks.len() == 16 {
        assert forall|k: int, i: int|
            0 <= k < 16 && 0 <= i < file.tracks[k].notes.len() implies (
        #[trigger] file.tracks[k].notes[i]).channel == k by {
            assert(on_channel(file.tracks[k].notes, positions[k]));
            assert(positions[k] == k);
        }
    }
}

} // verus!
