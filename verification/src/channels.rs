//! The channels of a single-track file: each of the sixteen channel tracks
//! holds exactly what the messages of its channel say, and nothing of
//! another channel.

use vstd::prelude::*;
use crate::file::{file_of, finalized, FileView};
use crate::midi::{MIDIEvent, Ratio};
use crate::parse::{bend_value, default_name, program_name, touch_value, Reading};
use crate::smf::{events_in_range, ChannelMessage, Division, EventKind, FileFormat, TrackEvent};
use crate::tempo::DEFAULT_TEMPO;
use crate::timing::{lemma_run_all_orderly, lemma_run_orderly};
use crate::track::{notes_by_time, TrackView};

verus! {

/// What one channel has gathered while the events of a track go by: the
/// time and the tempo of the track, and the channel's notes and events,
/// without a name.
#[verifier::ext_equal]
pub struct Lane {
    pub time: int,
    pub tempo: u32,
    pub track: TrackView,
}

/// The track after a note-off, where a note-on waits for it; else as it
/// was.
pub open spec fn ended(track: TrackView, channel: u8, key: u8, time: u64) -> TrackView {
    if track.has_open(channel, key) {
        track.note_off(channel, key, time)
    } else {
        track
    }
}

/// The track after a message of its channel at `time`.
pub open spec fn heard(track: TrackView, channel: u8, message: ChannelMessage, time: u64) -> TrackView {
    match message {
        ChannelMessage::NoteOn { key, vel } => if vel == 0 {
            ended(track, channel, key, time)
        } else {
            track.note_on(channel, key, vel, time)
        },
        ChannelMessage::NoteOff { key, vel } => ended(track, channel, key, time),
        ChannelMessage::ProgramChange { program } => track,
        ChannelMessage::Controller { controller, value } => track.control(
            controller,
            MIDIEvent { channel, value: Ratio { num: value as i32, den: 1 }, time },
        ),
        ChannelMessage::PitchBend { bend } => track.bend(
            MIDIEvent { channel, value: bend_value(bend), time },
        ),
        ChannelMessage::Aftertouch { key, vel } => track.touch(
            MIDIEvent { channel, value: touch_value(vel), time },
        ),
        ChannelMessage::ChannelAftertouch { vel } => track,
    }
}

impl Lane {
    /// The lane before the first event.
    pub open spec fn start() -> Lane {
        Lane { time: 0, tempo: DEFAULT_TEMPO, track: TrackView::empty(seq![]) }
    }

    /// The lane of channel `channel` after one more event: time moves on,
    /// a tempo event sets the tempo, and a message of the channel is
    /// heard. A message of another channel leaves the track as it is.
    pub open spec fn event(self, event: TrackEvent, channel: u8) -> Lane {
        let time = self.time + event.delta * self.tempo;
        match event.kind {
            EventKind::Channel { channel: on, message } => if on == channel {
                Lane { time, track: heard(self.track, channel, message, time as u64), ..self }
            } else {
                Lane { time, ..self }
            },
            EventKind::Tempo(tempo) => Lane { time, tempo, ..self },
            _ => Lane { time, ..self },
        }
    }

    /// The lane of channel `channel` after the first `n` events.
    pub open spec fn run(events: Seq<TrackEvent>, n: int, channel: u8) -> Lane
        decreases n,
    {
        if n <= 0 {
            Lane::start()
        } else {
            Lane::run(events, n - 1, channel).event(events[n - 1], channel)
        }
    }
}

/// The sixteen channel lanes of a single-track file after all its events.
pub open spec fn lanes(tracks: Seq<Seq<TrackEvent>>) -> Seq<TrackView> {
    Seq::new(
        16,
        |c: int|
            if tracks.len() == 0 {
                Lane::start().track
            } else {
                Lane::run(tracks[0], tracks[0].len() as int, c as u8).track
            },
    )
}

/// The tracks without their names.
pub open spec fn unnamed(tracks: Seq<TrackView>) -> Seq<TrackView> {
    tracks.map_values(|t: TrackView| t.named(seq![]))
}

/// The reading and the lane of channel `c` agree: in time, in tempo, and,
/// the name apart, in the track of the channel.
pub open spec fn agree(reading: Reading, lane: Lane, c: int) -> bool {
    &&& reading.time == lane.time
    &&& reading.tempo == lane.tempo
    &&& reading.tracks[c].named(seq![]) == lane.track
}

/// A message changes the track of its channel as the lane hears it, and
/// no other track.
pub proof fn lemma_message_agrees(reading: Reading, track: TrackView, channel: u8, message: ChannelMessage, c: int)
    requires
        reading.wf(FileFormat::SingleTrack),
        0 <= reading.time <= u64::MAX,
        reading.current == channel,
        0 <= c < 16,
        reading.tracks[c].named(seq![]) == track,
        reading.message(channel, message) is Ok,
    ensures
        reading.message(channel, message)->Ok_0.time == reading.time,
        reading.message(channel, message)->Ok_0.tempo == reading.tempo,
        reading.message(channel, message)->Ok_0.tracks[c].named(seq![]) == (if c == channel {
            heard(track, channel, message, reading.time as u64)
        } else {
            track
        }),
{
    let after = reading.message(channel, message)->Ok_0;
    let own = reading.tracks[reading.current];
    let time = reading.time as u64;
    assert(reading.track() == own);
    if c == channel {
        assert(own.named(seq![]).open_notes == own.open_notes);
        match message {
            ChannelMessage::NoteOn { key, vel } => {
                if vel == 0 {
                    assert(own.has_open(channel, key));
                    assert(after.tracks[c] == own.note_off(channel, key, time));
                    assert(after.tracks[c].named(seq![]) =~= track.note_off(channel, key, time));
                } else {
                    assert(after.tracks[c] == own.note_on(channel, key, vel, time));
                    assert(after.tracks[c].named(seq![]) =~= track.note_on(channel, key, vel, time));
                }
            },
            ChannelMessage::NoteOff { key, vel } => {
                assert(own.has_open(channel, key));
                assert(after.tracks[c] == own.note_off(channel, key, time));
                assert(after.tracks[c].named(seq![]) =~= track.note_off(channel, key, time));
            },
            ChannelMessage::ProgramChange { program } => {
                assert(after.tracks[c].named(seq![]) =~= track);
            },
            ChannelMessage::Controller { controller, value } => {
                let event = MIDIEvent { channel, value: Ratio { num: value as i32, den: 1 }, time };
                assert(after.tracks[c] == own.control(controller, event));
                assert(after.tracks[c].named(seq![]) =~= track.control(controller, event));
            },
            ChannelMessage::PitchBend { bend } => {
                let event = MIDIEvent { channel, value: bend_value(bend), time };
                assert(after.tracks[c] == own.bend(event));
                assert(after.tracks[c].named(seq![]) =~= track.bend(event));
            },
            ChannelMessage::Aftertouch { key, vel } => {
                let event = MIDIEvent { channel, value: touch_value(vel), time };
                assert(after.tracks[c] == own.touch(event));
                assert(after.tracks[c].named(seq![]) =~= track.touch(event));
            },
            ChannelMessage::ChannelAftertouch { vel } => {},
        }
    } else {
        assert(after.tracks[c] == reading.tracks[c]);
    }
}

/// An event of a single-track file keeps the reading and the lane of each
/// channel in agreement.
pub proof fn lemma_event_agrees(reading: Reading, lane: Lane, event: TrackEvent, c: int)
    requires
        reading.wf(FileFormat::SingleTrack),
        0 <= c < 16,
        event.kind.in_range(),
        agree(reading, lane, c),
        reading.event(event, FileFormat::SingleTrack, seq![]) is Ok,
    ensures
        agree(
            reading.event(event, FileFormat::SingleTrack, seq![])->Ok_0,
            lane.event(event, c as u8),
            c,
        ),
{
    let format = FileFormat::SingleTrack;
    let time = reading.time + event.delta * reading.tempo;
    assert(event.delta * reading.tempo >= 0) by (nonlinear_arith)
        requires
            event.delta >= 0,
            reading.tempo >= 0,
    ;
    let now = Reading { time, ..reading };
    let after = reading.event(event, format, seq![])->Ok_0;
    match event.kind {
        EventKind::Channel { channel, message } => {
            let here = Reading { current: channel as int, ..now };
            let named = if here.track().name.len() == 0 {
                Reading { named: here.named + 1, ..here }.renamed(
                    default_name(here.named + 1),
                    true,
                )
            } else {
                here
            };
            assert(named.wf(format));
            assert(named.tracks[c].named(seq![]) =~= lane.track) by {
                if here.track().name.len() == 0 {
                    if c == channel {
                        assert(named.tracks[c] == here.tracks[c].named(default_name(here.named + 1)));
                    } else {
                        assert(named.tracks[c] == here.tracks[c]);
                    }
                }
            }
            lemma_message_agrees(named, lane.track, channel, message, c);
            assert(after == named.message(channel, message)->Ok_0);
        },
        EventKind::TrackName(name) => {
            assert(after.tracks[c].named(seq![]) =~= lane.track) by {
                if c == now.current {
                    assert(after.tracks[c] == now.tracks[c].named(name@));
                } else {
                    assert(after.tracks[c] == now.tracks[c]);
                }
            }
        },
        EventKind::Tempo(tempo) => {},
        EventKind::EndOfTrack => {},
        EventKind::Other => {},
    }
}

/// A run over the events of a single-track file keeps the reading and the
/// lane of each channel in agreement.
pub proof fn lemma_run_agrees(begun: Reading, events: Seq<TrackEvent>, n: int, c: int)
    requires
        begun.wf(FileFormat::SingleTrack),
        begun.orderly(FileFormat::SingleTrack),
        agree(begun, Lane::start(), c),
        0 <= c < 16,
        0 <= n <= events.len(),
        forall|i: int| 0 <= i < events.len() ==> (#[trigger] events[i]).kind.in_range(),
        begun.run(events, n, FileFormat::SingleTrack, seq![]) is Ok,
    ensures
        agree(
            begun.run(events, n, FileFormat::SingleTrack, seq![])->Ok_0,
            Lane::run(events, n, c as u8),
            c,
        ),
    decreases n,
{
    if n > 0 {
        lemma_run_agrees(begun, events, n - 1, c);
        lemma_run_orderly(begun, events, n - 1, FileFormat::SingleTrack, seq![]);
        let before = begun.run(events, n - 1, FileFormat::SingleTrack, seq![])->Ok_0;
        lemma_event_agrees(before, Lane::run(events, n - 1, c as u8), events[n - 1], c);
    }
}

/// Dropping empty tracks and putting notes in order does not look at
/// names.
pub proof fn lemma_finalized_unnamed(gathered: Seq<TrackView>, n: int)
    requires
        0 <= n <= gathered.len(),
    ensures
        unnamed(finalized(gathered, n)) == finalized(unnamed(gathered), n),
    decreases n,
{
    if n > 0 {
        lemma_finalized_unnamed(gathered, n - 1);
        let track = gathered[n - 1];
        assert(unnamed(gathered)[n - 1] == track.named(seq![]));
        assert(track.named(seq![]).is_empty() == track.is_empty());
        assert(track.named(seq![]).finished() =~= track.finished().named(seq![]));
        assert(unnamed(finalized(gathered, n)) =~= finalized(unnamed(gathered), n));
    } else {
        assert(unnamed(finalized(gathered, n)) =~= finalized(unnamed(gathered), n));
    }
}

/// The tracks of a single-track file are, their names apart, the sixteen
/// channel lanes without the empty ones, each with its notes by time: a
/// message is heard on the track of its channel and on no other, and no
/// message is lost.
pub proof fn lemma_tracks_are_lanes(division: Division, tracks: Seq<Seq<TrackEvent>>)
    requires
        events_in_range(tracks),
        file_of(FileFormat::SingleTrack, division, tracks) is Ok,
    ensures
        unnamed(file_of(FileFormat::SingleTrack, division, tracks)->Ok_0.tracks) == finalized(
            lanes(tracks),
            16,
        ),
{
    let format = FileFormat::SingleTrack;
    let file = file_of(format, division, tracks)->Ok_0;
    let start = Reading::start(format);
    let reading = start.run_all(tracks, tracks.len() as int, format, seq![])->Ok_0;
    assert(start.wf(format));
    assert(start.orderly(format));
    assert forall|c: int| 0 <= c < 16 implies (#[trigger] reading.tracks[c]).named(seq![]) == lanes(
        tracks,
    )[c] by {
        assert(start.tracks[c].named(seq![]) =~= Lane::start().track);
        if tracks.len() == 0 {
            assert(reading == start);
        } else {
            assert(start.run_all(tracks, 0, format, seq![]) == Ok::<Reading, crate::midi::MidiError>(start));
            let begun = start.begin_track(format, seq![]);
            assert(begun.tracks == start.tracks);
            assert(agree(begun, Lane::start(), c));
            assert forall|i: int| 0 <= i < tracks[0].len() implies (
            #[trigger] tracks[0][i]).kind.in_range() by {}
            lemma_run_agrees(begun, tracks[0], tracks[0].len() as int, c);
            lemma_run_orderly(begun, tracks[0], tracks[0].len() as int, format, seq![]);
        }
    }
    lemma_run_all_orderly(tracks, tracks.len() as int, format, seq![]);
    let gathered = reading.gathered(format);
    assert(gathered.len() == 16);
    assert forall|c: int| 0 <= c < 16 implies unnamed(gathered)[c] == lanes(tracks)[c] by {
        assert(unnamed(gathered)[c] == reading.tracks[c].named(seq![]));
    }
    assert(unnamed(gathered) =~= lanes(tracks));
    lemma_finalized_unnamed(gathered, 16);
}

} // verus!
