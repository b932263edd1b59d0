//! Standard MIDI Files as lists of events, and their decoding through the
//! `midly` crate.
//!
//! The decoder is not verified. What this module takes from it is listed
//! here: one function that decodes, and small readers of the decoded
//! value. Each reader's contract says that it hands out the piece of
//! [`smf_model`] that its name says, and that the integers it hands out are
//! within the ranges that the decoder's own types enforce.

use vstd::prelude::*;

verus! {

/// Track layout declared in the file header.
#[derive(Clone, Copy, Debug, PartialEq, Eq, Structural)]
pub enum FileFormat {
    /// Format 0: one track that carries every channel.
    SingleTrack,
    /// Format 1: several tracks played together.
    Parallel,
    /// Format 2: several tracks played one after another.
    Sequential,
}

/// The meaning of a tick, from the file header.
#[derive(Clone, Copy, Debug, PartialEq, Eq, Structural)]
pub enum Division {
    /// Ticks per beat.
    Metrical(u16),
    /// Frames per second (24, 25, 29 for 29.97, or 30) and ticks per frame.
    Timecode { fps: u8, subframe: u8 },
}

/// A message on one MIDI channel.
#[derive(Clone, Copy, Debug, PartialEq, Eq, Structural)]
pub enum ChannelMessage {
    NoteOff { key: u8, vel: u8 },
    NoteOn { key: u8, vel: u8 },
    Aftertouch { key: u8, vel: u8 },
    Controller { controller: u8, value: u8 },
    ProgramChange { program: u8 },
    ChannelAftertouch { vel: u8 },
    PitchBend { bend: u16 },
}

/// What a track event carries.
#[derive(Clone, Debug)]
pub enum EventKind {
    /// A message on a channel.
    Channel { channel: u8, message: ChannelMessage },
    /// The name of the track.
    TrackName(String),
    /// A new tempo, in microseconds per beat.
    Tempo(u32),
    /// The end of the track.
    EndOfTrack,
    /// Anything else: other meta events, system-exclusive data, escapes.
    Other,
}

/// One event of a track: the ticks since the event before it, and what it
/// carries.
#[derive(Clone, Debug)]
pub struct TrackEvent {
    pub delta: u32,
    pub kind: EventKind,
}

/// A decoded file as a mathematical value.
pub struct SmfModel {
    pub format: FileFormat,
    pub division: Division,
    pub tracks: Seq<Seq<TrackEvent>>,
}

impl ChannelMessage {
    /// Every field is within the range of its MIDI data type.
    pub open spec fn in_range(self) -> bool {
        match self {
            ChannelMessage::NoteOff { key, vel } => key < 128 && vel < 128,
            ChannelMessage::NoteOn { key, vel } => key < 128 && vel < 128,
            ChannelMessage::Aftertouch { key, vel } => key < 128 && vel < 128,
            ChannelMessage::Controller { controller, value } => controller < 128 && value < 128,
            ChannelMessage::ProgramChange { program } => program < 128,
            ChannelMessage::ChannelAftertouch { vel } => vel < 128,
            ChannelMessage::PitchBend { bend } => bend < 16384,
        }
    }

    /// The message, if it is about one key.
    pub open spec fn key_part(self) -> Option<ChannelMessage> {
        match self {
            ChannelMessage::NoteOff { .. } => Some(self),
            ChannelMessage::NoteOn { .. } => Some(self),
            ChannelMessage::Aftertouch { .. } => Some(self),
            _ => None,
        }
    }

    /// The message, if it is about the whole channel.
    pub open spec fn channel_part(self) -> Option<ChannelMessage> {
        match self {
            ChannelMessage::Controller { .. } => Some(self),
            ChannelMessage::ProgramChange { .. } => Some(self),
            ChannelMessage::ChannelAftertouch { .. } => Some(self),
            ChannelMessage::PitchBend { .. } => Some(self),
            _ => None,
        }
    }
}

impl EventKind {
    /// Every integer is within the range of its MIDI data type.
    pub open spec fn in_range(self) -> bool {
        match self {
            EventKind::Channel { channel, message } => channel < 16 && message.in_range(),
            _ => true,
        }
    }

    /// The channel, if the event is a channel message.
    pub open spec fn channel(self) -> Option<u8> {
        match self {
            EventKind::Channel { channel, .. } => Some(channel),
            _ => None,
        }
    }

    /// The message about one key, if the event is one.
    pub open spec fn key_message(self) -> Option<ChannelMessage> {
        match self {
            EventKind::Channel { message, .. } => message.key_part(),
            _ => None,
        }
    }

    /// The message about a whole channel, if the event is one.
    pub open spec fn channel_message(self) -> Option<ChannelMessage> {
        match self {
            EventKind::Channel { message, .. } => message.channel_part(),
            _ => None,
        }
    }

    /// The event with a channel message taken for `Other`.
    pub open spec fn meta_part(self) -> EventKind {
        match self {
            EventKind::Channel { .. } => EventKind::Other,
            _ => self,
        }
    }
}

/// Every event of every track is within the ranges of MIDI data.
pub open spec fn events_in_range(tracks: Seq<Seq<TrackEvent>>) -> bool {
    forall|t: int, i: int|
        0 <= t < tracks.len() && 0 <= i < tracks[t].len() ==> (#[trigger] tracks[t][i]).kind.in_range()
}

/// The decoder's value for a file.
#[verifier::external_type_specification]
#[verifier::external_body]
pub struct ExSmf<'a>(midly::Smf<'a>);

/// The decoder's error value.
#[verifier::external_type_specification]
#[verifier::external_body]
pub struct ExSmfError(midly::Error);

/// What `midly::Smf::parse` makes of `bytes`: `None` where it reports an
/// error. Track names are taken as text, bytes that are no UTF-8 replaced
/// as `String::from_utf8_lossy` replaces them.
pub uninterp spec fn decoded(bytes: Seq<u8>) -> Option<SmfModel>;

/// What a decoded file holds.
pub uninterp spec fn smf_model(smf: midly::Smf) -> SmfModel;

/// `midly::Smf::parse`: decodes the bytes of a file. The result is an
/// error exactly where [`decoded`] is `None`, and otherwise holds what
/// [`decoded`] names.
#[verifier::external_body]
fn decode<'a>(bytes: &'a [u8]) -> (r: Result<midly::Smf<'a>, midly::Error>)
    ensures
        r is Ok <==> decoded(bytes@) is Some,
        r matches Ok(smf) ==> decoded(bytes@) == Some(smf_model(smf)),
{
    midly::Smf::parse(bytes)
}

/// Reads `header.format` of a decoded file.
#[verifier::external_body]
fn format_of(smf: &midly::Smf) -> (r: FileFormat)
    ensures
        r == smf_model(*smf).format,
{
    match smf.header.format {
        midly::Format::SingleTrack => FileFormat::SingleTrack,
        midly::Format::Parallel => FileFormat::Parallel,
        midly::Format::Sequential => FileFormat::Sequential,
    }
}

/// Reads `header.timing` of a decoded file. `midly::Fps::as_int` gives 24,
/// 25, 29 or 30.
#[verifier::external_body]
fn division_of(smf: &midly::Smf) -> (r: Division)
    ensures
        r == smf_model(*smf).division,
        r matches Division::Timecode { fps, .. } ==> fps == 24 || fps == 25 || fps == 29 || fps == 30,
{
    match smf.header.timing {
        midly::Timing::Metrical(ticks) => Division::Metrical(ticks.as_int()),
        midly::Timing::Timecode(fps, subframe) => Division::Timecode { fps: fps.as_int(), subframe },
    }
}

/// The number of tracks of a decoded file.
#[verifier::external_body]
fn track_count(smf: &midly::Smf) -> (r: usize)
    ensures
        r == smf_model(*smf).tracks.len(),
{
    smf.tracks.len()
}

/// The number of events of track `t` of a decoded file.
#[verifier::external_body]
fn track_len(smf: &midly::Smf, t: usize) -> (r: usize)
    requires
        t < smf_model(*smf).tracks.len(),
    ensures
        r == smf_model(*smf).tracks[t as int].len(),
{
    smf.tracks[t].len()
}

/// The delta time of event `i` of track `t`.
#[verifier::external_body]
fn delta_of(smf: &midly::Smf, t: usize, i: usize) -> (r: u32)
    requires
        t < smf_model(*smf).tracks.len(),
        i < smf_model(*smf).tracks[t as int].len(),
    ensures
        r == smf_model(*smf).tracks[t as int][i as int].delta,
{
    smf.tracks[t][i].delta.as_int()
}

/// The channel of event `i` of track `t`, if it is a channel message. A
/// channel is a `midly::num::u4`.
#[verifier::external_body]
fn channel_of(smf: &midly::Smf, t: usize, i: usize) -> (r: Option<u8>)
    requires
        t < smf_model(*smf).tracks.len(),
        i < smf_model(*smf).tracks[t as int].len(),
    ensures
        r == smf_model(*smf).tracks[t as int][i as int].kind.channel(),
        r matches Some(channel) ==> channel < 16,
{
    match smf.tracks[t][i].kind {
        midly::TrackEventKind::Midi { channel, .. } => Some(channel.as_int()),
        _ => None,
    }
}

/// Event `i` of track `t`, if it is a note-off, a note-on or a key's
/// aftertouch. Keys and velocities are `midly::num::u7`.
#[verifier::external_body]
fn key_message_of(smf: &midly::Smf, t: usize, i: usize) -> (r: Option<ChannelMessage>)
    requires
        t < smf_model(*smf).tracks.len(),
        i < smf_model(*smf).tracks[t as int].len(),
    ensures
        r == smf_model(*smf).tracks[t as int][i as int].kind.key_message(),
        r matches Some(message) ==> message.in_range(),
{
    let midly::TrackEventKind::Midi { message, .. } = smf.tracks[t][i].kind else { return None };
    match message {
        midly::MidiMessage::NoteOff { key, vel } => Some(ChannelMessage::NoteOff { key: key.as_int(), vel: vel.as_int() }),
        midly::MidiMessage::NoteOn { key, vel } => Some(ChannelMessage::NoteOn { key: key.as_int(), vel: vel.as_int() }),
        midly::MidiMessage::Aftertouch { key, vel } => Some(ChannelMessage::Aftertouch { key: key.as_int(), vel: vel.as_int() }),
        _ => None,
    }
}

/// Event `i` of track `t`, if it is a control change, a program change, a
/// channel's aftertouch or a pitch bend. Their data are `midly::num::u7`,
/// a bend is a `midly::num::u14`.
#[verifier::external_body]
fn channel_message_of(smf: &midly::Smf, t: usize, i: usize) -> (r: Option<ChannelMessage>)
    requires
        t < smf_model(*smf).tracks.len(),
        i < smf_model(*smf).tracks[t as int].len(),
    ensures
        r == smf_model(*smf).tracks[t as int][i as int].kind.channel_message(),
        r matches Some(message) ==> message.in_range(),
{
    let midly::TrackEventKind::Midi { message, .. } = smf.tracks[t][i].kind else { return None };
    match message {
        midly::MidiMessage::Controller { controller, value } => Some(ChannelMessage::Controller { controller: controller.as_int(), value: value.as_int() }),
        midly::MidiMessage::ProgramChange { program } => Some(ChannelMessage::ProgramChange { program: program.as_int() }),
        midly::MidiMessage::ChannelAftertouch { vel } => Some(ChannelMessage::ChannelAftertouch { vel: vel.as_int() }),
        midly::MidiMessage::PitchBend { bend } => Some(ChannelMessage::PitchBend { bend: bend.0.as_int() }),
        _ => None,
    }
}

/// Event `i` of track `t` where it is a track name, a tempo or the end of
/// the track, and `Other` where it is anything else. The name's bytes go
/// through `String::from_utf8_lossy`.
#[verifier::external_body]
fn meta_of(smf: &midly::Smf, t: usize, i: usize) -> (r: EventKind)
    requires
        t < smf_model(*smf).tracks.len(),
        i < smf_model(*smf).tracks[t as int].len(),
    ensures
        r == smf_model(*smf).tracks[t as int][i as int].kind.meta_part(),
{
    let midly::TrackEventKind::Meta(meta) = smf.tracks[t][i].kind else { return EventKind::Other };
    match meta {
        midly::MetaMessage::TrackName(name) => EventKind::TrackName(String::from_utf8_lossy(name).into_owned()),
        midly::MetaMessage::Tempo(tempo) => EventKind::Tempo(tempo.as_int()),
        midly::MetaMessage::EndOfTrack => EventKind::EndOfTrack,
        _ => EventKind::Other,
    }
}

/// Event `i` of track `t` of a decoded file.
fn event_of(smf: &midly::Smf, t: usize, i: usize) -> (event: TrackEvent)
    requires
        t < smf_model(*smf).tracks.len(),
        i < smf_model(*smf).tracks[t as int].len(),
    ensures
        event == smf_model(*smf).tracks[t as int][i as int],
        event.kind.in_range(),
{
    let ghost model = smf_model(*smf).tracks[t as int][i as int];
    let delta = delta_of(smf, t, i);
    let kind = match channel_of(smf, t, i) {
        Some(channel) => {
            match key_message_of(smf, t, i) {
                Some(message) => EventKind::Channel { channel, message },
                None => match channel_message_of(smf, t, i) {
                    Some(message) => EventKind::Channel { channel, message },
                    None => {
                        proof {
                            assert(false);
                        }
                        EventKind::Other
                    },
                },
            }
        },
        None => meta_of(smf, t, i),
    };
    assert(kind == model.kind);
    TrackEvent { delta, kind }
}

/// The events of track `t` of a decoded file.
fn events_of(smf: &midly::Smf, t: usize) -> (events: Vec<TrackEvent>)
    requires
        t < smf_model(*smf).tracks.len(),
    ensures
        events@ == smf_model(*smf).tracks[t as int],
        forall|i: int| 0 <= i < events.len() ==> (#[trigger] events@[i]).kind.in_range(),
{
    let n = track_len(smf, t);
    let mut events: Vec<TrackEvent> = Vec::new();
    let mut i: usize = 0;
    while i < n
        invariant
            t < smf_model(*smf).tracks.len(),
            n == smf_model(*smf).tracks[t as int].len(),
            i <= n,
            events@ == smf_model(*smf).tracks[t as int].take(i as int),
            forall|k: int| 0 <= k < events.len() ==> (#[trigger] events@[k]).kind.in_range(),
        decreases n - i,
    {
        let event = event_of(smf, t, i);
        events.push(event);
        assert(events@ =~= smf_model(*smf).tracks[t as int].take(i + 1));
        i += 1;
    }
    assert(smf_model(*smf).tracks[t as int].take(n as int) =~= smf_model(*smf).tracks[t as int]);
    events
}

/// A file read into plain values: header and events.
pub struct SmfData {
    pub format: FileFormat,
    pub division: Division,
    pub tracks: Vec<Vec<TrackEvent>>,
}

/// The tracks of a file as sequences of events.
pub open spec fn tracks_view(tracks: Seq<Vec<TrackEvent>>) -> Seq<Seq<TrackEvent>> {
    tracks.map_values(|t: Vec<TrackEvent>| t@)
}

impl View for SmfData {
    type V = SmfModel;

    open spec fn view(&self) -> SmfModel {
        SmfModel { format: self.format, division: self.division, tracks: tracks_view(self.tracks@) }
    }
}

/// Decodes the bytes of a Standard MIDI File into header and events.
/// `None` where the decoder reports an error.
pub fn read_smf(bytes: &[u8]) -> (r: Option<SmfData>)
    ensures
        r is Some <==> decoded(bytes@) is Some,
        r matches Some(data) ==> {
            &&& decoded(bytes@) matches Some(model)
            &&& data.format == model.format
            &&& data.division == model.division
            &&& tracks_view(data.tracks@) == model.tracks
            &&& events_in_range(model.tracks)
            &&& (data.division matches Division::Timecode { fps, .. } ==> fps == 24 || fps == 25 || fps
                == 29 || fps == 30)
        },
{
    match decode(bytes) {
        Err(_) => None,
        Ok(smf) => {
            let format = format_of(&smf);
            let division = division_of(&smf);
            let n = track_count(&smf);
            let mut tracks: Vec<Vec<TrackEvent>> = Vec::new();
            let mut t: usize = 0;
            while t < n
                invariant
                    n == smf_model(smf).tracks.len(),
                    t <= n,
                    tracks_view(tracks@) == smf_model(smf).tracks.take(t as int),
                    events_in_range(tracks_view(tracks@)),
                decreases n - t,
            {
                let ghost before = tracks_view(tracks@);
                let events = events_of(&smf, t);
                tracks.push(events);
                assert(tracks_view(tracks@) =~= before.push(events@));
                assert(tracks_view(tracks@) =~= smf_model(smf).tracks.take(t + 1));
                t += 1;
            }
            assert(smf_model(smf).tracks.take(n as int) =~= smf_model(smf).tracks);
            Some(SmfData { format, division, tracks })
        },
    }
}

} // verus!
