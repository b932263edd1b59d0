//! Reading the events of a file into tracks.
//!
//! A reading walks the events of one track after the other. It keeps the
//! time and tempo of the track it is in, the tracks that take the events,
//! and, for a file of parallel tracks, the tracks that have ended.

use vstd::prelude::*;
use vstd::string::*;
use crate::gm::{gm_name, gm_program_to_name, DRUMSET_NAME, DRUM_CHANNEL};
use crate::midi::{MIDIEvent, MidiError, Ratio};
use crate::smf::{ChannelMessage, EventKind, FileFormat, TrackEvent};
use crate::tempo::{in_force, start_tempo, tempo_in_force, DEFAULT_TEMPO};
use crate::text::{decimal, push_decimal, string_of};
use crate::track::{MIDITrack, TrackView};

verus! {

/// The name that a track without a name gets when its `n`-th of the file
/// takes a channel message: `Track n`.
pub open spec fn default_name(n: int) -> Seq<char> {
    seq!['T', 'r', 'a', 'c', 'k', ' '] + decimal(n as nat)
}

/// The name that a program change gives a track: `Drumset` on the
/// percussion channel, else the General MIDI name of the program.
pub open spec fn program_name(channel: u8, program: u8) -> Seq<char> {
    if channel == DRUM_CHANNEL {
        DRUMSET_NAME@
    } else {
        gm_name(program as int)
    }
}

/// The pitch-wheel value of a raw bend: `bend / 8192 - 1`.
pub open spec fn bend_value(bend: u16) -> Ratio {
    Ratio { num: (bend - 8192) as i32, den: 8192 }
}

/// The aftertouch value of a raw pressure: `vel / 127`.
pub open spec fn touch_value(vel: u8) -> Ratio {
    Ratio { num: vel as i32, den: 127 }
}

/// The tracks of `tracks` as mathematical values.
pub open spec fn views(tracks: Seq<MIDITrack>) -> Seq<TrackView> {
    tracks.map_values(|t: MIDITrack| t@)
}

/// The state of a reading.
#[verifier::ext_equal]
pub struct Reading {
    /// Time units since the start of the track.
    pub time: int,
    /// Tempo in force, in microseconds per beat.
    pub tempo: u32,
    /// How many default names were given so far.
    pub named: int,
    /// Which of `tracks` takes the events.
    pub current: int,
    /// The tracks that take events: sixteen, one per channel, for a
    /// single-track file; one for a file of parallel tracks.
    pub tracks: Seq<TrackView>,
    /// For each of `tracks`, whether its name is a default name.
    pub placeholder: Seq<bool>,
    /// The tracks that have ended.
    pub finished: Seq<TrackView>,
}

impl Reading {
    /// The reading before the first track.
    pub open spec fn start(format: FileFormat) -> Reading {
        let count: nat = if format is SingleTrack {
            16
        } else {
            1
        };
        Reading {
            time: 0,
            tempo: DEFAULT_TEMPO,
            named: 0,
            current: 0,
            tracks: Seq::new(count, |k: int| TrackView::empty(seq![])),
            placeholder: Seq::new(count, |k: int| false),
            finished: seq![],
        }
    }

    /// The reading at the start of the next track: time starts over, and
    /// the tempo is that of the mark in force at time 0, the default where
    /// no mark stands there. A file of parallel tracks starts a new empty
    /// track; a single-track file goes on with its sixteen, the first one
    /// current.
    pub open spec fn begin_track(self, format: FileFormat, marks: Seq<(u64, u32)>) -> Reading {
        if format is SingleTrack {
            Reading { time: 0, tempo: start_tempo(marks), current: 0, ..self }
        } else {
            Reading {
                time: 0,
                tempo: start_tempo(marks),
                current: 0,
                tracks: seq![TrackView::empty(seq![])],
                placeholder: seq![false],
                ..self
            }
        }
    }

    /// The state is in order: a current track exists, and every track has
    /// its placeholder mark.
    pub open spec fn wf(self, format: FileFormat) -> bool {
        &&& 0 <= self.time <= u64::MAX
        &&& 0 <= self.named <= u64::MAX
        &&& 0 <= self.current < self.tracks.len()
        &&& self.tracks.len() == self.placeholder.len()
        &&& self.tracks.len() == (if format is SingleTrack {
            16int
        } else {
            1int
        })
    }

    /// The track that takes the events.
    pub open spec fn track(self) -> TrackView {
        self.tracks[self.current]
    }

    /// The reading with the current track replaced.
    pub open spec fn with_track(self, track: TrackView) -> Reading {
        Reading { tracks: self.tracks.update(self.current, track), ..self }
    }

    /// The reading with the current track renamed.
    pub open spec fn renamed(self, name: Seq<char>, placeholder: bool) -> Reading {
        Reading {
            tracks: self.tracks.update(self.current, self.track().named(name)),
            placeholder: self.placeholder.update(self.current, placeholder),
            ..self
        }
    }

    /// The reading after a note-off on the current track, or the error
    /// where no note-on waits for it.
    pub open spec fn note_off(self, channel: u8, key: u8) -> Result<Reading, MidiError> {
        if self.track().has_open(channel, key) {
            Ok(self.with_track(self.track().note_off(channel, key, self.time as u64)))
        } else {
            Err(MidiError::UnpairedNoteOff)
        }
    }

    /// The reading after a channel message on the current track.
    pub open spec fn message(self, channel: u8, message: ChannelMessage) -> Result<
        Reading,
        MidiError,
    > {
        let time = self.time as u64;
        match message {
            ChannelMessage::NoteOn { key, vel } => if vel == 0 {
                self.note_off(channel, key)
            } else {
                Ok(self.with_track(self.track().note_on(channel, key, vel, time)))
            },
            ChannelMessage::NoteOff { key, vel } => self.note_off(channel, key),
            ChannelMessage::ProgramChange { program } => if self.track().name.len() == 0
                || self.placeholder[self.current] {
                Ok(self.renamed(program_name(channel, program), false))
            } else {
                Ok(self)
            },
            ChannelMessage::Controller { controller, value } => Ok(
                self.with_track(
                    self.track().control(
                        controller,
                        MIDIEvent { channel, value: Ratio { num: value as i32, den: 1 }, time },
                    ),
                ),
            ),
            ChannelMessage::PitchBend { bend } => Ok(
                self.with_track(
                    self.track().bend(MIDIEvent { channel, value: bend_value(bend), time }),
                ),
            ),
            ChannelMessage::Aftertouch { key, vel } => Ok(
                self.with_track(
                    self.track().touch(MIDIEvent { channel, value: touch_value(vel), time }),
                ),
            ),
            ChannelMessage::ChannelAftertouch { vel } => Ok(self),
        }
    }

    /// The reading with the tempo of the mark in force at its time; as it
    /// is where every mark is later.
    pub open spec fn retimed(self, marks: Seq<(u64, u32)>) -> Reading {
        match in_force(marks, self.time as u64, marks.len() as int) {
            Some(mark) => Reading { tempo: mark.1, ..self },
            None => self,
        }
    }

    /// The reading after one more event.
    ///
    /// Time moves on by the event's ticks at the tempo in force. A channel
    /// message goes to the current track, which for a single-track file is
    /// the track of its channel; a track without a name first gets the
    /// next default name. After a channel message a file of parallel
    /// tracks takes the tempo of the mark in force at its time. A track
    /// name names the current track, a tempo event sets the tempo, and the
    /// end of a track of a file of parallel tracks puts the current track
    /// among the finished ones.
    pub open spec fn event(self, event: TrackEvent, format: FileFormat, marks: Seq<(u64, u32)>) -> Result<
        Reading,
        MidiError,
    > {
        let time = self.time + event.delta * self.tempo;
        if time > u64::MAX {
            Err(MidiError::InvalidFile)
        } else {
            let now = Reading { time, ..self };
            match event.kind {
                EventKind::Channel { channel, message } => {
                    let here = if format is SingleTrack {
                        Reading { current: channel as int, ..now }
                    } else {
                        now
                    };
                    if here.track().name.len() == 0 && here.named + 1 > u64::MAX {
                        Err(MidiError::InvalidFile)
                    } else {
                        let named = if here.track().name.len() == 0 {
                            Reading { named: here.named + 1, ..here }.renamed(
                                default_name(here.named + 1),
                                true,
                            )
                        } else {
                            here
                        };
                        match named.message(channel, message) {
                            Err(e) => Err(e),
                            Ok(after) => if format is Parallel {
                                Ok(after.retimed(marks))
                            } else {
                                Ok(after)
                            },
                        }
                    }
                },
                EventKind::TrackName(name) => Ok(now.renamed(name@, false)),
                EventKind::Tempo(tempo) => Ok(Reading { tempo, ..now }),
                EventKind::EndOfTrack => if format is Parallel {
                    Ok(Reading { finished: now.finished.push(now.track()), ..now })
                } else {
                    Ok(now)
                },
                EventKind::Other => Ok(now),
            }
        }
    }

    /// The reading after the first `n` events of `events`, or the first
    /// error on the way.
    pub open spec fn run(self, events: Seq<TrackEvent>, n: int, format: FileFormat, marks: Seq<(u64, u32)>) -> Result<
        Reading,
        MidiError,
    >
        decreases n,
    {
        if n <= 0 {
            Ok(self)
        } else {
            match self.run(events, n - 1, format, marks) {
                Err(e) => Err(e),
                Ok(before) => before.event(events[n - 1], format, marks),
            }
        }
    }

    /// The reading after the first `m` tracks of `tracks`, or the first
    /// error on the way.
    pub open spec fn run_all(
        self,
        tracks: Seq<Seq<TrackEvent>>,
        m: int,
        format: FileFormat,
        marks: Seq<(u64, u32)>,
    ) -> Result<Reading, MidiError>
        decreases m,
    {
        if m <= 0 {
            Ok(self)
        } else {
            match self.run_all(tracks, m - 1, format, marks) {
                Err(e) => Err(e),
                Ok(before) => before.begin_track(format, marks).run(
                    tracks[m - 1],
                    tracks[m - 1].len() as int,
                    format,
                    marks,
                ),
            }
        }
    }

    /// The tracks that the reading has gathered: the sixteen channel
    /// tracks of a single-track file, the finished tracks of a file of
    /// parallel tracks.
    pub open spec fn gathered(self, format: FileFormat) -> Seq<TrackView> {
        if format is SingleTrack {
            self.tracks
        } else {
            self.finished
        }
    }
}

/// An error on the way stays the result of every longer run.
pub proof fn lemma_run_error(
    start: Reading,
    events: Seq<TrackEvent>,
    k: int,
    n: int,
    format: FileFormat,
    marks: Seq<(u64, u32)>,
)
    requires
        0 <= k <= n,
        start.run(events, k, format, marks) is Err,
    ensures
        start.run(events, n, format, marks) == start.run(events, k, format, marks),
    decreases n,
{
    if k < n {
        lemma_run_error(start, events, k, n - 1, format, marks);
    }
}

/// An error on the way stays the result of a run over more tracks.
pub proof fn lemma_run_all_error(
    start: Reading,
    tracks: Seq<Seq<TrackEvent>>,
    k: int,
    m: int,
    format: FileFormat,
    marks: Seq<(u64, u32)>,
)
    requires
        0 <= k <= m,
        start.run_all(tracks, k, format, marks) is Err,
    ensures
        start.run_all(tracks, m, format, marks) == start.run_all(tracks, k, format, marks),
    decreases m,
{
    if k < m {
        lemma_run_all_error(start, tracks, k, m - 1, format, marks);
    }
}

/// The executable state of a reading.
pub struct Reader {
    pub time: u64,
    pub tempo: u32,
    pub named: u64,
    pub current: usize,
    pub tracks: Vec<MIDITrack>,
    pub placeholder: Vec<bool>,
    pub finished: Vec<MIDITrack>,
}

impl View for Reader {
    type V = Reading;

    open spec fn view(&self) -> Reading {
        Reading {
            time: self.time as int,
            tempo: self.tempo,
            named: self.named as int,
            current: self.current as int,
            tracks: views(self.tracks@),
            placeholder: self.placeholder@,
            finished: views(self.finished@),
        }
    }
}

/// An empty track without a name.
pub fn unnamed_track() -> (track: MIDITrack)
    ensures
        track@ == TrackView::empty(seq![]),
{
    let track = MIDITrack::new("");
    proof {
        reveal_strlit("");
        assert(""@ =~= Seq::<char>::empty());
    }
    track
}

/// The default name number `n`.
pub fn make_default_name(n: u64) -> (name: String)
    ensures
        name@ == default_name(n as int),
{
    let mut out: Vec<char> = Vec::new();
    out.push('T');
    out.push('r');
    out.push('a');
    out.push('c');
    out.push('k');
    out.push(' ');
    assert(out@ =~= seq!['T', 'r', 'a', 'c', 'k', ' ']);
    push_decimal(&mut out, n);
    string_of(&out)
}

impl Reader {
    /// The reader before the first track.
    pub fn start(format: FileFormat) -> (reader: Self)
        ensures
            reader@ == Reading::start(format),
            reader@.wf(format),
    {
        let count: usize = match format {
            FileFormat::SingleTrack => 16,
            _ => 1,
        };
        let mut tracks: Vec<MIDITrack> = Vec::new();
        let mut placeholder: Vec<bool> = Vec::new();
        let mut k: usize = 0;
        while k < count
            invariant
                k <= count,
                tracks.len() == k,
                placeholder.len() == k,
                forall|i: int| 0 <= i < k ==> (#[trigger] tracks@[i])@ == TrackView::empty(seq![]),
                forall|i: int| 0 <= i < k ==> !placeholder@[i],
            decreases count - k,
        {
            tracks.push(unnamed_track());
            placeholder.push(false);
            k += 1;
        }
        let reader = Reader {
            time: 0,
            tempo: DEFAULT_TEMPO,
            named: 0,
            current: 0,
            tracks,
            placeholder,
            finished: Vec::new(),
        };
        assert(reader@ =~= Reading::start(format));
        reader
    }

    /// Starts the next track.
    pub fn begin_track(&mut self, format: FileFormat, marks: &Vec<(u64, u32)>)
        requires
            old(self)@.wf(format),
        ensures
            final(self)@ == old(self)@.begin_track(format, marks@),
            final(self)@.wf(format),
    {
        self.time = 0;
        self.tempo = match tempo_in_force(marks, 0) {
            Some(mark) => mark.1,
            None => DEFAULT_TEMPO,
        };
        self.current = 0;
        match format {
            FileFormat::SingleTrack => {},
            _ => {
                let mut tracks: Vec<MIDITrack> = Vec::new();
                tracks.push(unnamed_track());
                let mut placeholder: Vec<bool> = Vec::new();
                placeholder.push(false);
                self.tracks = tracks;
                self.placeholder = placeholder;
                assert(views(self.tracks@) =~= seq![TrackView::empty(seq![])]);
                assert(self.placeholder@ =~= seq![false]);
            },
        }
        assert(self@ =~= old(self)@.begin_track(format, marks@));
    }

    /// Names the current track.
    fn rename(&mut self, name: String, placeholder: bool, Ghost(format): Ghost<FileFormat>)
        requires
            old(self)@.wf(format),
        ensures
            final(self)@ == old(self)@.renamed(name@, placeholder),
            final(self)@.wf(format),
    {
        let at = self.current;
        let ghost before = self.tracks@[at as int]@;
        self.tracks[at].name = name;
        self.placeholder.set(at, placeholder);
        assert(self.tracks@[at as int]@ =~= before.named(name@));
        assert(views(self.tracks@) =~= views(old(self).tracks@).update(
            at as int,
            before.named(name@),
        ));
        assert(self@ =~= old(self)@.renamed(name@, placeholder));
    }

    /// Takes a note-off on the current track.
    fn note_off(&mut self, channel: u8, key: u8, vel: u8, Ghost(format): Ghost<FileFormat>) -> (r: Result<
        (),
        MidiError,
    >)
        requires
            old(self)@.wf(format),
        ensures
            match r {
                Ok(_) => old(self)@.note_off(channel, key) == Ok::<Reading, MidiError>(final(self)@)
                    && final(self)@.wf(format),
                Err(e) => old(self)@.note_off(channel, key) == Err::<Reading, MidiError>(e),
            },
    {
        let at = self.current;
        let time = self.time;
        let ghost before = self.tracks@[at as int]@;
        let r = self.tracks[at].add_note_off(channel, key, vel, time);
        match r {
            Ok(_) => {
                assert(views(self.tracks@) =~= views(old(self).tracks@).update(
                    at as int,
                    before.note_off(channel, key, time),
                ));
                assert(self@ =~= old(self)@.with_track(before.note_off(channel, key, time)));
                Ok(())
            },
            Err(e) => Err(e),
        }
    }

    /// Takes a channel message on the current track.
    fn message(&mut self, channel: u8, message: ChannelMessage, Ghost(format): Ghost<FileFormat>) -> (r:
        Result<(), MidiError>)
        requires
            old(self)@.wf(format),
            message.in_range(),
        ensures
            match r {
                Ok(_) => old(self)@.message(channel, message) == Ok::<Reading, MidiError>(
                    final(self)@,
                ) && final(self)@.wf(format),
                Err(e) => old(self)@.message(channel, message) == Err::<Reading, MidiError>(e),
            },
    {
        let at = self.current;
        let time = self.time;
        let ghost before = self.tracks@[at as int]@;
        match message {
            ChannelMessage::NoteOn { key, vel } => {
                if vel == 0 {
                    self.note_off(channel, key, vel, Ghost(format))
                } else {
                    self.tracks[at].add_note_on(channel, key, vel, time);
                    assert(views(self.tracks@) =~= views(old(self).tracks@).update(
                        at as int,
                        before.note_on(channel, key, vel, time),
                    ));
                    assert(self@ =~= old(self)@.with_track(before.note_on(channel, key, vel, time)));
                    Ok(())
                }
            },
            ChannelMessage::NoteOff { key, vel } => self.note_off(channel, key, vel, Ghost(format)),
            ChannelMessage::ProgramChange { program } => {
                assert(self.tracks@[at as int]@.name == self.tracks@[at as int].name@);
                if self.tracks[at].name.as_str().unicode_len() == 0 || self.placeholder[at] {
                    let name = if channel == DRUM_CHANNEL {
                        String::from_str(DRUMSET_NAME)
                    } else {
                        gm_program_to_name(program as i32)
                    };
                    self.rename(name, false, Ghost(format));
                }
                Ok(())
            },
            ChannelMessage::Controller { controller, value } => {
                self.tracks[at].add_control_change(controller, channel, value, time);
                let ghost event = MIDIEvent {
                    channel,
                    value: Ratio { num: value as i32, den: 1 },
                    time,
                };
                assert(views(self.tracks@) =~= views(old(self).tracks@).update(
                    at as int,
                    before.control(controller, event),
                ));
                assert(self@ =~= old(self)@.with_track(before.control(controller, event)));
                Ok(())
            },
            ChannelMessage::PitchBend { bend } => {
                let value = Ratio { num: bend as i32 - 8192, den: 8192 };
                self.tracks[at].add_pitchwheel(channel, value, time);
                let ghost event = MIDIEvent { channel, value, time };
                assert(views(self.tracks@) =~= views(old(self).tracks@).update(
                    at as int,
                    before.bend(event),
                ));
                assert(self@ =~= old(self)@.with_track(before.bend(event)));
                Ok(())
            },
            ChannelMessage::Aftertouch { key, vel } => {
                let value = Ratio { num: vel as i32, den: 127 };
                self.tracks[at].add_aftertouch(channel, value, time);
                let ghost event = MIDIEvent { channel, value, time };
                assert(views(self.tracks@) =~= views(old(self).tracks@).update(
                    at as int,
                    before.touch(event),
                ));
                assert(self@ =~= old(self)@.with_track(before.touch(event)));
                Ok(())
            },
            ChannelMessage::ChannelAftertouch { vel } => Ok(()),
        }
    }

    /// Takes the next event.
    pub fn event(&mut self, event: &TrackEvent, format: FileFormat, marks: &Vec<(u64, u32)>) -> (r: Result<
        (),
        MidiError,
    >)
        requires
            old(self)@.wf(format),
            event.kind.in_range(),
        ensures
            match r {
                Ok(_) => old(self)@.event(*event, format, marks@) == Ok::<Reading, MidiError>(
                    final(self)@,
                ) && final(self)@.wf(format),
                Err(e) => old(self)@.event(*event, format, marks@) == Err::<Reading, MidiError>(e),
            },
    {
        assert(event.delta * self.tempo <= 0xffff_ffff * 0xffff_ffff) by (nonlinear_arith)
            requires
                0 <= event.delta <= 0xffff_ffff,
                0 <= self.tempo <= 0xffff_ffff,
        ;
        assert(event.delta * self.tempo >= 0) by (nonlinear_arith)
            requires
                0 <= event.delta,
                0 <= self.tempo,
        ;
        let step: u64 = event.delta as u64 * self.tempo as u64;
        match self.time.checked_add(step) {
            None => {
                return Err(MidiError::InvalidFile);
            },
            Some(time) => {
                self.time = time;
            },
        }
        let ghost now = self@;
        assert(now =~= Reading { time: old(self)@.time + event.delta * old(self)@.tempo, ..old(self)@ });
        match &event.kind {
            EventKind::Channel { channel, message } => {
                match format {
                    FileFormat::SingleTrack => {
                        self.current = *channel as usize;
                    },
                    _ => {},
                }
                let ghost here = self@;
                let at = self.current;
                assert(self.tracks@[at as int]@.name == self.tracks@[at as int].name@);
                if self.tracks[at].name.as_str().unicode_len() == 0 {
                    if self.named == u64::MAX {
                        return Err(MidiError::InvalidFile);
                    }
                    self.named = self.named + 1;
                    let name = make_default_name(self.named);
                    self.rename(name, true, Ghost(format));
                }
                let ghost named = self@;
                match self.message(*channel, *message, Ghost(format)) {
                    Err(e) => Err(e),
                    Ok(_) => {
                        match format {
                            FileFormat::Parallel => {
                                match tempo_in_force(marks, self.time) {
                                    Some(mark) => {
                                        self.tempo = mark.1;
                                    },
                                    None => {},
                                }
                                assert(self@ =~= old(self)@.event(*event, format, marks@)->Ok_0);
                            },
                            _ => {},
                        }
                        Ok(())
                    },
                }
            },
            EventKind::TrackName(name) => {
                self.rename(name.clone(), false, Ghost(format));
                Ok(())
            },
            EventKind::Tempo(tempo) => {
                self.tempo = *tempo;
                assert(self@ =~= Reading { tempo: *tempo, ..now });
                Ok(())
            },
            EventKind::EndOfTrack => {
                match format {
                    FileFormat::Parallel => {
                        let ghost before = views(self.finished@);
                        let copy = self.tracks[self.current].duplicate();
                        self.finished.push(copy);
                        assert(views(self.finished@) =~= before.push(now.track()));
                        assert(self@ =~= Reading { finished: now.finished.push(now.track()), ..now });
                    },
                    _ => {},
                }
                Ok(())
            },
            EventKind::Other => Ok(()),
        }
    }
}

} // verus!
