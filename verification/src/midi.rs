//! The in-memory model of a MIDI file: notes, continuous events and tracks.
//!
//! Times are exact. A file fixes how many time units make one second
//! (`MIDIFile::units_per_second`); every `time`, `time_on` and `time_off`
//! counts those units. Event values are exact fractions.

use vstd::prelude::*;
use vstd::std_specs::cmp::PartialEqSpecImpl;
use vstd::std_specs::cmp::PartialOrdSpecImpl;
use core::cmp::Ordering;

verus! {

/// What can go wrong while a MIDI file is read.
#[derive(Clone, Copy, Debug, PartialEq, Eq, Structural)]
pub enum MidiError {
    /// The bytes are no Standard MIDI File, or its timeline cannot be held.
    InvalidFile,
    /// The file is of the sequential format.
    UnsupportedFormat,
    /// A note-off came for a key that no open note-on holds.
    UnpairedNoteOff,
}

/// One note: a key held on a channel from `time_on` to `time_off`.
#[derive(Clone, Copy, Debug)]
pub struct MIDINote {
    pub channel: u8,
    pub note_number: u8,
    pub velocity: u8,
    pub time_on: u64,
    /// `None` while the note-off has not come.
    pub time_off: Option<u64>,
}

impl MIDINote {
    pub fn new(channel: u8, note_number: u8, velocity: u8, time_on: u64, time_off: Option<u64>) -> (note:
        Self)
        ensures
            note == (MIDINote { channel, note_number, velocity, time_on, time_off }),
    {
        MIDINote { channel, note_number, velocity, time_on, time_off }
    }

    /// The note has its end, and does not end before it starts.
    pub open spec fn well_timed(self) -> bool {
        self.time_off matches Some(off) && self.time_on <= off
    }
}

/// Notes are compared by the time at which they start.
impl PartialEq for MIDINote {
    fn eq(&self, other: &Self) -> (r: bool) {
        self.time_on == other.time_on
    }
}

impl PartialEqSpecImpl for MIDINote {
    open spec fn obeys_eq_spec() -> bool {
        true
    }

    open spec fn eq_spec(&self, other: &Self) -> bool {
        self.time_on == other.time_on
    }
}

/// Notes are ordered by the time at which they start.
impl PartialOrd for MIDINote {
    fn partial_cmp(&self, other: &Self) -> (r: Option<Ordering>) {
        if self.time_on < other.time_on {
            Some(Ordering::Less)
        } else if self.time_on == other.time_on {
            Some(Ordering::Equal)
        } else {
            Some(Ordering::Greater)
        }
    }
}

impl PartialOrdSpecImpl for MIDINote {
    open spec fn obeys_partial_cmp_spec() -> bool {
        true
    }

    open spec fn partial_cmp_spec(&self, other: &Self) -> Option<Ordering> {
        if self.time_on < other.time_on {
            Some(Ordering::Less)
        } else if self.time_on == other.time_on {
            Some(Ordering::Equal)
        } else {
            Some(Ordering::Greater)
        }
    }
}

/// An exact fraction `num / den`.
#[derive(Clone, Copy, Debug, PartialEq, Eq, Structural)]
pub struct Ratio {
    pub num: i32,
    pub den: u32,
}

/// One continuous event: a controller, pitch-wheel or aftertouch value
/// at a time.
#[derive(Clone, Copy, Debug)]
pub struct MIDIEvent {
    pub channel: u8,
    pub value: Ratio,
    pub time: u64,
}

impl MIDIEvent {
    pub fn new(channel: u8, value: Ratio, time: u64) -> (event: Self)
        ensures
            event == (MIDIEvent { channel, value, time }),
    {
        MIDIEvent { channel, value, time }
    }
}

/// Events are compared by their time.
impl PartialEq for MIDIEvent {
    fn eq(&self, other: &Self) -> (r: bool) {
        self.time == other.time
    }
}

impl PartialEqSpecImpl for MIDIEvent {
    open spec fn obeys_eq_spec() -> bool {
        true
    }

    open spec fn eq_spec(&self, other: &Self) -> bool {
        self.time == other.time
    }
}

/// Events are ordered by their time.
impl PartialOrd for MIDIEvent {
    fn partial_cmp(&self, other: &Self) -> (r: Option<Ordering>) {
        if self.time < other.time {
            Some(Ordering::Less)
        } else if self.time == other.time {
            Some(Ordering::Equal)
        } else {
            Some(Ordering::Greater)
        }
    }
}

impl PartialOrdSpecImpl for MIDIEvent {
    open spec fn obeys_partial_cmp_spec() -> bool {
        true
    }

    open spec fn partial_cmp_spec(&self, other: &Self) -> Option<Ordering> {
        if self.time < other.time {
            Some(Ordering::Less)
        } else if self.time == other.time {
            Some(Ordering::Equal)
        } else {
            Some(Ordering::Greater)
        }
    }
}

} // verus!
