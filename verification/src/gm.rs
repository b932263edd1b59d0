//! General MIDI program names.
//!
//! General MIDI groups its 128 programs into sixteen families of eight.

use vstd::prelude::*;
use vstd::string::*;

verus! {

/// The name of the channel that General MIDI reserves for percussion.
pub const DRUMSET_NAME: &'static str = "Drumset";

/// The zero-based channel that General MIDI reserves for percussion.
pub const DRUM_CHANNEL: u8 = 9;

/// Pianos: programs 0 to 7.
pub const PIANO: [&'static str; 8] = [
    "Acoustic Grand Piano", "Bright Acoustic Piano", "Electric Grand Piano", "Honky-tonk Piano",
    "Electric Piano 1", "Electric Piano 2", "Harpsichord", "Clavinet",
];

/// Chromatic percussion: programs 8 to 15.
pub const CHROMATIC_PERCUSSION: [&'static str; 8] = [
    "Celesta", "Glockenspiel", "Music Box", "Vibraphone",
    "Marimba", "Xylophone", "Tubular Bells", "Dulcimer",
];

/// Organs: programs 16 to 23.
pub const ORGAN: [&'static str; 8] = [
    "Drawbar Organ", "Percussive Organ", "Rock Organ", "Church Organ",
    "Reed Organ", "Accordion", "Harmonica", "Tango Accordion",
];

/// Guitars: programs 24 to 31.
pub const GUITAR: [&'static str; 8] = [
    "Acoustic Guitar (nylon)", "Acoustic Guitar (steel)", "Electric Guitar (jazz)", "Electric Guitar (clean)",
    "Electric Guitar (muted)", "Overdriven Guitar", "Distortion Guitar", "Guitar Harmonics",
];

/// Basses: programs 32 to 39.
pub const BASS: [&'static str; 8] = [
    "Acoustic Bass", "Electric Bass (finger)", "Electric Bass (pick)", "Fretless Bass",
    "Slap Bass 1", "Slap Bass 2", "Synth Bass 1", "Synth Bass 2",
];

/// Solo strings: programs 40 to 47.
pub const STRINGS: [&'static str; 8] = [
    "Violin", "Viola", "Cello", "Contrabass",
    "Tremolo Strings", "Pizzicato Strings", "Orchestral Harp", "Timpani",
];

/// Ensembles: programs 48 to 55.
pub const ENSEMBLE: [&'static str; 8] = [
    "String Ensemble 1", "String Ensemble 2", "Synth Strings 1", "Synth Strings 2",
    "Choir Aahs", "Voice Oohs", "Synth Voice", "Orchestra Hit",
];

/// Brass: programs 56 to 63.
pub const BRASS: [&'static str; 8] = [
    "Trumpet", "Trombone", "Tuba", "Muted Trumpet",
    "French Horn", "Brass Section", "Synth Brass 1", "Synth Brass 2",
];

/// Reeds: programs 64 to 71.
pub const REED: [&'static str; 8] = [
    "Soprano Sax", "Alto Sax", "Tenor Sax", "Baritone Sax",
    "Oboe", "English Horn", "Bassoon", "Clarinet",
];

/// Pipes: programs 72 to 79.
pub const PIPE: [&'static str; 8] = [
    "Piccolo", "Flute", "Recorder", "Pan Flute",
    "Blown Bottle", "Shakuhachi", "Whistle", "Ocarina",
];

/// Synth leads: programs 80 to 87.
pub const SYNTH_LEAD: [&'static str; 8] = [
    "Lead 1 (square)", "Lead 2 (sawtooth)", "Lead 3 (calliope)", "Lead 4 (chiff)",
    "Lead 5 (charang)", "Lead 6 (voice)", "Lead 7 (fifths)", "Lead 8 (bass + lead)",
];

/// Synth pads: programs 88 to 95.
pub const SYNTH_PAD: [&'static str; 8] = [
    "Pad 1 (new age)", "Pad 2 (warm)", "Pad 3 (polysynth)", "Pad 4 (choir)",
    "Pad 5 (bowed)", "Pad 6 (metallic)", "Pad 7 (halo)", "Pad 8 (sweep)",
];

/// Synth effects: programs 96 to 103.
pub const SYNTH_EFFECTS: [&'static str; 8] = [
    "FX 1 (rain)", "FX 2 (soundtrack)", "FX 3 (crystal)", "FX 4 (atmosphere)",
    "FX 5 (brightness)", "FX 6 (goblins)", "FX 7 (echoes)", "FX 8 (sci-fi)",
];

/// Ethnic instruments: programs 104 to 111.
pub const ETHNIC: [&'static str; 8] = [
    "Sitar", "Banjo", "Shamisen", "Koto",
    "Kalimba", "Bagpipe", "Fiddle", "Shanai",
];

/// Percussive instruments: programs 112 to 119.
pub const PERCUSSIVE: [&'static str; 8] = [
    "Tinkle Bell", "Agogo", "Steel Drums", "Woodblock",
    "Taiko Drum", "Melodic Tom", "Synth Drum", "Reverse Cymbal",
];

/// Sound effects: programs 120 to 127.
pub const SOUND_EFFECTS: [&'static str; 8] = [
    "Guitar Fret Noise", "Breath Noise", "Seashore", "Bird Tweet",
    "Telephone Ring", "Helicopter", "Applause", "Gunshot",
];

/// The names of family `family` in `0..16`.
pub open spec fn gm_family(family: int) -> [&'static str; 8] {
    if family == 0 {
        PIANO
    } else if family == 1 {
        CHROMATIC_PERCUSSION
    } else if family == 2 {
        ORGAN
    } else if family == 3 {
        GUITAR
    } else if family == 4 {
        BASS
    } else if family == 5 {
        STRINGS
    } else if family == 6 {
        ENSEMBLE
    } else if family == 7 {
        BRASS
    } else if family == 8 {
        REED
    } else if family == 9 {
        PIPE
    } else if family == 10 {
        SYNTH_LEAD
    } else if family == 11 {
        SYNTH_PAD
    } else if family == 12 {
        SYNTH_EFFECTS
    } else if family == 13 {
        ETHNIC
    } else if family == 14 {
        PERCUSSIVE
    } else {
        SOUND_EFFECTS
    }
}

/// The instrument name of a program number in `0..=127`.
pub open spec fn gm_name(program: int) -> Seq<char> {
    gm_family(program / 8)[program % 8]@
}

/// The General MIDI instrument name of program `pc_num`.
pub fn gm_program_to_name(pc_num: i32) -> (name: String)
    requires
        0 <= pc_num <= 127,
    ensures
        name@ == gm_name(pc_num as int),
{
    let family = pc_num / 8;
    let member = (pc_num % 8) as usize;
    let names = match family {
        0 => PIANO,
        1 => CHROMATIC_PERCUSSION,
        2 => ORGAN,
        3 => GUITAR,
        4 => BASS,
        5 => STRINGS,
        6 => ENSEMBLE,
        7 => BRASS,
        8 => REED,
        9 => PIPE,
        10 => SYNTH_LEAD,
        11 => SYNTH_PAD,
        12 => SYNTH_EFFECTS,
        13 => ETHNIC,
        14 => PERCUSSIVE,
        _ => SOUND_EFFECTS,
    };
    String::from_str(names[member])
}

} // verus!
