//! Note names and note numbers.
//!
//! A note number `n` in `0..=127` is written as a pitch class followed by an
//! octave, middle C (60) being `C3`: `n / 12 - 2` is the octave.

use vstd::prelude::*;
use vstd::string::*;
use crate::text::{chars_of, decimal, digits_value, parse_digits, push_decimal, string_of};

verus! {

/// The pitch-class name of semitone `k` in `0..12`.
pub open spec fn pitch_class(k: int) -> Seq<char> {
    if k == 0 {
        seq!['C']
    } else if k == 1 {
        seq!['C', '#']
    } else if k == 2 {
        seq!['D']
    } else if k == 3 {
        seq!['D', '#']
    } else if k == 4 {
        seq!['E']
    } else if k == 5 {
        seq!['F']
    } else if k == 6 {
        seq!['F', '#']
    } else if k == 7 {
        seq!['G']
    } else if k == 8 {
        seq!['G', '#']
    } else if k == 9 {
        seq!['A']
    } else if k == 10 {
        seq!['A', '#']
    } else {
        seq!['B']
    }
}

/// The decimal numeral of `v`, with a leading `-` when negative.
pub open spec fn signed_decimal(v: int) -> Seq<char> {
    if v < 0 {
        seq!['-'] + decimal((-v) as nat)
    } else {
        decimal(v as nat)
    }
}

/// The name of note number `n`: pitch class, then octave.
pub open spec fn note_name(n: int) -> Seq<char> {
    pitch_class(n % 12) + signed_decimal(n / 12 - 2)
}

/// The name of MIDI note `n_val`, such as `C3` for 60 and `C#-2` for 1.
pub fn note_to_name(n_val: i32) -> (name: String)
    requires
        0 <= n_val <= 127,
    ensures
        name@ == note_name(n_val as int),
{
    let k = n_val % 12;
    let octave = n_val / 12 - 2;
    let mut out: Vec<char> = Vec::new();
    let letter = if k <= 1 {
        'C'
    } else if k <= 3 {
        'D'
    } else if k == 4 {
        'E'
    } else if k <= 6 {
        'F'
    } else if k <= 8 {
        'G'
    } else if k <= 10 {
        'A'
    } else {
        'B'
    };
    out.push(letter);
    if k == 1 || k == 3 || k == 6 || k == 8 || k == 10 {
        out.push('#');
    }
    assert(out@ =~= pitch_class(k as int));
    if octave < 0 {
        out.push('-');
        push_decimal(&mut out, (-octave) as u64);
    } else {
        push_decimal(&mut out, octave as u64);
    }
    assert(out@ =~= note_name(n_val as int));
    string_of(&out)
}

/// The semitone of a natural note letter, upper case only.
pub open spec fn letter_semitone(c: char) -> Option<int> {
    if c == 'C' {
        Some(0)
    } else if c == 'D' {
        Some(2)
    } else if c == 'E' {
        Some(4)
    } else if c == 'F' {
        Some(5)
    } else if c == 'G' {
        Some(7)
    } else if c == 'A' {
        Some(9)
    } else if c == 'B' {
        Some(11)
    } else {
        None
    }
}

/// The integer that `s` writes: an optional `+` or `-`, then decimal digits.
pub open spec fn signed_value(s: Seq<char>) -> Option<int> {
    if s.len() > 0 && s[0] == '-' {
        match digits_value(s.skip(1)) {
            Some(v) => Some(-(v as int)),
            None => None,
        }
    } else if s.len() > 0 && s[0] == '+' {
        match digits_value(s.skip(1)) {
            Some(v) => Some(v as int),
            None => None,
        }
    } else {
        match digits_value(s) {
            Some(v) => Some(v as int),
            None => None,
        }
    }
}

/// Whether `v` is a value of `i32`.
pub open spec fn fits_i32(v: int) -> bool {
    i32::MIN <= v <= i32::MAX
}

/// The note number that the name `s` stands for: a letter `A`..`G`, an
/// optional `#`, and a signed octave. `None` where `s` is no such name or
/// where the octave, twelve times the octave plus two, or the note number
/// leaves the range of `i32`.
pub open spec fn note_number(s: Seq<char>) -> Option<int> {
    if s.len() == 0 {
        None
    } else {
        match letter_semitone(s[0]) {
            None => None,
            Some(base) => {
                let sharp = s.len() > 1 && s[1] == '#';
                let rest = if sharp {
                    s.skip(2)
                } else {
                    s.skip(1)
                };
                let semitone = if sharp {
                    base + 1
                } else {
                    base
                };
                match signed_value(rest) {
                    Some(octave) => if fits_i32(octave) && fits_i32((octave + 2) * 12)
                        && fits_i32((octave + 2) * 12 + semitone) {
                        Some((octave + 2) * 12 + semitone)
                    } else {
                        None
                    },
                    None => None,
                }
            },
        }
    }
}

/// Reads a signed integer of at most 32 bits from `cs[start..]`.
fn parse_signed(cs: &Vec<char>, start: usize) -> (r: Option<i32>)
    requires
        start <= cs.len(),
    ensures
        r == match signed_value(cs@.skip(start as int)) {
            Some(v) => if fits_i32(v) {
                Some(v as i32)
            } else {
                None
            },
            None => None,
        },
{
    let ghost tail = cs@.skip(start as int);
    if start < cs.len() && cs[start] == '-' {
        assert(tail.skip(1) =~= cs@.skip(start + 1));
        match parse_digits(cs, start + 1, 0x8000_0000) {
            Some(v) => Some((-(v as i64)) as i32),
            None => None,
        }
    } else if start < cs.len() && cs[start] == '+' {
        assert(tail.skip(1) =~= cs@.skip(start + 1));
        match parse_digits(cs, start + 1, 0x7fff_ffff) {
            Some(v) => Some(v as i32),
            None => None,
        }
    } else {
        match parse_digits(cs, start, 0x7fff_ffff) {
            Some(v) => Some(v as i32),
            None => None,
        }
    }
}

/// The note number of the name `n_str`, or `None` where it has none.
pub fn try_name_to_note(n_str: &str) -> (r: Option<i32>)
    ensures
        r == match note_number(n_str@) {
            Some(v) => Some(v as i32),
            None => None,
        },
{
    let cs = chars_of(n_str);
    if cs.len() == 0 {
        return None;
    }
    let c = cs[0];
    let base: i32 = if c == 'C' {
        0
    } else if c == 'D' {
        2
    } else if c == 'E' {
        4
    } else if c == 'F' {
        5
    } else if c == 'G' {
        7
    } else if c == 'A' {
        9
    } else if c == 'B' {
        11
    } else {
        return None;
    };
    let sharp = cs.len() > 1 && cs[1] == '#';
    let (semitone, start): (i32, usize) = if sharp {
        (base + 1, 2)
    } else {
        (base, 1)
    };
    match parse_signed(&cs, start) {
        None => None,
        Some(octave) => {
            let wide: i64 = (octave as i64 + 2) * 12;
            if wide < i32::MIN as i64 || wide + semitone as i64 > i32::MAX as i64 {
                None
            } else {
                Some((wide + semitone as i64) as i32)
            }
        },
    }
}

/// The note number of the name `n_str`, such as 60 for `C3`.
pub fn name_to_note(n_str: &str) -> (note: i32)
    requires
        note_number(n_str@) is Some,
    ensures
        note == note_number(n_str@)->0,
{
    match try_name_to_note(n_str) {
        Some(v) => v,
        None => 0,
    }
}

} // verus!
