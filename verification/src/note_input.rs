//! Note numbers as a user types them: a number, a note name, or a list of
//! those separated by commas.
//!
//! A number is one or more digits. A note name is a letter `A` to `G` in
//! either case, then up to three marks out of a minus, a sharp and a
//! minus, in this order, then one or more digits up to 8.

use vstd::prelude::*;
use vstd::string::*;
use crate::notes::{note_number, try_name_to_note};
use crate::text::{chars_of, digit_value, digits_value, char_to_digit, parse_digits, string_of};

verus! {

/// What a piece of input is.
#[derive(Clone, Copy, Debug, PartialEq, Eq, Structural)]
pub enum InputKind {
    /// A note number.
    Note,
    /// A note name.
    Name,
}

/// `s` is one or more digits.
pub open spec fn all_digits(s: Seq<char>) -> bool {
    s.len() > 0 && forall|i: int| 0 <= i < s.len() ==> digit_value(#[trigger] s[i]) is Some
}

/// `c` is a letter `A` to `G`, in either case.
pub open spec fn is_note_letter(c: char) -> bool {
    c == 'A' || c == 'B' || c == 'C' || c == 'D' || c == 'E' || c == 'F' || c == 'G' || c == 'a'
        || c == 'b' || c == 'c' || c == 'd' || c == 'e' || c == 'f' || c == 'g'
}

/// `c` is a digit up to 8.
pub open spec fn is_octave_digit(c: char) -> bool {
    digit_value(c) matches Some(d) && d <= 8
}

/// How many of the characters of `s` from `from` on are a minus or a
/// sharp, without another character in between.
pub open spec fn marks(s: Seq<char>, from: int) -> int
    decreases s.len() - from,
{
    if from < 0 || from >= s.len() {
        0
    } else if s[from] == '-' || s[from] == '#' {
        1 + marks(s, from + 1)
    } else {
        0
    }
}

/// The marks are a minus or none, a sharp or none, and a minus or none, in
/// this order.
pub open spec fn marks_in_order(m: Seq<char>) -> bool {
    m =~= seq![] || m =~= seq!['-'] || m =~= seq!['#'] || m =~= seq!['-', '-'] || m =~= seq![
        '-',
        '#',
    ] || m =~= seq!['#', '-'] || m =~= seq!['-', '#', '-']
}

/// `s` is a note name as a user types it.
pub open spec fn is_note_name(s: Seq<char>) -> bool {
    let k = marks(s, 1);
    &&& s.len() >= 2
    &&& is_note_letter(s[0])
    &&& marks_in_order(s.subrange(1, 1 + k))
    &&& 1 + k < s.len()
    &&& forall|i: int| 1 + k <= i < s.len() ==> is_octave_digit(#[trigger] s[i])
}

/// What a piece of input is, if it is a number or a name.
pub open spec fn kind_of(s: Seq<char>) -> Option<InputKind> {
    if all_digits(s) {
        Some(InputKind::Note)
    } else if is_note_name(s) {
        Some(InputKind::Name)
    } else {
        None
    }
}

/// The note number that a piece of input stands for: the value of a
/// number that fits `i32`, the note number of a name that has one.
pub open spec fn value_of(s: Seq<char>) -> Option<int> {
    match kind_of(s) {
        Some(InputKind::Note) => match digits_value(s) {
            Some(v) => if v <= i32::MAX {
                Some(v as int)
            } else {
                None
            },
            None => None,
        },
        Some(InputKind::Name) => note_number(s),
        None => None,
    }
}

/// `c` is white space.
pub open spec fn is_space(c: char) -> bool {
    let u = c as u32;
    (0x09 <= u <= 0x0d) || u == 0x20 || u == 0x85 || u == 0xa0 || u == 0x1680 || (0x2000 <= u
        <= 0x200a) || u == 0x2028 || u == 0x2029 || u == 0x202f || u == 0x205f || u == 0x3000
}

/// How many characters of `s` from `from` on are white space, without
/// another character in between.
pub open spec fn spaces_from(s: Seq<char>, from: int) -> int
    decreases s.len() - from,
{
    if from < 0 || from >= s.len() {
        0
    } else if is_space(s[from]) {
        1 + spaces_from(s, from + 1)
    } else {
        0
    }
}

/// How many characters at the end of the first `n` of `s` are white
/// space, without another character in between.
pub open spec fn spaces_before(s: Seq<char>, n: int) -> int
    decreases n,
{
    if n <= 0 || n > s.len() {
        0
    } else if is_space(s[n - 1]) {
        1 + spaces_before(s, n - 1)
    } else {
        0
    }
}

/// `s` without the white space at its start and at its end.
pub open spec fn trimmed(s: Seq<char>) -> Seq<char> {
    let start = spaces_from(s, 0);
    if start == s.len() {
        seq![]
    } else {
        s.subrange(start, s.len() - spaces_before(s, s.len() as int))
    }
}

/// The pieces into which the commas cut the first `n` characters of `s`.
pub open spec fn pieces(s: Seq<char>, n: int) -> Seq<Seq<char>>
    decreases n,
{
    if n <= 0 {
        seq![seq![]]
    } else {
        let before = pieces(s, n - 1);
        if s[n - 1] == ',' {
            before.push(seq![])
        } else {
            before.drop_last().push(before.last().push(s[n - 1]))
        }
    }
}

/// What the first `n` pieces stand for, each trimmed, empty pieces left
/// out: their kinds, or `None` if one of them is neither number nor name.
pub open spec fn kinds_of(parts: Seq<Seq<char>>, n: int) -> Option<Seq<InputKind>>
    decreases n,
{
    if n <= 0 {
        Some(seq![])
    } else {
        match kinds_of(parts, n - 1) {
            None => None,
            Some(before) => if parts[n - 1].len() == 0 {
                Some(before)
            } else {
                match kind_of(trimmed(parts[n - 1])) {
                    Some(kind) => Some(before.push(kind)),
                    None => None,
                }
            },
        }
    }
}

/// What the first `n` pieces stand for, each trimmed, empty pieces left
/// out: their note numbers, or `None` if one of them has none.
pub open spec fn values_of(parts: Seq<Seq<char>>, n: int) -> Option<Seq<int>>
    decreases n,
{
    if n <= 0 {
        Some(seq![])
    } else {
        match values_of(parts, n - 1) {
            None => None,
            Some(before) => if parts[n - 1].len() == 0 {
                Some(before)
            } else {
                match value_of(trimmed(parts[n - 1])) {
                    Some(value) => Some(before.push(value)),
                    None => None,
                }
            },
        }
    }
}

/// What an input stands for.
pub enum Reading<T> {
    /// These values.
    Values(Seq<T>),
    /// Nothing: it is neither a number, nor a name, nor a list.
    Invalid,
    /// Nothing that can be given: a number or a name has no value, or a
    /// piece of a list is neither number nor name.
    Fault,
}

/// The note numbers that an input stands for.
pub open spec fn numbers_of(s: Seq<char>) -> Reading<int> {
    if kind_of(s) is Some {
        match value_of(s) {
            Some(v) => Reading::Values(seq![v]),
            None => Reading::Fault,
        }
    } else if s.contains(',') {
        match values_of(pieces(s, s.len() as int), pieces(s, s.len() as int).len() as int) {
            Some(values) => Reading::Values(values),
            None => Reading::Fault,
        }
    } else {
        Reading::Invalid
    }
}

/// The kinds of what an input stands for.
pub open spec fn types_of(s: Seq<char>) -> Reading<InputKind> {
    match kind_of(s) {
        Some(kind) => Reading::Values(seq![kind]),
        None => if s.contains(',') {
            match kinds_of(pieces(s, s.len() as int), pieces(s, s.len() as int).len() as int) {
                Some(kinds) => Reading::Values(kinds),
                None => Reading::Fault,
            }
        } else {
            Reading::Invalid
        },
    }
}

/// Whether `c` is white space.
fn space(c: char) -> (r: bool)
    ensures
        r == is_space(c),
{
    let u = c as u32;
    (0x09 <= u && u <= 0x0d) || u == 0x20 || u == 0x85 || u == 0xa0 || u == 0x1680 || (0x2000 <= u
        && u <= 0x200a) || u == 0x2028 || u == 0x2029 || u == 0x202f || u == 0x205f || u == 0x3000
}

/// `s` without the white space at its start and at its end.
pub fn trim(s: &Vec<char>) -> (r: Vec<char>)
    ensures
        r@ == trimmed(s@),
{
    let mut start: usize = 0;
    while start < s.len() && space(s[start])
        invariant
            start <= s.len(),
            spaces_from(s@, 0) == start + spaces_from(s@, start as int),
        decreases s.len() - start,
    {
        start += 1;
    }
    if start == s.len() {
        return Vec::new();
    }
    assert(spaces_from(s@, 0) == start);
    let mut end: usize = s.len();
    while end > start && space(s[end - 1])
        invariant
            start < end <= s.len(),
            !is_space(s@[start as int]),
            spaces_before(s@, s.len() as int) == (s.len() - end) + spaces_before(s@, end as int),
        decreases end,
    {
        end -= 1;
    }
    assert(trimmed(s@) == s@.subrange(start as int, end as int));
    let mut out: Vec<char> = Vec::new();
    let mut i: usize = start;
    while i < end
        invariant
            start <= i <= end <= s.len(),
            out@ == s@.subrange(start as int, i as int),
        decreases end - i,
    {
        out.push(s[i]);
        assert(out@ =~= s@.subrange(start as int, i + 1));
        i += 1;
    }
    out
}

/// Whether `s` is one or more digits.
fn only_digits(s: &Vec<char>) -> (r: bool)
    ensures
        r == all_digits(s@),
{
    if s.len() == 0 {
        return false;
    }
    let mut i: usize = 0;
    while i < s.len()
        invariant
            i <= s.len(),
            forall|k: int| 0 <= k < i ==> digit_value(#[trigger] s@[k]) is Some,
        decreases s.len() - i,
    {
        if char_to_digit(s[i]).is_none() {
            return false;
        }
        i += 1;
    }
    true
}

/// Whether `s` is a note name as a user types it.
fn note_name_form(s: &Vec<char>) -> (r: bool)
    ensures
        r == is_note_name(s@),
{
    if s.len() < 2 {
        return false;
    }
    let c = s[0];
    if !(c == 'A' || c == 'B' || c == 'C' || c == 'D' || c == 'E' || c == 'F' || c == 'G' || c == 'a'
        || c == 'b' || c == 'c' || c == 'd' || c == 'e' || c == 'f' || c == 'g') {
        return false;
    }
    let mut k: usize = 0;
    while 1 + k < s.len() && (s[1 + k] == '-' || s[1 + k] == '#')
        invariant
            1 + k <= s.len(),
            marks(s@, 1) == k + marks(s@, 1 + k),
        decreases s.len() - k,
    {
        k += 1;
    }
    assert(marks(s@, 1) == k);
    let ghost m = s@.subrange(1, 1 + k);
    let in_order = if k == 0 {
        true
    } else if k == 1 {
        true
    } else if k == 2 {
        !(s[1] == '#' && s[2] == '#')
    } else if k == 3 {
        s[1] == '-' && s[2] == '#' && s[3] == '-'
    } else {
        false
    };
    proof {
        assert forall|i: int| 0 <= i < k implies m[i] == '-' || m[i] == '#' by {
            lemma_marks(s@, 1, i);
        }
        if k == 1 {
            assert(m[0] == s@[1]);
        }
        if k == 2 {
            assert(m[0] == s@[1] && m[1] == s@[2]);
        }
        if k == 3 {
            assert(m[0] == s@[1] && m[1] == s@[2] && m[2] == s@[3]);
        }
        assert(in_order == marks_in_order(m));
    }
    if !in_order || 1 + k >= s.len() {
        return false;
    }
    assert(is_note_letter(s@[0]));
    let mut i: usize = 1 + k;
    while i < s.len()
        invariant
            1 + k <= i <= s.len(),
            s.len() >= 2,
            is_note_letter(s@[0]),
            marks(s@, 1) == k,
            marks_in_order(s@.subrange(1, 1 + k)),
            forall|j: int| 1 + k <= j < i ==> is_octave_digit(#[trigger] s@[j]),
        decreases s.len() - i,
    {
        match char_to_digit(s[i]) {
            Some(d) => {
                if d > 8 {
                    return false;
                }
            },
            None => {
                return false;
            },
        }
        i += 1;
    }
    true
}

/// Each of the marks counted from `from` is a minus or a sharp.
pub proof fn lemma_marks(s: Seq<char>, from: int, i: int)
    requires
        0 <= from,
        0 <= i < marks(s, from),
    ensures
        from + i < s.len(),
        s[from + i] == '-' || s[from + i] == '#',
    decreases i,
{
    if i > 0 {
        lemma_marks(s, from + 1, i - 1);
    }
}

/// What the input `s` is, if it is a number or a name.
fn classify(s: &Vec<char>) -> (r: Option<InputKind>)
    ensures
        r == kind_of(s@),
{
    if only_digits(s) {
        Some(InputKind::Note)
    } else if note_name_form(s) {
        Some(InputKind::Name)
    } else {
        None
    }
}

/// The note number that the piece `s` stands for.
fn evaluate(s: &Vec<char>) -> (r: Option<i32>)
    ensures
        match r {
            Some(v) => value_of(s@) == Some(v as int),
            None => value_of(s@) is None,
        },
{
    match classify(s) {
        Some(InputKind::Note) => {
            assert(s@.skip(0) =~= s@);
            match parse_digits(s, 0, 0x7fff_ffff) {
                Some(v) => Some(v as i32),
                None => None,
            }
        },
        Some(InputKind::Name) => {
            let name = string_of(s);
            try_name_to_note(name.as_str())
        },
        None => None,
    }
}

/// The pieces into which the commas cut `s`.
pub fn split_at_commas(s: &Vec<char>) -> (parts: Vec<Vec<char>>)
    ensures
        parts@.map_values(|p: Vec<char>| p@) == pieces(s@, s.len() as int),
{
    let mut parts: Vec<Vec<char>> = Vec::new();
    let mut current: Vec<char> = Vec::new();
    let mut n: usize = 0;
    assert(parts@.map_values(|p: Vec<char>| p@).push(current@) =~= pieces(s@, 0));
    while n < s.len()
        invariant
            n <= s.len(),
            parts@.map_values(|p: Vec<char>| p@).push(current@) == pieces(s@, n as int),
        decreases s.len() - n,
    {
        let ghost before = pieces(s@, n as int);
        let ghost done = parts@.map_values(|p: Vec<char>| p@);
        if s[n] == ',' {
            parts.push(current);
            current = Vec::new();
            assert(parts@.map_values(|p: Vec<char>| p@) =~= before);
            assert(parts@.map_values(|p: Vec<char>| p@).push(current@) =~= before.push(seq![]));
        } else {
            let ghost was = current@;
            current.push(s[n]);
            assert(before.drop_last() =~= done);
            assert(before.last() == was);
        }
        n += 1;
    }
    let ghost done = parts@.map_values(|p: Vec<char>| p@);
    let ghost last = current@;
    parts.push(current);
    assert(parts@.map_values(|p: Vec<char>| p@) =~= done.push(last));
    parts
}

/// Whether `s` holds a comma.
fn has_comma(s: &Vec<char>) -> (r: bool)
    ensures
        r == s@.contains(','),
{
    let mut i: usize = 0;
    while i < s.len()
        invariant
            i <= s.len(),
            forall|k: int| 0 <= k < i ==> s@[k] != ',',
        decreases s.len() - i,
    {
        if s[i] == ',' {
            return true;
        }
        i += 1;
    }
    false
}

/// What is said of an input that stands for nothing.
pub fn invalid_input_message() -> (message: String)
    ensures
        message@ == "'{input_str}' has an invalid note number or name."@,
{
    String::from_str("'{input_str}' has an invalid note number or name.")
}

/// The note numbers that `input_str` stands for: of a number its value, of
/// a note name its note number, of a list separated by commas those of
/// its pieces, each trimmed, empty pieces left out. The result is `None`
/// where a number or a name has no value in `i32`, or where a piece of a
/// list is neither number nor name; it is an error where the input is
/// neither a number, nor a name, nor a list.
pub fn try_convert_note_numbers(input_str: &str) -> (r: Option<Result<Vec<i32>, String>>)
    ensures
        match numbers_of(input_str@) {
            Reading::Values(values) => r matches Some(Ok(found)) && found@.map_values(
                |v: i32| v as int,
            ) == values,
            Reading::Invalid => r matches Some(Err(message)) && message@
                == "'{input_str}' has an invalid note number or name."@,
            Reading::Fault => r is None,
        },
{
    let s = chars_of(input_str);
    if classify(&s).is_some() {
        return match evaluate(&s) {
            Some(v) => {
                let mut found: Vec<i32> = Vec::new();
                found.push(v);
                assert(found@.map_values(|v: i32| v as int) =~= seq![v as int]);
                Some(Ok(found))
            },
            None => None,
        };
    }
    if !has_comma(&s) {
        return Some(Err(invalid_input_message()));
    }
    let parts = split_at_commas(&s);
    let ghost all = pieces(s@, s.len() as int);
    let mut found: Vec<i32> = Vec::new();
    let mut n: usize = 0;
    assert(found@.map_values(|v: i32| v as int) =~= Seq::<int>::empty());
    while n < parts.len()
        invariant
            n <= parts.len(),
            all == parts@.map_values(|p: Vec<char>| p@),
            all == pieces(s@, s.len() as int),
            s@ == input_str@,
            kind_of(s@) is None,
            s@.contains(','),
            values_of(all, n as int) == Some(found@.map_values(|v: i32| v as int)),
        decreases parts.len() - n,
    {
        assert(all[n as int] == parts@[n as int]@);
        if parts[n].len() > 0 {
            let piece = trim(&parts[n]);
            match evaluate(&piece) {
                Some(v) => {
                    let ghost before = found@.map_values(|v: i32| v as int);
                    found.push(v);
                    assert(found@.map_values(|v: i32| v as int) =~= before.push(v as int));
                },
                None => {
                    proof {
                        lemma_values_fault(all, n + 1, parts.len() as int);
                    }
                    return None;
                },
            }
        }
        n += 1;
    }
    Some(Ok(found))
}

/// Once a piece has no value, no longer list has values.
pub proof fn lemma_values_fault(parts: Seq<Seq<char>>, k: int, n: int)
    requires
        0 <= k <= n,
        values_of(parts, k) is None,
    ensures
        values_of(parts, n) is None,
    decreases n,
{
    if k < n {
        lemma_values_fault(parts, k, n - 1);
    }
}

/// Once a piece has no kind, no longer list has kinds.
pub proof fn lemma_kinds_fault(parts: Seq<Seq<char>>, k: int, n: int)
    requires
        0 <= k <= n,
        kinds_of(parts, k) is None,
    ensures
        kinds_of(parts, n) is None,
    decreases n,
{
    if k < n {
        lemma_kinds_fault(parts, k, n - 1);
    }
}

/// The note numbers that `input_str` stands for: see
/// [`try_convert_note_numbers`].
pub fn convert_note_numbers(input_str: &str) -> (r: Result<Vec<i32>, String>)
    requires
        !(numbers_of(input_str@) is Fault),
    ensures
        match numbers_of(input_str@) {
            Reading::Values(values) => r matches Ok(found) && found@.map_values(|v: i32| v as int)
                == values,
            _ => r matches Err(message) && message@
                == "'{input_str}' has an invalid note number or name."@,
        },
{
    match try_convert_note_numbers(input_str) {
        Some(r) => r,
        None => Err(invalid_input_message()),
    }
}

/// The kinds of what `input_str` stands for: of a number or a name its
/// kind, of a list separated by commas the kinds of its pieces, each
/// trimmed, empty pieces left out. The result is `None` where a piece of
/// a list is neither number nor name; it is an error where the input is
/// neither a number, nor a name, nor a list.
pub fn try_type_of_note_number(input_str: &str) -> (r: Option<Result<Vec<InputKind>, String>>)
    ensures
        match types_of(input_str@) {
            Reading::Values(kinds) => r matches Some(Ok(found)) && found@ == kinds,
            Reading::Invalid => r matches Some(Err(message)) && message@
                == "'{input_str}' has an invalid note number or name."@,
            Reading::Fault => r is None,
        },
{
    let s = chars_of(input_str);
    match classify(&s) {
        Some(kind) => {
            let mut found: Vec<InputKind> = Vec::new();
            found.push(kind);
            assert(found@ =~= seq![kind]);
            return Some(Ok(found));
        },
        None => {},
    }
    if !has_comma(&s) {
        return Some(Err(invalid_input_message()));
    }
    let parts = split_at_commas(&s);
    let ghost all = pieces(s@, s.len() as int);
    let mut found: Vec<InputKind> = Vec::new();
    let mut n: usize = 0;
    while n < parts.len()
        invariant
            n <= parts.len(),
            all == parts@.map_values(|p: Vec<char>| p@),
            all == pieces(s@, s.len() as int),
            s@ == input_str@,
            kind_of(s@) is None,
            s@.contains(','),
            kinds_of(all, n as int) == Some(found@),
        decreases parts.len() - n,
    {
        assert(all[n as int] == parts@[n as int]@);
        if parts[n].len() > 0 {
            let piece = trim(&parts[n]);
            match classify(&piece) {
                Some(kind) => {
                    found.push(kind);
                },
                None => {
                    proof {
                        lemma_kinds_fault(all, n + 1, parts.len() as int);
                    }
                    return None;
                },
            }
        }
        n += 1;
    }
    Some(Ok(found))
}

/// The word for a kind of input: `note` for a number, `name` for a name.
pub fn kind_word(kind: InputKind) -> (word: &'static str)
    ensures
        word@ == (match kind {
            InputKind::Note => "note"@,
            InputKind::Name => "name"@,
        }),
{
    match kind {
        InputKind::Note => "note",
        InputKind::Name => "name",
    }
}

/// The kinds of what `input_str` stands for, in words: see
/// [`try_type_of_note_number`].
pub fn type_of_note_number(input_str: &str) -> (r: Result<Vec<&'static str>, String>)
    requires
        !(types_of(input_str@) is Fault),
    ensures
        match types_of(input_str@) {
            Reading::Values(kinds) => r matches Ok(found) && found@.len() == kinds.len() && forall|
                i: int,
            |
                0 <= i < kinds.len() ==> (#[trigger] found@[i])@ == (match kinds[i] {
                    InputKind::Note => "note"@,
                    InputKind::Name => "name"@,
                }),
            _ => r matches Err(message) && message@
                == "'{input_str}' has an invalid note number or name."@,
        },
{
    match try_type_of_note_number(input_str) {
        Some(Ok(kinds)) => {
            let mut words: Vec<&'static str> = Vec::new();
            let mut i: usize = 0;
            while i < kinds.len()
                invariant
                    i <= kinds.len(),
                    words.len() == i,
                    forall|k: int|
                        0 <= k < i ==> (#[trigger] words@[k])@ == (match kinds@[k] {
                            InputKind::Note => "note"@,
                            InputKind::Name => "name"@,
                        }),
                decreases kinds.len() - i,
            {
                words.push(kind_word(kinds[i]));
                i += 1;
            }
            Ok(words)
        },
        Some(Err(message)) => Err(message),
        None => Err(invalid_input_message()),
    }
}

} // verus!
