//! Sending the scenes to the host: the JSON text of the scenes is put
//! into a script at the place that the script keeps free for it.

use vstd::prelude::*;
use vstd::string::*;
use crate::text::{chars_of, string_of};

verus! {

/// The place that the sender script keeps free: an empty raw string
/// assigned to `JSON_DATA`.
pub open spec fn placeholder() -> Seq<char> {
    "JSON_DATA = r\"\"\"\"\"\""@
}

/// What takes the place: the raw string with the JSON text in it.
pub open spec fn filled(json: Seq<char>) -> Seq<char> {
    "JSON_DATA = r\"\"\""@ + json + "\"\"\""@
}

/// `pattern` stands in `text` at `at`.
pub open spec fn stands(text: Seq<char>, pattern: Seq<char>, at: int) -> bool {
    0 <= at && at + pattern.len() <= text.len() && text.subrange(at, at + pattern.len()) == pattern
}

/// `text` from `at` on, each `pattern` replaced by `with`, from left to
/// right, what was replaced not searched again.
pub open spec fn replaced(text: Seq<char>, pattern: Seq<char>, with: Seq<char>, at: int) -> Seq<char>
    decreases text.len() - at,
{
    if at < 0 || at >= text.len() || pattern.len() == 0 {
        seq![]
    } else if stands(text, pattern, at) {
        with + replaced(text, pattern, with, at + pattern.len())
    } else {
        seq![text[at]] + replaced(text, pattern, with, at + 1)
    }
}

/// Whether `pattern` stands in `text` at `at`.
fn stands_here(text: &Vec<char>, pattern: &Vec<char>, at: usize) -> (r: bool)
    ensures
        r == stands(text@, pattern@, at as int),
{
    if pattern.len() > text.len() || at > text.len() - pattern.len() {
        return false;
    }
    let mut i: usize = 0;
    while i < pattern.len()
        invariant
            i <= pattern.len(),
            at + pattern.len() <= text.len(),
            forall|k: int| 0 <= k < i ==> text@[at + k] == pattern@[k],
        decreases pattern.len() - i,
    {
        if text[at + i] != pattern[i] {
            assert(text@.subrange(at as int, at + pattern.len())[i as int] != pattern@[i as int]);
            return false;
        }
        i += 1;
    }
    assert(text@.subrange(at as int, at + pattern.len()) =~= pattern@);
    true
}

/// `text` with each `pattern` replaced by `with`; empty where the pattern
/// is empty.
pub fn replace_all(text: &Vec<char>, pattern: &Vec<char>, with: &Vec<char>) -> (r: Vec<char>)
    ensures
        r@ == replaced(text@, pattern@, with@, 0),
{
    let mut out: Vec<char> = Vec::new();
    if pattern.len() == 0 {
        return out;
    }
    let mut at: usize = 0;
    assert(out@ + replaced(text@, pattern@, with@, 0) =~= replaced(text@, pattern@, with@, 0));
    while at < text.len()
        invariant
            at <= text.len(),
            pattern.len() > 0,
            out@ + replaced(text@, pattern@, with@, at as int) == replaced(text@, pattern@, with@, 0),
        decreases text.len() - at,
    {
        let ghost before = out@;
        if stands_here(text, pattern, at) {
            let mut i: usize = 0;
            while i < with.len()
                invariant
                    i <= with.len(),
                    out@ == before + with@.take(i as int),
                decreases with.len() - i,
            {
                out.push(with[i]);
                assert(out@ =~= before + with@.take(i + 1));
                i += 1;
            }
            assert(with@.take(with.len() as int) =~= with@);
            assert(out@ + replaced(text@, pattern@, with@, at + pattern.len()) =~= before + replaced(
                text@,
                pattern@,
                with@,
                at as int,
            ));
            at += pattern.len();
        } else {
            out.push(text[at]);
            assert(out@ + replaced(text@, pattern@, with@, at + 1) =~= before + replaced(
                text@,
                pattern@,
                with@,
                at as int,
            ));
            at += 1;
        }
    }
    assert(out@ + replaced(text@, pattern@, with@, at as int) =~= out@);
    out
}

/// The script that sends the scenes whose JSON text is `json`: the
/// template with its free place filled.
pub fn sender_script(template: &str, json: &str) -> (script: String)
    ensures
        script@ == replaced(template@, placeholder(), filled(json@), 0),
{
    let text = chars_of(template);
    let pattern = chars_of("JSON_DATA = r\"\"\"\"\"\"");
    let mut with = chars_of("JSON_DATA = r\"\"\"");
    let body = chars_of(json);
    let tail = chars_of("\"\"\"");
    let mut i: usize = 0;
    let ghost head = with@;
    while i < body.len()
        invariant
            i <= body.len(),
            with@ == head + body@.take(i as int),
        decreases body.len() - i,
    {
        with.push(body[i]);
        assert(with@ =~= head + body@.take(i + 1));
        i += 1;
    }
    assert(body@.take(body.len() as int) =~= body@);
    let ghost middle = with@;
    let mut k: usize = 0;
    while k < tail.len()
        invariant
            k <= tail.len(),
            with@ == middle + tail@.take(k as int),
        decreases tail.len() - k,
    {
        with.push(tail[k]);
        assert(with@ =~= middle + tail@.take(k + 1));
        k += 1;
    }
    assert(tail@.take(tail.len() as int) =~= tail@);
    assert(with@ =~= filled(json@));
    string_of(&replace_all(&text, &pattern, &with))
}

/// Whether the host took the scenes: its reply is `OK`.
pub fn scenes_accepted(reply: &str) -> (r: bool)
    ensures
        r == (reply@ == "OK"@),
{
    let given = String::from_str(reply);
    let expected = String::from_str("OK");
    given == expected
}

} // verus!
