//! The wire rules of the transport to the host: frames of one JSON object
//! and a newline, written in chunks, answered within a number of polls.

use vstd::prelude::*;
use vstd::string::*;

verus! {

/// The port of the local server.
pub const PORT: u16 = 6577;

/// The largest piece in which a frame is written.
pub const CHUNK_SIZE: usize = 4096;

/// After how many polls without a reply a request times out.
pub const POLL_LIMIT: u8 = 50;

/// The pause between two polls, in milliseconds.
pub const POLL_INTERVAL_MS: u64 = 100;

/// A message to or from the host.
#[derive(Clone, Debug)]
pub struct Message {
    pub sender: String,
    pub message: String,
    /// The id under which the reply is awaited.
    pub uuid: String,
}

/// What can go wrong on the transport.
#[derive(Clone, Copy, Debug, PartialEq, Eq, Structural)]
pub enum TransportError {
    /// No reply came within the polls allowed.
    TransportTimeout,
    /// The peer is gone.
    TransportClosed,
    /// A complete frame is no message.
    MalformedFrame,
}

/// The end of a frame: a closing brace and a newline.
pub open spec fn frame_end() -> Seq<u8> {
    seq![0x7du8, 0x0au8]
}

/// The key that every frame carries: `"uuid":` with its quotes.
pub open spec fn uuid_key() -> Seq<u8> {
    seq![0x22u8, 0x75u8, 0x75u8, 0x69u8, 0x64u8, 0x22u8, 0x3au8]
}

/// `pattern` stands in `data` at position `at`.
pub open spec fn stands_at(data: Seq<u8>, pattern: Seq<u8>, at: int) -> bool {
    0 <= at && at + pattern.len() <= data.len() && data.subrange(at, at + pattern.len()) == pattern
}

/// `pattern` stands somewhere in `data`.
pub open spec fn occurs(data: Seq<u8>, pattern: Seq<u8>) -> bool {
    exists|at: int| stands_at(data, pattern, at)
}

/// `data` ends with `pattern`.
pub open spec fn ends_with(data: Seq<u8>, pattern: Seq<u8>) -> bool {
    stands_at(data, pattern, data.len() - pattern.len())
}

/// What was read so far is a complete frame: it ends with a closing brace
/// and a newline and holds the key `"uuid":`.
pub open spec fn is_complete(data: Seq<u8>) -> bool {
    ends_with(data, frame_end()) && occurs(data, uuid_key())
}

/// Whether `pattern` stands in `data` at `at`.
fn matches_at(data: &Vec<u8>, pattern: &Vec<u8>, at: usize) -> (r: bool)
    ensures
        r == stands_at(data@, pattern@, at as int),
{
    if pattern.len() > data.len() || at > data.len() - pattern.len() {
        return false;
    }
    let mut i: usize = 0;
    while i < pattern.len()
        invariant
            i <= pattern.len(),
            at + pattern.len() <= data.len(),
            forall|k: int| 0 <= k < i ==> data@[at + k] == pattern@[k],
        decreases pattern.len() - i,
    {
        if data[at + i] != pattern[i] {
            assert(data@.subrange(at as int, at + pattern.len())[i as int] != pattern@[i as int]);
            return false;
        }
        i += 1;
    }
    assert(data@.subrange(at as int, at + pattern.len()) =~= pattern@);
    true
}

/// Whether `pattern` stands somewhere in `data`.
fn contains(data: &Vec<u8>, pattern: &Vec<u8>) -> (r: bool)
    ensures
        r == occurs(data@, pattern@),
{
    if pattern.len() == 0 {
        assert(data@.subrange(0, 0) =~= pattern@);
        assert(stands_at(data@, pattern@, 0));
        return true;
    }
    let mut at: usize = 0;
    while at < data.len()
        invariant
            at <= data.len(),
            pattern.len() > 0,
            forall|k: int| 0 <= k < at ==> !stands_at(data@, pattern@, k),
        decreases data.len() - at,
    {
        if matches_at(data, pattern, at) {
            return true;
        }
        at += 1;
    }
    false
}

/// Whether what was read so far is a complete frame.
pub fn frame_complete(data: &Vec<u8>) -> (r: bool)
    ensures
        r == is_complete(data@),
{
    let mut end: Vec<u8> = Vec::new();
    end.push(0x7d);
    end.push(0x0a);
    assert(end@ =~= frame_end());
    let mut key: Vec<u8> = Vec::new();
    key.push(0x22);
    key.push(0x75);
    key.push(0x75);
    key.push(0x69);
    key.push(0x64);
    key.push(0x22);
    key.push(0x3a);
    assert(key@ =~= uuid_key());
    if data.len() < 2 {
        return false;
    }
    matches_at(data, &end, data.len() - 2) && contains(data, &key)
}

/// The pieces in which `len` bytes are written: piece `i` starts at
/// `i * CHUNK_SIZE` and ends at the start of the next piece or at `len`.
pub open spec fn pieces(len: int) -> Seq<(int, int)> {
    Seq::new(
        ((len + CHUNK_SIZE - 1) / (CHUNK_SIZE as int)) as nat,
        |i: int|
            (
                i * CHUNK_SIZE,
                if (i + 1) * CHUNK_SIZE < len {
                    (i + 1) * CHUNK_SIZE
                } else {
                    len
                },
            ),
    )
}

/// The bounds of the pieces in which `len` bytes are written, start and
/// end of each: none longer than `CHUNK_SIZE`, one behind the other, from
/// the first byte to the last.
pub fn chunk_bounds(len: usize) -> (bounds: Vec<(usize, usize)>)
    ensures
        bounds@.len() == pieces(len as int).len(),
        forall|i: int|
            0 <= i < bounds.len() ==> bounds@[i].0 == pieces(len as int)[i].0 && bounds@[i].1
                == pieces(len as int)[i].1,
        forall|i: int|
            0 <= i < bounds.len() ==> (#[trigger] bounds@[i]).0 < bounds@[i].1 <= len && bounds@[i].1
                - bounds@[i].0 <= CHUNK_SIZE,
        forall|i: int| 0 < i < bounds.len() ==> (#[trigger] bounds@[i]).0 == bounds@[i - 1].1,
        bounds.len() > 0 ==> bounds@[0].0 == 0 && bounds@[bounds.len() - 1].1 == len,
        len == 0 ==> bounds.len() == 0,
{
    let mut bounds: Vec<(usize, usize)> = Vec::new();
    let mut start: usize = 0;
    while start < len
        invariant
            start <= len,
            start == bounds.len() * CHUNK_SIZE || start == len,
            bounds.len() <= pieces(len as int).len(),
            start == len ==> bounds.len() == pieces(len as int).len(),
            start < len ==> bounds.len() < pieces(len as int).len(),
            forall|i: int|
                0 <= i < bounds.len() ==> bounds@[i].0 == pieces(len as int)[i].0 && bounds@[i].1
                    == pieces(len as int)[i].1,
            forall|i: int|
                0 <= i < bounds.len() ==> (#[trigger] bounds@[i]).0 < bounds@[i].1 <= len
                    && bounds@[i].1 - bounds@[i].0 <= CHUNK_SIZE,
            forall|i: int| 0 < i < bounds.len() ==> (#[trigger] bounds@[i]).0 == bounds@[i - 1].1,
            bounds.len() > 0 ==> bounds@[0].0 == 0 && bounds@[bounds.len() - 1].1 == start,
        decreases len - start,
    {
        let end: usize = if len - start > CHUNK_SIZE {
            start + CHUNK_SIZE
        } else {
            len
        };
        bounds.push((start, end));
        start = end;
    }
    bounds
}

/// A request that waits for its reply: the id of the request and the
/// channel on which the reply is expected.
#[derive(Debug)]
pub struct Waiting<C> {
    pub uuid: String,
    pub channel: C,
}

/// The requests that wait for their replies, no two under one id.
#[derive(Debug)]
pub struct Rendezvous<C> {
    pub waiting: Vec<Waiting<C>>,
}

/// The first position from `from` on of a request with id `uuid`, or the
/// number of requests.
pub open spec fn waiting_index<C>(waiting: Seq<Waiting<C>>, uuid: Seq<char>, from: int) -> int
    decreases waiting.len() - from,
{
    if from < 0 || from >= waiting.len() {
        waiting.len() as int
    } else if waiting[from].uuid@ == uuid {
        from
    } else {
        waiting_index(waiting, uuid, from + 1)
    }
}

/// No two requests wait under one id.
pub open spec fn ids_distinct<C>(waiting: Seq<Waiting<C>>) -> bool {
    forall|i: int, j: int| 0 <= i < j < waiting.len() ==> waiting[i].uuid@ != waiting[j].uuid@
}

/// `waiting_index` gives a position at or behind `from`; before it no
/// request has the id, and at it, if it is in range, one has.
pub proof fn lemma_waiting_index<C>(waiting: Seq<Waiting<C>>, uuid: Seq<char>, from: int)
    requires
        0 <= from <= waiting.len(),
    ensures
        from <= waiting_index(waiting, uuid, from) <= waiting.len(),
        waiting_index(waiting, uuid, from) < waiting.len() ==> waiting[waiting_index(
            waiting,
            uuid,
            from,
        )].uuid@ == uuid,
        forall|i: int| from <= i < waiting_index(waiting, uuid, from) ==> waiting[i].uuid@ != uuid,
    decreases waiting.len() - from,
{
    if from < waiting.len() && waiting[from].uuid@ != uuid {
        lemma_waiting_index(waiting, uuid, from + 1);
    }
}

impl<C> Rendezvous<C> {
    /// No request waits.
    pub fn new() -> (table: Self)
        ensures
            table.waiting@.len() == 0,
            ids_distinct(table.waiting@),
    {
        Rendezvous { waiting: Vec::new() }
    }

    /// Where the request `uuid` waits, by position.
    fn find(&self, uuid: &String) -> (at: usize)
        ensures
            at == waiting_index(self.waiting@, uuid@, 0),
            at <= self.waiting.len(),
    {
        let mut at: usize = 0;
        proof {
            lemma_waiting_index(self.waiting@, uuid@, 0);
        }
        while at < self.waiting.len() && !(self.waiting[at].uuid == *uuid)
            invariant
                at <= self.waiting.len(),
                waiting_index(self.waiting@, uuid@, at as int) == waiting_index(
                    self.waiting@,
                    uuid@,
                    0,
                ),
            decreases self.waiting.len() - at,
        {
            at += 1;
        }
        at
    }

    /// Lets the request `uuid` wait on `channel`. A request that waited
    /// under the same id gives way, and its channel is handed back.
    pub fn register(&mut self, uuid: String, channel: C) -> (displaced: Option<C>)
        ensures
            ids_distinct(old(self).waiting@) ==> ids_distinct(final(self).waiting@),
            ({
                let at = waiting_index(old(self).waiting@, uuid@, 0);
                if at < old(self).waiting@.len() {
                    &&& displaced == Some(old(self).waiting@[at].channel)
                    &&& final(self).waiting@ == old(self).waiting@.remove(at).push(
                        Waiting { uuid, channel },
                    )
                } else {
                    &&& displaced is None
                    &&& final(self).waiting@ == old(self).waiting@.push(Waiting { uuid, channel })
                }
            }),
    {
        let at = self.find(&uuid);
        proof {
            lemma_waiting_index(self.waiting@, uuid@, 0);
        }
        let displaced = if at < self.waiting.len() {
            let gone = self.waiting.remove(at);
            Some(gone.channel)
        } else {
            None
        };
        let ghost kept = self.waiting@;
        proof {
            let before = old(self).waiting@;
            if ids_distinct(before) {
                assert forall|i: int| 0 <= i < kept.len() implies kept[i].uuid@ != uuid@ by {
                    if at < before.len() {
                        let a = if i < at {
                            i
                        } else {
                            i + 1
                        };
                        assert(kept[i] == before[a]);
                        assert(before[a].uuid@ != before[at as int].uuid@);
                    } else {
                        assert(kept[i] == before[i]);
                    }
                }
                assert forall|i: int, j: int| 0 <= i < j < kept.len() implies kept[i].uuid@
                    != kept[j].uuid@ by {
                    if at < before.len() {
                        let a = if i < at {
                            i
                        } else {
                            i + 1
                        };
                        let b = if j < at {
                            j
                        } else {
                            j + 1
                        };
                        assert(kept[i] == before[a] && kept[j] == before[b]);
                    }
                }
            }
        }
        self.waiting.push(Waiting { uuid, channel });
        displaced
    }

    /// Takes the request `uuid` out: its channel, for the reply to be
    /// delivered on, or `None` where no such request waits and the reply
    /// is to be discarded. The other requests stay as they are.
    pub fn claim(&mut self, uuid: &str) -> (channel: Option<C>)
        ensures
            ({
                let at = waiting_index(old(self).waiting@, uuid@, 0);
                if at < old(self).waiting@.len() {
                    &&& channel == Some(old(self).waiting@[at].channel)
                    &&& final(self).waiting@ == old(self).waiting@.remove(at)
                } else {
                    &&& channel is None
                    &&& final(self).waiting@ == old(self).waiting@
                }
            }),
            ids_distinct(old(self).waiting@) ==> ids_distinct(final(self).waiting@),
            ids_distinct(old(self).waiting@) ==> waiting_index(final(self).waiting@, uuid@, 0)
                == final(self).waiting@.len(),
    {
        let wanted = String::from_str(uuid);
        let at = self.find(&wanted);
        proof {
            lemma_waiting_index(self.waiting@, uuid@, 0);
        }
        if at < self.waiting.len() {
            let gone = self.waiting.remove(at);
            proof {
                let kept = self.waiting@;
                let before = old(self).waiting@;
                if ids_distinct(before) {
                    assert forall|i: int, j: int| 0 <= i < j < kept.len() implies kept[i].uuid@
                        != kept[j].uuid@ by {
                        let a = if i < at {
                            i
                        } else {
                            i + 1
                        };
                        let b = if j < at {
                            j
                        } else {
                            j + 1
                        };
                        assert(kept[i] == before[a] && kept[j] == before[b]);
                    }
                    assert forall|i: int| 0 <= i < kept.len() implies kept[i].uuid@ != uuid@ by {
                        let a = if i < at {
                            i
                        } else {
                            i + 1
                        };
                        assert(kept[i] == before[a]);
                        assert(before[a].uuid@ != before[at as int].uuid@);
                    }
                    lemma_waiting_absent(kept, uuid@, 0);
                }
            }
            Some(gone.channel)
        } else {
            None
        }
    }
}

/// Where no request has the id, `waiting_index` gives the number of
/// requests.
pub proof fn lemma_waiting_absent<C>(waiting: Seq<Waiting<C>>, uuid: Seq<char>, from: int)
    requires
        0 <= from <= waiting.len(),
        forall|i: int| 0 <= i < waiting.len() ==> waiting[i].uuid@ != uuid,
    ensures
        waiting_index(waiting, uuid, from) == waiting.len(),
    decreases waiting.len() - from,
{
    if from < waiting.len() {
        lemma_waiting_absent(waiting, uuid, from + 1);
    }
}

/// What a request does after a poll.
#[derive(Clone, Debug)]
pub enum Poll {
    /// The reply came: hand it out.
    Reply(String),
    /// No reply within the polls allowed: give up.
    TimedOut,
    /// Pause for `POLL_INTERVAL_MS`, then poll again; the number of polls
    /// spent so far.
    Wait(u8),
}

/// Decides what a request does after a poll that found `reply`, with
/// `polls` polls spent before it.
pub fn after_poll(polls: u8, reply: Option<String>) -> (next: Poll)
    ensures
        match reply {
            Some(text) => next == Poll::Reply(text),
            None => if polls >= POLL_LIMIT {
                next == Poll::TimedOut
            } else {
                next == Poll::Wait((polls + 1) as u8)
            },
        },
{
    match reply {
        Some(text) => Poll::Reply(text),
        None => if polls >= POLL_LIMIT {
            Poll::TimedOut
        } else {
            Poll::Wait(polls + 1)
        },
    }
}

} // verus!
