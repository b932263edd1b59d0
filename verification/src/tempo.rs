//! Tempo: the time base of a file, the map of its tempo changes, and the
//! lookup of the tempo in force at a time.
//!
//! One tick at a tempo of `T` microseconds per beat lasts `T` time units.
//! The tracks of a file start together: each is timed from its own start.

use vstd::prelude::*;
use vstd::arithmetic::div_mod::{lemma_mod_self_0, lemma_small_mod};
use crate::midi::MidiError;
use crate::smf::{tracks_view, Division, EventKind, TrackEvent};
use crate::stable::{before, lemma_stable_order, positions, sort_order, stable_order};

verus! {

/// The tempo in force where a track sets none: 120 beats per minute.
pub const DEFAULT_TEMPO: u32 = 500_000;

/// Ticks per second of a time-code division: frames per second times
/// ticks per frame, rounded down, 29 standing for 29.97 frames.
pub open spec fn ticks_per_second(fps: u8, subframe: u8) -> int {
    if fps == 29 {
        (2997 * subframe) / 100
    } else {
        fps * subframe
    }
}

/// Time units per second. With ticks per beat, a second is a million
/// microseconds of ticks; a time-code division is read at 120 beats per
/// minute, so that a tick lasts the default tempo.
pub open spec fn units_per_second(division: Division) -> int {
    match division {
        Division::Metrical(ticks) => ticks * 1_000_000,
        Division::Timecode { fps, subframe } => ticks_per_second(fps, subframe) * 500_000,
    }
}

/// Executable form of [`units_per_second`].
pub fn time_base(division: Division) -> (units: u64)
    ensures
        units == units_per_second(division),
{
    match division {
        Division::Metrical(ticks) => ticks as u64 * 1_000_000,
        Division::Timecode { fps, subframe } => {
            assert(fps * subframe <= 255 * 255) by (nonlinear_arith)
                requires
                    0 <= fps <= 255,
                    0 <= subframe <= 255,
            ;
            let ticks: u64 = if fps == 29 {
                (2997 * subframe as u64) / 100
            } else {
                fps as u64 * subframe as u64
            };
            ticks * 500_000
        },
    }
}

/// The times of tempo marks.
pub open spec fn mark_times(marks: Seq<(u64, u32)>) -> Seq<u64> {
    marks.map_values(|m: (u64, u32)| m.0)
}

/// No mark is earlier than the one before it.
pub open spec fn marks_sorted(marks: Seq<(u64, u32)>) -> bool {
    forall|i: int, j: int| 0 <= i < j < marks.len() ==> marks[i].0 <= marks[j].0
}

/// Mark `i` is at or before `t` and the mark after it, the first mark
/// following the last, is later than `t`.
pub open spec fn brackets(marks: Seq<(u64, u32)>, t: u64, i: int) -> bool {
    marks[i].0 <= t && t < marks[(i + 1) % (marks.len() as int)].0
}

/// The first position from `from` on that brackets `t`, or the last
/// position if none does.
pub open spec fn first_bracket(marks: Seq<(u64, u32)>, t: u64, from: int) -> int
    decreases marks.len() - from,
{
    if from < 0 || from >= marks.len() {
        marks.len() - 1
    } else if brackets(marks, t, from) {
        from
    } else {
        first_bracket(marks, t, from + 1)
    }
}

/// The mark in force at `t`: the only mark if there is one, else the first
/// that brackets `t`, else the last. `None` without marks.
pub open spec fn closest(marks: Seq<(u64, u32)>, t: u64) -> Option<(u64, u32)> {
    if marks.len() == 0 {
        None
    } else if marks.len() == 1 {
        Some(marks[0])
    } else {
        Some(marks[first_bracket(marks, t, 0)])
    }
}

/// The marks by time, marks of one time in their given order.
pub open spec fn marks_by_time(marks: Seq<(u64, u32)>) -> Seq<(u64, u32)> {
    let order = stable_order(mark_times(marks), marks.len() as int);
    Seq::new(order.len(), |i: int| marks[order[i]])
}

/// Where no position from `from` up to `k` brackets `t` and `k` does, or
/// `k` is the last position and none brackets, `first_bracket` is `k`.
pub proof fn lemma_first_bracket_is(marks: Seq<(u64, u32)>, t: u64, from: int, k: int)
    requires
        marks.len() > 0,
        0 <= from <= k < marks.len(),
        forall|i: int| from <= i < k ==> !brackets(marks, t, i),
        brackets(marks, t, k) || k == marks.len() - 1,
    ensures
        first_bracket(marks, t, from) == k,
    decreases k - from,
{
    if from < k {
        lemma_first_bracket_is(marks, t, from + 1, k);
    } else if !brackets(marks, t, k) {
        assert(first_bracket(marks, t, k + 1) == marks.len() - 1);
    }
}

/// In a map sorted by time, the mark in force at a time `t` that is not
/// before the first mark is the closest preceding one: the last mark at
/// or before `t`.
pub proof fn lemma_closest_precedes(marks: Seq<(u64, u32)>, t: u64, k: int)
    requires
        marks_sorted(marks),
        0 <= k < marks.len(),
        marks[k].0 <= t,
        forall|j: int| k < j < marks.len() ==> t < marks[j].0,
    ensures
        closest(marks, t) == Some(marks[k]),
{
    if marks.len() > 1 {
        let n = marks.len() as int;
        assert forall|i: int| 0 <= i < k implies !brackets(marks, t, i) by {
            lemma_small_mod((i + 1) as nat, n as nat);
            assert(marks[i + 1].0 <= marks[k].0);
        }
        if k < n - 1 {
            lemma_small_mod((k + 1) as nat, n as nat);
            assert(brackets(marks, t, k));
        } else {
            lemma_mod_self_0(n);
            assert(marks[0].0 <= marks[k].0);
        }
        lemma_first_bracket_is(marks, t, 0, k);
    }
}

/// The mark of `vals` in force at `t`; with `sort_list`, `vals` are sorted
/// by time first. `None` exactly where `vals` is empty.
pub fn closest_tempo(vals: &Vec<(u64, u32)>, t: u64, sort_list: bool) -> (r: Option<(u64, u32)>)
    ensures
        r == closest(
            if sort_list {
                marks_by_time(vals@)
            } else {
                vals@
            },
            t,
        ),
{
    if sort_list {
        let sorted = sort_marks(vals);
        closest_in(&sorted, t)
    } else {
        closest_in(vals, t)
    }
}

/// The mark of `vals` in force at `t`.
pub fn closest_in(vals: &Vec<(u64, u32)>, t: u64) -> (r: Option<(u64, u32)>)
    ensures
        r == closest(vals@, t),
        r is None <==> vals.len() == 0,
{
    if vals.len() == 0 {
        return None;
    }
    if vals.len() == 1 {
        return Some(vals[0]);
    }
    let n = vals.len();
    let mut i: usize = 0;
    while i < n
        invariant
            n == vals.len(),
            n > 1,
            i <= n,
            first_bracket(vals@, t, i as int) == first_bracket(vals@, t, 0),
        decreases n - i,
    {
        if vals[i].0 <= t && t < vals[(i + 1) % n].0 {
            return Some(vals[i]);
        }
        i += 1;
    }
    Some(vals[n - 1])
}

/// The marks by time, marks of one time in their given order.
pub fn sort_marks(vals: &Vec<(u64, u32)>) -> (sorted: Vec<(u64, u32)>)
    ensures
        sorted@ == marks_by_time(vals@),
{
    let mut keys: Vec<u64> = Vec::new();
    let mut i: usize = 0;
    while i < vals.len()
        invariant
            i <= vals.len(),
            keys@ == mark_times(vals@).take(i as int),
        decreases vals.len() - i,
    {
        keys.push(vals[i].0);
        assert(mark_times(vals@).take(i as int).push(mark_times(vals@)[i as int]) =~= mark_times(
            vals@,
        ).take(i + 1));
        i += 1;
    }
    assert(mark_times(vals@).take(vals.len() as int) =~= mark_times(vals@));
    let order = sort_order(&keys);
    let mut out: Vec<(u64, u32)> = Vec::new();
    let mut k: usize = 0;
    while k < order.len()
        invariant
            k <= order.len(),
            order.len() == vals.len(),
            keys@ == mark_times(vals@),
            positions(order@) == stable_order(keys@, keys.len() as int),
            forall|i: int| 0 <= i < order.len() ==> order@[i] < keys.len(),
            out.len() == k,
            forall|i: int| 0 <= i < k ==> out@[i] == vals@[order@[i] as int],
        decreases order.len() - k,
    {
        out.push(vals[order[k]]);
        k += 1;
    }
    proof {
        assert forall|i: int| 0 <= i < out.len() implies out@[i] == marks_by_time(vals@)[i] by {
            assert(positions(order@)[i] == order@[i] as int);
        }
        assert(out@ =~= marks_by_time(vals@));
    }
    out
}

/// The last of the first `n` marks that is not later than `t`.
pub open spec fn in_force(marks: Seq<(u64, u32)>, t: u64, n: int) -> Option<(u64, u32)>
    decreases n,
{
    if n <= 0 || n > marks.len() {
        None
    } else if marks[n - 1].0 <= t {
        Some(marks[n - 1])
    } else {
        in_force(marks, t, n - 1)
    }
}

/// The tempo with which a track starts: that of the mark in force at time
/// 0, the default where no mark stands at time 0.
pub open spec fn start_tempo(marks: Seq<(u64, u32)>) -> u32 {
    match in_force(marks, 0, marks.len() as int) {
        Some(mark) => mark.1,
        None => DEFAULT_TEMPO,
    }
}

/// Where the marks from `n` on are later than `t`, the mark in force among
/// the first `n` marks of a sorted map is the one that `closest` gives.
pub proof fn lemma_in_force_closest(marks: Seq<(u64, u32)>, t: u64, n: int)
    requires
        marks_sorted(marks),
        0 <= n <= marks.len(),
        forall|j: int| n <= j < marks.len() ==> t < marks[j].0,
    ensures
        in_force(marks, t, n) matches Some(mark) ==> closest(marks, t) == Some(mark),
    decreases n,
{
    if n > 0 {
        if marks[n - 1].0 <= t {
            lemma_closest_precedes(marks, t, n - 1);
        } else {
            lemma_in_force_closest(marks, t, n - 1);
        }
    }
}

/// In a map sorted by time, the mark in force at `t` is the closest
/// preceding one, and where there is one it is what `closest` gives.
pub proof fn lemma_in_force(marks: Seq<(u64, u32)>, t: u64)
    requires
        marks_sorted(marks),
    ensures
        in_force(marks, t, marks.len() as int) matches Some(mark) ==> mark.0 <= t && closest(
            marks,
            t,
        ) == Some(mark),
        in_force(marks, t, marks.len() as int) is None ==> forall|i: int|
            0 <= i < marks.len() ==> t < marks[i].0,
{
    lemma_in_force_closest(marks, t, marks.len() as int);
    lemma_in_force_none(marks, t, marks.len() as int);
}

/// A mark in force is not later than `t`, and where none of the first `n`
/// marks is in force, each of them is later than `t`.
pub proof fn lemma_in_force_none(marks: Seq<(u64, u32)>, t: u64, n: int)
    requires
        0 <= n <= marks.len(),
    ensures
        in_force(marks, t, n) matches Some(mark) ==> mark.0 <= t,
        in_force(marks, t, n) is None ==> forall|i: int| 0 <= i < n ==> t < marks[i].0,
    decreases n,
{
    if n > 0 && marks[n - 1].0 > t {
        lemma_in_force_none(marks, t, n - 1);
    }
}

/// The mark of `marks` in force at `t`: the last one that is not later
/// than `t`. `None` where every mark is later.
pub fn tempo_in_force(marks: &Vec<(u64, u32)>, t: u64) -> (r: Option<(u64, u32)>)
    ensures
        r == in_force(marks@, t, marks.len() as int),
{
    let mut n: usize = marks.len();
    while n > 0 && marks[n - 1].0 > t
        invariant
            n <= marks.len(),
            in_force(marks@, t, n as int) == in_force(marks@, t, marks.len() as int),
        decreases n,
    {
        n -= 1;
    }
    if n == 0 {
        None
    } else {
        Some(marks[n - 1])
    }
}

/// Marks by time are sorted by time.
pub proof fn lemma_marks_by_time(marks: Seq<(u64, u32)>)
    ensures
        marks_sorted(marks_by_time(marks)),
        marks_by_time(marks).len() == marks.len(),
{
    let keys = mark_times(marks);
    let n = marks.len() as int;
    lemma_stable_order(keys, n);
    let order = stable_order(keys, n);
    let sorted = marks_by_time(marks);
    assert forall|i: int, j: int| 0 <= i < j < sorted.len() implies sorted[i].0 <= sorted[j].0 by {
        assert(before(keys, order[i], order[j]));
        assert(0 <= order[i] < n && 0 <= order[j] < n);
    }
}

/// The clock of the pass that collects tempo changes.
pub struct Clock {
    pub time: int,
    pub tempo: u32,
    /// The tempo events met so far, each with its time.
    pub marks: Seq<(u64, u32)>,
    /// Whether the time has left the range of `u64` at some event.
    pub late: bool,
}

impl Clock {
    /// The clock before the first event of a file.
    pub open spec fn start() -> Clock {
        Clock { time: 0, tempo: DEFAULT_TEMPO, marks: seq![], late: false }
    }

    /// The clock at the start of a track: time and tempo start over, the
    /// marks stay.
    pub open spec fn restart(self) -> Clock {
        Clock { time: 0, tempo: DEFAULT_TEMPO, ..self }
    }

    /// The clock after one more event: time moves on by the event's ticks
    /// at the tempo in force, and a tempo event sets the tempo and leaves
    /// a mark at its time.
    pub open spec fn tick(self, event: TrackEvent) -> Clock {
        let time = self.time + event.delta * self.tempo;
        let late = self.late || time > u64::MAX;
        match event.kind {
            EventKind::Tempo(tempo) => Clock {
                time,
                tempo,
                marks: self.marks.push((time as u64, tempo)),
                late,
            },
            _ => Clock { time, late, ..self },
        }
    }

    /// The clock after the first `n` events of `events`.
    pub open spec fn run(self, events: Seq<TrackEvent>, n: int) -> Clock
        decreases n,
    {
        if n <= 0 {
            self
        } else {
            self.run(events, n - 1).tick(events[n - 1])
        }
    }

    /// The clock after the first `m` tracks of `tracks`, each track timed
    /// from its own start.
    pub open spec fn run_all(self, tracks: Seq<Seq<TrackEvent>>, m: int) -> Clock
        decreases m,
    {
        if m <= 0 {
            self
        } else {
            self.run_all(tracks, m - 1).restart().run(tracks[m - 1], tracks[m - 1].len() as int)
        }
    }
}

/// Once the time has left the range of `u64`, the clock stays late.
pub proof fn lemma_run_late(clock: Clock, events: Seq<TrackEvent>, k: int, n: int)
    requires
        0 <= k <= n,
        clock.run(events, k).late,
    ensures
        clock.run(events, n).late,
    decreases n,
{
    if k < n {
        lemma_run_late(clock, events, k, n - 1);
    }
}

/// A clock that is late after some tracks is late after more of them.
pub proof fn lemma_run_all_late(clock: Clock, tracks: Seq<Seq<TrackEvent>>, k: int, m: int)
    requires
        0 <= k <= m,
        clock.run_all(tracks, k).late,
    ensures
        clock.run_all(tracks, m).late,
    decreases m,
{
    if k < m {
        lemma_run_all_late(clock, tracks, k, m - 1);
        lemma_run_late(
            clock.run_all(tracks, m - 1).restart(),
            tracks[m - 1],
            0,
            tracks[m - 1].len() as int,
        );
    }
}

/// The tempo marks of a file: every tempo event of every track with its
/// time, each track timed from its own start, the marks sorted by time and
/// marks of one time in the order of their tracks. The error is
/// `InvalidFile`, where the time of a track leaves the range of `u64`.
pub fn tempo_map(tracks: &Vec<Vec<TrackEvent>>) -> (r: Result<Vec<(u64, u32)>, MidiError>)
    ensures
        match r {
            Ok(marks) => {
                let clock = Clock::start().run_all(tracks_view(tracks@), tracks.len() as int);
                !clock.late && marks@ == marks_by_time(clock.marks) && marks_sorted(marks@)
            },
            Err(e) => e == MidiError::InvalidFile && Clock::start().run_all(
                tracks_view(tracks@),
                tracks.len() as int,
            ).late,
        },
{
    let ghost all = tracks_view(tracks@);
    let mut marks: Vec<(u64, u32)> = Vec::new();
    let mut m: usize = 0;
    while m < tracks.len()
        invariant
            m <= tracks.len(),
            all == tracks_view(tracks@),
            !Clock::start().run_all(all, m as int).late,
            Clock::start().run_all(all, m as int).marks == marks@,
        decreases tracks.len() - m,
    {
        let events = &tracks[m];
        let ghost begun = Clock::start().run_all(all, m as int).restart();
        assert(all[m as int] == events@);
        let mut time: u64 = 0;
        let mut tempo: u32 = DEFAULT_TEMPO;
        let mut i: usize = 0;
        while i < events.len()
            invariant
                i <= events.len(),
                m < tracks.len(),
                all == tracks_view(tracks@),
                all[m as int] == events@,
                begun == Clock::start().run_all(all, m as int).restart(),
                begun.run(events@, i as int) == (Clock {
                    time: time as int,
                    tempo,
                    marks: marks@,
                    late: false,
                }),
            decreases events.len() - i,
        {
            let delta = events[i].delta;
            assert(delta * tempo <= 0xffff_ffff * 0xffff_ffff) by (nonlinear_arith)
                requires
                    0 <= delta <= 0xffff_ffff,
                    0 <= tempo <= 0xffff_ffff,
            ;
            assert(0 <= delta * tempo) by (nonlinear_arith)
                requires
                    0 <= delta,
                    0 <= tempo,
            ;
            let step: u64 = delta as u64 * tempo as u64;
            match time.checked_add(step) {
                None => {
                    proof {
                        assert(begun.run(events@, i + 1).late);
                        lemma_run_late(begun, events@, i + 1, events.len() as int);
                        assert(Clock::start().run_all(all, m + 1).late);
                        lemma_run_all_late(Clock::start(), all, m + 1, tracks.len() as int);
                    }
                    return Err(MidiError::InvalidFile);
                },
                Some(next) => {
                    time = next;
                },
            }
            match &events[i].kind {
                EventKind::Tempo(new_tempo) => {
                    tempo = *new_tempo;
                    marks.push((time, tempo));
                },
                _ => {},
            }
            i += 1;
        }
        m += 1;
    }
    proof {
        lemma_marks_by_time(marks@);
    }
    Ok(sort_marks(&marks))
}

} // verus!
