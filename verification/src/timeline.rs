use vstd::prelude::*;

use crate::lyrics::{Event, EventType, tc_add, tc_sub};
use crate::project::Track;
use crate::selection::{SelectionManager, select_in};
use crate::track_commands::SetEventTimingsCommand;

verus! {

/// The shortest an event can be dragged to, in milliseconds.
pub const MIN_EVENT_SIZE: u32 = 100;

/// Whether `ids` holds `id`.
fn holds(ids: &Vec<u128>, id: u128) -> (b: bool)
    ensures
        b == ids@.contains(id),
{
    let mut i: usize = 0;
    while i < ids.len()
        invariant
            0 <= i <= ids@.len(),
            forall|j: int| 0 <= j < i ==> ids@[j] != id,
        decreases ids@.len() - i,
    {
        if ids[i] == id {
            return true;
        }
        i = i + 1;
    }
    false
}

/// The latest end, no later than `start`, of the events of `evs` that are not
/// being dragged; 0 if there is none.
pub open spec fn prev_end(evs: Seq<Event>, dragged: Set<u128>, start: u32) -> u32
    decreases evs.len(),
{
    if evs.len() == 0 {
        0
    } else {
        let p = prev_end(evs.drop_last(), dragged, start);
        let e = evs.last();
        if !dragged.contains(e.id) && e.end_timecode <= start && e.end_timecode > p {
            e.end_timecode
        } else {
            p
        }
    }
}

/// The earliest start, no earlier than `end`, of the events of `evs` that are
/// not being dragged; the largest timecode if there is none.
pub open spec fn next_start(evs: Seq<Event>, dragged: Set<u128>, end: u32) -> u32
    decreases evs.len(),
{
    if evs.len() == 0 {
        u32::MAX
    } else {
        let n = next_start(evs.drop_last(), dragged, end);
        let e = evs.last();
        if !dragged.contains(e.id) && e.start_timecode >= end && e.start_timecode < n {
            e.start_timecode
        } else {
            n
        }
    }
}

/// The first event with identifier `id` of the first track holding one, as
/// the track's index and the event.
pub open spec fn locate_event(tracks: Seq<Track>, id: u128) -> Option<(int, Event)>
    decreases tracks.len(),
{
    if tracks.len() == 0 {
        None
    } else {
        match crate::project::index_of_id(tracks[0].events@, id) {
            Some(k) => Some((0, tracks[0].events@[k])),
            None => match locate_event(tracks.skip(1), id) {
                Some((t, e)) => Some((t + 1, e)),
                None => None,
            },
        }
    }
}

/// The start and end of the event `id` as `locate_event` finds it.
pub open spec fn timing_of(tracks: Seq<Track>, id: u128) -> Option<(u32, u32)> {
    match locate_event(tracks, id) {
        Some((t, ev)) => Some((ev.start_timecode, ev.end_timecode)),
        None => None,
    }
}

/// How far an event can be dragged: from the end of the previous event of
/// its track to the start of the next one, leaving out the events being
/// dragged with it.
pub open spec fn track_bounds(tracks: Seq<Track>, dragged: Set<u128>, id: u128) -> (u32, u32) {
    match locate_event(tracks, id) {
        Some((t, ev)) => (
            prev_end(tracks[t].events@, dragged, ev.start_timecode),
            next_start(tracks[t].events@, dragged, ev.end_timecode),
        ),
        None => (0, u32::MAX),
    }
}

/// `prev_end` is the latest end, no later than `start`, among the events
/// not dragged: it bounds every such end, touching ones included, and is
/// one of them or 0.
pub proof fn lemma_prev_end(evs: Seq<Event>, dragged: Set<u128>, start: u32)
    ensures
        prev_end(evs, dragged, start) <= start,
        forall|i: int|
            0 <= i < evs.len() && !dragged.contains(evs[i].id) && #[trigger] evs[i].end_timecode <= start
                ==> evs[i].end_timecode <= prev_end(evs, dragged, start),
        prev_end(evs, dragged, start) == 0 || exists|i: int|
            0 <= i < evs.len() && !dragged.contains(evs[i].id) && #[trigger] evs[i].end_timecode == prev_end(
                evs,
                dragged,
                start,
            ),
    decreases evs.len(),
{
    if evs.len() > 0 {
        let d = evs.drop_last();
        lemma_prev_end(d, dragged, start);
        assert forall|i: int|
            0 <= i < evs.len() && !dragged.contains(evs[i].id) && #[trigger] evs[i].end_timecode <= start
                implies evs[i].end_timecode <= prev_end(evs, dragged, start) by {
            if i < d.len() {
                assert(d[i] == evs[i]);
            }
        }
        if prev_end(evs, dragged, start) != 0 {
            if prev_end(evs, dragged, start) == prev_end(d, dragged, start) {
                let i = choose|i: int|
                    0 <= i < d.len() && !dragged.contains(d[i].id) && #[trigger] d[i].end_timecode == prev_end(
                        d,
                        dragged,
                        start,
                    );
                assert(evs[i] == d[i]);
            } else {
                assert(evs[evs.len() - 1].end_timecode == prev_end(evs, dragged, start));
            }
        }
    }
}

/// `next_start` is the earliest start, no earlier than `end`, among the
/// events not dragged: it bounds every such start, touching ones included,
/// and is one of them or the largest timecode.
pub proof fn lemma_next_start(evs: Seq<Event>, dragged: Set<u128>, end: u32)
    ensures
        next_start(evs, dragged, end) >= end,
        forall|i: int|
            0 <= i < evs.len() && !dragged.contains(evs[i].id) && #[trigger] evs[i].start_timecode >= end
                ==> evs[i].start_timecode >= next_start(evs, dragged, end),
        next_start(evs, dragged, end) == u32::MAX || exists|i: int|
            0 <= i < evs.len() && !dragged.contains(evs[i].id) && #[trigger] evs[i].start_timecode == next_start(
                evs,
                dragged,
                end,
            ),
    decreases evs.len(),
{
    if evs.len() > 0 {
        let d = evs.drop_last();
        lemma_next_start(d, dragged, end);
        assert forall|i: int|
            0 <= i < evs.len() && !dragged.contains(evs[i].id) && #[trigger] evs[i].start_timecode >= end
                implies evs[i].start_timecode >= next_start(evs, dragged, end) by {
            if i < d.len() {
                assert(d[i] == evs[i]);
            }
        }
        if next_start(evs, dragged, end) != u32::MAX {
            if next_start(evs, dragged, end) == next_start(d, dragged, end) {
                let i = choose|i: int|
                    0 <= i < d.len() && !dragged.contains(d[i].id) && #[trigger] d[i].start_timecode == next_start(
                        d,
                        dragged,
                        end,
                    );
                assert(evs[i] == d[i]);
            } else {
                assert(evs[evs.len() - 1].start_timecode == next_start(evs, dragged, end));
            }
        }
    }
}

/// How far an event can be dragged on its track: the lower bound is the
/// latest end, no later than the event's start, of the track's events that
/// are not dragged (so a neighbour that touches the event bounds it), or 0;
/// the upper bound is the earliest start, no earlier than the event's end,
/// of those events, or the largest timecode. An event on no track is free.
pub proof fn lemma_track_bounds(tracks: Seq<Track>, dragged: Set<u128>, id: u128)
    ensures
        match locate_event(tracks, id) {
            Some((t, ev)) => {
                let evs = tracks[t].events@;
                let (lo, hi) = track_bounds(tracks, dragged, id);
                &&& lo <= ev.start_timecode
                &&& hi >= ev.end_timecode
                &&& forall|i: int|
                    0 <= i < evs.len() && !dragged.contains(evs[i].id) && #[trigger] evs[i].end_timecode
                        <= ev.start_timecode ==> evs[i].end_timecode <= lo
                &&& forall|i: int|
                    0 <= i < evs.len() && !dragged.contains(evs[i].id) && #[trigger] evs[i].start_timecode
                        >= ev.end_timecode ==> evs[i].start_timecode >= hi
                &&& lo == 0 || exists|i: int|
                    0 <= i < evs.len() && !dragged.contains(evs[i].id) && #[trigger] evs[i].end_timecode == lo
                &&& hi == u32::MAX || exists|i: int|
                    0 <= i < evs.len() && !dragged.contains(evs[i].id) && #[trigger] evs[i].start_timecode == hi
            },
            None => track_bounds(tracks, dragged, id) == (0u32, u32::MAX),
        },
{
    if let Some((t, ev)) = locate_event(tracks, id) {
        lemma_prev_end(tracks[t].events@, dragged, ev.start_timecode);
        lemma_next_start(tracks[t].events@, dragged, ev.end_timecode);
    }
}

proof fn lemma_locate_event(tracks: Seq<Track>, id: u128)
    ensures
        locate_event(tracks, id) matches Some((t, ev)) ==> (0 <= t < tracks.len()
            && (crate::project::index_of_id(tracks[t].events@, id) matches Some(k) && ev == tracks[t].events@[k])
            && forall|j: int| 0 <= j < t ==> crate::project::index_of_id(tracks[j].events@, id) is None),
        locate_event(tracks, id) is None ==> forall|j: int|
            0 <= j < tracks.len() ==> crate::project::index_of_id(tracks[j].events@, id) is None,
    decreases tracks.len(),
{
    if tracks.len() > 0 && crate::project::index_of_id(tracks[0].events@, id) is None {
        lemma_locate_event(tracks.skip(1), id);
        assert forall|j: int| 1 <= j < tracks.len() implies tracks.skip(1)[j - 1] == tracks[j] by {}
    }
}

fn bounds_in(evs: &Vec<Event>, dragged: &Vec<u128>, start: u32, end: u32) -> (r: (u32, u32))
    ensures
        r == (prev_end(evs@, dragged@.to_set(), start), next_start(evs@, dragged@.to_set(), end)),
{
    let mut lo: u32 = 0;
    let mut hi: u32 = u32::MAX;
    let mut i: usize = 0;
    while i < evs.len()
        invariant
            0 <= i <= evs@.len(),
            lo == prev_end(evs@.take(i as int), dragged@.to_set(), start),
            hi == next_start(evs@.take(i as int), dragged@.to_set(), end),
        decreases evs@.len() - i,
    {
        proof {
            assert(evs@.take(i + 1).drop_last() == evs@.take(i as int));
            assert(evs@.take(i + 1).last() == evs@[i as int]);
        }
        let e = &evs[i];
        let is_dragged = holds(dragged, e.id);
        proof {
            assert(dragged@.contains(e.id) == dragged@.to_set().contains(e.id));
        }
        if !is_dragged && e.end_timecode <= start && e.end_timecode > lo {
            lo = e.end_timecode;
        }
        if !is_dragged && e.start_timecode >= end && e.start_timecode < hi {
            hi = e.start_timecode;
        }
        i = i + 1;
    }
    assert(evs@.take(evs@.len() as int) == evs@);
    (lo, hi)
}

/// Finds the end of the previous event and the start of the next event,
/// on its track, of the event `event_id`, passing over the events `dragged`.
pub fn get_event_track_bounds(tracks: &Vec<Track>, dragged: &Vec<u128>, event_id: u128) -> (r: (u32, u32))
    ensures
        r == track_bounds(tracks@, dragged@.to_set(), event_id),
{
    proof {
        lemma_locate_event(tracks@, event_id);
    }
    let mut t: usize = 0;
    while t < tracks.len()
        invariant
            0 <= t <= tracks@.len(),
            forall|j: int| 0 <= j < t ==> crate::project::index_of_id(tracks@[j].events@, event_id) is None,
        decreases tracks@.len() - t,
    {
        let mut k: usize = 0;
        proof {
            crate::project::lemma_index_of_id(tracks@[t as int].events@, event_id);
        }
        while k < tracks[t].events.len()
            invariant
                0 <= k <= tracks@[t as int].events@.len(),
                t < tracks@.len(),
                forall|j: int| 0 <= j < t ==> crate::project::index_of_id(tracks@[j].events@, event_id) is None,
                forall|j: int| 0 <= j < k ==> tracks@[t as int].events@[j].id != event_id,
            decreases tracks@[t as int].events@.len() - k,
        {
            if tracks[t].events[k].id == event_id {
                proof {
                    lemma_locate_event(tracks@, event_id);
                    crate::project::lemma_index_of_id(tracks@[t as int].events@, event_id);
                    if let Some((f, ev)) = locate_event(tracks@, event_id) {
                        if f < t {
                            assert(crate::project::index_of_id(tracks@[f].events@, event_id) is None);
                        }
                        if f > t {
                            assert(crate::project::index_of_id(tracks@[t as int].events@, event_id) is None);
                        }
                        if let Some(kk) = crate::project::index_of_id(tracks@[t as int].events@, event_id) {
                            if kk < k {
                                assert(tracks@[t as int].events@[kk].id != event_id);
                            }
                            if kk > k {
                                assert(tracks@[t as int].events@[k as int].id != event_id);
                            }
                        }
                    }
                }
                let ev = &tracks[t].events[k];
                return bounds_in(&tracks[t].events, dragged, ev.start_timecode, ev.end_timecode);
            }
            k = k + 1;
        }
        proof {
            crate::project::lemma_index_of_id(tracks@[t as int].events@, event_id);
        }
        t = t + 1;
    }
    proof {
        lemma_locate_event(tracks@, event_id);
    }
    (0, u32::MAX)
}

/// Where a drag lands: `mouse` held between `min` and `max`, or, when it is
/// within `snap_radius` of one of `snap_points` (the first such), that point
/// held between them.
pub open spec fn drag_pos(mouse: u32, min: u32, max: u32, snap_points: Seq<u32>, snap_radius: u32) -> u32 {
    if mouse < min {
        min
    } else if mouse > max {
        max
    } else {
        match first_near(snap_points, mouse, snap_radius) {
            Some(i) => clamp(snap_points[i], min, max),
            None => mouse,
        }
    }
}

/// `x` held between `min` and `max`.
pub open spec fn clamp(x: u32, min: u32, max: u32) -> u32 {
    if x < min {
        min
    } else if x > max {
        max
    } else {
        x
    }
}

/// How far apart two timecodes are.
pub open spec fn distance(a: u32, b: u32) -> u32 {
    if a >= b {
        (a - b) as u32
    } else {
        (b - a) as u32
    }
}

/// The index of the first of `points` closer than `radius` to `x`.
pub open spec fn first_near(points: Seq<u32>, x: u32, radius: u32) -> Option<int>
    decreases points.len(),
{
    if points.len() == 0 {
        None
    } else if distance(points[0], x) < radius {
        Some(0)
    } else {
        match first_near(points.skip(1), x, radius) {
            Some(i) => Some(i + 1),
            None => None,
        }
    }
}

proof fn lemma_first_near(points: Seq<u32>, x: u32, radius: u32)
    ensures
        first_near(points, x, radius) matches Some(i) ==> 0 <= i < points.len() && distance(points[i], x) < radius
            && forall|j: int| 0 <= j < i ==> distance(points[j], x) >= radius,
        first_near(points, x, radius) is None ==> forall|j: int| 0 <= j < points.len() ==> distance(points[j], x) >= radius,
    decreases points.len(),
{
    if points.len() > 0 && distance(points[0], x) >= radius {
        lemma_first_near(points.skip(1), x, radius);
        assert forall|j: int| 1 <= j < points.len() implies points.skip(1)[j - 1] == points[j] by {}
    }
}

/// Where a drag of the mouse to `mouse_time` puts the dragged edge: held
/// between `min_time` and `max_time`, snapped to the first snap point that
/// is closer than `snap_radius` milliseconds.
pub fn get_drag_pos(mouse_time: u32, min_time: u32, max_time: u32, snap_points: &[u32], snap_radius: u32) -> (p: u32)
    ensures
        p == drag_pos(mouse_time, min_time, max_time, snap_points@, snap_radius),
        min_time <= max_time ==> min_time <= p <= max_time,
{
    if mouse_time < min_time {
        return min_time;
    } else if mouse_time > max_time {
        return max_time;
    }
    proof {
        lemma_first_near(snap_points@, mouse_time, snap_radius);
    }
    let mut i: usize = 0;
    while i < snap_points.len()
        invariant
            0 <= i <= snap_points@.len(),
            min_time <= mouse_time <= max_time,
            forall|j: int| 0 <= j < i ==> distance(snap_points@[j], mouse_time) >= snap_radius,
        decreases snap_points@.len() - i,
    {
        let s = snap_points[i];
        let d = if s >= mouse_time {
            s - mouse_time
        } else {
            mouse_time - s
        };
        if d < snap_radius {
            proof {
                lemma_first_near(snap_points@, mouse_time, snap_radius);
                if let Some(f) = first_near(snap_points@, mouse_time, snap_radius) {
                    if f < i {
                        assert(distance(snap_points@[f], mouse_time) >= snap_radius);
                    }
                    if f > i {
                        assert(distance(snap_points@[i as int], mouse_time) >= snap_radius);
                    }
                } else {
                    assert(distance(snap_points@[i as int], mouse_time) >= snap_radius);
                }
                assert(s == snap_points@[i as int]);
                assert(distance(s, mouse_time) == d);
            }
            return if s < min_time {
                min_time
            } else if s > max_time {
                max_time
            } else {
                s
            };
        }
        i = i + 1;
    }
    mouse_time
}

/// Which part of an event a drag moves.
#[derive(Debug, Clone, Copy, PartialEq, Eq, Structural)]
pub enum DragType {
    Start,
    End,
    MoveEvent,
}

/// The events being dragged, in order of their start, with their timings as
/// the drag goes and as they were before it.
pub struct DragState {
    pub events: Vec<u128>,
    pub timings: Vec<(u32, u32)>,
    pub orig_timings: Vec<(u32, u32)>,
    pub drag_type: DragType,
}

/// Whether `s` holds no identifier twice.
pub open spec fn distinct(s: Seq<u128>) -> bool {
    forall|i: int, j: int| 0 <= i < s.len() && 0 <= j < s.len() && i != j ==> s[i] != s[j]
}

/// Whether the timings are in order of their start.
pub open spec fn sorted_by_start(t: Seq<(u32, u32)>) -> bool {
    forall|i: int, j: int| 0 <= i <= j < t.len() ==> t[i].0 <= t[j].0
}

impl DragState {
    pub open spec fn wf(&self) -> bool {
        &&& self.events@.len() == self.timings@.len()
        &&& self.events@.len() == self.orig_timings@.len()
    }

    /// The drag of `events`, each once, of those that some track holds, in
    /// order of their start: each comes with the timing of its first
    /// occurrence.
    pub fn new(tracks: &Vec<Track>, drag_type: DragType, events: Vec<u128>) -> (d: DragState)
        ensures
            d.wf(),
            d.drag_type == drag_type,
            d.timings@ == d.orig_timings@,
            distinct(d.events@),
            sorted_by_start(d.timings@),
            d.events@.to_set() == events@.to_set().filter(|id: u128| locate_event(tracks@, id) is Some),
            forall|i: int| 0 <= i < d.events@.len() ==> timing_of(tracks@, d.events@[i]) == Some(d.timings@[i]),
    {
        // Each identifier once, with the timing of the event it names, kept in
        // order of start; an event goes after those that start with it.
        let mut ids: Vec<u128> = Vec::new();
        let mut timings: Vec<(u32, u32)> = Vec::new();
        let mut i: usize = 0;
        while i < events.len()
            invariant
                0 <= i <= events@.len(),
                ids@.len() == timings@.len(),
                distinct(ids@),
                sorted_by_start(timings@),
                ids@.to_set() == events@.take(i as int).to_set().filter(|id: u128| locate_event(tracks@, id) is Some),
                forall|k: int| 0 <= k < ids@.len() ==> timing_of(tracks@, ids@[k]) == Some(timings@[k]),
            decreases events@.len() - i,
        {
            let id = events[i];
            proof {
                assert(events@.take(i + 1) =~= events@.take(i as int).push(id));
                lemma_insert_to_set(events@.take(i as int), i as int, id);
                assert(events@.take(i as int).insert(i as int, id) =~= events@.take(i as int).push(id));
            }
            let seen = holds(&ids, id);
            let found = find_timing(tracks, id);
            if !seen {
                if let Some(timing) = found {
                    let mut pos: usize = 0;
                    while pos < timings.len() && timings[pos].0 <= timing.0
                        invariant
                            0 <= pos <= timings@.len(),
                            forall|j: int| 0 <= j < pos ==> timings@[j].0 <= timing.0,
                        decreases timings@.len() - pos,
                    {
                        pos = pos + 1;
                    }
                    let ghost before_ids = ids@;
                    let ghost before_t = timings@;
                    ids.insert(pos, id);
                    timings.insert(pos, timing);
                    proof {
                        assert forall|a: int, b: int| 0 <= a < ids@.len() && 0 <= b < ids@.len() && a != b implies ids@[a] != ids@[b] by {
                            if a == pos || b == pos {
                                let o = if a == pos { b } else { a };
                                let k = if o < pos { o } else { o - 1 };
                                assert(before_ids[k] == ids@[o]);
                            } else {
                                let ka = if a < pos { a } else { a - 1 };
                                let kb = if b < pos { b } else { b - 1 };
                                assert(before_ids[ka] == ids@[a]);
                                assert(before_ids[kb] == ids@[b]);
                            }
                        }
                        assert forall|a: int, b: int| 0 <= a <= b < timings@.len() implies timings@[a].0 <= timings@[b].0 by {
                            if pos < before_t.len() {
                                assert(before_t[pos as int].0 > timing.0);
                            }
                            if a < pos && b > pos {
                                assert(before_t[a].0 <= timing.0);
                            } else if a < pos && b == pos {
                            } else if a == pos && b > pos {
                                assert(before_t[pos as int].0 <= before_t[b - 1].0);
                            } else if a > pos {
                                assert(before_t[a - 1].0 <= before_t[b - 1].0);
                            }
                        }
                        assert forall|k: int| 0 <= k < ids@.len() implies timing_of(tracks@, ids@[k]) == Some(timings@[k]) by {
                            if k < pos {
                                assert(ids@[k] == before_ids[k] && timings@[k] == before_t[k]);
                            } else if k > pos {
                                assert(ids@[k] == before_ids[k - 1] && timings@[k] == before_t[k - 1]);
                            }
                        }
                        lemma_insert_to_set(before_ids, pos as int, id);
                    }
                }
            }
            proof {
                if seen {
                    assert(ids@.to_set().contains(id));
                }
                assert(ids@.to_set() =~= events@.take(i + 1).to_set().filter(|x: u128| locate_event(tracks@, x) is Some));
            }
            i = i + 1;
        }
        assert(events@.take(events@.len() as int) == events@);
        let orig = copy_timings(&timings);
        DragState { events: ids, orig_timings: orig, timings, drag_type }
    }
}

proof fn lemma_single_to_set(x: u128)
    ensures
        seq![x].to_set() == set![x],
{
    assert forall|y: u128| seq![x].contains(y) <==> y == x by {
        if y == x {
            assert(seq![x][0] == y);
        }
    }
    assert(seq![x].to_set() =~= set![x]);
}

/// Inserting `x` into a sequence adds `x` to its set of items.
proof fn lemma_insert_to_set(s: Seq<u128>, pos: int, x: u128)
    requires
        0 <= pos <= s.len(),
    ensures
        s.insert(pos, x).to_set() == s.to_set().insert(x),
{
    let t = s.insert(pos, x);
    assert forall|y: u128| t.contains(y) <==> (s.contains(y) || y == x) by {
        if t.contains(y) {
            let k = choose|k: int| 0 <= k < t.len() && t[k] == y;
            if k < pos {
                assert(s[k] == y);
            } else if k > pos {
                assert(s[k - 1] == y);
            }
        }
        if s.contains(y) {
            let k = choose|k: int| 0 <= k < s.len() && s[k] == y;
            if k < pos {
                assert(t[k] == y);
            } else {
                assert(t[k + 1] == y);
            }
        }
        if y == x {
            assert(t[pos] == x);
        }
    }
    assert(t.to_set() =~= s.to_set().insert(x));
}

fn copy_timings(t: &Vec<(u32, u32)>) -> (r: Vec<(u32, u32)>)
    ensures
        r@ == t@,
{
    let mut r: Vec<(u32, u32)> = Vec::new();
    let mut i: usize = 0;
    while i < t.len()
        invariant
            0 <= i <= t@.len(),
            r@ == t@.take(i as int),
        decreases t@.len() - i,
    {
        r.push(t[i]);
        i = i + 1;
        assert(r@ =~= t@.take(i as int));
    }
    assert(t@.take(t@.len() as int) == t@);
    r
}

/// The timing of the first event `id` of the first track that holds it.
fn find_timing(tracks: &Vec<Track>, id: u128) -> (r: Option<(u32, u32)>)
    ensures
        r == timing_of(tracks@, id),
{
    proof {
        lemma_locate_event(tracks@, id);
    }
    let mut t: usize = 0;
    while t < tracks.len()
        invariant
            0 <= t <= tracks@.len(),
            forall|j: int| 0 <= j < t ==> crate::project::index_of_id(tracks@[j].events@, id) is None,
        decreases tracks@.len() - t,
    {
        let mut k: usize = 0;
        proof {
            crate::project::lemma_index_of_id(tracks@[t as int].events@, id);
        }
        while k < tracks[t].events.len()
            invariant
                0 <= k <= tracks@[t as int].events@.len(),
                t < tracks@.len(),
                forall|j: int| 0 <= j < t ==> crate::project::index_of_id(tracks@[j].events@, id) is None,
                forall|j: int| 0 <= j < k ==> tracks@[t as int].events@[j].id != id,
            decreases tracks@[t as int].events@.len() - k,
        {
            if tracks[t].events[k].id == id {
                proof {
                    lemma_locate_event(tracks@, id);
                    crate::project::lemma_index_of_id(tracks@[t as int].events@, id);
                    if let Some((f, ev)) = locate_event(tracks@, id) {
                        if f < t {
                            assert(crate::project::index_of_id(tracks@[f].events@, id) is None);
                        }
                        if f > t {
                            assert(crate::project::index_of_id(tracks@[t as int].events@, id) is None);
                        }
                        if let Some(kk) = crate::project::index_of_id(tracks@[t as int].events@, id) {
                            if kk < k {
                                assert(tracks@[t as int].events@[kk].id != id);
                            }
                            if kk > k {
                                assert(tracks@[t as int].events@[k as int].id != id);
                            }
                        }
                    }
                }
                let ev = &tracks[t].events[k];
                return Some((ev.start_timecode, ev.end_timecode));
            }
            k = k + 1;
        }
        proof {
            crate::project::lemma_index_of_id(tracks@[t as int].events@, id);
        }
        t = t + 1;
    }
    proof {
        lemma_locate_event(tracks@, id);
    }
    None
}

/// The first event `id` of the first track that holds it.
pub(crate) fn find_located(tracks: &Vec<Track>, id: u128) -> (r: Option<Event>)
    ensures
        r == match locate_event(tracks@, id) {
            Some((t, ev)) => Some(ev),
            None => None,
        },
{
    proof {
        lemma_locate_event(tracks@, id);
    }
    let mut t: usize = 0;
    while t < tracks.len()
        invariant
            0 <= t <= tracks@.len(),
            forall|j: int| 0 <= j < t ==> crate::project::index_of_id(tracks@[j].events@, id) is None,
        decreases tracks@.len() - t,
    {
        let mut k: usize = 0;
        proof {
            crate::project::lemma_index_of_id(tracks@[t as int].events@, id);
        }
        while k < tracks[t].events.len()
            invariant
                0 <= k <= tracks@[t as int].events@.len(),
                t < tracks@.len(),
                forall|j: int| 0 <= j < t ==> crate::project::index_of_id(tracks@[j].events@, id) is None,
                forall|j: int| 0 <= j < k ==> tracks@[t as int].events@[j].id != id,
            decreases tracks@[t as int].events@.len() - k,
        {
            if tracks[t].events[k].id == id {
                proof {
                    lemma_locate_event(tracks@, id);
                    crate::project::lemma_index_of_id(tracks@[t as int].events@, id);
                    if let Some((f, ev)) = locate_event(tracks@, id) {
                        if f < t {
                            assert(crate::project::index_of_id(tracks@[f].events@, id) is None);
                        }
                        if f > t {
                            assert(crate::project::index_of_id(tracks@[t as int].events@, id) is None);
                        }
                        if let Some(kk) = crate::project::index_of_id(tracks@[t as int].events@, id) {
                            if kk < k {
                                assert(tracks@[t as int].events@[kk].id != id);
                            }
                            if kk > k {
                                assert(tracks@[t as int].events@[k as int].id != id);
                            }
                        }
                    }
                }
                return Some(tracks[t].events[k].duplicate());
            }
            k = k + 1;
        }
        proof {
            crate::project::lemma_index_of_id(tracks@[t as int].events@, id);
        }
        t = t + 1;
    }
    proof {
        lemma_locate_event(tracks@, id);
    }
    None
}

} // verus!

verus! {

/// The smaller of two timecodes.
pub open spec fn min_u32(a: u32, b: u32) -> u32 {
    if a <= b {
        a
    } else {
        b
    }
}

/// How far the dragged events can move left and right together: the least
/// room, over the events `ev` with timings `tm`, between each and its
/// neighbours on its track that are not being dragged.
pub open spec fn move_room(tracks: Seq<Track>, dragged: Set<u128>, ev: Seq<u128>, tm: Seq<(u32, u32)>) -> (u32, u32)
    decreases ev.len(),
{
    if ev.len() == 0 || tm.len() == 0 {
        (u32::MAX, u32::MAX)
    } else {
        let (l, r) = move_room(tracks, dragged, ev.drop_last(), tm.drop_last());
        let (min, max) = track_bounds(tracks, dragged, ev.last());
        (min_u32(l, tc_sub(tm.last().0, min)), min_u32(r, tc_sub(max, tm.last().1)))
    }
}

/// The latest end of the timings; the largest timecode if there are none.
pub open spec fn latest_end(tm: Seq<(u32, u32)>) -> u32
    decreases tm.len(),
{
    if tm.len() == 0 {
        u32::MAX
    } else if tm.len() == 1 {
        tm[0].1
    } else {
        let m = latest_end(tm.drop_last());
        if tm.last().1 > m {
            tm.last().1
        } else {
            m
        }
    }
}

/// The earliest start of the timings; zero if there are none.
pub open spec fn earliest_start(tm: Seq<(u32, u32)>) -> u32
    decreases tm.len(),
{
    if tm.len() == 0 {
        0
    } else if tm.len() == 1 {
        tm[0].0
    } else {
        min_u32(earliest_start(tm.drop_last()), tm.last().0)
    }
}

/// `orig` moved by the distance from `drag_start` to `mouse`, held within
/// the timecodes.
pub open spec fn shifted(orig: u32, mouse: u32, drag_start: u32) -> u32 {
    let t = orig + mouse - drag_start;
    if t < 0 {
        0
    } else if t > u32::MAX {
        u32::MAX
    } else {
        t as u32
    }
}

/// The timings of a whole-event drag whose first event lands at `p`: each
/// event keeps its length and its distance from the first.
pub open spec fn moved_timings(orig: Seq<(u32, u32)>, p: u32) -> Seq<(u32, u32)> {
    Seq::new(
        orig.len(),
        |i: int|
            {
                let at = tc_add(p, tc_sub(orig[i].0, orig[0].0));
                (at, tc_add(at, tc_sub(orig[i].1, orig[i].0)))
            },
    )
}

/// The timings after the mouse moves to `mouse` in a drag that began at
/// `drag_start`, with the playhead at `playback` and snapping within
/// `radius`.
pub open spec fn dragged_timings(
    d: DragState,
    tracks: Seq<Track>,
    mouse: u32,
    drag_start: u32,
    playback: u32,
    radius: u32,
) -> Seq<(u32, u32)> {
    let (left, right) = move_room(tracks, d.events@.to_set(), d.events@, d.timings@);
    let (start, end) = d.timings@[0];
    match d.drag_type {
        DragType::Start => {
            let lo = tc_sub(start, left);
            let hi = tc_sub(end, MIN_EVENT_SIZE);
            let p = drag_pos(mouse, lo, hi, seq![lo, hi, d.orig_timings@[0].0, playback], radius);
            d.timings@.update(0, (p, end))
        },
        DragType::End => {
            let lo = tc_add(start, MIN_EVENT_SIZE);
            let hi = tc_add(end, right);
            let p = drag_pos(mouse, lo, hi, seq![lo, hi, d.orig_timings@[0].1, playback], radius);
            d.timings@.update(0, (start, p))
        },
        DragType::MoveEvent => {
            let len = tc_sub(latest_end(d.orig_timings@), earliest_start(d.orig_timings@));
            let target = shifted(d.orig_timings@[0].0, mouse, drag_start);
            let lo = tc_sub(start, left);
            let hi = tc_add(tc_sub(d.timings@.last().1, len), right);
            let p = drag_pos(target, lo, hi, seq![lo, hi, playback, tc_sub(playback, len)], radius);
            moved_timings(d.orig_timings@, p)
        },
    }
}

proof fn lemma_drag_pos_within(mouse: u32, min: u32, max: u32, snap_points: Seq<u32>, radius: u32)
    requires
        min <= max,
    ensures
        min <= drag_pos(mouse, min, max, snap_points, radius) <= max,
{
}

/// Dragging the start or the end of an event moves only that edge of the
/// first dragged event, and keeps the event at least the shortest length
/// long and clear of the events of its track that are not dragged: its
/// start stays no earlier than the end of the one before it, and its end no
/// later than the start of the one after it, when it was so before.
pub proof fn lemma_edge_drag_bounds(
    d: DragState,
    tracks: Seq<Track>,
    mouse: u32,
    drag_start: u32,
    playback: u32,
    radius: u32,
)
    requires
        d.wf(),
        d.events@.len() > 0,
        d.drag_type != DragType::MoveEvent,
        track_bounds(tracks, d.events@.to_set(), d.events@[0]).0 <= d.timings@[0].0,
        d.timings@[0].0 + MIN_EVENT_SIZE <= d.timings@[0].1,
        d.timings@[0].1 <= track_bounds(tracks, d.events@.to_set(), d.events@[0]).1,
    ensures
        ({
            let t = dragged_timings(d, tracks, mouse, drag_start, playback, radius);
            let (prev, next) = track_bounds(tracks, d.events@.to_set(), d.events@[0]);
            &&& t.len() == d.timings@.len()
            &&& forall|i: int| 1 <= i < t.len() ==> t[i] == d.timings@[i]
            &&& d.drag_type == DragType::Start ==> t[0].1 == d.timings@[0].1
            &&& d.drag_type == DragType::End ==> t[0].0 == d.timings@[0].0
            &&& prev <= t[0].0
            &&& t[0].0 + MIN_EVENT_SIZE <= t[0].1
            &&& t[0].1 <= next
        }),
{
    let set = d.events@.to_set();
    lemma_move_room_each(tracks, set, d.events@, d.timings@, 0);
    let (left, right) = move_room(tracks, set, d.events@, d.timings@);
    let (start, end) = d.timings@[0];
    let (prev, next) = track_bounds(tracks, set, d.events@[0]);
    match d.drag_type {
        DragType::Start => {
            let lo = tc_sub(start, left);
            let hi = tc_sub(end, MIN_EVENT_SIZE);
            lemma_drag_pos_within(mouse, lo, hi, seq![lo, hi, d.orig_timings@[0].0, playback], radius);
        },
        DragType::End => {
            let lo = tc_add(start, MIN_EVENT_SIZE);
            let hi = tc_add(end, right);
            lemma_drag_pos_within(mouse, lo, hi, seq![lo, hi, d.orig_timings@[0].1, playback], radius);
        },
        DragType::MoveEvent => {},
    }
}

/// Moving events together keeps each one's length and its distance from
/// the first, when they are in order of their start, their ends are not
/// before their starts, and the moved events end within the timecodes.
pub proof fn lemma_move_keeps_spacing(orig: Seq<(u32, u32)>, p: u32)
    requires
        orig.len() > 0,
        sorted_by_start(orig),
        forall|i: int| 0 <= i < orig.len() ==> (#[trigger] orig[i]).0 <= orig[i].1,
        forall|i: int| 0 <= i < orig.len() ==> p + ((#[trigger] orig[i]).1 - orig[0].0) <= u32::MAX,
    ensures
        moved_timings(orig, p).len() == orig.len(),
        moved_timings(orig, p)[0].0 == p,
        forall|i: int|
            0 <= i < orig.len() ==> {
                &&& (#[trigger] moved_timings(orig, p)[i]).0 - moved_timings(orig, p)[0].0 == orig[i].0 - orig[0].0
                &&& moved_timings(orig, p)[i].1 - moved_timings(orig, p)[i].0 == orig[i].1 - orig[i].0
            },
{
    assert forall|i: int| 0 <= i < orig.len() implies {
        &&& (#[trigger] moved_timings(orig, p)[i]).0 - moved_timings(orig, p)[0].0 == orig[i].0 - orig[0].0
        &&& moved_timings(orig, p)[i].1 - moved_timings(orig, p)[i].0 == orig[i].1 - orig[i].0
    } by {
        assert(orig[0].0 <= orig[i].0);
        assert(p + (orig[i].1 - orig[0].0) <= u32::MAX);
    }
}

/// The room the dragged events have to move left and right together is no
/// more than the room of each of them.
proof fn lemma_move_room_each(tracks: Seq<Track>, dragged: Set<u128>, ev: Seq<u128>, tm: Seq<(u32, u32)>, i: int)
    requires
        ev.len() == tm.len(),
        0 <= i < ev.len(),
    ensures
        move_room(tracks, dragged, ev, tm).0 <= tc_sub(tm[i].0, track_bounds(tracks, dragged, ev[i]).0),
        move_room(tracks, dragged, ev, tm).1 <= tc_sub(track_bounds(tracks, dragged, ev[i]).1, tm[i].1),
    decreases ev.len(),
{
    if i < ev.len() - 1 {
        lemma_move_room_each(tracks, dragged, ev.drop_last(), tm.drop_last(), i);
    }
}

/// The latest end is the end of a timing and no end is later.
proof fn lemma_latest_end(tm: Seq<(u32, u32)>)
    requires
        tm.len() > 0,
    ensures
        forall|i: int| 0 <= i < tm.len() ==> (#[trigger] tm[i]).1 <= latest_end(tm),
        exists|k: int| 0 <= k < tm.len() && (#[trigger] tm[k]).1 == latest_end(tm),
    decreases tm.len(),
{
    if tm.len() == 1 {
        assert(tm[0].1 == latest_end(tm));
    } else {
        lemma_latest_end(tm.drop_last());
        let k = choose|k: int| 0 <= k < tm.drop_last().len() && (#[trigger] tm.drop_last()[k]).1 == latest_end(
            tm.drop_last(),
        );
        if tm.last().1 > latest_end(tm.drop_last()) {
            assert(tm[tm.len() - 1].1 == latest_end(tm));
        } else {
            assert(tm[k].1 == latest_end(tm));
        }
        assert forall|i: int| 0 <= i < tm.len() implies (#[trigger] tm[i]).1 <= latest_end(tm) by {
            if i < tm.len() - 1 {
                assert(tm.drop_last()[i] == tm[i]);
            }
        }
    }
}

/// The earliest start is the start of a timing and no start is earlier.
proof fn lemma_earliest_start(tm: Seq<(u32, u32)>)
    requires
        tm.len() > 0,
    ensures
        forall|i: int| 0 <= i < tm.len() ==> earliest_start(tm) <= (#[trigger] tm[i]).0,
        exists|k: int| 0 <= k < tm.len() && (#[trigger] tm[k]).0 == earliest_start(tm),
    decreases tm.len(),
{
    if tm.len() == 1 {
        assert(tm[0].0 == earliest_start(tm));
    } else {
        lemma_earliest_start(tm.drop_last());
        let k = choose|k: int| 0 <= k < tm.drop_last().len() && (#[trigger] tm.drop_last()[k]).0 == earliest_start(
            tm.drop_last(),
        );
        if tm.last().0 < earliest_start(tm.drop_last()) {
            assert(tm[tm.len() - 1].0 == earliest_start(tm));
        } else {
            assert(tm[k].0 == earliest_start(tm));
        }
        assert forall|i: int| 0 <= i < tm.len() implies earliest_start(tm) <= (#[trigger] tm[i]).0 by {
            if i < tm.len() - 1 {
                assert(tm.drop_last()[i] == tm[i]);
            }
        }
    }
}

/// Moving events together never pushes one into a neighbour of its track
/// that is not dragged: each stays between the end of the one before it
/// and the start of the one after it, when they all were so before the
/// step, the events have moved together since the drag began, the event
/// that starts last also ends last, and no timing reaches the largest
/// timecode.
pub proof fn lemma_move_drag_clear(
    d: DragState,
    tracks: Seq<Track>,
    mouse: u32,
    drag_start: u32,
    playback: u32,
    radius: u32,
)
    requires
        d.wf(),
        d.events@.len() > 0,
        d.drag_type == DragType::MoveEvent,
        sorted_by_start(d.orig_timings@),
        forall|i: int| 0 <= i < d.orig_timings@.len() ==> (#[trigger] d.orig_timings@[i]).0 <= d.orig_timings@[i].1,
        forall|i: int| 0 <= i < d.orig_timings@.len() ==> (#[trigger] d.orig_timings@[i]).1 <= d.orig_timings@.last().1,
        forall|i: int|
            0 <= i < d.orig_timings@.len() ==> d.timings@[0].0 + ((#[trigger] d.orig_timings@[i]).1
                - d.orig_timings@[0].0) <= u32::MAX,
        d.timings@ == moved_timings(d.orig_timings@, d.timings@[0].0),
        forall|i: int|
            0 <= i < d.events@.len() ==> track_bounds(tracks, d.events@.to_set(), #[trigger] d.events@[i]).0
                <= d.timings@[i].0 && d.timings@[i].1 <= track_bounds(tracks, d.events@.to_set(), d.events@[i]).1,
    ensures
        ({
            let t = dragged_timings(d, tracks, mouse, drag_start, playback, radius);
            &&& t.len() == d.timings@.len()
            &&& forall|i: int|
                0 <= i < t.len() ==> track_bounds(tracks, d.events@.to_set(), #[trigger] d.events@[i]).0 <= t[i].0
                    && t[i].0 <= t[i].1 && t[i].1 <= track_bounds(tracks, d.events@.to_set(), d.events@[i]).1
        }),
{
    let set = d.events@.to_set();
    let orig = d.orig_timings@;
    let tm = d.timings@;
    let n = orig.len();
    let (left, right) = move_room(tracks, set, d.events@, tm);
    let start0 = tm[0].0;
    lemma_latest_end(orig);
    lemma_earliest_start(orig);
    let ke = choose|k: int| 0 <= k < n && (#[trigger] orig[k]).1 == latest_end(orig);
    let ks = choose|k: int| 0 <= k < n && (#[trigger] orig[k]).0 == earliest_start(orig);
    assert(orig[ke].1 <= orig[n - 1].1);
    assert(latest_end(orig) == orig[n - 1].1);
    assert(orig[0].0 <= orig[ks].0);
    assert(earliest_start(orig) == orig[0].0);
    let len = tc_sub(latest_end(orig), earliest_start(orig));
    assert(orig[0].0 <= orig[n - 1].0);
    assert(len == orig[n - 1].1 - orig[0].0);
    // The current timings are the original ones moved, exactly.
    assert forall|i: int| 0 <= i < n implies (#[trigger] tm[i]).0 == start0 + (orig[i].0 - orig[0].0) && tm[i].1
        == start0 + (orig[i].1 - orig[0].0) by {
        assert(orig[0].0 <= orig[i].0);
        assert(start0 + (orig[i].1 - orig[0].0) <= u32::MAX);
    }
    assert(tm[n - 1].1 == start0 + len);
    lemma_move_room_each(tracks, set, d.events@, tm, 0);
    let (prev0, next0) = track_bounds(tracks, set, d.events@[0]);
    assert(prev0 <= tm[0].0 && tm[0].1 <= next0);
    let lo = tc_sub(start0, left);
    let hi = tc_add(tc_sub(tm.last().1, len), right);
    assert(lo == start0 - left);
    assert(hi == start0 + right);
    lemma_drag_pos_within(
        shifted(orig[0].0, mouse, drag_start),
        lo,
        hi,
        seq![lo, hi, playback, tc_sub(playback, len)],
        radius,
    );
    let p = drag_pos(
        shifted(orig[0].0, mouse, drag_start),
        lo,
        hi,
        seq![lo, hi, playback, tc_sub(playback, len)],
        radius,
    );
    let t = dragged_timings(d, tracks, mouse, drag_start, playback, radius);
    assert(t == moved_timings(orig, p));
    assert forall|i: int| 0 <= i < t.len() implies track_bounds(tracks, set, #[trigger] d.events@[i]).0 <= t[i].0
        && t[i].0 <= t[i].1 && t[i].1 <= track_bounds(tracks, set, d.events@[i]).1 by {
        lemma_move_room_each(tracks, set, d.events@, tm, i);
        assert(orig[0].0 <= orig[i].0);
        assert(tm[i].0 == start0 + (orig[i].0 - orig[0].0));
        assert(tm[i].1 == start0 + (orig[i].1 - orig[0].0));
    }
}

fn sat_add(a: u32, b: u32) -> (r: u32)
    ensures
        r == tc_add(a, b),
{
    if a > u32::MAX - b {
        u32::MAX
    } else {
        a + b
    }
}

fn sat_sub(a: u32, b: u32) -> (r: u32)
    ensures
        r == tc_sub(a, b),
{
    if a < b {
        0
    } else {
        a - b
    }
}

fn room_of(tracks: &Vec<Track>, d: &DragState) -> (r: (u32, u32))
    requires
        d.wf(),
    ensures
        r == move_room(tracks@, d.events@.to_set(), d.events@, d.timings@),
{
    let mut left: u32 = u32::MAX;
    let mut right: u32 = u32::MAX;
    let mut i: usize = 0;
    while i < d.events.len()
        invariant
            d.wf(),
            0 <= i <= d.events@.len(),
            (left, right) == move_room(tracks@, d.events@.to_set(), d.events@.take(i as int), d.timings@.take(i as int)),
        decreases d.events@.len() - i,
    {
        let (min, max) = get_event_track_bounds(tracks, &d.events, d.events[i]);
        let (start, end) = d.timings[i];
        proof {
            assert(d.events@.take(i + 1).drop_last() == d.events@.take(i as int));
            assert(d.timings@.take(i + 1).drop_last() == d.timings@.take(i as int));
        }
        let l = sat_sub(start, min);
        let r = sat_sub(max, end);
        if l < left {
            left = l;
        }
        if r < right {
            right = r;
        }
        i = i + 1;
    }
    assert(d.events@.take(d.events@.len() as int) == d.events@);
    assert(d.timings@.take(d.timings@.len() as int) == d.timings@);
    (left, right)
}

fn span_of(t: &Vec<(u32, u32)>) -> (r: (u32, u32))
    requires
        t@.len() > 0,
    ensures
        r == (earliest_start(t@), latest_end(t@)),
{
    let mut lo: u32 = t[0].0;
    let mut hi: u32 = t[0].1;
    let mut i: usize = 1;
    assert(t@.take(1).len() == 1);
    while i < t.len()
        invariant
            1 <= i <= t@.len(),
            lo == earliest_start(t@.take(i as int)),
            hi == latest_end(t@.take(i as int)),
        decreases t@.len() - i,
    {
        proof {
            assert(t@.take(i + 1).drop_last() == t@.take(i as int));
        }
        if t[i].0 < lo {
            lo = t[i].0;
        }
        if t[i].1 > hi {
            hi = t[i].1;
        }
        i = i + 1;
    }
    assert(t@.take(t@.len() as int) == t@);
    (lo, hi)
}

fn shift(orig: u32, mouse: u32, drag_start: u32) -> (r: u32)
    ensures
        r == shifted(orig, mouse, drag_start),
{
    let t: i64 = orig as i64 + mouse as i64 - drag_start as i64;
    if t < 0 {
        0
    } else if t > u32::MAX as i64 {
        u32::MAX
    } else {
        t as u32
    }
}

/// Moves the dragged edge, or the dragged events, to follow the mouse at
/// `mouse_time` in a drag that began at `drag_start`: no event goes past
/// its neighbours, an event keeps at least the shortest length, and the
/// position snaps to the limits, the position before the drag and the playhead at
/// `playback_time` when within `snap_radius`.
pub fn update_drag(
    d: &mut DragState,
    tracks: &Vec<Track>,
    mouse_time: u32,
    drag_start: u32,
    playback_time: u32,
    snap_radius: u32,
)
    requires
        old(d).wf(),
    ensures
        final(d).wf(),
        final(d).events@ == old(d).events@,
        final(d).orig_timings@ == old(d).orig_timings@,
        final(d).drag_type == old(d).drag_type,
        old(d).events@.len() == 0 ==> final(d).timings@ == old(d).timings@,
        old(d).events@.len() > 0 ==> final(d).timings@ == dragged_timings(
            *old(d),
            tracks@,
            mouse_time,
            drag_start,
            playback_time,
            snap_radius,
        ),
{
    if d.events.len() == 0 {
        return;
    }
    let (left, right) = room_of(tracks, d);
    let (start, end) = d.timings[0];
    match d.drag_type {
        DragType::Start => {
            let lo = sat_sub(start, left);
            let hi = sat_sub(end, MIN_EVENT_SIZE);
            let points = [lo, hi, d.orig_timings[0].0, playback_time];
            let p = get_drag_pos(mouse_time, lo, hi, &points, snap_radius);
            proof {
                assert(points@ == seq![lo, hi, d.orig_timings@[0].0, playback_time]);
            }
            d.timings.set(0, (p, end));
        },
        DragType::End => {
            let lo = sat_add(start, MIN_EVENT_SIZE);
            let hi = sat_add(end, right);
            let points = [lo, hi, d.orig_timings[0].1, playback_time];
            let p = get_drag_pos(mouse_time, lo, hi, &points, snap_radius);
            proof {
                assert(points@ == seq![lo, hi, d.orig_timings@[0].1, playback_time]);
            }
            d.timings.set(0, (start, p));
        },
        DragType::MoveEvent => {
            let (first, last) = span_of(&d.orig_timings);
            let len = sat_sub(last, first);
            let target = shift(d.orig_timings[0].0, mouse_time, drag_start);
            let n = d.timings.len();
            let lo = sat_sub(start, left);
            let hi = sat_add(sat_sub(d.timings[n - 1].1, len), right);
            let points = [lo, hi, playback_time, sat_sub(playback_time, len)];
            let p = get_drag_pos(target, lo, hi, &points, snap_radius);
            proof {
                assert(points@ == seq![lo, hi, playback_time, tc_sub(playback_time, len)]);
            }
            let ghost want = moved_timings(d.orig_timings@, p);
            let base = d.orig_timings[0].0;
            let mut i: usize = 0;
            while i < d.orig_timings.len()
                invariant
                    d.wf(),
                    d.events@ == old(d).events@,
                    d.orig_timings@ == old(d).orig_timings@,
                    d.drag_type == old(d).drag_type,
                    0 <= i <= d.orig_timings@.len(),
                    base == d.orig_timings@[0].0,
                    want == moved_timings(d.orig_timings@, p),
                    forall|j: int| 0 <= j < i ==> d.timings@[j] == want[j],
                decreases d.orig_timings@.len() - i,
            {
                let (s, e) = d.orig_timings[i];
                let at = sat_add(p, sat_sub(s, base));
                let t = (at, sat_add(at, sat_sub(e, s)));
                d.timings.set(i, t);
                i = i + 1;
            }
            assert(d.timings@ =~= want);
        },
    }
}

} // verus!

verus! {

/// What the timeline is doing with the mouse.
#[derive(Debug, Clone, Copy, PartialEq, Eq, Structural)]
pub enum TimelineUiState {
    /// Nothing special is happening.
    Idle,
    /// The button went down; what it starts is not known yet.
    Pending,
    /// A box selection is under way.
    Multiselect,
    /// The playhead follows the mouse.
    Scrubbing,
    /// Events are being dragged.
    Dragging,
}

/// The mouse state of the timeline: what it is doing, the drag that the
/// mouse is over or is making, and the time at which a drag began.
pub struct TimelineState {
    pub state: TimelineUiState,
    pub drag_state: Option<DragState>,
    pub is_dragging: bool,
    pub drag_start: u32,
}

/// Toggling each of `ids` in turn in the set `sel`.
pub open spec fn toggled(sel: Set<u128>, ids: Seq<u128>) -> Set<u128>
    decreases ids.len(),
{
    if ids.len() == 0 {
        sel
    } else {
        select_in(toggled(sel, ids.drop_last()), ids.last(), false)
    }
}

impl TimelineState {
    pub open spec fn wf(&self) -> bool {
        self.drag_state matches Some(d) ==> d.wf()
    }

    pub fn new() -> (t: TimelineState)
        ensures
            t.wf(),
            t.state == TimelineUiState::Idle,
            t.drag_state is None,
            !t.is_dragging,
            t.drag_start == 0,
    {
        TimelineState { state: TimelineUiState::Idle, drag_state: None, is_dragging: false, drag_start: 0 }
    }

    /// Follows the primary button at the start of a frame. `mouse_present`
    /// says whether the mouse is known, `over_playhead` whether it is over
    /// the playhead's handle, `inside` whether it is over the tracks. Returns
    /// whether the press starts a pending action, whose position the caller
    /// keeps. A drag that is not under way is dropped.
    pub fn pointer_step(&mut self, mouse_present: bool, over_playhead: bool, primary_down: bool, inside: bool) -> (pressed: bool)
        requires
            old(self).wf(),
        ensures
            final(self).wf(),
            final(self).is_dragging == old(self).is_dragging,
            final(self).drag_start == old(self).drag_start,
            final(self).drag_state == (if old(self).is_dragging { old(self).drag_state } else { None }),
            pressed == (mouse_present && old(self).state == TimelineUiState::Idle && !over_playhead && primary_down && inside),
            final(self).state == (if !mouse_present {
                TimelineUiState::Idle
            } else if old(self).state == TimelineUiState::Idle && over_playhead {
                if primary_down { TimelineUiState::Scrubbing } else { TimelineUiState::Idle }
            } else if old(self).state == TimelineUiState::Scrubbing {
                if primary_down { TimelineUiState::Scrubbing } else { TimelineUiState::Idle }
            } else if old(self).state == TimelineUiState::Idle && primary_down && inside {
                TimelineUiState::Pending
            } else {
                old(self).state
            }),
    {
        let mut pressed = false;
        if mouse_present {
            if self.state == TimelineUiState::Idle && over_playhead {
                if primary_down {
                    self.state = TimelineUiState::Scrubbing;
                }
            } else if self.state == TimelineUiState::Scrubbing {
                if !primary_down {
                    self.state = TimelineUiState::Idle;
                }
            } else if self.state == TimelineUiState::Idle {
                if primary_down && inside {
                    self.state = TimelineUiState::Pending;
                    pressed = true;
                }
            }
        } else if self.state != TimelineUiState::Idle {
            self.state = TimelineUiState::Idle;
        }
        if !self.is_dragging {
            self.drag_state = None;
        }
        pressed
    }

    /// The mouse is over event `event_id`, on the part that `drag_type`
    /// names: unless a drag is already set up, sets one up for that event,
    /// and, when the whole event would move and several events are
    /// selected, for the selected events with it.
    pub fn hover_event(&mut self, tracks: &Vec<Track>, drag_type: DragType, event_id: u128, selection: &SelectionManager)
        requires
            old(self).wf(),
            selection.wf(),
        ensures
            final(self).wf(),
            final(self).state == old(self).state,
            final(self).is_dragging == old(self).is_dragging,
            final(self).drag_start == old(self).drag_start,
            old(self).drag_state is Some ==> final(self).drag_state == old(self).drag_state,
            old(self).drag_state is None ==> (final(self).drag_state matches Some(d) && d.drag_type == drag_type
                && d.timings@ == d.orig_timings@ && distinct(d.events@) && sorted_by_start(d.timings@)
                && d.events@.to_set() == (if drag_type == DragType::MoveEvent && selection.events().len() > 1 {
                    selection.events().insert(event_id)
                } else {
                    set![event_id]
                }).filter(|id: u128| locate_event(tracks@, id) is Some)
                && forall|i: int| 0 <= i < d.events@.len() ==> timing_of(tracks@, d.events@[i]) == Some(d.timings@[i])),
    {
        if self.drag_state.is_some() {
            return;
        }
        let mut events: Vec<u128> = Vec::new();
        events.push(event_id);
        proof {
            assert(events@ == seq![event_id]);
        }
        let ghost sel = selection.events();
        if drag_type == DragType::MoveEvent {
            let selected = selection.selected_events();
            proof {
                crate::selection::lemma_selected_len(selected@, selection.events());
            }
            if selected.len() > 1 {
                let ghost first = events@;
                let mut i: usize = 0;
                while i < selected.len()
                    invariant
                        0 <= i <= selected@.len(),
                        events@ == first + selected@.take(i as int),
                    decreases selected@.len() - i,
                {
                    events.push(selected[i]);
                    i = i + 1;
                    assert(events@ =~= first + selected@.take(i as int));
                }
                proof {
                    assert(selected@.take(selected@.len() as int) == selected@);
                    assert forall|x: u128| events@.contains(x) <==> sel.insert(event_id).contains(x) by {
                        if events@.contains(x) {
                            let k = choose|k: int| 0 <= k < events@.len() && events@[k] == x;
                            if k > 0 {
                                assert(selected@[k - 1] == x);
                                assert(selected@.to_set().contains(x));
                            }
                        }
                        if sel.contains(x) && x != event_id {
                            assert(selected@.to_set().contains(x));
                            let k = choose|k: int| 0 <= k < selected@.len() && selected@[k] == x;
                            assert(events@[k + 1] == x);
                        }
                        if x == event_id {
                            assert(events@[0] == x);
                        }
                    }
                    assert(events@.to_set() =~= sel.insert(event_id));
                }
            } else {
                proof {
                    lemma_single_to_set(event_id);
                }
            }
        } else {
            proof {
                lemma_single_to_set(event_id);
            }
        }
        let d = DragState::new(tracks, drag_type, events);
        self.drag_state = Some(d);
    }

    /// Handles the release of the primary button. `small_move` says whether
    /// the mouse stayed where it went down, `pointer_over` names the event
    /// it is over, `inside` whether it is over the tracks, `boxed` the
    /// events in the selection box. Returns the command that commits a drag,
    /// when a drag ends.
    pub fn release(
        &mut self,
        selection: &mut SelectionManager,
        small_move: bool,
        pointer_over: Option<u128>,
        inside: bool,
        is_shift: bool,
        boxed: &Vec<u128>,
    ) -> (commit: Option<SetEventTimingsCommand>)
        requires
            old(self).wf(),
            old(selection).wf(),
        ensures
            final(self).wf(),
            final(selection).wf(),
            final(self).drag_start == old(self).drag_start,
            match old(self).state {
                TimelineUiState::Pending => {
                    &&& commit is None
                    &&& final(self).drag_state == old(self).drag_state
                    &&& final(self).is_dragging == old(self).is_dragging
                    &&& if !small_move {
                        final(self).state == TimelineUiState::Idle && *final(selection) == *old(selection)
                    } else if let Some(id) = pointer_over {
                        &&& final(self).state == TimelineUiState::Idle
                        &&& final(selection).events() == select_in(old(selection).events(), id, !is_shift)
                        &&& final(selection).tracks() == crate::selection::select_other(old(selection).events(), id, old(selection).tracks())
                    } else {
                        &&& final(self).state == (if inside { TimelineUiState::Scrubbing } else { TimelineUiState::Pending })
                        &&& final(selection).events() == Set::<u128>::empty()
                        &&& final(selection).tracks() == old(selection).tracks()
                    }
                },
                TimelineUiState::Multiselect => {
                    &&& commit is None
                    &&& final(self).state == TimelineUiState::Idle
                    &&& final(self).drag_state == old(self).drag_state
                    &&& final(self).is_dragging == old(self).is_dragging
                    &&& final(selection).events() == toggled(Set::empty(), boxed@)
                    &&& final(selection).tracks() == (if boxed@.len() == 0 { old(selection).tracks() } else { Set::empty() })
                },
                TimelineUiState::Dragging => {
                    &&& final(self).state == TimelineUiState::Idle
                    &&& final(self).drag_state is None
                    &&& !final(self).is_dragging
                    &&& *final(selection) == *old(selection)
                    &&& match old(self).drag_state {
                        Some(d) => commit matches Some(c) && c.event_ids@ == d.events@ && c.new_timings@ == d.timings@
                            && c.old_timings@.len() == 0,
                        None => commit is None,
                    }
                },
                _ => {
                    &&& commit is None
                    &&& final(self).state == old(self).state
                    &&& final(self).drag_state == old(self).drag_state
                    &&& final(self).is_dragging == old(self).is_dragging
                    &&& *final(selection) == *old(selection)
                },
            },
    {
        if self.state == TimelineUiState::Pending {
            if small_move {
                if let Some(id) = pointer_over {
                    selection.select_event(id, !is_shift);
                    self.state = TimelineUiState::Idle;
                } else {
                    selection.clear_events();
                    if inside {
                        self.state = TimelineUiState::Scrubbing;
                    }
                }
            } else {
                self.state = TimelineUiState::Idle;
            }
            None
        } else if self.state == TimelineUiState::Multiselect {
            let ghost tracks0 = selection.tracks();
            selection.clear_events();
            let mut i: usize = 0;
            while i < boxed.len()
                invariant
                    selection.wf(),
                    0 <= i <= boxed@.len(),
                    selection.events() == toggled(Set::empty(), boxed@.take(i as int)),
                    selection.tracks() == (if i == 0 { tracks0 } else { Set::empty() }),
                decreases boxed@.len() - i,
            {
                proof {
                    assert(boxed@.take(i + 1).drop_last() == boxed@.take(i as int));
                }
                selection.select_event(boxed[i], false);
                i = i + 1;
            }
            proof {
                assert(boxed@.take(boxed@.len() as int) == boxed@);
            }
            self.state = TimelineUiState::Idle;
            None
        } else if self.state == TimelineUiState::Dragging {
            let commit = match &self.drag_state {
                Some(d) => Some(SetEventTimingsCommand::new(d.events.as_slice(), d.timings.as_slice())),
                None => None,
            };
            self.is_dragging = false;
            self.drag_state = None;
            self.state = TimelineUiState::Idle;
            commit
        } else {
            None
        }
    }

    /// The mouse moved away from where it went down while over the tracks:
    /// a pending press becomes a drag, begun at `mouse_time`, when a drag is
    /// set up, and a box selection otherwise.
    pub fn begin_move(&mut self, moved: bool, mouse_time: u32)
        requires
            old(self).wf(),
        ensures
            final(self).wf(),
            final(self).drag_state == old(self).drag_state,
            if old(self).state == TimelineUiState::Pending && moved {
                if old(self).drag_state is Some {
                    &&& final(self).state == TimelineUiState::Dragging
                    &&& final(self).is_dragging
                    &&& final(self).drag_start == mouse_time
                } else {
                    &&& final(self).state == TimelineUiState::Multiselect
                    &&& final(self).is_dragging == old(self).is_dragging
                    &&& final(self).drag_start == old(self).drag_start
                }
            } else {
                &&& final(self).state == old(self).state
                &&& final(self).is_dragging == old(self).is_dragging
                &&& final(self).drag_start == old(self).drag_start
            },
    {
        if self.state == TimelineUiState::Pending && moved {
            if self.drag_state.is_some() {
                self.is_dragging = true;
                self.drag_start = mouse_time;
                self.state = TimelineUiState::Dragging;
            } else {
                self.state = TimelineUiState::Multiselect;
            }
        }
    }
}

/// The name an event's type is shown with on the timeline.
pub open spec fn event_type_name(t: EventType) -> Seq<char> {
    match t {
        EventType::Lyric => "Lyric"@,
        EventType::LineBreak => "LineBreak"@,
        EventType::ParagraphBreak => "ParagraphBreak"@,
        EventType::AudioClip => "AudioClip"@,
        EventType::Image => "Image"@,
    }
}

/// The label of an event on the timeline: its type's name, and on a second
/// line its description when it has one, quoted for a lyric.
pub fn event_label(event_type: EventType, description: Option<&str>) -> (s: String)
    ensures
        s@ == match description {
            None => event_type_name(event_type),
            Some(d) => if event_type == EventType::Lyric {
                event_type_name(event_type) + "\n'"@ + d@ + "'"@
            } else {
                event_type_name(event_type) + "\n"@ + d@
            },
        },
{
    let mut s = match event_type {
        EventType::Lyric => "Lyric".to_string(),
        EventType::LineBreak => "LineBreak".to_string(),
        EventType::ParagraphBreak => "ParagraphBreak".to_string(),
        EventType::AudioClip => "AudioClip".to_string(),
        EventType::Image => "Image".to_string(),
    };
    match description {
        None => s,
        Some(d) => {
            if event_type == EventType::Lyric {
                s.append("\n'");
                s.append(d);
                s.append("'");
            } else {
                s.append("\n");
                s.append(d);
            }
            s
        },
    }
}

} // verus!
