use vstd::prelude::*;

use crate::lyrics::{
    Event, EventType, LyricsEditorTextElement, PsuedoEvent, max_end, min_start, opt_view, tc_add,
    tc_sub, to_event_spec, view_of_event, parse_lyrics, has_synthetic_timing,
};

verus! {

/// How far grouping a track's events into elements has got.
pub struct GroupState {
    pub done: Seq<(EventType, Seq<Event>)>,
    pub current: Seq<Event>,
    pub last_lyric_id: u128,
}

/// Grouping one more event: a lyric linked to the lyric just before it joins
/// that lyric's word; anything else ends the word being built, and a lyric
/// starts a new one while any other event is an element of its own.
pub open spec fn group_step(st: GroupState, ev: Event) -> GroupState {
    if ev.event_type == EventType::Lyric && ev.linked_id == Some(st.last_lyric_id) {
        GroupState { current: st.current.push(ev), last_lyric_id: ev.id, ..st }
    } else {
        let st1 = if st.current.len() > 0 {
            GroupState {
                done: st.done.push((EventType::Lyric, st.current)),
                current: Seq::empty(),
                last_lyric_id: 0,
            }
        } else {
            st
        };
        if ev.event_type == EventType::Lyric {
            GroupState { current: st1.current.push(ev), last_lyric_id: ev.id, ..st1 }
        } else {
            GroupState { done: st1.done.push((ev.event_type, seq![ev])), ..st1 }
        }
    }
}

/// The grouping state after reading all of `evs`, in order.
pub open spec fn group_fold(evs: Seq<Event>) -> GroupState
    decreases evs.len(),
{
    if evs.len() == 0 {
        GroupState { done: Seq::empty(), current: Seq::empty(), last_lyric_id: 0 }
    } else {
        group_step(group_fold(evs.drop_last()), evs.last())
    }
}

/// The elements, as a type and a list of events each, that a track's events
/// fall into.
pub open spec fn group_events(evs: Seq<Event>) -> Seq<(EventType, Seq<Event>)> {
    let st = group_fold(evs);
    if st.current.len() > 0 {
        st.done.push((EventType::Lyric, st.current))
    } else {
        st.done
    }
}

/// `e` is the element that the group `g` makes.
pub open spec fn element_of(e: LyricsEditorTextElement, g: (EventType, Seq<Event>)) -> bool {
    &&& e.event_type == g.0
    &&& e.start_timecode == min_start(g.1)
    &&& e.end_timecode == max_end(g.1)
    &&& e.events@.len() == g.1.len()
    &&& forall|j: int| 0 <= j < g.1.len() ==> view_of_event(g.1[j], #[trigger] e.events@[j])
}

/// Groups a lyrics track's events into the elements of its editor text.
pub fn group_lyric_events(events: &Vec<Event>) -> (elems: Vec<LyricsEditorTextElement>)
    ensures
        elems@.len() == group_events(events@).len(),
        forall|i: int| 0 <= i < elems@.len() ==> element_of(#[trigger] elems@[i], group_events(events@)[i]),
{
    let mut done: Vec<LyricsEditorTextElement> = Vec::new();
    let mut current: Vec<Event> = Vec::new();
    let mut last_lyric_id: u128 = 0;
    let mut i: usize = 0;
    while i < events.len()
        invariant
            0 <= i <= events@.len(),
            ({
                let st = group_fold(events@.take(i as int));
                &&& done@.len() == st.done.len()
                &&& forall|k: int| 0 <= k < done@.len() ==> element_of(#[trigger] done@[k], st.done[k])
                &&& current@ == st.current
                &&& last_lyric_id == st.last_lyric_id
            }),
        decreases events@.len() - i,
    {
        let ghost prev = group_fold(events@.take(i as int));
        proof {
            assert(events@.take(i + 1).drop_last() == events@.take(i as int));
            assert(events@.take(i + 1).last() == events@[i as int]);
        }
        let ev = &events[i];
        if ev.event_type == EventType::Lyric && ev.linked_id == Some(last_lyric_id) {
            current.push(ev.duplicate());
            last_lyric_id = ev.id;
        } else {
            if current.len() > 0 {
                let mut group: Vec<Event> = Vec::new();
                std::mem::swap(&mut group, &mut current);
                done.push(LyricsEditorTextElement::new(EventType::Lyric, group));
                last_lyric_id = 0;
            }
            if ev.event_type == EventType::Lyric {
                current.push(ev.duplicate());
                last_lyric_id = ev.id;
            } else {
                let mut single: Vec<Event> = Vec::new();
                single.push(ev.duplicate());
                done.push(LyricsEditorTextElement::new(ev.event_type, single));
            }
        }
        i = i + 1;
        proof {
            let st = group_fold(events@.take(i as int));
            assert(st == group_step(prev, events@[i - 1]));
            assert(current@ =~= st.current);
            assert forall|k: int| 0 <= k < done@.len() implies element_of(#[trigger] done@[k], st.done[k]) by {}
        }
    }
    proof {
        assert(events@.take(events@.len() as int) == events@);
    }
    if current.len() > 0 {
        done.push(LyricsEditorTextElement::new(EventType::Lyric, current));
    }
    done
}


/// One step of a diff between the old and the new events of a lyrics track,
/// as the diff library reports it.
#[derive(Debug, Clone, Copy, PartialEq, Eq, Structural)]
pub enum DiffOp {
    Equal { old_index: usize, new_index: usize, len: usize },
    Delete { old_index: usize, old_len: usize, new_index: usize },
    Insert { old_index: usize, new_index: usize, new_len: usize },
    Replace { old_index: usize, old_len: usize, new_index: usize, new_len: usize },
}

/// Whether `op` reads only events that exist, and divides by no empty run.
pub open spec fn op_fits(op: DiffOp, n_old: int, n_new: int) -> bool {
    match op {
        DiffOp::Equal { old_index, new_index, len } => old_index + len <= n_old && new_index + len
            <= n_new,
        DiffOp::Delete { .. } => true,
        DiffOp::Insert { new_index, new_len, .. } => new_len > 0 && new_index + new_len <= n_new,
        DiffOp::Replace { old_index, old_len, new_index, new_len } => old_len > 0 && new_len > 0
            && old_index + old_len <= n_old && new_index + new_len <= n_new,
    }
}

/// Whether every step of a diff stays within the two lists.
pub open spec fn ops_fit(ops: Seq<DiffOp>, n_old: int, n_new: int) -> bool {
    forall|i: int| 0 <= i < ops.len() ==> op_fits(#[trigger] ops[i], n_old, n_new)
}

/// The first of `evs` with identifier `id`.
pub open spec fn find_event(evs: Seq<Event>, id: u128) -> Option<Event>
    decreases evs.len(),
{
    if evs.len() == 0 {
        None
    } else if evs[0].id == id {
        Some(evs[0])
    } else {
        find_event(evs.skip(1), id)
    }
}

/// Events written out while applying a diff, and the identifiers of those
/// that must be linked to the lyric before them.
pub struct Emitted {
    pub events: Seq<Event>,
    pub to_link: Set<u128>,
}

/// Nothing written.
pub open spec fn emitted_empty() -> Emitted {
    Emitted { events: Seq::empty(), to_link: Set::empty() }
}

/// What two pieces write, one after the other.
pub open spec fn emitted_concat(a: Emitted, b: Emitted) -> Emitted {
    Emitted { events: a.events + b.events, to_link: a.to_link.union(b.to_link) }
}

/// What the `k`-th item of an unchanged run writes: the project's own event,
/// unlinked unless the new text links it.
pub open spec fn equal_item(track: Seq<Event>, old_evs: Seq<PsuedoEvent>, new: Seq<PsuedoEvent>, oi: int, ni: int) -> Emitted {
    match find_event(track, old_evs[oi].id) {
        None => emitted_empty(),
        Some(ev) => if new[ni].linked_to_prev {
            Emitted { events: seq![ev], to_link: set![ev.id] }
        } else {
            Emitted { events: seq![Event { linked_id: None, ..ev }], to_link: Set::empty() }
        },
    }
}

/// What the `len` items of an unchanged run starting at `oi` and `ni`
/// write.
pub open spec fn equal_run(track: Seq<Event>, old_evs: Seq<PsuedoEvent>, new: Seq<PsuedoEvent>, oi: int, ni: int, len: nat) -> Emitted
    decreases len,
{
    if len == 0 {
        emitted_empty()
    } else {
        emitted_concat(
            equal_run(track, old_evs, new, oi, ni, (len - 1) as nat),
            equal_item(track, old_evs, new, oi + len - 1, ni + len - 1),
        )
    }
}

/// The start of the `k`-th event of a run spaced `dur` apart from `start`.
pub open spec fn spaced_start(start: u32, dur: u32, k: nat) -> u32
    decreases k,
{
    if k == 0 {
        start
    } else {
        tc_add(spaced_start(start, dur, (k - 1) as nat), dur)
    }
}

/// New events `ni..ni + n`, each `dur` long, one after the other from `start`.
pub open spec fn spaced_run(new: Seq<PsuedoEvent>, ni: int, n: nat, start: u32, dur: u32) -> Emitted
    decreases n,
{
    if n == 0 {
        emitted_empty()
    } else {
        let e = new[ni + n - 1];
        let s = spaced_start(start, dur, (n - 1) as nat);
        emitted_concat(
            spaced_run(new, ni, (n - 1) as nat, start, dur),
            Emitted {
                events: seq![to_event_spec(e, s, tc_add(s, dur))],
                to_link: if e.linked_to_prev {
                    set![e.id]
                } else {
                    Set::empty()
                },
            },
        )
    }
}

/// How long each of `new_len` events replacing `old_len` old ones lasts: the
/// old span shared out, or, when there are more new events, the time up to
/// the next old event shared out but no more than the old share.
pub open spec fn replace_duration(old_evs: Seq<PsuedoEvent>, oi: int, old_len: int, new_len: int) -> u32 {
    let old_start = old_evs[oi].start_timecode;
    let old_end = old_evs[oi + old_len - 1].end_timecode;
    let span = tc_sub(old_end, old_start);
    let prev = (span as int / old_len) as u32;
    if old_len >= new_len {
        (span as int / new_len) as u32
    } else if oi + old_len < old_evs.len() {
        let until_next = (tc_sub(old_evs[oi + old_len].start_timecode, old_start) as int / new_len) as u32;
        if until_next <= prev {
            until_next
        } else {
            prev
        }
    } else {
        prev
    }
}

/// Where inserted events start: at the end of the old event before them.
pub open spec fn insert_start(old_evs: Seq<PsuedoEvent>, oi: int) -> u32 {
    if oi > 0 && oi - 1 < old_evs.len() {
        old_evs[oi - 1].end_timecode
    } else {
        0
    }
}

/// How long each inserted event lasts: the gap up to the next old event
/// shared out, or 100 milliseconds at the end.
pub open spec fn insert_duration(old_evs: Seq<PsuedoEvent>, oi: int, new_len: int) -> u32 {
    if oi < old_evs.len() {
        (tc_sub(old_evs[oi].start_timecode, insert_start(old_evs, oi)) as int / new_len) as u32
    } else {
        100
    }
}

/// What one diff step writes.
pub open spec fn op_emit(track: Seq<Event>, old_evs: Seq<PsuedoEvent>, new: Seq<PsuedoEvent>, op: DiffOp) -> Emitted {
    match op {
        DiffOp::Equal { old_index, new_index, len } => equal_run(
            track,
            old_evs,
            new,
            old_index as int,
            new_index as int,
            len as nat,
        ),
        DiffOp::Delete { .. } => emitted_empty(),
        DiffOp::Replace { old_index, old_len, new_index, new_len } => spaced_run(
            new,
            new_index as int,
            new_len as nat,
            old_evs[old_index as int].start_timecode,
            replace_duration(old_evs, old_index as int, old_len as int, new_len as int),
        ),
        DiffOp::Insert { old_index, new_index, new_len } => spaced_run(
            new,
            new_index as int,
            new_len as nat,
            insert_start(old_evs, old_index as int),
            insert_duration(old_evs, old_index as int, new_len as int),
        ),
    }
}

/// What the steps of a diff write, in order.
pub open spec fn apply_ops(track: Seq<Event>, old_evs: Seq<PsuedoEvent>, new: Seq<PsuedoEvent>, ops: Seq<DiffOp>) -> Emitted
    decreases ops.len(),
{
    if ops.len() == 0 {
        emitted_empty()
    } else {
        emitted_concat(apply_ops(track, old_evs, new, ops.drop_last()), op_emit(track, old_evs, new, ops.last()))
    }
}

/// The state of the final pass over written events.
pub struct FixState {
    pub out: Seq<Event>,
    pub last_lyric: Option<u128>,
    pub last_end: u32,
}

/// The final pass on one event: a lyric that must be linked is linked to
/// the lyric just before it, and the event is moved to start no earlier than
/// the previous one ends, keeping its length.
pub open spec fn fix_step(st: FixState, ev: Event, to_link: Set<u128>) -> FixState {
    let linked_id = if ev.event_type == EventType::Lyric && st.last_lyric is Some && to_link.contains(
        ev.id,
    ) {
        Some(st.last_lyric->0)
    } else {
        ev.linked_id
    };
    let last_lyric = if ev.event_type == EventType::Lyric {
        Some(ev.id)
    } else {
        None
    };
    let duration = tc_sub(ev.end_timecode, ev.start_timecode);
    let start = if ev.start_timecode < st.last_end {
        st.last_end
    } else {
        ev.start_timecode
    };
    let end = if tc_sub(ev.end_timecode, start) < duration {
        tc_add(start, duration)
    } else {
        ev.end_timecode
    };
    FixState {
        out: st.out.push(Event { linked_id, start_timecode: start, end_timecode: end, ..ev }),
        last_lyric,
        last_end: end,
    }
}

/// The state after the links and timings of all of `evs` are settled, in
/// order.
pub open spec fn fix_fold(evs: Seq<Event>, to_link: Set<u128>) -> FixState
    decreases evs.len(),
{
    if evs.len() == 0 {
        FixState { out: Seq::empty(), last_lyric: None, last_end: 0 }
    } else {
        fix_step(fix_fold(evs.drop_last(), to_link), evs.last(), to_link)
    }
}

/// The events of a lyrics track after applying the diff `ops` between its
/// old events `old` and the events `new` read from edited text.
pub open spec fn applied_events(track: Seq<Event>, old_evs: Seq<PsuedoEvent>, new: Seq<PsuedoEvent>, ops: Seq<DiffOp>) -> Seq<Event> {
    let e = apply_ops(track, old_evs, new, ops);
    fix_fold(e.events, e.to_link).out
}

/// Whether nothing written is linked and nothing is to be linked.
pub open spec fn unlinked(e: Emitted) -> bool {
    &&& e.to_link == Set::<u128>::empty()
    &&& forall|i: int| 0 <= i < e.events.len() ==> (#[trigger] e.events[i]).linked_id is None
}

proof fn lemma_concat_unlinked(a: Emitted, b: Emitted)
    requires
        unlinked(a),
        unlinked(b),
    ensures
        unlinked(emitted_concat(a, b)),
{
    let c = emitted_concat(a, b);
    assert(c.to_link =~= Set::<u128>::empty());
    assert forall|i: int| 0 <= i < c.events.len() implies (#[trigger] c.events[i]).linked_id is None by {
        if i < a.events.len() {
            assert(c.events[i] == a.events[i]);
        } else {
            assert(c.events[i] == b.events[i - a.events.len()]);
        }
    }
}

proof fn lemma_equal_run_unlinked(track: Seq<Event>, old_evs: Seq<PsuedoEvent>, new: Seq<PsuedoEvent>, oi: int, ni: int, len: nat)
    requires
        0 <= ni,
        ni + len <= new.len(),
        forall|j: int| 0 <= j < new.len() ==> !(#[trigger] new[j]).linked_to_prev,
    ensures
        unlinked(equal_run(track, old_evs, new, oi, ni, len)),
    decreases len,
{
    if len == 0 {
        assert(emitted_empty().to_link =~= Set::<u128>::empty());
    } else {
        lemma_equal_run_unlinked(track, old_evs, new, oi, ni, (len - 1) as nat);
        let item = equal_item(track, old_evs, new, oi + len - 1, ni + len - 1);
        assert(!new[ni + len - 1].linked_to_prev);
        assert(unlinked(item)) by {
            assert(emitted_empty().to_link =~= Set::<u128>::empty());
        }
        lemma_concat_unlinked(equal_run(track, old_evs, new, oi, ni, (len - 1) as nat), item);
    }
}

proof fn lemma_spaced_run_unlinked(new: Seq<PsuedoEvent>, ni: int, n: nat, start: u32, dur: u32)
    requires
        0 <= ni,
        ni + n <= new.len(),
        forall|j: int| 0 <= j < new.len() ==> !(#[trigger] new[j]).linked_to_prev,
    ensures
        unlinked(spaced_run(new, ni, n, start, dur)),
    decreases n,
{
    if n == 0 {
        assert(emitted_empty().to_link =~= Set::<u128>::empty());
    } else {
        lemma_spaced_run_unlinked(new, ni, (n - 1) as nat, start, dur);
        let e = new[ni + n - 1];
        let sp = spaced_start(start, dur, (n - 1) as nat);
        let last = Emitted {
            events: seq![to_event_spec(e, sp, tc_add(sp, dur))],
            to_link: if e.linked_to_prev {
                set![e.id]
            } else {
                Set::empty()
            },
        };
        assert(unlinked(last));
        lemma_concat_unlinked(spaced_run(new, ni, (n - 1) as nat, start, dur), last);
    }
}

proof fn lemma_apply_ops_unlinked(track: Seq<Event>, old_evs: Seq<PsuedoEvent>, new: Seq<PsuedoEvent>, ops: Seq<DiffOp>)
    requires
        ops_fit(ops, old_evs.len() as int, new.len() as int),
        forall|j: int| 0 <= j < new.len() ==> !(#[trigger] new[j]).linked_to_prev,
    ensures
        unlinked(apply_ops(track, old_evs, new, ops)),
    decreases ops.len(),
{
    if ops.len() == 0 {
        assert(emitted_empty().to_link =~= Set::<u128>::empty());
    } else {
        let d = ops.drop_last();
        assert forall|i: int| 0 <= i < d.len() implies op_fits(#[trigger] d[i], old_evs.len() as int, new.len() as int) by {
            assert(d[i] == ops[i]);
        }
        lemma_apply_ops_unlinked(track, old_evs, new, d);
        let op = ops.last();
        assert(op_fits(ops[ops.len() - 1], old_evs.len() as int, new.len() as int));
        match op {
            DiffOp::Equal { old_index, new_index, len } => {
                lemma_equal_run_unlinked(track, old_evs, new, old_index as int, new_index as int, len as nat);
            },
            DiffOp::Delete { .. } => {
                assert(emitted_empty().to_link =~= Set::<u128>::empty());
            },
            DiffOp::Replace { old_index, old_len, new_index, new_len } => {
                lemma_spaced_run_unlinked(
                    new,
                    new_index as int,
                    new_len as nat,
                    old_evs[old_index as int].start_timecode,
                    replace_duration(old_evs, old_index as int, old_len as int, new_len as int),
                );
            },
            DiffOp::Insert { old_index, new_index, new_len } => {
                lemma_spaced_run_unlinked(
                    new,
                    new_index as int,
                    new_len as nat,
                    insert_start(old_evs, old_index as int),
                    insert_duration(old_evs, old_index as int, new_len as int),
                );
            },
        }
        lemma_concat_unlinked(apply_ops(track, old_evs, new, d), op_emit(track, old_evs, new, op));
    }
}

proof fn lemma_fix_fold_unlinked(evs: Seq<Event>, to_link: Set<u128>)
    requires
        to_link == Set::<u128>::empty(),
        forall|i: int| 0 <= i < evs.len() ==> (#[trigger] evs[i]).linked_id is None,
    ensures
        fix_fold(evs, to_link).out.len() == evs.len(),
        forall|i: int| 0 <= i < evs.len() ==> (#[trigger] fix_fold(evs, to_link).out[i]).linked_id is None,
    decreases evs.len(),
{
    if evs.len() > 0 {
        let d = evs.drop_last();
        assert forall|i: int| 0 <= i < d.len() implies (#[trigger] d[i]).linked_id is None by {
            assert(d[i] == evs[i]);
        }
        lemma_fix_fold_unlinked(d, to_link);
        assert(evs[evs.len() - 1].linked_id is None);
        let prev = fix_fold(d, to_link).out;
        let out = fix_fold(evs, to_link).out;
        assert forall|i: int| 0 <= i < evs.len() implies (#[trigger] out[i]).linked_id is None by {
            if i < d.len() {
                assert(out[i] == prev[i]);
            }
        }
    }
}

/// An edit that links no syllable leaves no event linked: when no syllable
/// read from the new text is linked to the one before it (the text has no
/// `-` between syllables), every event of the result, kept or new, has no
/// link, whatever links the track had.
pub proof fn lemma_unlinked_text_unlinks(track: Seq<Event>, old_evs: Seq<PsuedoEvent>, new: Seq<PsuedoEvent>, ops: Seq<DiffOp>)
    requires
        ops_fit(ops, old_evs.len() as int, new.len() as int),
        forall|j: int| 0 <= j < new.len() ==> !(#[trigger] new[j]).linked_to_prev,
    ensures
        forall|i: int|
            0 <= i < applied_events(track, old_evs, new, ops).len() ==> (#[trigger] applied_events(
                track,
                old_evs,
                new,
                ops,
            )[i]).linked_id is None,
{
    lemma_apply_ops_unlinked(track, old_evs, new, ops);
    let e = apply_ops(track, old_evs, new, ops);
    lemma_fix_fold_unlinked(e.events, e.to_link);
}

proof fn lemma_find_event_id(evs: Seq<Event>, id: u128)
    ensures
        find_event(evs, id) matches Some(e) ==> e.id == id,
    decreases evs.len(),
{
    if evs.len() > 0 && evs[0].id != id {
        lemma_find_event_id(evs.skip(1), id);
    }
}

/// The syllables of an unchanged run that the new text links.
pub open spec fn run_links(old_evs: Seq<PsuedoEvent>, new: Seq<PsuedoEvent>, n: nat) -> Set<u128> {
    Set::new(|id: u128| exists|k: int| 0 <= k < n && (#[trigger] new[k]).linked_to_prev && old_evs[k].id == id)
}

proof fn lemma_equal_run_at(track: Seq<Event>, old_evs: Seq<PsuedoEvent>, new: Seq<PsuedoEvent>, n: nat)
    requires
        n <= old_evs.len(),
        n <= new.len(),
        forall|k: int| 0 <= k < n ==> find_event(track, (#[trigger] old_evs[k]).id) is Some,
    ensures
        equal_run(track, old_evs, new, 0, 0, n).events.len() == n,
        equal_run(track, old_evs, new, 0, 0, n).to_link == run_links(old_evs, new, n),
        forall|k: int|
            0 <= k < n ==> {
                let e = #[trigger] equal_run(track, old_evs, new, 0, 0, n).events[k];
                let f = find_event(track, old_evs[k].id)->0;
                &&& e.id == old_evs[k].id
                &&& e.event_type == f.event_type
                &&& new[k].linked_to_prev ==> e.linked_id == f.linked_id
                &&& !new[k].linked_to_prev ==> e.linked_id is None
            },
    decreases n,
{
    if n == 0 {
        assert(run_links(old_evs, new, 0) =~= Set::<u128>::empty());
    } else {
        let m = (n - 1) as nat;
        lemma_equal_run_at(track, old_evs, new, m);
        let prev = equal_run(track, old_evs, new, 0, 0, m);
        let r = equal_run(track, old_evs, new, 0, 0, n);
        assert(find_event(track, old_evs[m as int].id) is Some);
        lemma_find_event_id(track, old_evs[m as int].id);
        assert forall|k: int| 0 <= k < m implies r.events[k] == prev.events[k] by {}
        assert(r.to_link =~= run_links(old_evs, new, n)) by {
            assert forall|id: u128| r.to_link.contains(id) <==> run_links(old_evs, new, n).contains(id) by {
                if run_links(old_evs, new, n).contains(id) {
                    let k = choose|k: int| 0 <= k < n && (#[trigger] new[k]).linked_to_prev && old_evs[k].id == id;
                    if k < m {
                        assert(run_links(old_evs, new, m).contains(id));
                    }
                }
                if prev.to_link.contains(id) {
                    let k = choose|k: int| 0 <= k < m && (#[trigger] new[k]).linked_to_prev && old_evs[k].id == id;
                    assert(new[k].linked_to_prev && old_evs[k].id == id);
                }
            }
        }
    }
}

proof fn lemma_fix_fold_at(evs: Seq<Event>, tl: Set<u128>)
    ensures
        fix_fold(evs, tl).out.len() == evs.len(),
        fix_fold(evs, tl).last_lyric == (if evs.len() > 0 && evs.last().event_type == EventType::Lyric {
            Some(evs.last().id)
        } else {
            None
        }),
        forall|i: int|
            0 <= i < evs.len() ==> {
                let o = #[trigger] fix_fold(evs, tl).out[i];
                &&& o.id == evs[i].id
                &&& o.event_type == evs[i].event_type
                &&& o.linked_id == (if evs[i].event_type == EventType::Lyric && i > 0 && evs[i - 1].event_type
                    == EventType::Lyric && tl.contains(evs[i].id) {
                    Some(evs[i - 1].id)
                } else {
                    evs[i].linked_id
                })
            },
    decreases evs.len(),
{
    if evs.len() > 0 {
        let d = evs.drop_last();
        lemma_fix_fold_at(d, tl);
        let out = fix_fold(evs, tl).out;
        let pout = fix_fold(d, tl).out;
        assert forall|i: int| 0 <= i < evs.len() implies {
            let o = #[trigger] out[i];
            &&& o.id == evs[i].id
            &&& o.event_type == evs[i].event_type
            &&& o.linked_id == (if evs[i].event_type == EventType::Lyric && i > 0 && evs[i - 1].event_type
                == EventType::Lyric && tl.contains(evs[i].id) {
                Some(evs[i - 1].id)
            } else {
                evs[i].linked_id
            })
        } by {
            if i < d.len() {
                assert(out[i] == pout[i]);
                assert(d[i] == evs[i]);
                if i > 0 {
                    assert(d[i - 1] == evs[i - 1]);
                }
            } else if i > 0 {
                assert(d.last() == evs[i - 1]);
            }
        }
    }
}

/// Applying an edit whose syllables all stay, one unchanged run over the
/// whole text, settles the links as the new text writes them: a syllable
/// that the text does not link to the one before (no `-` before it) is not
/// linked, and one that it links, following a lyric, is linked to exactly
/// that lyric. The events keep their order and identifiers.
#[verifier::rlimit(40)]
pub proof fn lemma_unchanged_run_links(track: Seq<Event>, old_evs: Seq<PsuedoEvent>, new: Seq<PsuedoEvent>)
    requires
        old_evs.len() == new.len(),
        new.len() <= usize::MAX,
        forall|k: int| 0 <= k < old_evs.len() ==> find_event(track, (#[trigger] old_evs[k]).id) is Some,
        forall|a: int, b: int| 0 <= a < b < old_evs.len() ==> old_evs[a].id != old_evs[b].id,
    ensures
        ({
            let n = new.len();
            let r = applied_events(track, old_evs, new, seq![DiffOp::Equal { old_index: 0, new_index: 0, len: n as usize }]);
            &&& r.len() == n
            &&& forall|i: int| 0 <= i < n ==> (#[trigger] r[i]).id == old_evs[i].id
            &&& forall|i: int| 0 <= i < n && !(#[trigger] new[i]).linked_to_prev ==> r[i].linked_id is None
            &&& forall|i: int|
                0 < i < n && (#[trigger] new[i]).linked_to_prev && r[i].event_type == EventType::Lyric && r[i
                    - 1].event_type == EventType::Lyric ==> r[i].linked_id == Some(r[i - 1].id)
        }),
{
    let n = new.len();
    let op = DiffOp::Equal { old_index: 0, new_index: 0, len: n as usize };
    let ops = seq![op];
    assert(ops.drop_last() =~= Seq::<DiffOp>::empty());
    let run = equal_run(track, old_evs, new, 0, 0, n);
    lemma_equal_run_at(track, old_evs, new, n);
    let e = apply_ops(track, old_evs, new, ops);
    assert(ops.last() == op);
    assert((n as usize) as nat == n);
    assert(op_emit(track, old_evs, new, op) == run);
    assert(apply_ops(track, old_evs, new, ops.drop_last()) == emitted_empty());
    assert(e.events =~= run.events);
    assert(e.to_link =~= run.to_link);
    lemma_fix_fold_at(e.events, e.to_link);
    let r = applied_events(track, old_evs, new, ops);
    assert forall|i: int| 0 <= i < n implies run.to_link.contains(old_evs[i].id) == (#[trigger] new[i]).linked_to_prev by {
        if run_links(old_evs, new, n).contains(old_evs[i].id) {
            let k = choose|k: int| 0 <= k < n && (#[trigger] new[k]).linked_to_prev && old_evs[k].id == old_evs[i].id;
            if k != i {
                if k < i {
                    assert(old_evs[k].id != old_evs[i].id);
                } else {
                    assert(old_evs[i].id != old_evs[k].id);
                }
            }
        }
        if new[i].linked_to_prev {
            assert(run_links(old_evs, new, n).contains(old_evs[i].id));
        }
    }
}

fn contains_id(ids: &Vec<u128>, id: u128) -> (b: bool)
    ensures
        b == ids@.contains(id),
{
    let mut i: usize = 0;
    while i < ids.len()
        invariant
            0 <= i <= ids@.len(),
            forall|j: int| 0 <= j < i ==> ids@[j] != id,
        decreases ids@.len() - i,
    {
        if ids[i] == id {
            return true;
        }
        i = i + 1;
    }
    false
}

fn find_in_track(track: &Vec<Event>, id: u128) -> (r: Option<Event>)
    ensures
        r == find_event(track@, id),
{
    let mut i: usize = 0;
    assert(track@.skip(0) == track@);
    while i < track.len()
        invariant
            0 <= i <= track@.len(),
            find_event(track@, id) == find_event(track@.skip(i as int), id),
        decreases track@.len() - i,
    {
        proof {
            assert(track@.skip(i as int).skip(1) == track@.skip(i + 1));
            assert(track@.skip(i as int)[0] == track@[i as int]);
        }
        if track[i].id == id {
            return Some(track[i].duplicate());
        }
        i = i + 1;
    }
    None
}

proof fn lemma_union_push(a: Seq<u128>, x: u128)
    ensures
        a.push(x).to_set() == a.to_set().insert(x),
{
    assert(a.push(x).to_set() =~= a.to_set().insert(x)) by {
        assert forall|y: u128| a.push(x).to_set().contains(y) <==> a.to_set().insert(x).contains(y) by {
            if y == x {
                assert(a.push(x)[a.len() as int] == x);
            } else if a.to_set().contains(y) {
                let j = choose|j: int| 0 <= j < a.len() && a[j] == y;
                assert(a.push(x)[j] == y);
            } else if a.push(x).to_set().contains(y) {
                let j = choose|j: int| 0 <= j < a.push(x).len() && a.push(x)[j] == y;
                assert(a[j] == y);
            }
        }
    }
}

/// Appends the events and links written by an unchanged run.
fn emit_equal(
    track: &Vec<Event>,
    old_evs: &Vec<PsuedoEvent>,
    new: &Vec<PsuedoEvent>,
    oi: usize,
    ni: usize,
    len: usize,
    out: &mut Vec<Event>,
    link: &mut Vec<u128>,
)
    requires
        oi + len <= old_evs@.len(),
        ni + len <= new@.len(),
    ensures
        final(out)@ == old(out)@ + equal_run(track@, old_evs@, new@, oi as int, ni as int, len as nat).events,
        final(link)@.to_set() == old(link)@.to_set().union(
            equal_run(track@, old_evs@, new@, oi as int, ni as int, len as nat).to_link,
        ),
{
    let ghost out0 = out@;
    let ghost link0 = link@;
    let n_old = old_evs.len();
    let n_new = new.len();
    let mut k: usize = 0;
    while k < len
        invariant
            0 <= k <= len,
            n_old == old_evs@.len(),
            n_new == new@.len(),
            oi + len <= n_old,
            ni + len <= n_new,
            out@ == out0 + equal_run(track@, old_evs@, new@, oi as int, ni as int, k as nat).events,
            link@.to_set() == link0.to_set().union(
                equal_run(track@, old_evs@, new@, oi as int, ni as int, k as nat).to_link,
            ),
        decreases len - k,
    {
        let ghost o = out@;
        let ghost l = link@;
        let ghost prev = equal_run(track@, old_evs@, new@, oi as int, ni as int, k as nat);
        let found = find_in_track(track, old_evs[oi + k].id);
        match found {
            None => {},
            Some(ev) => {
                let mut ev = ev;
                if !new[ni + k].linked_to_prev {
                    ev.linked_id = None;
                } else {
                    link.push(ev.id);
                    proof {
                        lemma_union_push(l, ev.id);
                    }
                }
                out.push(ev);
            },
        }
        k = k + 1;
        proof {
            let cur = equal_run(track@, old_evs@, new@, oi as int, ni as int, k as nat);
            let item = equal_item(track@, old_evs@, new@, oi + k - 1, ni + k - 1);
            assert(cur == emitted_concat(prev, item));
            assert(out@ =~= out0 + cur.events);
            assert(link@.to_set() =~= link0.to_set().union(cur.to_link));
        }
    }
}

/// Appends new events `ni..ni + n`, spaced `dur` apart from `start`.
fn emit_spaced(
    new: &Vec<PsuedoEvent>,
    ni: usize,
    n: usize,
    start: u32,
    dur: u32,
    out: &mut Vec<Event>,
    link: &mut Vec<u128>,
)
    requires
        ni + n <= new@.len(),
    ensures
        final(out)@ == old(out)@ + spaced_run(new@, ni as int, n as nat, start, dur).events,
        final(link)@.to_set() == old(link)@.to_set().union(
            spaced_run(new@, ni as int, n as nat, start, dur).to_link,
        ),
{
    let ghost out0 = out@;
    let ghost link0 = link@;
    let mut k: usize = 0;
    let mut current_start = start;
    let n_new = new.len();
    while k < n
        invariant
            0 <= k <= n,
            n_new == new@.len(),
            ni + n <= n_new,
            current_start == spaced_start(start, dur, k as nat),
            out@ == out0 + spaced_run(new@, ni as int, k as nat, start, dur).events,
            link@.to_set() == link0.to_set().union(spaced_run(new@, ni as int, k as nat, start, dur).to_link),
        decreases n - k,
    {
        let ghost l = link@;
        let ghost prev = spaced_run(new@, ni as int, k as nat, start, dur);
        let e = &new[ni + k];
        let end = current_start.saturating_add(dur);
        let ev = e.to_event(current_start, end);
        out.push(ev);
        if e.linked_to_prev {
            link.push(e.id);
            proof {
                lemma_union_push(l, e.id);
            }
        }
        current_start = end;
        k = k + 1;
        proof {
            let cur = spaced_run(new@, ni as int, k as nat, start, dur);
            assert(out@ =~= out0 + cur.events);
            assert(link@.to_set() =~= link0.to_set().union(cur.to_link));
        }
    }
}

fn share(span: u32, n: usize) -> (r: u32)
    requires
        n > 0,
    ensures
        r == (span as int / n as int) as u32,
        r <= span,
{
    ((span as usize) / n) as u32
}

/// Applies the diff `ops` between a lyrics track's old events and the events
/// read from its edited text: unchanged events are kept, replaced and
/// inserted ones take up the time of what they stand in for, deleted ones
/// go, and a final pass links syllables and keeps events from overlapping.
pub fn apply_diff_ops(
    track: &Vec<Event>,
    old_evs: &Vec<PsuedoEvent>,
    new: &Vec<PsuedoEvent>,
    ops: &Vec<DiffOp>,
) -> (r: Vec<Event>)
    requires
        ops_fit(ops@, old_evs@.len() as int, new@.len() as int),
    ensures
        r@ == applied_events(track@, old_evs@, new@, ops@),
{
    let mut out: Vec<Event> = Vec::new();
    let mut link: Vec<u128> = Vec::new();
    let mut k: usize = 0;
    let n_old = old_evs.len();
    let n_new = new.len();
    while k < ops.len()
        invariant
            0 <= k <= ops@.len(),
            n_old == old_evs@.len(),
            n_new == new@.len(),
            ops_fit(ops@, old_evs@.len() as int, new@.len() as int),
            out@ == apply_ops(track@, old_evs@, new@, ops@.take(k as int)).events,
            link@.to_set() == apply_ops(track@, old_evs@, new@, ops@.take(k as int)).to_link,
        decreases ops@.len() - k,
    {
        proof {
            assert(ops@.take(k + 1).drop_last() == ops@.take(k as int));
            assert(ops@.take(k + 1).last() == ops@[k as int]);
            assert(op_fits(ops@[k as int], old_evs@.len() as int, new@.len() as int));
        }
        let ghost out0 = out@;
        let ghost link0 = link@;
        match ops[k] {
            DiffOp::Equal { old_index, new_index, len } => {
                emit_equal(track, old_evs, new, old_index, new_index, len, &mut out, &mut link);
            },
            DiffOp::Delete { .. } => {},
            DiffOp::Replace { old_index, old_len, new_index, new_len } => {
                let old_start = old_evs[old_index].start_timecode;
                let old_end = old_evs[old_index + old_len - 1].end_timecode;
                let span = old_end.saturating_sub(old_start);
                let prev = share(span, old_len);
                let dur = if old_len >= new_len {
                    share(span, new_len)
                } else if old_index + old_len < old_evs.len() {
                    let until_next = share(
                        old_evs[old_index + old_len].start_timecode.saturating_sub(old_start),
                        new_len,
                    );
                    if until_next <= prev {
                        until_next
                    } else {
                        prev
                    }
                } else {
                    prev
                };
                emit_spaced(new, new_index, new_len, old_start, dur, &mut out, &mut link);
            },
            DiffOp::Insert { old_index, new_index, new_len } => {
                let start = if old_index > 0 && old_index - 1 < old_evs.len() {
                    old_evs[old_index - 1].end_timecode
                } else {
                    0
                };
                let dur = if old_index < old_evs.len() {
                    share(old_evs[old_index].start_timecode.saturating_sub(start), new_len)
                } else {
                    100
                };
                emit_spaced(new, new_index, new_len, start, dur, &mut out, &mut link);
            },
        }
        k = k + 1;
        proof {
            let cur = apply_ops(track@, old_evs@, new@, ops@.take(k as int));
            assert(out@ =~= cur.events);
            assert(link@.to_set() =~= cur.to_link);
        }
    }
    proof {
        assert(ops@.take(ops@.len() as int) == ops@);
    }
    let ghost to_link = link@.to_set();
    let mut fixed: Vec<Event> = Vec::new();
    let mut last_lyric: Option<u128> = None;
    let mut last_end: u32 = 0;
    let mut i: usize = 0;
    while i < out.len()
        invariant
            0 <= i <= out@.len(),
            to_link == link@.to_set(),
            ({
                let st = fix_fold(out@.take(i as int), to_link);
                &&& fixed@ == st.out
                &&& last_lyric == st.last_lyric
                &&& last_end == st.last_end
            }),
        decreases out@.len() - i,
    {
        proof {
            assert(out@.take(i + 1).drop_last() == out@.take(i as int));
            assert(out@.take(i + 1).last() == out@[i as int]);
        }
        let mut ev = out[i].duplicate();
        if ev.event_type == EventType::Lyric {
            if let Some(prev_id) = last_lyric {
                if contains_id(&link, ev.id) {
                    ev.linked_id = Some(prev_id);
                }
            }
            last_lyric = Some(ev.id);
        } else {
            last_lyric = None;
        }
        let duration = ev.end_timecode.saturating_sub(ev.start_timecode);
        if ev.start_timecode < last_end {
            ev.start_timecode = last_end;
        }
        if ev.end_timecode.saturating_sub(ev.start_timecode) < duration {
            ev.end_timecode = ev.start_timecode.saturating_add(duration);
        }
        last_end = ev.end_timecode;
        fixed.push(ev);
        i = i + 1;
    }
    proof {
        assert(out@.take(out@.len() as int) == out@);
    }
    fixed
}


/// What the diff compares of an event: its text and its type.
pub open spec fn diff_key(p: PsuedoEvent) -> (Option<Seq<char>>, EventType) {
    (opt_view(p.value), p.event_type)
}

/// What the diff compares of each event.
pub open spec fn diff_keys(evs: Seq<PsuedoEvent>) -> Seq<(Option<Seq<char>>, EventType)> {
    evs.map_values(|p: PsuedoEvent| diff_key(p))
}

/// The keys handed to the diff, as the contracts see them.
pub open spec fn key_views(keys: Seq<(Option<String>, EventType)>) -> Seq<(Option<Seq<char>>, EventType)> {
    keys.map_values(|k: (Option<String>, EventType)| (opt_view(k.0), k.1))
}

/// The steps of a patience diff from `old` to `new`, as `similar` computes it.
pub uninterp spec fn patience_diff(
    old_keys: Seq<(Option<Seq<char>>, EventType)>,
    new_keys: Seq<(Option<Seq<char>>, EventType)>,
) -> Seq<DiffOp>;

/// Diffs two sequences of keys with the patience algorithm.
///
/// Wraps `similar::capture_diff_slices` with `Algorithm::Patience`, whose
/// result depends on the two sequences alone; the contract names that result
/// and says nothing more of it.
#[verifier::external_body]
fn patience_diff_of(old_keys: &Vec<(Option<String>, EventType)>, new_keys: &Vec<(Option<String>, EventType)>) -> (ops: Vec<DiffOp>)
    ensures
        ops@ == patience_diff(key_views(old_keys@), key_views(new_keys@)),
{
    similar::capture_diff_slices(similar::Algorithm::Patience, old_keys, new_keys)
        .into_iter()
        .map(|op| match op {
            similar::DiffOp::Equal { old_index, new_index, len } => DiffOp::Equal { old_index, new_index, len },
            similar::DiffOp::Delete { old_index, old_len, new_index } => DiffOp::Delete { old_index, old_len, new_index },
            similar::DiffOp::Insert { old_index, new_index, new_len } => DiffOp::Insert { old_index, new_index, new_len },
            similar::DiffOp::Replace { old_index, old_len, new_index, new_len } => DiffOp::Replace { old_index, old_len, new_index, new_len },
        })
        .collect()
}

fn keys_of(evs: &Vec<PsuedoEvent>) -> (keys: Vec<(Option<String>, EventType)>)
    ensures
        key_views(keys@) == diff_keys(evs@),
{
    let mut keys: Vec<(Option<String>, EventType)> = Vec::new();
    let mut i: usize = 0;
    while i < evs.len()
        invariant
            0 <= i <= evs@.len(),
            keys@.len() == i,
            forall|j: int| 0 <= j < i ==> (opt_view((#[trigger] keys@[j]).0), keys@[j].1) == diff_key(evs@[j]),
        decreases evs@.len() - i,
    {
        let value = match &evs[i].value {
            Some(t) => Some(t.clone()),
            None => None,
        };
        keys.push((value, evs[i].event_type));
        i = i + 1;
    }
    assert(key_views(keys@) =~= diff_keys(evs@));
    keys
}

/// All the events of `elems`, element after element.
pub open spec fn flatten_elements(elems: Seq<LyricsEditorTextElement>) -> Seq<PsuedoEvent>
    decreases elems.len(),
{
    if elems.len() == 0 {
        Seq::empty()
    } else {
        flatten_elements(elems.drop_last()) + elems.last().events@
    }
}

fn flatten_of(elems: &Vec<LyricsEditorTextElement>) -> (evs: Vec<PsuedoEvent>)
    ensures
        evs@ == flatten_elements(elems@),
{
    let mut evs: Vec<PsuedoEvent> = Vec::new();
    let mut i: usize = 0;
    while i < elems.len()
        invariant
            0 <= i <= elems@.len(),
            evs@ == flatten_elements(elems@.take(i as int)),
        decreases elems@.len() - i,
    {
        proof {
            assert(elems@.take(i + 1).drop_last() == elems@.take(i as int));
            assert(elems@.take(i + 1).last() == elems@[i as int]);
        }
        let ghost before = evs@;
        let e = &elems[i];
        let mut j: usize = 0;
        while j < e.events.len()
            invariant
                0 <= j <= e.events@.len(),
                evs@ == before + e.events@.take(j as int),
            decreases e.events@.len() - j,
        {
            evs.push(e.events[j].duplicate());
            j = j + 1;
            proof {
                assert(evs@ =~= before + e.events@.take(j as int));
            }
        }
        proof {
            assert(e.events@.take(e.events@.len() as int) == e.events@);
        }
        i = i + 1;
    }
    proof {
        assert(elems@.take(elems@.len() as int) == elems@);
    }
    evs
}

fn check_ops_fit(ops: &Vec<DiffOp>, n_old: usize, n_new: usize) -> (b: bool)
    ensures
        b == ops_fit(ops@, n_old as int, n_new as int),
{
    let mut i: usize = 0;
    while i < ops.len()
        invariant
            0 <= i <= ops@.len(),
            forall|j: int| 0 <= j < i ==> op_fits(#[trigger] ops@[j], n_old as int, n_new as int),
        decreases ops@.len() - i,
    {
        let fits = match ops[i] {
            DiffOp::Equal { old_index, new_index, len } => old_index as u128 + len as u128 <= n_old as u128
                && new_index as u128 + len as u128 <= n_new as u128,
            DiffOp::Delete { .. } => true,
            DiffOp::Insert { new_index, new_len, .. } => new_len > 0 && new_index as u128 + new_len as u128
                <= n_new as u128,
            DiffOp::Replace { old_index, old_len, new_index, new_len } => old_len > 0 && new_len > 0
                && old_index as u128 + old_len as u128 <= n_old as u128 && new_index as u128
                + new_len as u128 <= n_new as u128,
        };
        if !fits {
            return false;
        }
        i = i + 1;
    }
    true
}

/// `ne` are the events that `PsuedoEvent::from_str` reads from `text`, up
/// to their identifiers.
pub open spec fn read_from_text(ne: Seq<PsuedoEvent>, text: Seq<char>) -> bool {
    &&& ne.len() == parse_lyrics(text).len()
    &&& forall|i: int| 0 <= i < ne.len() ==> #[trigger] ne[i].token() == parse_lyrics(text)[i]
        && has_synthetic_timing(ne[i], i)
}

/// The new events of a lyrics track after its text was edited: the edited
/// text `new` is read into events, diffed against the events of the old
/// elements `old`, and the diff applied to the track's events `track`.
///
/// The events read from the text get fresh random identifiers; whatever they
/// are, the result is what `apply_diff_ops` makes of the diff. It is `None`
/// only when the diff reports a step outside the two event lists.
pub fn apply_changes_to_events(track: &Vec<Event>, old: &Vec<LyricsEditorTextElement>, new: &str) -> (r: Option<Vec<Event>>)
    ensures
        exists|ne: Seq<PsuedoEvent>|
            {
                &&& #[trigger] read_from_text(ne, new@)
                &&& ({
                    let olds = flatten_elements(old@);
                    let ops = patience_diff(diff_keys(olds), diff_keys(ne));
                    &&& r is None <==> !ops_fit(ops, olds.len() as int, ne.len() as int)
                    &&& r matches Some(v) ==> v@ == applied_events(track@, olds, ne, ops)
                })
            },
{
    let old_events = flatten_of(old);
    let new_events = PsuedoEvent::from_str(new);
    let ops = patience_diff_of(&keys_of(&old_events), &keys_of(&new_events));
    let r = if check_ops_fit(&ops, old_events.len(), new_events.len()) {
        Some(apply_diff_ops(track, &old_events, &new_events, &ops))
    } else {
        None
    };
    assert(read_from_text(new_events@, new@));
    r
}

} // verus!
