use vstd::prelude::*;

use crate::lyrics::Event;
use crate::project::{index_of_id, insert_position, lemma_index_of_id, lemma_insert_position};
use crate::context::EditorContext;
use crate::track_commands::{
    first_track_with, lemma_first_track_with, retime, retime_all, timings_executed,
    timings_undone, track_events, SetEventTimingsCommand,
};
use crate::ui_event::UiError;

verus! {

/// No two events, in one track or in two, share an identifier.
pub open spec fn ids_unique(evss: Seq<Seq<Event>>) -> bool {
    forall|a: int, i: int, b: int, j: int|
        #![trigger evss[a][i], evss[b][j]]
        0 <= a < evss.len() && 0 <= b < evss.len() && 0 <= i < evss[a].len() && 0 <= j < evss[b].len() && (a
            != b || i != j) ==> evss[a][i].id != evss[b][j].id
}

/// Whether the event at `k` of track `t` has identifier `id`.
pub open spec fn held_at(evss: Seq<Seq<Event>>, t: int, k: int, id: u128) -> bool {
    0 <= t < evss.len() && 0 <= k < evss[t].len() && evss[t][k].id == id
}

/// Where each event is: for each identifier that the tracks hold, the
/// track that holds it and the event.
pub open spec fn placement(evss: Seq<Seq<Event>>) -> Map<u128, (int, Event)> {
    Map::new(
        |id: u128| exists|t: int, k: int| held_at(evss, t, k, id),
        |id: u128|
            {
                let (t, k) = choose|t: int, k: int| held_at(evss, t, k, id);
                (t, evss[t][k])
            },
    )
}

/// `e` with the start and end of `timing`.
pub open spec fn with_timing(e: Event, timing: (u32, u32)) -> Event {
    Event { start_timecode: timing.0, end_timecode: timing.1, ..e }
}

/// The index in a track that the event at `i` came from, after the event
/// at `k` was moved to `p`.
pub open spec fn moved_from(k: int, p: int, i: int) -> int {
    let r = if i < p {
        i
    } else {
        i - 1
    };
    if r < k {
        r
    } else {
        r + 1
    }
}

/// The index in a track that the event at `m` goes to, when the event at
/// `k` is moved to `p`.
pub open spec fn moved_to(k: int, p: int, m: int) -> int {
    let r = if m < k {
        m
    } else {
        m - 1
    };
    if r < p {
        r
    } else {
        r + 1
    }
}

proof fn lemma_move_within(evs: Seq<Event>, k: int, p: int, x: Event)
    requires
        0 <= k < evs.len(),
        0 <= p < evs.len(),
    ensures
        evs.remove(k).insert(p, x).len() == evs.len(),
        evs.remove(k).insert(p, x)[p] == x,
        forall|i: int|
            #![trigger moved_from(k, p, i)]
            0 <= i < evs.len() && i != p ==> {
                &&& 0 <= moved_from(k, p, i) < evs.len()
                &&& moved_from(k, p, i) != k
                &&& evs.remove(k).insert(p, x)[i] == evs[moved_from(k, p, i)]
                &&& moved_to(k, p, moved_from(k, p, i)) == i
            },
        forall|m: int|
            #![trigger moved_to(k, p, m)]
            0 <= m < evs.len() && m != k ==> {
                &&& 0 <= moved_to(k, p, m) < evs.len()
                &&& moved_to(k, p, m) != p
                &&& evs.remove(k).insert(p, x)[moved_to(k, p, m)] == evs[m]
                &&& moved_from(k, p, moved_to(k, p, m)) == m
            },
{
    let rest = evs.remove(k);
    evs.remove_ensures(k);
    rest.insert_ensures(p, x);
    let new = rest.insert(p, x);
    assert forall|i: int| 0 <= i < evs.len() && i != p implies new[i] == evs[moved_from(k, p, i)] by {
        let r = if i < p {
            i
        } else {
            i - 1
        };
        if i < p {
            assert(new[i] == rest[i]);
        } else {
            assert(new[(i - 1) + 1] == rest[i - 1]);
        }
        if r < k {
            assert(rest[r] == evs[r]);
        } else {
            assert(rest[r] == evs[r + 1]);
        }
    }
    assert forall|m: int| 0 <= m < evs.len() && m != k implies new[moved_to(k, p, m)] == evs[m] by {
        let r = if m < k {
            m
        } else {
            m - 1
        };
        if m < k {
            assert(rest[r] == evs[r]);
        } else {
            assert(rest[r] == evs[r + 1]);
        }
        if r < p {
            assert(new[r] == rest[r]);
        } else {
            assert(new[r + 1] == rest[r]);
        }
    }
}

/// Under unique identifiers, the event at `(t, k)` is where `placement`
/// puts its identifier.
proof fn lemma_placement_at(evss: Seq<Seq<Event>>, t: int, k: int)
    requires
        ids_unique(evss),
        0 <= t < evss.len(),
        0 <= k < evss[t].len(),
    ensures
        placement(evss).contains_key(evss[t][k].id),
        placement(evss)[evss[t][k].id] == (t, evss[t][k]),
{
    let id = evss[t][k].id;
    assert(held_at(evss, t, k, id));
    let (t2, k2) = choose|t2: int, k2: int| held_at(evss, t2, k2, id);
    assert(held_at(evss, t2, k2, id));
    if t2 != t || k2 != k {
        assert(evss[t2][k2].id != evss[t][k].id);
    }
}

/// Under unique identifiers, the event at `(t, k)` is the one that a
/// search by its identifier finds.
proof fn lemma_found_at(evss: Seq<Seq<Event>>, t: int, k: int)
    requires
        ids_unique(evss),
        0 <= t < evss.len(),
        0 <= k < evss[t].len(),
    ensures
        first_track_with(evss, evss[t][k].id) == Some(t),
        index_of_id(evss[t], evss[t][k].id) == Some(k),
{
    let id = evss[t][k].id;
    lemma_first_track_with(evss, id);
    lemma_index_of_id(evss[t], id);
    match first_track_with(evss, id) {
        Some(t0) => {
            lemma_index_of_id(evss[t0], id);
            let k0 = index_of_id(evss[t0], id)->0;
            if t0 != t || k0 != k {
                assert(evss[t0][k0].id != evss[t][k].id);
            }
        },
        None => {
            assert(index_of_id(evss[t], id) is None);
            assert(evss[t][k].id != id);
        },
    }
}

/// An identifier is held exactly when a search by it finds a track.
proof fn lemma_placement_found(evss: Seq<Seq<Event>>, id: u128)
    requires
        ids_unique(evss),
    ensures
        placement(evss).contains_key(id) <==> first_track_with(evss, id) is Some,
        placement(evss).contains_key(id) ==> first_track_with(evss, id) == Some(placement(evss)[id].0)
            && index_of_id(evss[placement(evss)[id].0], id) is Some
            && evss[placement(evss)[id].0][index_of_id(evss[placement(evss)[id].0], id)->0] == placement(
            evss,
        )[id].1,
{
    lemma_first_track_with(evss, id);
    if placement(evss).contains_key(id) {
        let (t, k) = choose|t: int, k: int| held_at(evss, t, k, id);
        assert(held_at(evss, t, k, id));
        lemma_placement_at(evss, t, k);
        lemma_found_at(evss, t, k);
    }
    if let Some(t) = first_track_with(evss, id) {
        lemma_index_of_id(evss[t], id);
        let k = index_of_id(evss[t], id)->0;
        assert(held_at(evss, t, k, id));
    }
}

/// Giving event `id` a timing keeps identifiers unique and every track as
/// long as it was, and changes only that event's timing; it stays in its
/// track.
proof fn lemma_retime_step(evss: Seq<Seq<Event>>, id: u128, timing: (u32, u32))
    requires
        ids_unique(evss),
        placement(evss).contains_key(id),
    ensures
        first_track_with(evss, id) == Some(placement(evss)[id].0),
        index_of_id(evss[placement(evss)[id].0], id) is Some,
        evss[placement(evss)[id].0][index_of_id(evss[placement(evss)[id].0], id)->0] == placement(evss)[id].1,
        ({
            let t = placement(evss)[id].0;
            let e2 = evss.update(t, retime(evss[t], id, timing));
            &&& ids_unique(e2)
            &&& e2.len() == evss.len()
            &&& forall|j: int| 0 <= j < evss.len() ==> #[trigger] e2[j].len() == evss[j].len()
            &&& placement(e2) == placement(evss).insert(id, (t, with_timing(placement(evss)[id].1, timing)))
        }),
{
    lemma_placement_found(evss, id);
    let t = placement(evss)[id].0;
    let evs = evss[t];
    lemma_index_of_id(evs, id);
    let k = index_of_id(evs, id)->0;
    let rest = evs.remove(k);
    lemma_insert_position(rest, timing.0);
    let p = insert_position(rest, timing.0);
    let x = with_timing(evs[k], timing);
    assert(retime(evs, id, timing) == rest.insert(p, x));
    lemma_move_within(evs, k, p, x);
    let new = rest.insert(p, x);
    let e2 = evss.update(t, new);
    assert forall|a: int, i: int, b: int, j: int|
        0 <= a < e2.len() && 0 <= b < e2.len() && 0 <= i < e2[a].len() && 0 <= j < e2[b].len() && (a != b || i
            != j) implies #[trigger] e2[a][i].id != #[trigger] e2[b][j].id by {
        let ia = if a == t {
            if i == p {
                k
            } else {
                moved_from(k, p, i)
            }
        } else {
            i
        };
        let jb = if b == t {
            if j == p {
                k
            } else {
                moved_from(k, p, j)
            }
        } else {
            j
        };
        assert(e2[a][i].id == evss[a][ia].id);
        assert(e2[b][j].id == evss[b][jb].id);
        if a == b && a == t {
            if i != p && j != p {
                assert(moved_to(k, p, moved_from(k, p, i)) == i);
                assert(moved_to(k, p, moved_from(k, p, j)) == j);
            }
        }
        assert(a != b || ia != jb);
        assert(evss[a][ia].id != evss[b][jb].id);
    }
    let target = placement(evss).insert(id, (t, x));
    assert forall|id2: u128| #[trigger] placement(e2).dom().contains(id2) implies target.dom().contains(id2)
        && placement(e2)[id2] == target[id2] by {
        let (a, i) = choose|a: int, i: int| held_at(e2, a, i, id2);
        assert(held_at(e2, a, i, id2));
        lemma_placement_at(e2, a, i);
        if a == t {
            if i != p {
                let m = moved_from(k, p, i);
                lemma_placement_at(evss, t, m);
                assert(evs[m].id != evs[k].id);
            }
        } else {
            lemma_placement_at(evss, a, i);
            assert(evss[a][i].id != evss[t][k].id);
        }
    }
    assert forall|id2: u128| #[trigger] target.dom().contains(id2) implies placement(e2).dom().contains(id2) by {
        if id2 == id {
            assert(held_at(e2, t, p, id2));
        } else {
            let (a, m) = choose|a: int, m: int| held_at(evss, a, m, id2);
            assert(held_at(evss, a, m, id2));
            if a == t {
                assert(m != k);
                assert(held_at(e2, t, moved_to(k, p, m), id2));
            } else {
                assert(held_at(e2, a, m, id2));
            }
        }
    }
    assert(placement(e2).dom() =~= target.dom());
    assert(placement(e2) =~= target);
}

/// What a change of timings makes of where the events are: each listed
/// identifier that is held, in turn, gets the timing listed with it.
pub open spec fn retimed(pl: Map<u128, (int, Event)>, ids: Seq<u128>, timings: Seq<(u32, u32)>) -> Map<
    u128,
    (int, Event),
>
    decreases ids.len(),
{
    if ids.len() == 0 {
        pl
    } else {
        let prev = retimed(pl, ids.drop_last(), timings);
        let id = ids.last();
        if prev.contains_key(id) {
            prev.insert(id, (prev[id].0, with_timing(prev[id].1, timings[ids.len() - 1])))
        } else {
            prev
        }
    }
}

/// The timings that the listed identifiers that are held have when their
/// turn comes.
pub open spec fn timings_met(pl: Map<u128, (int, Event)>, ids: Seq<u128>, timings: Seq<(u32, u32)>) -> Seq<
    (u32, u32),
>
    decreases ids.len(),
{
    if ids.len() == 0 {
        Seq::empty()
    } else {
        let prev = retimed(pl, ids.drop_last(), timings);
        let before = timings_met(pl, ids.drop_last(), timings);
        let id = ids.last();
        if prev.contains_key(id) {
            before.push((prev[id].1.start_timecode, prev[id].1.end_timecode))
        } else {
            before
        }
    }
}

proof fn lemma_retime_all(evss: Seq<Seq<Event>>, ids: Seq<u128>, timings: Seq<(u32, u32)>)
    requires
        ids_unique(evss),
    ensures
        ids_unique(retime_all(evss, ids, timings).0),
        retime_all(evss, ids, timings).0.len() == evss.len(),
        forall|j: int| 0 <= j < evss.len() ==> #[trigger] retime_all(evss, ids, timings).0[j].len() == evss[j].len(),
        placement(retime_all(evss, ids, timings).0) == retimed(placement(evss), ids, timings),
        retime_all(evss, ids, timings).1 == timings_met(placement(evss), ids, timings),
    decreases ids.len(),
{
    if ids.len() > 0 {
        lemma_retime_all(evss, ids.drop_last(), timings);
        let e = retime_all(evss, ids.drop_last(), timings).0;
        let id = ids.last();
        lemma_placement_found(e, id);
        if placement(e).contains_key(id) {
            lemma_retime_step(e, id, timings[ids.len() - 1]);
        }
    }
}

proof fn lemma_retimed_distinct(pl: Map<u128, (int, Event)>, ids: Seq<u128>, timings: Seq<(u32, u32)>)
    requires
        ids.no_duplicates(),
    ensures
        retimed(pl, ids, timings).dom() == pl.dom(),
        forall|i: int|
            0 <= i < ids.len() && pl.contains_key(ids[i]) ==> #[trigger] retimed(pl, ids, timings)[ids[i]] == (
            pl[ids[i]].0,
            with_timing(pl[ids[i]].1, timings[i]),
        ),
        forall|id: u128| pl.contains_key(id) && !ids.contains(id) ==> #[trigger] retimed(pl, ids, timings)[id] == pl[id],
        (forall|i: int| 0 <= i < ids.len() ==> pl.contains_key(#[trigger] ids[i])) ==> timings_met(pl, ids, timings).len()
            == ids.len() && forall|i: int|
            0 <= i < ids.len() ==> #[trigger] timings_met(pl, ids, timings)[i] == (
                pl[ids[i]].1.start_timecode,
                pl[ids[i]].1.end_timecode,
            ),
    decreases ids.len(),
{
    if ids.len() > 0 {
        let n = ids.len() - 1;
        let d = ids.drop_last();
        assert forall|i: int, j: int| 0 <= i < d.len() && 0 <= j < d.len() && i != j implies d[i] != d[j] by {
            assert(ids[i] != ids[j]);
        }
        lemma_retimed_distinct(pl, d, timings);
        let last = ids.last();
        assert(!d.contains(last)) by {
            if d.contains(last) {
                let j = choose|j: int| 0 <= j < d.len() && d[j] == last;
                assert(ids[j] != ids[n]);
            }
        }
        let prev = retimed(pl, d, timings);
        assert(retimed(pl, ids, timings).dom() =~= pl.dom());
        assert forall|i: int| 0 <= i < ids.len() && pl.contains_key(ids[i]) implies #[trigger] retimed(
            pl,
            ids,
            timings,
        )[ids[i]] == (pl[ids[i]].0, with_timing(pl[ids[i]].1, timings[i])) by {
            if i < n {
                assert(d[i] == ids[i]);
                assert(ids[i] != ids[n]);
            }
        }
        assert forall|id: u128| pl.contains_key(id) && !ids.contains(id) implies #[trigger] retimed(pl, ids, timings)[id]
            == pl[id] by {
            if d.contains(id) {
                let j = choose|j: int| 0 <= j < d.len() && d[j] == id;
                assert(ids[j] == id);
            }
            assert(id != ids[n]);
        }
        if forall|i: int| 0 <= i < ids.len() ==> pl.contains_key(#[trigger] ids[i]) {
            assert forall|i: int| 0 <= i < d.len() implies pl.contains_key(#[trigger] d[i]) by {
                assert(d[i] == ids[i]);
            }
            assert(pl.contains_key(ids[n]));
            assert forall|i: int| 0 <= i < ids.len() implies #[trigger] timings_met(pl, ids, timings)[i] == (
                pl[ids[i]].1.start_timecode,
                pl[ids[i]].1.end_timecode,
            ) by {
                if i < n {
                    assert(d[i] == ids[i]);
                }
            }
        }
    }
}

/// Undoing a change of event timings gives every track back the same
/// events, each with the timing it had. When no two events share an
/// identifier, no identifier is listed twice and each listed one is held,
/// giving the listed events their new timings, and then the timings that
/// this recorded, leaves every track as long as it was, holding the same
/// events with their old timings (events that start together may come back
/// in another order).
pub proof fn lemma_set_timings_undo(evss: Seq<Seq<Event>>, ids: Seq<u128>, timings: Seq<(u32, u32)>)
    requires
        ids_unique(evss),
        ids.no_duplicates(),
        ids.len() == timings.len(),
        forall|i: int| 0 <= i < ids.len() ==> first_track_with(evss, #[trigger] ids[i]) is Some,
    ensures
        retime_all(evss, ids, timings).1.len() == ids.len(),
        ({
            let back = retime_all(retime_all(evss, ids, timings).0, ids, retime_all(evss, ids, timings).1).0;
            &&& ids_unique(back)
            &&& back.len() == evss.len()
            &&& forall|j: int| 0 <= j < evss.len() ==> #[trigger] back[j].len() == evss[j].len()
            &&& placement(back) == placement(evss)
            &&& forall|j: int, k: int|
                0 <= j < evss.len() && 0 <= k < evss[j].len() ==> back[j].contains(#[trigger] evss[j][k])
        }),
{
    let pl = placement(evss);
    assert forall|i: int| 0 <= i < ids.len() implies pl.contains_key(#[trigger] ids[i]) by {
        lemma_placement_found(evss, ids[i]);
    }
    lemma_retime_all(evss, ids, timings);
    lemma_retimed_distinct(pl, ids, timings);
    let e1 = retime_all(evss, ids, timings).0;
    let olds = retime_all(evss, ids, timings).1;
    let pl1 = placement(e1);
    assert forall|i: int| 0 <= i < ids.len() implies pl1.contains_key(#[trigger] ids[i]) by {
        assert(pl.contains_key(ids[i]));
    }
    lemma_retime_all(e1, ids, olds);
    lemma_retimed_distinct(pl1, ids, olds);
    let back = retime_all(e1, ids, olds).0;
    assert(placement(back) == retimed(pl1, ids, olds));
    assert forall|id: u128| #[trigger] pl.dom().contains(id) implies placement(back)[id] == pl[id] by {
        if ids.contains(id) {
            let i = choose|i: int| 0 <= i < ids.len() && ids[i] == id;
            assert(pl1[ids[i]] == (pl[ids[i]].0, with_timing(pl[ids[i]].1, timings[i])));
            assert(olds[i] == (pl[ids[i]].1.start_timecode, pl[ids[i]].1.end_timecode));
            assert(with_timing(with_timing(pl[id].1, timings[i]), olds[i]) == pl[id].1);
        }
    }
    assert(placement(back).dom() =~= pl.dom());
    assert(placement(back) =~= pl);
    assert forall|j: int, k: int| 0 <= j < evss.len() && 0 <= k < evss[j].len() implies back[j].contains(
        #[trigger] evss[j][k],
    ) by {
        let id = evss[j][k].id;
        lemma_placement_at(evss, j, k);
        let (t, m) = choose|t: int, m: int| held_at(back, t, m, id);
        assert(held_at(back, t, m, id));
        lemma_placement_at(back, t, m);
        assert(back[j][m] == evss[j][k]);
    }
}

/// Changing the timings of events and then undoing the change gives every
/// event its old timing back. When no two events of the project share an
/// identifier, no identifier is listed twice, each listed one is held by a
/// track, and the change ran: the undo succeeds, and the tracks, as many as
/// before and each as long as before, hold the same events with the same
/// timings.
pub proof fn lemma_timings_execute_then_undo(
    c: SetEventTimingsCommand,
    app: EditorContext,
    r1: Result<(), UiError>,
    c1: SetEventTimingsCommand,
    app1: EditorContext,
    r2: Result<(), UiError>,
    c2: SetEventTimingsCommand,
    app2: EditorContext,
)
    requires
        timings_executed(c, app, r1, c1, app1),
        timings_undone(c1, app1, r2, c2, app2),
        r1 is Ok,
        app.project matches Some(p) && ids_unique(track_events(p.file.tracks@)),
        c.event_ids@.no_duplicates(),
        forall|i: int|
            0 <= i < c.event_ids@.len() ==> first_track_with(
                track_events(app.project->Some_0.file.tracks@),
                #[trigger] c.event_ids@[i],
            ) is Some,
    ensures
        r2 is Ok,
        ({
            let before = track_events(app.project->Some_0.file.tracks@);
            let after = track_events(app2.project->Some_0.file.tracks@);
            &&& app2.project is Some
            &&& after.len() == before.len()
            &&& forall|j: int| 0 <= j < before.len() ==> #[trigger] after[j].len() == before[j].len()
            &&& placement(after) == placement(before)
            &&& forall|j: int, k: int|
                0 <= j < before.len() && 0 <= k < before[j].len() ==> after[j].contains(#[trigger] before[j][k])
        }),
{
    let p = app.project->Some_0;
    let evss = track_events(p.file.tracks@);
    let ids = c.event_ids@;
    lemma_set_timings_undo(evss, ids, c.new_timings@);
    assert(c1.old_timings@ == retime_all(evss, ids, c.new_timings@).1);
    assert(c1.event_ids@ == ids);
}

proof fn lemma_timings_met_len(pl: Map<u128, (int, Event)>, ids: Seq<u128>, timings: Seq<(u32, u32)>)
    ensures
        retimed(pl, ids, timings).dom() == pl.dom(),
        timings_met(pl, ids, timings).len() <= ids.len(),
        (exists|i: int| 0 <= i < ids.len() && !pl.contains_key(#[trigger] ids[i])) ==> timings_met(
            pl,
            ids,
            timings,
        ).len() < ids.len(),
    decreases ids.len(),
{
    if ids.len() > 0 {
        let d = ids.drop_last();
        lemma_timings_met_len(pl, d, timings);
        assert(retimed(pl, ids, timings).dom() =~= pl.dom());
        if exists|i: int| 0 <= i < ids.len() && !pl.contains_key(#[trigger] ids[i]) {
            let i = choose|i: int| 0 <= i < ids.len() && !pl.contains_key(#[trigger] ids[i]);
            if i < d.len() {
                assert(d[i] == ids[i]);
            }
        }
    }
}

/// A change of event timings that did not find one of its events cannot
/// be undone: when no two events of the project share an identifier and
/// some listed identifier is held by no track, the undo fails and leaves
/// the project as the change left it.
pub proof fn lemma_timings_undo_after_missing(
    c: SetEventTimingsCommand,
    app: EditorContext,
    r1: Result<(), UiError>,
    c1: SetEventTimingsCommand,
    app1: EditorContext,
    r2: Result<(), UiError>,
    c2: SetEventTimingsCommand,
    app2: EditorContext,
)
    requires
        timings_executed(c, app, r1, c1, app1),
        timings_undone(c1, app1, r2, c2, app2),
        r1 is Ok,
        app.project matches Some(p) && ids_unique(track_events(p.file.tracks@)),
        exists|i: int|
            0 <= i < c.event_ids@.len() && first_track_with(
                track_events(app.project->Some_0.file.tracks@),
                #[trigger] c.event_ids@[i],
            ) is None,
    ensures
        r2 is Err,
        app2.project == app1.project,
{
    let p = app.project->Some_0;
    let evss = track_events(p.file.tracks@);
    let ids = c.event_ids@;
    let pl = placement(evss);
    lemma_retime_all(evss, ids, c.new_timings@);
    let i = choose|i: int| 0 <= i < ids.len() && first_track_with(evss, #[trigger] ids[i]) is None;
    lemma_placement_found(evss, ids[i]);
    assert(!pl.contains_key(ids[i]));
    lemma_timings_met_len(pl, ids, c.new_timings@);
    assert(c1.old_timings@.len() < c1.event_ids@.len());
}

} // verus!
