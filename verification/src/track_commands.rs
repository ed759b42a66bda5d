use vstd::prelude::*;

use crate::commands::Command;
use crate::context::EditorContext;
use crate::flags::UpdateFlags;
use crate::ids::fresh_id;
use crate::lyrics::{AudioFile, AudioFileSource, AudioFileType, Event, EventType, EventValue};
use crate::project::{
    Project, Track, TrackType, TrackValue, default_value, find_track, index_of_id, insert_event,
    insert_position, lemma_index_of_id, lemma_track_index, take_id, track_index,
};
use crate::ui_event::{KsngEvent, UiError};

verus! {

/// The order that a new track gets: one past the largest order, or 0.
pub open spec fn next_order(tracks: Seq<Track>) -> u32
    decreases tracks.len(),
{
    if tracks.len() == 0 {
        0
    } else {
        let prev = next_order(tracks.drop_last());
        let here = if tracks.last().order == u32::MAX {
            u32::MAX
        } else {
            (tracks.last().order + 1) as u32
        };
        if here > prev {
            here
        } else {
            prev
        }
    }
}

pub(crate) fn next_order_of(tracks: &Vec<Track>) -> (o: u32)
    ensures
        o == next_order(tracks@),
{
    let mut o: u32 = 0;
    let mut i: usize = 0;
    while i < tracks.len()
        invariant
            0 <= i <= tracks@.len(),
            o == next_order(tracks@.take(i as int)),
        decreases tracks@.len() - i,
    {
        proof {
            assert(tracks@.take(i + 1).drop_last() == tracks@.take(i as int));
        }
        let here = tracks[i].order.saturating_add(1);
        if here > o {
            o = here;
        }
        i = i + 1;
    }
    assert(tracks@.take(tracks@.len() as int) == tracks@);
    o
}

/// The tracks of `tracks` other than those with identifier `id`.
pub open spec fn without_track(tracks: Seq<Track>, id: u128) -> Seq<Track>
    decreases tracks.len(),
{
    if tracks.len() == 0 {
        tracks
    } else {
        let prev = without_track(tracks.drop_last(), id);
        if tracks.last().id == id {
            prev
        } else {
            prev.push(tracks.last())
        }
    }
}

proof fn lemma_without_absent(tracks: Seq<Track>, id: u128)
    requires
        forall|j: int| 0 <= j < tracks.len() ==> tracks[j].id != id,
    ensures
        without_track(tracks, id) == tracks,
    decreases tracks.len(),
{
    if tracks.len() > 0 {
        lemma_without_absent(tracks.drop_last(), id);
        assert(tracks.drop_last().push(tracks.last()) =~= tracks);
    }
}

fn remove_tracks_with_id(tracks: &mut Vec<Track>, id: u128)
    ensures
        final(tracks)@ == without_track(old(tracks)@, id),
{
    let mut taken: Vec<Track> = Vec::new();
    std::mem::swap(&mut taken, tracks);
    let ghost orig = taken@;
    let n = taken.len();
    let mut reversed: Vec<Track> = Vec::new();
    while taken.len() > 0
        invariant
            taken@ == orig.take(taken@.len() as int),
            n == orig.len(),
            reversed@.len() + taken@.len() == n,
            forall|j: int| 0 <= j < reversed@.len() ==> #[trigger] reversed@[j] == orig[n - 1 - j],
        decreases taken@.len(),
    {
        let ghost m = taken@.len() as int;
        let t = taken.pop().unwrap();
        proof {
            assert(orig.take(m).drop_last() == orig.take(m - 1));
        }
        reversed.push(t);
    }
    let mut k: usize = 0;
    while reversed.len() > 0
        invariant
            reversed@.len() + k == n,
            n == orig.len(),
            forall|j: int| 0 <= j < reversed@.len() ==> #[trigger] reversed@[j] == orig[n - 1 - j],
            tracks@ == without_track(orig.take(k as int), id),
        decreases reversed@.len(),
    {
        let t = reversed.pop().unwrap();
        proof {
            assert(orig.take(k + 1).drop_last() == orig.take(k as int));
            assert(orig.take(k + 1).last() == orig[k as int]);
        }
        if t.id != id {
            tracks.push(t);
        }
        k = k + 1;
    }
    assert(orig.take(n as int) == orig);
}

/// Everything of a project but its tracks is as it was.
pub open spec fn same_but_tracks(a: Project, b: Project) -> bool {
    &&& a.id == b.id
    &&& a.name == b.name
    &&& a.dirty == b.dirty
    &&& a.length == b.length
}

/// Adds an empty track of a given type after the others.
pub struct AddTrackCommand {
    pub track_type: TrackType,
    pub added_track_id: Option<u128>,
}

impl AddTrackCommand {
    pub fn new(track_type: TrackType) -> (c: AddTrackCommand)
        ensures
            c.track_type == track_type,
            c.added_track_id is None,
    {
        AddTrackCommand { track_type, added_track_id: None }
    }

    /// Adds a track of the command's type after the others, under a fresh
    /// identifier that it remembers.
    pub fn execute_impl(&mut self, app: &mut EditorContext) -> (r: Result<(), UiError>)
        ensures
            add_track_executed(*old(self), *old(app), r, *final(self), *final(app)),
    {
        match &mut app.project {
            None => Err(UiError::InvalidCommand("AddTrackCommand without project".to_string())),
            Some(project) => {
                let next = next_order_of(&project.file.tracks);
                let new_track = Track::new_type(self.track_type, next);
                self.added_track_id = Some(new_track.id);
                let ghost before = project.file.tracks@;
                project.file.tracks.push(new_track);
                assert(project.file.tracks@.drop_last() =~= before);
                Ok(())
            },
        }
    }

    /// Takes the added track out of the project and out of the selection.
    pub fn undo_impl(&mut self, app: &mut EditorContext) -> (r: Result<(), UiError>)
        requires
            old(app).selection.wf(),
        ensures
            add_track_undone(*old(self), *old(app), r, *final(self), *final(app)),
    {
        if app.project.is_none() {
            return Err(UiError::InvalidCommand("AddTrackCommand without project".to_string()));
        }
        if let Some(added_id) = self.added_track_id {
            app.selection.remove_track(added_id);
            if let Some(project) = &mut app.project {
                remove_tracks_with_id(&mut project.file.tracks, added_id);
            }
        }
        Ok(())
    }
}

/// Adding a track and undoing it gives back the tracks there were, as long
/// as the fresh identifier of the new track was not already a track's.
pub proof fn lemma_add_track_undo(before: Seq<Track>, after: Seq<Track>, id: u128)
    requires
        after.drop_last() == before,
        after.len() == before.len() + 1,
        after.last().id == id,
        forall|j: int| 0 <= j < before.len() ==> before[j].id != id,
    ensures
        without_track(after, id) == before,
{
    assert(after.drop_last() == before);
    lemma_without_absent(before, id);
}

/// Whether a track's settings say it is muted; tracks that are not audio
/// tracks are never muted.
pub open spec fn is_muted(v: Option<TrackValue>) -> bool {
    match v {
        Some(TrackValue::Audio { muted }) => muted,
        _ => false,
    }
}

/// The settings `v` with the mute state set to `muted`, if they are an
/// audio track's.
pub open spec fn set_muted(v: Option<TrackValue>, muted: bool) -> Option<TrackValue> {
    match v {
        Some(TrackValue::Audio { .. }) => Some(TrackValue::Audio { muted }),
        _ => v,
    }
}

/// The tracks with the one at index `i` given settings `v`.
pub open spec fn with_value(tracks: Seq<Track>, i: int, v: Option<TrackValue>) -> Seq<Track> {
    tracks.update(i, Track { track_value: v, ..tracks[i] })
}

fn set_track_value(tracks: &mut Vec<Track>, i: usize, v: Option<TrackValue>)
    requires
        i < old(tracks)@.len(),
    ensures
        final(tracks)@ == with_value(old(tracks)@, i as int, v),
{
    let mut t = tracks.remove(i);
    t.track_value = v;
    tracks.insert(i, t);
    assert(tracks@ =~= with_value(old(tracks)@, i as int, v));
}

/// Mutes an audio track, or unmutes it if it was muted.
pub struct MuteTrackCommand {
    pub track_id: u128,
    pub to_mute_state: bool,
}

/// What a command that finds a track by identifier does when there is no
/// project or no such track: it fails and changes nothing.
pub open spec fn fails_without_track(old_app: EditorContext, new_app: EditorContext, track_id: u128, r: Result<(), UiError>) -> bool {
    match old_app.project {
        None => r is Err && new_app.project == old_app.project,
        Some(p) => track_index(p.file.tracks@, track_id) is None ==> r is Err && new_app.project
            == old_app.project,
    }
}

impl MuteTrackCommand {
    /// A command that flips the mute state of `track`.
    pub fn new(track: &Track) -> (c: MuteTrackCommand)
        ensures
            c.track_id == track.id,
            c.to_mute_state == !is_muted(track.track_value),
    {
        let mute_state = match &track.track_value {
            Some(TrackValue::Audio { muted }) => *muted,
            _ => false,
        };
        MuteTrackCommand { track_id: track.id, to_mute_state: !mute_state }
    }

    fn set_state(&self, app: &mut EditorContext, muted: bool) -> (r: Result<(), UiError>)
        ensures
            mute_set(self.track_id, muted, *old(app), r, *final(app)),
    {
        let r = match &mut app.project {
            None => Err(UiError::InvalidCommand("MuteTrackCommand without project".to_string())),
            Some(project) => {
                proof {
                    lemma_track_index(project.file.tracks@, self.track_id);
                }
                match find_track(&project.file.tracks, self.track_id) {
                    None => Err(
                        UiError::InvalidCommand("MuteTrackCommand can't find target track".to_string()),
                    ),
                    Some(i) => {
                        let v = match project.file.tracks[i].track_value {
                            Some(TrackValue::Audio { .. }) => Some(TrackValue::Audio { muted }),
                            other => other,
                        };
                        set_track_value(&mut project.file.tracks, i, v);
                        Ok(())
                    },
                }
            },
        };
        if r.is_ok() {
            app.dispatch(KsngEvent::AudioChanged);
        }
        r
    }
}

/// Muting a track and undoing it gives back its settings.
pub proof fn lemma_mute_undo(v: Option<TrackValue>)
    ensures
        set_muted(set_muted(v, !is_muted(v)), !!is_muted(v)) == v,
{
}

/// Sets a track's settings.
pub struct EditTrackConfigCommand {
    pub track_id: u128,
    pub prev_config: Option<TrackValue>,
    pub new_config: TrackValue,
}

impl EditTrackConfigCommand {
    pub fn new(track_id: u128, new_config: TrackValue) -> (c: EditTrackConfigCommand)
        ensures
            c.track_id == track_id,
            c.new_config == new_config,
            c.prev_config is None,
    {
        EditTrackConfigCommand { track_id, new_config, prev_config: None }
    }

    fn set_config(&mut self, app: &mut EditorContext, undoing: bool) -> (r: Result<(), UiError>)
        ensures
            config_set(*old(self), undoing, *old(app), r, *final(self), *final(app)),
    {
        match &mut app.project {
            None => Err(UiError::InvalidCommand("EditTrackConfigCommand without project".to_string())),
            Some(project) => {
                proof {
                    lemma_track_index(project.file.tracks@, self.track_id);
                }
                match find_track(&project.file.tracks, self.track_id) {
                    None => Err(
                        UiError::InvalidCommand(
                            "EditTrackConfigCommand can't find target track".to_string(),
                        ),
                    ),
                    Some(i) => {
                        if undoing {
                            set_track_value(&mut project.file.tracks, i, self.prev_config);
                        } else {
                            self.prev_config = project.file.tracks[i].track_value;
                            set_track_value(&mut project.file.tracks, i, Some(self.new_config));
                        }
                        Ok(())
                    },
                }
            },
        }
    }
}

/// Setting a track's settings and undoing it gives back the settings it
/// had.
pub proof fn lemma_edit_config_undo(tracks: Seq<Track>, i: int, new_config: TrackValue)
    requires
        0 <= i < tracks.len(),
    ensures
        with_value(with_value(tracks, i, Some(new_config)), i, tracks[i].track_value) == tracks,
{
    assert(with_value(with_value(tracks, i, Some(new_config)), i, tracks[i].track_value) =~= tracks);
}


/// The events of each track.
pub open spec fn track_events(tracks: Seq<Track>) -> Seq<Seq<Event>> {
    tracks.map_values(|t: Track| t.events@)
}

/// The first track whose events hold one with identifier `id`.
pub open spec fn first_track_with(evss: Seq<Seq<Event>>, id: u128) -> Option<int>
    decreases evss.len(),
{
    if evss.len() == 0 {
        None
    } else if index_of_id(evss[0], id) is Some {
        Some(0)
    } else {
        match first_track_with(evss.skip(1), id) {
            Some(t) => Some(t + 1),
            None => None,
        }
    }
}

/// The track found is the first that holds the identifier; without one, no
/// track holds it.
pub proof fn lemma_first_track_with(evss: Seq<Seq<Event>>, id: u128)
    ensures
        first_track_with(evss, id) matches Some(t) ==> 0 <= t < evss.len() && index_of_id(evss[t], id) is Some
            && forall|j: int| 0 <= j < t ==> index_of_id(evss[j], id) is None,
        first_track_with(evss, id) is None ==> forall|j: int| 0 <= j < evss.len() ==> index_of_id(evss[j], id) is None,
    decreases evss.len(),
{
    if evss.len() > 0 && index_of_id(evss[0], id) is None {
        lemma_first_track_with(evss.skip(1), id);
        assert forall|j: int| 1 <= j < evss.len() implies evss.skip(1)[j - 1] == evss[j] by {}
    }
}

/// The events `evs` with the first event `id` given the timing `timing` and
/// moved to where that start puts it.
pub open spec fn retime(evs: Seq<Event>, id: u128, timing: (u32, u32)) -> Seq<Event> {
    let k = index_of_id(evs, id)->0;
    let rest = evs.remove(k);
    rest.insert(
        insert_position(rest, timing.0),
        Event { start_timecode: timing.0, end_timecode: timing.1, ..evs[k] },
    )
}

/// The events of each track after giving `ids[i]` the timing `timings[i]`,
/// in order, with the timings they had; an identifier that no track holds is
/// passed over.
pub open spec fn retime_all(evss: Seq<Seq<Event>>, ids: Seq<u128>, timings: Seq<(u32, u32)>) -> (Seq<Seq<Event>>, Seq<(u32, u32)>)
    decreases ids.len(),
{
    if ids.len() == 0 {
        (evss, Seq::empty())
    } else {
        let (e, olds) = retime_all(evss, ids.drop_last(), timings);
        let id = ids.last();
        match first_track_with(e, id) {
            None => (e, olds),
            Some(t) => {
                let k = index_of_id(e[t], id)->0;
                (
                    e.update(t, retime(e[t], id, timings[ids.len() - 1])),
                    olds.push((e[t][k].start_timecode, e[t][k].end_timecode)),
                )
            },
        }
    }
}

/// The tracks keep everything but their events.
pub open spec fn same_tracks_but_events(a: Seq<Track>, b: Seq<Track>) -> bool {
    &&& a.len() == b.len()
    &&& forall|j: int|
        0 <= j < a.len() ==> (#[trigger] a[j]).id == b[j].id && a[j].order == b[j].order
            && a[j].track_type == b[j].track_type && a[j].track_value == b[j].track_value
}

fn find_track_with_event(tracks: &Vec<Track>, id: u128) -> (r: Option<usize>)
    ensures
        r matches Some(t) ==> first_track_with(track_events(tracks@), id) == Some(t as int),
        r is None ==> first_track_with(track_events(tracks@), id) is None,
{
    let ghost evss = track_events(tracks@);
    proof {
        lemma_first_track_with(evss, id);
    }
    let mut t: usize = 0;
    while t < tracks.len()
        invariant
            0 <= t <= tracks@.len(),
            evss == track_events(tracks@),
            forall|j: int| 0 <= j < t ==> index_of_id(evss[j], id) is None,
        decreases tracks@.len() - t,
    {
        let mut found = false;
        let mut k: usize = 0;
        proof {
            lemma_index_of_id(tracks@[t as int].events@, id);
        }
        while k < tracks[t].events.len()
            invariant
                0 <= k <= tracks@[t as int].events@.len(),
                t < tracks@.len(),
                evss == track_events(tracks@),
                forall|j: int| 0 <= j < t ==> index_of_id(evss[j], id) is None,
                forall|j: int| 0 <= j < k ==> tracks@[t as int].events@[j].id != id,
                found ==> k < tracks@[t as int].events@.len() && tracks@[t as int].events@[k as int].id == id,
            ensures
                t < tracks@.len(),
                evss == track_events(tracks@),
                forall|j: int| 0 <= j < t ==> index_of_id(evss[j], id) is None,
                found ==> k < tracks@[t as int].events@.len() && tracks@[t as int].events@[k as int].id == id,
                !found ==> forall|j: int| 0 <= j < tracks@[t as int].events@.len() ==> tracks@[t as int].events@[j].id != id,
            decreases tracks@[t as int].events@.len() - k,
        {
            if tracks[t].events[k].id == id {
                found = true;
                break;
            }
            k = k + 1;
        }
        if found {
            assert(evss[t as int] == tracks@[t as int].events@);
            proof {
                lemma_first_track_with(evss, id);
                lemma_index_of_id(tracks@[t as int].events@, id);
                if let Some(f) = first_track_with(evss, id) {
                    if f < t {
                        assert(index_of_id(evss[f], id) is None);
                    }
                    if f > t {
                        assert(index_of_id(evss[t as int], id) is None);
                    }
                }
            }
            return Some(t);
        }
        assert(evss[t as int] == tracks@[t as int].events@);
        proof {
            lemma_index_of_id(tracks@[t as int].events@, id);
        }
        t = t + 1;
    }
    proof {
        lemma_first_track_with(evss, id);
    }
    None
}

/// Gives the first event `id` of the first track holding it the timing
/// `timing`, and returns the timing it had.
fn retime_one(tracks: &mut Vec<Track>, id: u128, timing: (u32, u32)) -> (r: Option<(u32, u32)>)
    ensures
        same_tracks_but_events(old(tracks)@, final(tracks)@),
        match first_track_with(track_events(old(tracks)@), id) {
            None => r is None && track_events(final(tracks)@) == track_events(old(tracks)@),
            Some(t) => {
                let e = track_events(old(tracks)@);
                let k = index_of_id(e[t], id)->0;
                &&& r == Some((e[t][k].start_timecode, e[t][k].end_timecode))
                &&& track_events(final(tracks)@) == e.update(t, retime(e[t], id, timing))
            },
        },
{
    let ghost e = track_events(tracks@);
    match find_track_with_event(tracks, id) {
        None => {
            assert(track_events(final(tracks)@) =~= track_events(old(tracks)@));
            None
        },
        Some(t) => {
            proof {
                lemma_first_track_with(e, id);
                lemma_index_of_id(e[t as int], id);
            }
            let mut track = tracks.remove(t);
            assert(track.events@ == e[t as int]);
            let taken = take_id(&mut track.events, id);
            let mut ev = taken.unwrap();
            let old_timing = (ev.start_timecode, ev.end_timecode);
            ev.start_timecode = timing.0;
            ev.end_timecode = timing.1;
            insert_event(&mut track.events, ev);
            tracks.insert(t, track);
            assert(track_events(tracks@) =~= e.update(t as int, retime(e[t as int], id, timing)));
            Some(old_timing)
        },
    }
}

fn retime_many(tracks: &mut Vec<Track>, ids: &Vec<u128>, timings: &Vec<(u32, u32)>) -> (olds: Vec<(u32, u32)>)
    requires
        ids@.len() == timings@.len(),
    ensures
        same_tracks_but_events(old(tracks)@, final(tracks)@),
        track_events(final(tracks)@) == retime_all(track_events(old(tracks)@), ids@, timings@).0,
        olds@ == retime_all(track_events(old(tracks)@), ids@, timings@).1,
{
    let ghost e0 = track_events(tracks@);
    let mut olds: Vec<(u32, u32)> = Vec::new();
    let mut i: usize = 0;
    while i < ids.len()
        invariant
            0 <= i <= ids@.len(),
            ids@.len() == timings@.len(),
            e0 == track_events(old(tracks)@),
            same_tracks_but_events(old(tracks)@, tracks@),
            track_events(tracks@) == retime_all(e0, ids@.take(i as int), timings@).0,
            olds@ == retime_all(e0, ids@.take(i as int), timings@).1,
        decreases ids@.len() - i,
    {
        proof {
            assert(ids@.take(i + 1).drop_last() == ids@.take(i as int));
            assert(ids@.take(i + 1).last() == ids@[i as int]);
        }
        let ghost before = tracks@;
        let r = retime_one(tracks, ids[i], timings[i]);
        if let Some(old_timing) = r {
            olds.push(old_timing);
        }
        i = i + 1;
        proof {
            assert forall|j: int| 0 <= j < old(tracks)@.len() implies (#[trigger] old(tracks)@[j]).id
                == tracks@[j].id && old(tracks)@[j].order == tracks@[j].order
                && old(tracks)@[j].track_type == tracks@[j].track_type
                && old(tracks)@[j].track_value == tracks@[j].track_value by {
                assert(before[j].id == tracks@[j].id);
            }
        }
    }
    assert(ids@.take(ids@.len() as int) == ids@);
    olds
}

/// Sets the start and end of events, as a drag on the timeline does.
pub struct SetEventTimingsCommand {
    pub title: String,
    pub event_ids: Vec<u128>,
    pub new_timings: Vec<(u32, u32)>,
    pub old_timings: Vec<(u32, u32)>,
}

impl SetEventTimingsCommand {
    /// A command that gives `event_ids[i]` the timing `timings[i]`, named
    /// for one event or for several.
    pub fn new(event_ids: &[u128], timings: &[(u32, u32)]) -> (c: SetEventTimingsCommand)
        ensures
            c.event_ids@ == event_ids@,
            c.new_timings@ == timings@,
            c.old_timings@.len() == 0,
            c.title@ == (if event_ids@.len() == 1 {
                "Set event timing"@
            } else {
                "Set event timings"@
            }),
    {
        let title = if event_ids.len() == 1 {
            "Set event timing".to_string()
        } else {
            "Set event timings".to_string()
        };
        Self::new_with_title(title, event_ids, timings)
    }

    pub fn new_with_title(title: String, event_ids: &[u128], timings: &[(u32, u32)]) -> (c: SetEventTimingsCommand)
        ensures
            c.title == title,
            c.event_ids@ == event_ids@,
            c.new_timings@ == timings@,
            c.old_timings@.len() == 0,
    {
        SetEventTimingsCommand {
            title,
            event_ids: vstd::slice::slice_to_vec(event_ids),
            new_timings: vstd::slice::slice_to_vec(timings),
            old_timings: Vec::new(),
        }
    }

    /// Gives the events their new timings and remembers the ones they had.
    pub fn execute_impl(&mut self, app: &mut EditorContext) -> (r: Result<(), UiError>)
        ensures
            timings_executed(*old(self), *old(app), r, *final(self), *final(app)),
    {
        match &mut app.project {
            None => Err(UiError::InvalidCommand("SetEventTimings without project".to_string())),
            Some(project) => {
                if self.event_ids.len() != self.new_timings.len() {
                    return Err(
                        UiError::InvalidCommand(
                            "event_ids must be the same len as new_timings in SetEventTimings".to_string(),
                        ),
                    );
                }
                let olds = retime_many(&mut project.file.tracks, &self.event_ids, &self.new_timings);
                self.old_timings = olds;
                Ok(())
            },
        }
    }

    /// Gives the events back the timings they had.
    pub fn undo_impl(&mut self, app: &mut EditorContext) -> (r: Result<(), UiError>)
        ensures
            timings_undone(*old(self), *old(app), r, *final(self), *final(app)),
    {
        match &mut app.project {
            None => Err(UiError::InvalidCommand("SetEventTimings without project".to_string())),
            Some(project) => {
                if self.event_ids.len() != self.old_timings.len() {
                    return Err(
                        UiError::InvalidCommand(
                            "event_ids must be the same len as old_timings in SetEventTimings".to_string(),
                        ),
                    );
                }
                let _ = retime_many(&mut project.file.tracks, &self.event_ids, &self.old_timings);
                Ok(())
            },
        }
    }
}


/// Adds a clip of an audio file at the start of an audio track.
pub struct AddAudioEventCommand {
    pub audio_track_id: u128,
    pub audio_file: String,
    pub audio_type: AudioFileType,
    pub length: u32,
    pub added_event_id: Option<u128>,
}

/// The events of track `t` are `evs`, and nothing else about the tracks has
/// changed.
pub open spec fn tracks_with_events(before: Seq<Track>, after: Seq<Track>, t: int, evs: Seq<Event>) -> bool {
    &&& same_tracks_but_events(before, after)
    &&& track_events(after) == track_events(before).update(t, evs)
}

fn take_event_of_track(tracks: &mut Vec<Track>, t: usize, id: u128) -> (r: Option<Event>)
    requires
        t < old(tracks)@.len(),
    ensures
        same_tracks_but_events(old(tracks)@, final(tracks)@),
        match index_of_id(old(tracks)@[t as int].events@, id) {
            Some(k) => tracks_with_events(old(tracks)@, final(tracks)@, t as int, old(tracks)@[t as int].events@.remove(k)),
            None => track_events(final(tracks)@) == track_events(old(tracks)@),
        },
{
    let ghost e = track_events(tracks@);
    let mut track = tracks.remove(t);
    let r = take_id(&mut track.events, id);
    tracks.insert(t, track);
    assert(track_events(tracks@) =~= e.update(t as int, tracks@[t as int].events@));
    assert(e[t as int] == old(tracks)@[t as int].events@);
    proof {
        if index_of_id(old(tracks)@[t as int].events@, id) is None {
            assert(track_events(tracks@) =~= e);
        }
    }
    r
}

fn insert_event_in_track(tracks: &mut Vec<Track>, t: usize, ev: Event)
    requires
        t < old(tracks)@.len(),
    ensures
        tracks_with_events(
            old(tracks)@,
            final(tracks)@,
            t as int,
            old(tracks)@[t as int].events@.insert(insert_position(old(tracks)@[t as int].events@, ev.start_timecode), ev),
        ),
{
    let ghost e = track_events(tracks@);
    let mut track = tracks.remove(t);
    insert_event(&mut track.events, ev);
    tracks.insert(t, track);
    assert(track_events(tracks@) =~= e.update(t as int, tracks@[t as int].events@));
}

impl AddAudioEventCommand {
    pub fn new(track_id: u128, path: String, audio_type: AudioFileType, length: u32) -> (c: AddAudioEventCommand)
        ensures
            c.audio_track_id == track_id,
            c.audio_file == path,
            c.audio_type == audio_type,
            c.length == length,
            c.added_event_id is None,
    {
        AddAudioEventCommand { audio_track_id: track_id, audio_file: path, audio_type, length, added_event_id: None }
    }

    /// Adds the clip, from the start of the track to the length of the file.
    pub fn execute_impl(&mut self, app: &mut EditorContext) -> (r: Result<(), UiError>)
        ensures
            clip_executed(*old(self), *old(app), r, *final(self), *final(app)),
    {
        match &mut app.project {
            None => Err(UiError::InvalidCommand("AddAudioEvent without project".to_string())),
            Some(project) => {
                proof {
                    lemma_track_index(project.file.tracks@, self.audio_track_id);
                }
                match find_track(&project.file.tracks, self.audio_track_id) {
                    None => Err(
                        UiError::InvalidCommand("AddAudioEvent with invalid selected track".to_string()),
                    ),
                    Some(t) => {
                        let audio_file = AudioFile {
                            id: fresh_id(),
                            file_type: self.audio_type,
                            source: AudioFileSource::Path(self.audio_file.clone()),
                        };
                        let event = Event::new_audio(0, self.length, 0, audio_file);
                        let event_id = event.id;
                        let ghost evs = project.file.tracks@[t as int].events@;
                        let ghost ev = event;
                        proof {
                            crate::project::lemma_insert_position(evs, 0);
                        }
                        insert_event_in_track(&mut project.file.tracks, t, event);
                        assert(track_events(project.file.tracks@)[t as int] == evs.insert(insert_position(evs, 0), ev));
                        assert(track_events(project.file.tracks@)[t as int][insert_position(evs, 0)] == ev);
                        self.added_event_id = Some(event_id);
                        Ok(())
                    },
                }
            },
        }
    }

    /// Takes the added clip out of the track and out of the selection.
    pub fn undo_impl(&mut self, app: &mut EditorContext) -> (r: Result<(), UiError>)
        requires
            old(app).selection.wf(),
        ensures
            clip_undone(*old(self), *old(app), r, *final(self), *final(app)),
    {
        match &mut app.project {
            None => Err(UiError::InvalidCommand("AddTrackCommand without project".to_string())),
            Some(project) => {
                proof {
                    lemma_track_index(project.file.tracks@, self.audio_track_id);
                }
                match find_track(&project.file.tracks, self.audio_track_id) {
                    None => Err(
                        UiError::InvalidCommand("AddAudioEvent with invalid selected track".to_string()),
                    ),
                    Some(t) => {
                        if let Some(added_event_id) = self.added_event_id {
                            app.selection.remove_event(added_event_id);
                            let _ = take_event_of_track(&mut project.file.tracks, t, added_event_id);
                        }
                        Ok(())
                    },
                }
            },
        }
    }
}


/// Adding a clip and undoing it gives the track back the events it had, as
/// long as no event of the track had the new clip's fresh identifier.
pub proof fn lemma_add_audio_event_undo(evs: Seq<Event>, ev: Event)
    requires
        index_of_id(evs, ev.id) is None,
    ensures
        ({
            let added = evs.insert(insert_position(evs, 0), ev);
            index_of_id(added, ev.id) matches Some(k) && added.remove(k) == evs
        }),
{
    let p = insert_position(evs, 0);
    crate::project::lemma_insert_position(evs, 0);
    let added = evs.insert(p, ev);
    evs.insert_ensures(p, ev);
    lemma_index_of_id(evs, ev.id);
    lemma_index_of_id(added, ev.id);
    match index_of_id(added, ev.id) {
        Some(k) => {
            if k < p {
                assert(added[k] == evs[k]);
            }
            if k > p {
                assert(added[p].id == ev.id);
            }
            assert(added.remove(k) =~= evs);
        },
        None => {
            assert(added[p].id == ev.id);
        },
    }
}

/// What adding a track does: the command `c` run on `app` gives `r` and
/// leaves the command as `c2` and the editor as `app2`.
pub open spec fn add_track_executed(c: AddTrackCommand, app: EditorContext, r: Result<(), UiError>, c2: AddTrackCommand, app2: EditorContext) -> bool {
    &&& app2.selection == app.selection
    &&& app2.event_queue == app.event_queue
    &&& app2.refresh == app.refresh
    &&& c2.track_type == c.track_type
    &&& app.project is None ==> r is Err && app2.project == app.project
        && c2 == c
    &&& app.project matches Some(p) ==> r is Ok && (app2.project matches Some(q) && ({
        let t = q.file.tracks@.last();
        &&& same_but_tracks(p, q)
        &&& q.file.tracks@.len() == p.file.tracks@.len() + 1
        &&& q.file.tracks@.drop_last() == p.file.tracks@
        &&& c2.added_track_id == Some(t.id)
        &&& t.order == next_order(p.file.tracks@)
        &&& t.track_type == c.track_type
        &&& t.track_value == Some(default_value(c.track_type))
        &&& t.events@.len() == 0
    }))
}

/// What undoing the addition of a track does, as `add_track_executed` says
/// it of adding one.
pub open spec fn add_track_undone(c: AddTrackCommand, app: EditorContext, r: Result<(), UiError>, c2: AddTrackCommand, app2: EditorContext) -> bool {
    &&& app2.selection.wf()
    &&& c2 == c
    &&& app2.event_queue == app.event_queue
    &&& app2.refresh == app.refresh
    &&& app.project is None ==> r is Err && app2.project == app.project
        && app2.selection == app.selection
    &&& app.project matches Some(p) ==> r is Ok && (app2.project matches Some(q) && ({
        &&& same_but_tracks(p, q)
        &&& match c.added_track_id {
            Some(id) => q.file.tracks@ == without_track(p.file.tracks@, id)
                && app2.selection.tracks() == app.selection.tracks().remove(id)
                && app2.selection.events() == app.selection.events(),
            None => q.file.tracks@ == p.file.tracks@ && app2.selection == app.selection,
        }
    }))
}

/// What setting the mute state of track `track_id` to `muted` does: the
/// editor `app` becomes `app2` and the result is `r`.
pub open spec fn mute_set(track_id: u128, muted: bool, app: EditorContext, r: Result<(), UiError>, app2: EditorContext) -> bool {
    &&& app2.selection == app.selection
    &&& app2.refresh == app.refresh
    &&& fails_without_track(app, app2, track_id, r)
    &&& r is Err ==> app2.event_queue == app.event_queue
    &&& app.project matches Some(p) ==> (track_index(p.file.tracks@, track_id) matches Some(
        i,
    ) ==> r is Ok && (app2.project matches Some(q) && same_but_tracks(p, q)
        && q.file.tracks@ == with_value(
        p.file.tracks@,
        i,
        set_muted(p.file.tracks@[i].track_value, muted),
    )) && app2.event_queue@ == app.event_queue@.push(KsngEvent::AudioChanged))
}

/// What setting a track's settings does, or, when `undoing`, setting back
/// those it had: the command `c` run on `app` gives `r` and leaves the
/// command as `c2` and the editor as `app2`.
pub open spec fn config_set(c: EditTrackConfigCommand, undoing: bool, app: EditorContext, r: Result<(), UiError>, c2: EditTrackConfigCommand, app2: EditorContext) -> bool {
    &&& app2.selection == app.selection
    &&& app2.refresh == app.refresh
    &&& app2.event_queue == app.event_queue
    &&& c2.track_id == c.track_id
    &&& c2.new_config == c.new_config
    &&& fails_without_track(app, app2, c.track_id, r)
    &&& r is Err ==> c2 == c
    &&& app.project matches Some(p) ==> (track_index(p.file.tracks@, c.track_id) matches Some(
        i,
    ) ==> r is Ok && (app2.project matches Some(q) && same_but_tracks(p, q) && if undoing {
        q.file.tracks@ == with_value(p.file.tracks@, i, c.prev_config)
            && c2 == c
    } else {
        q.file.tracks@ == with_value(p.file.tracks@, i, Some(c.new_config))
            && c2.prev_config == p.file.tracks@[i].track_value
    }))
}

/// What setting event timings does: the command `c` run on `app` gives
/// `r` and leaves the command as `c2` and the editor as `app2`.
pub open spec fn timings_executed(c: SetEventTimingsCommand, app: EditorContext, r: Result<(), UiError>, c2: SetEventTimingsCommand, app2: EditorContext) -> bool {
    &&& app2.selection == app.selection
    &&& app2.event_queue == app.event_queue
    &&& app2.refresh == app.refresh
    &&& c2.title == c.title
    &&& c2.event_ids == c.event_ids
    &&& c2.new_timings == c.new_timings
    &&& r is Err ==> app2.project == app.project && c2 == c
    &&& r is Err <==> (app.project is None || c.event_ids@.len() != c.new_timings@.len())
    &&& r is Ok ==> (app.project matches Some(p) && app2.project matches Some(q)
        && same_but_tracks(p, q) && same_tracks_but_events(p.file.tracks@, q.file.tracks@)
        && track_events(q.file.tracks@) == retime_all(
        track_events(p.file.tracks@),
        c.event_ids@,
        c.new_timings@,
    ).0 && c2.old_timings@ == retime_all(
        track_events(p.file.tracks@),
        c.event_ids@,
        c.new_timings@,
    ).1)
}

/// What undoing a change of event timings does, as `timings_executed` says
/// it of the change.
pub open spec fn timings_undone(c: SetEventTimingsCommand, app: EditorContext, r: Result<(), UiError>, c2: SetEventTimingsCommand, app2: EditorContext) -> bool {
    &&& app2.selection == app.selection
    &&& app2.event_queue == app.event_queue
    &&& app2.refresh == app.refresh
    &&& c2 == c
    &&& r is Err ==> app2.project == app.project
    &&& r is Err <==> (app.project is None || c.event_ids@.len() != c.old_timings@.len())
    &&& r is Ok ==> (app.project matches Some(p) && app2.project matches Some(q)
        && same_but_tracks(p, q) && same_tracks_but_events(p.file.tracks@, q.file.tracks@)
        && track_events(q.file.tracks@) == retime_all(
        track_events(p.file.tracks@),
        c.event_ids@,
        c.old_timings@,
    ).0)
}

/// What adding a clip does: the command `c` run on `app` gives `r` and
/// leaves the command as `c2` and the editor as `app2`.
pub open spec fn clip_executed(c: AddAudioEventCommand, app: EditorContext, r: Result<(), UiError>, c2: AddAudioEventCommand, app2: EditorContext) -> bool {
    &&& app2.selection == app.selection
    &&& app2.event_queue == app.event_queue
    &&& app2.refresh == app.refresh
    &&& c2.audio_track_id == c.audio_track_id
    &&& c2.audio_file == c.audio_file
    &&& c2.audio_type == c.audio_type
    &&& c2.length == c.length
    &&& fails_without_track(app, app2, c.audio_track_id, r)
    &&& r is Err ==> c2 == c
    &&& app.project matches Some(p) ==> (track_index(p.file.tracks@, c.audio_track_id) matches Some(
        t,
    ) ==> r is Ok && (app2.project matches Some(q) && same_but_tracks(p, q) && ({
        let evs = p.file.tracks@[t].events@;
        let ev = track_events(q.file.tracks@)[t][insert_position(evs, 0)];
        &&& tracks_with_events(p.file.tracks@, q.file.tracks@, t, evs.insert(insert_position(evs, 0), ev))
        &&& c2.added_event_id == Some(ev.id)
        &&& ev.linked_id is None
        &&& ev.start_timecode == 0
        &&& ev.end_timecode == c.length
        &&& ev.event_type == EventType::AudioClip
        &&& ev.value matches Some(EventValue::AudioClip { file, offset }) && offset == 0
            && file.file_type == c.audio_type && file.source == AudioFileSource::Path(
            c.audio_file,
        )
    })))
}

/// What undoing the addition of a clip does, as `clip_executed` says it
/// of adding one.
pub open spec fn clip_undone(c: AddAudioEventCommand, app: EditorContext, r: Result<(), UiError>, c2: AddAudioEventCommand, app2: EditorContext) -> bool {
    &&& app2.selection.wf()
    &&& c2 == c
    &&& app2.event_queue == app.event_queue
    &&& app2.refresh == app.refresh
    &&& fails_without_track(app, app2, c.audio_track_id, r)
    &&& r is Err ==> app2.selection == app.selection
    &&& app.project matches Some(p) ==> (track_index(p.file.tracks@, c.audio_track_id) matches Some(
        t,
    ) ==> r is Ok && (app2.project matches Some(q) && same_but_tracks(p, q) && match c.added_event_id {
        None => q.file.tracks@ == p.file.tracks@ && app2.selection == app.selection,
        Some(id) => {
            &&& app2.selection.events() == app.selection.events().remove(id)
            &&& app2.selection.tracks() == app.selection.tracks()
            &&& match index_of_id(p.file.tracks@[t].events@, id) {
                Some(k) => tracks_with_events(p.file.tracks@, q.file.tracks@, t, p.file.tracks@[t].events@.remove(k)),
                None => same_tracks_but_events(p.file.tracks@, q.file.tracks@) && track_events(q.file.tracks@) == track_events(p.file.tracks@),
            }
        },
    }))
}

impl Command for AddTrackCommand {
    open spec fn spec_can_undo(&self) -> bool {
        true
    }

    open spec fn spec_execute(&self, app: EditorContext, r: Result<(), UiError>, after: Self, app_after: EditorContext) -> bool {
        add_track_executed(*self, app, r, after, app_after)
    }

    open spec fn spec_undo(&self, app: EditorContext, r: Result<(), UiError>, after: Self, app_after: EditorContext) -> bool {
        add_track_undone(*self, app, r, after, app_after)
    }

    open spec fn spec_description(&self) -> Seq<char> {
        match self.track_type {
            TrackType::Lyrics => "Add Lyrics Track"@,
            TrackType::Audio => "Add Audio Track"@,
        }
    }

    open spec fn spec_update_flags(&self) -> u32 {
        1u32 | 2u32
    }

    fn can_undo(&self) -> (b: bool) {
        true
    }

    fn description(&self) -> String {
        match self.track_type {
            TrackType::Lyrics => "Add Lyrics Track".to_string(),
            TrackType::Audio => "Add Audio Track".to_string(),
        }
    }

    fn update_flags(&self) -> UpdateFlags {
        UpdateFlags::make_dirty() | UpdateFlags::invalidate_video()
    }

    fn execute(&mut self, app: &mut EditorContext) -> (r: Result<(), UiError>) {
        self.execute_impl(app)
    }

    fn undo(&mut self, app: &mut EditorContext) -> (r: Result<(), UiError>) {
        self.undo_impl(app)
    }
}

impl Command for MuteTrackCommand {
    open spec fn spec_can_undo(&self) -> bool {
        true
    }

    open spec fn spec_execute(&self, app: EditorContext, r: Result<(), UiError>, after: Self, app_after: EditorContext) -> bool {
        after == *self && mute_set(self.track_id, self.to_mute_state, app, r, app_after)
    }

    open spec fn spec_undo(&self, app: EditorContext, r: Result<(), UiError>, after: Self, app_after: EditorContext) -> bool {
        after == *self && mute_set(self.track_id, !self.to_mute_state, app, r, app_after)
    }

    open spec fn spec_description(&self) -> Seq<char> {
        if self.to_mute_state {
            "Mute Audio Track"@
        } else {
            "Unmute Audio Track"@
        }
    }

    open spec fn spec_update_flags(&self) -> u32 {
        1
    }

    fn can_undo(&self) -> (b: bool) {
        true
    }

    fn description(&self) -> String {
        if self.to_mute_state {
            "Mute Audio Track".to_string()
        } else {
            "Unmute Audio Track".to_string()
        }
    }

    fn update_flags(&self) -> UpdateFlags {
        UpdateFlags::make_dirty()
    }

    fn execute(&mut self, app: &mut EditorContext) -> (r: Result<(), UiError>) {
        self.set_state(app, self.to_mute_state)
    }

    fn undo(&mut self, app: &mut EditorContext) -> (r: Result<(), UiError>) {
        self.set_state(app, !self.to_mute_state)
    }
}

impl Command for EditTrackConfigCommand {
    open spec fn spec_can_undo(&self) -> bool {
        true
    }

    open spec fn spec_execute(&self, app: EditorContext, r: Result<(), UiError>, after: Self, app_after: EditorContext) -> bool {
        config_set(*self, false, app, r, after, app_after)
    }

    open spec fn spec_undo(&self, app: EditorContext, r: Result<(), UiError>, after: Self, app_after: EditorContext) -> bool {
        config_set(*self, true, app, r, after, app_after)
    }

    open spec fn spec_description(&self) -> Seq<char> {
        match self.new_config {
            TrackValue::Audio { .. } => "Edit Audio Track Config"@,
            TrackValue::Lyrics => "Edit Lyrics Track Config"@,
        }
    }

    open spec fn spec_update_flags(&self) -> u32 {
        1u32 | 2u32
    }

    fn can_undo(&self) -> (b: bool) {
        true
    }

    fn description(&self) -> String {
        match self.new_config {
            TrackValue::Audio { .. } => "Edit Audio Track Config".to_string(),
            TrackValue::Lyrics => "Edit Lyrics Track Config".to_string(),
        }
    }

    fn update_flags(&self) -> UpdateFlags {
        UpdateFlags::make_dirty() | UpdateFlags::invalidate_video()
    }

    fn execute(&mut self, app: &mut EditorContext) -> (r: Result<(), UiError>) {
        self.set_config(app, false)
    }

    fn undo(&mut self, app: &mut EditorContext) -> (r: Result<(), UiError>) {
        self.set_config(app, true)
    }
}

impl Command for SetEventTimingsCommand {
    open spec fn spec_can_undo(&self) -> bool {
        true
    }

    open spec fn spec_execute(&self, app: EditorContext, r: Result<(), UiError>, after: Self, app_after: EditorContext) -> bool {
        timings_executed(*self, app, r, after, app_after)
    }

    open spec fn spec_undo(&self, app: EditorContext, r: Result<(), UiError>, after: Self, app_after: EditorContext) -> bool {
        timings_undone(*self, app, r, after, app_after)
    }

    open spec fn spec_description(&self) -> Seq<char> {
        self.title@
    }

    open spec fn spec_update_flags(&self) -> u32 {
        ((1u32 | 2u32) | 8u32) | 4u32
    }

    fn can_undo(&self) -> (b: bool) {
        true
    }

    fn description(&self) -> String {
        self.title.clone()
    }

    fn update_flags(&self) -> UpdateFlags {
        UpdateFlags::make_dirty() | UpdateFlags::invalidate_video() | UpdateFlags::lyrics_changed()
            | UpdateFlags::audio_changed()
    }

    fn execute(&mut self, app: &mut EditorContext) -> (r: Result<(), UiError>) {
        self.execute_impl(app)
    }

    fn undo(&mut self, app: &mut EditorContext) -> (r: Result<(), UiError>) {
        self.undo_impl(app)
    }
}

impl Command for AddAudioEventCommand {
    open spec fn spec_can_undo(&self) -> bool {
        true
    }

    open spec fn spec_execute(&self, app: EditorContext, r: Result<(), UiError>, after: Self, app_after: EditorContext) -> bool {
        clip_executed(*self, app, r, after, app_after)
    }

    open spec fn spec_undo(&self, app: EditorContext, r: Result<(), UiError>, after: Self, app_after: EditorContext) -> bool {
        clip_undone(*self, app, r, after, app_after)
    }

    open spec fn spec_description(&self) -> Seq<char> {
        "Add Audio Event"@
    }

    open spec fn spec_update_flags(&self) -> u32 {
        1u32 | 4u32
    }

    fn can_undo(&self) -> (b: bool) {
        true
    }

    fn description(&self) -> String {
        "Add Audio Event".to_string()
    }

    fn update_flags(&self) -> UpdateFlags {
        UpdateFlags::make_dirty() | UpdateFlags::audio_changed()
    }

    fn execute(&mut self, app: &mut EditorContext) -> (r: Result<(), UiError>) {
        self.execute_impl(app)
    }

    fn undo(&mut self, app: &mut EditorContext) -> (r: Result<(), UiError>) {
        self.undo_impl(app)
    }
}

/// Any of the editor's commands, so that one dispatcher can hold them all.
pub enum EditCommand {
    AddTrack(AddTrackCommand),
    MuteTrack(MuteTrackCommand),
    EditTrackConfig(EditTrackConfigCommand),
    SetEventTimings(SetEventTimingsCommand),
    AddAudioEvent(AddAudioEventCommand),
    ApplyLyrics(crate::lyrics_commands::ApplyLyricsTrackChangesCommand),
}

impl Command for EditCommand {
    open spec fn spec_can_undo(&self) -> bool {
        true
    }

    open spec fn spec_execute(&self, app: EditorContext, r: Result<(), UiError>, after: Self, app_after: EditorContext) -> bool {
        match (*self, after) {
            (EditCommand::AddTrack(c), EditCommand::AddTrack(c2)) => c.spec_execute(app, r, c2, app_after),
            (EditCommand::MuteTrack(c), EditCommand::MuteTrack(c2)) => c.spec_execute(app, r, c2, app_after),
            (EditCommand::EditTrackConfig(c), EditCommand::EditTrackConfig(c2)) => c.spec_execute(app, r, c2, app_after),
            (EditCommand::SetEventTimings(c), EditCommand::SetEventTimings(c2)) => c.spec_execute(app, r, c2, app_after),
            (EditCommand::AddAudioEvent(c), EditCommand::AddAudioEvent(c2)) => c.spec_execute(app, r, c2, app_after),
            (EditCommand::ApplyLyrics(c), EditCommand::ApplyLyrics(c2)) => c.spec_execute(app, r, c2, app_after),
            _ => false,
        }
    }

    open spec fn spec_undo(&self, app: EditorContext, r: Result<(), UiError>, after: Self, app_after: EditorContext) -> bool {
        match (*self, after) {
            (EditCommand::AddTrack(c), EditCommand::AddTrack(c2)) => c.spec_undo(app, r, c2, app_after),
            (EditCommand::MuteTrack(c), EditCommand::MuteTrack(c2)) => c.spec_undo(app, r, c2, app_after),
            (EditCommand::EditTrackConfig(c), EditCommand::EditTrackConfig(c2)) => c.spec_undo(app, r, c2, app_after),
            (EditCommand::SetEventTimings(c), EditCommand::SetEventTimings(c2)) => c.spec_undo(app, r, c2, app_after),
            (EditCommand::AddAudioEvent(c), EditCommand::AddAudioEvent(c2)) => c.spec_undo(app, r, c2, app_after),
            (EditCommand::ApplyLyrics(c), EditCommand::ApplyLyrics(c2)) => c.spec_undo(app, r, c2, app_after),
            _ => false,
        }
    }

    open spec fn spec_description(&self) -> Seq<char> {
        match self {
            EditCommand::AddTrack(c) => c.spec_description(),
            EditCommand::MuteTrack(c) => c.spec_description(),
            EditCommand::EditTrackConfig(c) => c.spec_description(),
            EditCommand::SetEventTimings(c) => c.spec_description(),
            EditCommand::AddAudioEvent(c) => c.spec_description(),
            EditCommand::ApplyLyrics(c) => c.spec_description(),
        }
    }

    open spec fn spec_update_flags(&self) -> u32 {
        match self {
            EditCommand::AddTrack(c) => c.spec_update_flags(),
            EditCommand::MuteTrack(c) => c.spec_update_flags(),
            EditCommand::EditTrackConfig(c) => c.spec_update_flags(),
            EditCommand::SetEventTimings(c) => c.spec_update_flags(),
            EditCommand::AddAudioEvent(c) => c.spec_update_flags(),
            EditCommand::ApplyLyrics(c) => c.spec_update_flags(),
        }
    }

    fn can_undo(&self) -> (b: bool) {
        true
    }

    fn description(&self) -> String {
        match self {
            EditCommand::AddTrack(c) => c.description(),
            EditCommand::MuteTrack(c) => c.description(),
            EditCommand::EditTrackConfig(c) => c.description(),
            EditCommand::SetEventTimings(c) => c.description(),
            EditCommand::AddAudioEvent(c) => c.description(),
            EditCommand::ApplyLyrics(c) => c.description(),
        }
    }

    fn update_flags(&self) -> UpdateFlags {
        match self {
            EditCommand::AddTrack(c) => c.update_flags(),
            EditCommand::MuteTrack(c) => c.update_flags(),
            EditCommand::EditTrackConfig(c) => c.update_flags(),
            EditCommand::SetEventTimings(c) => c.update_flags(),
            EditCommand::AddAudioEvent(c) => c.update_flags(),
            EditCommand::ApplyLyrics(c) => c.update_flags(),
        }
    }

    fn execute(&mut self, app: &mut EditorContext) -> (r: Result<(), UiError>) {
        match self {
            EditCommand::AddTrack(c) => c.execute(app),
            EditCommand::MuteTrack(c) => c.execute(app),
            EditCommand::EditTrackConfig(c) => c.execute(app),
            EditCommand::SetEventTimings(c) => c.execute(app),
            EditCommand::AddAudioEvent(c) => c.execute(app),
            EditCommand::ApplyLyrics(c) => c.execute(app),
        }
    }

    fn undo(&mut self, app: &mut EditorContext) -> (r: Result<(), UiError>) {
        match self {
            EditCommand::AddTrack(c) => c.undo(app),
            EditCommand::MuteTrack(c) => c.undo(app),
            EditCommand::EditTrackConfig(c) => c.undo(app),
            EditCommand::SetEventTimings(c) => c.undo(app),
            EditCommand::AddAudioEvent(c) => c.undo(app),
            EditCommand::ApplyLyrics(c) => c.undo(app),
        }
    }
}

} // verus!
