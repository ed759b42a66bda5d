use vstd::prelude::*;

use crate::ids::fresh_id;
use crate::lyrics::{Event, EventType};

verus! {

/// The kind of a track.
#[derive(Debug, Clone, Copy, PartialEq, Eq, Structural)]
pub enum TrackType {
    Lyrics,
    Audio,
}

/// A track's settings.
#[derive(Debug, Clone, Copy, PartialEq, Eq, Structural)]
pub enum TrackValue {
    /// An audio track, which may be muted.
    Audio { muted: bool },
    /// A lyrics track.
    Lyrics,
}

/// A track of a project: its place among the tracks, its kind and settings,
/// and its events in order of their start.
pub struct Track {
    pub id: u128,
    pub order: u32,
    pub track_type: TrackType,
    pub track_value: Option<TrackValue>,
    pub events: Vec<Event>,
}

/// The contents of a project file.
pub struct ProjectFile {
    pub tracks: Vec<Track>,
}

/// An open project.
pub struct Project {
    pub id: u128,
    pub name: Option<String>,
    pub file: ProjectFile,
    pub dirty: bool,
    pub length: u32,
}

/// The settings a new track of type `t` starts with.
pub open spec fn default_value(t: TrackType) -> TrackValue {
    match t {
        TrackType::Audio => TrackValue::Audio { muted: false },
        TrackType::Lyrics => TrackValue::Lyrics,
    }
}

impl Track {
    /// An empty track of type `track_type` at position `order`, with a fresh
    /// identifier and default settings.
    pub fn new_type(track_type: TrackType, order: u32) -> (t: Track)
        ensures
            t.order == order,
            t.track_type == track_type,
            t.track_value == Some(default_value(track_type)),
            t.events@.len() == 0,
    {
        Track {
            id: fresh_id(),
            order,
            track_type,
            track_value: Some(
                match track_type {
                    TrackType::Audio => TrackValue::Audio { muted: false },
                    TrackType::Lyrics => TrackValue::Lyrics,
                },
            ),
            events: Vec::new(),
        }
    }
}

/// The latest end of the events of `evs`, at least `acc`.
pub open spec fn events_end(evs: Seq<Event>, acc: u32) -> u32
    decreases evs.len(),
{
    if evs.len() == 0 {
        acc
    } else {
        let e = events_end(evs.drop_last(), acc);
        if evs.last().end_timecode > e {
            evs.last().end_timecode
        } else {
            e
        }
    }
}

/// The length of a project: the latest end of any event, or 0.
pub open spec fn tracks_length(tracks: Seq<Track>) -> u32
    decreases tracks.len(),
{
    if tracks.len() == 0 {
        0
    } else {
        events_end(tracks.last().events@, tracks_length(tracks.drop_last()))
    }
}

fn events_end_of(evs: &Vec<Event>, acc: u32) -> (r: u32)
    ensures
        r == events_end(evs@, acc),
{
    let mut r = acc;
    let mut i: usize = 0;
    while i < evs.len()
        invariant
            0 <= i <= evs@.len(),
            r == events_end(evs@.take(i as int), acc),
        decreases evs@.len() - i,
    {
        proof {
            assert(evs@.take(i + 1).drop_last() == evs@.take(i as int));
        }
        if evs[i].end_timecode > r {
            r = evs[i].end_timecode;
        }
        i = i + 1;
    }
    assert(evs@.take(evs@.len() as int) == evs@);
    r
}

impl ProjectFile {
    /// The length of the project: the latest end of any event, or 0.
    pub fn calculate_length(&self) -> (len: u32)
        ensures
            len == tracks_length(self.tracks@),
    {
        let mut len: u32 = 0;
        let mut i: usize = 0;
        while i < self.tracks.len()
            invariant
                0 <= i <= self.tracks@.len(),
                len == tracks_length(self.tracks@.take(i as int)),
            decreases self.tracks@.len() - i,
        {
            proof {
                assert(self.tracks@.take(i + 1).drop_last() == self.tracks@.take(i as int));
            }
            len = events_end_of(&self.tracks[i].events, len);
            i = i + 1;
        }
        assert(self.tracks@.take(self.tracks@.len() as int) == self.tracks@);
        len
    }
}

impl Project {
    /// A new, unsaved project with one empty lyrics track.
    pub fn new_default() -> (p: Project)
        ensures
            p.name is None,
            p.dirty,
            p.length == 0,
            p.file.tracks@.len() == 1,
            p.file.tracks@[0].track_type == TrackType::Lyrics,
            p.file.tracks@[0].order == 0,
            p.file.tracks@[0].events@.len() == 0,
    {
        let mut tracks: Vec<Track> = Vec::new();
        tracks.push(Track::new_type(TrackType::Lyrics, 0));
        Project { id: fresh_id(), name: None, file: ProjectFile { tracks }, dirty: true, length: 0 }
    }

    /// A project opened from a saved file: named, clean, and as long as its
    /// events.
    pub fn from_file(id: u128, name: String, file: ProjectFile) -> (p: Project)
        ensures
            p.id == id,
            p.name == Some(name),
            p.length == tracks_length(file.tracks@),
            p.file == file,
            !p.dirty,
    {
        let length = file.calculate_length();
        Project { id, name: Some(name), length, file, dirty: false }
    }
}

/// The index of the first of `evs` with identifier `id`, if any.
pub open spec fn index_of_id(evs: Seq<Event>, id: u128) -> Option<int>
    decreases evs.len(),
{
    if evs.len() == 0 {
        None
    } else if evs[0].id == id {
        Some(0)
    } else {
        match index_of_id(evs.skip(1), id) {
            Some(i) => Some(i + 1),
            None => None,
        }
    }
}

/// The index found is the first event with the identifier; without one,
/// no event has it.
pub proof fn lemma_index_of_id(evs: Seq<Event>, id: u128)
    ensures
        index_of_id(evs, id) matches Some(i) ==> 0 <= i < evs.len() && evs[i].id == id && forall|
            j: int,
        | 0 <= j < i ==> evs[j].id != id,
        index_of_id(evs, id) is None ==> forall|j: int| 0 <= j < evs.len() ==> evs[j].id != id,
    decreases evs.len(),
{
    if evs.len() > 0 && evs[0].id != id {
        lemma_index_of_id(evs.skip(1), id);
        assert forall|j: int| 1 <= j < evs.len() implies evs.skip(1)[j - 1] == evs[j] by {}
    }
}

/// Where an event starting at `start` goes in `evs`: after every event that
/// starts no later than it.
pub open spec fn insert_position(evs: Seq<Event>, start: u32) -> int
    decreases evs.len(),
{
    if evs.len() == 0 {
        0
    } else if evs[0].start_timecode > start {
        0
    } else {
        1 + insert_position(evs.skip(1), start)
    }
}

/// The place to insert at is within the events.
pub proof fn lemma_insert_position(evs: Seq<Event>, start: u32)
    ensures
        0 <= insert_position(evs, start) <= evs.len(),
    decreases evs.len(),
{
    if evs.len() > 0 && evs[0].start_timecode <= start {
        lemma_insert_position(evs.skip(1), start);
    }
}

/// Takes the first event with identifier `id` out of `evs`.
pub fn take_id(evs: &mut Vec<Event>, id: u128) -> (r: Option<Event>)
    ensures
        match index_of_id(old(evs)@, id) {
            Some(i) => r == Some(old(evs)@[i]) && final(evs)@ == old(evs)@.remove(i),
            None => r is None && final(evs)@ == old(evs)@,
        },
{
    proof {
        lemma_index_of_id(evs@, id);
    }
    let mut i: usize = 0;
    while i < evs.len()
        invariant
            0 <= i <= evs@.len(),
            evs@ == old(evs)@,
            forall|j: int| 0 <= j < i ==> evs@[j].id != id,
        decreases evs@.len() - i,
    {
        if evs[i].id == id {
            proof {
                lemma_index_of_id(evs@, id);
                if let Some(k) = index_of_id(evs@, id) {
                    if k < i {
                        assert(evs@[k].id != id);
                    }
                    if k > i {
                        assert(evs@[i as int].id != id);
                    }
                }
            }
            let e = evs.remove(i);
            return Some(e);
        }
        i = i + 1;
    }
    None
}

/// Inserts `ev` among `evs`, after every event that starts no later than it.
pub fn insert_event(evs: &mut Vec<Event>, ev: Event)
    ensures
        final(evs)@ == old(evs)@.insert(insert_position(old(evs)@, ev.start_timecode), ev),
{
    proof {
        lemma_insert_position(evs@, ev.start_timecode);
    }
    let mut i: usize = 0;
    assert(evs@.skip(0) == evs@);
    while i < evs.len() && evs[i].start_timecode <= ev.start_timecode
        invariant
            0 <= i <= evs@.len(),
            evs@ == old(evs)@,
            insert_position(evs@, ev.start_timecode) == i + insert_position(evs@.skip(i as int), ev.start_timecode),
        decreases evs@.len() - i,
    {
        proof {
            assert(evs@.skip(i as int).skip(1) == evs@.skip(i + 1));
            assert(evs@.skip(i as int)[0] == evs@[i as int]);
        }
        i = i + 1;
    }
    proof {
        assert(evs@.skip(0) == evs@);
        if i < evs@.len() {
            assert(evs@.skip(i as int)[0] == evs@[i as int]);
        }
    }
    evs.insert(i, ev);
}

/// The index of the first track with identifier `id`, if any.
pub open spec fn track_index(tracks: Seq<Track>, id: u128) -> Option<int>
    decreases tracks.len(),
{
    if tracks.len() == 0 {
        None
    } else if tracks[0].id == id {
        Some(0)
    } else {
        match track_index(tracks.skip(1), id) {
            Some(i) => Some(i + 1),
            None => None,
        }
    }
}

/// The index found is the first track with the identifier; without one,
/// no track has it.
pub proof fn lemma_track_index(tracks: Seq<Track>, id: u128)
    ensures
        track_index(tracks, id) matches Some(i) ==> 0 <= i < tracks.len() && tracks[i].id == id
            && forall|j: int| 0 <= j < i ==> tracks[j].id != id,
        track_index(tracks, id) is None ==> forall|j: int| 0 <= j < tracks.len() ==> tracks[j].id != id,
    decreases tracks.len(),
{
    if tracks.len() > 0 && tracks[0].id != id {
        lemma_track_index(tracks.skip(1), id);
        assert forall|j: int| 1 <= j < tracks.len() implies tracks.skip(1)[j - 1] == tracks[j] by {}
    }
}

/// The first index that a first-match search finds is the one the spec
/// names.
pub proof fn lemma_track_index_unique(tracks: Seq<Track>, id: u128, i: int)
    requires
        0 <= i < tracks.len(),
        tracks[i].id == id,
        forall|j: int| 0 <= j < i ==> tracks[j].id != id,
    ensures
        track_index(tracks, id) == Some(i),
{
    lemma_track_index(tracks, id);
    if let Some(k) = track_index(tracks, id) {
        if k < i {
            assert(tracks[k].id != id);
        }
        if k > i {
        }
    }
}

/// Finds the first track with identifier `id`.
pub fn find_track(tracks: &Vec<Track>, id: u128) -> (r: Option<usize>)
    ensures
        r matches Some(i) ==> track_index(tracks@, id) == Some(i as int),
        r is None ==> track_index(tracks@, id) is None,
{
    proof {
        lemma_track_index(tracks@, id);
    }
    let mut i: usize = 0;
    while i < tracks.len()
        invariant
            0 <= i <= tracks@.len(),
            forall|j: int| 0 <= j < i ==> tracks@[j].id != id,
        decreases tracks@.len() - i,
    {
        if tracks[i].id == id {
            proof {
                lemma_track_index_unique(tracks@, id, i as int);
            }
            return Some(i);
        }
        i = i + 1;
    }
    None
}

} // verus!
