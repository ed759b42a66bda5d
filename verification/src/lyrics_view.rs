use vstd::prelude::*;

use crate::lyrics::{LyricsEditorText, render_text};
use crate::lyrics_commands::ApplyLyricsTrackChangesCommand;
use crate::lyrics::PsuedoEvent;
use crate::lyrics_edit::{
    applied_events, apply_changes_to_events, diff_keys, element_of, flatten_elements, group_events,
    group_lyric_events, ops_fit, patience_diff, read_from_text,
};
use crate::project::{find_track, lemma_track_index, track_index, Project, Track, TrackType};
use crate::text::decimal;

verus! {

/// The lyrics tracks as the editor shows them, and which one is shown.
pub struct LyricsData {
    pub tracks: Vec<LyricsEditorText>,
    pub selected_lyrics_track: usize,
}

/// The lyrics editor: nothing while no project is open.
pub struct LyricsEditor {
    pub current_data: Option<LyricsData>,
}

/// The editor texts of `ts` that were edited and not applied.
pub open spec fn edited(ts: Seq<LyricsEditorText>) -> Seq<LyricsEditorText>
    decreases ts.len(),
{
    if ts.len() == 0 {
        ts
    } else if ts.last().changed {
        edited(ts.drop_last()).push(ts.last())
    } else {
        edited(ts.drop_last())
    }
}

/// The identifiers of the tracks of some editor texts.
pub open spec fn text_ids(ts: Seq<LyricsEditorText>) -> Set<u128> {
    Set::new(|id: u128| exists|i: int| 0 <= i < ts.len() && #[trigger] ts[i].track_id == id)
}

/// The lyrics tracks of `tracks` that have no editor text among `kept`.
pub open spec fn to_rebuild(tracks: Seq<Track>, kept: Set<u128>) -> Seq<Track>
    decreases tracks.len(),
{
    if tracks.len() == 0 {
        tracks
    } else if tracks.last().track_type == TrackType::Lyrics && !kept.contains(tracks.last().id) {
        to_rebuild(tracks.drop_last(), kept).push(tracks.last())
    } else {
        to_rebuild(tracks.drop_last(), kept)
    }
}

/// `t` is the fresh editor text of track `tr`: its events grouped into
/// elements and written out, not edited.
pub open spec fn fresh_text_of(t: LyricsEditorText, tr: Track) -> bool {
    &&& t.track_id == tr.id
    &&& !t.changed
    &&& t.elements@.len() == group_events(tr.events@).len()
    &&& forall|j: int| 0 <= j < t.elements@.len() ==> element_of(#[trigger] t.elements@[j], group_events(tr.events@)[j])
    &&& t.text@ == render_text(t.elements@)
}

/// The index of the first editor text of `ts` for track `id`.
pub open spec fn text_index(ts: Seq<LyricsEditorText>, id: u128) -> Option<int>
    decreases ts.len(),
{
    if ts.len() == 0 {
        None
    } else if ts[0].track_id == id {
        Some(0)
    } else {
        match text_index(ts.skip(1), id) {
            Some(i) => Some(i + 1),
            None => None,
        }
    }
}

proof fn lemma_text_index(ts: Seq<LyricsEditorText>, id: u128)
    ensures
        text_index(ts, id) matches Some(i) ==> (0 <= i < ts.len() && ts[i].track_id == id
            && forall|j: int| 0 <= j < i ==> ts[j].track_id != id),
        text_index(ts, id) is None ==> forall|j: int| 0 <= j < ts.len() ==> ts[j].track_id != id,
    decreases ts.len(),
{
    if ts.len() > 0 && ts[0].track_id != id {
        lemma_text_index(ts.skip(1), id);
        assert forall|j: int| 1 <= j < ts.len() implies ts.skip(1)[j - 1] == ts[j] by {}
    }
}

/// The texts the editor shows once the project's `tracks` changed, from
/// those it showed, `old_tracks`: the edited texts stay, in order, and every
/// other lyrics track gets a fresh text, in the order of the tracks.
pub open spec fn rebuilt_texts(old_tracks: Seq<LyricsEditorText>, new_tracks: Seq<LyricsEditorText>, tracks: Seq<Track>) -> bool {
    let kept = edited(old_tracks);
    let fresh = to_rebuild(tracks, text_ids(kept));
    &&& new_tracks.len() == kept.len() + fresh.len()
    &&& new_tracks.subrange(0, kept.len() as int) == kept
    &&& forall|j: int| 0 <= j < fresh.len() ==> fresh_text_of(#[trigger] new_tracks[kept.len() + j], fresh[j])
}

proof fn lemma_edited(ts: Seq<LyricsEditorText>)
    ensures
        forall|i: int| 0 <= i < edited(ts).len() ==> (#[trigger] edited(ts)[i]).changed && ts.contains(edited(ts)[i]),
        forall|k: int| 0 <= k < ts.len() && (#[trigger] ts[k]).changed ==> edited(ts).contains(ts[k]),
    decreases ts.len(),
{
    if ts.len() > 0 {
        let d = ts.drop_last();
        lemma_edited(d);
        let e = edited(ts);
        assert forall|i: int| 0 <= i < e.len() implies (#[trigger] e[i]).changed && ts.contains(e[i]) by {
            if i < edited(d).len() {
                assert(e[i] == edited(d)[i]);
                let j = choose|j: int| 0 <= j < d.len() && d[j] == e[i];
                assert(ts[j] == d[j]);
            } else {
                assert(e[i] == ts.last());
                assert(ts[ts.len() - 1] == ts.last());
            }
        }
        assert forall|k: int| 0 <= k < ts.len() && (#[trigger] ts[k]).changed implies e.contains(ts[k]) by {
            if k < d.len() {
                assert(d[k] == ts[k]);
                let j = choose|j: int| 0 <= j < edited(d).len() && edited(d)[j] == d[k];
                assert(e[j] == edited(d)[j]);
            } else {
                assert(e[e.len() - 1] == ts.last());
            }
        }
    }
}

proof fn lemma_to_rebuild(tracks: Seq<Track>, kept: Set<u128>)
    ensures
        forall|i: int|
            0 <= i < to_rebuild(tracks, kept).len() ==> tracks.contains(#[trigger] to_rebuild(tracks, kept)[i])
                && to_rebuild(tracks, kept)[i].track_type == TrackType::Lyrics,
        forall|k: int|
            0 <= k < tracks.len() && (#[trigger] tracks[k]).track_type == TrackType::Lyrics && !kept.contains(
                tracks[k].id,
            ) ==> to_rebuild(tracks, kept).contains(tracks[k]),
    decreases tracks.len(),
{
    if tracks.len() > 0 {
        let d = tracks.drop_last();
        lemma_to_rebuild(d, kept);
        let r = to_rebuild(tracks, kept);
        let rd = to_rebuild(d, kept);
        assert forall|i: int| 0 <= i < r.len() implies tracks.contains(#[trigger] r[i]) && r[i].track_type
            == TrackType::Lyrics by {
            if i < rd.len() {
                assert(r[i] == rd[i]);
                let j = choose|j: int| 0 <= j < d.len() && d[j] == rd[i];
                assert(tracks[j] == d[j]);
            } else {
                assert(r[i] == tracks.last());
                assert(tracks[tracks.len() - 1] == tracks.last());
            }
        }
        assert forall|k: int|
            0 <= k < tracks.len() && (#[trigger] tracks[k]).track_type == TrackType::Lyrics && !kept.contains(
                tracks[k].id,
            ) implies r.contains(tracks[k]) by {
            if k < d.len() {
                assert(d[k] == tracks[k]);
                let j = choose|j: int| 0 <= j < rd.len() && rd[j] == d[k];
                assert(r[j] == rd[j]);
            } else {
                assert(r[r.len() - 1] == tracks.last());
            }
        }
    }
}

/// What the editor shows after the project changed, from what it showed:
/// a text that was not edited never survives as it was, but every text
/// shown unedited is the fresh rendering of a lyrics track of the project;
/// every edited text is still shown; and every lyrics track that had no
/// edited text gets its fresh rendering.
pub proof fn lemma_rebuilt_texts(old_ts: Seq<LyricsEditorText>, new_ts: Seq<LyricsEditorText>, tracks: Seq<Track>)
    requires
        rebuilt_texts(old_ts, new_ts, tracks),
    ensures
        forall|i: int|
            0 <= i < new_ts.len() && !(#[trigger] new_ts[i]).changed ==> exists|j: int|
                0 <= j < tracks.len() && tracks[j].track_type == TrackType::Lyrics && #[trigger] fresh_text_of(
                    new_ts[i],
                    tracks[j],
                ),
        forall|i: int| 0 <= i < new_ts.len() && (#[trigger] new_ts[i]).changed ==> old_ts.contains(new_ts[i]),
        forall|k: int| 0 <= k < old_ts.len() && (#[trigger] old_ts[k]).changed ==> new_ts.contains(old_ts[k]),
        forall|j: int|
            0 <= j < tracks.len() && (#[trigger] tracks[j]).track_type == TrackType::Lyrics && !(exists|k: int|
                0 <= k < old_ts.len() && old_ts[k].changed && old_ts[k].track_id == tracks[j].id) ==> exists|i: int|
                0 <= i < new_ts.len() && #[trigger] fresh_text_of(new_ts[i], tracks[j]),
{
    let kept = edited(old_ts);
    let ids = text_ids(kept);
    let fresh = to_rebuild(tracks, ids);
    lemma_edited(old_ts);
    lemma_to_rebuild(tracks, ids);
    let n = kept.len() as int;
    assert forall|i: int| 0 <= i < n implies new_ts[i] == kept[i] by {
        assert(new_ts.subrange(0, n)[i] == new_ts[i]);
    }
    assert forall|i: int| 0 <= i < new_ts.len() && !(#[trigger] new_ts[i]).changed implies exists|j: int|
        0 <= j < tracks.len() && tracks[j].track_type == TrackType::Lyrics && #[trigger] fresh_text_of(
            new_ts[i],
            tracks[j],
        ) by {
        if i < n {
            assert(new_ts[i] == kept[i]);
        } else {
            let m = i - n;
            assert(fresh_text_of(new_ts[n + m], fresh[m]));
            let j = choose|j: int| 0 <= j < tracks.len() && tracks[j] == fresh[m];
            assert(fresh_text_of(new_ts[i], tracks[j]));
        }
    }
    assert forall|i: int| 0 <= i < new_ts.len() && (#[trigger] new_ts[i]).changed implies old_ts.contains(
        new_ts[i],
    ) by {
        if i < n {
            assert(new_ts[i] == kept[i]);
        } else {
            let m = i - n;
            assert(fresh_text_of(new_ts[n + m], fresh[m]));
        }
    }
    assert forall|k: int| 0 <= k < old_ts.len() && (#[trigger] old_ts[k]).changed implies new_ts.contains(
        old_ts[k],
    ) by {
        let j = choose|j: int| 0 <= j < kept.len() && kept[j] == old_ts[k];
        assert(new_ts[j] == kept[j]);
    }
    assert forall|j: int|
        0 <= j < tracks.len() && (#[trigger] tracks[j]).track_type == TrackType::Lyrics && !(exists|k: int|
            0 <= k < old_ts.len() && old_ts[k].changed && old_ts[k].track_id == tracks[j].id) implies exists|i: int|
        0 <= i < new_ts.len() && #[trigger] fresh_text_of(new_ts[i], tracks[j]) by {
        if ids.contains(tracks[j].id) {
            let i = choose|i: int| 0 <= i < kept.len() && #[trigger] kept[i].track_id == tracks[j].id;
            assert(kept[i].changed);
            let k = choose|k: int| 0 <= k < old_ts.len() && old_ts[k] == kept[i];
            assert(old_ts[k].changed && old_ts[k].track_id == tracks[j].id);
        }
        let m = choose|m: int| 0 <= m < fresh.len() && fresh[m] == tracks[j];
        assert(fresh_text_of(new_ts[n + m], fresh[m]));
    }
}

/// What the editor shows of `old` once the project's `tracks` changed:
/// the edited texts stay, in order, and every other lyrics track gets a
/// fresh text, in the order of the tracks; the track shown stays shown
/// when it is still there.
pub open spec fn rebuilt(old_tracks: Seq<LyricsEditorText>, old_selected: usize, new: LyricsData, tracks: Seq<Track>) -> bool {
    &&& rebuilt_texts(old_tracks, new.tracks@, tracks)
    &&& new.selected_lyrics_track == (if old_selected < old_tracks.len() {
        match text_index(new.tracks@, old_tracks[old_selected as int].track_id) {
            Some(i) => i as usize,
            None => old_selected,
        }
    } else {
        old_selected
    })
}

fn first_text(ts: &Vec<LyricsEditorText>, id: u128) -> (r: Option<usize>)
    ensures
        r matches Some(i) ==> text_index(ts@, id) == Some(i as int),
        r is None ==> text_index(ts@, id) is None,
{
    proof {
        lemma_text_index(ts@, id);
    }
    let mut i: usize = 0;
    while i < ts.len()
        invariant
            0 <= i <= ts@.len(),
            forall|j: int| 0 <= j < i ==> ts@[j].track_id != id,
        decreases ts@.len() - i,
    {
        if ts[i].track_id == id {
            proof {
                lemma_text_index(ts@, id);
                if let Some(k) = text_index(ts@, id) {
                    if k < i {
                        assert(ts@[k].track_id != id);
                    }
                    if k > i {
                        assert(ts@[i as int].track_id != id);
                    }
                } else {
                    assert(ts@[i as int].track_id == id);
                }
            }
            return Some(i);
        }
        i = i + 1;
    }
    proof {
        lemma_text_index(ts@, id);
        if let Some(k) = text_index(ts@, id) {
            assert(ts@[k].track_id != id);
        }
    }
    None
}

impl LyricsData {
    pub fn new() -> (d: LyricsData)
        ensures
            d.tracks@.len() == 0,
            d.selected_lyrics_track == 0,
    {
        LyricsData { tracks: Vec::new(), selected_lyrics_track: 0 }
    }

    /// Brings the texts up to date with the project's tracks.
    pub fn rebuild(&mut self, tracks: &Vec<Track>)
        ensures
            rebuilt(old(self).tracks@, old(self).selected_lyrics_track, *final(self), tracks@),
    {
        let ghost old_self = *self;
        let was_selected_id = if self.selected_lyrics_track < self.tracks.len() {
            Some(self.tracks[self.selected_lyrics_track].track_id)
        } else {
            None
        };
        // Keep the texts that were edited.
        let mut rest: Vec<LyricsEditorText> = Vec::new();
        std::mem::swap(&mut rest, &mut self.tracks);
        let ghost all = rest@;
        let ghost mut i: int = 0;
        let mut kept: Vec<LyricsEditorText> = Vec::new();
        assert(all.skip(0) =~= all);
        while rest.len() > 0
            invariant
                0 <= i <= all.len(),
                rest@ == all.skip(i),
                kept@ == edited(all.take(i)),
            decreases rest@.len(),
        {
            let t = rest.remove(0);
            proof {
                assert(t == all[i]);
                assert(rest@ =~= all.skip(i + 1));
                assert(all.take(i + 1).drop_last() =~= all.take(i));
                assert(all.take(i + 1).last() == t);
            }
            if t.changed {
                kept.push(t);
            }
            proof {
                i = i + 1;
            }
        }
        proof {
            assert(all.take(i) =~= all);
        }
        let ghost kept_ids = text_ids(kept@);
        let ghost kept_view = kept@;
        let kept_len = kept.len();
        // Add a fresh text for every other lyrics track.
        let mut t: usize = 0;
        while t < tracks.len()
            invariant
                0 <= t <= tracks@.len(),
                kept_ids == text_ids(kept_view),
                kept_len == kept_view.len(),
                kept@.len() == kept_view.len() + to_rebuild(tracks@.take(t as int), kept_ids).len(),
                kept@.subrange(0, kept_view.len() as int) == kept_view,
                forall|j: int| 0 <= j < to_rebuild(tracks@.take(t as int), kept_ids).len() ==> fresh_text_of(
                    #[trigger] kept@[kept_view.len() + j],
                    to_rebuild(tracks@.take(t as int), kept_ids)[j],
                ),
            decreases tracks@.len() - t,
        {
            proof {
                assert(tracks@.take(t + 1).drop_last() =~= tracks@.take(t as int));
                assert(tracks@.take(t + 1).last() == tracks@[t as int]);
            }
            let ghost before = kept@;
            let ghost fr = to_rebuild(tracks@.take(t as int), kept_ids);
            if tracks[t].track_type == TrackType::Lyrics {
                let mut found = false;
                let mut k: usize = 0;
                while k < kept_len
                    invariant
                        kept_len == kept_view.len(),
                        0 <= k <= kept_view.len(),
                        kept@.len() >= kept_view.len(),
                        kept@.subrange(0, kept_view.len() as int) == kept_view,
                        found ==> kept_ids.contains(tracks@[t as int].id),
                        !found ==> forall|j: int| 0 <= j < k ==> kept_view[j].track_id != tracks@[t as int].id,
                        t < tracks@.len(),
                        kept_ids == text_ids(kept_view),
                    decreases kept_view.len() - k,
                {
                    proof {
                        assert(kept@[k as int] == kept_view[k as int]);
                    }
                    if kept[k].track_id == tracks[t].id {
                        found = true;
                    }
                    k = k + 1;
                }
                if !found {
                    proof {
                        assert(!kept_ids.contains(tracks@[t as int].id)) by {
                            if kept_ids.contains(tracks@[t as int].id) {
                                let j = choose|j: int| 0 <= j < kept_view.len() && #[trigger] kept_view[j].track_id
                                    == tracks@[t as int].id;
                                assert(kept_view[j].track_id != tracks@[t as int].id);
                            }
                        }
                    }
                    let elems = group_lyric_events(&tracks[t].events);
                    let text = LyricsEditorText::new(tracks[t].id, elems);
                    kept.push(text);
                    proof {
                        assert(kept@.subrange(0, kept_view.len() as int) =~= kept_view) by {
                            assert forall|j: int| 0 <= j < kept_view.len() implies kept@[j] == kept_view[j] by {
                                assert(kept@[j] == before[j]);
                                assert(before.subrange(0, kept_view.len() as int)[j] == kept_view[j]);
                            }
                        }
                        assert forall|j: int| 0 <= j < to_rebuild(tracks@.take(t + 1), kept_ids).len() implies fresh_text_of(
                            #[trigger] kept@[kept_view.len() + j],
                            to_rebuild(tracks@.take(t + 1), kept_ids)[j],
                        ) by {
                            if j < fr.len() {
                                assert(kept@[kept_view.len() + j] == before[kept_view.len() + j]);
                            }
                        }
                    }
                }
            }
            t = t + 1;
        }
        proof {
            assert(tracks@.take(tracks@.len() as int) =~= tracks@);
        }
        self.tracks = kept;
        if let Some(id) = was_selected_id {
            if let Some(idx) = first_text(&self.tracks, id) {
                self.selected_lyrics_track = idx;
            }
        }
    }
}

impl LyricsEditor {
    pub fn new() -> (e: LyricsEditor)
        ensures
            e.current_data is None,
    {
        LyricsEditor { current_data: None }
    }

    /// The lyrics of the project changed: the texts are brought up to date
    /// with its tracks, and there are none without a project.
    pub fn on_lyrics_change(&mut self, project: &Option<Project>)
        ensures
            match project {
                None => final(self).current_data is None,
                Some(p) => (final(self).current_data matches Some(d) && match old(self).current_data {
                    Some(o) => rebuilt(o.tracks@, o.selected_lyrics_track, d, p.file.tracks@),
                    None => rebuilt(Seq::empty(), 0, d, p.file.tracks@),
                }),
            },
    {
        match project {
            None => {
                self.current_data = None;
            },
            Some(p) => {
                let mut cur: Option<LyricsData> = None;
                std::mem::swap(&mut cur, &mut self.current_data);
                let mut data = match cur {
                    Some(d) => d,
                    None => {
                        let d = LyricsData::new();
                        assert(d.tracks@ =~= Seq::<LyricsEditorText>::empty());
                        d
                    },
                };
                data.rebuild(&p.file.tracks);
                self.current_data = Some(data);
            },
        }
    }

    /// Another project was opened: the texts are rebuilt and the first is
    /// shown.
    pub fn on_project_change(&mut self, project: &Option<Project>)
        ensures
            project is None ==> final(self).current_data is None,
            project matches Some(p) ==> (final(self).current_data matches Some(d) && d.selected_lyrics_track == 0
                && match old(self).current_data {
                Some(o) => rebuilt_texts(o.tracks@, d.tracks@, p.file.tracks@),
                None => rebuilt_texts(Seq::empty(), d.tracks@, p.file.tracks@),
            }),
    {
        self.on_lyrics_change(project);
        if let Some(d) = &mut self.current_data {
            d.selected_lyrics_track = 0;
        }

    }

    /// Whether there is a lyrics track to show.
    pub fn has_lyrics_tracks(&self) -> (b: bool)
        ensures
            b == (self.current_data matches Some(d) && d.tracks@.len() > 0),
    {
        match &self.current_data {
            Some(d) => d.tracks.len() > 0,
            None => false,
        }
    }

    /// Whether the shown track has edits that were not applied.
    pub fn track_changed(&self) -> (b: bool)
        requires
            self.current_data matches Some(d) ==> (d.tracks@.len() == 0 || d.selected_lyrics_track < d.tracks@.len()),
        ensures
            b == (self.current_data matches Some(d) && d.tracks@.len() > 0
                && d.tracks@[d.selected_lyrics_track as int].changed),
    {
        match &self.current_data {
            Some(d) => d.tracks.len() > 0 && d.tracks[d.selected_lyrics_track].changed,
            None => false,
        }
    }

    /// The text of the shown track was edited.
    pub fn edit(&mut self, text: String)
        requires
            old(self).current_data matches Some(d) ==> d.selected_lyrics_track < d.tracks@.len(),
        ensures
            match old(self).current_data {
                Some(d) => (final(self).current_data matches Some(n) && n.selected_lyrics_track == d.selected_lyrics_track
                    && n.tracks@ == d.tracks@.update(
                    d.selected_lyrics_track as int,
                    LyricsEditorText {
                        text,
                        changed: true,
                        ..d.tracks@[d.selected_lyrics_track as int]
                    },
                )),
                None => final(self).current_data is None,
            },
    {
        if let Some(d) = &mut self.current_data {
            let i = d.selected_lyrics_track;
            let mut t = d.tracks.remove(i);
            t.text = text;
            t.changed = true;
            d.tracks.insert(i, t);
        }
    }

    /// Applies the edits of the shown track to the project's tracks: gives
    /// the command that gives the first track with its identifier the
    /// events read from the text, diffed against the events it was made
    /// from, and marks the text as applied. Nothing happens when no track is
    /// shown, the track is gone, or the diff does not fit the two lists of
    /// events.
    pub fn apply(&mut self, tracks: &Vec<Track>) -> (c: Option<ApplyLyricsTrackChangesCommand>)
        ensures
            match old(self).current_data {
                None => c is None && final(self).current_data is None,
                Some(d) => if d.selected_lyrics_track >= d.tracks@.len() {
                    c is None && final(self).current_data == old(self).current_data
                } else {
                    let txt = d.tracks@[d.selected_lyrics_track as int];
                    match track_index(tracks@, txt.track_id) {
                        None => c is None && final(self).current_data == old(self).current_data,
                        Some(t) => exists|ne: Seq<PsuedoEvent>|
                            {
                                &&& #[trigger] read_from_text(ne, txt.text@)
                                &&& ({
                                    let olds = flatten_elements(txt.elements@);
                                    let ops = patience_diff(diff_keys(olds), diff_keys(ne));
                                    &&& c is None <==> !ops_fit(ops, olds.len() as int, ne.len() as int)
                                    &&& c matches Some(cmd) ==> cmd.track_id == txt.track_id && cmd.events@
                                        == applied_events(tracks@[t].events@, olds, ne, ops)
                                        && (final(self).current_data matches Some(n)
                                        && n.selected_lyrics_track == d.selected_lyrics_track && n.tracks@
                                        == d.tracks@.update(
                                        d.selected_lyrics_track as int,
                                        LyricsEditorText { changed: false, ..txt },
                                    ))
                                    &&& c is None ==> final(self).current_data == old(self).current_data
                                })
                            },
                    }
                },
            },
    {
        let (idx, track_id) = match &self.current_data {
            Some(d) => {
                if d.selected_lyrics_track >= d.tracks.len() {
                    return None;
                }
                (d.selected_lyrics_track, d.tracks[d.selected_lyrics_track].track_id)
            },
            None => {
                return None;
            },
        };
        let t = match find_track(tracks, track_id) {
            Some(t) => t,
            None => {
                return None;
            },
        };
        proof {
            lemma_track_index(tracks@, track_id);
        }
        let events = match &self.current_data {
            Some(d) => apply_changes_to_events(&tracks[t].events, &d.tracks[idx].elements, d.tracks[idx].text.as_str()),
            None => None,
        };
        match events {
            Some(evs) => {
                if let Some(d) = &mut self.current_data {
                    let mut x = d.tracks.remove(idx);
                    x.changed = false;
                    d.tracks.insert(idx, x);
                }
                Some(ApplyLyricsTrackChangesCommand::new(track_id, evs))
            },
            None => None,
        }
    }
}

/// The name of lyrics track `i` in the editor's menu, counting from one.
pub fn lyrics_track_label(i: usize) -> (s: String)
    requires
        i < usize::MAX,
    ensures
        s@ == "Lyrics Track #"@ + crate::text::decimal_spec(i as nat + 1),
{
    let mut s = "Lyrics Track #".to_string();
    s.append(decimal((i + 1) as u64).as_str());
    s
}

} // verus!
