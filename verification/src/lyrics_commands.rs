use vstd::prelude::*;

use crate::commands::Command;
use crate::context::EditorContext;
use crate::flags::UpdateFlags;
use crate::lyrics::Event;
use crate::project::{find_track, lemma_track_index, track_index};
use crate::track_commands::{fails_without_track, same_but_tracks, same_tracks_but_events, track_events};
use crate::ui_event::UiError;

verus! {

/// Puts the events made from edited lyrics text on their track; undoing it
/// puts the previous events back.
pub struct ApplyLyricsTrackChangesCommand {
    pub track_id: u128,
    /// The events that are not on the track: the new ones before the command
    /// runs, the replaced ones after.
    pub events: Vec<Event>,
}

impl ApplyLyricsTrackChangesCommand {
    pub fn new(track_id: u128, new_events: Vec<Event>) -> (c: ApplyLyricsTrackChangesCommand)
        ensures
            c.track_id == track_id,
            c.events@ == new_events@,
    {
        ApplyLyricsTrackChangesCommand { track_id, events: new_events }
    }

    /// Exchanges the events held by the command with those of its track.
    pub fn swap_events(&mut self, app: &mut EditorContext) -> (r: Result<(), UiError>)
        ensures
            lyrics_swapped(*old(self), *old(app), r, *final(self), *final(app)),
    {
        match &mut app.project {
            None => Err(UiError::InvalidCommand("ApplyLyricsTrackChanges without project".to_string())),
            Some(project) => {
                proof {
                    lemma_track_index(project.file.tracks@, self.track_id);
                }
                match find_track(&project.file.tracks, self.track_id) {
                    None => Err(
                        UiError::InvalidCommand(
                            "ApplyLyricsTrackChanges can't find target track".to_string(),
                        ),
                    ),
                    Some(t) => {
                        let ghost e = track_events(project.file.tracks@);
                        let mut track = project.file.tracks.remove(t);
                        std::mem::swap(&mut track.events, &mut self.events);
                        project.file.tracks.insert(t, track);
                        assert(track_events(project.file.tracks@) =~= e.update(
                            t as int,
                            old(self).events@,
                        ));
                        Ok(())
                    },
                }
            },
        }
    }
}

/// Applying edited lyrics and undoing it gives back the track's events, and
/// leaves the command holding the edited events again.
pub proof fn lemma_apply_lyrics_undo(e: Seq<Seq<Event>>, t: int, new_events: Seq<Event>)
    requires
        0 <= t < e.len(),
    ensures
        e.update(t, new_events).update(t, e[t]) == e,
        e.update(t, new_events)[t] == new_events,
{
    assert(e.update(t, new_events).update(t, e[t]) =~= e);
}

/// What exchanging the events held by the command with those of its track
/// does: the command `c` run on `app` gives `r` and leaves the command as
/// `c2` and the editor as `app2`.
pub open spec fn lyrics_swapped(c: ApplyLyricsTrackChangesCommand, app: EditorContext, r: Result<(), UiError>, c2: ApplyLyricsTrackChangesCommand, app2: EditorContext) -> bool {
    &&& app2.selection == app.selection
    &&& app2.event_queue == app.event_queue
    &&& app2.refresh == app.refresh
    &&& c2.track_id == c.track_id
    &&& fails_without_track(app, app2, c.track_id, r)
    &&& r is Err ==> c2 == c
    &&& app.project matches Some(p) ==> (track_index(p.file.tracks@, c.track_id) matches Some(
        t,
    ) ==> r is Ok && (app2.project matches Some(q) && same_but_tracks(p, q)
        && same_tracks_but_events(p.file.tracks@, q.file.tracks@) && track_events(q.file.tracks@)
        == track_events(p.file.tracks@).update(t, c.events@) && c2.events@
        == p.file.tracks@[t].events@))
}

impl Command for ApplyLyricsTrackChangesCommand {
    open spec fn spec_can_undo(&self) -> bool {
        true
    }

    open spec fn spec_execute(&self, app: EditorContext, r: Result<(), UiError>, after: Self, app_after: EditorContext) -> bool {
        lyrics_swapped(*self, app, r, after, app_after)
    }

    open spec fn spec_undo(&self, app: EditorContext, r: Result<(), UiError>, after: Self, app_after: EditorContext) -> bool {
        lyrics_swapped(*self, app, r, after, app_after)
    }

    open spec fn spec_description(&self) -> Seq<char> {
        "Edit Lyrics"@
    }

    open spec fn spec_update_flags(&self) -> u32 {
        (1u32 | 2u32) | 8u32
    }

    fn can_undo(&self) -> (b: bool) {
        true
    }

    fn description(&self) -> String {
        "Edit Lyrics".to_string()
    }

    fn update_flags(&self) -> UpdateFlags {
        UpdateFlags::make_dirty() | UpdateFlags::invalidate_video() | UpdateFlags::lyrics_changed()
    }

    fn execute(&mut self, app: &mut EditorContext) -> (r: Result<(), UiError>) {
        self.swap_events(app)
    }

    fn undo(&mut self, app: &mut EditorContext) -> (r: Result<(), UiError>) {
        self.swap_events(app)
    }
}

} // verus!
