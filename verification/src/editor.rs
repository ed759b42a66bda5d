//! The editor as a whole: its state, and the views that follow the open
//! project.

use vstd::prelude::*;

use crate::context::{EditorContext, EventAction};
use crate::lyrics::LyricsEditorText;
use crate::lyrics_view::{rebuilt_texts, LyricsEditor};
use crate::project::Project;
use crate::state::{PlaybackClock, PlaybackState};
use crate::timeline::{TimelineState, TimelineUiState};
use crate::ui_event::{KsngEvent, TabRequest};

verus! {

/// The editor: its state, the timeline's mouse state, the playhead, the
/// lyrics editor, and the tabs of its dock.
pub struct Editor {
    pub context: EditorContext,
    pub timeline: TimelineState,
    pub playback: PlaybackClock,
    pub lyrics: LyricsEditor,
    pub tabs: Vec<TabRequest>,
}

/// The tabs `ts` without those configuring a track, in order.
pub open spec fn without_track_configs(ts: Seq<TabRequest>) -> Seq<TabRequest>
    decreases ts.len(),
{
    if ts.len() == 0 {
        ts
    } else if ts.last() is TrackConfig {
        without_track_configs(ts.drop_last())
    } else {
        without_track_configs(ts.drop_last()).push(ts.last())
    }
}

/// What the lyrics editor holds after the project `project` was opened,
/// from what it held before.
pub open spec fn lyrics_reset(before: LyricsEditor, after: LyricsEditor, project: Option<Project>) -> bool {
    match project {
        None => after.current_data is None,
        Some(p) => after.current_data matches Some(d) && d.selected_lyrics_track == 0 && match before.current_data {
            Some(o) => rebuilt_texts(o.tracks@, d.tracks@, p.file.tracks@),
            None => rebuilt_texts(Seq::<LyricsEditorText>::empty(), d.tracks@, p.file.tracks@),
        },
    }
}

/// Whether `after` is the editor once the views have started over for its
/// open project: nothing selected, the timeline idle, playback stopped
/// when no project is left, the lyrics rebuilt, and no track configured
/// any more.
pub open spec fn views_reset(before: Editor, after: Editor) -> bool {
    &&& after.context.project == before.context.project
    &&& after.context.event_queue == before.context.event_queue
    &&& after.context.refresh == before.context.refresh
    &&& after.context.selection.wf()
    &&& after.context.selection.tracks().len() == 0
    &&& after.context.selection.events().len() == 0
    &&& after.timeline.wf()
    &&& after.timeline.state == TimelineUiState::Idle
    &&& after.timeline.drag_state is None
    &&& !after.timeline.is_dragging
    &&& after.timeline.drag_start == 0
    &&& after.playback.state == (if before.context.project is Some {
        before.playback.state
    } else {
        PlaybackState::Stopped
    })
    &&& after.playback.last_position == before.playback.last_position
    &&& lyrics_reset(before.lyrics, after.lyrics, before.context.project)
    &&& after.tabs@ == without_track_configs(before.tabs@)
}

fn close_track_configs(tabs: &Vec<TabRequest>) -> (r: Vec<TabRequest>)
    ensures
        r@ == without_track_configs(tabs@),
{
    let mut r: Vec<TabRequest> = Vec::new();
    let mut i: usize = 0;
    while i < tabs.len()
        invariant
            0 <= i <= tabs@.len(),
            r@ == without_track_configs(tabs@.take(i as int)),
        decreases tabs@.len() - i,
    {
        let t = tabs[i];
        proof {
            assert(tabs@.take(i + 1).drop_last() =~= tabs@.take(i as int));
            assert(tabs@.take(i + 1).last() == t);
        }
        match t {
            TabRequest::TrackConfig(_) => {},
            _ => {
                r.push(t);
            },
        }
        i = i + 1;
    }
    assert(tabs@.take(tabs@.len() as int) =~= tabs@);
    r
}

impl Editor {
    /// No project, no view, no tab.
    pub fn new() -> (e: Editor)
        ensures
            e.context.project is None,
            e.context.selection.wf(),
            e.timeline.wf(),
            e.playback.state == PlaybackState::Stopped,
            e.lyrics.current_data is None,
            e.tabs@.len() == 0,
    {
        Editor {
            context: EditorContext::new(),
            timeline: TimelineState::new(),
            playback: PlaybackClock::new(),
            lyrics: LyricsEditor::new(),
            tabs: Vec::new(),
        }
    }

    /// The open project changed: the views start over for it.
    pub fn on_project_change(&mut self)
        ensures
            views_reset(*old(self), *final(self)),
    {
        self.context.selection.clear();
        self.timeline = TimelineState::new();
        let has_project = self.context.project.is_some();
        self.playback.on_audio_change(has_project);
        self.lyrics.on_project_change(&self.context.project);
        self.tabs = close_track_configs(&self.tabs);
    }

    /// Handles `event` as the editor's state does, then, when the open
    /// project changed, has the views start over for it. Closing a project
    /// leaves no project, nothing selected, the timeline idle, playback
    /// stopped, the lyrics editor empty and no track configured; the
    /// action is handed back for what lies outside the editor.
    pub fn handle_event(&mut self, event: KsngEvent) -> (a: EventAction)
        ensures
            event is ProjectClose ==> {
                &&& a is ProjectChanged
                &&& final(self).context.project is None
                &&& final(self).context.selection.wf()
                &&& final(self).context.selection.tracks().len() == 0
                &&& final(self).context.selection.events().len() == 0
                &&& final(self).timeline.state == TimelineUiState::Idle
                &&& final(self).timeline.drag_state is None
                &&& !final(self).timeline.is_dragging
                &&& final(self).playback.state == PlaybackState::Stopped
                &&& final(self).lyrics.current_data is None
                &&& final(self).tabs@ == without_track_configs(old(self).tabs@)
            },
            event is ProjectNew ==> {
                &&& a is ProjectChanged
                &&& final(self).context.project matches Some(p) && p.name is None && p.dirty
                    && p.file.tracks@.len() == 1 && p.file.tracks@[0].events@.len() == 0
                &&& exists|mid: Editor| #[trigger] views_reset(mid, *final(self)) && mid.context.project
                    == final(self).context.project && mid.timeline == old(self).timeline && mid.playback
                    == old(self).playback && mid.lyrics == old(self).lyrics && mid.tabs == old(self).tabs
            },
            !(event is ProjectClose) && !(event is ProjectNew) ==> {
                &&& final(self).context.project == old(self).context.project
                &&& final(self).context.selection == old(self).context.selection
                &&& final(self).timeline == old(self).timeline
                &&& final(self).playback == old(self).playback
                &&& final(self).lyrics == old(self).lyrics
                &&& final(self).tabs == old(self).tabs
            },
    {
        let a = self.context.on_event(event);
        match a {
            EventAction::ProjectChanged => {
                let ghost mid = *self;
                self.on_project_change();
                proof {
                    assert(views_reset(mid, *self));
                }
            },
            _ => {},
        }
        a
    }

    /// A project loaded for opening: when there is one, it becomes the open
    /// project and the views start over for it. Returns whether it did.
    pub fn open_loaded(&mut self, project: Option<Project>) -> (changed: bool)
        ensures
            changed == project is Some,
            changed ==> exists|mid: Editor| #[trigger] views_reset(mid, *final(self)) && mid.context.project == project
                && mid.timeline == old(self).timeline && mid.playback == old(self).playback && mid.lyrics == old(
                self,
            ).lyrics && mid.tabs == old(self).tabs,
            !changed ==> *final(self) == *old(self),
    {
        if project.is_none() {
            return false;
        }
        self.context.project = project;
        let ghost mid = *self;
        self.on_project_change();
        proof {
            assert(views_reset(mid, *self));
        }
        true
    }
}

} // verus!
