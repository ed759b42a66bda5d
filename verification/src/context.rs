use vstd::prelude::*;

use crate::flags::UpdateFlags;
use crate::project::Project;
use crate::selection::SelectionManager;
use crate::ui_event::{KsngEvent, TabRequest};

verus! {

/// The editor's state that commands and events act on: the open project,
/// the selection, the queue of pending events, and what the views around
/// must bring up to date.
pub struct EditorContext {
    pub project: Option<Project>,
    pub selection: SelectionManager,
    pub event_queue: std::collections::VecDeque<KsngEvent>,
    pub refresh: UpdateFlags,
}

/// `p` with its unsaved-changes mark set to `dirty`.
pub open spec fn with_dirty(p: Option<Project>, dirty: bool) -> Option<Project> {
    match p {
        Some(pr) => Some(Project { dirty, ..pr }),
        None => None,
    }
}

impl EditorContext {
    /// No project, nothing selected, nothing pending.
    pub fn new() -> (c: EditorContext)
        ensures
            c.project is None,
            c.selection.wf(),
            c.event_queue@.len() == 0,
            c.refresh.0 == 0,
    {
        EditorContext {
            project: None,
            selection: SelectionManager::new(),
            event_queue: std::collections::VecDeque::new(),
            refresh: UpdateFlags(0),
        }
    }

    /// Queues `event` to be handled.
    pub fn dispatch(&mut self, event: KsngEvent)
        ensures
            final(self).event_queue@ == old(self).event_queue@.push(event),
            final(self).project == old(self).project,
            final(self).selection == old(self).selection,
            final(self).refresh == old(self).refresh,
    {
        self.event_queue.push_back(event);
    }

    /// Queues `event`, unless the open project has unsaved changes: then
    /// nothing is queued and `true` says that the user must be asked first.
    pub fn dispatch_warn_dirty(&mut self, event: KsngEvent) -> (ask: bool)
        ensures
            ask == (old(self).project matches Some(p) && p.dirty),
            ask ==> final(self).event_queue@ == old(self).event_queue@,
            !ask ==> final(self).event_queue@ == old(self).event_queue@.push(event),
            final(self).project == old(self).project,
            final(self).selection == old(self).selection,
            final(self).refresh == old(self).refresh,
    {
        let dirty = match &self.project {
            Some(p) => p.dirty,
            None => false,
        };
        if dirty {
            return true;
        }
        self.dispatch(event);
        false
    }

    /// Sets the unsaved-changes mark of the open project, if any.
    pub fn set_dirty_state(&mut self, dirty: bool)
        ensures
            final(self).project == with_dirty(old(self).project, dirty),
            final(self).selection == old(self).selection,
            final(self).event_queue == old(self).event_queue,
            final(self).refresh == old(self).refresh,
    {
        if let Some(p) = &mut self.project {
            p.dirty = dirty;
        }
    }

    /// Takes the next pending event.
    pub fn pop_event(&mut self) -> (e: Option<KsngEvent>)
        ensures
            old(self).event_queue@.len() == 0 ==> e is None && final(self).event_queue@ == old(
                self,
            ).event_queue@,
            old(self).event_queue@.len() > 0 ==> e == Some(old(self).event_queue@[0])
                && final(self).event_queue@ == old(self).event_queue@.drop_first(),
            final(self).project == old(self).project,
            final(self).selection == old(self).selection,
            final(self).refresh == old(self).refresh,
    {
        self.event_queue.pop_front()
    }
}

/// What is left for the application to do after an event is handled: the
/// work that reaches past the editor's state.
pub enum EventAction {
    /// Nothing more.
    Nothing,
    /// The open project changed: views, playback and caches start over.
    ProjectChanged,
    /// Save the open project.
    Save,
    /// Ask which saved project to open.
    ShowOpenProject,
    /// Load the saved project with this identifier.
    Load(u128),
    /// Ask where to export a video of the project of this name.
    ExportVideo(String),
    /// Close the application.
    Quit,
    /// Delete the saved project with this identifier.
    Delete(u128),
    Undo,
    Redo,
    AudioDeviceChanged,
    AudioChanged,
    CloseWindow(u64),
    /// Show the tab asked for.
    OpenTab(TabRequest),
}

/// The name an export starts from: the project's name, or "none".
pub open spec fn export_name(p: Option<Project>) -> Seq<char> {
    match p {
        Some(pr) => match pr.name {
            Some(n) => n@,
            None => "none"@,
        },
        None => "none"@,
    }
}

impl EditorContext {
    /// Handles `event`: closing a project drops it, a new project replaces
    /// the open one, and either clears the selection; the rest is handed
    /// back as the action to perform.
    pub fn on_event(&mut self, event: KsngEvent) -> (a: EventAction)
        ensures
            final(self).event_queue == old(self).event_queue,
            final(self).refresh == old(self).refresh,
            match event {
                KsngEvent::ProjectClose => {
                    &&& final(self).project is None
                    &&& final(self).selection.wf()
                    &&& final(self).selection.tracks().len() == 0
                    &&& final(self).selection.events().len() == 0
                    &&& a is ProjectChanged
                },
                KsngEvent::ProjectNew => {
                    &&& final(self).project matches Some(p) && p.name is None && p.dirty && p.length == 0
                        && p.file.tracks@.len() == 1 && p.file.tracks@[0].track_type == crate::project::TrackType::Lyrics
                        && p.file.tracks@[0].events@.len() == 0
                    &&& final(self).selection.wf()
                    &&& final(self).selection.tracks().len() == 0
                    &&& final(self).selection.events().len() == 0
                    &&& a is ProjectChanged
                },
                _ => {
                    &&& final(self).project == old(self).project
                    &&& final(self).selection == old(self).selection
                    &&& match event {
                        KsngEvent::ProjectSave => a is Save,
                        KsngEvent::ProjectOpen => a is ShowOpenProject,
                        KsngEvent::ProjectOpenId(id) => a == EventAction::Load(id),
                        KsngEvent::ProjectExportVideo => a matches EventAction::ExportVideo(n) && n@ == export_name(old(self).project),
                        KsngEvent::Quit => a is Quit,
                        KsngEvent::ProjectDelete(id) => a == EventAction::Delete(id),
                        KsngEvent::Undo => a is Undo,
                        KsngEvent::Redo => a is Redo,
                        KsngEvent::AudioDeviceChanged => a is AudioDeviceChanged,
                        KsngEvent::AudioChanged => a is AudioChanged,
                        KsngEvent::CloseWindow(w) => a == EventAction::CloseWindow(w),
                        KsngEvent::OpenTabWindow(t) => a == EventAction::OpenTab(t),
                        _ => false,
                    }
                },
            },
    {
        match event {
            KsngEvent::ProjectClose => {
                self.project = None;
                self.selection.clear();
                proof {
                    assert(self.selection.tracks().len() == 0);
                }
                EventAction::ProjectChanged
            },
            KsngEvent::ProjectNew => {
                self.project = Some(Project::new_default());
                self.selection.clear();
                EventAction::ProjectChanged
            },
            KsngEvent::ProjectSave => EventAction::Save,
            KsngEvent::ProjectOpen => EventAction::ShowOpenProject,
            KsngEvent::ProjectOpenId(id) => EventAction::Load(id),
            KsngEvent::ProjectExportVideo => {
                let name = match &self.project {
                    Some(p) => match &p.name {
                        Some(n) => n.clone(),
                        None => "none".to_string(),
                    },
                    None => "none".to_string(),
                };
                proof {
                    reveal_strlit("none");
                }
                EventAction::ExportVideo(name)
            },
            KsngEvent::Quit => EventAction::Quit,
            KsngEvent::ProjectDelete(id) => EventAction::Delete(id),
            KsngEvent::Undo => EventAction::Undo,
            KsngEvent::Redo => EventAction::Redo,
            KsngEvent::AudioDeviceChanged => EventAction::AudioDeviceChanged,
            KsngEvent::AudioChanged => EventAction::AudioChanged,
            KsngEvent::CloseWindow(w) => EventAction::CloseWindow(w),
            KsngEvent::OpenTabWindow(t) => EventAction::OpenTab(t),
        }
    }

    /// A project was loaded for opening: when there is one, it becomes the
    /// open project and the selection is cleared. Returns whether the open
    /// project changed.
    pub fn on_project_loaded(&mut self, project: Option<Project>) -> (changed: bool)
        ensures
            changed == project is Some,
            changed ==> final(self).project == project && final(self).selection.wf()
                && final(self).selection.tracks().len() == 0 && final(self).selection.events().len() == 0,
            !changed ==> final(self).project == old(self).project && final(self).selection == old(self).selection,
            final(self).event_queue == old(self).event_queue,
            final(self).refresh == old(self).refresh,
    {
        match project {
            Some(p) => {
                self.project = Some(p);
                self.selection.clear();
                true
            },
            None => false,
        }
    }

    /// The window was asked to close: when the open project has unsaved
    /// changes and closing was not yet allowed, the close is held back and a
    /// quit is dispatched behind the unsaved-changes warning. Returns
    /// whether the close is held back and whether the user must be asked.
    pub fn close_requested(&mut self, close_allowed: bool) -> (r: (bool, bool))
        ensures
            r.0 == (!close_allowed && (old(self).project matches Some(p) && p.dirty)),
            r.1 == r.0,
            final(self).event_queue@ == old(self).event_queue@,
            final(self).project == old(self).project,
            final(self).selection == old(self).selection,
            final(self).refresh == old(self).refresh,
    {
        let dirty = match &self.project {
            Some(p) => p.dirty,
            None => false,
        };
        if dirty && !close_allowed {
            let ask = self.dispatch_warn_dirty(KsngEvent::Quit);
            (true, ask)
        } else {
            (false, false)
        }
    }
}

/// Where a tab goes in the dock.
#[derive(Debug, Clone, Copy, PartialEq, Eq, Structural)]
pub enum TabPlacement {
    /// Make the tab at this place, in the dock's order of tabs, the active one.
    Focus(usize),
    /// Add the tab beside the tab at this place.
    AppendBeside(usize),
    /// Open the tab in a window of its own.
    NewWindow,
    /// Add the tab to the focused part of the dock.
    PushToFocused,
    /// Leave the dock as it is.
    Nothing,
}

/// Shows a tab: `same[i]` tells whether the dock's `i`-th tab is that tab.
/// The first such tab is made active; when there is none the tab is added,
/// in a window of its own when `as_window`.
pub fn show_or_focus_tab(same: &[bool], as_window: bool) -> (r: TabPlacement)
    ensures
        (exists|i: int| 0 <= i < same@.len() && #[trigger] same@[i]) ==> (r matches TabPlacement::Focus(i) && i
            < same@.len() && same@[i as int] && forall|j: int| 0 <= j < i ==> !(#[trigger] same@[j])),
        !(exists|i: int| 0 <= i < same@.len() && #[trigger] same@[i]) ==> r == (if as_window {
            TabPlacement::NewWindow
        } else {
            TabPlacement::PushToFocused
        }),
{
    let mut i: usize = 0;
    while i < same.len()
        invariant
            0 <= i <= same@.len(),
            forall|j: int| 0 <= j < i ==> !(#[trigger] same@[j]),
        decreases same@.len() - i,
    {
        if same[i] {
            return TabPlacement::Focus(i);
        }
        i = i + 1;
    }
    if as_window {
        TabPlacement::NewWindow
    } else {
        TabPlacement::PushToFocused
    }
}

/// Shows the configuration tab of track `track_id`: `tabs[i]` is the track
/// of the dock's `i`-th tab when that tab configures a track. Nothing
/// happens when the project has no such track; an open tab of that track is
/// made active; otherwise the new tab goes beside the last tab that
/// configures another track, or in a window of its own when there is none.
pub fn place_track_config(tabs: &[Option<u128>], track_id: u128, track_exists: bool) -> (r: TabPlacement)
    ensures
        !track_exists ==> r == TabPlacement::Nothing,
        track_exists && (exists|i: int| 0 <= i < tabs@.len() && #[trigger] tabs@[i] == Some(track_id)) ==> (r matches TabPlacement::Focus(i)
            && i < tabs@.len() && tabs@[i as int] == Some(track_id) && forall|j: int|
            0 <= j < i ==> #[trigger] tabs@[j] != Some(track_id)),
        track_exists && !(exists|i: int| 0 <= i < tabs@.len() && #[trigger] tabs@[i] == Some(track_id)) && (exists|
            i: int,
        | 0 <= i < tabs@.len() && #[trigger] tabs@[i] is Some) ==> (r matches TabPlacement::AppendBeside(i) && i
            < tabs@.len() && tabs@[i as int] is Some && forall|j: int| i < j < tabs@.len() ==> #[trigger] tabs@[j] is None),
        track_exists && !(exists|i: int| 0 <= i < tabs@.len() && #[trigger] tabs@[i] is Some) ==> r
            == TabPlacement::NewWindow,
{
    if !track_exists {
        return TabPlacement::Nothing;
    }
    let mut other: Option<usize> = None;
    let mut i: usize = 0;
    while i < tabs.len()
        invariant
            0 <= i <= tabs@.len(),
            track_exists,
            forall|j: int| 0 <= j < i ==> #[trigger] tabs@[j] != Some(track_id),
            match other {
                Some(k) => k < i && tabs@[k as int] is Some && forall|j: int| k < j < i ==> #[trigger] tabs@[j] is None,
                None => forall|j: int| 0 <= j < i ==> #[trigger] tabs@[j] is None,
            },
        decreases tabs@.len() - i,
    {
        match tabs[i] {
            Some(t) => {
                if t == track_id {
                    return TabPlacement::Focus(i);
                }
                other = Some(i);
            },
            None => {},
        }
        i = i + 1;
    }
    match other {
        Some(k) => TabPlacement::AppendBeside(k),
        None => TabPlacement::NewWindow,
    }
}

} // verus!
