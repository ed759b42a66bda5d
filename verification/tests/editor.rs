use ksng::context::EventAction;
use ksng::editor::Editor;
use ksng::state::PlaybackState;
use ksng::timeline::TimelineUiState;
use ksng::ui_event::{KsngEvent, TabRequest};

#[test]
fn closing_a_project_resets_the_views() {
    let mut editor = Editor::new();
    assert!(matches!(editor.handle_event(KsngEvent::ProjectNew), EventAction::ProjectChanged));
    assert!(editor.context.project.is_some());
    assert_eq!(editor.lyrics.current_data.as_ref().map(|d| d.tracks.len()), Some(1));
    editor.tabs = vec![TabRequest::Player, TabRequest::TrackConfig(3), TabRequest::Timeline, TabRequest::TrackConfig(4)];
    editor.playback.update_state(PlaybackState::Playing, 500);
    editor.timeline.drag_start = 40;
    editor.timeline.is_dragging = true;
    assert!(matches!(editor.handle_event(KsngEvent::ProjectClose), EventAction::ProjectChanged));
    assert!(editor.context.project.is_none());
    assert!(editor.context.selection.selected_tracks().is_empty());
    assert!(editor.context.selection.selected_events().is_empty());
    assert_eq!(editor.timeline.state, TimelineUiState::Idle);
    assert!(!editor.timeline.is_dragging);
    assert_eq!(editor.timeline.drag_start, 0);
    assert_eq!(editor.playback.state, PlaybackState::Stopped);
    assert!(editor.lyrics.current_data.is_none());
    assert_eq!(editor.tabs, vec![TabRequest::Player, TabRequest::Timeline]);
}

#[test]
fn new_project_keeps_playback_state() {
    let mut editor = Editor::new();
    editor.handle_event(KsngEvent::ProjectNew);
    editor.playback.update_state(PlaybackState::Playing, 10);
    editor.handle_event(KsngEvent::ProjectNew);
    assert_eq!(editor.playback.state, PlaybackState::Playing);
}

#[test]
fn other_events_leave_the_views() {
    let mut editor = Editor::new();
    editor.handle_event(KsngEvent::ProjectNew);
    editor.tabs = vec![TabRequest::TrackConfig(1)];
    assert!(matches!(editor.handle_event(KsngEvent::Undo), EventAction::Undo));
    assert_eq!(editor.tabs, vec![TabRequest::TrackConfig(1)]);
    assert!(editor.context.project.is_some());
}

#[test]
fn opening_nothing_changes_nothing() {
    let mut editor = Editor::new();
    editor.tabs = vec![TabRequest::TrackConfig(1)];
    assert!(!editor.open_loaded(None));
    assert_eq!(editor.tabs.len(), 1);
}

#[test]
fn tracks_and_events_are_never_both_selected() {
    let mut s = ksng::selection::SelectionManager::new();
    s.select_track(1, false);
    s.select_track(2, false);
    s.select_event(5, false);
    assert!(s.selected_tracks().is_empty());
    assert_eq!(s.selected_events(), vec![5]);
    s.select_track(3, true);
    assert!(s.selected_events().is_empty());
    assert_eq!(s.selected_tracks(), vec![3]);
}
