use ksng::commands::{Command, CommandDispatcher};
use ksng::context::{place_track_config, show_or_focus_tab, EditorContext, EventAction, TabPlacement};
use ksng::flags::UpdateFlags;
use ksng::lyrics::{Event, EventType, EventValue};
use ksng::project::{Project, ProjectFile, Track, TrackType, TrackValue};
use ksng::selection::SelectionManager;
use ksng::track_commands::{
    AddAudioEventCommand, AddTrackCommand, EditCommand, MuteTrackCommand, SetEventTimingsCommand,
};
use ksng::lyrics::{AudioFileSource, AudioFileType};
use ksng::ui_event::{KsngEvent, TabRequest, UiError};

fn lyric(id: u128, start: u32, end: u32, text: &str) -> Event {
    Event {
        id,
        linked_id: None,
        start_timecode: start,
        end_timecode: end,
        event_type: EventType::Lyric,
        value: Some(EventValue::Lyric { text: text.to_string() }),
    }
}

fn context_with(tracks: Vec<Track>) -> EditorContext {
    let mut ctx = EditorContext::new();
    ctx.project = Some(Project::from_file(1, "song".to_string(), ProjectFile { tracks }));
    ctx
}

#[test]
fn flags_combine() {
    let f = UpdateFlags::make_dirty() | UpdateFlags::audio_changed();
    assert!(f.has_flag(UpdateFlags::make_dirty()));
    assert!(f.has_flag(UpdateFlags::audio_changed()));
    assert!(!f.has_flag(UpdateFlags::lyrics_changed()));
    assert!(!UpdateFlags::invalidate_video().has_flag(UpdateFlags::make_dirty()));
}

#[test]
fn select_track_single_and_toggle() {
    let mut s = SelectionManager::new();
    s.select_track(1, true);
    assert!(s.is_track_selected(1));
    s.select_track(2, false);
    assert!(s.is_track_selected(1) && s.is_track_selected(2));
    // A single select of a selected track among several keeps only it.
    s.select_track(2, true);
    assert!(!s.is_track_selected(1) && s.is_track_selected(2));
    // The only selected track is deselected.
    s.select_track(2, true);
    assert!(s.selected_tracks().is_empty());
}

#[test]
fn selecting_an_event_drops_tracks() {
    let mut s = SelectionManager::new();
    s.select_track(1, true);
    s.select_event(10, true);
    assert!(s.selected_tracks().is_empty());
    assert_eq!(s.selected_events(), vec![10]);
    s.select_event(11, false);
    s.select_event(10, false);
    assert_eq!(s.selected_events(), vec![11]);
    s.remove_event(11);
    assert!(s.selected_events().is_empty());
}

#[test]
fn project_length_is_latest_end() {
    let mut t = Track::new_type(TrackType::Lyrics, 0);
    t.events.push(lyric(1, 0, 500, "a"));
    t.events.push(lyric(2, 500, 1200, "b"));
    let p = Project::from_file(3, "x".to_string(), ProjectFile { tracks: vec![t] });
    assert_eq!(p.length, 1200);
    assert!(!p.dirty);
    assert_eq!(p.name, Some("x".to_string()));
}

#[test]
fn new_project_has_one_lyrics_track() {
    let p = Project::new_default();
    assert!(p.dirty);
    assert_eq!(p.file.tracks.len(), 1);
    assert_eq!(p.file.tracks[0].track_type, TrackType::Lyrics);
    assert_eq!(p.file.tracks[0].order, 0);
}

#[test]
fn add_track_then_undo_and_redo() {
    let mut ctx = context_with(vec![Track::new_type(TrackType::Lyrics, 0)]);
    let mut d: CommandDispatcher<EditCommand> = CommandDispatcher::new();
    d.dispatch(EditCommand::AddTrack(AddTrackCommand::new(TrackType::Audio)));
    assert!(d.process(&mut ctx).is_ok());
    let tracks = &ctx.project.as_ref().unwrap().file.tracks;
    assert_eq!(tracks.len(), 2);
    assert_eq!(tracks[1].track_type, TrackType::Audio);
    assert_eq!(tracks[1].order, 1);
    assert_eq!(tracks[1].track_value, Some(TrackValue::Audio { muted: false }));
    assert!(ctx.project.as_ref().unwrap().dirty);
    assert_eq!(d.undo_description(), Some("Add Audio Track".to_string()));
    assert!(d.undo(&mut ctx).is_ok());
    assert_eq!(ctx.project.as_ref().unwrap().file.tracks.len(), 1);
    assert_eq!(d.redo_description(), Some("Add Audio Track".to_string()));
    assert!(d.redo(&mut ctx).is_ok());
    assert_eq!(ctx.project.as_ref().unwrap().file.tracks.len(), 2);
}

#[test]
fn add_track_without_project_fails() {
    let mut ctx = EditorContext::new();
    let mut c = AddTrackCommand::new(TrackType::Lyrics);
    assert!(matches!(c.execute(&mut ctx), Err(UiError::InvalidCommand(_))));
}

#[test]
fn mute_track_flips_and_undo_restores() {
    let mut t = Track::new_type(TrackType::Audio, 0);
    t.track_value = Some(TrackValue::Audio { muted: false });
    let id = t.id;
    let mut ctx = context_with(vec![t]);
    let mut c = MuteTrackCommand::new(&ctx.project.as_ref().unwrap().file.tracks[0]);
    assert!(c.execute(&mut ctx).is_ok());
    assert_eq!(ctx.project.as_ref().unwrap().file.tracks[0].track_value, Some(TrackValue::Audio { muted: true }));
    assert!(c.undo(&mut ctx).is_ok());
    assert_eq!(ctx.project.as_ref().unwrap().file.tracks[0].track_value, Some(TrackValue::Audio { muted: false }));
    assert_eq!(ctx.project.as_ref().unwrap().file.tracks[0].id, id);
}

#[test]
fn set_event_timings_and_undo() {
    let mut t = Track::new_type(TrackType::Lyrics, 0);
    t.events.push(lyric(1, 0, 100, "a"));
    t.events.push(lyric(2, 200, 300, "b"));
    let mut ctx = context_with(vec![t]);
    let mut c = SetEventTimingsCommand::new(&[2], &[(400, 500)]);
    assert_eq!(c.title, "Set event timing");
    assert!(c.execute(&mut ctx).is_ok());
    let evs = &ctx.project.as_ref().unwrap().file.tracks[0].events;
    assert_eq!((evs[1].id, evs[1].start_timecode, evs[1].end_timecode), (2, 400, 500));
    assert!(c.undo(&mut ctx).is_ok());
    let evs = &ctx.project.as_ref().unwrap().file.tracks[0].events;
    assert_eq!((evs[1].id, evs[1].start_timecode, evs[1].end_timecode), (2, 200, 300));
    let several = SetEventTimingsCommand::new(&[1, 2], &[(0, 1), (2, 3)]);
    assert_eq!(several.title, "Set event timings");
}

#[test]
fn undoing_timings_restores_every_event() {
    let timings = |t: &Track| -> Vec<(u128, u32, u32)> {
        t.events.iter().map(|e| (e.id, e.start_timecode, e.end_timecode)).collect()
    };
    let mut a = Track::new_type(TrackType::Lyrics, 0);
    a.events.push(lyric(1, 100, 200, "a"));
    a.events.push(lyric(2, 100, 300, "b"));
    a.events.push(lyric(3, 400, 500, "c"));
    let mut b = Track::new_type(TrackType::Lyrics, 1);
    b.events.push(lyric(4, 50, 60, "d"));
    let before = vec![timings(&a), timings(&b)];
    let mut ctx = context_with(vec![a, b]);
    let mut c = SetEventTimingsCommand::new(&[1, 4, 3], &[(100, 150), (700, 800), (0, 10)]);
    assert!(c.execute(&mut ctx).is_ok());
    assert_eq!(c.old_timings, vec![(100, 200), (50, 60), (400, 500)]);
    let tracks = &ctx.project.as_ref().unwrap().file.tracks;
    assert_eq!(timings(&tracks[0]), vec![(3, 0, 10), (2, 100, 300), (1, 100, 150)]);
    assert_eq!(timings(&tracks[1]), vec![(4, 700, 800)]);
    assert!(c.undo(&mut ctx).is_ok());
    let tracks = &ctx.project.as_ref().unwrap().file.tracks;
    for (j, t) in tracks.iter().enumerate() {
        let now = timings(t);
        assert_eq!(now.len(), before[j].len());
        for e in before[j].iter() {
            assert!(now.contains(e));
        }
    }
    // Events that start together come back in another order.
    assert_eq!(timings(&tracks[0]), vec![(2, 100, 300), (1, 100, 200), (3, 400, 500)]);
}

#[test]
fn dirty_project_asks_before_closing() {
    let mut ctx = context_with(vec![]);
    ctx.set_dirty_state(true);
    assert!(ctx.dispatch_warn_dirty(KsngEvent::ProjectClose));
    assert!(ctx.pop_event().is_none());
    ctx.set_dirty_state(false);
    assert!(!ctx.dispatch_warn_dirty(KsngEvent::ProjectClose));
    assert_eq!(ctx.pop_event(), Some(KsngEvent::ProjectClose));
}

#[test]
fn events_are_handled() {
    let mut ctx = context_with(vec![]);
    ctx.selection.select_track(5, true);
    assert!(matches!(ctx.on_event(KsngEvent::ProjectExportVideo), EventAction::ExportVideo(ref n) if n == "song"));
    assert!(matches!(ctx.on_event(KsngEvent::ProjectOpenId(9)), EventAction::Load(9)));
    assert!(matches!(ctx.on_event(KsngEvent::ProjectClose), EventAction::ProjectChanged));
    assert!(ctx.project.is_none());
    assert!(ctx.selection.selected_tracks().is_empty());
    assert!(matches!(ctx.on_event(KsngEvent::ProjectExportVideo), EventAction::ExportVideo(ref n) if n == "none"));
    assert!(matches!(ctx.on_event(KsngEvent::ProjectNew), EventAction::ProjectChanged));
    assert!(ctx.project.as_ref().unwrap().dirty);
}

#[test]
fn close_request_is_held_back_when_dirty() {
    let mut ctx = context_with(vec![]);
    ctx.set_dirty_state(true);
    assert_eq!(ctx.close_requested(false), (true, true));
    assert_eq!(ctx.close_requested(true), (false, false));
}

#[test]
fn tabs_are_focused_or_added() {
    let mut ctx = context_with(vec![]);
    assert!(matches!(
        ctx.on_event(KsngEvent::OpenTabWindow(TabRequest::Player)),
        EventAction::OpenTab(TabRequest::Player)
    ));
    assert_eq!(show_or_focus_tab(&[false, true, true], false), TabPlacement::Focus(1));
    assert_eq!(show_or_focus_tab(&[false, false], false), TabPlacement::PushToFocused);
    assert_eq!(show_or_focus_tab(&[], true), TabPlacement::NewWindow);
    let tabs = [None, Some(7), None, Some(8), None];
    assert_eq!(place_track_config(&tabs, 8, true), TabPlacement::Focus(3));
    assert_eq!(place_track_config(&tabs, 9, true), TabPlacement::AppendBeside(3));
    assert_eq!(place_track_config(&[None, None], 9, true), TabPlacement::NewWindow);
    assert_eq!(place_track_config(&tabs, 8, false), TabPlacement::Nothing);
}

#[test]
fn adding_a_clip_and_undoing_it() {
    let mut t = Track::new_type(TrackType::Audio, 0);
    let track_id = t.id;
    t.events.push(lyric(5, 0, 10, "x"));
    let mut ctx = context_with(vec![t]);
    let mut c = AddAudioEventCommand::new(track_id, "/song.mp3".to_string(), AudioFileType::Mp3, 5000);
    assert_eq!(c.description(), "Add Audio Event");
    assert!(c.execute(&mut ctx).is_ok());
    let added = c.added_event_id.unwrap();
    {
        let evs = &ctx.project.as_ref().unwrap().file.tracks[0].events;
        assert_eq!(evs.len(), 2);
        // The clip starts at 0, after the event that starts there too.
        assert_eq!(evs[1].id, added);
        assert_eq!((evs[1].start_timecode, evs[1].end_timecode, evs[1].event_type), (0, 5000, EventType::AudioClip));
        match &evs[1].value {
            Some(EventValue::AudioClip { file, offset }) => {
                assert_eq!(*offset, 0);
                assert_eq!(file.file_type, AudioFileType::Mp3);
                assert!(matches!(&file.source, AudioFileSource::Path(p) if p == "/song.mp3"));
            }
            _ => panic!("not a clip"),
        }
    }
    ctx.selection.select_event(added, false);
    assert!(c.undo(&mut ctx).is_ok());
    let evs = &ctx.project.as_ref().unwrap().file.tracks[0].events;
    assert_eq!(evs.len(), 1);
    assert_eq!(evs[0].id, 5);
    assert!(!ctx.selection.is_event_selected(added));
    let mut missing = AddAudioEventCommand::new(99, "/a.mp3".to_string(), AudioFileType::Mp3, 1);
    assert!(matches!(missing.execute(&mut ctx), Err(UiError::InvalidCommand(_))));
}
