use ksng::audio::AudioCodec;
use ksng::context::EditorContext;
use ksng::lyrics::{Event, EventType, EventValue};
use ksng::lyrics_view::{lyrics_track_label, LyricsEditor};
use ksng::ml::{exe_name, model_row, route_worker_message, worker_start_action, ModelsTab, StatusCell, WorkerMessage, WorkerStart};
use ksng::ml::{
    JobStatus, ModelDownloadStatus, ModelInfo, ModelManager, TaskExtraData, TaskInfoStatus, TaskManager, TaskResult,
    TaskStatus,
};
use ksng::modals::{
    progress_label, AlertModal, ConfirmModal, DeleteRequest, DirtyChoice, DirtyOutcome, DirtyWarningModal,
    ExportState, ExportStatus, ExportVideoModal, Modal, ModalManager, OpenFileModal, OpenProjectModal,
    SaveProjectModal, SaveStep, save_step,
};
use ksng::project::{Project, ProjectFile, Track, TrackType};
use ksng::selection::SelectionManager;
use ksng::state::{AsyncSlot, AsyncValueState, PendingTasks, PlaybackClock, PlaybackState, device_label};
use ksng::storage::ProjectManifest;
use ksng::text::{decimal, parse_u32};
use ksng::timecode_text::parse_timecode;
use ksng::ui::{
    audio_track_for_add, cache_file_name, history_label, project_title, shortcut_text, stem_file_name, stem_source,
    task_modal_action, HtdemucsTab, StemSource,
};
use ksng::ui_event::{KsngEvent, UiError};
use ksng::lyrics::{AudioFile, AudioFileSource, AudioFileType};
use ksng::ui::{drop_created_tracks, option_index, stem_plan};

fn info(id: u128, name: &str) -> ModelInfo {
    ModelInfo { id, name: name.to_string(), model_type: "Htdemucs".to_string(), size: 10, description: String::new() }
}

#[test]
fn decimal_numbers() {
    assert_eq!(decimal(0), "0");
    assert_eq!(decimal(1234567890), "1234567890");
    assert_eq!(decimal(u64::MAX), "18446744073709551615");
}

#[test]
fn u32_text() {
    assert_eq!(parse_u32("256000"), Some(256000));
    assert_eq!(parse_u32("+7"), Some(7));
    assert_eq!(parse_u32("4294967295"), Some(u32::MAX));
    assert_eq!(parse_u32("4294967296"), None);
    assert_eq!(parse_u32(""), None);
    assert_eq!(parse_u32("+"), None);
    assert_eq!(parse_u32("12a"), None);
    assert_eq!(parse_u32("-1"), None);
}

#[test]
fn typed_timecodes() {
    assert_eq!(parse_timecode("1:02.5"), Some(62005));
    assert_eq!(parse_timecode("42"), Some(42000));
    assert_eq!(parse_timecode("3.250"), Some(3250));
    assert_eq!(parse_timecode("abc"), None);
    assert_eq!(parse_timecode("99999999:00"), None);
}

#[test]
fn async_state_codes() {
    assert_eq!(u8::from(AsyncValueState::Loaded), 2);
    assert_eq!(AsyncValueState::from(1u8), AsyncValueState::Loading);
    assert_eq!(AsyncValueState::from(9u8), AsyncValueState::Unloaded);
    for s in [AsyncValueState::Unloaded, AsyncValueState::Loading, AsyncValueState::Loaded] {
        assert_eq!(AsyncValueState::from(u8::from(s)), s);
    }
}

#[test]
fn async_slot_loads() {
    let mut s: AsyncSlot<u32> = AsyncSlot::new();
    assert!(s.get().is_none());
    s.begin_load();
    assert_eq!(s.state, AsyncValueState::Loading);
    assert!(s.get().is_none());
    s.finish_load(None);
    assert_eq!(s.state, AsyncValueState::Unloaded);
    s.finish_load(Some(5));
    assert_eq!(s.get(), Some(&5));
    s.set(Some(6));
    assert_eq!(s.get(), Some(&6));
}

#[test]
fn playback_clock() {
    let mut c = PlaybackClock::new();
    assert_eq!(c.position(300, 50), 300);
    assert_eq!(c.toggle_state(300), PlaybackState::Playing);
    assert_eq!(c.position(0, 50), 350);
    assert_eq!(c.toggle_state(999), PlaybackState::Stopped);
    c.seek(10);
    assert_eq!(c.last_position, 10);
    c.update_state(PlaybackState::Playing, 20);
    c.on_audio_change(false);
    assert_eq!(c.state, PlaybackState::Stopped);
}

#[test]
fn labels() {
    assert_eq!(shortcut_text(true, false, true, false, "Z"), "Ctrl+Shift+Z");
    assert_eq!(shortcut_text(true, true, false, true, "S"), "Cmd+Alt+S");
    assert_eq!(shortcut_text(false, false, false, false, "P"), "P");
    assert_eq!(history_label("Undo", &Some("Add Audio Track".to_string())), "Undo Add Audio Track");
    assert_eq!(history_label("Redo", &None), "Redo");
    assert_eq!(device_label("Speakers", Some("ALSA")), "Speakers (ALSA)");
    assert_eq!(device_label("Speakers", None), "Speakers ()");
    assert_eq!(cache_file_name(0x67e5504410b1426f9247bb680e5fe0c8, "tar"), "67e55044-10b1-426f-9247-bb680e5fe0c8.tar");
    assert_eq!(stem_file_name(1, "vocals"), "00000000-0000-0000-0000-000000000001-vocals");
    assert_eq!(lyrics_track_label(0), "Lyrics Track #1");
    assert_eq!(progress_label("Rendering", 1, 3), "Rendering (2/3)");
}

#[test]
fn project_titles() {
    assert_eq!(project_title(&None), "No project");
    let mut p = Project::from_file(1, "Song".to_string(), ProjectFile { tracks: vec![] });
    assert_eq!(project_title(&Some(Project::from_file(1, "Song".to_string(), ProjectFile { tracks: vec![] }))), "Project: Song");
    p.name = None;
    p.dirty = true;
    assert_eq!(project_title(&Some(p)), "Project: (unnamed)*");
}

#[test]
fn audio_track_for_menu() {
    let l = Track::new_type(TrackType::Lyrics, 0);
    let a = Track::new_type(TrackType::Audio, 1);
    let (lid, aid) = (l.id, a.id);
    let tracks = vec![l, a];
    let mut s = SelectionManager::new();
    s.select_track(lid, true);
    assert_eq!(audio_track_for_add(&tracks, &s), None);
    s.select_track(aid, false);
    assert_eq!(audio_track_for_add(&tracks, &s), Some(aid));
}

#[test]
fn stem_source_choice() {
    let mut t = Track::new_type(TrackType::Audio, 0);
    t.events.push(Event { id: 5, linked_id: None, start_timecode: 0, end_timecode: 10, event_type: EventType::AudioClip, value: None });
    t.events.push(Event {
        id: 6,
        linked_id: None,
        start_timecode: 0,
        end_timecode: 10,
        event_type: EventType::Lyric,
        value: Some(EventValue::Lyric { text: "x".to_string() }),
    });
    let tracks = vec![t];
    assert!(matches!(stem_source(&tracks, &vec![6]), StemSource::NoAudio));
    assert!(matches!(stem_source(&tracks, &vec![5]), StemSource::One(ref e) if e.id == 5));
    assert!(matches!(stem_source(&tracks, &vec![6, 5]), StemSource::TooMany));
}

#[test]
fn htdemucs_settings() {
    let mut t = HtdemucsTab::new();
    assert_eq!(t.selected_codec, AudioCodec::Flac);
    assert!(!t.bitrate_editable());
    t.select_codec(AudioCodec::Aac);
    assert_eq!(t.bitrate, 256000);
    t.select_codec(AudioCodec::Mp3);
    assert_eq!(t.bitrate, 256000);
    t.set_bitrate_text("128000");
    assert_eq!(t.bitrate, 128000);
    t.set_bitrate_text("fast");
    assert_eq!(t.bitrate, 128000);
    let mut u = HtdemucsTab::new();
    u.select_codec(AudioCodec::Mp3);
    assert_eq!(u.bitrate, 320000);
}

#[test]
fn simple_modals() {
    let mut a = AlertModal::new("hi".to_string());
    assert!(!a.should_cleanup());
    a.dismiss();
    assert!(a.should_cleanup());
    let mut c = ConfirmModal::new("h".to_string(), "t".to_string(), KsngEvent::Quit);
    assert_eq!(c.answer(true), Some(KsngEvent::Quit));
    assert!(c.should_cleanup());
    let mut d = DirtyWarningModal::new(KsngEvent::ProjectClose);
    assert!(matches!(d.pick(DirtyChoice::Save), DirtyOutcome::SaveThen(KsngEvent::ProjectClose)));
    assert!(d.should_cleanup());
}

#[test]
fn saving_a_new_project_asks_for_a_name() {
    let mut ctx = EditorContext::new();
    assert_eq!(save_step(&ctx), SaveStep::Finish);
    ctx.project = Some(Project::new_default());
    assert_eq!(save_step(&ctx), SaveStep::AskName);
    let mut m = SaveProjectModal::new(Some(KsngEvent::ProjectClose));
    m.name = "   ".to_string();
    assert!(!m.name_valid());
    assert!(!m.confirm(&mut ctx));
    m.name = " My song ".to_string();
    assert!(m.confirm(&mut ctx));
    let p = ctx.project.as_ref().unwrap();
    assert_eq!(p.name, Some(" My song ".to_string()));
    assert!(!p.dirty);
    assert_eq!(ctx.pop_event(), Some(KsngEvent::ProjectClose));
    assert_eq!(save_step(&ctx), SaveStep::Write);
}

#[test]
fn open_project_list() {
    let mut manifest = ProjectManifest::new();
    manifest.record_save(1, &Some("one".to_string()), (1, 0));
    let mut m = OpenProjectModal::new();
    m.click(1);
    assert_eq!(m.selected_id, Some(1));
    assert!(matches!(m.delete_request(Some(1), &manifest), DeleteRequest::Alert(ref t)
        if t == "You can't delete the currently opened project. Close the project first!"));
    match m.delete_request(None, &manifest) {
        DeleteRequest::Confirm(h, t, e) => {
            assert_eq!(h, "Delete project?");
            assert_eq!(t, "The project one will be permanently deleted! Are you sure?");
            assert_eq!(e, KsngEvent::ProjectDelete(1));
        },
        _ => panic!("expected a confirmation"),
    }
    m.click(1);
    assert_eq!(m.selected_id, None);
    m.click(2);
    m.prune(&manifest);
    assert_eq!(m.selected_id, None);
    m.click(1);
    assert_eq!(m.open_selected(), Some(KsngEvent::ProjectOpenId(1)));
    assert!(!m.open);
}

#[test]
fn export_dialog_states() {
    let mut e = ExportVideoModal::new(None);
    assert!(!e.can_start());
    e.edit_output(String::new());
    assert!(e.output_path.is_none());
    e.edit_output("/tmp/out".to_string());
    assert!(e.can_start());
    e.started(Ok(()));
    assert!(!e.settings_enabled());
    e.on_status(ExportStatus::InProgress);
    assert!(matches!(e.state, ExportState::Exporting));
    assert!(e.cancel());
    assert!(matches!(e.state, ExportState::Cancelled));
    assert!(e.open);
    e.started(Err("no codec".to_string()));
    assert!(matches!(e.state, ExportState::Failed(ref m) if m == "no codec"));
    assert!(!e.cancel());
    assert!(!e.open);
}

#[test]
fn models_come_in() {
    let mut m = ModelManager::new();
    assert!(m.models().is_none());
    m.recv_models_list(vec![info(1, "a")]);
    assert!(m.models().is_none());
    m.recv_dl_models_list(vec![info(1, "a"), info(2, "b")]);
    let ms = m.models().unwrap();
    assert_eq!(ms.len(), 2);
    assert!(matches!(ms[0].download_status, ModelDownloadStatus::Downloaded));
    assert!(matches!(ms[1].download_status, ModelDownloadStatus::NotDownloaded));
    assert!(m.recv_job_status(2, JobStatus::Downloading { downloaded: 5, total: 10 }).is_ok());
    assert!(matches!(m.models[1].download_status, ModelDownloadStatus::Downloading { downloaded: 5, total: 10 }));
    match m.recv_job_status(3, JobStatus::Complete) {
        Err(UiError::Worker(msg)) => assert_eq!(msg, "Could not find model with ID 00000000-0000-0000-0000-000000000003"),
        _ => panic!("expected an error"),
    }
}

#[test]
fn tasks_complete_and_are_dropped() {
    let mut t = TaskManager::new();
    let id = t.start_task("Stem Separation".to_string(), TaskExtraData::Htdemucs { source_event_id: 77 });
    assert!(matches!(t.get_task(id).unwrap().status, TaskStatus::Running { progress: 0 }));
    assert!(t.recv_task_info(id, TaskInfoStatus::Running, 42).is_ok());
    assert!(matches!(t.get_task(id).unwrap().status, TaskStatus::Running { progress: 42 }));
    let result = TaskResult::Htdemucs {
        output_path_vocals: "/v".to_string(),
        output_path_drums: String::new(),
        output_path_bass: "/b".to_string(),
        output_path_other: String::new(),
    };
    assert!(t.recv_task_result(id, result).is_ok());
    let done = t.poll_tasks();
    assert_eq!(done.len(), 1);
    assert_eq!(done[0].source_event_id, 77);
    assert_eq!(done[0].files, vec![("vocals".to_string(), "/v".to_string()), ("bass".to_string(), "/b".to_string())]);
    assert!(t.poll_tasks().is_empty());
    assert_eq!(task_modal_action(Some(&t.get_task(id).unwrap().status), true), (true, false, true));
    t.finalize_task(id);
    t.poll_tasks();
    assert!(t.get_task(id).is_none());
    assert_eq!(task_modal_action(None, false), (true, false, false));
}

#[test]
fn lyrics_editor_rebuilds() {
    let mut t = Track::new_type(TrackType::Lyrics, 0);
    t.events.push(Event {
        id: 1,
        linked_id: None,
        start_timecode: 0,
        end_timecode: 10,
        event_type: EventType::Lyric,
        value: Some(EventValue::Lyric { text: "la".to_string() }),
    });
    let tid = t.id;
    let project = Some(Project::from_file(1, "s".to_string(), ProjectFile { tracks: vec![t, Track::new_type(TrackType::Audio, 1)] }));
    let mut ed = LyricsEditor::new();
    ed.on_project_change(&project);
    let data = ed.current_data.as_ref().unwrap();
    assert_eq!(data.tracks.len(), 1);
    assert_eq!(data.tracks[0].track_id, tid);
    assert_eq!(data.tracks[0].text, "la");
    assert!(ed.has_lyrics_tracks());
    assert!(!ed.track_changed());
    ed.edit("la la".to_string());
    assert!(ed.track_changed());
    ed.on_lyrics_change(&project);
    assert_eq!(ed.current_data.as_ref().unwrap().tracks[0].text, "la la");
    let cmd = ed.apply(&project.as_ref().unwrap().file.tracks).unwrap();
    assert_eq!(cmd.track_id, tid);
    assert!(!ed.track_changed());
    ed.on_project_change(&None);
    assert!(ed.current_data.is_none());
}

#[test]
fn model_rows_and_choices() {
    let mut models = ModelManager::new();
    let mut tasks = TaskManager::new();
    assert!(route_worker_message(&mut models, &mut tasks, WorkerMessage::ModelsList(vec![info(1, "demucs")])).is_ok());
    assert!(models.models_of_type("Htdemucs").is_empty());
    let mut other = info(2, "other");
    other.model_type = "Whisper".to_string();
    other.size = 1500;
    assert!(route_worker_message(&mut models, &mut tasks, WorkerMessage::DlModelsList(vec![other])).is_ok());
    assert_eq!(models.models_of_type("Htdemucs"), vec![(1, "demucs".to_string())]);
    assert_eq!(models.model_selection(2), Some((2, "other".to_string())));
    assert_eq!(models.model_selection(0), None);
    assert_eq!(models.model_selection(5), None);
    assert!(route_worker_message(&mut models, &mut tasks, WorkerMessage::TaskInfo(9, TaskInfoStatus::Cancelled, 0)).is_err());
    let row = model_row(&models.models[1]);
    assert_eq!(row.size, "1.50 KB");
    assert!(matches!(row.status, StatusCell::Text(ref t) if t == "Not Downloaded"));
    assert_eq!(model_row(&models.models[0]).size, "10 B");
    let mut tab = ModelsTab::new();
    assert_eq!(tab.selected_index(&models), None);
    tab.click(2);
    assert_eq!(tab.selected_index(&models), Some(1));
    assert_eq!(exe_name(true), "ksng-ml.exe");
    assert_eq!(exe_name(false), "ksng-ml");
}

#[test]
fn stem_results_plan_and_undo() {
    assert!(matches!(stem_plan(&None, 1), Err(UiError::InvalidCommand(ref m)) if m == "HtdemucsResultCommand without project"));
    let mut t = Track::new_type(TrackType::Audio, 3);
    let clip = Event::new_audio(
        1000,
        5000,
        250,
        AudioFile { id: 1, file_type: AudioFileType::Mp3, source: AudioFileSource::Path("/a.mp3".to_string()) },
    );
    let clip_id = clip.id;
    t.events.push(clip);
    t.events.push(Event { id: 42, linked_id: None, start_timecode: 0, end_timecode: 1, event_type: EventType::Lyric, value: None });
    let p = Some(Project::from_file(1, "s".to_string(), ProjectFile { tracks: vec![t] }));
    let plan = stem_plan(&p, clip_id).unwrap();
    assert_eq!((plan.start, plan.end, plan.offset, plan.next_order), (1000, 5000, 250, 4));
    assert!(matches!(stem_plan(&p, 42), Err(UiError::InvalidCommand(ref m))
        if m == "Could not get source event offset for ID 00000000-0000-0000-0000-00000000002a"));
    assert!(matches!(stem_plan(&p, 43), Err(UiError::InvalidCommand(ref m))
        if m == "Can't find source event ID 00000000-0000-0000-0000-00000000002b"));
    let mut tracks = p.unwrap().file.tracks;
    let extra = Track::new_type(TrackType::Audio, 4);
    let extra_id = extra.id;
    tracks.push(extra);
    drop_created_tracks(&mut tracks, &vec![extra_id]);
    assert_eq!(tracks.len(), 1);
    assert_eq!(tracks[0].order, 3);
}

#[test]
fn background_tasks_keep_the_editor_busy() {
    let mut p = PendingTasks::new();
    assert!(!p.busy());
    p.started();
    p.started();
    assert!(p.busy());
    p.finished();
    assert!(p.busy());
    p.finished();
    assert!(!p.busy());
    assert_eq!(p.count, 0);
}

#[test]
fn dropdown_shows_the_matching_option() {
    assert_eq!(option_index(&["a", "b", "b"], "b"), 1);
    assert_eq!(option_index(&["a", "b"], "z"), 0);
    assert_eq!(option_index(&[], "z"), 0);
}

#[test]
fn worker_starts_once() {
    assert_eq!(worker_start_action(false, false), WorkerStart::Start);
    assert_eq!(worker_start_action(true, true), WorkerStart::AlreadyRunning);
    assert_eq!(worker_start_action(true, false), WorkerStart::StopThenStart);
}

#[test]
fn modals_come_and_go_in_order() {
    let mut m = ModalManager::new();
    m.add(Modal::Alert(AlertModal::new("one".to_string())));
    m.add(Modal::OpenFile(OpenFileModal::new()));
    assert_eq!((m.modals.len(), m.new_modals.len()), (0, 2));
    m.open_new();
    assert_eq!((m.modals.len(), m.new_modals.len()), (2, 0));
    m.add(Modal::OpenProject(OpenProjectModal::new()));
    if let Modal::Alert(a) = &mut m.modals[0] {
        a.dismiss();
    }
    m.cleanup();
    assert_eq!(m.modals.len(), 1);
    assert!(matches!(m.modals[0], Modal::OpenFile(_)));
    assert!(!m.modals[0].should_cleanup());
    m.open_new();
    assert!(matches!(m.modals[1], Modal::OpenProject(_)));
}

#[test]
fn file_dialog_outcomes() {
    let mut f = OpenFileModal::new();
    assert_eq!(f.on_dialog(None), None);
    assert!(f.open);
    assert_eq!(f.on_dialog(Some(Some("/a.mp3".to_string()))), Some("/a.mp3".to_string()));
    assert!(f.open);
    assert_eq!(f.on_dialog(Some(None)), None);
    assert!(f.should_cleanup());
    assert_eq!(f.on_dialog(Some(Some("/b.mp3".to_string()))), None);
}

#[test]
fn export_dialog_closes_without_project() {
    let mut e = ExportVideoModal::new(Some("/out.mp4".to_string()));
    assert!(e.check_project(true));
    assert!(!e.should_cleanup());
    assert!(!e.check_project(false));
    assert!(e.should_cleanup());
    assert!(!e.check_project(true));
}
