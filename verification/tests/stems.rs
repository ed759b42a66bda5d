use ksng::lyrics::{AudioFile, AudioFileSource, AudioFileType, Event, EventType, EventValue};
use ksng::ml::{TaskExtraData, TaskManager, TaskStatus};
use ksng::modals::{Modal, ModalManager};
use ksng::project::{Project, Track, TrackType};
use ksng::ui::{add_stem_tracks, join_path, HtdemucsTab};

fn project_with_clip(source: AudioFileSource) -> Project {
    let mut p = Project::new_default();
    let mut t = Track::new_type(TrackType::Audio, 0);
    t.events.push(Event {
        id: 5,
        linked_id: None,
        start_timecode: 0,
        end_timecode: 10,
        event_type: EventType::AudioClip,
        value: Some(EventValue::AudioClip {
            file: AudioFile { id: 1, file_type: AudioFileType::Wave, source },
            offset: 0,
        }),
    });
    t.events.push(Event {
        id: 6,
        linked_id: None,
        start_timecode: 0,
        end_timecode: 10,
        event_type: EventType::Lyric,
        value: Some(EventValue::Lyric { text: "x".to_string() }),
    });
    p.file.tracks.push(t);
    p
}

fn tab_with_model() -> HtdemucsTab {
    let mut tab = HtdemucsTab::new();
    tab.selected_model = Some((77, "htdemucs".to_string()));
    tab.bitrate = 128000;
    tab
}

#[test]
fn start_separation_of_selected_clip() {
    let project = Some(project_with_clip(AudioFileSource::Path("/music/song.wav".to_string())));
    let tab = tab_with_model();
    let mut tasks = TaskManager::new();
    let mut modals = ModalManager::new();
    let st = tab.start(&project, &vec![5], &None, "/tmp", &mut tasks, &mut modals).unwrap();
    assert_eq!(st.model_id, 77);
    assert_eq!(st.bit_rate, 128000);
    assert_eq!(st.input_path, "/music/song.wav");
    let id = uuid::Uuid::from_u128(st.out_id).to_string();
    assert_eq!(st.vocals_path, format!("/tmp/{id}-vocals"));
    assert_eq!(st.drums_path, format!("/tmp/{id}-drums"));
    assert_eq!(st.bass_path, format!("/tmp/{id}-bass"));
    assert_eq!(st.other_path, format!("/tmp/{id}-other"));
    assert_eq!(tasks.tasks.len(), 1);
    let task = &tasks.tasks[0];
    assert_eq!(task.id, st.task_id);
    assert_eq!(task.name, "Stem Separation");
    assert!(matches!(task.status, TaskStatus::Running { progress: 0 }));
    assert!(matches!(task.extra_data, TaskExtraData::Htdemucs { source_event_id: 5 }));
    assert_eq!(modals.new_modals.len(), 1);
    assert!(matches!(&modals.new_modals[0], Modal::Task(m) if m.task_id == st.task_id && m.open));
}

#[test]
fn start_uses_attachment_path() {
    let project = Some(project_with_clip(AudioFileSource::Attachment(9)));
    let tab = tab_with_model();
    let mut tasks = TaskManager::new();
    let mut modals = ModalManager::new();
    assert!(tab.start(&project, &vec![5], &None, "/tmp", &mut tasks, &mut modals).is_none());
    assert!(tasks.tasks.is_empty());
    let st = tab.start(&project, &vec![5], &Some("/data/att/9".to_string()), "/tmp/", &mut tasks, &mut modals).unwrap();
    assert_eq!(st.input_path, "/data/att/9");
    assert!(st.vocals_path.starts_with("/tmp/") && !st.vocals_path.starts_with("/tmp//"));
}

#[test]
fn start_needs_everything() {
    let project = Some(project_with_clip(AudioFileSource::Path("a.wav".to_string())));
    let mut tasks = TaskManager::new();
    let mut modals = ModalManager::new();
    let tab = tab_with_model();
    assert!(tab.start(&None, &vec![5], &None, "/tmp", &mut tasks, &mut modals).is_none());
    assert!(tab.start(&project, &vec![6], &None, "/tmp", &mut tasks, &mut modals).is_none());
    assert!(tab.start(&project, &vec![5, 6], &None, "/tmp", &mut tasks, &mut modals).is_none());
    assert!(HtdemucsTab::new().start(&project, &vec![5], &None, "/tmp", &mut tasks, &mut modals).is_none());
    assert!(tasks.tasks.is_empty());
    assert!(modals.new_modals.is_empty());
}

#[test]
fn join_path_adds_one_separator() {
    assert_eq!(join_path("/tmp", "x"), "/tmp/x");
    assert_eq!(join_path("/tmp/", "x"), "/tmp/x");
    assert_eq!(join_path("", "x"), "x");
}

#[test]
fn stem_results_become_tracks() {
    let mut project = Some(project_with_clip(AudioFileSource::Path("a.wav".to_string())));
    let stems = vec![(100u128, AudioFileType::Wave), (101u128, AudioFileType::Aac)];
    let ids = add_stem_tracks(&mut project, 5, &stems).unwrap();
    let p = project.as_ref().unwrap();
    assert_eq!(p.file.tracks.len(), 4);
    assert_eq!(ids, vec![p.file.tracks[2].id, p.file.tracks[3].id]);
    let t = &p.file.tracks[3];
    assert_eq!(t.order, 2);
    assert_eq!(t.events.len(), 1);
    assert_eq!(t.events[0].end_timecode, 10);
    match &t.events[0].value {
        Some(EventValue::AudioClip { file, offset }) => {
            assert_eq!(*offset, 0);
            assert!(matches!(file.source, AudioFileSource::Attachment(101)));
        }
        _ => panic!("not a clip"),
    }
    assert!(add_stem_tracks(&mut project, 6, &stems).is_err());
    assert!(add_stem_tracks(&mut project, 999, &stems).is_err());
    assert_eq!(project.as_ref().unwrap().file.tracks.len(), 4);
}
