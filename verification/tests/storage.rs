use ksng::storage::project_dir_name;
use ksng::storage::{ProjectEntry, ProjectManifest};
use ksng::ui_event::UiError;

fn names(m: &ProjectManifest) -> Vec<String> {
    m.entries.iter().map(|e| e.name.clone()).collect()
}

#[test]
fn uuid_is_written_hyphenated() {
    assert_eq!(project_dir_name(0x67e5504410b1426f9247bb680e5fe0c8), "67e55044-10b1-426f-9247-bb680e5fe0c8");
    assert_eq!(project_dir_name(0), "00000000-0000-0000-0000-000000000000");
}

#[test]
fn saving_adds_and_orders_latest_first() {
    let mut m = ProjectManifest::new();
    m.record_save(1, &Some("one".to_string()), (100, 0));
    m.record_save(2, &Some("two".to_string()), (200, 0));
    m.record_save(3, &None, (150, 5));
    assert_eq!(names(&m), vec!["two".to_string(), "".to_string(), "one".to_string()]);
    m.record_save(1, &Some("uno".to_string()), (300, 0));
    assert_eq!(names(&m), vec!["uno".to_string(), "two".to_string(), "".to_string()]);
    assert_eq!(m.entries[0].last_modified, (300, 0));
}

#[test]
fn equal_times_keep_their_order() {
    let mut m = ProjectManifest {
        entries: vec![
            ProjectEntry { id: 1, name: "a".to_string(), last_modified: (5, 0) },
            ProjectEntry { id: 2, name: "b".to_string(), last_modified: (9, 0) },
            ProjectEntry { id: 3, name: "c".to_string(), last_modified: (5, 0) },
        ],
    };
    m.sort_latest_first();
    assert_eq!(names(&m), vec!["b".to_string(), "a".to_string(), "c".to_string()]);
}

#[test]
fn removing_drops_every_entry_of_project() {
    let mut m = ProjectManifest {
        entries: vec![
            ProjectEntry { id: 1, name: "a".to_string(), last_modified: (5, 0) },
            ProjectEntry { id: 2, name: "b".to_string(), last_modified: (4, 0) },
        ],
    };
    m.remove(1);
    assert_eq!(names(&m), vec!["b".to_string()]);
    m.remove(7);
    assert_eq!(names(&m), vec!["b".to_string()]);
}

#[test]
fn missing_project_is_an_io_error() {
    let m = ProjectManifest::new();
    match m.entry_for(0x67e5504410b1426f9247bb680e5fe0c8) {
        Err(UiError::Io(msg)) => assert_eq!(msg, "Missing project file 67e55044-10b1-426f-9247-bb680e5fe0c8"),
        _ => panic!("expected an error"),
    }
    let mut m = ProjectManifest::new();
    m.record_save(4, &Some("four".to_string()), (1, 0));
    match m.entry_for(4) {
        Ok((id, name)) => assert_eq!((id, name.as_str()), (4, "four")),
        Err(_) => panic!("expected the entry"),
    }
}

#[test]
fn saved_projects_read_back_and_removed_ones_do_not() {
    let mut m = ProjectManifest::new();
    m.record_save(1, &Some("one".to_string()), (10, 0));
    m.record_save(2, &Some("two".to_string()), (20, 0));
    m.record_save(1, &Some("renamed".to_string()), (30, 0));
    assert_eq!(m.entries.len(), 2);
    match m.entry_for(1) {
        Ok((id, name)) => assert_eq!((id, name.as_str()), (1, "renamed")),
        Err(_) => panic!("expected the entry"),
    }
    m.remove(1);
    assert!(m.entry_for(1).is_err());
    match m.entry_for(2) {
        Ok((_, name)) => assert_eq!(name, "two"),
        Err(_) => panic!("expected the entry"),
    }
}
