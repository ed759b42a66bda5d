use ksng::lyrics::{Event, EventType};
use ksng::project::{Track, TrackType};
use ksng::selection::SelectionManager;
use ksng::timeline::{
    event_label, get_drag_pos, get_event_track_bounds, update_drag, DragState, DragType, TimelineState,
    TimelineUiState,
};

fn ev(id: u128, start: u32, end: u32) -> Event {
    Event { id, linked_id: None, start_timecode: start, end_timecode: end, event_type: EventType::Lyric, value: None }
}

fn track_with(events: Vec<Event>) -> Track {
    let mut t = Track::new_type(TrackType::Lyrics, 0);
    t.events = events;
    t
}

#[test]
fn drag_pos_is_held_between_limits() {
    assert_eq!(get_drag_pos(50, 100, 1000, &[], 10), 100);
    assert_eq!(get_drag_pos(5000, 100, 1000, &[], 10), 1000);
    assert_eq!(get_drag_pos(500, 100, 1000, &[], 10), 500);
}

#[test]
fn drag_pos_snaps_to_first_near_point() {
    assert_eq!(get_drag_pos(500, 100, 1000, &[900, 505, 498], 10), 505);
    assert_eq!(get_drag_pos(500, 100, 1000, &[520], 10), 500);
    // A snap point beyond the limits is held within them.
    assert_eq!(get_drag_pos(105, 100, 1000, &[95], 20), 100);
}

#[test]
fn track_bounds_skip_dragged_events() {
    let tracks = vec![track_with(vec![ev(1, 0, 100), ev(2, 200, 300), ev(3, 500, 600)])];
    assert_eq!(get_event_track_bounds(&tracks, &vec![2], 2), (100, 500));
    assert_eq!(get_event_track_bounds(&tracks, &vec![2, 3], 2), (100, u32::MAX));
    assert_eq!(get_event_track_bounds(&tracks, &vec![1], 1), (0, 200));
    assert_eq!(get_event_track_bounds(&tracks, &vec![], 42), (0, u32::MAX));
}

#[test]
fn drag_state_orders_by_start_and_drops_repeats() {
    let tracks = vec![track_with(vec![ev(1, 0, 100), ev(2, 200, 300), ev(3, 500, 600)])];
    let d = DragState::new(&tracks, DragType::MoveEvent, vec![3, 1, 3, 99]);
    assert_eq!(d.events, vec![1, 3]);
    assert_eq!(d.timings, vec![(0, 100), (500, 600)]);
    assert_eq!(d.orig_timings, d.timings);
}

#[test]
fn drag_start_edge_keeps_minimum_length() {
    let tracks = vec![track_with(vec![ev(1, 0, 100), ev(2, 200, 300)])];
    let mut d = DragState::new(&tracks, DragType::Start, vec![2]);
    update_drag(&mut d, &tracks, 290, 0, 10_000, 0);
    assert_eq!(d.timings, vec![(200, 300)]);
    update_drag(&mut d, &tracks, 50, 0, 10_000, 0);
    assert_eq!(d.timings, vec![(100, 300)]);
    update_drag(&mut d, &tracks, 150, 0, 10_000, 0);
    assert_eq!(d.timings, vec![(150, 300)]);
}

#[test]
fn drag_end_edge_stops_at_next_event() {
    let tracks = vec![track_with(vec![ev(1, 0, 100), ev(2, 200, 300)])];
    let mut d = DragState::new(&tracks, DragType::End, vec![1]);
    update_drag(&mut d, &tracks, 1000, 0, 10_000, 0);
    assert_eq!(d.timings, vec![(0, 200)]);
    update_drag(&mut d, &tracks, 10, 0, 10_000, 0);
    assert_eq!(d.timings, vec![(0, 100)]);
}

#[test]
fn moving_events_keeps_their_spacing() {
    let tracks = vec![track_with(vec![ev(1, 0, 100), ev(2, 200, 300), ev(3, 400, 500), ev(4, 1000, 1100)])];
    let mut d = DragState::new(&tracks, DragType::MoveEvent, vec![2, 3]);
    // The mouse moves 100 ms right of where the drag began.
    update_drag(&mut d, &tracks, 1100, 1000, 50_000, 0);
    assert_eq!(d.timings, vec![(300, 400), (500, 600)]);
    // Far right: held so the last event ends at the next event's start.
    update_drag(&mut d, &tracks, 9000, 1000, 50_000, 0);
    assert_eq!(d.timings, vec![(700, 800), (900, 1000)]);
}

#[test]
fn press_and_release_selects_event() {
    let mut t = TimelineState::new();
    let mut sel = SelectionManager::new();
    assert!(t.pointer_step(true, false, true, true));
    assert_eq!(t.state, TimelineUiState::Pending);
    let cmd = t.release(&mut sel, true, Some(7), true, false, &vec![]);
    assert!(cmd.is_none());
    assert_eq!(t.state, TimelineUiState::Idle);
    assert!(sel.is_event_selected(7));
}

#[test]
fn box_selection_toggles_boxed_events() {
    let mut t = TimelineState::new();
    let mut sel = SelectionManager::new();
    sel.select_event(1, true);
    t.pointer_step(true, false, true, true);
    t.begin_move(true, 0);
    assert_eq!(t.state, TimelineUiState::Multiselect);
    t.release(&mut sel, false, None, true, false, &vec![2, 3]);
    assert_eq!(t.state, TimelineUiState::Idle);
    assert!(!sel.is_event_selected(1));
    assert!(sel.is_event_selected(2) && sel.is_event_selected(3));
}

#[test]
fn drag_release_gives_timings_command() {
    let tracks = vec![track_with(vec![ev(1, 0, 100), ev(2, 200, 300)])];
    let mut t = TimelineState::new();
    let mut sel = SelectionManager::new();
    t.pointer_step(true, false, true, true);
    t.hover_event(&tracks, DragType::End, 1, &sel);
    t.begin_move(true, 40);
    assert_eq!(t.state, TimelineUiState::Dragging);
    assert!(t.is_dragging);
    assert_eq!(t.drag_start, 40);
    let cmd = t.release(&mut sel, false, None, true, false, &vec![]).unwrap();
    assert_eq!(cmd.event_ids, vec![1]);
    assert_eq!(cmd.new_timings, vec![(0, 100)]);
    assert!(t.drag_state.is_none());
    assert!(!t.is_dragging);
}

#[test]
fn event_labels() {
    assert_eq!(event_label(EventType::Lyric, Some("la")), "Lyric\n'la'");
    assert_eq!(event_label(EventType::AudioClip, Some("song.mp3")), "AudioClip\nsong.mp3");
    assert_eq!(event_label(EventType::ParagraphBreak, None), "ParagraphBreak");
}
