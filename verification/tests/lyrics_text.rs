use ksng::lyrics::{Event, EventType, EventValue, LyricsEditorText, LyricsEditorTextElement, PsuedoEvent};
use ksng::lyrics_edit::{apply_changes_to_events, group_lyric_events};

fn lyric(id: u128, linked: Option<u128>, start: u32, end: u32, text: &str) -> Event {
    Event {
        id,
        linked_id: linked,
        start_timecode: start,
        end_timecode: end,
        event_type: EventType::Lyric,
        value: Some(EventValue::Lyric { text: text.to_string() }),
    }
}

fn marker(id: u128, t: EventType, start: u32, end: u32) -> Event {
    Event { id, linked_id: None, start_timecode: start, end_timecode: end, event_type: t, value: None }
}

fn values(evs: &[PsuedoEvent]) -> Vec<(Option<String>, EventType, bool)> {
    evs.iter().map(|e| (e.value.clone(), e.event_type, e.linked_to_prev)).collect()
}

#[test]
fn parse_words() {
    let evs = PsuedoEvent::from_str("hello world");
    assert_eq!(
        values(&evs),
        vec![
            (Some("hello".to_string()), EventType::Lyric, false),
            (Some("world".to_string()), EventType::Lyric, false),
        ]
    );
}

#[test]
fn parse_syllables_are_linked() {
    let evs = PsuedoEvent::from_str("hel-lo");
    assert_eq!(
        values(&evs),
        vec![
            (Some("hel".to_string()), EventType::Lyric, false),
            (Some("lo".to_string()), EventType::Lyric, true),
        ]
    );
}

#[test]
fn parse_escaped_separator() {
    let evs = PsuedoEvent::from_str("a\\-b");
    assert_eq!(values(&evs), vec![(Some("a-b".to_string()), EventType::Lyric, false)]);
}

#[test]
fn parse_escape_of_plain_char_keeps_backslash() {
    let evs = PsuedoEvent::from_str("a\\b");
    assert_eq!(values(&evs), vec![(Some("a\\b".to_string()), EventType::Lyric, false)]);
}

#[test]
fn parse_line_and_paragraph_breaks() {
    let evs = PsuedoEvent::from_str("a\nb\n\nc");
    assert_eq!(
        values(&evs),
        vec![
            (Some("a".to_string()), EventType::Lyric, false),
            (None, EventType::LineBreak, false),
            (Some("b".to_string()), EventType::Lyric, false),
            (None, EventType::ParagraphBreak, false),
            (Some("c".to_string()), EventType::Lyric, false),
        ]
    );
}

#[test]
fn parse_blocks_keep_spaces() {
    let evs = PsuedoEvent::from_str("[a b]");
    assert_eq!(values(&evs), vec![(Some("[a b]".to_string()), EventType::Lyric, false)]);
}

#[test]
fn parse_gives_synthetic_timings() {
    let evs = PsuedoEvent::from_str("x y z");
    let timings: Vec<(u32, u32)> = evs.iter().map(|e| (e.start_timecode, e.end_timecode)).collect();
    assert_eq!(timings, vec![(0, 1), (100, 101), (200, 201)]);
}

#[test]
fn parse_empty_text() {
    assert!(PsuedoEvent::from_str("").is_empty());
}

#[test]
fn to_event_keeps_a_minimum_length() {
    let p = PsuedoEvent::from_event(lyric(7, None, 0, 10, "la"));
    let e = p.to_event(1000, 1010);
    assert_eq!((e.start_timecode, e.end_timecode), (1000, 1050));
    assert_eq!(e.linked_id, None);
    let e = p.to_event(1000, 2000);
    assert_eq!((e.start_timecode, e.end_timecode), (1000, 2000));
}

#[test]
fn from_event_marks_links() {
    let p = PsuedoEvent::from_event(lyric(8, Some(7), 5, 9, "lo"));
    assert!(p.linked_to_prev);
    assert_eq!(p.value, Some("lo".to_string()));
    assert_eq!((p.start_timecode, p.end_timecode, p.id), (5, 9, 8));
}

#[test]
fn element_renders_syllables() {
    let el = LyricsEditorTextElement::new(
        EventType::Lyric,
        vec![lyric(1, None, 100, 200, "hel"), lyric(2, Some(1), 200, 350, "l-o")],
    );
    assert_eq!(el.to_text(), "hel-l\\-o");
    assert_eq!((el.start_timecode, el.end_timecode), (100, 350));
}

#[test]
fn element_renders_breaks() {
    let lb = LyricsEditorTextElement::new(EventType::LineBreak, vec![marker(3, EventType::LineBreak, 0, 1)]);
    let pb = LyricsEditorTextElement::new(EventType::ParagraphBreak, vec![marker(4, EventType::ParagraphBreak, 0, 1)]);
    assert_eq!(lb.to_text(), "\n");
    assert_eq!(pb.to_text(), "\n\n");
}

#[test]
fn grouping_and_text() {
    let evs = vec![
        lyric(1, None, 0, 100, "hel"),
        lyric(2, Some(1), 100, 200, "lo"),
        lyric(3, None, 200, 300, "world"),
        marker(4, EventType::LineBreak, 300, 301),
        lyric(5, None, 400, 500, "again"),
    ];
    let elems = group_lyric_events(&evs);
    assert_eq!(elems.len(), 4);
    let text = LyricsEditorText::new(9, elems);
    assert_eq!(text.text, "hel-lo world\nagain");
    assert!(!text.changed);
    assert_eq!(text.track_id, 9);
}

#[test]
fn unchanged_text_keeps_events() {
    let evs = vec![lyric(1, None, 0, 100, "hel"), lyric(2, Some(1), 100, 200, "lo"), lyric(3, None, 300, 400, "you")];
    let elems = group_lyric_events(&evs);
    let text = LyricsEditorText::new(9, group_lyric_events(&evs));
    let out = apply_changes_to_events(&evs, &elems, &text.text).unwrap();
    let summary: Vec<(u128, Option<u128>, u32, u32)> =
        out.iter().map(|e| (e.id, e.linked_id, e.start_timecode, e.end_timecode)).collect();
    assert_eq!(summary, vec![(1, None, 0, 100), (2, Some(1), 100, 200), (3, None, 300, 400)]);
}

#[test]
fn replaced_word_takes_its_place() {
    let evs = vec![lyric(1, None, 0, 100, "a"), lyric(2, None, 100, 300, "b"), lyric(3, None, 300, 400, "c")];
    let elems = group_lyric_events(&evs);
    let out = apply_changes_to_events(&evs, &elems, "a x c").unwrap();
    assert_eq!(out.len(), 3);
    assert_eq!(out[0].id, 1);
    assert_eq!(out[2].id, 3);
    assert_eq!((out[1].start_timecode, out[1].end_timecode), (100, 300));
    match &out[1].value {
        Some(EventValue::Lyric { text }) => assert_eq!(text, "x"),
        _ => panic!("expected a lyric"),
    }
}

#[test]
fn deleted_word_is_dropped() {
    let evs = vec![lyric(1, None, 0, 100, "a"), lyric(2, None, 100, 300, "b"), lyric(3, None, 300, 400, "c")];
    let elems = group_lyric_events(&evs);
    let out = apply_changes_to_events(&evs, &elems, "a c").unwrap();
    let ids: Vec<u128> = out.iter().map(|e| e.id).collect();
    assert_eq!(ids, vec![1, 3]);
}
