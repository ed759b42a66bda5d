use vstd::prelude::*;

use crate::ids::fresh_id;
use crate::text::{chars_of, is_whitespace, is_whitespace_spec, string_from_chars};

verus! {

/// Escapes the character after it in lyrics text.
pub const ESCAPE_CHAR: char = '\\';

/// Separates two syllables of one word in lyrics text.
pub const SYLLABLE_SEPARATOR: char = '-';

/// Opens a block, inside which white space belongs to the syllable.
pub const BLOCK_OPEN: char = '[';

/// Closes a block.
pub const BLOCK_CLOSE: char = ']';

/// The kind of an event on a track.
#[derive(Debug, Clone, Copy, PartialEq, Eq, Hash, PartialOrd, Ord, Structural)]
pub enum EventType {
    Lyric,
    LineBreak,
    ParagraphBreak,
    AudioClip,
    Image,
}

/// What lyrics text says of one event: its type, its text, and whether it
/// continues the syllable before it.
pub struct LyricToken {
    pub event_type: EventType,
    pub value: Option<Seq<char>>,
    pub linked: bool,
}

/// An event of a lyrics track as the editor sees it: either taken from the
/// project or made up from edited text so that it can take part in a diff.
pub struct PsuedoEvent {
    pub value: Option<String>,
    pub event_type: EventType,
    pub linked_to_prev: bool,
    pub start_timecode: u32,
    pub end_timecode: u32,
    pub id: u128,
}

pub open spec fn opt_view(o: Option<String>) -> Option<Seq<char>> {
    match o {
        Some(s) => Some(s@),
        None => None,
    }
}

impl PsuedoEvent {
    pub open spec fn token(self) -> LyricToken {
        LyricToken { event_type: self.event_type, value: opt_view(self.value), linked: self.linked_to_prev }
    }
}

/// The start of the `i`-th event made up from text: `i * 100` milliseconds,
/// taken modulo 2^32, as a cast of the index to `u32` does.
pub open spec fn synthetic_start(i: int) -> int {
    (i * 100) % 0x1_0000_0000
}

pub open spec fn has_synthetic_timing(e: PsuedoEvent, i: int) -> bool {
    &&& e.start_timecode == synthetic_start(i)
    &&& e.end_timecode == synthetic_start(i) + 1
}

/// The state of the lyrics reader between two characters.
pub struct ParseState {
    pub events: Seq<LyricToken>,
    pub line_count: nat,
    pub block_level: int,
    pub in_lyric: bool,
    pub value: Seq<char>,
    pub linked: bool,
    pub escaped: bool,
}

pub open spec fn start_state() -> ParseState {
    ParseState {
        events: Seq::empty(),
        line_count: 0,
        block_level: 0,
        in_lyric: false,
        value: Seq::empty(),
        linked: false,
        escaped: false,
    }
}

pub open spec fn lyric_token(value: Seq<char>, linked: bool) -> LyricToken {
    LyricToken { event_type: EventType::Lyric, value: Some(value), linked }
}

pub open spec fn break_token(t: EventType) -> LyricToken {
    LyricToken { event_type: t, value: None, linked: false }
}

/// Ends the syllable being read: it becomes a lyric event, and the next one
/// starts empty and unlinked.
pub open spec fn end_syllable(st: ParseState) -> ParseState {
    ParseState {
        events: st.events.push(lyric_token(st.value, st.linked)),
        value: Seq::empty(),
        linked: false,
        ..st
    }
}

/// What reading the character `c` does to the state.
pub open spec fn parse_step(st: ParseState, c: char) -> ParseState {
    if c == '\n' {
        let st1 = if st.in_lyric {
            ParseState { in_lyric: false, ..end_syllable(st) }
        } else {
            st
        };
        if st1.line_count + 1 > 1 {
            ParseState {
                events: st1.events.push(break_token(EventType::ParagraphBreak)),
                line_count: 0,
                ..st1
            }
        } else {
            ParseState { line_count: st1.line_count + 1, ..st1 }
        }
    } else if c == '\r' {
        st
    } else {
        let st1 = if st.line_count > 0 {
            ParseState {
                events: st.events.push(break_token(EventType::LineBreak)),
                line_count: 0,
                ..st
            }
        } else {
            st
        };
        if is_whitespace_spec(c) {
            if st1.block_level <= 0 {
                if st1.in_lyric {
                    end_syllable(st1)
                } else {
                    st1
                }
            } else {
                ParseState { value: st1.value.push(c), ..st1 }
            }
        } else if c == ESCAPE_CHAR && !st1.escaped {
            ParseState { escaped: true, ..st1 }
        } else if st1.escaped {
            let v = if c != ESCAPE_CHAR && c != SYLLABLE_SEPARATOR && c != BLOCK_OPEN && c
                != BLOCK_CLOSE {
                st1.value.push(ESCAPE_CHAR)
            } else {
                st1.value
            };
            ParseState { escaped: false, in_lyric: true, value: v.push(c), ..st1 }
        } else if c == SYLLABLE_SEPARATOR {
            if st1.in_lyric {
                ParseState { in_lyric: false, linked: true, ..end_syllable(st1) }
            } else {
                ParseState { in_lyric: false, ..st1 }
            }
        } else {
            let bl = if c == BLOCK_OPEN {
                st1.block_level + 1
            } else if c == BLOCK_CLOSE {
                st1.block_level - 1
            } else {
                st1.block_level
            };
            ParseState { block_level: bl, in_lyric: true, value: st1.value.push(c), ..st1 }
        }
    }
}

/// The state after reading all of `s` from the start state.
pub open spec fn parse_chars(s: Seq<char>) -> ParseState
    decreases s.len(),
{
    if s.len() == 0 {
        start_state()
    } else {
        parse_step(parse_chars(s.drop_last()), s.last())
    }
}

/// The events that the end of the text leaves: a syllable still being read
/// becomes a last lyric event.
pub open spec fn parse_finish(st: ParseState) -> Seq<LyricToken> {
    if st.in_lyric {
        st.events.push(lyric_token(st.value, st.linked))
    } else {
        st.events
    }
}

/// The events that lyrics text `s` describes.
pub open spec fn parse_lyrics(s: Seq<char>) -> Seq<LyricToken> {
    parse_finish(parse_chars(s))
}

proof fn lemma_synthetic_start_even(i: int)
    requires
        i >= 0,
    ensures
        synthetic_start(i) % 2 == 0,
        0 <= synthetic_start(i) < 0xffff_ffff,
{
    let x = i * 100;
    vstd::arithmetic::div_mod::lemma_mod_mod(x, 2, 0x8000_0000);
    assert(x == (i * 50) * 2);
    vstd::arithmetic::div_mod::lemma_mod_multiples_basic(i * 50, 2);
    assert(x % 0x1_0000_0000 < 0x1_0000_0000) by {
        vstd::arithmetic::div_mod::lemma_mod_pos_bound(x, 0x1_0000_0000);
    }
    assert(x >= 0) by (nonlinear_arith)
        requires
            i >= 0,
            x == i * 100,
    ;
    vstd::arithmetic::div_mod::lemma_mod_pos_bound(x, 0x1_0000_0000);
}

/// Appends an event made up from text, with the timing that its position
/// gives it and a fresh identifier.
fn push_synthetic(events: &mut Vec<PsuedoEvent>, event_type: EventType, text: Option<String>, linked: bool)
    ensures
        final(events)@.len() == old(events)@.len() + 1,
        forall|j: int| 0 <= j < old(events)@.len() ==> final(events)@[j] == old(events)@[j],
        final(events)@.last().token() == (LyricToken { event_type, value: opt_view(text), linked }),
        has_synthetic_timing(final(events)@.last(), old(events)@.len() as int),
{
    let i = events.len();
    proof {
        lemma_synthetic_start_even(i as int);
    }
    let start: u32 = ((i as u128 * 100) % 0x1_0000_0000) as u32;
    let ev = PsuedoEvent {
        value: text,
        event_type,
        linked_to_prev: linked,
        start_timecode: start,
        end_timecode: start + 1,
        id: fresh_id(),
    };
    events.push(ev);
}

impl PsuedoEvent {
    /// Reads lyrics text into events, with made-up timings and identifiers.
    ///
    /// White space ends a syllable (outside `[` `]` blocks), `-` splits a
    /// word into linked syllables, a line break becomes a line-break event
    /// and an empty line a paragraph-break event, and `\` escapes the next
    /// character.
    #[verifier::rlimit(60)]
    pub fn from_str(s: &str) -> (events: Vec<PsuedoEvent>)
        ensures
            events@.len() == parse_lyrics(s@).len(),
            forall|i: int|
                0 <= i < events@.len() ==> #[trigger] events@[i].token() == parse_lyrics(s@)[i]
                    && has_synthetic_timing(events@[i], i),
    {
        let chars = chars_of(s);
        let mut events: Vec<PsuedoEvent> = Vec::new();
        let mut line_count: u8 = 0;
        let mut block_level: i128 = 0;
        let mut in_lyric = false;
        let mut value: Vec<char> = Vec::new();
        let mut linked = false;
        let mut is_escaped = false;
        let mut i: usize = 0;
        while i < chars.len()
            invariant
                chars@ == s@,
                0 <= i <= chars@.len(),
                ({
                    let st = parse_chars(chars@.take(i as int));
                    &&& events@.len() == st.events.len()
                    &&& forall|j: int|
                        0 <= j < events@.len() ==> #[trigger] events@[j].token() == st.events[j]
                            && has_synthetic_timing(events@[j], j)
                    &&& line_count == st.line_count
                    &&& block_level == st.block_level
                    &&& in_lyric == st.in_lyric
                    &&& value@ == st.value
                    &&& linked == st.linked
                    &&& is_escaped == st.escaped
                }),
                line_count <= 1,
                -(i as int) <= block_level <= i,
            decreases chars@.len() - i,
        {
            let c = chars[i];
            let ghost prev = parse_chars(chars@.take(i as int));
            proof {
                assert(chars@.take(i + 1).drop_last() == chars@.take(i as int));
                assert(chars@.take(i + 1).last() == c);
            }
            if c == '\n' {
                if in_lyric {
                    push_synthetic(&mut events, EventType::Lyric, Some(string_from_chars(&value)), linked);
                    linked = false;
                    value = Vec::new();
                    in_lyric = false;
                }
                if line_count + 1 > 1 {
                    push_synthetic(&mut events, EventType::ParagraphBreak, None, false);
                    line_count = 0;
                } else {
                    line_count = line_count + 1;
                }
            } else if c == '\r' {
            } else {
                if line_count > 0 {
                    push_synthetic(&mut events, EventType::LineBreak, None, false);
                    line_count = 0;
                }
                if is_whitespace(c) {
                    if block_level <= 0 {
                        if in_lyric {
                            push_synthetic(&mut events, EventType::Lyric, Some(string_from_chars(&value)), linked);
                            linked = false;
                            value = Vec::new();
                        }
                    } else {
                        value.push(c);
                    }
                } else if c == ESCAPE_CHAR && !is_escaped {
                    is_escaped = true;
                } else if is_escaped {
                    is_escaped = false;
                    if c != ESCAPE_CHAR && c != SYLLABLE_SEPARATOR && c != BLOCK_OPEN && c != BLOCK_CLOSE {
                        value.push(ESCAPE_CHAR);
                    }
                    in_lyric = true;
                    value.push(c);
                } else if c == SYLLABLE_SEPARATOR {
                    if in_lyric {
                        push_synthetic(&mut events, EventType::Lyric, Some(string_from_chars(&value)), linked);
                        value = Vec::new();
                        linked = true;
                    }
                    in_lyric = false;
                } else {
                    if c == BLOCK_OPEN {
                        block_level = block_level + 1;
                    } else if c == BLOCK_CLOSE {
                        block_level = block_level - 1;
                    }
                    in_lyric = true;
                    value.push(c);
                }
            }
            i = i + 1;
            proof {
                let st = parse_chars(chars@.take(i as int));
                assert(st == parse_step(prev, c));
                assert(events@.len() == st.events.len());
                assert forall|j: int| 0 <= j < events@.len() implies #[trigger] events@[j].token()
                    == st.events[j] && has_synthetic_timing(events@[j], j) by {}
            }
        }
        if in_lyric {
            push_synthetic(&mut events, EventType::Lyric, Some(string_from_chars(&value)), linked);
        }
        proof {
            assert(chars@.take(chars@.len() as int) == chars@);
        }
        events
    }
}


/// The payload of an event, as far as the editor reads it.
pub enum EventValue {
    /// The text of a lyric event.
    Lyric { text: String },
    /// An audio clip of `file`, which starts `offset` milliseconds into it.
    AudioClip { file: AudioFile, offset: u32 },
}

/// The encoding of an audio file.
#[derive(Debug, Clone, Copy, PartialEq, Eq, Structural)]
pub enum AudioFileType {
    Mp3,
    Flac,
    Ogg,
    Wave,
    Aac,
}

/// Where an audio file's data is: a path on disk, or an attachment of the
/// project.
pub enum AudioFileSource {
    Path(String),
    Attachment(u128),
}

/// An audio file that clips play from.
pub struct AudioFile {
    pub id: u128,
    pub file_type: AudioFileType,
    pub source: AudioFileSource,
}

impl AudioFile {
    /// A copy of this file reference.
    pub fn duplicate(&self) -> (f: AudioFile)
        ensures
            f == *self,
    {
        AudioFile {
            id: self.id,
            file_type: self.file_type,
            source: match &self.source {
                AudioFileSource::Path(p) => AudioFileSource::Path(p.clone()),
                AudioFileSource::Attachment(a) => AudioFileSource::Attachment(*a),
            },
        }
    }
}

/// An event on a track of a project: a lyric syllable, a break, or a clip.
pub struct Event {
    pub id: u128,
    pub linked_id: Option<u128>,
    pub start_timecode: u32,
    pub end_timecode: u32,
    pub event_type: EventType,
    pub value: Option<EventValue>,
}

/// The lyric text of an event's payload, if it has one.
pub open spec fn lyric_text(v: Option<EventValue>) -> Option<Seq<char>> {
    match v {
        Some(EventValue::Lyric { text }) => Some(text@),
        _ => None,
    }
}

/// Adds two timecodes, stopping at the largest one.
pub open spec fn tc_add(a: u32, b: u32) -> u32 {
    if a + b > u32::MAX {
        u32::MAX
    } else {
        (a + b) as u32
    }
}

/// Subtracts two timecodes, stopping at zero.
pub open spec fn tc_sub(a: u32, b: u32) -> u32 {
    if a < b {
        0
    } else {
        (a - b) as u32
    }
}

impl PsuedoEvent {
    /// The editor's view of a project event.
    pub fn from_event(ev: Event) -> (p: PsuedoEvent)
        ensures
            opt_view(p.value) == lyric_text(ev.value),
            p.event_type == ev.event_type,
            p.id == ev.id,
            p.start_timecode == ev.start_timecode,
            p.end_timecode == ev.end_timecode,
            p.linked_to_prev == ev.linked_id.is_some(),
    {
        let value = match ev.value {
            Some(EventValue::Lyric { text }) => Some(text),
            _ => None,
        };
        PsuedoEvent {
            value,
            event_type: ev.event_type,
            id: ev.id,
            start_timecode: ev.start_timecode,
            end_timecode: ev.end_timecode,
            linked_to_prev: ev.linked_id.is_some(),
        }
    }

    /// A project event for this one, placed at `real_start`..`real_end` and
    /// at least 50 milliseconds long; it is linked to nothing.
    pub fn to_event(&self, real_start: u32, real_end: u32) -> (ev: Event)
        ensures
            ev == to_event_spec(*self, real_start, real_end),
    {
        let min_end = real_start.saturating_add(50);
        let value = match &self.value {
            Some(text) => Some(EventValue::Lyric { text: text.clone() }),
            None => None,
        };
        Event {
            id: self.id,
            linked_id: None,
            start_timecode: real_start,
            end_timecode: if real_end >= min_end {
                real_end
            } else {
                min_end
            },
            event_type: self.event_type,
            value,
        }
    }

    /// A copy of this event.
    pub fn duplicate(&self) -> (p: PsuedoEvent)
        ensures
            p == *self,
    {
        PsuedoEvent {
            value: match &self.value {
                Some(t) => Some(t.clone()),
                None => None,
            },
            event_type: self.event_type,
            linked_to_prev: self.linked_to_prev,
            start_timecode: self.start_timecode,
            end_timecode: self.end_timecode,
            id: self.id,
        }
    }
}

/// The project event that `to_event` makes of `p`.
pub open spec fn to_event_spec(p: PsuedoEvent, real_start: u32, real_end: u32) -> Event {
    Event {
        id: p.id,
        linked_id: None,
        start_timecode: real_start,
        end_timecode: if real_end >= tc_add(real_start, 50) {
            real_end
        } else {
            tc_add(real_start, 50)
        },
        event_type: p.event_type,
        value: match p.value {
            Some(t) => Some(EventValue::Lyric { text: t }),
            None => None,
        },
    }
}

impl Event {
    /// A new audio clip event of `file` from `start` to `end`, starting
    /// `offset` milliseconds into the file, with a fresh identifier.
    pub fn new_audio(start: u32, end: u32, offset: u32, file: AudioFile) -> (e: Event)
        ensures
            e.linked_id is None,
            e.start_timecode == start,
            e.end_timecode == end,
            e.event_type == EventType::AudioClip,
            e.value == Some(EventValue::AudioClip { file, offset }),
    {
        Event {
            id: fresh_id(),
            linked_id: None,
            start_timecode: start,
            end_timecode: end,
            event_type: EventType::AudioClip,
            value: Some(EventValue::AudioClip { file, offset }),
        }
    }

    /// A copy of this event.
    pub fn duplicate(&self) -> (e: Event)
        ensures
            e == *self,
    {
        Event {
            id: self.id,
            linked_id: self.linked_id,
            start_timecode: self.start_timecode,
            end_timecode: self.end_timecode,
            event_type: self.event_type,
            value: match &self.value {
                Some(EventValue::Lyric { text }) => Some(EventValue::Lyric { text: text.clone() }),
                Some(EventValue::AudioClip { file, offset }) => Some(
                    EventValue::AudioClip { file: file.duplicate(), offset: *offset },
                ),
                None => None,
            },
        }
    }
}

/// How one character of a syllable is written: `-` is escaped.
pub open spec fn escape_char(c: char) -> Seq<char> {
    if c == SYLLABLE_SEPARATOR {
        seq![ESCAPE_CHAR, c]
    } else {
        seq![c]
    }
}

/// How a syllable's text is written.
pub open spec fn escape_syllable(t: Seq<char>) -> Seq<char>
    decreases t.len(),
{
    if t.len() == 0 {
        Seq::empty()
    } else {
        escape_syllable(t.drop_last()) + escape_char(t.last())
    }
}

/// Whether any of `evs` has text.
pub open spec fn has_text(evs: Seq<PsuedoEvent>) -> bool
    decreases evs.len(),
{
    if evs.len() == 0 {
        false
    } else {
        has_text(evs.drop_last()) || evs.last().value is Some
    }
}

/// The syllables of `evs` that have text, escaped and joined by `-`.
pub open spec fn render_syllables(evs: Seq<PsuedoEvent>) -> Seq<char>
    decreases evs.len(),
{
    if evs.len() == 0 {
        Seq::empty()
    } else {
        let prev = render_syllables(evs.drop_last());
        match evs.last().value {
            None => prev,
            Some(t) => if has_text(evs.drop_last()) {
                prev.push(SYLLABLE_SEPARATOR) + escape_syllable(t@)
            } else {
                escape_syllable(t@)
            },
        }
    }
}

/// How an element of lyrics text is written: a line break as one new line,
/// a paragraph break as two, a lyric as its syllables, anything else as
/// nothing.
pub open spec fn render_element(t: EventType, evs: Seq<PsuedoEvent>) -> Seq<char> {
    match t {
        EventType::LineBreak => seq!['\n'],
        EventType::ParagraphBreak => seq!['\n', '\n'],
        EventType::Lyric => render_syllables(evs),
        _ => Seq::empty(),
    }
}

proof fn lemma_render_syllables_no_text(evs: Seq<PsuedoEvent>)
    requires
        !has_text(evs),
    ensures
        render_syllables(evs) == Seq::<char>::empty(),
    decreases evs.len(),
{
    if evs.len() > 0 {
        lemma_render_syllables_no_text(evs.drop_last());
    }
}

/// One element of the lyrics text: a word made of linked syllables, or a
/// single other event.
pub struct LyricsEditorTextElement {
    pub event_type: EventType,
    pub start_timecode: u32,
    pub end_timecode: u32,
    pub events: Vec<PsuedoEvent>,
}

/// The earliest start among `evs`, or 0 for none.
pub open spec fn min_start(evs: Seq<Event>) -> u32
    decreases evs.len(),
{
    if evs.len() == 0 {
        0
    } else if evs.len() == 1 {
        evs[0].start_timecode
    } else {
        let m = min_start(evs.drop_last());
        if evs.last().start_timecode < m {
            evs.last().start_timecode
        } else {
            m
        }
    }
}

/// The latest end among `evs`, or 0 for none.
pub open spec fn max_end(evs: Seq<Event>) -> u32
    decreases evs.len(),
{
    if evs.len() == 0 {
        0
    } else {
        let m = max_end(evs.drop_last());
        if evs.last().end_timecode > m {
            evs.last().end_timecode
        } else {
            m
        }
    }
}

/// What the editor keeps of `ev`.
pub open spec fn view_of_event(ev: Event, p: PsuedoEvent) -> bool {
    &&& opt_view(p.value) == lyric_text(ev.value)
    &&& p.event_type == ev.event_type
    &&& p.id == ev.id
    &&& p.start_timecode == ev.start_timecode
    &&& p.end_timecode == ev.end_timecode
    &&& p.linked_to_prev == ev.linked_id.is_some()
}

impl LyricsEditorTextElement {
    pub open spec fn rendered(self) -> Seq<char> {
        render_element(self.event_type, self.events@)
    }

    /// An element of type `event_type` made of `events`, spanning from the
    /// earliest start to the latest end among them.
    pub fn new(event_type: EventType, events: Vec<Event>) -> (e: LyricsEditorTextElement)
        ensures
            e.event_type == event_type,
            e.start_timecode == min_start(events@),
            e.end_timecode == max_end(events@),
            e.events@.len() == events@.len(),
            forall|i: int| 0 <= i < events@.len() ==> view_of_event(events@[i], #[trigger] e.events@[i]),
    {
        let ghost orig = events@;
        let mut start: u32 = 0;
        let mut end: u32 = 0;
        let mut out: Vec<PsuedoEvent> = Vec::new();
        let mut rest = events;
        let mut k: usize = 0;
        let n = rest.len();
        // Take the events from the back so that each one is moved, not cloned.
        let mut reversed: Vec<PsuedoEvent> = Vec::new();
        while rest.len() > 0
            invariant
                rest@ == orig.take(n - k),
                n == orig.len(),
                k <= n,
                reversed@.len() == k,
                forall|j: int| 0 <= j < k ==> view_of_event(orig[n - 1 - j], #[trigger] reversed@[j]),
            decreases rest@.len(),
        {
            let ev = rest.pop().unwrap();
            proof {
                assert(orig.take(n - k).drop_last() == orig.take(n - k - 1));
            }
            reversed.push(PsuedoEvent::from_event(ev));
            k = k + 1;
        }
        while reversed.len() > 0
            invariant
                reversed@.len() + out@.len() == n,
                n == orig.len(),
                forall|j: int| 0 <= j < reversed@.len() ==> view_of_event(orig[n - 1 - j], #[trigger] reversed@[j]),
                forall|j: int| 0 <= j < out@.len() ==> view_of_event(orig[j], #[trigger] out@[j]),
                start == min_start(orig.take(out@.len() as int)),
                end == max_end(orig.take(out@.len() as int)),
            decreases reversed@.len(),
        {
            let p = reversed.pop().unwrap();
            let ghost m = out@.len() as int;
            proof {
                assert(orig.take(m + 1).drop_last() == orig.take(m));
            }
            if out.len() == 0 || p.start_timecode < start {
                start = p.start_timecode;
            }
            if p.end_timecode > end {
                end = p.end_timecode;
            }
            out.push(p);
        }
        proof {
            assert(orig.take(n as int) == orig);
        }
        LyricsEditorTextElement { event_type, start_timecode: start, end_timecode: end, events: out }
    }

    /// Writes the element as lyrics text.
    pub fn to_text(&self) -> (s: String)
        ensures
            s@ == self.rendered(),
    {
        let mut out: Vec<char> = Vec::new();
        self.render_into(&mut out);
        string_from_chars(&out)
    }

    /// Appends the element, written as lyrics text, to `out`.
    pub fn render_into(&self, out: &mut Vec<char>)
        ensures
            final(out)@ == old(out)@ + self.rendered(),
    {
        match self.event_type {
            EventType::LineBreak => {
                out.push('\n');
                assert(final(out)@ =~= old(out)@ + seq!['\n']);
            }
            EventType::ParagraphBreak => {
                out.push('\n');
                out.push('\n');
                assert(final(out)@ =~= old(out)@ + seq!['\n', '\n']);
            }
            EventType::Lyric => {
                let mut first = true;
                let mut i: usize = 0;
                let ghost base = out@;
                while i < self.events.len()
                    invariant
                        0 <= i <= self.events@.len(),
                        out@ == base + render_syllables(self.events@.take(i as int)),
                        first == !has_text(self.events@.take(i as int)),
                    decreases self.events@.len() - i,
                {
                    let ghost before = out@;
                    proof {
                        assert(self.events@.take(i + 1).drop_last() == self.events@.take(i as int));
                        assert(self.events@.take(i + 1).last() == self.events@[i as int]);
                    }
                    match &self.events[i].value {
                        None => {},
                        Some(text) => {
                            if !first {
                                out.push(SYLLABLE_SEPARATOR);
                            } else {
                                first = false;
                            }
                            let ghost mid = out@;
                            let chars = chars_of(text.as_str());
                            let mut j: usize = 0;
                            while j < chars.len()
                                invariant
                                    0 <= j <= chars@.len(),
                                    chars@ == text@,
                                    out@ == mid + escape_syllable(chars@.take(j as int)),
                                decreases chars@.len() - j,
                            {
                                proof {
                                    assert(chars@.take(j + 1).drop_last() == chars@.take(j as int));
                                }
                                let ghost o = out@;
                                if chars[j] == SYLLABLE_SEPARATOR {
                                    out.push(ESCAPE_CHAR);
                                }
                                out.push(chars[j]);
                                j = j + 1;
                                proof {
                                    assert(out@ =~= o + escape_char(chars@[j - 1]));
                                }
                            }
                            proof {
                                assert(chars@.take(chars@.len() as int) == chars@);
                                let sep = if has_text(self.events@.take(i as int)) {
                                    seq![SYLLABLE_SEPARATOR]
                                } else {
                                    Seq::<char>::empty()
                                };
                                assert(mid =~= before + sep);
                                let evs1 = self.events@.take(i + 1);
                                assert(evs1.last().value == Some(*text));
                                assert(render_syllables(evs1) == (if has_text(evs1.drop_last()) {
                                    render_syllables(evs1.drop_last()).push(SYLLABLE_SEPARATOR)
                                        + escape_syllable(text@)
                                } else {
                                    escape_syllable(text@)
                                }));
                                assert(out@ == mid + escape_syllable(text@));
                                assert(before == base + render_syllables(self.events@.take(i as int)));
                                if has_text(evs1.drop_last()) {
                                    assert(out@ =~= base + render_syllables(self.events@.take(i + 1)));
                                } else {
                                    assert(render_syllables(self.events@.take(i as int)) =~= Seq::<char>::empty()) by {
                                        lemma_render_syllables_no_text(self.events@.take(i as int));
                                    }
                                    assert(out@ =~= base + render_syllables(self.events@.take(i + 1)));
                                }
                            }
                        },
                    }
                    i = i + 1;
                }
                proof {
                    assert(self.events@.take(self.events@.len() as int) == self.events@);
                }
            }
            _ => {
                assert(final(out)@ =~= old(out)@);
            }
        }
    }
}

/// Lyrics text for a sequence of elements: each element written in turn, with
/// a space between two consecutive lyric elements.
pub open spec fn render_text(elems: Seq<LyricsEditorTextElement>) -> Seq<char>
    decreases elems.len(),
{
    if elems.len() == 0 {
        Seq::empty()
    } else {
        let prev = render_text(elems.drop_last());
        let sep = if elems.len() > 1 && elems[elems.len() - 2].event_type == EventType::Lyric
            && elems.last().event_type == EventType::Lyric {
            seq![' ']
        } else {
            Seq::empty()
        };
        prev + sep + elems.last().rendered()
    }
}

/// The text of one lyrics track in the editor, with the elements it was made
/// from.
pub struct LyricsEditorText {
    pub elements: Vec<LyricsEditorTextElement>,
    pub text: String,
    pub changed: bool,
    pub track_id: u128,
}

impl LyricsEditorText {
    /// The editor text of a track, written from its elements; it starts out
    /// unchanged.
    pub fn new(track_id: u128, elements: Vec<LyricsEditorTextElement>) -> (t: LyricsEditorText)
        ensures
            t.text@ == render_text(elements@),
            t.elements@ == elements@,
            !t.changed,
            t.track_id == track_id,
    {
        let mut out: Vec<char> = Vec::new();
        let mut last_elem_lyric = false;
        let mut i: usize = 0;
        while i < elements.len()
            invariant
                0 <= i <= elements@.len(),
                out@ == render_text(elements@.take(i as int)),
                last_elem_lyric == (i > 0 && elements@[i - 1].event_type == EventType::Lyric),
            decreases elements@.len() - i,
        {
            proof {
                assert(elements@.take(i + 1).drop_last() == elements@.take(i as int));
            }
            let ghost o = out@;
            if last_elem_lyric && elements[i].event_type == EventType::Lyric {
                out.push(' ');
            }
            let ghost m = out@;
            elements[i].render_into(&mut out);
            last_elem_lyric = elements[i].event_type == EventType::Lyric;
            i = i + 1;
            proof {
                let sep = if i > 1 && elements@[i - 2].event_type == EventType::Lyric
                    && elements@[i - 1].event_type == EventType::Lyric {
                    seq![' ']
                } else {
                    Seq::<char>::empty()
                };
                assert(m =~= o + sep);
            }
        }
        proof {
            assert(elements@.take(elements@.len() as int) == elements@);
        }
        let text = string_from_chars(&out);
        LyricsEditorText { elements, text, changed: false, track_id }
    }
}

} // verus!
