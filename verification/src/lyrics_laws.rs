use vstd::prelude::*;

use crate::lyrics::{
    break_token, end_syllable, escape_char, escape_syllable, has_text, lyric_token, parse_chars, parse_finish,
    parse_lyrics, parse_step, render_element, render_syllables, render_text, start_state, EventType,
    LyricToken, LyricsEditorTextElement, ParseState, PsuedoEvent,
};
use crate::lyrics_edit::flatten_elements;
use crate::text::is_whitespace_spec;

verus! {

/// A character that lyrics text writes as itself and reads back as part of
/// a syllable: no white space, escape, separator or block bracket.
pub open spec fn plain_char(c: char) -> bool {
    !is_whitespace_spec(c) && c != '\\' && c != '-' && c != '[' && c != ']' && c != '\r'
}

/// A syllable that survives being written out and read back.
pub open spec fn plain_text(s: Seq<char>) -> bool {
    s.len() > 0 && forall|i: int| 0 <= i < s.len() ==> plain_char(#[trigger] s[i])
}

/// An element that lyrics text can carry: a word of plain syllables, the
/// first one not linked and the others linked to the one before, or a single
/// line or paragraph break.
pub open spec fn element_ok(e: LyricsEditorTextElement) -> bool {
    match e.event_type {
        EventType::Lyric => {
            &&& e.events@.len() > 0
            &&& forall|j: int| 0 <= j < e.events@.len() ==> {
                let ev = #[trigger] e.events@[j];
                &&& ev.event_type == EventType::Lyric
                &&& ev.value matches Some(t) && plain_text(t@)
                &&& ev.linked_to_prev == (j > 0)
            }
        },
        EventType::LineBreak | EventType::ParagraphBreak => {
            &&& e.events@.len() == 1
            &&& e.events@[0].event_type == e.event_type
            &&& e.events@[0].value is None
            &&& !e.events@[0].linked_to_prev
        },
        _ => false,
    }
}

pub open spec fn is_break(t: EventType) -> bool {
    t == EventType::LineBreak || t == EventType::ParagraphBreak
}

/// Elements that lyrics text carries as they are: each can be carried, no
/// break follows another (two line breaks read as a paragraph break), and
/// the text does not end with a line break (which reads as nothing).
pub open spec fn elements_ok(es: Seq<LyricsEditorTextElement>) -> bool {
    &&& forall|i: int| 0 <= i < es.len() ==> element_ok(#[trigger] es[i])
    &&& forall|i: int| 0 <= i < es.len() - 1 ==> !(is_break(#[trigger] es[i].event_type) && is_break(es[i + 1].event_type))
    &&& es.len() > 0 ==> es.last().event_type != EventType::LineBreak
}

/// What the events stand for in lyrics text.
pub open spec fn tokens(evs: Seq<PsuedoEvent>) -> Seq<LyricToken> {
    Seq::new(evs.len(), |i: int| evs[i].token())
}

/// Reading `s` from the state `st`.
pub open spec fn parse_from(st: ParseState, s: Seq<char>) -> ParseState
    decreases s.len(),
{
    if s.len() == 0 {
        st
    } else {
        parse_step(parse_from(st, s.drop_last()), s.last())
    }
}

proof fn lemma_parse_chars_from(s: Seq<char>)
    ensures
        parse_chars(s) == parse_from(start_state(), s),
    decreases s.len(),
{
    if s.len() > 0 {
        lemma_parse_chars_from(s.drop_last());
    }
}

proof fn lemma_parse_concat(st: ParseState, a: Seq<char>, b: Seq<char>)
    ensures
        parse_from(st, a + b) == parse_from(parse_from(st, a), b),
    decreases b.len(),
{
    if b.len() == 0 {
        assert(a + b =~= a);
    } else {
        lemma_parse_concat(st, a, b.drop_last());
        assert((a + b).drop_last() =~= a + b.drop_last());
        assert((a + b).last() == b.last());
    }
}

proof fn lemma_parse_one(st: ParseState, c: char)
    ensures
        parse_from(st, seq![c]) == parse_step(st, c),
{
    assert(seq![c].drop_last() =~= Seq::<char>::empty());
    assert(seq![c].last() == c);
    assert(parse_from(st, Seq::<char>::empty()) == st);
}

/// A state in the middle of a word or between two: no pending new line, no
/// block, no escape.
pub open spec fn settled(st: ParseState) -> bool {
    st.line_count == 0 && st.block_level == 0 && !st.escaped
}

proof fn lemma_plain_chars(st: ParseState, s: Seq<char>)
    requires
        settled(st),
        forall|i: int| 0 <= i < s.len() ==> plain_char(#[trigger] s[i]),
    ensures
        parse_from(st, s) == (ParseState {
            value: st.value + s,
            in_lyric: st.in_lyric || s.len() > 0,
            ..st
        }),
    decreases s.len(),
{
    if s.len() == 0 {
        assert(st.value + s =~= st.value);
    } else {
        lemma_plain_chars(st, s.drop_last());
        let c = s.last();
        assert(plain_char(s[s.len() - 1]));
        assert(st.value + s.drop_last() + seq![c] =~= st.value + s);
        assert(st.value + s.drop_last() + seq![c] =~= (st.value + s.drop_last()).push(c));
    }
}

proof fn lemma_plain_chars_in_block(st: ParseState, s: Seq<char>)
    requires
        st.line_count == 0,
        !st.escaped,
        forall|i: int| 0 <= i < s.len() ==> plain_char(#[trigger] s[i]),
    ensures
        parse_from(st, s) == (ParseState {
            value: st.value + s,
            in_lyric: st.in_lyric || s.len() > 0,
            ..st
        }),
    decreases s.len(),
{
    if s.len() == 0 {
        assert(st.value + s =~= st.value);
    } else {
        lemma_plain_chars_in_block(st, s.drop_last());
        let c = s.last();
        assert(plain_char(s[s.len() - 1]));
        assert(st.value + s.drop_last() + seq![c] =~= st.value + s);
        assert(st.value + s.drop_last() + seq![c] =~= (st.value + s.drop_last()).push(c));
    }
}

/// A `[` `]` block keeps white space inside one syllable, and its `]`
/// closes it: for words `x`, `y` and `z`, the text `[x y] z` reads as two
/// unlinked syllables, the block `[x y]` and then `z`.
pub proof fn lemma_block_closes(x: Seq<char>, y: Seq<char>, z: Seq<char>)
    requires
        plain_text(x),
        plain_text(y),
        plain_text(z),
    ensures
        parse_lyrics(seq!['['] + x + seq![' '] + y + seq![']', ' '] + z) == seq![
            lyric_token(seq!['['] + x + seq![' '] + y + seq![']'], false),
            lyric_token(z, false),
        ],
{
    let a1 = seq!['['];
    let a2 = a1 + x;
    let a3 = a2 + seq![' '];
    let a4 = a3 + y;
    let a5 = a4 + seq![']'];
    let a6 = a5 + seq![' '];
    let text = a6 + z;
    assert(seq!['['] + x + seq![' '] + y + seq![']', ' '] + z =~= text);
    lemma_parse_chars_from(text);
    let st0 = start_state();
    lemma_parse_one(st0, '[');
    let st1 = parse_from(st0, a1);
    assert(st1.block_level == 1 && st1.in_lyric && st1.value =~= seq!['['] && st1.line_count == 0
        && !st1.escaped && !st1.linked && st1.events.len() == 0);
    lemma_parse_concat(st0, a1, x);
    lemma_plain_chars_in_block(st1, x);
    let st2 = parse_from(st0, a2);
    lemma_parse_concat(st0, a2, seq![' ']);
    lemma_parse_one(st2, ' ');
    let st3 = parse_from(st0, a3);
    assert(st3.value =~= a3);
    lemma_parse_concat(st0, a3, y);
    lemma_plain_chars_in_block(st3, y);
    let st4 = parse_from(st0, a4);
    assert(st4.value =~= a4);
    lemma_parse_concat(st0, a4, seq![']']);
    lemma_parse_one(st4, ']');
    let st5 = parse_from(st0, a5);
    assert(st5.block_level == 0 && st5.value =~= a5);
    lemma_parse_concat(st0, a5, seq![' ']);
    lemma_parse_one(st5, ' ');
    let st6 = parse_from(st0, a6);
    assert(st6.events =~= seq![lyric_token(a5, false)]);
    assert(settled(st6) && st6.in_lyric && st6.value.len() == 0 && !st6.linked);
    lemma_parse_concat(st0, a6, z);
    lemma_plain_chars(st6, z);
    let st7 = parse_from(st0, text);
    assert(st7.value =~= z);
    assert(parse_lyrics(text) =~= seq![lyric_token(a5, false), lyric_token(z, false)]);
}

proof fn lemma_escape_plain(t: Seq<char>)
    requires
        forall|i: int| 0 <= i < t.len() ==> plain_char(#[trigger] t[i]),
    ensures
        escape_syllable(t) == t,
    decreases t.len(),
{
    if t.len() > 0 {
        lemma_escape_plain(t.drop_last());
        assert(plain_char(t[t.len() - 1]));
        assert(escape_char(t.last()) == seq![t.last()]);
        assert(t.drop_last() + seq![t.last()] =~= t);
    }
}

/// The text of a syllable that has one.
pub open spec fn text_of(e: PsuedoEvent) -> Seq<char> {
    match e.value {
        Some(t) => t@,
        None => Seq::empty(),
    }
}

/// Syllables of a word as `element_ok` has them.
pub open spec fn syllables_ok(evs: Seq<PsuedoEvent>) -> bool {
    forall|j: int| 0 <= j < evs.len() ==> {
        let ev = #[trigger] evs[j];
        &&& ev.event_type == EventType::Lyric
        &&& ev.value matches Some(t) && plain_text(t@)
        &&& ev.linked_to_prev == (j > 0)
    }
}

proof fn lemma_has_text(evs: Seq<PsuedoEvent>)
    requires
        syllables_ok(evs),
    ensures
        has_text(evs) == (evs.len() > 0),
    decreases evs.len(),
{
    if evs.len() > 0 {
        assert(syllables_ok(evs.drop_last())) by {
            assert forall|j: int| 0 <= j < evs.drop_last().len() implies {
                let ev = #[trigger] evs.drop_last()[j];
                &&& ev.event_type == EventType::Lyric
                &&& ev.value matches Some(t) && plain_text(t@)
                &&& ev.linked_to_prev == (j > 0)
            } by {
                assert(evs.drop_last()[j] == evs[j]);
            }
        }
        lemma_has_text(evs.drop_last());
        assert(evs[evs.len() - 1].value is Some);
    }
}

/// Reading the syllables of a word from a settled state that starts no
/// syllable leaves all but the last as events and the last being read.
proof fn lemma_word(st: ParseState, evs: Seq<PsuedoEvent>)
    requires
        settled(st),
        st.value.len() == 0,
        !st.linked,
        evs.len() > 0,
        syllables_ok(evs),
    ensures
        parse_from(st, render_syllables(evs)) == (ParseState {
            events: st.events + tokens(evs.drop_last()),
            value: text_of(evs.last()),
            in_lyric: true,
            linked: evs.len() > 1,
            ..st
        }),
    decreases evs.len(),
{
    let last = evs.last();
    assert(syllables_ok(evs.drop_last())) by {
        assert forall|j: int| 0 <= j < evs.drop_last().len() implies {
            let ev = #[trigger] evs.drop_last()[j];
            &&& ev.event_type == EventType::Lyric
            &&& ev.value matches Some(t) && plain_text(t@)
            &&& ev.linked_to_prev == (j > 0)
        } by {
            assert(evs.drop_last()[j] == evs[j]);
        }
    }
    assert(evs[evs.len() - 1] == last);
    let t = text_of(last);
    assert(plain_text(t));
    lemma_escape_plain(t);
    lemma_has_text(evs.drop_last());
    if evs.len() == 1 {
        assert(render_syllables(evs) == escape_syllable(t));
        lemma_plain_chars(st, t);
        assert(st.value + t =~= t);
        assert(tokens(evs.drop_last()) =~= Seq::<LyricToken>::empty());
        assert(st.events + tokens(evs.drop_last()) =~= st.events);
    } else {
        let prev = evs.drop_last();
        lemma_word(st, prev);
        let mid = parse_from(st, render_syllables(prev));
        assert(render_syllables(evs) == render_syllables(prev).push('-') + t);
        assert(render_syllables(prev).push('-') =~= render_syllables(prev) + seq!['-']);
        lemma_parse_concat(st, render_syllables(prev) + seq!['-'], t);
        lemma_parse_concat(st, render_syllables(prev), seq!['-']);
        let after_sep = parse_step(mid, '-');
        lemma_parse_one(mid, '-');
        let prev_last = prev.last();
        assert(prev[prev.len() - 1] == prev_last);
        assert(prev_last.token() == lyric_token(text_of(prev_last), prev.len() > 1));
        assert(after_sep == ParseState {
            events: st.events + tokens(prev.drop_last()) + seq![prev_last.token()],
            value: Seq::<char>::empty(),
            in_lyric: false,
            linked: true,
            ..st
        }) by {
            assert(st.events + tokens(prev.drop_last()) + seq![prev_last.token()] =~= (st.events + tokens(
                prev.drop_last(),
            )).push(prev_last.token()));
        }
        lemma_plain_chars(after_sep, t);
        assert(Seq::<char>::empty() + t =~= t);
        assert(st.events + tokens(prev.drop_last()) + seq![prev_last.token()] =~= st.events + tokens(evs.drop_last()));
    }
}

/// The tokens of the events of `es`, element after element.
pub open spec fn element_tokens(es: Seq<LyricsEditorTextElement>) -> Seq<LyricToken> {
    tokens(flatten_elements(es))
}

/// The state of the reader after the text of the elements `es`: in the
/// last syllable of a last word, after a paragraph break, or with a line
/// break not yet counted.
pub open spec fn state_after(es: Seq<LyricsEditorTextElement>) -> ParseState {
    if es.len() == 0 {
        start_state()
    } else {
        let last = es.last();
        let before = element_tokens(es.drop_last());
        match last.event_type {
            EventType::Lyric => ParseState {
                events: before + tokens(last.events@.drop_last()),
                line_count: 0,
                block_level: 0,
                in_lyric: true,
                value: text_of(last.events@.last()),
                linked: last.events@.len() > 1,
                escaped: false,
            },
            EventType::ParagraphBreak => ParseState {
                events: before.push(break_token(EventType::ParagraphBreak)),
                line_count: 0,
                block_level: 0,
                in_lyric: false,
                value: Seq::empty(),
                linked: false,
                escaped: false,
            },
            _ => ParseState {
                events: before,
                line_count: 1,
                block_level: 0,
                in_lyric: false,
                value: Seq::empty(),
                linked: false,
                escaped: false,
            },
        }
    }
}

proof fn lemma_tokens_concat(a: Seq<PsuedoEvent>, b: Seq<PsuedoEvent>)
    ensures
        tokens(a + b) == tokens(a) + tokens(b),
{
    assert(tokens(a + b) =~= tokens(a) + tokens(b));
}

/// Reading the text of well-formed elements leaves the reader in
/// `state_after` of them.
#[verifier::rlimit(100)]
#[verifier::spinoff_prover]
proof fn lemma_state_after(es: Seq<LyricsEditorTextElement>)
    requires
        forall|i: int| 0 <= i < es.len() ==> element_ok(#[trigger] es[i]),
        forall|i: int| 0 <= i < es.len() - 1 ==> !(is_break(#[trigger] es[i].event_type) && is_break(es[i + 1].event_type)),
    ensures
        parse_chars(render_text(es)) == state_after(es),
    decreases es.len(),
{
    lemma_parse_chars_from(render_text(es));
    if es.len() > 0 {
        let prev = es.drop_last();
        let last = es.last();
        assert(element_ok(es[es.len() - 1]));
        assert forall|i: int| 0 <= i < prev.len() implies element_ok(#[trigger] prev[i]) by {
            assert(prev[i] == es[i]);
        }
        assert forall|i: int| 0 <= i < prev.len() - 1 implies !(is_break(#[trigger] prev[i].event_type) && is_break(
            prev[i + 1].event_type,
        )) by {
            assert(prev[i] == es[i] && prev[i + 1] == es[i + 1]);
        }
        lemma_state_after(prev);
        lemma_parse_chars_from(render_text(prev));
        let st = state_after(prev);
        let sep = if es.len() > 1 && es[es.len() - 2].event_type == EventType::Lyric && last.event_type
            == EventType::Lyric {
            seq![' ']
        } else {
            Seq::<char>::empty()
        };
        assert(render_text(es) == render_text(prev) + sep + last.rendered());
        lemma_parse_concat(start_state(), render_text(prev) + sep, last.rendered());
        lemma_parse_concat(start_state(), render_text(prev), sep);
        let st1 = parse_from(st, sep);
        assert(flatten_elements(es) == flatten_elements(prev) + last.events@);
        lemma_tokens_concat(flatten_elements(prev), last.events@);
        if prev.len() > 0 {
            assert(es[es.len() - 2] == prev.last());
        }
        match last.event_type {
            EventType::Lyric => {
                let evs = last.events@;
                assert(syllables_ok(evs));
                // The word starts after the space that ends a word before
                // it, after a line break that its first character counts, or
                // as the elements before left the reader.
                if prev.len() > 0 && prev.last().event_type == EventType::Lyric {
                    assert(sep == seq![' ']);
                    lemma_parse_one(st, ' ');
                    let pl = prev.last();
                    assert(element_ok(pl));
                    assert(pl.events@[pl.events@.len() - 1] == pl.events@.last());
                    assert(pl.events@.last().token() == lyric_token(text_of(pl.events@.last()), pl.events@.len() > 1));
                    assert(flatten_elements(prev) == flatten_elements(prev.drop_last()) + pl.events@);
                    lemma_tokens_concat(flatten_elements(prev.drop_last()), pl.events@);
                    lemma_tokens_concat(pl.events@.drop_last(), seq![pl.events@.last()]);
                    assert(pl.events@.drop_last() + seq![pl.events@.last()] =~= pl.events@);
                    assert(tokens(seq![pl.events@.last()]) =~= seq![pl.events@.last().token()]);
                    assert(st1 == parse_step(st, ' '));
                    assert(st1 == ParseState { events: element_tokens(prev), value: Seq::empty(), linked: false, ..st }) by {
                        assert(st.events.push(lyric_token(st.value, st.linked)) =~= element_tokens(prev));
                    }
                    lemma_word(st1, evs);
                } else if prev.len() > 0 && prev.last().event_type == EventType::LineBreak {
                    assert(sep =~= Seq::<char>::empty());
                    assert(st1 == st);
                    // The first character of the word counts the line break.
                    let pl = prev.last();
                    assert(element_ok(pl));
                    assert(flatten_elements(prev) == flatten_elements(prev.drop_last()) + pl.events@);
                    lemma_tokens_concat(flatten_elements(prev.drop_last()), pl.events@);
                    assert(tokens(pl.events@) =~= seq![break_token(EventType::LineBreak)]);
                    let counted = ParseState {
                        events: element_tokens(prev),
                        line_count: 0,
                        ..st
                    };
                    assert(counted.events =~= st.events.push(break_token(EventType::LineBreak)));
                    let t0 = text_of(evs[0]);
                    assert(plain_text(t0));
                    assert(plain_char(t0[0]));
                    lemma_word(counted, evs);
                    // Reading the word from `st` is reading it from `counted`:
                    // only its first character sees the pending line break.
                    lemma_word_after_line(st, counted, evs);
                } else {
                    assert(sep =~= Seq::<char>::empty());
                    assert(st1 == st);
                    if prev.len() > 0 {
                        assert(prev.last().event_type == EventType::ParagraphBreak);
                        let pl = prev.last();
                        assert(element_ok(pl));
                        assert(flatten_elements(prev) == flatten_elements(prev.drop_last()) + pl.events@);
                        lemma_tokens_concat(flatten_elements(prev.drop_last()), pl.events@);
                        assert(tokens(pl.events@) =~= seq![break_token(EventType::ParagraphBreak)]);
                        assert(st.events =~= element_tokens(prev));
                    } else {
                        assert(element_tokens(prev) =~= Seq::<LyricToken>::empty());
                    }
                    lemma_word(st, evs);
                }
                assert(element_tokens(prev) + tokens(evs.drop_last()) =~= state_after(es).events) by {
                    assert(state_after(es).events == element_tokens(es.drop_last()) + tokens(evs.drop_last()));
                }
            },
            EventType::LineBreak => {
                assert(last.rendered() == seq!['\n']);
                lemma_parse_one(st1, '\n');
                assert(tokens(last.events@) =~= seq![break_token(EventType::LineBreak)]);
                if prev.len() > 0 {
                    assert(!is_break(prev.last().event_type)) by {
                        assert(!(is_break(es[es.len() - 2].event_type) && is_break(es[es.len() - 1].event_type)));
                    }
                    assert(prev.last().event_type == EventType::Lyric) by {
                        assert(element_ok(prev.last()));
                    }
                    let pl = prev.last();
                    assert(element_ok(pl));
                    assert(pl.events@[pl.events@.len() - 1] == pl.events@.last());
                    assert(flatten_elements(prev) == flatten_elements(prev.drop_last()) + pl.events@);
                    lemma_tokens_concat(flatten_elements(prev.drop_last()), pl.events@);
                    lemma_tokens_concat(pl.events@.drop_last(), seq![pl.events@.last()]);
                    assert(pl.events@.drop_last() + seq![pl.events@.last()] =~= pl.events@);
                    assert(tokens(seq![pl.events@.last()]) =~= seq![pl.events@.last().token()]);
                    assert(st.events.push(lyric_token(st.value, st.linked)) =~= element_tokens(prev));
                } else {
                    assert(element_tokens(prev) =~= Seq::<LyricToken>::empty());
                }
                assert(sep =~= Seq::<char>::empty());
            },
            EventType::ParagraphBreak => {
                assert(last.rendered() == seq!['\n', '\n']);
                assert(seq!['\n', '\n'] =~= seq!['\n'] + seq!['\n']);
                lemma_parse_concat(st1, seq!['\n'], seq!['\n']);
                lemma_parse_one(st1, '\n');
                lemma_parse_one(parse_step(st1, '\n'), '\n');
                assert(tokens(last.events@) =~= seq![break_token(EventType::ParagraphBreak)]);
                if prev.len() > 0 {
                    assert(!is_break(prev.last().event_type)) by {
                        assert(!(is_break(es[es.len() - 2].event_type) && is_break(es[es.len() - 1].event_type)));
                    }
                    assert(prev.last().event_type == EventType::Lyric) by {
                        assert(element_ok(prev.last()));
                    }
                    let pl = prev.last();
                    assert(element_ok(pl));
                    assert(pl.events@[pl.events@.len() - 1] == pl.events@.last());
                    assert(flatten_elements(prev) == flatten_elements(prev.drop_last()) + pl.events@);
                    lemma_tokens_concat(flatten_elements(prev.drop_last()), pl.events@);
                    lemma_tokens_concat(pl.events@.drop_last(), seq![pl.events@.last()]);
                    assert(pl.events@.drop_last() + seq![pl.events@.last()] =~= pl.events@);
                    assert(tokens(seq![pl.events@.last()]) =~= seq![pl.events@.last().token()]);
                    assert(st.events.push(lyric_token(st.value, st.linked)) =~= element_tokens(prev));
                } else {
                    assert(element_tokens(prev) =~= Seq::<LyricToken>::empty());
                }
                assert(sep =~= Seq::<char>::empty());
                assert(element_tokens(prev).push(break_token(EventType::ParagraphBreak)) =~= element_tokens(prev)
                    + seq![break_token(EventType::ParagraphBreak)]);
            },
            _ => {
                assert(false);
            },
        }
    }
}

/// A word read after a line break that is not yet counted: its first
/// character counts the break, and the rest reads as from the counted
/// state.
proof fn lemma_word_after_line(st: ParseState, counted: ParseState, evs: Seq<PsuedoEvent>)
    requires
        st.line_count == 1,
        st.block_level == 0,
        !st.escaped,
        !st.in_lyric,
        st.value.len() == 0,
        !st.linked,
        counted == (ParseState { events: st.events.push(break_token(EventType::LineBreak)), line_count: 0, ..st }),
        evs.len() > 0,
        syllables_ok(evs),
    ensures
        parse_from(st, render_syllables(evs)) == parse_from(counted, render_syllables(evs)),
{
    let r = render_syllables(evs);
    lemma_has_text(evs.drop_last());
    let t0 = text_of(evs[0]);
    assert(plain_text(t0));
    lemma_first_char(evs);
    // Split off the first character.
    let c = r[0];
    assert(plain_char(c));
    assert(r =~= seq![c] + r.skip(1));
    lemma_parse_concat(st, seq![c], r.skip(1));
    lemma_parse_concat(counted, seq![c], r.skip(1));
    lemma_parse_one(st, c);
    lemma_parse_one(counted, c);
    assert(parse_step(st, c) == parse_step(counted, c));
}

/// The text of a word starts with a plain character.
proof fn lemma_first_char(evs: Seq<PsuedoEvent>)
    requires
        evs.len() > 0,
        syllables_ok(evs),
    ensures
        render_syllables(evs).len() > 0,
        plain_char(render_syllables(evs)[0]),
    decreases evs.len(),
{
    assert(syllables_ok(evs.drop_last())) by {
        assert forall|j: int| 0 <= j < evs.drop_last().len() implies {
            let ev = #[trigger] evs.drop_last()[j];
            &&& ev.event_type == EventType::Lyric
            &&& ev.value matches Some(t) && plain_text(t@)
            &&& ev.linked_to_prev == (j > 0)
        } by {
            assert(evs.drop_last()[j] == evs[j]);
        }
    }
    let last = evs[evs.len() - 1];
    let t = text_of(last);
    assert(plain_text(t));
    lemma_escape_plain(t);
    lemma_has_text(evs.drop_last());
    if evs.len() == 1 {
        assert(plain_char(t[0]));
    } else {
        lemma_first_char(evs.drop_last());
        let p = render_syllables(evs.drop_last());
        assert(render_syllables(evs) == p.push('-') + t);
        assert((p.push('-') + t)[0] == p[0]);
    }
}

/// Lyrics text written from well-formed elements reads back as the events
/// of those elements: the same types, texts and links, in the same order.
#[verifier::rlimit(50)]
#[verifier::spinoff_prover]
pub proof fn lemma_render_then_parse(es: Seq<LyricsEditorTextElement>)
    requires
        elements_ok(es),
    ensures
        parse_lyrics(render_text(es)) == element_tokens(es),
{
    lemma_state_after(es);
    if es.len() == 0 {
        assert(element_tokens(es) =~= Seq::<LyricToken>::empty());
    } else {
        let last = es.last();
        let prev = es.drop_last();
        assert(element_ok(es[es.len() - 1]));
        assert(flatten_elements(es) == flatten_elements(prev) + last.events@);
        lemma_tokens_concat(flatten_elements(prev), last.events@);
        match last.event_type {
            EventType::Lyric => {
                assert(last.events@[last.events@.len() - 1] == last.events@.last());
                lemma_tokens_concat(last.events@.drop_last(), seq![last.events@.last()]);
                assert(last.events@.drop_last() + seq![last.events@.last()] =~= last.events@);
                assert(tokens(seq![last.events@.last()]) =~= seq![last.events@.last().token()]);
                assert(last.events@.last().token() == lyric_token(text_of(last.events@.last()), last.events@.len() > 1));
                assert(element_tokens(prev) + tokens(last.events@.drop_last()) + seq![last.events@.last().token()]
                    =~= element_tokens(es));
                assert(element_tokens(prev) + tokens(last.events@.drop_last()) + seq![last.events@.last().token()]
                    =~= (element_tokens(prev) + tokens(last.events@.drop_last())).push(last.events@.last().token()));
            },
            EventType::ParagraphBreak => {
                assert(tokens(last.events@) =~= seq![break_token(EventType::ParagraphBreak)]);
                assert(element_tokens(prev).push(break_token(EventType::ParagraphBreak)) =~= element_tokens(es));
            },
            _ => {
                assert(false);
            },
        }
    }
}

} // verus!
