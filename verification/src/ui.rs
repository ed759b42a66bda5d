use vstd::prelude::*;

use crate::audio::AudioCodec;
use crate::ids::{id_string, id_text};
use crate::lyrics::{Event, EventType};
use crate::ml::{Task, TaskExtraData, TaskManager, TaskStatus};
use crate::modals::{Modal, ModalManager, TaskModal};
use crate::lyrics::{AudioFile, AudioFileSource, AudioFileType};
use crate::text::chars_of;
use crate::project::{index_of_id, lemma_index_of_id, Project, Track, TrackType};
use crate::selection::SelectionManager;
use crate::text::{parse_u32, parse_u32_spec, same_text};
use crate::lyrics::EventValue;
use crate::timeline::{find_located, locate_event};
use crate::track_commands::{next_order, next_order_of};
use crate::ui_event::UiError;

verus! {

/// The text of a menu entry's keyboard shortcut: the modifiers held, each
/// followed by `+`, then the key. The command key is written `Cmd` on
/// macOS and `Ctrl` elsewhere.
pub open spec fn shortcut_spec(command: bool, alt: bool, shift: bool, mac: bool, key: Seq<char>) -> Seq<char> {
    (if command {
        if mac {
            "Cmd+"@
        } else {
            "Ctrl+"@
        }
    } else {
        Seq::empty()
    }) + (if alt {
        "Alt+"@
    } else {
        Seq::empty()
    }) + (if shift {
        "Shift+"@
    } else {
        Seq::empty()
    }) + key
}

/// The text a menu entry shows for its keyboard shortcut, such as
/// "Ctrl+Shift+S" ("Cmd+" in place of "Ctrl+" on macOS).
pub fn shortcut_text(command: bool, alt: bool, shift: bool, mac: bool, key: &str) -> (s: String)
    ensures
        s@ == shortcut_spec(command, alt, shift, mac, key@),
{
    let mut s = String::new();
    let ghost a = Seq::<char>::empty();
    if command {
        if mac {
            s.append("Cmd+");
        } else {
            s.append("Ctrl+");
        }
    }
    let ghost s1 = s@;
    if alt {
        s.append("Alt+");
    }
    let ghost s2 = s@;
    if shift {
        s.append("Shift+");
    }
    let ghost s3 = s@;
    s.append(key);
    proof {
        assert(s1 == (if command {
            if mac {
                "Cmd+"@
            } else {
                "Ctrl+"@
            }
        } else {
            Seq::<char>::empty()
        })) by {
            if !command {
                assert(s1 =~= Seq::<char>::empty());
            }
        }
        if !alt {
            assert(s2 =~= s1 + Seq::<char>::empty());
        }
        if !shift {
            assert(s3 =~= s2 + Seq::<char>::empty());
        }
    }
    s
}

/// The label of the undo or redo entry: the action, then what it would
/// undo or redo, if anything.
pub open spec fn history_label_spec(action: Seq<char>, desc: Option<Seq<char>>) -> Seq<char> {
    match desc {
        Some(d) => action + " "@ + d,
        None => action,
    }
}

/// The label of the undo or redo entry: the action, followed by what it
/// would undo or redo when there is something.
pub fn history_label(action: &str, desc: &Option<String>) -> (s: String)
    ensures
        s@ == history_label_spec(action@, match desc {
            Some(d) => Some(d@),
            None => None,
        }),
{
    let mut s = action.to_string();
    match desc {
        Some(d) => {
            s.append(" ");
            s.append(d.as_str());
        },
        None => {},
    }
    s
}

/// What the menu bar says of the open project: its name, or
/// `(unnamed)`, marked with `*` when it has unsaved changes.
pub open spec fn project_title_spec(p: Option<Project>) -> Seq<char> {
    match p {
        Some(pr) => "Project: "@ + match pr.name {
            Some(n) => n@,
            None => "(unnamed)"@,
        } + if pr.dirty {
            "*"@
        } else {
            Seq::empty()
        },
        None => "No project"@,
    }
}

/// The title shown for the open project.
pub fn project_title(p: &Option<Project>) -> (s: String)
    ensures
        s@ == project_title_spec(*p),
{
    match p {
        Some(pr) => {
            let mut s = "Project: ".to_string();
            match &pr.name {
                Some(n) => s.append(n.as_str()),
                None => s.append("(unnamed)"),
            }
            let ghost s0 = s@;
            if pr.dirty {
                s.append("*");
            }
            proof {
                if !pr.dirty {
                    assert(s@ =~= s0 + Seq::<char>::empty());
                }
            }
            s
        },
        None => "No project".to_string(),
    }
}

/// Whether the Save entry is enabled: an open project has unsaved changes.
pub fn save_enabled(p: &Option<Project>) -> (b: bool)
    ensures
        b == (p matches Some(pr) && pr.dirty),
{
    match p {
        Some(pr) => pr.dirty,
        None => false,
    }
}

/// The first audio track that is selected.
pub open spec fn selected_audio_track(tracks: Seq<Track>, selected: Set<u128>) -> Option<u128>
    decreases tracks.len(),
{
    if tracks.len() == 0 {
        None
    } else if tracks[0].track_type == TrackType::Audio && selected.contains(tracks[0].id) {
        Some(tracks[0].id)
    } else {
        selected_audio_track(tracks.skip(1), selected)
    }
}

/// The track an audio event is added to from the menu: the first selected
/// audio track.
pub fn audio_track_for_add(tracks: &Vec<Track>, selection: &SelectionManager) -> (r: Option<u128>)
    ensures
        r == selected_audio_track(tracks@, selection.tracks()),
{
    let mut i: usize = 0;
    assert(tracks@.skip(0) =~= tracks@);
    while i < tracks.len()
        invariant
            0 <= i <= tracks@.len(),
            selected_audio_track(tracks@, selection.tracks()) == selected_audio_track(
                tracks@.skip(i as int),
                selection.tracks(),
            ),
        decreases tracks@.len() - i,
    {
        proof {
            assert(tracks@.skip(i as int)[0] == tracks@[i as int]);
            assert(tracks@.skip(i as int).skip(1) =~= tracks@.skip(i + 1));
        }
        if tracks[i].track_type == TrackType::Audio && selection.is_track_selected(tracks[i].id) {
            return Some(tracks[i].id);
        }
        i = i + 1;
    }
    None
}

/// The colour of a track's header, as red, green and blue.
pub fn color_for_track_type(t: TrackType) -> (c: (u8, u8, u8))
    ensures
        c == match t {
            TrackType::Lyrics => (150u8, 76u8, 166u8),
            TrackType::Audio => (1u8, 117u8, 106u8),
        },
{
    match t {
        TrackType::Lyrics => (150, 76, 166),
        TrackType::Audio => (1, 117, 106),
    }
}

/// The colour of an event on the timeline.
pub fn color_for_event_type(t: EventType) -> (c: (u8, u8, u8))
    ensures
        c == match t {
            EventType::Lyric => (150u8, 76u8, 166u8),
            EventType::LineBreak => (117u8, 166u8, 51u8),
            EventType::ParagraphBreak => (166u8, 76u8, 105u8),
            EventType::AudioClip => (1u8, 117u8, 106u8),
            EventType::Image => (64u8, 151u8, 202u8),
        },
{
    match t {
        EventType::Lyric => (150, 76, 166),
        EventType::LineBreak => (117, 166, 51),
        EventType::ParagraphBreak => (166, 76, 105),
        EventType::AudioClip => (1, 117, 106),
        EventType::Image => (64, 151, 202),
    }
}

/// The darker colour of an event's border.
pub fn darkened_color_for_event_type(t: EventType) -> (c: (u8, u8, u8))
    ensures
        c == match t {
            EventType::AudioClip => (0u8, 105u8, 95u8),
            EventType::Image => (57u8, 135u8, 181u8),
            EventType::LineBreak => (105u8, 149u8, 45u8),
            EventType::Lyric => (135u8, 68u8, 149u8),
            EventType::ParagraphBreak => (149u8, 68u8, 94u8),
        },
{
    match t {
        EventType::AudioClip => (0, 105, 95),
        EventType::Image => (57, 135, 181),
        EventType::LineBreak => (105, 149, 45),
        EventType::Lyric => (135, 68, 149),
        EventType::ParagraphBreak => (149, 68, 94),
    }
}

/// The name, in the cache directory, of the file of kind `ext` made for
/// the event or project `id`.
pub open spec fn cache_file_name_spec(id: u128, ext: Seq<char>) -> Seq<char> {
    id_text(id) + "."@ + ext
}

/// The name, in the cache directory, of the file of kind `ext` made for
/// the event or project `id`.
pub fn cache_file_name(id: u128, ext: &str) -> (s: String)
    ensures
        s@ == cache_file_name_spec(id, ext@),
{
    let mut s = id_string(id);
    s.append(".");
    s.append(ext);
    s
}

/// The first event with identifier `id` of the first track whose first
/// event with that identifier is an audio clip.
pub open spec fn audio_event_in(tracks: Seq<Track>, id: u128) -> Option<Event>
    decreases tracks.len(),
{
    if tracks.len() == 0 {
        None
    } else {
        match index_of_id(tracks[0].events@, id) {
            Some(k) => if tracks[0].events@[k].event_type == EventType::AudioClip {
                Some(tracks[0].events@[k])
            } else {
                audio_event_in(tracks.skip(1), id)
            },
            None => audio_event_in(tracks.skip(1), id),
        }
    }
}

/// The audio clip a stem separation starts from: the first of the selected
/// events, in order, that is one.
pub open spec fn first_audio_event(tracks: Seq<Track>, ids: Seq<u128>) -> Option<Event>
    decreases ids.len(),
{
    if ids.len() == 0 {
        None
    } else {
        match audio_event_in(tracks, ids[0]) {
            Some(e) => Some(e),
            None => first_audio_event(tracks, ids.skip(1)),
        }
    }
}

fn event_index(evs: &Vec<Event>, id: u128) -> (r: Option<usize>)
    ensures
        r matches Some(k) ==> index_of_id(evs@, id) == Some(k as int) && k < evs@.len(),
        r is None ==> index_of_id(evs@, id) is None,
{
    proof {
        lemma_index_of_id(evs@, id);
    }
    let mut i: usize = 0;
    while i < evs.len()
        invariant
            0 <= i <= evs@.len(),
            forall|j: int| 0 <= j < i ==> evs@[j].id != id,
        decreases evs@.len() - i,
    {
        if evs[i].id == id {
            proof {
                lemma_index_of_id(evs@, id);
                if let Some(k) = index_of_id(evs@, id) {
                    if k < i {
                        assert(evs@[k].id != id);
                    }
                    if k > i {
                        assert(evs@[i as int].id != id);
                    }
                } else {
                    assert(evs@[i as int].id == id);
                }
            }
            return Some(i);
        }
        i = i + 1;
    }
    proof {
        lemma_index_of_id(evs@, id);
        if let Some(k) = index_of_id(evs@, id) {
            assert(evs@[k].id != id);
        }
    }
    None
}

fn audio_event_of(tracks: &Vec<Track>, id: u128) -> (r: Option<Event>)
    ensures
        r == audio_event_in(tracks@, id),
{
    let mut t: usize = 0;
    assert(tracks@.skip(0) =~= tracks@);
    while t < tracks.len()
        invariant
            0 <= t <= tracks@.len(),
            audio_event_in(tracks@, id) == audio_event_in(tracks@.skip(t as int), id),
        decreases tracks@.len() - t,
    {
        proof {
            assert(tracks@.skip(t as int)[0] == tracks@[t as int]);
            assert(tracks@.skip(t as int).skip(1) =~= tracks@.skip(t + 1));
        }
        match event_index(&tracks[t].events, id) {
            Some(k) => {
                proof {
                    lemma_index_of_id(tracks@[t as int].events@, id);
                }
                if tracks[t].events[k].event_type == EventType::AudioClip {
                    return Some(tracks[t].events[k].duplicate());
                }
            },
            None => {},
        }
        t = t + 1;
    }
    None
}

/// What the stem separation tab can start from.
pub enum StemSource {
    /// No selected event is an audio clip.
    NoAudio,
    /// More than one event is selected.
    TooMany,
    /// This audio clip.
    One(Event),
}

/// Picks the audio clip a stem separation starts from among the selected
/// events `selected`, each listed once.
pub fn stem_source(tracks: &Vec<Track>, selected: &Vec<u128>) -> (r: StemSource)
    ensures
        match first_audio_event(tracks@, selected@) {
            None => r is NoAudio,
            Some(e) => if selected@.len() > 1 {
                r is TooMany
            } else {
                r == StemSource::One(e)
            },
        },
{
    let mut i: usize = 0;
    assert(selected@.skip(0) =~= selected@);
    while i < selected.len()
        invariant
            0 <= i <= selected@.len(),
            first_audio_event(tracks@, selected@) == first_audio_event(tracks@, selected@.skip(i as int)),
        decreases selected@.len() - i,
    {
        proof {
            assert(selected@.skip(i as int)[0] == selected@[i as int]);
            assert(selected@.skip(i as int).skip(1) =~= selected@.skip(i + 1));
        }
        match audio_event_of(tracks, selected[i]) {
            Some(e) => {
                if selected.len() > 1 {
                    return StemSource::TooMany;
                }
                return StemSource::One(e);
            },
            None => {},
        }
        i = i + 1;
    }
    StemSource::NoAudio
}

/// The settings of the stem separation tab: the model, the codec of the
/// stems, and their bit rate (0 for the codec's default).
pub struct HtdemucsTab {
    pub selected_model: Option<(u128, String)>,
    pub selected_codec: AudioCodec,
    pub bitrate: u32,
}

impl HtdemucsTab {
    /// No model, FLAC, the default bit rate.
    pub fn new() -> (t: HtdemucsTab)
        ensures
            t.selected_model is None,
            t.selected_codec == AudioCodec::Flac,
            t.bitrate == 0,
    {
        HtdemucsTab { selected_model: None, selected_codec: AudioCodec::Flac, bitrate: 0 }
    }

    /// Chooses the codec; with the default bit rate, AAC takes 256 kbit/s
    /// and MP3 320 kbit/s.
    pub fn select_codec(&mut self, codec: AudioCodec)
        ensures
            final(self).selected_codec == codec,
            final(self).selected_model == old(self).selected_model,
            final(self).bitrate == (if old(self).bitrate == 0 && codec == AudioCodec::Aac {
                256000
            } else if old(self).bitrate == 0 && codec == AudioCodec::Mp3 {
                320000
            } else {
                old(self).bitrate
            }),
    {
        self.selected_codec = codec;
        if self.bitrate == 0 && codec == AudioCodec::Aac {
            self.bitrate = 256000;
        } else if self.bitrate == 0 && codec == AudioCodec::Mp3 {
            self.bitrate = 320000;
        }
    }

    /// Whether the codec takes a bit rate.
    pub fn bitrate_editable(&self) -> (b: bool)
        ensures
            b == (self.selected_codec == AudioCodec::Aac || self.selected_codec == AudioCodec::Mp3),
    {
        self.selected_codec == AudioCodec::Aac || self.selected_codec == AudioCodec::Mp3
    }

    /// The bit rate as typed: a number replaces it, anything else is
    /// ignored.
    pub fn set_bitrate_text(&mut self, text: &str)
        ensures
            final(self).bitrate == match parse_u32_spec(text@) {
                Some(b) => b,
                None => old(self).bitrate,
            },
            final(self).selected_codec == old(self).selected_codec,
            final(self).selected_model == old(self).selected_model,
    {
        if let Some(b) = parse_u32(text) {
            self.bitrate = b;
        }
    }
}

/// The file name, in the temporary directory, of stem `stem` of the
/// separation `out_id`.
pub open spec fn stem_file_name_spec(out_id: u128, stem: Seq<char>) -> Seq<char> {
    id_text(out_id) + "-"@ + stem
}

/// The file name of stem `stem` of the separation `out_id`.
pub fn stem_file_name(out_id: u128, stem: &str) -> (s: String)
    ensures
        s@ == stem_file_name_spec(out_id, stem@),
{
    let mut s = id_string(out_id);
    s.append("-");
    s.append(stem);
    s
}

/// The path of `name` inside the directory `dir`, as `Path::join` makes it
/// for a relative name where `/` separates components: a `/` goes between
/// them unless `dir` is empty or already ends in one.
pub open spec fn join_path_spec(dir: Seq<char>, name: Seq<char>) -> Seq<char> {
    if dir.len() == 0 || dir.last() == '/' {
        dir + name
    } else {
        dir + "/"@ + name
    }
}

/// The path of `name` inside the directory `dir`.
pub fn join_path(dir: &str, name: &str) -> (s: String)
    ensures
        s@ == join_path_spec(dir@, name@),
{
    let cs = chars_of(dir);
    let mut s = dir.to_owned();
    if cs.len() > 0 && cs[cs.len() - 1] != '/' {
        s.append("/");
    }
    s.append(name);
    s
}

/// What a click on Start hands to the worker for a stem separation: the
/// task it runs under, the name of its output, the model, the file it
/// reads, the four stems it writes, and how they are encoded.
pub struct StemStart {
    pub task_id: u128,
    pub out_id: u128,
    pub model_id: u128,
    pub input_path: String,
    pub vocals_path: String,
    pub drums_path: String,
    pub bass_path: String,
    pub other_path: String,
    pub codec: AudioCodec,
    pub bit_rate: u32,
}

/// The clip a stem separation starts from: with a project, the first
/// selected audio clip, when it is the only selected event.
pub open spec fn stem_source_spec(project: Option<Project>, selected: Seq<u128>) -> Option<Event> {
    match project {
        None => None,
        Some(p) => match first_audio_event(p.file.tracks@, selected) {
            Some(e) => if selected.len() > 1 {
                None
            } else {
                Some(e)
            },
            None => None,
        },
    }
}

/// An optional text, as the contracts see it.
pub open spec fn opt_chars(t: Option<String>) -> Option<Seq<char>> {
    match t {
        Some(s) => Some(s@),
        None => None,
    }
}

/// The file the clip `e` is read from: its path, or for an attachment the
/// path that attachment resolves to, when the project has it.
pub open spec fn stem_input_spec(e: Event, attachment_path: Option<Seq<char>>) -> Option<Seq<char>> {
    match e.value {
        Some(EventValue::AudioClip { file, .. }) => match file.source {
            AudioFileSource::Path(p) => Some(p@),
            AudioFileSource::Attachment(_) => attachment_path,
        },
        _ => None,
    }
}

/// The path, in the directory `temp`, of stem `stem` of the separation
/// `out_id`.
pub open spec fn stem_path_spec(temp: Seq<char>, out_id: u128, stem: Seq<char>) -> Seq<char> {
    join_path_spec(temp, stem_file_name_spec(out_id, stem))
}

/// Stems of one separation go to different files.
pub proof fn lemma_stem_paths_distinct(temp: Seq<char>, out_id: u128)
    ensures
        ({
            let v = stem_path_spec(temp, out_id, "vocals"@);
            let d = stem_path_spec(temp, out_id, "drums"@);
            let b = stem_path_spec(temp, out_id, "bass"@);
            let o = stem_path_spec(temp, out_id, "other"@);
            &&& v != d
            &&& v != b
            &&& v != o
            &&& d != b
            &&& d != o
            &&& b != o
        }),
{
    reveal_strlit("vocals");
    reveal_strlit("drums");
    reveal_strlit("bass");
    reveal_strlit("other");
    reveal_strlit("-");
    reveal_strlit("/");
    let prefix = if temp.len() == 0 || temp.last() == '/' {
        temp + id_text(out_id) + "-"@
    } else {
        temp + "/"@ + id_text(out_id) + "-"@
    };
    let k = prefix.len() as int;
    assert forall|stem: Seq<char>| stem.len() > 0 implies #[trigger] stem_path_spec(temp, out_id, stem) =~= prefix
        + stem by {}
    assert((prefix + "vocals"@)[k] == 'v');
    assert((prefix + "drums"@)[k] == 'd');
    assert((prefix + "bass"@)[k] == 'b');
    assert((prefix + "other"@)[k] == 'o');
}

impl HtdemucsTab {
    /// A click on Start: with a project, exactly one selected event, an
    /// audio clip whose file is known, and a model chosen, one running task
    /// named "Stem Separation" is recorded for the clip, a window following
    /// it is added, and what the worker is to do is returned, its four
    /// stems going to distinct files in `temp_dir`. Otherwise nothing
    /// changes. `attachment_path` is where the clip's attachment resolves,
    /// when the clip is one and the project has it.
    pub fn start(
        &self,
        project: &Option<Project>,
        selected: &Vec<u128>,
        attachment_path: &Option<String>,
        temp_dir: &str,
        tasks: &mut TaskManager,
        modals: &mut ModalManager,
    ) -> (r: Option<StemStart>)
        ensures
            match (stem_source_spec(*project, selected@), self.selected_model) {
                (Some(e), Some((model, _))) => match stem_input_spec(e, opt_chars(*attachment_path)) {
                    Some(input) => r matches Some(st) && st.model_id == model && st.codec == self.selected_codec
                        && st.bit_rate == self.bitrate && st.input_path@ == input
                        && st.vocals_path@ == stem_path_spec(temp_dir@, st.out_id, "vocals"@)
                        && st.drums_path@ == stem_path_spec(temp_dir@, st.out_id, "drums"@)
                        && st.bass_path@ == stem_path_spec(temp_dir@, st.out_id, "bass"@)
                        && st.other_path@ == stem_path_spec(temp_dir@, st.out_id, "other"@)
                        && final(tasks).tasks@.len() == old(tasks).tasks@.len() + 1
                        && final(tasks).tasks@.drop_last() == old(tasks).tasks@
                        && final(tasks).tasks@.last().id == st.task_id
                        && final(tasks).tasks@.last().name@ == "Stem Separation"@
                        && final(tasks).tasks@.last().status == TaskStatus::Running { progress: 0 }
                        && !final(tasks).tasks@.last().is_finalized
                        && !final(tasks).tasks@.last().pending_completion
                        && final(tasks).tasks@.last().extra_data == TaskExtraData::Htdemucs { source_event_id: e.id }
                        && final(modals).new_modals@ == old(modals).new_modals@.push(
                        Modal::Task(TaskModal { task_id: st.task_id, open: true }),
                    ) && final(modals).modals@ == old(modals).modals@,
                    None => r is None && final(tasks).tasks@ == old(tasks).tasks@ && final(modals).modals@ == old(
                        modals,
                    ).modals@ && final(modals).new_modals@ == old(modals).new_modals@,
                },
                _ => r is None && final(tasks).tasks@ == old(tasks).tasks@ && final(modals).modals@ == old(
                    modals,
                ).modals@ && final(modals).new_modals@ == old(modals).new_modals@,
            },
            r matches Some(st) ==> st.vocals_path@ != st.drums_path@ && st.vocals_path@ != st.bass_path@
                && st.vocals_path@ != st.other_path@ && st.drums_path@ != st.bass_path@ && st.drums_path@
                != st.other_path@ && st.bass_path@ != st.other_path@,
    {
        let p = match project {
            None => return None,
            Some(p) => p,
        };
        let e = match stem_source(&p.file.tracks, selected) {
            StemSource::One(e) => e,
            _ => return None,
        };
        let model_id = match &self.selected_model {
            Some((id, _)) => *id,
            None => return None,
        };
        let input_path = match &e.value {
            Some(EventValue::AudioClip { file, .. }) => match &file.source {
                AudioFileSource::Path(path) => path.clone(),
                AudioFileSource::Attachment(_) => match attachment_path {
                    Some(path) => path.clone(),
                    None => return None,
                },
            },
            _ => return None,
        };
        let out_id = crate::ids::fresh_id();
        let vocals_path = join_path(temp_dir, stem_file_name(out_id, "vocals").as_str());
        let drums_path = join_path(temp_dir, stem_file_name(out_id, "drums").as_str());
        let bass_path = join_path(temp_dir, stem_file_name(out_id, "bass").as_str());
        let other_path = join_path(temp_dir, stem_file_name(out_id, "other").as_str());
        let task_id = tasks.start_task(
            "Stem Separation".to_string(),
            TaskExtraData::Htdemucs { source_event_id: e.id },
        );
        modals.add(Modal::Task(TaskModal::new(task_id)));
        proof {
            lemma_stem_paths_distinct(temp_dir@, out_id);
        }
        Some(
            StemStart {
                task_id,
                out_id,
                model_id,
                input_path,
                vocals_path,
                drums_path,
                bass_path,
                other_path,
                codec: self.selected_codec,
                bit_rate: self.bitrate,
            },
        )
    }
}

/// What the task window does after a frame: whether it closes, whether it
/// cancels the task, and whether the task is done with.
pub fn task_modal_action(status: Option<&TaskStatus>, clicked: bool) -> (r: (bool, bool, bool))
    ensures
        r == match status {
            None => (true, false, false),
            Some(TaskStatus::Running { .. }) => (clicked, clicked, clicked),
            Some(TaskStatus::Complete(_)) => (clicked, false, clicked),
            Some(TaskStatus::Failed(_)) => (clicked, false, clicked),
            Some(TaskStatus::Cancelled) => (true, false, false),
        },
{
    match status {
        None => (true, false, false),
        Some(TaskStatus::Running { .. }) => (clicked, clicked, clicked),
        Some(TaskStatus::Complete(_)) => (clicked, false, clicked),
        Some(TaskStatus::Failed(_)) => (clicked, false, clicked),
        Some(TaskStatus::Cancelled) => (true, false, false),
    }
}

/// Where the stems of a separation go: the timing and offset of the clip
/// that was separated, and the place of the first new track.
pub struct StemPlan {
    pub start: u32,
    pub end: u32,
    pub offset: u32,
    pub next_order: u32,
}

/// Plans bringing the stems of the clip `source_event_id` into the project:
/// an error without a project, when no track holds the event, or when it is
/// no audio clip.
pub fn stem_plan(project: &Option<Project>, source_event_id: u128) -> (r: Result<StemPlan, UiError>)
    ensures
        match project {
            None => r matches Err(UiError::InvalidCommand(m)) && m@ == "HtdemucsResultCommand without project"@,
            Some(p) => match locate_event(p.file.tracks@, source_event_id) {
                None => r matches Err(UiError::InvalidCommand(m)) && m@ == "Can't find source event ID "@ + id_text(
                    source_event_id,
                ),
                Some((t, ev)) => match ev.value {
                    Some(EventValue::AudioClip { offset, .. }) => r matches Ok(plan) && plan.start == ev.start_timecode
                        && plan.end == ev.end_timecode && plan.offset == offset && plan.next_order == next_order(
                        p.file.tracks@,
                    ),
                    _ => r matches Err(UiError::InvalidCommand(m)) && m@ == "Could not get source event offset for ID "@
                        + id_text(source_event_id),
                },
            },
        },
{
    let p = match project {
        None => {
            return Err(UiError::InvalidCommand("HtdemucsResultCommand without project".to_string()));
        },
        Some(p) => p,
    };
    let ev = match find_located(&p.file.tracks, source_event_id) {
        None => {
            let mut m = "Can't find source event ID ".to_string();
            m.append(id_string(source_event_id).as_str());
            return Err(UiError::InvalidCommand(m));
        },
        Some(ev) => ev,
    };
    match ev.value {
        Some(EventValue::AudioClip { offset, .. }) => Ok(
            StemPlan {
                start: ev.start_timecode,
                end: ev.end_timecode,
                offset,
                next_order: next_order_of(&p.file.tracks),
            },
        ),
        _ => {
            let mut m = "Could not get source event offset for ID ".to_string();
            m.append(id_string(source_event_id).as_str());
            Err(UiError::InvalidCommand(m))
        },
    }
}

/// The tracks of `tracks` that are not among `created`.
pub open spec fn without_created(tracks: Seq<Track>, created: Seq<u128>) -> Seq<Track>
    decreases tracks.len(),
{
    if tracks.len() == 0 {
        tracks
    } else if created.contains(tracks.last().id) {
        without_created(tracks.drop_last(), created)
    } else {
        without_created(tracks.drop_last(), created).push(tracks.last())
    }
}

/// Whether `t` is the track made for one stem of a separation planned as
/// `plan`: an audio track at `order`, holding one clip with the timing and
/// offset of the separated clip, whose file is the attachment `attachment`
/// of type `file_type`.
pub open spec fn is_stem_track(t: Track, plan: StemPlan, order: int, attachment: u128, file_type: AudioFileType) -> bool {
    &&& t.order == order
    &&& t.track_type == TrackType::Audio
    &&& t.track_value == Some(crate::project::default_value(TrackType::Audio))
    &&& t.events@.len() == 1
    &&& t.events@[0].start_timecode == plan.start
    &&& t.events@[0].end_timecode == plan.end
    &&& t.events@[0].event_type == EventType::AudioClip
    &&& t.events@[0].linked_id is None
    &&& t.events@[0].value matches Some(EventValue::AudioClip { file, offset }) && offset == plan.offset
        && file.file_type == file_type && file.source == AudioFileSource::Attachment(attachment)
}

/// The tracks that bring the stems of a separation planned as `plan` into
/// the project: for each stem, in order, given as the attachment holding its
/// file and the file's type, an audio track placed after the last, the
/// first at `plan.next_order`.
pub fn stem_tracks(plan: &StemPlan, stems: &Vec<(u128, AudioFileType)>) -> (ts: Vec<Track>)
    requires
        plan.next_order + stems@.len() <= u32::MAX + 1,
    ensures
        ts@.len() == stems@.len(),
        forall|i: int|
            0 <= i < stems@.len() ==> is_stem_track(
                #[trigger] ts@[i],
                *plan,
                plan.next_order + i,
                stems@[i].0,
                stems@[i].1,
            ),
{
    let mut ts: Vec<Track> = Vec::new();
    let mut i: usize = 0;
    while i < stems.len()
        invariant
            0 <= i <= stems@.len(),
            plan.next_order + stems@.len() <= u32::MAX + 1,
            ts@.len() == i,
            forall|j: int|
                0 <= j < i ==> is_stem_track(#[trigger] ts@[j], *plan, plan.next_order + j, stems@[j].0, stems@[j].1),
        decreases stems@.len() - i,
    {
        let (attachment, file_type) = stems[i];
        let mut t = Track::new_type(TrackType::Audio, plan.next_order + i as u32);
        let file = AudioFile { id: crate::ids::fresh_id(), file_type, source: AudioFileSource::Attachment(attachment) };
        t.events.push(Event::new_audio(plan.start, plan.end, plan.offset, file));
        ts.push(t);
        i = i + 1;
    }
    ts
}

/// Brings the results of the separation of clip `source_event_id` into the
/// project: the stem tracks planned from it (see `stem_tracks`) join the end
/// of its tracks, and their identifiers are returned, to undo with. The
/// errors are those of `stem_plan`, and leave the project as it was.
pub fn add_stem_tracks(project: &mut Option<Project>, source_event_id: u128, stems: &Vec<(u128, AudioFileType)>) -> (r:
    Result<Vec<u128>, UiError>)
    requires
        *old(project) matches Some(p) ==> next_order(p.file.tracks@) + stems@.len() <= u32::MAX + 1,
    ensures
        (r is Err) == (match *old(project) {
            None => true,
            Some(p) => match locate_event(p.file.tracks@, source_event_id) {
                None => true,
                Some((t, ev)) => !(ev.value matches Some(EventValue::AudioClip { .. })),
            },
        }),
        r is Err ==> *final(project) == *old(project),
        r matches Ok(ids) ==> (*old(project) matches Some(p) && *final(project) matches Some(q) && ({
            let n = p.file.tracks@.len();
            let (t, ev) = locate_event(p.file.tracks@, source_event_id)->0;
            let plan = StemPlan {
                start: ev.start_timecode,
                end: ev.end_timecode,
                offset: ev.value->0->AudioClip_offset,
                next_order: next_order(p.file.tracks@),
            };
            &&& q.id == p.id
            &&& q.name == p.name
            &&& q.dirty == p.dirty
            &&& q.length == p.length
            &&& q.file.tracks@.len() == n + stems@.len()
            &&& q.file.tracks@.take(n as int) == p.file.tracks@
            &&& ids@.len() == stems@.len()
            &&& forall|i: int|
                0 <= i < stems@.len() ==> is_stem_track(
                    #[trigger] q.file.tracks@[n + i],
                    plan,
                    plan.next_order + i,
                    stems@[i].0,
                    stems@[i].1,
                ) && ids@[i] == q.file.tracks@[n + i].id
        })),
{
    let plan = match stem_plan(project, source_event_id) {
        Ok(plan) => plan,
        Err(e) => return Err(e),
    };
    let mut ts = stem_tracks(&plan, stems);
    let mut ids: Vec<u128> = Vec::new();
    let mut i: usize = 0;
    while i < ts.len()
        invariant
            0 <= i <= ts@.len(),
            ids@.len() == i,
            forall|j: int| 0 <= j < i ==> #[trigger] ids@[j] == ts@[j].id,
        decreases ts@.len() - i,
    {
        ids.push(ts[i].id);
        i = i + 1;
    }
    let p = match project {
        Some(p) => p,
        None => return Err(UiError::InvalidCommand("HtdemucsResultCommand without project".to_string())),
    };
    let ghost added = ts@;
    p.file.tracks.append(&mut ts);
    Ok(ids)
}

/// Undoes a separation: drops the tracks it created.
pub fn drop_created_tracks(tracks: &mut Vec<Track>, created: &Vec<u128>)
    ensures
        final(tracks)@ == without_created(old(tracks)@, created@),
{
    let mut rest: Vec<Track> = Vec::new();
    std::mem::swap(&mut rest, tracks);
    let ghost all = rest@;
    let ghost mut i: int = 0;
    assert(all.skip(0) =~= all);
    assert(tracks@ =~= without_created(all.take(0), created@));
    while rest.len() > 0
        invariant
            0 <= i <= all.len(),
            rest@ == all.skip(i),
            tracks@ == without_created(all.take(i), created@),
        decreases rest@.len(),
    {
        let t = rest.remove(0);
        proof {
            assert(t == all[i]);
            assert(rest@ =~= all.skip(i + 1));
            assert(all.take(i + 1).drop_last() =~= all.take(i));
            assert(all.take(i + 1).last() == t);
        }
        let mut found = false;
        let mut k: usize = 0;
        while k < created.len()
            invariant
                0 <= k <= created@.len(),
                found == exists|j: int| 0 <= j < k && created@[j] == t.id,
            decreases created@.len() - k,
        {
            if created[k] == t.id {
                found = true;
            }
            k = k + 1;
        }
        proof {
            assert(found == created@.contains(t.id));
        }
        if !found {
            tracks.push(t);
        }
        proof {
            i = i + 1;
        }
    }
    proof {
        assert(all.take(i) =~= all);
    }
}

/// The option a dropdown shows as chosen for `value`: the first option with
/// that text, else the first option.
pub fn option_index(options: &[&str], value: &str) -> (i: usize)
    ensures
        (exists|j: int| 0 <= j < options@.len() && (#[trigger] options@[j])@ == value@) ==> i < options@.len()
            && options@[i as int]@ == value@ && forall|j: int| 0 <= j < i ==> (#[trigger] options@[j])@ != value@,
        !(exists|j: int| 0 <= j < options@.len() && (#[trigger] options@[j])@ == value@) ==> i == 0,
{
    let mut i: usize = 0;
    while i < options.len()
        invariant
            0 <= i <= options@.len(),
            forall|j: int| 0 <= j < i ==> (#[trigger] options@[j])@ != value@,
        decreases options@.len() - i,
    {
        if same_text(options[i], value) {
            return i;
        }
        i = i + 1;
    }
    0
}

} // verus!
