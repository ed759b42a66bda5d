use vstd::prelude::*;

use crate::lyrics::AudioFileType;
use crate::text::{chars_of, decimal, decimal_spec, string_from_chars};
use crate::timecode::Timecode;
use crate::ui_event::UiError;

verus! {

/// What an audio provider, source or filter, gives: how many channels and
/// at what sample rate.
#[derive(Debug, Clone, Copy, PartialEq, Eq, Structural)]
pub struct AudioInfo {
    pub num_channels: usize,
    pub sample_rate: usize,
}

/// The codecs audio can be encoded with.
#[derive(Debug, Clone, Copy, PartialEq, Eq, Structural)]
pub enum AudioCodec {
    Mp3,
    Aac,
    Wav,
    Flac,
}

/// Options for an encoder: the bit rate, which not every encoder uses, and
/// a string of options in the encoder's own format.
pub struct AudioEncoderOptions {
    pub bit_rate: usize,
    pub options: String,
}

/// The file extension for a codec.
pub open spec fn extension_spec(c: AudioCodec) -> Seq<char> {
    match c {
        AudioCodec::Mp3 => "mp3"@,
        AudioCodec::Aac => "m4a"@,
        AudioCodec::Wav => "wav"@,
        AudioCodec::Flac => "flac"@,
    }
}

/// What `Path::with_extension` makes of a path and an extension.
pub uninterp spec fn path_with_extension(path: Seq<char>, ext: Seq<char>) -> Seq<char>;

/// `path` with its extension replaced by, or extended with, `ext`.
///
/// Wraps `std::path::Path::with_extension`. For a path and an extension
/// that are valid UTF-8 the result is too, so it is read back unchanged.
/// The contract names the result and says nothing more of it.
#[verifier::external_body]
fn with_extension(path: &str, ext: &str) -> (r: String)
    requires
        // `PathBuf::set_extension` panics on an extension that holds a path
        // separator.
        !ext@.contains('/'),
        !ext@.contains('\\'),
    ensures
        r@ == path_with_extension(path@, ext@),
{
    std::path::Path::new(path).with_extension(ext).to_string_lossy().into_owned()
}

impl AudioCodec {
    /// The file extension for the codec.
    pub fn extension(&self) -> (e: &'static str)
        ensures
            e@ == extension_spec(*self),
    {
        match self {
            AudioCodec::Mp3 => "mp3",
            AudioCodec::Aac => "m4a",
            AudioCodec::Wav => "wav",
            AudioCodec::Flac => "flac",
        }
    }

    /// The given path with the extension that matches the codec.
    pub fn set_extension(&self, path: &str) -> (p: String)
        ensures
            p@ == path_with_extension(path@, extension_spec(*self)),
    {
        let e = self.extension();
        proof {
            reveal_strlit("mp3");
            reveal_strlit("m4a");
            reveal_strlit("wav");
            reveal_strlit("flac");
            assert(!e@.contains('/') && !e@.contains('\\')) by {
                if e@.contains('/') || e@.contains('\\') {
                    let k = choose|k: int| 0 <= k < e@.len() && (e@[k] == '/' || e@[k] == '\\');
                    assert(e@[k] != '/' && e@[k] != '\\');
                }
            }
        }
        with_extension(path, e)
    }
}

/// An audio source that gives silence without end.
pub struct NullAudioSource {
    pub channels: usize,
    pub sample_rate: usize,
}

impl NullAudioSource {
    /// What the source gives.
    pub fn info(&self) -> (i: AudioInfo)
        ensures
            i == (AudioInfo { num_channels: self.channels, sample_rate: self.sample_rate }),
    {
        AudioInfo { num_channels: self.channels, sample_rate: self.sample_rate }
    }

    /// The source never ends: its duration is the most samples there can be.
    pub fn duration(&self) -> (t: Timecode)
        ensures
            t.samples == usize::MAX,
            t.sample_rate == self.sample_rate,
    {
        Timecode { samples: usize::MAX, sample_rate: self.sample_rate }
    }

    /// A read fills the whole buffer: as many frames as it holds.
    pub fn frames_read(&self, buffer_frames: usize) -> (n: usize)
        ensures
            n == buffer_frames,
    {
        buffer_frames
    }
}

/// The message for a remapper with no channel.
pub open spec fn no_channels_text() -> Seq<char> {
    "Can't create a channel remapper with 0 channels"@
}

/// The message for a mapping whose length is not the channel count.
pub open spec fn mapping_len_text(new_channels: nat, len: nat) -> Seq<char> {
    "Created a channel remapper with "@ + decimal_spec(new_channels) + " channels but a mapping of len "@
        + decimal_spec(len) + " was given"@
}

/// The message for a mapping that names a channel the ancestor lacks.
pub open spec fn mapping_index_text(channels: nat, index: nat) -> Seq<char> {
    "Ancestor only provides "@ + decimal_spec(channels) + " channels but mapping contains index "@
        + decimal_spec(index)
}

/// The index of the first entry of `mapping` that names no channel of the
/// ancestor's `channels`.
pub open spec fn first_bad(mapping: Seq<usize>, channels: usize) -> Option<int>
    decreases mapping.len(),
{
    if mapping.len() == 0 {
        None
    } else if mapping[0] >= channels {
        Some(0)
    } else {
        match first_bad(mapping.skip(1), channels) {
            Some(i) => Some(i + 1),
            None => None,
        }
    }
}

proof fn lemma_first_bad(mapping: Seq<usize>, channels: usize)
    ensures
        first_bad(mapping, channels) matches Some(i) ==> (0 <= i < mapping.len() && mapping[i] >= channels
            && forall|j: int| 0 <= j < i ==> mapping[j] < channels),
        first_bad(mapping, channels) is None ==> forall|j: int| 0 <= j < mapping.len() ==> mapping[j] < channels,
    decreases mapping.len(),
{
    if mapping.len() > 0 && mapping[0] < channels {
        lemma_first_bad(mapping.skip(1), channels);
        assert forall|j: int| 1 <= j < mapping.len() implies mapping.skip(1)[j - 1] == mapping[j] by {}
    }
}

/// Checks a channel remapping of an ancestor giving `info` to
/// `new_channels` channels, where output channel `i` takes the ancestor's
/// channel `mapping[i]`: gives what the remapper provides, or why the
/// mapping is refused.
pub fn check_channel_mapping(info: AudioInfo, new_channels: usize, mapping: &[usize]) -> (r: Result<AudioInfo, String>)
    ensures
        new_channels < 1 ==> (r matches Err(m) && m@ == no_channels_text()),
        new_channels >= 1 && mapping@.len() != new_channels ==> (r matches Err(m) && m@ == mapping_len_text(
            new_channels as nat,
            mapping@.len(),
        )),
        new_channels >= 1 && mapping@.len() == new_channels ==> match first_bad(mapping@, info.num_channels) {
            Some(i) => r matches Err(m) && m@ == mapping_index_text(info.num_channels as nat, mapping@[i] as nat),
            None => r == Ok::<AudioInfo, String>(AudioInfo { num_channels: new_channels, sample_rate: info.sample_rate }),
        },
{
    if new_channels < 1 {
        return Err("Can't create a channel remapper with 0 channels".to_string());
    }
    if mapping.len() != new_channels {
        let mut m = "Created a channel remapper with ".to_string();
        m.append(decimal(new_channels as u64).as_str());
        m.append(" channels but a mapping of len ");
        m.append(decimal(mapping.len() as u64).as_str());
        m.append(" was given");
        return Err(m);
    }
    proof {
        lemma_first_bad(mapping@, info.num_channels);
    }
    let mut i: usize = 0;
    while i < mapping.len()
        invariant
            new_channels >= 1,
            mapping@.len() == new_channels,
            0 <= i <= mapping@.len(),
            forall|j: int| 0 <= j < i ==> mapping@[j] < info.num_channels,
        decreases mapping@.len() - i,
    {
        if mapping[i] >= info.num_channels {
            proof {
                lemma_first_bad(mapping@, info.num_channels);
                if let Some(k) = first_bad(mapping@, info.num_channels) {
                    if k < i {
                        assert(mapping@[k] < info.num_channels);
                    }
                    if k > i {
                        assert(mapping@[i as int] < info.num_channels);
                    }
                }
            }
            let mut m = "Ancestor only provides ".to_string();
            m.append(decimal(info.num_channels as u64).as_str());
            m.append(" channels but mapping contains index ");
            m.append(decimal(mapping[i] as u64).as_str());
            return Err(m);
        }
        i = i + 1;
    }
    proof {
        lemma_first_bad(mapping@, info.num_channels);
        if let Some(k) = first_bad(mapping@, info.num_channels) {
            assert(mapping@[k] < info.num_channels);
        }
    }
    Ok(AudioInfo { num_channels: new_channels, sample_rate: info.sample_rate })
}

/// The smallest of `rates` above `target`, if any.
pub open spec fn is_least_above(rates: Seq<i32>, target: i32, r: i32) -> bool {
    &&& rates.contains(r)
    &&& r > target
    &&& forall|i: int| 0 <= i < rates.len() && rates[i] > target ==> r <= rates[i]
}

/// The sample rate an encoder that supports `rates` uses for audio at
/// `target`: the target when supported, else the closest supported rate
/// above it, else the highest supported rate, else the target.
pub open spec fn sample_rate_choice(rates: Seq<i32>, target: i32, r: i32) -> bool {
    if rates.contains(target) {
        r == target
    } else if exists|i: int| 0 <= i < rates.len() && rates[i] > target {
        is_least_above(rates, target, r)
    } else if rates.len() > 0 {
        rates.contains(r) && forall|i: int| 0 <= i < rates.len() ==> rates[i] <= r
    } else {
        r == target
    }
}

/// Picks the sample rate to encode audio at `target_rate` with an encoder
/// that supports `rates`. The list is only read: the choice does not depend
/// on its order.
pub fn select_sample_rate(rates: &[i32], target_rate: i32) -> (r: i32)
    requires
        // Ranking rates below the target by their distance to it must not
        // overflow.
        (forall|i: int| 0 <= i < rates@.len() ==> rates@[i] < target_rate) ==> forall|i: int|
            0 <= i < rates@.len() ==> target_rate - rates@[i] <= i32::MAX,
    ensures
        sample_rate_choice(rates@, target_rate, r),
{
    let mut i: usize = 0;
    let mut above: Option<i32> = None;
    let mut best: Option<i32> = None;
    while i < rates.len()
        invariant
            0 <= i <= rates@.len(),
            forall|j: int| 0 <= j < i ==> rates@[j] != target_rate,
            match above {
                Some(a) => rates@.take(i as int).contains(a) && a > target_rate && forall|j: int|
                    0 <= j < i && rates@[j] > target_rate ==> a <= rates@[j],
                None => forall|j: int| 0 <= j < i ==> rates@[j] <= target_rate,
            },
            match best {
                Some(b) => rates@.take(i as int).contains(b) && forall|j: int| 0 <= j < i ==> rates@[j] <= b,
                None => i == 0,
            },
        decreases rates@.len() - i,
    {
        let x = rates[i];
        if x == target_rate {
            proof {
                assert(rates@.contains(target_rate)) by {
                    assert(rates@[i as int] == target_rate);
                }
            }
            return target_rate;
        }
        let ghost a0 = above;
        let ghost b0 = best;
        if x > target_rate {
            match above {
                Some(a) => if x < a {
                    above = Some(x);
                },
                None => above = Some(x),
            }
        }
        match best {
            Some(b) => if x > b {
                best = Some(x);
            },
            None => best = Some(x),
        }
        proof {
            assert(rates@.take(i + 1) == rates@.take(i as int).push(x));
            if let Some(a) = above {
                if a == x {
                    assert(rates@.take(i + 1)[i as int] == x);
                } else {
                    assert(a0 == Some(a));
                    let k = choose|k: int| 0 <= k < i && rates@.take(i as int)[k] == a;
                    assert(rates@.take(i + 1)[k] == a);
                }
            }
            if let Some(b) = best {
                if b == x {
                    assert(rates@.take(i + 1)[i as int] == x);
                } else {
                    assert(b0 == Some(b));
                    let k = choose|k: int| 0 <= k < i && rates@.take(i as int)[k] == b;
                    assert(rates@.take(i + 1)[k] == b);
                }
            }
        }
        i = i + 1;
    }
    proof {
        assert(rates@.take(rates@.len() as int) == rates@);
        assert(!rates@.contains(target_rate)) by {
            if rates@.contains(target_rate) {
                let k = choose|k: int| 0 <= k < rates@.len() && rates@[k] == target_rate;
                assert(rates@[k] != target_rate);
            }
        }
    }
    match above {
        Some(a) => a,
        None => match best {
            Some(b) => b,
            None => target_rate,
        },
    }
}

/// The pieces of `cs` between the occurrences of `sep`, as `str::split`
/// gives them.
pub open spec fn split_on(cs: Seq<char>, sep: char) -> Seq<Seq<char>>
    decreases cs.len(),
{
    if cs.len() == 0 {
        seq![Seq::empty()]
    } else {
        let rest = split_on(cs.drop_last(), sep);
        if cs.last() == sep {
            rest.push(Seq::empty())
        } else {
            rest.update(rest.len() - 1, rest.last().push(cs.last()))
        }
    }
}

proof fn lemma_split_nonempty(cs: Seq<char>, sep: char)
    ensures
        split_on(cs, sep).len() >= 1,
    decreases cs.len(),
{
    if cs.len() > 0 {
        lemma_split_nonempty(cs.drop_last(), sep);
    }
}

/// The pieces as `str::split_terminator` gives them: an empty last piece
/// is dropped.
pub open spec fn split_terminated(cs: Seq<char>, sep: char) -> Seq<Seq<char>> {
    let p = split_on(cs, sep);
    if p.len() > 0 && p.last().len() == 0 {
        p.drop_last()
    } else {
        p
    }
}

/// What a string of encoder options says: comma-separated pairs, each a
/// key and a value joined by one `=`; `None` when a piece is not such a
/// pair.
pub open spec fn options_spec(cs: Seq<char>) -> Option<Seq<(Seq<char>, Seq<char>)>> {
    let pieces = split_terminated(cs, ',');
    if forall|i: int| 0 <= i < pieces.len() ==> (#[trigger] split_on(pieces[i], '=')).len() == 2 {
        Some(Seq::new(pieces.len(), |i: int| (split_on(pieces[i], '=')[0], split_on(pieces[i], '=')[1])))
    } else {
        None
    }
}

pub open spec fn views_of(v: Seq<Vec<char>>) -> Seq<Seq<char>> {
    Seq::new(v.len(), |i: int| v[i]@)
}

fn split_chars(cs: &Vec<char>, sep: char) -> (r: Vec<Vec<char>>)
    ensures
        views_of(r@) == split_on(cs@, sep),
{
    let mut out: Vec<Vec<char>> = Vec::new();
    let mut cur: Vec<char> = Vec::new();
    let mut i: usize = 0;
    while i < cs.len()
        invariant
            0 <= i <= cs@.len(),
            views_of(out@).push(cur@) == split_on(cs@.take(i as int), sep),
        decreases cs@.len() - i,
    {
        let c = cs[i];
        let ghost prev = split_on(cs@.take(i as int), sep);
        proof {
            assert(cs@.take(i + 1).drop_last() == cs@.take(i as int));
            assert(cs@.take(i + 1).last() == c);
        }
        if c == sep {
            let ghost o0 = out@;
            let done = cur;
            out.push(done);
            cur = Vec::new();
            proof {
                assert(views_of(out@) =~= views_of(o0).push(done@));
                assert(views_of(out@).push(cur@) =~= prev.push(Seq::empty()));
            }
        } else {
            let ghost c0 = cur@;
            cur.push(c);
            proof {
                assert(views_of(out@).push(cur@) =~= prev.update(prev.len() - 1, prev.last().push(c)));
            }
        }
        i = i + 1;
    }
    let ghost o0 = out@;
    let last = cur;
    out.push(last);
    proof {
        assert(cs@.take(cs@.len() as int) == cs@);
        assert(views_of(out@) =~= views_of(o0).push(last@));
    }
    out
}

/// Reads a string of encoder options: comma-separated `key=value` pairs,
/// a trailing comma allowed. `None` when a piece is not a pair.
pub fn parse_opts(s: &str) -> (r: Option<Vec<(String, String)>>)
    ensures
        match (r, options_spec(s@)) {
            (Some(v), Some(o)) => v@.len() == o.len() && forall|i: int| 0 <= i < o.len() ==> (#[trigger] v@[i]).0@
                == o[i].0 && v@[i].1@ == o[i].1,
            (None, None) => true,
            _ => false,
        },
{
    let cs = chars_of(s);
    let mut pieces = split_chars(&cs, ',');
    proof {
        lemma_split_nonempty(cs@, ',');
    }
    let n = pieces.len();
    if pieces[n - 1].len() == 0 {
        let _ = pieces.pop();
    }
    let ghost ps = split_terminated(s@, ',');
    proof {
        assert(views_of(pieces@) =~= ps);
    }
    let mut out: Vec<(String, String)> = Vec::new();
    let mut i: usize = 0;
    while i < pieces.len()
        invariant
            views_of(pieces@) == ps,
            ps == split_terminated(s@, ','),
            0 <= i <= pieces@.len(),
            out@.len() == i,
            forall|j: int| 0 <= j < i ==> (#[trigger] split_on(ps[j], '=')).len() == 2,
            forall|j: int| 0 <= j < i ==> (#[trigger] out@[j]).0@ == split_on(ps[j], '=')[0] && out@[j].1@ == split_on(
                ps[j],
                '=',
            )[1],
        decreases pieces@.len() - i,
    {
        let kv = split_chars(&pieces[i], '=');
        proof {
            assert(ps[i as int] == pieces@[i as int]@);
        }
        if kv.len() != 2 {
            proof {
                assert(split_on(ps[i as int], '=').len() != 2);
                assert(options_spec(s@) is None);
            }
            return None;
        }
        let k = string_from_chars(&kv[0]);
        let v = string_from_chars(&kv[1]);
        proof {
            assert(views_of(kv@)[0] == kv@[0]@);
            assert(views_of(kv@)[1] == kv@[1]@);
        }
        out.push((k, v));
        i = i + 1;
    }
    Some(out)
}

/// The MIME type that `infer` recognises from the first bytes of a file.
pub uninterp spec fn inferred_mime(header: Seq<u8>) -> Option<Seq<char>>;

/// The MIME type of a file from its first bytes (up to 8192 of them, as
/// `infer` reads from a path), if `infer` knows the format.
///
/// Wraps `infer::Infer::new` and `Infer::get`, and `Type::mime_type`. The
/// contract names the result after the bytes and says nothing more of it.
#[verifier::external_body]
fn infer_mime(header: &[u8]) -> (r: Option<String>)
    ensures
        match r {
            Some(m) => inferred_mime(header@) == Some(m@),
            None => inferred_mime(header@) is None,
        },
{
    infer::Infer::new().get(header).map(|t| t.mime_type().to_string())
}

/// The MIME type of a file from its first bytes.
pub fn file_mime(header: &[u8]) -> (r: Option<String>)
    ensures
        match r {
            Some(m) => inferred_mime(header@) == Some(m@),
            None => inferred_mime(header@) is None,
        },
{
    infer_mime(header)
}

/// The audio formats the editor reads, by MIME type.
pub open spec fn type_of_mime(mime: Seq<char>) -> Option<AudioFileType> {
    if mime == "audio/mpeg"@ {
        Some(AudioFileType::Mp3)
    } else if mime == "audio/x-flac"@ {
        Some(AudioFileType::Flac)
    } else if mime == "audio/ogg"@ {
        Some(AudioFileType::Ogg)
    } else if mime == "audio/x-wav"@ {
        Some(AudioFileType::Wave)
    } else if mime == "audio/aac"@ {
        Some(AudioFileType::Aac)
    } else {
        None
    }
}

/// The audio format of a MIME type, if the editor reads it.
pub fn file_type_from_mime(mime: &str) -> (r: Option<AudioFileType>)
    ensures
        r == type_of_mime(mime@),
{
    if crate::text::same_text(mime, "audio/mpeg") {
        Some(AudioFileType::Mp3)
    } else if crate::text::same_text(mime, "audio/x-flac") {
        Some(AudioFileType::Flac)
    } else if crate::text::same_text(mime, "audio/ogg") {
        Some(AudioFileType::Ogg)
    } else if crate::text::same_text(mime, "audio/x-wav") {
        Some(AudioFileType::Wave)
    } else if crate::text::same_text(mime, "audio/aac") {
        Some(AudioFileType::Aac)
    } else {
        None
    }
}

/// The audio format of a file from its first bytes: an error when the
/// format is not recognised at all, nothing when it is not audio the
/// editor reads.
pub fn detect_audio_type(header: &[u8]) -> (r: Result<Option<AudioFileType>, UiError>)
    ensures
        match inferred_mime(header@) {
            None => r matches Err(UiError::Io(m)) && m@ == "Failed to detect file type"@,
            Some(mime) => r == Ok::<Option<AudioFileType>, UiError>(type_of_mime(mime)),
        },
{
    match file_mime(header) {
        None => Err(UiError::Io("Failed to detect file type".to_string())),
        Some(m) => Ok(file_type_from_mime(m.as_str())),
    }
}

/// The encoders a build can have.
#[derive(Debug, Clone, Copy, PartialEq, Eq, Structural)]
pub enum EncoderKind {
    Ffmpeg,
    Flac,
}

/// The name a codec is written with in messages.
pub open spec fn codec_name(c: AudioCodec) -> Seq<char> {
    match c {
        AudioCodec::Mp3 => "Mp3"@,
        AudioCodec::Aac => "Aac"@,
        AudioCodec::Wav => "Wav"@,
        AudioCodec::Flac => "Flac"@,
    }
}

/// Picks the encoder for `codec` among those the build has: FFmpeg for MP3,
/// AAC and WAV, the FLAC encoder for FLAC; an error otherwise.
pub fn encoder_for_codec(codec: AudioCodec, has_ffmpeg: bool, has_flac: bool) -> (r: Result<EncoderKind, String>)
    ensures
        r matches Ok(k) ==> (k == EncoderKind::Ffmpeg && has_ffmpeg && codec != AudioCodec::Flac)
            || (k == EncoderKind::Flac && has_flac && codec == AudioCodec::Flac),
        r is Err <==> !((has_ffmpeg && codec != AudioCodec::Flac) || (has_flac && codec == AudioCodec::Flac)),
        r matches Err(m) ==> m@ == "Cannot find encoder for codec "@ + codec_name(codec),
{
    if has_ffmpeg && codec != AudioCodec::Flac {
        return Ok(EncoderKind::Ffmpeg);
    }
    if has_flac && codec == AudioCodec::Flac {
        return Ok(EncoderKind::Flac);
    }
    let mut m = "Cannot find encoder for codec ".to_string();
    m.append(codec_text(codec).as_str());
    Err(m)
}

/// The source a build without decoders reads any file with: endless
/// stereo silence at 44.1 kHz.
pub fn fallback_source() -> (s: NullAudioSource)
    ensures
        s.channels == 2,
        s.sample_rate == 44100,
{
    NullAudioSource { channels: 2, sample_rate: 44100 }
}

/// The duration of a stream that FFmpeg gives as `duration` ticks of
/// `tb_num / tb_den` seconds: that many ticks times the numerator, at the
/// denominator as the rate.
pub fn duration_from_ticks(duration: i64, tb_num: i32, tb_den: i32) -> (t: Timecode)
    requires
        0 <= duration <= usize::MAX,
        tb_num >= 0,
        tb_den >= 0,
        duration * tb_num <= usize::MAX,
    ensures
        t.samples == duration * tb_num,
        t.sample_rate == tb_den,
{
    let d = duration as usize;
    let n = tb_num as usize;
    assert(d == duration && n == tb_num);
    assert(d * n == duration * tb_num);
    Timecode { sample_rate: tb_den as usize, samples: d * n }
}

/// The duration of a track of `n_frames` frames at `sample_rate`, less the
/// frames of encoder delay and padding.
pub fn duration_from_frames(n_frames: u64, delay: u32, padding: u32, sample_rate: u32) -> (t: Timecode)
    requires
        delay + padding <= n_frames,
        n_frames <= usize::MAX,
    ensures
        t.samples == n_frames - delay - padding,
        t.sample_rate == sample_rate,
{
    Timecode { samples: n_frames as usize - delay as usize - padding as usize, sample_rate: sample_rate as usize }
}

/// One copy of frames into the encoder's frame: from where in the written
/// buffer, to where in the frame, how many, and whether the frame is then
/// full and sent.
pub type FrameCopy = (usize, usize, usize, bool);

/// The copies that writing frames `r..n` of a buffer makes, when `w` frames
/// of a frame of `size` are already filled: the frame is topped up and sent
/// while the buffer lasts, and what is left waits in it.
pub open spec fn copies_from(size: nat, w: nat, r: nat, n: nat) -> Seq<(nat, nat, nat, bool)>
    decreases n - r,
    when size > 0 && w < size && r <= n
{
    let expected = (size - w) as nat;
    let count = if expected < n - r {
        expected
    } else {
        (n - r) as nat
    };
    if count < expected {
        seq![(r, w, count, false)]
    } else {
        seq![(r, w, count, true)] + copies_from(size, 0, r + count, n)
    }
}

/// The number of full frames among some copies.
pub open spec fn sent(cs: Seq<(nat, nat, nat, bool)>) -> nat
    decreases cs.len(),
{
    if cs.len() == 0 {
        0
    } else {
        sent(cs.drop_last()) + if cs.last().3 {
            1nat
        } else {
            0nat
        }
    }
}

proof fn lemma_sent_concat(a: Seq<(nat, nat, nat, bool)>, b: Seq<(nat, nat, nat, bool)>)
    ensures
        sent(a + b) == sent(a) + sent(b),
    decreases b.len(),
{
    if b.len() == 0 {
        assert(a + b =~= a);
    } else {
        lemma_sent_concat(a, b.drop_last());
        assert((a + b).drop_last() =~= a + b.drop_last());
    }
}

/// Writing a buffer sends one frame for each full frame of what waited and
/// what was written, and leaves the rest waiting.
pub proof fn lemma_copies_count(size: nat, w: nat, r: nat, n: nat)
    requires
        size > 0,
        w < size,
        r <= n,
    ensures
        copies_from(size, w, r, n).len() > 0,
        sent(copies_from(size, w, r, n)) == (w + n - r) / (size as int),
        copies_from(size, w, r, n).last().1 + copies_from(size, w, r, n).last().2 == (w + n - r) % (size as int),
        !copies_from(size, w, r, n).last().3,
    decreases n - r,
{
    let cs = copies_from(size, w, r, n);
    let expected = (size - w) as nat;
    if expected > n - r {
        assert(cs == seq![(r, w, (n - r) as nat, false)]);
        assert(sent(cs) == sent(seq![(r, w, (n - r) as nat, false)].drop_last()) + 0);
        assert(seq![(r, w, (n - r) as nat, false)].drop_last() =~= Seq::<(nat, nat, nat, bool)>::empty());
        assert((w + n - r) / (size as int) == 0) by {
            vstd::arithmetic::div_mod::lemma_basic_div((w + n - r) as int, size as int);
        }
        vstd::arithmetic::div_mod::lemma_small_mod((w + n - r) as nat, size);
    } else {
        let rest = copies_from(size, 0, r + expected, n);
        assert(cs == seq![(r, w, expected, true)] + rest);
        lemma_copies_count(size, 0, r + expected, n);
        lemma_sent_concat(seq![(r, w, expected, true)], rest);
        assert(sent(seq![(r, w, expected, true)]) == 1) by {
            assert(seq![(r, w, expected, true)].drop_last() =~= Seq::<(nat, nat, nat, bool)>::empty());
            assert(sent(Seq::<(nat, nat, nat, bool)>::empty()) == 0);
        }
        let x = (n - r - expected) as int;
        assert(w + n - r == size + x);
        vstd::arithmetic::div_mod::lemma_div_plus_one(x, size as int);
        vstd::arithmetic::div_mod::lemma_mod_add_multiples_vanish(x, size as int);
        let both = seq![(r, w, expected, true)] + rest;
        assert(both.len() == rest.len() + 1);
        assert(both[both.len() - 1] == rest[rest.len() - 1]);
    }
}

/// All the copies but the last fill a frame; the last does not.
proof fn lemma_copies_shape(size: nat, w: nat, r: nat, n: nat)
    requires
        size > 0,
        w < size,
        r <= n,
    ensures
        forall|i: int| 0 <= i < copies_from(size, w, r, n).len() - 1 ==> (#[trigger] copies_from(size, w, r, n)[i]).3,
        sent(copies_from(size, w, r, n)) == copies_from(size, w, r, n).len() - 1,
    decreases n - r,
{
    lemma_copies_count(size, w, r, n);
    let cs = copies_from(size, w, r, n);
    let expected = (size - w) as nat;
    if expected <= n - r {
        let rest = copies_from(size, 0, r + expected, n);
        lemma_copies_shape(size, 0, r + expected, n);
        lemma_copies_count(size, 0, r + expected, n);
        assert(cs == seq![(r, w, expected, true)] + rest);
        assert forall|i: int| 0 <= i < cs.len() - 1 implies (#[trigger] cs[i]).3 by {
            if i > 0 {
                assert(cs[i] == rest[i - 1]);
            }
        }
        lemma_sent_concat(seq![(r, w, expected, true)], rest);
        assert(seq![(r, w, expected, true)].drop_last() =~= Seq::<(nat, nat, nat, bool)>::empty());
        assert(sent(Seq::<(nat, nat, nat, bool)>::empty()) == 0);
    } else {
        assert(cs == seq![(r, w, (n - r) as nat, false)]);
        assert(seq![(r, w, (n - r) as nat, false)].drop_last() =~= Seq::<(nat, nat, nat, bool)>::empty());
        assert(sent(Seq::<(nat, nat, nat, bool)>::empty()) == 0);
    }
}

/// Whether `v` holds the copies `cs`, one for one.
pub open spec fn copies_agree(v: Seq<FrameCopy>, cs: Seq<(nat, nat, nat, bool)>) -> bool {
    &&& v.len() == cs.len()
    &&& forall|i: int|
        0 <= i < cs.len() ==> (#[trigger] v[i]).0 == cs[i].0 && v[i].1 == cs[i].1 && v[i].2 == cs[i].2 && v[i].3
            == cs[i].3
}

/// The copies that writing `n` frames makes when `w` frames of a frame of
/// `size` are already filled.
fn plan_copies(size: usize, w: usize, n: usize) -> (v: Vec<FrameCopy>)
    requires
        size > 0,
        w < size,
    ensures
        copies_agree(v@, copies_from(size as nat, w as nat, 0, n as nat)),
{
    let ghost all = copies_from(size as nat, w as nat, 0, n as nat);
    proof {
        lemma_copies_count(size as nat, w as nat, 0, n as nat);
        assert(all.skip(0) =~= all);
    }
    let mut out: Vec<FrameCopy> = Vec::new();
    let mut read: usize = 0;
    let mut waiting: usize = w;
    loop
        invariant_except_break
            copies_from(size as nat, waiting as nat, read as nat, n as nat) == all.skip(out@.len() as int),
        invariant
            size > 0,
            waiting < size,
            read <= n,
            all == copies_from(size as nat, w as nat, 0, n as nat),
            out@.len() <= all.len(),
            forall|i: int| 0 <= i < out@.len() ==> (#[trigger] out@[i]).0 == all[i].0 && out@[i].1 == all[i].1
                && out@[i].2 == all[i].2 && out@[i].3 == all[i].3,
        ensures
            copies_agree(out@, all),
        decreases n - read, all.len() - out@.len(),
    {
        let ghost k = out@.len() as int;
        let ghost here = copies_from(size as nat, waiting as nat, read as nat, n as nat);
        let expected = size - waiting;
        let num = if expected < n - read {
            expected
        } else {
            n - read
        };
        let full = !(num < expected);
        out.push((read, waiting, num, full));
        proof {
            assert(here == (if (num as nat) < (expected as nat) {
                seq![(read as nat, waiting as nat, num as nat, false)]
            } else {
                seq![(read as nat, waiting as nat, num as nat, true)] + copies_from(
                    size as nat,
                    0,
                    (read + num) as nat,
                    n as nat,
                )
            }));
            assert(here[0] == (read as nat, waiting as nat, num as nat, full));
            assert(all.skip(k)[0] == all[k]);
        }
        if !full {
            proof {
                assert(all.skip(k).len() == 1);
            }
            break;
        }
        read = read + num;
        waiting = 0;
        proof {
            assert(all.skip(k + 1) =~= all.skip(k).skip(1));
            assert(here.skip(1) =~= copies_from(size as nat, 0, read as nat, n as nat));
        }
    }
    out
}

/// How written frames go into the encoder's fixed-size frames: the frame
/// size, the frames waiting for a full frame, and the samples sent so far.
pub struct FrameAccumulator {
    pub frame_size: usize,
    pub waiting_frames: usize,
    pub samples_written: usize,
    pub finalized: bool,
}

impl FrameAccumulator {
    pub open spec fn wf(&self) -> bool {
        self.frame_size > 0 && self.waiting_frames < self.frame_size
    }

    pub fn new(frame_size: usize) -> (a: FrameAccumulator)
        requires
            frame_size > 0,
        ensures
            a.wf(),
            a.frame_size == frame_size,
            a.waiting_frames == 0,
            a.samples_written == 0,
            !a.finalized,
    {
        FrameAccumulator { frame_size, waiting_frames: 0, samples_written: 0, finalized: false }
    }

    /// Plans the write of `n` frames: the copies to make, in order, each
    /// full frame sent after its copy; an error once finalized.
    pub fn write(&mut self, n: usize) -> (r: Result<Vec<FrameCopy>, String>)
        requires
            old(self).wf(),
            !old(self).finalized ==> old(self).samples_written + (old(self).waiting_frames + n) / (old(
                self,
            ).frame_size as int) * old(self).frame_size <= usize::MAX,
        ensures
            final(self).wf(),
            final(self).frame_size == old(self).frame_size,
            final(self).finalized == old(self).finalized,
            old(self).finalized ==> (r matches Err(m) && m@ == "Trying to write frames to a finalized encoder"@
                && *final(self) == *old(self)),
            !old(self).finalized ==> (r matches Ok(v) && copies_agree(
                v@,
                copies_from(old(self).frame_size as nat, old(self).waiting_frames as nat, 0, n as nat),
            ) && final(self).waiting_frames == (old(self).waiting_frames + n) % (old(self).frame_size as int)
                && final(self).samples_written == old(self).samples_written + (old(self).waiting_frames + n) / (old(
                self,
            ).frame_size as int) * old(self).frame_size),
    {
        if self.finalized {
            return Err("Trying to write frames to a finalized encoder".to_string());
        }
        let size = self.frame_size;
        let w = self.waiting_frames;
        let ghost all = copies_from(size as nat, w as nat, 0, n as nat);
        proof {
            lemma_copies_count(size as nat, w as nat, 0, n as nat);
            lemma_copies_shape(size as nat, w as nat, 0, n as nat);
        }
        let v = plan_copies(size, w, n);
        let last = v[v.len() - 1];
        let full_frames = v.len() - 1;
        proof {
            assert(full_frames == (w + n) / (size as int));
            assert(last.1 + last.2 == (w + n) % (size as int));
        }
        self.samples_written = self.samples_written + full_frames * size;
        self.waiting_frames = last.1 + last.2;
        Ok(v)
    }

    /// Ends the stream: returns the frames still waiting, which go out as a
    /// last, short frame; nothing more can be written.
    pub fn finalize(&mut self) -> (flush: usize)
        ensures
            flush == old(self).waiting_frames,
            final(self).finalized,
            final(self).frame_size == old(self).frame_size,
            final(self).waiting_frames == old(self).waiting_frames,
            final(self).samples_written == old(self).samples_written,
    {
        self.finalized = true;
        self.waiting_frames
    }
}

/// How a FLAC encoder fills its fixed-size blocks: the block size, the
/// frames waiting in the block, and the number of the next frame encoded.
pub struct FlacBlockWriter {
    pub block_frames: usize,
    pub waiting_frames: usize,
    pub frame_number: usize,
}

impl FlacBlockWriter {
    pub open spec fn wf(&self) -> bool {
        self.block_frames > 0 && self.waiting_frames < self.block_frames
    }

    pub fn new(block_frames: usize) -> (b: FlacBlockWriter)
        requires
            block_frames > 0,
        ensures
            b.wf(),
            b.block_frames == block_frames,
            b.waiting_frames == 0,
            b.frame_number == 0,
    {
        FlacBlockWriter { block_frames, waiting_frames: 0, frame_number: 0 }
    }

    /// Plans the write of `n` frames: the copies into the block, in order,
    /// a frame encoded after each copy that fills it. The frames counted as
    /// waiting afterwards are those of the last copy.
    pub fn write(&mut self, n: usize) -> (v: Vec<FrameCopy>)
        requires
            old(self).wf(),
            old(self).frame_number + (old(self).waiting_frames + n) / (old(self).block_frames as int) <= usize::MAX,
        ensures
            final(self).wf(),
            final(self).block_frames == old(self).block_frames,
            copies_agree(v@, copies_from(old(self).block_frames as nat, old(self).waiting_frames as nat, 0, n as nat)),
            final(self).waiting_frames == v@.last().2,
            final(self).frame_number == old(self).frame_number + (old(self).waiting_frames + n) / (old(
                self,
            ).block_frames as int),
    {
        let size = self.block_frames;
        let w = self.waiting_frames;
        proof {
            lemma_copies_count(size as nat, w as nat, 0, n as nat);
            lemma_copies_shape(size as nat, w as nat, 0, n as nat);
        }
        let v = plan_copies(size, w, n);
        let last = v[v.len() - 1];
        self.frame_number = self.frame_number + (v.len() - 1);
        self.waiting_frames = last.2;
        v
    }

    /// Ends the stream: when frames wait, the last frame is encoded from
    /// the block at the offset of their count, for the rest of the block.
    pub fn finalize(&self) -> (r: Option<(usize, usize)>)
        requires
            self.wf(),
        ensures
            r == (if self.waiting_frames > 0 {
                Some((self.waiting_frames, (self.block_frames - self.waiting_frames) as usize))
            } else {
                None
            }),
    {
        if self.waiting_frames > 0 {
            Some((self.waiting_frames, self.block_frames - self.waiting_frames))
        } else {
            None
        }
    }
}

/// The sample formats an FFmpeg encoder may list, as far as the choice of
/// one reads them.
#[derive(Debug, Clone, Copy, PartialEq, Eq, Structural)]
pub enum SampleFormat {
    F32Planar,
    F32Packed,
    I16Planar,
    I16Packed,
    Other,
}

/// Whether a format holds 32-bit floats.
pub open spec fn is_f32(f: SampleFormat) -> bool {
    f == SampleFormat::F32Planar || f == SampleFormat::F32Packed
}

/// Whether a format holds 16-bit integers.
pub open spec fn is_i16(f: SampleFormat) -> bool {
    f == SampleFormat::I16Planar || f == SampleFormat::I16Packed
}

/// `r` is the format an encoder listing `formats` is given: the first
/// 32-bit float one, else the last 16-bit integer one, else planar 32-bit
/// floats.
pub open spec fn format_choice(formats: Seq<SampleFormat>, r: SampleFormat) -> bool {
    if exists|i: int| 0 <= i < formats.len() && is_f32(#[trigger] formats[i]) {
        exists|i: int|
            0 <= i < formats.len() && r == #[trigger] formats[i] && is_f32(r) && forall|j: int|
                0 <= j < i ==> !is_f32(#[trigger] formats[j])
    } else if exists|i: int| 0 <= i < formats.len() && is_i16(#[trigger] formats[i]) {
        exists|i: int|
            0 <= i < formats.len() && r == #[trigger] formats[i] && is_i16(r) && forall|j: int|
                i < j < formats.len() ==> !is_i16(#[trigger] formats[j])
    } else {
        r == SampleFormat::F32Planar
    }
}

/// Picks the sample format for an FFmpeg encoder that lists `formats`, or
/// lists none.
pub fn choose_sample_format(formats: Option<&[SampleFormat]>) -> (r: SampleFormat)
    ensures
        match formats {
            Some(fs) => format_choice(fs@, r),
            None => r == SampleFormat::F32Planar,
        },
{
    let fs = match formats {
        None => return SampleFormat::F32Planar,
        Some(fs) => fs,
    };
    let mut chosen = SampleFormat::F32Planar;
    let mut last: Option<usize> = None;
    let mut i: usize = 0;
    while i < fs.len()
        invariant
            0 <= i <= fs@.len(),
            formats == Some(fs),
            forall|j: int| 0 <= j < i ==> !is_f32(#[trigger] fs@[j]),
            match last {
                Some(k) => k < i && is_i16(fs@[k as int]) && chosen == fs@[k as int] && forall|j: int|
                    k < j < i ==> !is_i16(#[trigger] fs@[j]),
                None => chosen == SampleFormat::F32Planar && forall|j: int| 0 <= j < i ==> !is_i16(#[trigger] fs@[j]),
            },
        decreases fs@.len() - i,
    {
        let f = fs[i];
        if f == SampleFormat::F32Planar || f == SampleFormat::F32Packed {
            proof {
                assert(is_f32(fs@[i as int]));
            }
            return f;
        }
        if f == SampleFormat::I16Planar || f == SampleFormat::I16Packed {
            chosen = f;
            last = Some(i);
        }
        i = i + 1;
    }
    proof {
        if let Some(k) = last {
            assert(is_i16(fs@[k as int]));
        }
    }
    chosen
}

/// The message for a codec that the FFmpeg encoder does not write.
pub open spec fn ffmpeg_unsupported_text(c: AudioCodec) -> Seq<char> {
    "FfmpegAudioEncoder does not support "@ + codec_name(c) + " codec"@
}

/// The message for a codec that the FFmpeg build lacks.
pub open spec fn ffmpeg_missing_text(c: AudioCodec) -> Seq<char> {
    "Could not find FFmpeg encoder for "@ + codec_name(c)
}

/// The message for encoder options that do not parse.
pub open spec fn ffmpeg_options_text() -> Seq<char> {
    "Could not parse options for FFmpeg encoder"@
}

/// How an FFmpeg encoder is set up: the sample rate and format it encodes
/// at, the bit rate it is given (none for WAV), its options, and whether
/// the frames written can go to it unconverted.
pub struct FfmpegEncoderPlan {
    pub sample_rate: i32,
    pub format: SampleFormat,
    pub bit_rate: Option<usize>,
    pub options: Vec<(String, String)>,
    pub pass_through: bool,
}

fn codec_text(codec: AudioCodec) -> (s: String)
    ensures
        s@ == codec_name(codec),
{
    match codec {
        AudioCodec::Mp3 => "Mp3".to_string(),
        AudioCodec::Aac => "Aac".to_string(),
        AudioCodec::Wav => "Wav".to_string(),
        AudioCodec::Flac => "Flac".to_string(),
    }
}

/// Sets up an FFmpeg encoder for `codec` with `options`, for audio given as
/// `info`: `found` tells whether the FFmpeg build has an encoder for the
/// codec, and `rates` and `formats` are what that encoder lists, if it
/// lists any. The written audio is planar 32-bit floats at the rate of
/// `info`.
pub fn plan_ffmpeg_encoder(
    codec: AudioCodec,
    found: bool,
    info: AudioInfo,
    rates: Option<&[i32]>,
    formats: Option<&[SampleFormat]>,
    options: &AudioEncoderOptions,
) -> (r: Result<FfmpegEncoderPlan, String>)
    requires
        // Ranking the rates below the target by their distance to it must
        // not overflow.
        rates matches Some(rs) ==> ((forall|i: int| 0 <= i < rs@.len() ==> rs@[i] < info.sample_rate as i32)
            ==> forall|i: int| 0 <= i < rs@.len() ==> info.sample_rate as i32 - rs@[i] <= i32::MAX),
    ensures
        codec == AudioCodec::Flac ==> (r matches Err(m) && m@ == ffmpeg_unsupported_text(codec)),
        codec != AudioCodec::Flac && !found ==> (r matches Err(m) && m@ == ffmpeg_missing_text(codec)),
        codec != AudioCodec::Flac && found && options_spec(options.options@) is None ==> (r matches Err(m) && m@
            == ffmpeg_options_text()),
        codec != AudioCodec::Flac && found && options_spec(options.options@) is Some ==> (r matches Ok(p) && {
            let o = options_spec(options.options@)->0;
            &&& match rates {
                Some(rs) => sample_rate_choice(rs@, info.sample_rate as i32, p.sample_rate),
                None => p.sample_rate == info.sample_rate as i32,
            }
            &&& match formats {
                Some(fs) => format_choice(fs@, p.format),
                None => p.format == SampleFormat::F32Planar,
            }
            &&& p.bit_rate == (if codec == AudioCodec::Wav {
                None
            } else {
                Some(options.bit_rate)
            })
            &&& p.options@.len() == o.len()
            &&& forall|i: int| 0 <= i < o.len() ==> (#[trigger] p.options@[i]).0@ == o[i].0 && p.options@[i].1@ == o[i].1
            &&& p.pass_through == (p.format == SampleFormat::F32Planar && p.sample_rate == info.sample_rate)
        }),
{
    if codec == AudioCodec::Flac {
        let mut m = "FfmpegAudioEncoder does not support ".to_string();
        m.append(codec_text(codec).as_str());
        m.append(" codec");
        return Err(m);
    }
    if !found {
        let mut m = "Could not find FFmpeg encoder for ".to_string();
        m.append(codec_text(codec).as_str());
        return Err(m);
    }
    let target = #[verifier::truncate] (info.sample_rate as i32);
    let sample_rate = match rates {
        Some(rs) => select_sample_rate(rs, target),
        None => target,
    };
    let format = choose_sample_format(formats);
    let bit_rate = if codec == AudioCodec::Wav {
        None
    } else {
        Some(options.bit_rate)
    };
    let opts = match parse_opts(options.options.as_str()) {
        Some(o) => o,
        None => return Err("Could not parse options for FFmpeg encoder".to_string()),
    };
    let pass_through = format == SampleFormat::F32Planar && sample_rate >= 0 && info.sample_rate == sample_rate as usize;
    Ok(FfmpegEncoderPlan { sample_rate, format, bit_rate, options: opts, pass_through })
}

/// The frame size an encoder works in: the one it gives, or 1024 frames
/// when it gives none.
pub fn encoder_frame_size(given: u32) -> (n: usize)
    ensures
        n == (if given > 0 {
            given as usize
        } else {
            1024
        }),
{
    if given > 0 {
        given as usize
    } else {
        1024
    }
}

} // verus!
