use vstd::prelude::*;

use crate::text::{decimal, decimal_spec};
use crate::lyrics::{AudioFileSource, EventValue};

verus! {

/// The number of frames read from the audio at a time.
pub const BASE_BLOCK_SIZE: usize = 8192;

/// The widest a waveform image may be, in pixels.
pub const MAX_TEXTURE_SIZE: usize = 2048;

/// How many waveform images a cache keeps loaded.
pub const MAX_ENTRIES: usize = 32;

/// The number of frames that make one pixel at mip level `i`: half the base
/// block at the first level, halving at each level after it.
pub open spec fn block_size_spec(i: nat) -> nat
    decreases i,
{
    if i == 0 {
        (BASE_BLOCK_SIZE / 2) as nat
    } else {
        block_size_spec((i - 1) as nat) / 2
    }
}

proof fn lemma_block_size_positive(i: nat)
    requires
        i < 13,
    ensures
        block_size_spec(i) >= 1,
        block_size_spec(i) <= BASE_BLOCK_SIZE,
        block_size_spec(i) * 2 >= 2,
    decreases i,
{
    if i > 0 {
        lemma_block_size_positive((i - 1) as nat);
        reveal_with_fuel(block_size_spec, 13);
        assert(block_size_spec(12) == 1);
        if i > 1 {
            lemma_block_size_decreasing((i - 1) as nat);
        }
    }
}

proof fn lemma_block_size_decreasing(i: nat)
    requires
        i < 12,
    ensures
        block_size_spec(i) >= block_size_spec(12),
    decreases 12 - i,
{
    if i < 12 {
        if i < 11 {
            lemma_block_size_decreasing(i + 1);
        }
        assert(block_size_spec(i + 1) == block_size_spec(i) / 2);
        reveal_with_fuel(block_size_spec, 13);
    }
}

/// The block sizes of `mip_levels` levels. Beyond thirteen levels a block
/// would hold no frame.
pub fn block_sizes(mip_levels: usize) -> (v: Vec<usize>)
    requires
        mip_levels <= 13,
    ensures
        v@.len() == mip_levels,
        forall|i: int| 0 <= i < mip_levels ==> v@[i] == block_size_spec(i as nat),
        forall|i: int| 0 <= i < mip_levels ==> v@[i] >= 1,
{
    let mut v: Vec<usize> = Vec::new();
    let mut size: usize = BASE_BLOCK_SIZE / 2;
    let mut i: usize = 0;
    while i < mip_levels
        invariant
            i <= mip_levels <= 13,
            v@.len() == i,
            size == block_size_spec(i as nat),
            forall|j: int| 0 <= j < i ==> v@[j] == block_size_spec(j as nat),
            forall|j: int| 0 <= j < i ==> v@[j] >= 1,
        decreases mip_levels - i,
    {
        proof {
            lemma_block_size_positive(i as nat);
        }
        v.push(size);
        size = size / 2;
        i = i + 1;
    }
    v
}

/// The number of blocks of `block_size` frames that `frames` frames fill,
/// the last one perhaps in part.
pub fn blocks_in(frames: usize, block_size: usize) -> (n: usize)
    requires
        block_size > 0,
    ensures
        n * block_size >= frames,
        n == 0 || (n - 1) * block_size < frames,
{
    let q = frames / block_size;
    proof {
        vstd::arithmetic::div_mod::lemma_fundamental_div_mod(frames as int, block_size as int);
        if frames % block_size != 0 {
            assert(q < usize::MAX) by (nonlinear_arith)
                requires
                    frames == block_size * q + frames % block_size,
                    frames % block_size > 0,
                    block_size >= 1,
                    frames <= usize::MAX,
                    q >= 0,
            ;
        }
    }
    let n = if frames % block_size == 0 {
        q
    } else {
        q + 1
    };
    proof {
        vstd::arithmetic::div_mod::lemma_fundamental_div_mod(frames as int, block_size as int);
        assert(n * block_size >= frames) by (nonlinear_arith)
            requires
                n == frames / block_size + (if frames % block_size == 0 { 0int } else { 1int }),
                frames == block_size * (frames / block_size) + frames % block_size,
                0 <= frames % block_size < block_size,
        ;
        assert(n == 0 || (n - 1) * block_size < frames) by (nonlinear_arith)
            requires
                n == frames / block_size + (if frames % block_size == 0 { 0int } else { 1int }),
                frames == block_size * (frames / block_size) + frames % block_size,
                0 <= frames % block_size < block_size,
                block_size > 0,
        ;
    }
    n
}

/// What a waveform archive says of itself: how many mip levels it has, how
/// many images each level has, and, as the bits of 32-bit floats, the
/// seconds one pixel of each level spans and the length of the audio.
pub struct WaveformCacheInfo {
    pub levels: usize,
    pub imgs_per_level: Vec<usize>,
    pub pixel_to_s: Vec<u32>,
    pub duration: u32,
}

impl WaveformCacheInfo {
    /// Whether the description can be written in the archive's header: at
    /// most 255 levels, each of at most 65535 images.
    pub open spec fn wf(&self) -> bool {
        &&& self.levels == self.imgs_per_level@.len()
        &&& self.levels == self.pixel_to_s@.len()
        &&& self.levels <= 0xff
        &&& forall|i: int| 0 <= i < self.levels ==> self.imgs_per_level@[i] <= 0xffff
    }
}

/// The little-endian bytes of a 16-bit value.
pub open spec fn le16(x: nat) -> Seq<u8> {
    seq![(x % 256) as u8, ((x / 256) % 256) as u8]
}

/// The little-endian bytes of a 32-bit value.
pub open spec fn le32(x: nat) -> Seq<u8> {
    seq![(x % 256) as u8, ((x / 256) % 256) as u8, ((x / 65536) % 256) as u8, ((x / 16777216) % 256) as u8]
}

/// The value of two little-endian bytes at `at`.
pub open spec fn read16(b: Seq<u8>, at: int) -> nat {
    (b[at] + 256 * b[at + 1]) as nat
}

/// The value of four little-endian bytes at `at`.
pub open spec fn read32(b: Seq<u8>, at: int) -> nat {
    (b[at] + 256 * b[at + 1] + 65536 * b[at + 2] + 16777216 * b[at + 3]) as nat
}

/// The header's entries for the levels: for each, its number of images
/// and its pixel span.
pub open spec fn level_bytes(imgs: Seq<usize>, pxs: Seq<u32>) -> Seq<u8>
    decreases imgs.len(),
{
    if imgs.len() == 0 || pxs.len() == 0 {
        Seq::empty()
    } else {
        level_bytes(imgs.drop_last(), pxs.drop_last()) + le16(imgs.last() as nat) + le32(pxs.last() as nat)
    }
}

/// The header of a waveform archive: the number of levels as one byte, the
/// duration in four bytes, then each level's entry, all little-endian.
pub open spec fn shape_bytes(info: WaveformCacheInfo) -> Seq<u8> {
    seq![info.levels as u8] + le32(info.duration as nat) + level_bytes(info.imgs_per_level@, info.pixel_to_s@)
}

proof fn lemma_level_bytes_len(imgs: Seq<usize>, pxs: Seq<u32>)
    requires
        imgs.len() == pxs.len(),
    ensures
        level_bytes(imgs, pxs).len() == 6 * imgs.len(),
    decreases imgs.len(),
{
    if imgs.len() > 0 {
        lemma_level_bytes_len(imgs.drop_last(), pxs.drop_last());
    }
}

proof fn lemma_level_bytes_at(imgs: Seq<usize>, pxs: Seq<u32>, i: int)
    requires
        imgs.len() == pxs.len(),
        0 <= i < imgs.len(),
        forall|j: int| 0 <= j < imgs.len() ==> imgs[j] <= 0xffff,
    ensures
        read16(level_bytes(imgs, pxs), 6 * i) == imgs[i],
        read32(level_bytes(imgs, pxs), 6 * i + 2) == pxs[i],
    decreases imgs.len(),
{
    lemma_level_bytes_len(imgs.drop_last(), pxs.drop_last());
    let b = level_bytes(imgs, pxs);
    let prev = level_bytes(imgs.drop_last(), pxs.drop_last());
    if i < imgs.len() - 1 {
        lemma_level_bytes_at(imgs.drop_last(), pxs.drop_last(), i);
        assert(b[6 * i] == prev[6 * i]);
        assert(b[6 * i + 1] == prev[6 * i + 1]);
        assert(b[6 * i + 2] == prev[6 * i + 2]);
        assert(b[6 * i + 3] == prev[6 * i + 3]);
        assert(b[6 * i + 4] == prev[6 * i + 4]);
        assert(b[6 * i + 5] == prev[6 * i + 5]);
    } else {
        lemma_le16(imgs.last() as nat);
        lemma_le32(pxs.last() as nat);
        assert(b[6 * i] == le16(imgs.last() as nat)[0]);
        assert(b[6 * i + 1] == le16(imgs.last() as nat)[1]);
        assert(b[6 * i + 2] == le32(pxs.last() as nat)[0]);
        assert(b[6 * i + 3] == le32(pxs.last() as nat)[1]);
        assert(b[6 * i + 4] == le32(pxs.last() as nat)[2]);
        assert(b[6 * i + 5] == le32(pxs.last() as nat)[3]);
    }
}

proof fn lemma_le16(x: nat)
    requires
        x <= 0xffff,
    ensures
        le16(x)[0] + 256 * le16(x)[1] == x,
{
    assert((x % 256) + 256 * ((x / 256) % 256) == x) by (nonlinear_arith)
        requires
            x <= 0xffff,
    {
        vstd::arithmetic::div_mod::lemma_fundamental_div_mod(x as int, 256);
        vstd::arithmetic::div_mod::lemma_small_mod((x / 256) as nat, 256);
    }
}

proof fn lemma_le32(x: nat)
    requires
        x <= 0xffff_ffff,
    ensures
        le32(x)[0] + 256 * le32(x)[1] + 65536 * le32(x)[2] + 16777216 * le32(x)[3] == x,
{
    let a = x % 256;
    let q1 = x / 256;
    let b = q1 % 256;
    let q2 = q1 / 256;
    let c = q2 % 256;
    let q3 = q2 / 256;
    vstd::arithmetic::div_mod::lemma_fundamental_div_mod(x as int, 256);
    vstd::arithmetic::div_mod::lemma_fundamental_div_mod(q1 as int, 256);
    vstd::arithmetic::div_mod::lemma_fundamental_div_mod(q2 as int, 256);
    vstd::arithmetic::div_mod::lemma_div_denominator(x as int, 256, 256);
    vstd::arithmetic::div_mod::lemma_div_denominator(q1 as int, 256, 256);
    vstd::arithmetic::div_mod::lemma_div_denominator(x as int, 256, 65536);
    assert(q3 < 256) by {
        vstd::arithmetic::div_mod::lemma_div_is_ordered(x as int, 0xffff_ffff, 16777216);
    }
    vstd::arithmetic::div_mod::lemma_small_mod(q3, 256);
    assert(x / 65536 == q2);
    assert(x / 16777216 == q3);
}

/// Writes the header of a waveform archive.
pub fn encode_shape(info: &WaveformCacheInfo) -> (b: Vec<u8>)
    requires
        info.wf(),
    ensures
        b@ == shape_bytes(*info),
{
    let mut b: Vec<u8> = Vec::new();
    b.push(info.levels as u8);
    push_le32(&mut b, info.duration);
    let ghost head = b@;
    proof {
        assert(head == seq![info.levels as u8] + le32(info.duration as nat));
    }
    let mut i: usize = 0;
    while i < info.levels
        invariant
            info.wf(),
            0 <= i <= info.levels,
            b@ == head + level_bytes(info.imgs_per_level@.take(i as int), info.pixel_to_s@.take(i as int)),
        decreases info.levels - i,
    {
        proof {
            assert(info.imgs_per_level@.take(i + 1).drop_last() == info.imgs_per_level@.take(i as int));
            assert(info.pixel_to_s@.take(i + 1).drop_last() == info.pixel_to_s@.take(i as int));
        }
        let n = info.imgs_per_level[i];
        push_le16(&mut b, n as u16);
        push_le32(&mut b, info.pixel_to_s[i]);
        i = i + 1;
        proof {
            assert(b@ =~= head + level_bytes(info.imgs_per_level@.take(i as int), info.pixel_to_s@.take(i as int)));
        }
    }
    proof {
        assert(info.imgs_per_level@.take(info.levels as int) == info.imgs_per_level@);
        assert(info.pixel_to_s@.take(info.levels as int) == info.pixel_to_s@);
    }
    b
}

fn push_le16(b: &mut Vec<u8>, x: u16)
    ensures
        final(b)@ == old(b)@ + le16(x as nat),
{
    b.push((x % 256) as u8);
    b.push(((x / 256) % 256) as u8);
    assert(final(b)@ =~= old(b)@ + le16(x as nat));
}

fn push_le32(b: &mut Vec<u8>, x: u32)
    ensures
        final(b)@ == old(b)@ + le32(x as nat),
{
    b.push((x % 256) as u8);
    b.push(((x / 256) % 256) as u8);
    b.push(((x / 65536) % 256) as u8);
    b.push(((x / 16777216) % 256) as u8);
    assert(final(b)@ =~= old(b)@ + le32(x as nat));
}

fn get16(b: &Vec<u8>, at: usize) -> (x: usize)
    requires
        at + 2 <= b.len(),
    ensures
        x == read16(b@, at as int),
{
    let lo: usize = b[at] as usize;
    let hi: usize = b[at + 1] as usize;
    lo + 256 * hi
}

fn get32(b: &Vec<u8>, at: usize) -> (x: u32)
    requires
        at + 4 <= b.len(),
    ensures
        x == read32(b@, at as int),
{
    let b0: u32 = b[at] as u32;
    let b1: u32 = b[at + 1] as u32;
    let b2: u32 = b[at + 2] as u32;
    let b3: u32 = b[at + 3] as u32;
    b0 + 256 * b1 + 65536 * b2 + 16777216 * b3
}

/// Whether `b` is long enough to be a header: the level count, the
/// duration, and six bytes for each level.
pub open spec fn shape_fits(b: Seq<u8>) -> bool {
    b.len() >= 5 && b.len() >= 5 + 6 * b[0]
}

/// What a header `b` that fits says: its fields read back from their
/// places. Bytes after the header are not read.
pub open spec fn shape_of(b: Seq<u8>, info: WaveformCacheInfo) -> bool {
    &&& info.levels == b[0]
    &&& info.imgs_per_level@.len() == b[0]
    &&& info.pixel_to_s@.len() == b[0]
    &&& info.duration == read32(b, 1)
    &&& forall|i: int| 0 <= i < b[0] ==> info.imgs_per_level@[i] == read16(b, 5 + 6 * i)
    &&& forall|i: int| 0 <= i < b[0] ==> info.pixel_to_s@[i] == read32(b, 7 + 6 * i)
}

/// Reads the header of a waveform archive: `None` when the bytes end
/// before it does.
pub fn decode_shape(b: &Vec<u8>) -> (r: Option<WaveformCacheInfo>)
    ensures
        r is Some <==> shape_fits(b@),
        r matches Some(info) ==> shape_of(b@, info),
{
    if b.len() < 5 {
        return None;
    }
    let levels = b[0] as usize;
    if b.len() < 5 + 6 * levels {
        return None;
    }
    let duration = get32(b, 1);
    let mut imgs: Vec<usize> = Vec::new();
    let mut pxs: Vec<u32> = Vec::new();
    let mut i: usize = 0;
    while i < levels
        invariant
            levels == b@[0],
            b@.len() >= 5 + 6 * levels,
            0 <= i <= levels,
            imgs@.len() == i,
            pxs@.len() == i,
            forall|j: int| 0 <= j < i ==> imgs@[j] == read16(b@, 5 + 6 * j),
            forall|j: int| 0 <= j < i ==> pxs@[j] == read32(b@, 7 + 6 * j),
        decreases levels - i,
    {
        imgs.push(get16(b, 5 + 6 * i));
        pxs.push(get32(b, 7 + 6 * i));
        i = i + 1;
    }
    Some(WaveformCacheInfo { levels, imgs_per_level: imgs, pixel_to_s: pxs, duration })
}

/// Reading back a written header gives the description that was written.
pub proof fn lemma_shape_roundtrip(info: WaveformCacheInfo)
    requires
        info.wf(),
    ensures
        shape_fits(shape_bytes(info)),
        forall|r: WaveformCacheInfo| #[trigger] shape_of(shape_bytes(info), r) ==> r.levels == info.levels
            && r.imgs_per_level@ == info.imgs_per_level@ && r.pixel_to_s@ == info.pixel_to_s@
            && r.duration == info.duration,
{
    let b = shape_bytes(info);
    let lv = level_bytes(info.imgs_per_level@, info.pixel_to_s@);
    lemma_level_bytes_len(info.imgs_per_level@, info.pixel_to_s@);
    lemma_le32(info.duration as nat);
    assert(b[0] == info.levels);
    assert(read32(b, 1) == info.duration);
    assert forall|i: int| 0 <= i < info.levels implies read16(b, 5 + 6 * i) == info.imgs_per_level@[i]
        && read32(b, 7 + 6 * i) == info.pixel_to_s@[i] by {
        lemma_level_bytes_at(info.imgs_per_level@, info.pixel_to_s@, i);
        assert(b[5 + 6 * i] == lv[6 * i]);
        assert(b[5 + 6 * i + 1] == lv[6 * i + 1]);
        assert(b[7 + 6 * i] == lv[6 * i + 2]);
        assert(b[7 + 6 * i + 1] == lv[6 * i + 3]);
        assert(b[7 + 6 * i + 2] == lv[6 * i + 4]);
        assert(b[7 + 6 * i + 3] == lv[6 * i + 5]);
    }
    assert forall|r: WaveformCacheInfo| #[trigger] shape_of(b, r) implies r.levels == info.levels
        && r.imgs_per_level@ == info.imgs_per_level@ && r.pixel_to_s@ == info.pixel_to_s@
        && r.duration == info.duration by {
        assert(r.imgs_per_level@ =~= info.imgs_per_level@);
        assert(r.pixel_to_s@ =~= info.pixel_to_s@);
    }
}

/// The number of images of at most `MAX_TEXTURE_SIZE` pixels that `peaks`
/// pixels take.
pub fn images_for(peaks: usize) -> (n: usize)
    ensures
        n * MAX_TEXTURE_SIZE >= peaks,
        n == 0 || (n - 1) * MAX_TEXTURE_SIZE < peaks,
{
    blocks_in(peaks, MAX_TEXTURE_SIZE)
}

/// The name, inside a waveform archive, of image `idx` of mip level `level`.
pub open spec fn entry_name_spec(level: nat, idx: nat) -> Seq<char> {
    "mip-l"@ + decimal_spec(level) + "-i"@ + decimal_spec(idx) + ".png"@
}

/// The name, inside a waveform archive, of image `idx` of mip level `level`.
pub fn entry_name(level: usize, idx: usize) -> (s: String)
    ensures
        s@ == entry_name_spec(level as nat, idx as nat),
{
    let mut s = "mip-l".to_string();
    s.append(decimal(level as u64).as_str());
    s.append("-i");
    s.append(decimal(idx as u64).as_str());
    s.append(".png");
    proof {
        reveal_strlit("mip-l");
    }
    s
}

/// The address under which the image `idx` of level `level` of the
/// waveform `name` is shown.
pub open spec fn entry_uri_spec(name: Seq<char>, level: nat, idx: nat) -> Seq<char> {
    "bytes://"@ + name + "_mip_l"@ + decimal_spec(level) + "_i"@ + decimal_spec(idx) + ".png"@
}

/// The address under which image `idx` of level `level` of the waveform
/// `name` is shown.
pub fn entry_uri(name: &str, level: usize, idx: usize) -> (s: String)
    ensures
        s@ == entry_uri_spec(name@, level as nat, idx as nat),
{
    let mut s = "bytes://".to_string();
    s.append(name);
    s.append("_mip_l");
    s.append(decimal(level as u64).as_str());
    s.append("_i");
    s.append(decimal(idx as u64).as_str());
    s.append(".png");
    s
}

/// A loaded waveform image.
pub struct WaveformCacheEntry {
    pub level: usize,
    pub idx: usize,
    pub uri: String,
    pub bytes: Vec<u8>,
}

/// The images of one waveform archive that are loaded, the most recently
/// loaded first, at most `MAX_ENTRIES` of them.
pub struct WaveformCache {
    pub name: String,
    pub source: String,
    pub entries: Vec<WaveformCacheEntry>,
    pub info: Option<WaveformCacheInfo>,
}

/// A loaded image as the contracts see it: level, index, address, bytes.
pub type EntryView = (usize, usize, Seq<char>, Seq<u8>);

/// The address and bytes of the first image of `es` that is image `idx`
/// of level `level`.
pub open spec fn lookup(es: Seq<EntryView>, level: usize, idx: usize) -> Option<(Seq<char>, Seq<u8>)>
    decreases es.len(),
{
    if es.len() == 0 {
        None
    } else if es[0].0 == level && es[0].1 == idx {
        Some((es[0].2, es[0].3))
    } else {
        lookup(es.skip(1), level, idx)
    }
}

/// The loaded images after one more is loaded: it comes first, and the
/// oldest beyond `MAX_ENTRIES` are dropped.
pub open spec fn with_entry(es: Seq<EntryView>, e: EntryView) -> Seq<EntryView> {
    let all = seq![e] + es;
    if all.len() > MAX_ENTRIES {
        all.take(MAX_ENTRIES as int)
    } else {
        all
    }
}

pub(crate) fn copy_bytes(b: &Vec<u8>) -> (r: Vec<u8>)
    ensures
        r@ == b@,
{
    let mut r: Vec<u8> = Vec::new();
    let mut i: usize = 0;
    while i < b.len()
        invariant
            0 <= i <= b@.len(),
            r@ == b@.take(i as int),
        decreases b@.len() - i,
    {
        r.push(b[i]);
        i = i + 1;
        assert(r@ =~= b@.take(i as int));
    }
    assert(b@.take(b@.len() as int) == b@);
    r
}

impl WaveformCache {
    pub open spec fn entries_view(&self) -> Seq<EntryView> {
        Seq::new(self.entries@.len(), |i: int| {
            let e = self.entries@[i];
            (e.level, e.idx, e.uri@, e.bytes@)
        })
    }

    pub open spec fn wf(&self) -> bool {
        self.entries@.len() <= MAX_ENTRIES
    }

    /// A cache of the waveform archive at `source`, with nothing loaded.
    pub fn new(name: String, source: String) -> (c: WaveformCache)
        ensures
            c.wf(),
            c.name == name,
            c.source == source,
            c.entries_view().len() == 0,
            c.info is None,
    {
        WaveformCache { name, source, entries: Vec::new(), info: None }
    }

    /// The address and bytes of image `idx` of level `level`, if it is
    /// loaded.
    pub fn find_entry(&self, level: usize, idx: usize) -> (r: Option<(String, Vec<u8>)>)
        ensures
            match (r, lookup(self.entries_view(), level, idx)) {
                (Some((u, b)), Some((lu, lb))) => u@ == lu && b@ == lb,
                (None, None) => true,
                _ => false,
            },
    {
        let ghost es = self.entries_view();
        assert(es.skip(0) =~= es);
        let mut i: usize = 0;
        while i < self.entries.len()
            invariant
                0 <= i <= self.entries@.len(),
                es == self.entries_view(),
                lookup(es, level, idx) == lookup(es.skip(i as int), level, idx),
            decreases self.entries@.len() - i,
        {
            let e = &self.entries[i];
            proof {
                assert(es.skip(i as int)[0] == es[i as int]);
                assert(es.skip(i as int).skip(1) =~= es.skip(i + 1));
            }
            if e.level == level && e.idx == idx {
                return Some((e.uri.clone(), copy_bytes(&e.bytes)));
            }
            i = i + 1;
        }
        proof {
            assert(es.skip(i as int).len() == 0);
        }
        None
    }

    /// Keeps `data` as image `idx` of level `level`, first among the loaded
    /// images, dropping the oldest beyond `MAX_ENTRIES`; returns its address
    /// and bytes.
    pub fn insert_entry(&mut self, level: usize, idx: usize, data: Vec<u8>) -> (r: (String, Vec<u8>))
        requires
            old(self).wf(),
        ensures
            final(self).wf(),
            final(self).name == old(self).name,
            final(self).source == old(self).source,
            final(self).info == old(self).info,
            r.0@ == entry_uri_spec(old(self).name@, level as nat, idx as nat),
            r.1@ == data@,
            final(self).entries_view() == with_entry(old(self).entries_view(), (level, idx, r.0@, data@)),
    {
        let uri = entry_uri(self.name.as_str(), level, idx);
        let ret = (uri.clone(), copy_bytes(&data));
        let ghost before = self.entries_view();
        self.entries.insert(0, WaveformCacheEntry { level, idx, uri, bytes: data });
        proof {
            assert(self.entries_view() =~= seq![(level, idx, ret.0@, ret.1@)] + before);
        }
        if self.entries.len() > MAX_ENTRIES {
            self.entries.truncate(MAX_ENTRIES);
            proof {
                assert(self.entries_view() =~= (seq![(level, idx, ret.0@, ret.1@)] + before).take(MAX_ENTRIES as int));
            }
        }
        ret
    }
}

/// An image just loaded into the cache is the one found for its level and
/// index.
pub proof fn lemma_found_after_insert(es: Seq<EntryView>, e: EntryView)
    ensures
        lookup(with_entry(es, e), e.0, e.1) == Some((e.2, e.3)),
{
    let w = with_entry(es, e);
    assert(w[0] == e);
}

/// Loading an image leaves the other loaded images findable as before,
/// unless they are dropped for room.
pub proof fn lemma_insert_keeps_others(es: Seq<EntryView>, e: EntryView, level: usize, idx: usize)
    requires
        es.len() < MAX_ENTRIES,
        level != e.0 || idx != e.1,
    ensures
        lookup(with_entry(es, e), level, idx) == lookup(es, level, idx),
{
    let w = with_entry(es, e);
    assert(w.skip(1) =~= es);
}

/// Makes the mip levels of a waveform: images `height` pixels high, one
/// set per level.
pub struct WaveformGenerator {
    pub height: usize,
    pub mip_levels: usize,
}

impl WaveformGenerator {
    pub fn new(height: usize, mip_levels: usize) -> (g: WaveformGenerator)
        ensures
            g.height == height,
            g.mip_levels == mip_levels,
    {
        WaveformGenerator { height, mip_levels }
    }

    /// The block size of each level, in frames per pixel.
    pub fn block_sizes(&self) -> (v: Vec<usize>)
        requires
            self.mip_levels <= 13,
        ensures
            v@.len() == self.mip_levels,
            forall|i: int| 0 <= i < self.mip_levels ==> v@[i] == block_size_spec(i as nat),
    {
        block_sizes(self.mip_levels)
    }

    /// The number of pixels each level gains from a read of `frames`
    /// frames.
    pub fn blocks_per_read(&self, frames: usize) -> (v: Vec<usize>)
        requires
            self.mip_levels <= 13,
        ensures
            v@.len() == self.mip_levels,
            forall|i: int| 0 <= i < self.mip_levels ==> v@[i] * block_size_spec(i as nat) >= frames
                && (v@[i] == 0 || (v@[i] - 1) * block_size_spec(i as nat) < frames),
    {
        let sizes = block_sizes(self.mip_levels);
        let mut v: Vec<usize> = Vec::new();
        let mut i: usize = 0;
        while i < sizes.len()
            invariant
                sizes@.len() == self.mip_levels,
                forall|j: int| 0 <= j < self.mip_levels ==> sizes@[j] == block_size_spec(j as nat),
                forall|j: int| 0 <= j < self.mip_levels ==> sizes@[j] >= 1,
                0 <= i <= sizes@.len(),
                v@.len() == i,
                forall|j: int| 0 <= j < i ==> v@[j] * block_size_spec(j as nat) >= frames
                    && (v@[j] == 0 || (v@[j] - 1) * block_size_spec(j as nat) < frames),
            decreases sizes@.len() - i,
        {
            v.push(blocks_in(frames, sizes[i]));
            i = i + 1;
        }
        v
    }
}

/// Where the audio of a clip is to be read from.
pub enum AudioLocation {
    /// A file at this path.
    File(String),
    /// The project's attachment with this identifier.
    Attachment(u128),
    /// The event is no audio clip.
    Missing,
}

/// Where the audio of an event with payload `value` is.
pub fn audio_location(value: &Option<EventValue>) -> (l: AudioLocation)
    ensures
        match value {
            Some(EventValue::AudioClip { file, .. }) => match file.source {
                AudioFileSource::Path(p) => l matches AudioLocation::File(q) && q@ == p@,
                AudioFileSource::Attachment(id) => l == AudioLocation::Attachment(id),
            },
            _ => l is Missing,
        },
{
    match value {
        Some(EventValue::AudioClip { file, .. }) => match &file.source {
            AudioFileSource::Path(p) => AudioLocation::File(p.clone()),
            AudioFileSource::Attachment(id) => AudioLocation::Attachment(*id),
        },
        _ => AudioLocation::Missing,
    }
}

/// How far the waveform of an audio event has come.
pub enum WaveformState {
    Loading,
    Loaded,
    Failed,
}

/// What to do when the waveform of an event is wanted.
pub enum WaveformStep {
    /// Show the waveform that is loaded.
    Show,
    /// Nothing to show yet, or ever.
    Wait,
    /// Open the archive already in the cache directory.
    OpenCached,
    /// Start making the waveform from the audio at this place.
    Generate(AudioLocation),
    /// The event's audio cannot be found.
    Fail,
}

/// Decides what to do for the waveform of an event, given what is known of
/// it (`state`), whether its archive is in the cache directory, and the
/// event's payload.
pub fn waveform_step(state: &Option<WaveformState>, cached: bool, value: &Option<EventValue>) -> (s: WaveformStep)
    ensures
        match state {
            Some(WaveformState::Loaded) => s is Show,
            Some(_) => s is Wait,
            None => if cached {
                s is OpenCached
            } else {
                match value {
                    Some(EventValue::AudioClip { .. }) => s is Generate,
                    _ => s is Fail,
                }
            },
        },
{
    match state {
        Some(WaveformState::Loaded) => WaveformStep::Show,
        Some(_) => WaveformStep::Wait,
        None => {
            if cached {
                WaveformStep::OpenCached
            } else {
                match audio_location(value) {
                    AudioLocation::Missing => WaveformStep::Fail,
                    l => WaveformStep::Generate(l),
                }
            }
        },
    }
}

} // verus!
