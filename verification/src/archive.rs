//! Waveform archives as bytes: a tar archive whose first entry is the
//! header written by `encode_shape`, followed by one PNG image per entry.

use std::io::Read;

use vstd::prelude::*;
use vstd::utf8::encode_utf8;

use crate::ui_event::UiError;
use crate::waveform::{
    copy_bytes, decode_shape, encode_shape, entry_name, entry_name_spec, entry_uri_spec, lookup, shape_bytes,
    shape_fits, shape_of, with_entry, WaveformCache, WaveformCacheInfo,
};

verus! {

/// Where the last segment of `p` begins: just after its last `/`, or at the
/// start when it has none.
pub open spec fn segment_start(p: Seq<u8>) -> int
    decreases p.len(),
{
    if p.len() == 0 {
        0
    } else if p.last() == 0x2f {
        p.len() as int
    } else {
        segment_start(p.drop_last())
    }
}

/// The last segment begins after a `/`, and holds none.
pub proof fn lemma_segment_start(p: Seq<u8>)
    ensures
        0 <= segment_start(p) <= p.len(),
        segment_start(p) > 0 ==> p[segment_start(p) - 1] == 0x2f,
        forall|k: int| segment_start(p) <= k < p.len() ==> p[k] != 0x2f,
    decreases p.len(),
{
    if p.len() > 0 && p.last() != 0x2f {
        let q = p.drop_last();
        lemma_segment_start(q);
        assert forall|k: int| segment_start(p) <= k < p.len() implies p[k] != 0x2f by {
            if k < q.len() {
                assert(p[k] == q[k]);
            }
        }
    }
}

/// The final component of the path `p`, as `Path::file_name` gives it on a
/// system that separates components by `/`: empty components and `.` are
/// passed over, and a path that ends in `..` or has no other component has
/// none.
pub open spec fn file_name_spec(p: Seq<u8>) -> Option<Seq<u8>>
    decreases p.len(),
{
    let s = segment_start(p);
    let seg = p.subrange(s, p.len() as int);
    if seg =~= seq![0x2eu8, 0x2eu8] {
        None
    } else if seg.len() == 0 || seg =~= seq![0x2eu8] {
        if s <= 0 {
            None
        } else {
            proof {
                lemma_segment_start(p);
            }
            file_name_spec(p.take(s - 1))
        }
    } else {
        Some(seg)
    }
}

/// The final component of the path `p` (see `file_name_spec`).
pub fn file_name(p: &Vec<u8>) -> (r: Option<Vec<u8>>)
    ensures
        match r {
            Some(v) => file_name_spec(p@) == Some(v@),
            None => file_name_spec(p@) is None,
        },
{
    let mut end: usize = p.len();
    assert(p@.take(end as int) =~= p@);
    loop
        invariant
            end <= p@.len(),
            file_name_spec(p@.take(end as int)) == file_name_spec(p@),
        decreases end,
    {
        let ghost q = p@.take(end as int);
        let mut s: usize = end;
        while s > 0 && p[s - 1] != 0x2f
            invariant
                s <= end <= p@.len(),
                q == p@.take(end as int),
                segment_start(q) == segment_start(p@.take(s as int)),
            decreases s,
        {
            proof {
                assert(p@.take(s as int).drop_last() =~= p@.take(s - 1));
            }
            s = s - 1;
        }
        proof {
            if s > 0 {
                assert(p@.take(s as int).last() == 0x2f);
            }
            assert(segment_start(q) == s);
            assert(q.subrange(s as int, end as int) =~= p@.subrange(s as int, end as int));
        }
        let len = end - s;
        let dotdot = len == 2 && p[s] == 0x2e && p[s + 1] == 0x2e;
        let dot = len == 1 && p[s] == 0x2e;
        if dotdot {
            assert(q.subrange(s as int, end as int) =~= seq![0x2eu8, 0x2eu8]);
            return None;
        }
        proof {
            if q.subrange(s as int, end as int) =~= seq![0x2eu8, 0x2eu8] {
                assert(q.subrange(s as int, end as int)[0] == p@[s as int]);
                assert(q.subrange(s as int, end as int)[1] == p@[s + 1]);
            }
        }
        if len == 0 || dot {
            proof {
                if dot {
                    assert(q.subrange(s as int, end as int) =~= seq![0x2eu8]);
                }
            }
            if s == 0 {
                return None;
            }
            proof {
                assert(q.take(s - 1) =~= p@.take(s - 1));
            }
            end = s - 1;
        } else {
            proof {
                if q.subrange(s as int, end as int) =~= seq![0x2eu8] {
                    assert(q.subrange(s as int, end as int)[0] == p@[s as int]);
                }
            }
            let mut v: Vec<u8> = Vec::new();
            let mut k: usize = s;
            while k < end
                invariant
                    s <= k <= end <= p@.len(),
                    v@ == p@.subrange(s as int, k as int),
                decreases end - k,
            {
                v.push(p[k]);
                k = k + 1;
                assert(v@ =~= p@.subrange(s as int, k as int));
            }
            return Some(v);
        }
    }
}

/// The entries of a tar archive as `tar::Archive` reads them from `archive`:
/// each entry's path and contents, in order, up to the first entry that
/// could not be read, and the text of the error that stopped the walk, if
/// one did.
pub uninterp spec fn tar_entries_of(archive: Seq<u8>) -> (Seq<(Seq<u8>, Seq<u8>)>, Option<Seq<char>>);

/// Entries of bytes, as the contracts see them.
pub open spec fn raw_entries_view(v: Seq<(Vec<u8>, Vec<u8>)>) -> Seq<(Seq<u8>, Seq<u8>)> {
    v.map_values(|e: (Vec<u8>, Vec<u8>)| (e.0@, e.1@))
}

/// An optional text, as the contracts see it.
pub open spec fn text_view(t: Option<String>) -> Option<Seq<char>> {
    match t {
        Some(s) => Some(s@),
        None => None,
    }
}

/// Walks the archive with `tar::Archive::entries`, reading each entry's
/// path (`Entry::path_bytes`) and contents (`Read::read_to_end`). The
/// contract claims only that the result is `tar_entries_of` of the bytes:
/// the same bytes give the same entries.
#[verifier::external_body]
fn tar_entries(archive: &[u8]) -> (r: (Vec<(Vec<u8>, Vec<u8>)>, Option<String>))
    ensures
        (raw_entries_view(r.0@), text_view(r.1)) == tar_entries_of(archive@),
{
    let mut ar = tar::Archive::new(archive);
    let mut out = Vec::new();
    let mut walk = || -> std::io::Result<()> {
        for entry in ar.entries()? {
            let mut entry = entry?;
            let mut data = Vec::new();
            entry.read_to_end(&mut data)?;
            out.push((entry.path_bytes().into_owned(), data));
        }
        Ok(())
    };
    let err = walk().err().map(|e| e.to_string());
    (out, err)
}

/// The contents of the first of `es` whose final path component is
/// `name`.
pub open spec fn first_named(es: Seq<(Seq<u8>, Seq<u8>)>, name: Seq<u8>) -> Option<Seq<u8>>
    decreases es.len(),
{
    if es.len() == 0 {
        None
    } else if file_name_spec(es[0].0) == Some(name) {
        Some(es[0].1)
    } else {
        first_named(es.skip(1), name)
    }
}

/// Whether `a` and `b` hold the same bytes.
fn same_bytes(a: &Vec<u8>, b: &[u8]) -> (r: bool)
    ensures
        r == (a@ == b@),
{
    if a.len() != b.len() {
        return false;
    }
    let mut i: usize = 0;
    while i < a.len()
        invariant
            a@.len() == b@.len(),
            0 <= i <= a@.len(),
            forall|k: int| 0 <= k < i ==> a@[k] == b@[k],
        decreases a@.len() - i,
    {
        if a[i] != b[i] {
            return false;
        }
        i = i + 1;
    }
    assert(a@ =~= b@);
    true
}

/// Reads the description of a waveform archive from its first entry: an
/// `Audio` error when the archive has no readable entry, an `Io` error when
/// that entry is too short to be a header.
pub fn archive_info(archive: &[u8]) -> (r: Result<WaveformCacheInfo, UiError>)
    ensures
        ({
            let es = tar_entries_of(archive@).0;
            &&& es.len() == 0 ==> (r matches Err(UiError::Audio(_)))
            &&& es.len() > 0 && !shape_fits(es[0].1) ==> (r matches Err(UiError::Io(_)))
            &&& es.len() > 0 && shape_fits(es[0].1) ==> (r matches Ok(info) && shape_of(es[0].1, info))
        }),
{
    let (entries, _err) = tar_entries(archive);
    if entries.len() == 0 {
        return Err(UiError::Audio("Failed to load info from archive".to_string()));
    }
    let first = &entries[0];
    proof {
        assert(raw_entries_view(entries@)[0] == (first.0@, first.1@));
    }
    match decode_shape(&first.1) {
        Some(info) => Ok(info),
        None => Err(UiError::Io("failed to fill whole buffer".to_string())),
    }
}

/// Reads image `idx` of mip level `level`: the contents of the first entry
/// whose final path component is `mip-l{level}-i{idx}.png`. When there is
/// none, the error that stopped the walk, or else an `Audio` error.
pub fn archive_image(archive: &[u8], level: usize, idx: usize) -> (r: Result<Vec<u8>, UiError>)
    ensures
        ({
            let walk = tar_entries_of(archive@);
            match first_named(walk.0, encode_utf8(entry_name_spec(level as nat, idx as nat))) {
                Some(b) => r matches Ok(v) && v@ == b,
                None => match walk.1 {
                    Some(m) => r matches Err(UiError::Io(t)) && t@ == m,
                    None => r matches Err(UiError::Audio(_)),
                },
            }
        }),
{
    let (entries, err) = tar_entries(archive);
    let target = crate::waveform::entry_name(level, idx);
    let target_bytes = target.as_str().as_bytes();
    let ghost es = raw_entries_view(entries@);
    let ghost name = encode_utf8(entry_name_spec(level as nat, idx as nat));
    assert(tar_entries_of(archive@).0 == es);
    assert(target_bytes@ == name);
    assert(es.skip(0) =~= es);
    let mut i: usize = 0;
    while i < entries.len()
        invariant
            0 <= i <= entries@.len(),
            es == raw_entries_view(entries@),
            es == tar_entries_of(archive@).0,
            name == encode_utf8(entry_name_spec(level as nat, idx as nat)),
            target_bytes@ == name,
            first_named(es, name) == first_named(es.skip(i as int), name),
        decreases entries@.len() - i,
    {
        let e = &entries[i];
        proof {
            assert(es.skip(i as int)[0] == es[i as int]);
            assert(es[i as int] == (e.0@, e.1@));
            assert(es.skip(i as int).skip(1) =~= es.skip(i + 1));
        }
        match file_name(&e.0) {
            Some(n) => {
                if same_bytes(&n, target_bytes) {
                    proof {
                        assert(file_name_spec(es.skip(i as int)[0].0) == Some(name));
                        assert(first_named(es.skip(i as int), name) == Some(e.1@));
                    }
                    return Ok(copy_bytes(&e.1));
                }
            },
            None => {},
        }
        i = i + 1;
    }
    proof {
        assert(es.skip(i as int).len() == 0);
    }
    match err {
        Some(m) => Err(UiError::Io(m)),
        None => Err(UiError::Audio("Could not find the mip level image".to_string())),
    }
}

/// The bytes of the tar archive that `tar::Builder` writes for `entries`,
/// each a path and its contents, in order, or the text of the error that
/// stopped it.
pub uninterp spec fn tar_bytes_of(entries: Seq<(Seq<char>, Seq<u8>)>) -> Result<Seq<u8>, Seq<char>>;

/// Named entries, as the contracts see them.
pub open spec fn named_entries_view(v: Seq<(String, Vec<u8>)>) -> Seq<(Seq<char>, Seq<u8>)> {
    v.map_values(|e: (String, Vec<u8>)| (e.0@, e.1@))
}

/// A character of a plain file name: an ASCII letter or digit, `-`, `_` or
/// `.`.
pub open spec fn plain_char(c: char) -> bool {
    ||| ('a' <= c && c <= 'z')
    ||| ('A' <= c && c <= 'Z')
    ||| ('0' <= c && c <= '9')
    ||| c == '-' || c == '_' || c == '.'
}

/// A plain file name: one to a hundred plain characters, and neither `.`
/// nor `..`.
pub open spec fn plain_name(name: Seq<char>) -> bool {
    &&& 0 < name.len() <= 100
    &&& forall|i: int| 0 <= i < name.len() ==> plain_char(#[trigger] name[i])
    &&& name != seq!['.']
    &&& name != seq!['.', '.']
}

/// Named entries with their names as UTF-8 bytes.
pub open spec fn utf8_entries(es: Seq<(Seq<char>, Seq<u8>)>) -> Seq<(Seq<u8>, Seq<u8>)> {
    es.map_values(|e: (Seq<char>, Seq<u8>)| (encode_utf8(e.0), e.1))
}

/// Writes `entries` with `tar::Builder`: for each, a GNU header
/// (`Header::new_gnu`, `set_path`, `set_size`, `set_cksum`) appended with
/// its contents (`Builder::append`), then the end of the archive
/// (`Builder::into_inner`). The contract claims that the result is
/// `tar_bytes_of` of the entries (the same entries give the same bytes),
/// and that when every name is a plain file name, the archive written reads
/// back, with `tar_entries`, as exactly these entries: each header then
/// holds the name's bytes (`Header::set_path` copies a single normal
/// component), the contents follow it, and the archive ends cleanly.
#[verifier::external_body]
fn tar_bytes(entries: &Vec<(String, Vec<u8>)>) -> (r: Result<Vec<u8>, String>)
    ensures
        match r {
            Ok(b) => tar_bytes_of(named_entries_view(entries@)) == Ok::<Seq<u8>, Seq<char>>(b@),
            Err(e) => tar_bytes_of(named_entries_view(entries@)) == Err::<Seq<u8>, Seq<char>>(e@),
        },
        r matches Ok(b) ==> ((forall|i: int| 0 <= i < entries@.len() ==> plain_name(#[trigger] entries@[i].0@))
            ==> tar_entries_of(b@) == (utf8_entries(named_entries_view(entries@)), None::<Seq<char>>)),
{
    let mut builder = tar::Builder::new(Vec::new());
    for (name, data) in entries.iter() {
        let mut header = tar::Header::new_gnu();
        header.set_path(name).map_err(|e| e.to_string())?;
        header.set_size(data.len() as u64);
        header.set_cksum();
        builder.append(&header, data.as_slice()).map_err(|e| e.to_string())?;
    }
    builder.into_inner().map_err(|e| e.to_string())
}

/// The entries holding the images of one mip level `l`, in order.
pub open spec fn level_entries(l: nat, imgs: Seq<Seq<u8>>) -> Seq<(Seq<char>, Seq<u8>)> {
    Seq::new(imgs.len(), |i: int| (entry_name_spec(l, i as nat), imgs[i]))
}

/// The entries holding the images of all `levels`, level by level.
pub open spec fn image_entries(levels: Seq<Seq<Seq<u8>>>) -> Seq<(Seq<char>, Seq<u8>)>
    decreases levels.len(),
{
    if levels.len() == 0 {
        Seq::empty()
    } else {
        image_entries(levels.drop_last()) + level_entries((levels.len() - 1) as nat, levels.last())
    }
}

/// The entries of a waveform archive: the header describing `info`, named
/// `.shape`, then the images.
pub open spec fn archive_entries(info: WaveformCacheInfo, levels: Seq<Seq<Seq<u8>>>) -> Seq<(Seq<char>, Seq<u8>)> {
    seq![(".shape"@, shape_bytes(info))] + image_entries(levels)
}

/// Writes a waveform archive: its header, then image `i` of level `l` as
/// `mip-l{l}-i{i}.png`. An `Io` error carries the text of what stopped the
/// writing.
pub fn archive_bytes(info: &WaveformCacheInfo, images: &Vec<Vec<Vec<u8>>>) -> (r: Result<Vec<u8>, UiError>)
    requires
        info.wf(),
        images@.len() == info.levels,
        forall|l: int| 0 <= l < images@.len() ==> images@[l]@.len() == info.imgs_per_level@[l],
    ensures
        match tar_bytes_of(archive_entries(*info, images.deep_view())) {
            Ok(b) => r matches Ok(v) && v@ == b,
            Err(m) => r matches Err(UiError::Io(t)) && t@ == m,
        },
        r matches Ok(v) ==> tar_entries_of(v@) == (
            utf8_entries(archive_entries(*info, images.deep_view())),
            None::<Seq<char>>,
        ),
{
    let ghost dv = images.deep_view();
    let mut es: Vec<(String, Vec<u8>)> = Vec::new();
    es.push((String::from_str(".shape"), encode_shape(info)));
    assert(dv.take(0).len() == 0);
    assert(named_entries_view(es@) =~= seq![(".shape"@, shape_bytes(*info))] + image_entries(dv.take(0)));
    let mut l: usize = 0;
    while l < images.len()
        invariant
            0 <= l <= images@.len(),
            dv == images.deep_view(),
            named_entries_view(es@) == seq![(".shape"@, shape_bytes(*info))] + image_entries(dv.take(l as int)),
        decreases images@.len() - l,
    {
        let level = &images[l];
        let ghost before = named_entries_view(es@);
        assert(dv[l as int] == level.deep_view());
        let mut i: usize = 0;
        while i < level.len()
            invariant
                0 <= i <= level@.len(),
                dv[l as int] == level.deep_view(),
                named_entries_view(es@) == before + level_entries(l as nat, dv[l as int].take(i as int)),
            decreases level@.len() - i,
        {
            let name = entry_name(l, i);
            let bytes = copy_bytes(&level[i]);
            let ghost prev = es@;
            es.push((name, bytes));
            proof {
                assert(dv[l as int][i as int] == level@[i as int]@);
                assert(named_entries_view(es@) =~= named_entries_view(prev).push((name@, bytes@)));
                assert(level_entries(l as nat, dv[l as int].take(i + 1)) =~= level_entries(
                    l as nat,
                    dv[l as int].take(i as int),
                ).push((entry_name_spec(l as nat, i as nat), dv[l as int][i as int])));
            }
            i = i + 1;
        }
        proof {
            assert(dv[l as int].take(i as int) =~= dv[l as int]);
            assert(dv.take(l + 1).drop_last() =~= dv.take(l as int));
            assert(dv.take(l + 1).last() == dv[l as int]);
        }
        l = l + 1;
    }
    assert(dv.take(l as int) =~= dv);
    proof {
        assert forall|k: int| 0 <= k < dv.len() implies #[trigger] dv[k].len() <= u64::MAX by {
            assert(dv[k].len() == images@[k]@.len());
            assert(images@[k]@.len() == info.imgs_per_level@[k]);
        }
        crate::archive_laws::lemma_archive_names_plain(*info, dv);
        let all = archive_entries(*info, dv);
        assert forall|i: int| 0 <= i < es@.len() implies plain_name(#[trigger] es@[i].0@) by {
            assert(named_entries_view(es@)[i] == all[i]);
            assert(named_entries_view(es@)[i].0 == es@[i].0@);
            assert(plain_name(all[i].0));
        }
    }
    match tar_bytes(&es) {
        Ok(b) => Ok(b),
        Err(m) => Err(UiError::Io(m)),
    }
}

impl WaveformCache {
    /// Reads the description of the archive, whose bytes are `archive`,
    /// the first time it is asked for; later it is kept. On an error nothing
    /// is kept.
    pub fn load_info(&mut self, archive: &[u8]) -> (r: Result<(), UiError>)
        requires
            old(self).wf(),
        ensures
            final(self).wf(),
            final(self).name == old(self).name,
            final(self).source == old(self).source,
            final(self).entries_view() == old(self).entries_view(),
            old(self).info is Some ==> r is Ok && final(self).info == old(self).info,
            old(self).info is None ==> ({
                let es = tar_entries_of(archive@).0;
                if es.len() > 0 && shape_fits(es[0].1) {
                    r is Ok && (final(self).info matches Some(info) && shape_of(es[0].1, info))
                } else {
                    r is Err && final(self).info is None
                }
            }),
    {
        if self.info.is_some() {
            return Ok(());
        }
        match archive_info(archive) {
            Ok(info) => {
                self.info = Some(info);
                Ok(())
            },
            Err(e) => Err(e),
        }
    }

    /// Image `idx` of level `level`, with its address: from the loaded
    /// images when it is one of them, else read from the archive, whose
    /// bytes are `archive`, and loaded first among them (the oldest beyond
    /// `MAX_ENTRIES` are dropped). When the archive does not hold it,
    /// nothing changes.
    pub fn load_entry(&mut self, archive: &[u8], level: usize, idx: usize) -> (r: Result<(String, Vec<u8>), UiError>)
        requires
            old(self).wf(),
        ensures
            final(self).wf(),
            final(self).name == old(self).name,
            final(self).source == old(self).source,
            final(self).info == old(self).info,
            match lookup(old(self).entries_view(), level, idx) {
                Some((u, b)) => r matches Ok((ru, rb)) && ru@ == u && rb@ == b && final(self).entries_view()
                    == old(self).entries_view(),
                None => match first_named(
                    tar_entries_of(archive@).0,
                    encode_utf8(entry_name_spec(level as nat, idx as nat)),
                ) {
                    Some(d) => r matches Ok((ru, rb)) && ru@ == entry_uri_spec(old(self).name@, level as nat, idx as nat)
                        && rb@ == d && final(self).entries_view() == with_entry(
                        old(self).entries_view(),
                        (level, idx, ru@, d),
                    ),
                    None => r is Err && final(self).entries_view() == old(self).entries_view(),
                },
            },
    {
        if let Some((u, b)) = self.find_entry(level, idx) {
            return Ok((u, b));
        }
        match archive_image(archive, level, idx) {
            Ok(data) => Ok(self.insert_entry(level, idx, data)),
            Err(e) => Err(e),
        }
    }
}

} // verus!
