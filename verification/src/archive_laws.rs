//! What reading back a written waveform archive gives.

use vstd::prelude::*;
use vstd::utf8::{encode_utf8, is_ascii_chars, is_ascii_chars_encode_utf8};

use crate::archive::{
    archive_entries, file_name_spec, first_named, image_entries, lemma_segment_start, level_entries, plain_char,
    plain_name, segment_start, utf8_entries,
};
use crate::text::{decimal_spec, lemma_decimal_injective, lemma_decimal_u64};
use crate::waveform::{entry_name_spec, lemma_shape_roundtrip, shape_bytes, shape_fits, shape_of, WaveformCacheInfo};

verus! {

/// The final component of a plain file name, as bytes, is the name itself.
pub proof fn lemma_plain_file_name(name: Seq<char>)
    requires
        plain_name(name),
    ensures
        file_name_spec(encode_utf8(name)) == Some(encode_utf8(name)),
{
    assert(is_ascii_chars(name)) by {
        assert forall|i: int| 0 <= i < name.len() implies '\0' <= #[trigger] name[i] <= '\u{7f}' by {
            assert(plain_char(name[i]));
        }
    }
    is_ascii_chars_encode_utf8(name);
    let p = encode_utf8(name);
    lemma_segment_start(p);
    if segment_start(p) > 0 {
        let k = segment_start(p) - 1;
        assert(name[k] as u8 == p[k]);
        assert(plain_char(name[k]));
    }
    assert(p.subrange(0, p.len() as int) =~= p);
    if p =~= seq![0x2eu8, 0x2eu8] {
        assert(name[0] as u8 == p[0]);
        assert(name[1] as u8 == p[1]);
        assert(plain_char(name[0]) && plain_char(name[1]));
        assert(name =~= seq!['.', '.']);
    }
    if p =~= seq![0x2eu8] {
        assert(name[0] as u8 == p[0]);
        assert(plain_char(name[0]));
        assert(name =~= seq!['.']);
    }
}

/// Two plain file names with the same bytes are the same name.
pub proof fn lemma_plain_bytes_injective(a: Seq<char>, b: Seq<char>)
    requires
        plain_name(a),
        plain_name(b),
        encode_utf8(a) == encode_utf8(b),
    ensures
        a == b,
{
    assert(is_ascii_chars(a)) by {
        assert forall|i: int| 0 <= i < a.len() implies '\0' <= #[trigger] a[i] <= '\u{7f}' by {
            assert(plain_char(a[i]));
        }
    }
    assert(is_ascii_chars(b)) by {
        assert forall|i: int| 0 <= i < b.len() implies '\0' <= #[trigger] b[i] <= '\u{7f}' by {
            assert(plain_char(b[i]));
        }
    }
    is_ascii_chars_encode_utf8(a);
    is_ascii_chars_encode_utf8(b);
    assert forall|i: int| 0 <= i < a.len() implies a[i] == b[i] by {
        assert(a[i] as u8 == encode_utf8(a)[i]);
        assert(b[i] as u8 == encode_utf8(b)[i]);
        assert(plain_char(a[i]) && plain_char(b[i]));
    }
    assert(a =~= b);
}

/// The name of image `i` of level `l` is a plain file name.
pub proof fn lemma_entry_name_plain(l: nat, i: nat)
    requires
        l <= u64::MAX,
        i <= u64::MAX,
    ensures
        plain_name(entry_name_spec(l, i)),
{
    reveal_strlit("mip-l");
    reveal_strlit("-i");
    reveal_strlit(".png");
    lemma_decimal_u64(l);
    lemma_decimal_u64(i);
    let d = decimal_spec(l);
    let e = decimal_spec(i);
    let s = entry_name_spec(l, i);
    assert forall|k: int| 0 <= k < s.len() implies plain_char(#[trigger] s[k]) by {
        if 5 <= k < 5 + d.len() {
            assert(s[k] == d[k - 5]);
        } else if 7 + d.len() <= k < 7 + d.len() + e.len() {
            assert(s[k] == e[k - 7 - d.len()]);
        }
    }
    assert(s[0] == 'm');
}

/// `.shape` is a plain file name, and no image is named so.
pub proof fn lemma_shape_name(l: nat, i: nat)
    ensures
        plain_name(".shape"@),
        entry_name_spec(l, i) != ".shape"@,
{
    reveal_strlit(".shape");
    reveal_strlit("mip-l");
    let n = ".shape"@;
    assert(n =~= seq!['.', 's', 'h', 'a', 'p', 'e']);
    assert forall|k: int| 0 <= k < n.len() implies plain_char(#[trigger] n[k]) by {}
    assert(n != seq!['.']) by {
        assert(n.len() != seq!['.'].len());
    }
    assert(n != seq!['.', '.']) by {
        assert(n.len() != seq!['.', '.'].len());
    }
    assert(entry_name_spec(l, i)[0] == 'm');
}

/// Different images have different names.
pub proof fn lemma_entry_name_injective(l1: nat, i1: nat, l2: nat, i2: nat)
    requires
        entry_name_spec(l1, i1) == entry_name_spec(l2, i2),
        l1 <= u64::MAX,
        i1 <= u64::MAX,
        l2 <= u64::MAX,
        i2 <= u64::MAX,
    ensures
        l1 == l2,
        i1 == i2,
{
    reveal_strlit("mip-l");
    reveal_strlit("-i");
    reveal_strlit(".png");
    lemma_decimal_u64(l1);
    lemma_decimal_u64(l2);
    lemma_decimal_u64(i1);
    lemma_decimal_u64(i2);
    let d1 = decimal_spec(l1);
    let d2 = decimal_spec(l2);
    let e1 = decimal_spec(i1);
    let e2 = decimal_spec(i2);
    let s = entry_name_spec(l1, i1);
    let t = entry_name_spec(l2, i2);
    assert(s == "mip-l"@ + d1 + "-i"@ + e1 + ".png"@);
    assert(t == "mip-l"@ + d2 + "-i"@ + e2 + ".png"@);
    if d1.len() < d2.len() {
        assert(s[5 + d1.len() as int] == '-');
        assert(t[5 + d1.len() as int] == d2[d1.len() as int]);
        assert(false);
    }
    if d2.len() < d1.len() {
        assert(t[5 + d2.len() as int] == '-');
        assert(s[5 + d2.len() as int] == d1[d2.len() as int]);
        assert(false);
    }
    assert(d1 =~= d2) by {
        assert forall|k: int| 0 <= k < d1.len() implies d1[k] == d2[k] by {
            assert(s[5 + k] == d1[k]);
            assert(t[5 + k] == d2[k]);
        }
    }
    lemma_decimal_injective(l1, l2);
    assert(s.len() == 11 + d1.len() + e1.len());
    assert(t.len() == 11 + d2.len() + e2.len());
    assert(e1.len() == e2.len());
    assert(e1 =~= e2) by {
        assert forall|k: int| 0 <= k < e1.len() implies e1[k] == e2[k] by {
            assert(s[7 + d1.len() + k] == e1[k]);
            assert(t[7 + d2.len() + k] == e2[k]);
        }
    }
    lemma_decimal_injective(i1, i2);
}

/// Whether `e` is the entry of image `i` of level `l` of `levels`.
pub open spec fn is_image_entry(levels: Seq<Seq<Seq<u8>>>, e: (Seq<char>, Seq<u8>), l: int, i: int) -> bool {
    0 <= l < levels.len() && 0 <= i < levels[l].len() && e == (entry_name_spec(l as nat, i as nat), levels[l][i])
}

/// Every entry of the images is the entry of one of them: entry `k` is
/// image `i` of level `l`, for the pair returned.
pub proof fn lemma_image_entry_of(levels: Seq<Seq<Seq<u8>>>, k: int) -> (li: (int, int))
    requires
        0 <= k < image_entries(levels).len(),
    ensures
        is_image_entry(levels, image_entries(levels)[k], li.0, li.1),
    decreases levels.len(),
{
    let d = levels.drop_last();
    let n = levels.len() - 1;
    let prev = image_entries(d);
    let last = level_entries(n as nat, levels.last());
    assert(image_entries(levels) =~= prev + last);
    if k < prev.len() {
        let (l, i) = lemma_image_entry_of(d, k);
        assert(d[l] == levels[l]);
        (l, i)
    } else {
        (n, k - prev.len())
    }
}

/// Each image has its entry: image `i` of level `l` is entry `k`, for the
/// `k` returned.
pub proof fn lemma_image_entry_index(levels: Seq<Seq<Seq<u8>>>, l: int, i: int) -> (k: int)
    requires
        0 <= l < levels.len(),
        0 <= i < levels[l].len(),
    ensures
        0 <= k < image_entries(levels).len(),
        is_image_entry(levels, image_entries(levels)[k], l, i),
    decreases levels.len(),
{
    let d = levels.drop_last();
    let n = levels.len() - 1;
    let prev = image_entries(d);
    let last = level_entries(n as nat, levels.last());
    assert(image_entries(levels) =~= prev + last);
    if l < n {
        assert(d[l] == levels[l]);
        lemma_image_entry_index(d, l, i)
    } else {
        prev.len() + i
    }
}

/// When some entry is named `name` and all that are carry `d`, the first
/// one named `name` carries `d`.
pub proof fn lemma_first_named_all(es: Seq<(Seq<u8>, Seq<u8>)>, name: Seq<u8>, d: Seq<u8>)
    requires
        exists|k: int| 0 <= k < es.len() && #[trigger] file_name_spec(es[k].0) == Some(name),
        forall|k: int| 0 <= k < es.len() && #[trigger] file_name_spec(es[k].0) == Some(name) ==> es[k].1 == d,
    ensures
        first_named(es, name) == Some(d),
    decreases es.len(),
{
    if file_name_spec(es[0].0) != Some(name) {
        let k = choose|k: int| 0 <= k < es.len() && #[trigger] file_name_spec(es[k].0) == Some(name);
        let r = es.skip(1);
        assert(r[k - 1] == es[k]);
        assert forall|j: int| 0 <= j < r.len() && #[trigger] file_name_spec(r[j].0) == Some(name) implies r[j].1
            == d by {
            assert(r[j] == es[j + 1]);
        }
        lemma_first_named_all(r, name, d);
    }
}

/// Every name in a waveform archive is a plain file name.
pub proof fn lemma_archive_names_plain(info: WaveformCacheInfo, levels: Seq<Seq<Seq<u8>>>)
    requires
        levels.len() <= u64::MAX,
        forall|l: int| 0 <= l < levels.len() ==> #[trigger] levels[l].len() <= u64::MAX,
    ensures
        forall|k: int|
            0 <= k < archive_entries(info, levels).len() ==> plain_name(#[trigger] archive_entries(info, levels)[k].0),
{
    let es = archive_entries(info, levels);
    let ie = image_entries(levels);
    lemma_shape_name(0, 0);
    assert forall|k: int| 0 <= k < es.len() implies plain_name(#[trigger] es[k].0) by {
        if k > 0 {
            assert(es[k] == ie[k - 1]);
            let (l, i) = lemma_image_entry_of(levels, k - 1);
            lemma_entry_name_plain(l as nat, i as nat);
        }
    }
}

/// The image found under the name of image `i` of level `l` in the
/// entries written for `info` and `levels` is that image.
proof fn lemma_read_back_image(
    info: WaveformCacheInfo,
    levels: Seq<Seq<Seq<u8>>>,
    es: Seq<(Seq<u8>, Seq<u8>)>,
    l: int,
    i: int,
)
    requires
        info.wf(),
        levels.len() == info.levels,
        forall|l: int| 0 <= l < levels.len() ==> #[trigger] levels[l].len() == info.imgs_per_level@[l],
        es == utf8_entries(archive_entries(info, levels)),
        0 <= l < levels.len(),
        0 <= i < levels[l].len(),
    ensures
        first_named(es, encode_utf8(entry_name_spec(l as nat, i as nat))) == Some(levels[l][i]),
{
    let all = archive_entries(info, levels);
    let ie = image_entries(levels);
    let name = entry_name_spec(l as nat, i as nat);
    lemma_entry_name_plain(l as nat, i as nat);
    lemma_plain_file_name(name);
    let k = lemma_image_entry_index(levels, l, i);
    assert(all[k + 1] == ie[k]);
    assert(es[k + 1] == (encode_utf8(name), levels[l][i]));
    assert(file_name_spec(es[k + 1].0) == Some(encode_utf8(name)));
    assert forall|j: int| 0 <= j < es.len() && #[trigger] file_name_spec(es[j].0) == Some(encode_utf8(name))
        implies es[j].1 == levels[l][i] by {
        if j == 0 {
            assert(es[0] == (encode_utf8(".shape"@), shape_bytes(info)));
            lemma_shape_name(l as nat, i as nat);
            lemma_plain_file_name(".shape"@);
            lemma_plain_bytes_injective(".shape"@, name);
        } else {
            assert(all[j] == ie[j - 1]);
            let (l2, i2) = lemma_image_entry_of(levels, j - 1);
            let n2 = entry_name_spec(l2 as nat, i2 as nat);
            lemma_entry_name_plain(l2 as nat, i2 as nat);
            lemma_plain_file_name(n2);
            assert(es[j] == (encode_utf8(n2), levels[l2][i2]));
            lemma_plain_bytes_injective(n2, name);
            lemma_entry_name_injective(l2 as nat, i2 as nat, l as nat, i as nat);
        }
    }
    lemma_first_named_all(es, encode_utf8(name), levels[l][i]);
}

/// Reading back a written waveform archive gives what was written. When
/// the entries read, `es`, are those written for the description `info`
/// and the images `levels`: the first entry is a header that reads back as
/// `info`, and the image found under the name of image `i` of level `l` is
/// that image.
pub proof fn lemma_archive_read_back(info: WaveformCacheInfo, levels: Seq<Seq<Seq<u8>>>, es: Seq<(Seq<u8>, Seq<u8>)>)
    requires
        info.wf(),
        levels.len() == info.levels,
        forall|l: int| 0 <= l < levels.len() ==> #[trigger] levels[l].len() == info.imgs_per_level@[l],
        es == utf8_entries(archive_entries(info, levels)),
    ensures
        es.len() > 0,
        es[0].1 == shape_bytes(info),
        shape_fits(es[0].1),
        forall|r: WaveformCacheInfo| #[trigger] shape_of(es[0].1, r) ==> r.levels == info.levels
            && r.imgs_per_level@ == info.imgs_per_level@ && r.pixel_to_s@ == info.pixel_to_s@
            && r.duration == info.duration,
        forall|l: int, i: int|
            0 <= l < levels.len() && 0 <= i < levels[l].len() ==> first_named(
                es,
                encode_utf8(#[trigger] entry_name_spec(l as nat, i as nat)),
            ) == Some(levels[l][i]),
{
    lemma_shape_roundtrip(info);
    assert(es[0] == (encode_utf8(".shape"@), shape_bytes(info)));
    assert forall|l: int, i: int| 0 <= l < levels.len() && 0 <= i < levels[l].len() implies first_named(
        es,
        encode_utf8(#[trigger] entry_name_spec(l as nat, i as nat)),
    ) == Some(levels[l][i]) by {
        lemma_read_back_image(info, levels, es, l, i);
    }
}

} // verus!
