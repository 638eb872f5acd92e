//! Which files the organizer treats as photos and videos, and how files that
//! share a name are grouped into Live Photos.
use vstd::prelude::*;
use crate::text::{chars_of, chars_eq, lower_chars, lower_text, to_lowercase, unicode_lower, views};
use crate::models::{MediaFileDiagnosis, MediaItem, MediaKind, SortMode};
use crate::path_text::{
    extension, file_name, file_stem, lower_extension_of, lower_extension_chars,
    file_name_chars, file_stem_chars,
};
use crate::text::string_of;

verus! {

pub open spec fn image_ext(e: Seq<char>) -> bool {
    ||| e == "jpg"@
    ||| e == "jpeg"@
    ||| e == "png"@
    ||| e == "webp"@
    ||| e == "gif"@
    ||| e == "heic"@
    ||| e == "heif"@
    ||| e == "bmp"@
    ||| e == "tiff"@
    ||| e == "tif"@
}

pub open spec fn video_ext(e: Seq<char>) -> bool {
    ||| e == "mp4"@
    ||| e == "mov"@
    ||| e == "m4v"@
    ||| e == "avi"@
    ||| e == "mkv"@
    ||| e == "3gp"@
}

/// Whether `s` is exactly the text `lit`.
pub fn eq_lit(s: &[char], lit: &str) -> (r: bool)
    ensures
        r == (s@ == lit@),
{
    let l = chars_of(lit);
    chars_eq(s, l.as_slice())
}

pub fn is_image_ext_chars(e: &[char]) -> (r: bool)
    ensures
        r == image_ext(e@),
{
    eq_lit(e, "jpg") || eq_lit(e, "jpeg") || eq_lit(e, "png") || eq_lit(e, "webp") || eq_lit(
        e,
        "gif",
    ) || eq_lit(e, "heic") || eq_lit(e, "heif") || eq_lit(e, "bmp") || eq_lit(e, "tiff")
        || eq_lit(e, "tif")
}

pub fn is_video_ext_chars(e: &[char]) -> (r: bool)
    ensures
        r == video_ext(e@),
{
    eq_lit(e, "mp4") || eq_lit(e, "mov") || eq_lit(e, "m4v") || eq_lit(e, "avi") || eq_lit(
        e,
        "mkv",
    ) || eq_lit(e, "3gp")
}

/// Photo or video extension, compared without regard to ASCII case.
pub fn is_media_extension(ext: &str) -> (r: bool)
    ensures
        r == (image_ext(lower_text(ext@)) || video_ext(lower_text(ext@))),
{
    let e = chars_of(ext);
    let lower = lower_chars(e.as_slice());
    is_image_ext_chars(lower.as_slice()) || is_video_ext_chars(lower.as_slice())
}

/// Video extension, compared without regard to ASCII case.
pub fn is_video_extension(ext: &str) -> (r: bool)
    ensures
        r == video_ext(lower_text(ext@)),
{
    let e = chars_of(ext);
    let lower = lower_chars(e.as_slice());
    is_video_ext_chars(lower.as_slice())
}

/// A supported file: its extension is a photo or video extension.
pub open spec fn supported_path(p: Seq<char>) -> bool {
    match extension(p) {
        Some(e) => image_ext(lower_text(e)) || video_ext(lower_text(e)),
        None => false,
    }
}

pub fn is_supported_file(path: &str) -> (r: bool)
    ensures
        r == supported_path(path@),
{
    let p = chars_of(path);
    match crate::path_text::extension_chars(p.as_slice()) {
        Some(e) => {
            let lower = lower_chars(e.as_slice());
            is_image_ext_chars(lower.as_slice()) || is_video_ext_chars(lower.as_slice())
        },
        None => false,
    }
}

/// Files of one folder that share a stem belong to the same group.
pub open spec fn group_key(p: Seq<char>) -> (Seq<char>, Seq<char>) {
    (
        match crate::path_text::parent(p) {
            Some(d) => d,
            None => Seq::empty(),
        },
        file_stem(p),
    )
}

pub open spec fn is_video_path(p: Seq<char>) -> bool {
    video_ext(lower_extension_of(p))
}

pub open spec fn is_image_path(p: Seq<char>) -> bool {
    !is_video_path(p) && image_ext(lower_extension_of(p))
}

/// The last image and the last video of a group, in that order, when the
/// group has at least two members and holds both kinds.
pub open spec fn live_pair_indices(group: Seq<Seq<char>>) -> Option<(int, int)> {
    if group.len() < 2 {
        None
    } else {
        let img = last_image(group);
        let vid = last_video(group);
        if img >= 0 && vid >= 0 {
            Some((img, vid))
        } else {
            None
        }
    }
}

/// Index of the last image path, or -1.
pub open spec fn last_image(s: Seq<Seq<char>>) -> int
    decreases s.len(),
{
    if s.len() == 0 {
        -1
    } else if is_image_path(s.last()) {
        s.len() - 1
    } else {
        last_image(s.drop_last())
    }
}

/// Index of the last video path, or -1.
pub open spec fn last_video(s: Seq<Seq<char>>) -> int
    decreases s.len(),
{
    if s.len() == 0 {
        -1
    } else if is_video_path(s.last()) {
        s.len() - 1
    } else {
        last_video(s.drop_last())
    }
}

pub proof fn lemma_last_kind_bounds(s: Seq<Seq<char>>)
    ensures
        -1 <= last_image(s) < s.len(),
        -1 <= last_video(s) < s.len(),
        last_image(s) >= 0 ==> is_image_path(s[last_image(s)]),
        last_video(s) >= 0 ==> is_video_path(s[last_video(s)]),
    decreases s.len(),
{
    if s.len() > 0 {
        lemma_last_kind_bounds(s.drop_last());
        if last_image(s) >= 0 && !is_image_path(s.last()) {
            assert(s[last_image(s)] == s.drop_last()[last_image(s)]);
        }
        if last_video(s) >= 0 && !is_video_path(s.last()) {
            assert(s[last_video(s)] == s.drop_last()[last_video(s)]);
        }
    }
}

pub proof fn lemma_last_kind_prefix(s: Seq<Seq<char>>, n: int)
    requires
        0 <= n < s.len(),
    ensures
        last_image(s.subrange(0, n + 1)) == if is_image_path(s[n]) {
            n
        } else {
            last_image(s.subrange(0, n))
        },
        last_video(s.subrange(0, n + 1)) == if is_video_path(s[n]) {
            n
        } else {
            last_video(s.subrange(0, n))
        },
{
    let t = s.subrange(0, n + 1);
    assert(t.last() == s[n]);
    assert(t.drop_last() =~= s.subrange(0, n));
}

pub fn is_video_path_chars(p: &[char]) -> (r: bool)
    ensures
        r == is_video_path(p@),
{
    let e = lower_extension_chars(p);
    is_video_ext_chars(e.as_slice())
}

pub fn is_image_path_chars(p: &[char]) -> (r: bool)
    ensures
        r == is_image_path(p@),
{
    if is_video_path_chars(p) {
        return false;
    }
    let e = lower_extension_chars(p);
    is_image_ext_chars(e.as_slice())
}

/// The Live Photo pair of a group of same-stem files: the last image and the
/// last video among them, when the group has at least two files and both
/// kinds are present.
pub fn detect_live_photo_pair(group: &Vec<String>) -> (r: Option<(usize, usize)>)
    ensures
        match r {
            Some((i, v)) => live_pair_indices(views(group@)) == Some((i as int, v as int)),
            None => live_pair_indices(views(group@)) is None,
        },
{
    let ghost g = views(group@);
    if group.len() < 2 {
        return None;
    }
    let mut image: Option<usize> = None;
    let mut video: Option<usize> = None;
    let mut i: usize = 0;
    while i < group.len()
        invariant
            i <= group@.len(),
            g == views(group@),
            match image {
                Some(k) => k as int == last_image(g.subrange(0, i as int)),
                None => last_image(g.subrange(0, i as int)) == -1,
            },
            match video {
                Some(k) => k as int == last_video(g.subrange(0, i as int)),
                None => last_video(g.subrange(0, i as int)) == -1,
            },
        decreases group@.len() - i,
    {
        let p = chars_of(group[i].as_str());
        proof {
            lemma_last_kind_prefix(g, i as int);
            assert(g[i as int] == group@[i as int]@);
        }
        if is_video_path_chars(p.as_slice()) {
            video = Some(i);
        } else if is_image_path_chars(p.as_slice()) {
            image = Some(i);
        }
        i = i + 1;
    }
    assert(g.subrange(0, group@.len() as int) =~= g);
    match (image, video) {
        (Some(a), Some(b)) => Some((a, b)),
        _ => None,
    }
}

/// Whether two paths fall in the same Live Photo group.
pub fn same_group(a: &str, b: &str) -> (r: bool)
    ensures
        r == (group_key(a@) == group_key(b@)),
{
    let pa = chars_of(a);
    let pb = chars_of(b);
    let da = match crate::path_text::parent_chars(pa.as_slice()) {
        Some(d) => d,
        None => Vec::new(),
    };
    let db = match crate::path_text::parent_chars(pb.as_slice()) {
        Some(d) => d,
        None => Vec::new(),
    };
    let sa = file_stem_chars(pa.as_slice());
    let sb = file_stem_chars(pb.as_slice());
    chars_eq(da.as_slice(), db.as_slice()) && chars_eq(sa.as_slice(), sb.as_slice())
}

/// The files of `files` in the group `key`, in order.
pub open spec fn members(files: Seq<Seq<char>>, key: (Seq<char>, Seq<char>)) -> Seq<Seq<char>>
    decreases files.len(),
{
    if files.len() == 0 {
        Seq::empty()
    } else {
        members(files.drop_last(), key) + if group_key(files.last()) == key {
            seq![files.last()]
        } else {
            Seq::empty()
        }
    }
}

/// One item per file of `m` that is neither `a` nor `b`, in order.
pub open spec fn singles_except(m: Seq<Seq<char>>, a: Option<Seq<char>>, b: Option<Seq<char>>) -> Seq<
    (Seq<Seq<char>>, MediaKind),
>
    decreases m.len(),
{
    if m.len() == 0 {
        Seq::empty()
    } else {
        singles_except(m.drop_last(), a, b) + if Some(m.last()) == a || Some(m.last()) == b {
            Seq::empty()
        } else {
            seq![(seq![m.last()], MediaKind::Single)]
        }
    }
}

/// The items of one group: its Live Photo pair first when it has one, then
/// every other file on its own.
pub open spec fn group_items(m: Seq<Seq<char>>) -> Seq<(Seq<Seq<char>>, MediaKind)> {
    match live_pair_indices(m) {
        Some((a, b)) => seq![(seq![m[a], m[b]], MediaKind::LivePhoto)] + singles_except(
            m,
            Some(m[a]),
            Some(m[b]),
        ),
        None => singles_except(m, None, None),
    }
}

/// No earlier file shares the group of `files[i]`.
pub open spec fn first_of_group(files: Seq<Seq<char>>, i: int) -> bool {
    forall|j: int| 0 <= j < i ==> group_key(#[trigger] files[j]) != group_key(files[i])
}

/// The items of the groups whose first file is at `i` or later, in the
/// order of their first files.
pub open spec fn grouping_from(files: Seq<Seq<char>>, i: int) -> Seq<(Seq<Seq<char>>, MediaKind)>
    decreases files.len() - i,
{
    if i < 0 || i >= files.len() {
        Seq::empty()
    } else {
        (if first_of_group(files, i) {
            group_items(members(files, group_key(files[i])))
        } else {
            Seq::empty()
        }) + grouping_from(files, i + 1)
    }
}

/// A group of files shown as one item.
#[derive(Debug, Clone)]
pub struct MediaGroup {
    pub paths: Vec<String>,
    pub kind: MediaKind,
}

pub open spec fn group_view(g: MediaGroup) -> (Seq<Seq<char>>, MediaKind) {
    (views(g.paths@), g.kind)
}

pub open spec fn groups_view(v: Seq<MediaGroup>) -> Seq<(Seq<Seq<char>>, MediaKind)> {
    v.map_values(|g: MediaGroup| group_view(g))
}

fn one_path(p: &String) -> (r: Vec<String>)
    ensures
        views(r@) == seq![p@],
{
    let mut v: Vec<String> = Vec::new();
    v.push(p.clone());
    assert(views(v@) =~= seq![p@]);
    v
}

fn push_group(out: &mut Vec<MediaGroup>, paths: Vec<String>, kind: MediaKind)
    ensures
        groups_view(final(out)@) == groups_view(old(out)@).push((views(paths@), kind)),
{
    let ghost before = out@;
    out.push(MediaGroup { paths, kind });
    assert(groups_view(out@) =~= groups_view(before).push((views(paths@), kind)));
}

/// Groups the files of a folder: same-stem files of one folder form a
/// group; a group with an image and a video gives a Live Photo item (the
/// last image and the last video of the group), and every other file is an
/// item of its own. Items come in the order of each group's first file.
pub fn group_live_photos(files: &Vec<String>) -> (r: Vec<MediaGroup>)
    ensures
        groups_view(r@) == grouping_from(views(files@), 0),
{
    let ghost fs = views(files@);
    let mut out: Vec<MediaGroup> = Vec::new();
    let mut i: usize = 0;
    assert(groups_view(out@) =~= Seq::<(Seq<Seq<char>>, MediaKind)>::empty());
    while i < files.len()
        invariant
            i <= files@.len(),
            fs == views(files@),
            groups_view(out@) + grouping_from(fs, i as int) == grouping_from(fs, 0),
        decreases files@.len() - i,
    {
        let ghost before = groups_view(out@);
        // is files[i] the first of its group?
        let mut first = true;
        let mut j: usize = 0;
        while j < i
            invariant
                j <= i < files@.len(),
                fs == views(files@),
                first == (forall|k: int| 0 <= k < j ==> group_key(#[trigger] fs[k]) != group_key(fs[i as int])),
            decreases i - j,
        {
            proof {
                assert(fs[j as int] == files@[j as int]@);
                assert(fs[i as int] == files@[i as int]@);
            }
            if same_group(files[j].as_str(), files[i].as_str()) {
                first = false;
            }
            j = j + 1;
        }
        if first {
            let ghost key = group_key(fs[i as int]);
            // the whole group, in order
            let mut group: Vec<String> = Vec::new();
            let mut k: usize = 0;
            assert(fs.take(0) =~= Seq::<Seq<char>>::empty());
            assert(views(group@) =~= Seq::<Seq<char>>::empty());
            while k < files.len()
                invariant
                    k <= files@.len(),
                    i < files@.len(),
                    fs == views(files@),
                    key == group_key(fs[i as int]),
                    views(group@) == members(fs.take(k as int), key),
                decreases files@.len() - k,
            {
                proof {
                    assert(fs.take(k + 1).drop_last() =~= fs.take(k as int));
                }
                proof {
                    assert(fs[k as int] == files@[k as int]@);
                    assert(fs[i as int] == files@[i as int]@);
                    assert(fs.take(k + 1).last() == fs[k as int]);
                }
                if same_group(files[k].as_str(), files[i].as_str()) {
                    let ghost gb = group@;
                    group.push(files[k].clone());
                    assert(views(group@) =~= views(gb).push(files@[k as int]@));
                }
                k = k + 1;
            }
            assert(fs.take(k as int) =~= fs);
            let ghost m = views(group@);
            let pair = detect_live_photo_pair(&group);
            proof {
                lemma_last_kind_bounds(m);
            }
            let (a, b) = match pair {
                Some((x, y)) => {
                    let pa = group[x].clone();
                    let pb = group[y].clone();
                    let mut both: Vec<String> = Vec::new();
                    both.push(group[x].clone());
                    both.push(group[y].clone());
                    assert(views(both@) =~= seq![m[x as int], m[y as int]]);
                    push_group(&mut out, both, MediaKind::LivePhoto);
                    (Some(pa), Some(pb))
                },
                None => (None, None),
            };
            let ghost sa = crate::batch::runner::opt_string_view(a);
            let ghost sb = crate::batch::runner::opt_string_view(b);
            let ghost mid = groups_view(out@);
            let mut t: usize = 0;
            assert(m.take(0) =~= Seq::<Seq<char>>::empty());
            while t < group.len()
                invariant
                    t <= group@.len(),
                    m == views(group@),
                    groups_view(out@) == mid + singles_except(m.take(t as int), sa, sb),
                    sa == crate::batch::runner::opt_string_view(a),
                    sb == crate::batch::runner::opt_string_view(b),
                decreases group@.len() - t,
            {
                proof {
                    assert(m.take(t + 1).drop_last() =~= m.take(t as int));
                    assert(m[t as int] == group@[t as int]@);
                }
                let c = chars_of(group[t].as_str());
                let is_a = match &a {
                    Some(s) => {
                        let sc = chars_of(s.as_str());
                        chars_eq(c.as_slice(), sc.as_slice())
                    },
                    None => false,
                };
                let is_b = match &b {
                    Some(s) => {
                        let sc = chars_of(s.as_str());
                        chars_eq(c.as_slice(), sc.as_slice())
                    },
                    None => false,
                };
                if !is_a && !is_b {
                    let single = one_path(&group[t]);
                    push_group(&mut out, single, MediaKind::Single);
                }
                t = t + 1;
            }
            assert(m.take(t as int) =~= m);
            assert(groups_view(out@) == before + group_items(members(fs, group_key(fs[i as int]))));
        }
        proof {
            assert(grouping_from(fs, i as int) == (if first_of_group(fs, i as int) {
                group_items(members(fs, group_key(fs[i as int])))
            } else {
                Seq::empty()
            }) + grouping_from(fs, i + 1));
            assert(first == first_of_group(fs, i as int));
        }
        i = i + 1;
    }
    out
}

} // verus!

verus! {

/// Whether the paths a user picked form a Live Photo: two or more of them,
/// holding an image and a video.
pub open spec fn spec_item_kind(paths: Seq<Seq<char>>) -> MediaKind {
    if paths.len() >= 2 && live_pair_indices(paths) is Some {
        MediaKind::LivePhoto
    } else {
        MediaKind::Single
    }
}

pub fn item_kind(paths: &Vec<String>) -> (r: MediaKind)
    ensures
        r == spec_item_kind(views(paths@)),
{
    if paths.len() >= 2 && detect_live_photo_pair(paths).is_some() {
        MediaKind::LivePhoto
    } else {
        MediaKind::Single
    }
}

/// The sum of the sizes that could be read; unreadable files count nothing.
pub open spec fn size_sum(sizes: Seq<Option<u64>>) -> nat
    decreases sizes.len(),
{
    if sizes.len() == 0 {
        0
    } else {
        size_sum(sizes.drop_last()) + match sizes.last() {
            Some(n) => n as nat,
            None => 0nat,
        }
    }
}

pub fn total_size(sizes: &Vec<Option<u64>>) -> (r: u64)
    requires
        size_sum(sizes@) <= u64::MAX,
    ensures
        r == size_sum(sizes@),
{
    let mut total: u64 = 0;
    let mut i: usize = 0;
    while i < sizes.len()
        invariant
            i <= sizes@.len(),
            total == size_sum(sizes@.take(i as int)),
            size_sum(sizes@) <= u64::MAX,
        decreases sizes@.len() - i,
    {
        assert(sizes@.take(i + 1).drop_last() =~= sizes@.take(i as int));
        proof {
            lemma_size_sum_prefix(sizes@, i as int + 1);
        }
        match sizes[i] {
            Some(n) => {
                total = total + n;
            },
            None => {},
        }
        i = i + 1;
    }
    assert(sizes@.take(i as int) =~= sizes@);
    total
}

proof fn lemma_size_sum_prefix(s: Seq<Option<u64>>, k: int)
    requires
        0 <= k <= s.len(),
    ensures
        size_sum(s.take(k)) <= size_sum(s),
    decreases s.len(),
{
    if k < s.len() {
        assert(s.drop_last().take(k) =~= s.take(k));
        lemma_size_sum_prefix(s.drop_last(), k);
    } else {
        assert(s.take(k) =~= s);
    }
}

/// The item for `paths` (the first is the one shown), of `size_bytes` in
/// all, last modified at `modified_at`: named and typed after its first
/// path, with no EXIF fields read yet.
pub fn build_media_item(paths: Vec<String>, kind: MediaKind, size_bytes: u64, modified_at: Option<String>) -> (r: MediaItem)
    requires
        paths@.len() >= 1,
    ensures
        r.id@ == paths@[0]@,
        r.paths@ == paths@,
        r.file_name@ == file_name(paths@[0]@),
        r.extension@ == lower_extension_of(paths@[0]@),
        r.exif_date is None,
        r.modified_at == modified_at,
        r.size_bytes == size_bytes,
        r.is_video == video_ext(lower_extension_of(paths@[0]@)),
        r.kind == kind,
        r.width is None,
        r.height is None,
{
    let primary = chars_of(paths[0].as_str());
    let name = file_name_chars(primary.as_slice());
    let ext = lower_extension_chars(primary.as_slice());
    let is_video = is_video_ext_chars(ext.as_slice());
    MediaItem {
        id: string_of(primary.as_slice()),
        paths,
        file_name: string_of(name.as_slice()),
        extension: string_of(ext.as_slice()),
        exif_date: None,
        modified_at,
        size_bytes,
        is_video,
        kind,
        width: None,
        height: None,
    }
}

/// Whether the EXIF fields of `item` are worth reading: some are missing
/// and it is not a video.
pub fn wants_exif_fields(item: &MediaItem) -> (r: bool)
    ensures
        r == (!(item.exif_date is Some && item.width is Some && item.height is Some) && !item.is_video),
{
    !(item.exif_date.is_some() && item.width.is_some() && item.height.is_some()) && !item.is_video
}

/// Fills the fields of `item` that are still missing from what was read.
pub fn fill_missing_metadata(item: &mut MediaItem, exif_date: Option<String>, width: Option<u32>, height: Option<u32>)
    ensures
        final(item).exif_date == (if old(item).exif_date is Some { old(item).exif_date } else { exif_date }),
        final(item).width == (if old(item).width is Some { old(item).width } else { width }),
        final(item).height == (if old(item).height is Some { old(item).height } else { height }),
        final(item).id == old(item).id,
        final(item).paths == old(item).paths,
        final(item).file_name == old(item).file_name,
        final(item).extension == old(item).extension,
        final(item).modified_at == old(item).modified_at,
        final(item).size_bytes == old(item).size_bytes,
        final(item).is_video == old(item).is_video,
        final(item).kind == old(item).kind,
{
    if item.exif_date.is_none() {
        item.exif_date = exif_date;
    }
    if item.width.is_none() {
        item.width = width;
    }
    if item.height.is_none() {
        item.height = height;
    }
}

/// A JPEG starts with FF D8 FF.
pub open spec fn jpeg_header(h: Seq<u8>) -> bool {
    h.len() >= 3 && h[0] == 0xFF && h[1] == 0xD8 && h[2] == 0xFF
}

/// An HEIF file carries `ftyp` at bytes 4 to 8.
pub open spec fn heif_header(h: Seq<u8>) -> bool {
    h.len() >= 12 && h[4] == 0x66 && h[5] == 0x74 && h[6] == 0x79 && h[7] == 0x70
}

/// A PNG starts with 89 50 4E 47.
pub open spec fn png_header(h: Seq<u8>) -> bool {
    h.len() >= 4 && h[0] == 0x89 && h[1] == 0x50 && h[2] == 0x4E && h[3] == 0x47
}

/// Why a file may fail to open: empty, shorter than a header, content that
/// does not match its extension, or nothing that can be told.
pub open spec fn spec_diagnosis_issue(size: u64, header: Seq<u8>, read_len: nat, path: Seq<char>) -> Seq<char> {
    let e = lower_extension_of(path);
    if size == 0 {
        "empty"@
    } else if read_len < 4 {
        "too_small"@
    } else if (e == "jpg"@ || e == "jpeg"@) && !jpeg_header(header) {
        "content_mismatch"@
    } else if e == "png"@ && !png_header(header) {
        "content_mismatch"@
    } else if (e == "heic"@ || e == "heif"@) && !heif_header(header) {
        "content_mismatch"@
    } else {
        "unknown"@
    }
}

/// The diagnosis of the file at `path` of `size` bytes, whose first
/// `read_len` bytes were read into `header` (a buffer of 16 bytes, zero
/// beyond what was read).
pub fn diagnose_header(size: u64, header: &[u8], read_len: usize, path: &str) -> (r: MediaFileDiagnosis)
    requires
        header@.len() >= 4,
    ensures
        r.issue@ == spec_diagnosis_issue(size, header@, read_len as nat, path@),
        r.size_bytes == size,
{
    let p = chars_of(path);
    let e = lower_extension_chars(p.as_slice());
    let issue = if size == 0 {
        "empty"
    } else if read_len < 4 {
        "too_small"
    } else if (eq_lit(e.as_slice(), "jpg") || eq_lit(e.as_slice(), "jpeg")) && !(header.len() >= 3 && header[0] == 0xFF
        && header[1] == 0xD8 && header[2] == 0xFF) {
        "content_mismatch"
    } else if eq_lit(e.as_slice(), "png") && !(header[0] == 0x89 && header[1] == 0x50 && header[2] == 0x4E
        && header[3] == 0x47) {
        "content_mismatch"
    } else if (eq_lit(e.as_slice(), "heic") || eq_lit(e.as_slice(), "heif")) && !(header.len() >= 12 && header[4]
        == 0x66 && header[5] == 0x74 && header[6] == 0x79 && header[7] == 0x70) {
        "content_mismatch"
    } else {
        "unknown"
    };
    proof {
        reveal_strlit("empty");
        reveal_strlit("too_small");
        reveal_strlit("content_mismatch");
        reveal_strlit("unknown");
    }
    MediaFileDiagnosis { issue: String::from_str(issue), size_bytes: size }
}

} // verus!

verus! {

/// The order of two texts, character by character from `i` on, as `String`
/// orders them: -1, 0 or 1. UTF-8 keeps the order of code points, so
/// comparing the bytes compares the characters.
pub open spec fn text_order_from(a: Seq<char>, b: Seq<char>, i: nat) -> int
    decreases a.len() - i,
{
    if i >= a.len() {
        if i >= b.len() {
            0
        } else {
            -1
        }
    } else if i >= b.len() {
        1
    } else if (a[i as int] as u32) < (b[i as int] as u32) {
        -1
    } else if (a[i as int] as u32) > (b[i as int] as u32) {
        1
    } else {
        text_order_from(a, b, i + 1)
    }
}

pub open spec fn text_order(a: Seq<char>, b: Seq<char>) -> int {
    text_order_from(a, b, 0)
}

/// A missing value comes first; two values go by their text.
pub open spec fn opt_text_order(a: Option<Seq<char>>, b: Option<Seq<char>>) -> int {
    match (a, b) {
        (None, None) => 0,
        (None, Some(_)) => -1,
        (Some(_), None) => 1,
        (Some(x), Some(y)) => text_order(x, y),
    }
}

pub open spec fn opt_view(o: Option<String>) -> Option<Seq<char>> {
    match o {
        Some(s) => Some(s@),
        None => None,
    }
}

/// The date an item sorts by: its EXIF date, else its modification time.
pub open spec fn sort_date(item: MediaItem) -> Option<Seq<char>> {
    match item.exif_date {
        Some(d) => Some(d@),
        None => opt_view(item.modified_at),
    }
}

/// The order of two items in `mode`: by lower-cased name; by modification
/// time, then name; or by EXIF date (else modification time), then name.
pub open spec fn item_order(a: MediaItem, b: MediaItem, mode: SortMode) -> int {
    match mode {
        SortMode::FileName => text_order(unicode_lower(a.file_name@), unicode_lower(b.file_name@)),
        SortMode::ModifiedDate => {
            let c = opt_text_order(opt_view(a.modified_at), opt_view(b.modified_at));
            if c != 0 {
                c
            } else {
                text_order(a.file_name@, b.file_name@)
            }
        },
        SortMode::ExifDate => {
            let c = opt_text_order(sort_date(a), sort_date(b));
            if c != 0 {
                c
            } else {
                text_order(a.file_name@, b.file_name@)
            }
        },
    }
}

proof fn lemma_text_order_from(a: Seq<char>, b: Seq<char>, c: Seq<char>, i: nat)
    ensures
        -1 <= text_order_from(a, b, i) <= 1,
        text_order_from(a, b, i) == -text_order_from(b, a, i),
        text_order_from(a, b, i) <= 0 && text_order_from(b, c, i) <= 0 ==> text_order_from(a, c, i) <= 0,
    decreases a.len() - i,
{
    if i < a.len() && i < b.len() && i < c.len() {
        lemma_text_order_from(a, b, c, i + 1);
    } else if i < a.len() && i < b.len() {
        if (a[i as int] as u32) == (b[i as int] as u32) {
            lemma_text_order_from(a, b, c, i + 1);
        }
    }
}

proof fn lemma_text_order(a: Seq<char>, b: Seq<char>, c: Seq<char>)
    ensures
        -1 <= text_order(a, b) <= 1,
        text_order(a, b) == -text_order(b, a),
        text_order(a, b) <= 0 && text_order(b, c) <= 0 ==> text_order(a, c) <= 0,
{
    lemma_text_order_from(a, b, c, 0);
}

proof fn lemma_opt_text_order(a: Option<Seq<char>>, b: Option<Seq<char>>, c: Option<Seq<char>>)
    ensures
        -1 <= opt_text_order(a, b) <= 1,
        opt_text_order(a, b) == -opt_text_order(b, a),
        opt_text_order(a, b) <= 0 && opt_text_order(b, c) <= 0 ==> opt_text_order(a, c) <= 0,
        opt_text_order(a, b) == 0 && opt_text_order(b, c) == 0 ==> opt_text_order(a, c) == 0,
        opt_text_order(a, b) < 0 && opt_text_order(b, c) <= 0 ==> opt_text_order(a, c) < 0,
        opt_text_order(a, b) <= 0 && opt_text_order(b, c) < 0 ==> opt_text_order(a, c) < 0,
{
    match (a, b, c) {
        (Some(x), Some(y), Some(z)) => {
            lemma_text_order(x, y, z);
            lemma_text_order(y, z, x);
            lemma_text_order(z, x, y);
            lemma_text_order(x, z, y);
            lemma_text_order(y, x, z);
            lemma_text_order(z, y, x);
        },
        (Some(x), Some(y), None) => {
            lemma_text_order(x, y, x);
        },
        (None, Some(y), Some(z)) => {
            lemma_text_order(y, z, y);
        },
        (Some(x), None, Some(z)) => {
            lemma_text_order(x, z, x);
        },
        _ => {},
    }
}

/// `item_order` is a total preorder: it flips when its arguments do, and
/// "not after" chains.
pub proof fn lemma_item_order(a: MediaItem, b: MediaItem, c: MediaItem, mode: SortMode)
    ensures
        item_order(a, b, mode) == -item_order(b, a, mode),
        item_order(a, b, mode) <= 0 && item_order(b, c, mode) <= 0 ==> item_order(a, c, mode) <= 0,
{
    match mode {
        SortMode::FileName => {
            lemma_text_order(unicode_lower(a.file_name@), unicode_lower(b.file_name@), unicode_lower(c.file_name@));
        },
        SortMode::ModifiedDate => {
            lemma_opt_text_order(opt_view(a.modified_at), opt_view(b.modified_at), opt_view(c.modified_at));
            lemma_text_order(a.file_name@, b.file_name@, c.file_name@);
        },
        SortMode::ExifDate => {
            lemma_opt_text_order(sort_date(a), sort_date(b), sort_date(c));
            lemma_text_order(a.file_name@, b.file_name@, c.file_name@);
        },
    }
}

fn text_order_exec(a: &[char], b: &[char]) -> (r: i8)
    ensures
        r == text_order(a@, b@),
{
    let mut i: usize = 0;
    while i < a.len() && i < b.len() && (a[i] as u32) == (b[i] as u32)
        invariant
            i <= a@.len(),
            i <= b@.len(),
            text_order(a@, b@) == text_order_from(a@, b@, i as nat),
        decreases a@.len() - i,
    {
        i = i + 1;
    }
    if i >= a.len() {
        if i >= b.len() {
            0
        } else {
            -1
        }
    } else if i >= b.len() {
        1
    } else if (a[i] as u32) < (b[i] as u32) {
        -1
    } else {
        1
    }
}

fn string_order(a: &str, b: &str) -> (r: i8)
    ensures
        r == text_order(a@, b@),
{
    let x = chars_of(a);
    let y = chars_of(b);
    text_order_exec(x.as_slice(), y.as_slice())
}

fn opt_string_order(a: &Option<String>, b: &Option<String>) -> (r: i8)
    ensures
        r == opt_text_order(opt_view(*a), opt_view(*b)),
{
    match (a, b) {
        (None, None) => 0,
        (None, Some(_)) => -1,
        (Some(_), None) => 1,
        (Some(x), Some(y)) => string_order(x.as_str(), y.as_str()),
    }
}

fn sort_date_of(item: &MediaItem) -> (r: Option<String>)
    ensures
        opt_view(r) == sort_date(*item),
{
    match &item.exif_date {
        Some(d) => Some(d.clone()),
        None => match &item.modified_at {
            Some(m) => Some(m.clone()),
            None => None,
        },
    }
}

/// The order of `a` and `b` in `mode`.
pub fn item_order_exec(a: &MediaItem, b: &MediaItem, mode: SortMode) -> (r: i8)
    ensures
        r == item_order(*a, *b, mode),
{
    match mode {
        SortMode::FileName => {
            let x = to_lowercase(a.file_name.as_str());
            let y = to_lowercase(b.file_name.as_str());
            string_order(x.as_str(), y.as_str())
        },
        SortMode::ModifiedDate => {
            let c = opt_string_order(&a.modified_at, &b.modified_at);
            if c != 0 {
                c
            } else {
                string_order(a.file_name.as_str(), b.file_name.as_str())
            }
        },
        SortMode::ExifDate => {
            let c = opt_string_order(&sort_date_of(a), &sort_date_of(b));
            if c != 0 {
                c
            } else {
                string_order(a.file_name.as_str(), b.file_name.as_str())
            }
        },
    }
}

/// `r` is `orig` reordered through `idx` (each of its positions taken once),
/// in `mode`'s order, with items that order as equal kept in their order.
pub open spec fn stable_sorted(r: Seq<MediaItem>, orig: Seq<MediaItem>, idx: Seq<int>, mode: SortMode) -> bool {
    &&& r.len() == orig.len() && idx.len() == orig.len()
    &&& forall|k: int| 0 <= k < r.len() ==> 0 <= #[trigger] idx[k] < orig.len() && r[k] == orig[idx[k]]
    &&& forall|k: int, l: int| 0 <= k < l < idx.len() ==> #[trigger] idx[k] != #[trigger] idx[l]
    &&& forall|k: int, l: int| 0 <= k < l < r.len() ==> item_order(#[trigger] r[k], #[trigger] r[l], mode) <= 0
    &&& forall|k: int, l: int|
        0 <= k < l < r.len() && item_order(#[trigger] r[k], #[trigger] r[l], mode) == 0 ==> idx[k] < idx[l]
}

/// Sorts `items` in `mode`'s order; items that order as equal keep their
/// order.
pub fn sort_items(items: &mut Vec<MediaItem>, mode: SortMode)
    ensures
        exists|idx: Seq<int>| stable_sorted(final(items)@, old(items)@, idx, mode),
{
    let ghost orig = items@;
    let n: usize = items.len();
    let mut out: Vec<MediaItem> = Vec::new();
    let ghost mut idx: Seq<int> = Seq::empty();
    let mut i: usize = 0;
    while items.len() > 0
        invariant
            n == orig.len(),
            out@.len() == i,
            i + items@.len() == n,
            items@ == orig.subrange(i as int, n as int),
            idx.len() == i,
            forall|k: int| 0 <= k < i ==> 0 <= #[trigger] idx[k] < i && out@[k] == orig[idx[k]],
            forall|k: int, l: int| 0 <= k < l < i ==> #[trigger] idx[k] != #[trigger] idx[l],
            forall|k: int, l: int| 0 <= k < l < i ==> item_order(#[trigger] out@[k], #[trigger] out@[l], mode) <= 0,
            forall|k: int, l: int|
                0 <= k < l < i && item_order(#[trigger] out@[k], #[trigger] out@[l], mode) == 0 ==> idx[k] < idx[l],
        decreases items@.len(),
    {
        let x = items.remove(0);
        assert(x == orig[i as int]);
        let mut pos = out.len();
        while pos > 0 && item_order_exec(&out[pos - 1], &x, mode) > 0
            invariant
                pos <= out@.len(),
                forall|m: int| pos <= m < out@.len() ==> item_order(#[trigger] out@[m], x, mode) > 0,
            decreases pos,
        {
            pos = pos - 1;
        }
        proof {
            // every item before `pos` is not after `x`
            if pos > 0 {
                assert(item_order(out@[pos - 1], x, mode) <= 0);
                assert forall|k: int| 0 <= k < pos implies item_order(#[trigger] out@[k], x, mode) <= 0 by {
                    if k < pos - 1 {
                        lemma_item_order(out@[k], out@[pos - 1], x, mode);
                    }
                }
            }
            assert forall|m: int| pos <= m < out@.len() implies item_order(x, #[trigger] out@[m], mode) < 0 by {
                lemma_item_order(out@[m], x, x, mode);
            }
        }
        let ghost before = out@;
        let ghost before_idx = idx;
        out.insert(pos, x);
        proof {
            idx = before_idx.insert(pos as int, i as int);
            assert forall|k: int| 0 <= k < i + 1 implies 0 <= #[trigger] idx[k] < i + 1 && out@[k] == orig[idx[k]] by {
                if k < pos {
                    assert(idx[k] == before_idx[k]);
                } else if k > pos {
                    assert(idx[k] == before_idx[k - 1]);
                }
            }
            assert forall|k: int, l: int| 0 <= k < l < i + 1 implies #[trigger] idx[k] != #[trigger] idx[l] by {
                if k < pos && l > pos {
                    assert(idx[l] == before_idx[l - 1]);
                } else if k > pos {
                    assert(idx[l] == before_idx[l - 1]);
                    assert(idx[k] == before_idx[k - 1]);
                } else if l < pos {
                } else if k == pos {
                    assert(idx[l] == before_idx[l - 1]);
                } else {
                    assert(idx[k] == before_idx[k]);
                }
            }
            assert forall|k: int, l: int| 0 <= k < l < i + 1 implies item_order(#[trigger] out@[k], #[trigger] out@[l], mode) <= 0 && (item_order(out@[k], out@[l], mode) == 0 ==> idx[k] < idx[l]) by {
                if l < pos {
                    assert(out@[k] == before[k] && out@[l] == before[l]);
                } else if l == pos {
                    assert(out@[k] == before[k]);
                } else if k < pos {
                    assert(out@[k] == before[k] && out@[l] == before[l - 1]);
                    lemma_item_order(before[k], x, before[l - 1], mode);
                    lemma_item_order(x, before[l - 1], x, mode);
                    if item_order(out@[k], out@[l], mode) == 0 {
                        lemma_item_order(before[l - 1], before[k], x, mode);
                    }
                    assert(idx[l] == before_idx[l - 1]);
                } else if k == pos {
                    assert(out@[l] == before[l - 1]);
                } else {
                    assert(out@[k] == before[k - 1] && out@[l] == before[l - 1]);
                    assert(idx[l] == before_idx[l - 1]);
                    assert(idx[k] == before_idx[k - 1]);
                }
            }
        }
        i = i + 1;
    }
    proof {
        assert(stable_sorted(out@, orig, idx, mode));
    }
    *items = out;
}

} // verus!

verus! {

proof fn lemma_text_order_zero_from(a: Seq<char>, b: Seq<char>, i: nat)
    requires
        i <= a.len(),
        i <= b.len(),
        text_order_from(a, b, i) == 0,
    ensures
        a.len() == b.len(),
        forall|j: int| i <= j < a.len() ==> a[j] == b[j],
    decreases a.len() - i,
{
    if i < a.len() {
        assert((a[i as int] as u32) == (b[i as int] as u32));
        lemma_char_from_code(a[i as int], b[i as int]);
        lemma_text_order_zero_from(a, b, i + 1);
    }
}

proof fn lemma_char_from_code(a: char, b: char)
    requires
        (a as u32) == (b as u32),
    ensures
        a == b,
{
}

/// Texts that order as equal are the same text.
pub proof fn lemma_text_order_zero(a: Seq<char>, b: Seq<char>)
    ensures
        text_order(a, b) == 0 <==> a == b,
{
    if text_order(a, b) == 0 {
        lemma_text_order_zero_from(a, b, 0);
        assert(a =~= b);
    }
    if a == b {
        lemma_text_order_self(a, 0);
    }
}

proof fn lemma_text_order_self(a: Seq<char>, i: nat)
    ensures
        text_order_from(a, a, i) == 0,
    decreases a.len() - i,
{
    if i < a.len() {
        lemma_text_order_self(a, i + 1);
    }
}

/// Some text of `v` is `x`.
pub open spec fn holds_text(v: Seq<String>, x: Seq<char>) -> bool {
    exists|i: int| 0 <= i < v.len() && #[trigger] v[i]@ == x
}

/// Some folder of `dirs` is `x` relative to `root`.
pub open spec fn found_relative(root: Seq<char>, dirs: Seq<String>, x: Seq<char>) -> bool {
    exists|j: int| 0 <= j < dirs.len() && #[trigger] spec_relative_folder(root, dirs[j]@) == Some(x)
}

/// The texts of `v`, in increasing order, each once.
pub fn sorted_unique(v: Vec<String>) -> (r: Vec<String>)
    ensures
        forall|k: int, l: int| 0 <= k < l < r@.len() ==> text_order(#[trigger] r@[k]@, #[trigger] r@[l]@) < 0,
        forall|x: Seq<char>| #[trigger] holds_text(r@, x) <==> holds_text(v@, x),
{
    let mut out: Vec<String> = Vec::new();
    let mut i: usize = 0;
    while i < v.len()
        invariant
            i <= v@.len(),
            forall|k: int, l: int| 0 <= k < l < out@.len() ==> text_order(#[trigger] out@[k]@, #[trigger] out@[l]@) < 0,
            forall|x: Seq<char>| #[trigger] holds_text(out@, x) <==> holds_text(v@.take(i as int), x),
        decreases v@.len() - i,
    {
        let x = chars_of(v[i].as_str());
        let mut pos = out.len();
        while pos > 0 && text_order_exec(chars_of(out[pos - 1].as_str()).as_slice(), x.as_slice()) > 0
            invariant
                pos <= out@.len(),
                forall|m: int| pos <= m < out@.len() ==> text_order(#[trigger] out@[m]@, x@) > 0,
            decreases pos,
        {
            pos = pos - 1;
        }
        let same = pos > 0 && text_order_exec(chars_of(out[pos - 1].as_str()).as_slice(), x.as_slice()) == 0;
        let ghost before = out@;
        proof {
            if same {
                lemma_text_order_zero(out@[pos - 1]@, x@);
            }
        }
        if !same {
            proof {
                if pos > 0 {
                    assert forall|k: int| 0 <= k < pos implies text_order(#[trigger] out@[k]@, x@) < 0 by {
                        if k < pos - 1 {
                            crate::media::lemma_text_order(out@[k]@, out@[pos - 1]@, x@);
                            crate::media::lemma_text_order(x@, out@[k]@, out@[pos - 1]@);
                            lemma_text_order_zero(out@[k]@, x@);
                            if text_order(out@[k]@, x@) == 0 {
                                assert(out@[k]@ == x@);
                            }
                        }
                    }
                }
            }
            out.insert(pos, string_of(x.as_slice()));
            proof {
                assert forall|k: int, l: int| 0 <= k < l < out@.len() implies text_order(#[trigger] out@[k]@, #[trigger] out@[l]@) < 0 by {
                    if l < pos {
                        assert(out@[k] == before[k] && out@[l] == before[l]);
                    } else if l == pos {
                        assert(out@[k] == before[k]);
                    } else if k < pos {
                        assert(out@[k] == before[k] && out@[l] == before[l - 1]);
                        crate::media::lemma_text_order(before[k]@, x@, before[l - 1]@);
                        crate::media::lemma_text_order(before[l - 1]@, x@, x@);
                    } else if k == pos {
                        assert(out@[l] == before[l - 1]);
                        crate::media::lemma_text_order(before[l - 1]@, x@, x@);
                    } else {
                        assert(out@[k] == before[k - 1] && out@[l] == before[l - 1]);
                    }
                }
                assert forall|y: Seq<char>| #[trigger] holds_text(out@, y) <==> holds_text(v@.take(i + 1), y) by {
                    assert(holds_text(before, y) == holds_text(v@.take(i as int), y));
                    if holds_text(out@, y) {
                        let m = choose|m: int| 0 <= m < out@.len() && #[trigger] out@[m]@ == y;
                        if m < pos {
                            assert(before[m]@ == y);
                            assert(holds_text(before, y));
                            let j = choose|j: int| 0 <= j < i && #[trigger] v@.take(i as int)[j]@ == y;
                            assert(v@.take(i + 1)[j]@ == y);
                        } else if m > pos {
                            assert(before[m - 1]@ == y);
                            assert(holds_text(before, y));
                            let j = choose|j: int| 0 <= j < i && #[trigger] v@.take(i as int)[j]@ == y;
                            assert(v@.take(i + 1)[j]@ == y);
                        } else {
                            assert(v@.take(i + 1)[i as int]@ == y);
                        }
                    }
                    if holds_text(v@.take(i + 1), y) {
                        let j = choose|j: int| 0 <= j < i + 1 && #[trigger] v@.take(i + 1)[j]@ == y;
                        if j < i {
                            assert(v@.take(i as int)[j]@ == y);
                            assert(holds_text(v@.take(i as int), y));
                            let m = choose|m: int| 0 <= m < before.len() && #[trigger] before[m]@ == y;
                            if m < pos {
                                assert(out@[m]@ == y);
                            } else {
                                assert(out@[m + 1]@ == y);
                            }
                        } else {
                            assert(out@[pos as int]@ == y);
                        }
                    }
                }
            }
        } else {
            proof {
                assert forall|y: Seq<char>| #[trigger] holds_text(out@, y) <==> holds_text(v@.take(i + 1), y) by {
                    assert(holds_text(before, y) == holds_text(v@.take(i as int), y));
                    if holds_text(out@, y) {
                        let j = choose|j: int| 0 <= j < i && #[trigger] v@.take(i as int)[j]@ == y;
                        assert(v@.take(i + 1)[j]@ == y);
                    }
                    if holds_text(v@.take(i + 1), y) {
                        let j = choose|j: int| 0 <= j < i + 1 && #[trigger] v@.take(i + 1)[j]@ == y;
                        if j == i {
                            assert(out@[pos - 1]@ == y);
                        } else {
                            assert(v@.take(i as int)[j]@ == y);
                            assert(holds_text(v@.take(i as int), y));
                        }
                    }
                }
            }
        }
        i = i + 1;
    }
    assert(v@.take(v@.len() as int) =~= v@);
    out
}

/// Whether a folder walk goes into an entry of depth `depth` named `name`:
/// the root always, anything else unless its name is one of `ignored`.
pub fn keeps_walking(depth: usize, name: &str, ignored: &Vec<String>) -> (r: bool)
    ensures
        r == (depth == 0 || !holds_text(ignored@, name@)),
{
    if depth == 0 {
        return true;
    }
    let n = chars_of(name);
    let mut i: usize = 0;
    let mut found = false;
    while i < ignored.len()
        invariant
            i <= ignored@.len(),
            n@ == name@,
            found == holds_text(ignored@.take(i as int), name@),
        decreases ignored@.len() - i,
    {
        let hit = chars_eq(chars_of(ignored[i].as_str()).as_slice(), n.as_slice());
        proof {
            let t = ignored@.take(i + 1);
            if hit {
                assert(t[i as int]@ == name@);
            }
            if holds_text(t, name@) && !hit {
                let k = choose|k: int| 0 <= k < t.len() && #[trigger] t[k]@ == name@;
                assert(ignored@.take(i as int)[k] == t[k]);
            }
            if holds_text(ignored@.take(i as int), name@) {
                let k = choose|k: int| 0 <= k < i && #[trigger] ignored@.take(i as int)[k]@ == name@;
                assert(t[k] == ignored@.take(i as int)[k]);
            }
        }
        found = found || hit;
        i = i + 1;
    }
    assert(ignored@.take(ignored@.len() as int) =~= ignored@);
    !found
}

/// The text of `dir` after its first `k` characters, with `/` between its
/// parts.
pub open spec fn rest_with_slashes(dir: Seq<char>, k: int) -> Seq<char> {
    crate::text::replace_char(dir.subrange(k, dir.len() as int), '\\', seq!['/'])
}

/// `dir` written relative to `root` with `/` between its parts, when it
/// lies below `root` (after `root` comes a separator, or `root` ends in
/// one).
pub open spec fn spec_relative_folder(root: Seq<char>, dir: Seq<char>) -> Option<Seq<char>> {
    if root.len() > 0 && crate::path_text::is_sep(root.last()) && crate::text::starts_with(dir, root) {
        Some(rest_with_slashes(dir, root.len() as int))
    } else if crate::text::starts_with(dir, root + seq!['/']) || crate::text::starts_with(
        dir,
        root + seq!['\\'],
    ) {
        Some(rest_with_slashes(dir, (root.len() + 1) as int))
    } else {
        None
    }
}

fn rest_from(d: &[char], k: usize) -> (r: String)
    requires
        k <= d@.len(),
    ensures
        r@ == rest_with_slashes(d@, k as int),
{
    let rest = crate::text::slice_chars(d, k, d.len());
    let slash = vec!['/'];
    let fixed = crate::text::replace_chars(rest.as_slice(), '\\', slash.as_slice());
    proof {
        assert(slash@ =~= seq!['/']);
    }
    string_of(fixed.as_slice())
}

pub fn relative_folder(root: &str, dir: &str) -> (r: Option<String>)
    ensures
        crate::media::opt_view(r) == spec_relative_folder(root@, dir@),
{
    let rc = chars_of(root);
    let d = chars_of(dir);
    proof {
        if rc@.len() > 0 {
            assert(rc@.last() == rc@[rc@.len() - 1]);
        }
    }
    if rc.len() > 0 && (rc[rc.len() - 1] == '/' || rc[rc.len() - 1] == '\\')
        && crate::text::starts_with_chars(d.as_slice(), rc.as_slice()) {
        return Some(rest_from(d.as_slice(), rc.len()));
    }
    let mut with_slash = chars_of(root);
    with_slash.push('/');
    let mut with_back = chars_of(root);
    with_back.push('\\');
    assert(with_slash@ =~= root@ + seq!['/']);
    assert(with_back@ =~= root@ + seq!['\\']);
    if crate::text::starts_with_chars(d.as_slice(), with_slash.as_slice())
        || crate::text::starts_with_chars(d.as_slice(), with_back.as_slice()) {
        Some(rest_from(d.as_slice(), with_slash.len()))
    } else {
        None
    }
}

/// The subfolders of `root` found by a walk (`dirs`, each below `root`),
/// relative to it, sorted, each once.
pub fn subfolder_list(root: &str, dirs: &Vec<String>) -> (r: Vec<String>)
    ensures
        forall|k: int, l: int| 0 <= k < l < r@.len() ==> text_order(#[trigger] r@[k]@, #[trigger] r@[l]@) < 0,
        forall|x: Seq<char>| #[trigger] holds_text(r@, x) <==> found_relative(root@, dirs@, x),
{
    let mut rel: Vec<String> = Vec::new();
    let mut i: usize = 0;
    while i < dirs.len()
        invariant
            i <= dirs@.len(),
            forall|x: Seq<char>| #[trigger] holds_text(rel@, x) <==> found_relative(root@, dirs@.take(i as int), x),
        decreases dirs@.len() - i,
    {
        let ghost before = rel@;
        match relative_folder(root, dirs[i].as_str()) {
            Some(f) => {
                rel.push(f);
                proof {
                    assert forall|x: Seq<char>| #[trigger] holds_text(rel@, x) <==> found_relative(root@, dirs@.take(i + 1), x) by {
                        assert(holds_text(before, x) == found_relative(root@, dirs@.take(i as int), x));
                        if holds_text(rel@, x) {
                            let m = choose|m: int| 0 <= m < rel@.len() && #[trigger] rel@[m]@ == x;
                            if m < before.len() {
                                assert(before[m]@ == x);
                                assert(holds_text(before, x));
                                let j = choose|j: int| 0 <= j < i && #[trigger] spec_relative_folder(root@, dirs@.take(i as int)[j]@) == Some(x);
                                assert(dirs@.take(i + 1)[j] == dirs@.take(i as int)[j]);
                            } else {
                                assert(dirs@.take(i + 1)[i as int] == dirs@[i as int]);
                            }
                        }
                        if found_relative(root@, dirs@.take(i + 1), x) {
                            let j = choose|j: int| 0 <= j < i + 1 && #[trigger] spec_relative_folder(root@, dirs@.take(i + 1)[j]@) == Some(x);
                            if j < i {
                                assert(dirs@.take(i + 1)[j] == dirs@.take(i as int)[j]);
                                assert(found_relative(root@, dirs@.take(i as int), x));
                                let m = choose|m: int| 0 <= m < before.len() && #[trigger] before[m]@ == x;
                                assert(rel@[m]@ == x);
                            } else {
                                assert(rel@[before.len() as int]@ == x);
                            }
                        }
                    }
                }
            },
            None => {
                proof {
                    assert forall|x: Seq<char>| #[trigger] holds_text(rel@, x) <==> found_relative(root@, dirs@.take(i + 1), x) by {
                        assert(holds_text(before, x) == found_relative(root@, dirs@.take(i as int), x));
                        if holds_text(rel@, x) {
                            let j = choose|j: int| 0 <= j < i && #[trigger] spec_relative_folder(root@, dirs@.take(i as int)[j]@) == Some(x);
                            assert(dirs@.take(i + 1)[j] == dirs@.take(i as int)[j]);
                        }
                        if found_relative(root@, dirs@.take(i + 1), x) {
                            let j = choose|j: int| 0 <= j < i + 1 && #[trigger] spec_relative_folder(root@, dirs@.take(i + 1)[j]@) == Some(x);
                            assert(dirs@.take(i + 1)[j] == dirs@.take(i as int)[j]);
                            assert(found_relative(root@, dirs@.take(i as int), x));
                        }
                    }
                }
            },
        }
        i = i + 1;
    }
    assert(dirs@.take(dirs@.len() as int) =~= dirs@);
    sorted_unique(rel)
}

} // verus!

verus! {

/// The paths among `paths` with a photo or video extension, in order.
pub open spec fn spec_supported_files(paths: Seq<Seq<char>>) -> Seq<Seq<char>>
    decreases paths.len(),
{
    if paths.len() == 0 {
        Seq::empty()
    } else if supported_path(paths.last()) {
        spec_supported_files(paths.drop_last()).push(paths.last())
    } else {
        spec_supported_files(paths.drop_last())
    }
}

pub fn supported_files(paths: &Vec<String>) -> (r: Vec<String>)
    ensures
        views(r@) == spec_supported_files(views(paths@)),
{
    let mut out: Vec<String> = Vec::new();
    let mut i: usize = 0;
    assert(views(out@) =~= Seq::<Seq<char>>::empty());
    while i < paths.len()
        invariant
            i <= paths@.len(),
            views(out@) == spec_supported_files(views(paths@).take(i as int)),
        decreases paths@.len() - i,
    {
        assert(views(paths@).take(i + 1).drop_last() =~= views(paths@).take(i as int));
        assert(views(paths@).take(i + 1).last() == paths@[i as int]@);
        if is_supported_file(paths[i].as_str()) {
            let ghost before = out@;
            out.push(paths[i].clone());
            assert(views(out@) =~= views(before).push(paths@[i as int]@));
        }
        i = i + 1;
    }
    assert(views(paths@).take(paths@.len() as int) =~= views(paths@));
    out
}

} // verus!

verus! {

/// How many times `x` occurs in `s`.
pub open spec fn occurrences(s: Seq<Seq<char>>, x: Seq<char>) -> nat
    decreases s.len(),
{
    if s.len() == 0 {
        0
    } else {
        occurrences(s.drop_last(), x) + if s.last() == x {
            1nat
        } else {
            0nat
        }
    }
}

/// The files of the items, item after item.
pub open spec fn item_files(items: Seq<(Seq<Seq<char>>, MediaKind)>) -> Seq<Seq<char>>
    decreases items.len(),
{
    if items.len() == 0 {
        Seq::empty()
    } else {
        item_files(items.drop_last()) + items.last().0
    }
}

/// The first position of a file of group `k` at or after `j`; the length
/// when there is none.
pub open spec fn first_with_key_from(files: Seq<Seq<char>>, k: (Seq<char>, Seq<char>), j: int) -> int
    decreases files.len() - j,
{
    if j < 0 || j >= files.len() {
        files.len() as int
    } else if group_key(files[j]) == k {
        j
    } else {
        first_with_key_from(files, k, j + 1)
    }
}

proof fn lemma_occurrences_concat(a: Seq<Seq<char>>, b: Seq<Seq<char>>, x: Seq<char>)
    ensures
        occurrences(a + b, x) == occurrences(a, x) + occurrences(b, x),
    decreases b.len(),
{
    if b.len() == 0 {
        assert(a + b =~= a);
    } else {
        assert((a + b).drop_last() =~= a + b.drop_last());
        lemma_occurrences_concat(a, b.drop_last(), x);
    }
}

proof fn lemma_item_files_concat(a: Seq<(Seq<Seq<char>>, MediaKind)>, b: Seq<(Seq<Seq<char>>, MediaKind)>)
    ensures
        item_files(a + b) == item_files(a) + item_files(b),
    decreases b.len(),
{
    if b.len() == 0 {
        assert(a + b =~= a);
        assert(item_files(a) + item_files(b) =~= item_files(a));
    } else {
        assert((a + b).drop_last() =~= a + b.drop_last());
        lemma_item_files_concat(a, b.drop_last());
        assert(item_files(a) + item_files(b) =~= item_files(a) + item_files(b.drop_last()) + b.last().0);
    }
}

proof fn lemma_occurs_somewhere(s: Seq<Seq<char>>, x: Seq<char>)
    requires
        occurrences(s, x) > 0,
    ensures
        exists|j: int| 0 <= j < s.len() && s[j] == x,
    decreases s.len(),
{
    if s.last() != x {
        lemma_occurs_somewhere(s.drop_last(), x);
        let j = choose|j: int| 0 <= j < s.drop_last().len() && s.drop_last()[j] == x;
        assert(s[j] == x);
    }
}

proof fn lemma_occurs_at(s: Seq<Seq<char>>, i: int)
    requires
        0 <= i < s.len(),
    ensures
        occurrences(s, s[i]) >= 1,
    decreases s.len(),
{
    if i < s.len() - 1 {
        lemma_occurs_at(s.drop_last(), i);
    }
}

proof fn lemma_at_most_once(s: Seq<Seq<char>>, x: Seq<char>)
    requires
        s.no_duplicates(),
    ensures
        occurrences(s, x) <= 1,
    decreases s.len(),
{
    if s.len() > 0 {
        let t = s.drop_last();
        assert(t.no_duplicates());
        lemma_at_most_once(t, x);
        if s.last() == x && occurrences(t, x) > 0 {
            lemma_occurs_somewhere(t, x);
            let j = choose|j: int| 0 <= j < t.len() && t[j] == x;
            assert(s[j] == s[s.len() - 1]);
        }
    }
}

proof fn lemma_members_occurrences(files: Seq<Seq<char>>, k: (Seq<char>, Seq<char>), x: Seq<char>)
    ensures
        occurrences(members(files, k), x) == if group_key(x) == k { occurrences(files, x) } else { 0 },
    decreases files.len(),
{
    if files.len() > 0 {
        lemma_members_occurrences(files.drop_last(), k, x);
        let tail = if group_key(files.last()) == k { seq![files.last()] } else { Seq::<Seq<char>>::empty() };
        lemma_occurrences_concat(members(files.drop_last(), k), tail, x);
        reveal_with_fuel(occurrences, 2);
        assert(tail.len() == 0 ==> occurrences(tail, x) == 0);
        assert(tail.len() == 1 ==> tail.drop_last() =~= Seq::<Seq<char>>::empty());
    }
}

proof fn lemma_singles_files(m: Seq<Seq<char>>, a: Option<Seq<char>>, b: Option<Seq<char>>, x: Seq<char>)
    ensures
        occurrences(item_files(singles_except(m, a, b)), x) == if Some(x) == a || Some(x) == b {
            0
        } else {
            occurrences(m, x)
        },
    decreases m.len(),
{
    if m.len() > 0 {
        lemma_singles_files(m.drop_last(), a, b, x);
        let head = singles_except(m.drop_last(), a, b);
        let tail = if Some(m.last()) == a || Some(m.last()) == b {
            Seq::<(Seq<Seq<char>>, MediaKind)>::empty()
        } else {
            seq![(seq![m.last()], MediaKind::Single)]
        };
        lemma_item_files_concat(head, tail);
        lemma_occurrences_concat(item_files(head), item_files(tail), x);
        reveal_with_fuel(item_files, 2);
        reveal_with_fuel(occurrences, 2);
        if tail.len() == 1 {
            assert(tail.drop_last() =~= Seq::<(Seq<Seq<char>>, MediaKind)>::empty());
            assert(item_files(tail) =~= seq![m.last()]);
            assert(seq![m.last()].drop_last() =~= Seq::<Seq<char>>::empty());
        } else {
            assert(item_files(tail) =~= Seq::<Seq<char>>::empty());
        }
    }
}

proof fn lemma_group_items_files(m: Seq<Seq<char>>, x: Seq<char>)
    requires
        forall|y: Seq<char>| occurrences(m, y) <= 1,
    ensures
        occurrences(item_files(group_items(m)), x) == occurrences(m, x),
{
    match live_pair_indices(m) {
        Some((a, b)) => {
            lemma_last_kind_bounds(m);
            let pair = seq![(seq![m[a], m[b]], MediaKind::LivePhoto)];
            let rest = singles_except(m, Some(m[a]), Some(m[b]));
            lemma_item_files_concat(pair, rest);
            reveal_with_fuel(item_files, 2);
            assert(pair.drop_last() =~= Seq::<(Seq<Seq<char>>, MediaKind)>::empty());
            assert(item_files(pair) =~= seq![m[a], m[b]]);
            lemma_occurrences_concat(seq![m[a], m[b]], item_files(rest), x);
            lemma_singles_files(m, Some(m[a]), Some(m[b]), x);
            reveal_with_fuel(occurrences, 3);
            assert(seq![m[a], m[b]].drop_last() =~= seq![m[a]]);
            assert(seq![m[a]].drop_last() =~= Seq::<Seq<char>>::empty());
            assert(m[a] != m[b]);
            lemma_occurs_at(m, a);
            lemma_occurs_at(m, b);
            assert(occurrences(m, m[a]) <= 1);
            assert(occurrences(m, m[b]) <= 1);
        },
        None => {
            lemma_singles_files(m, None, None, x);
        },
    }
}

proof fn lemma_first_with_key_from(files: Seq<Seq<char>>, k: (Seq<char>, Seq<char>), j: int)
    requires
        0 <= j <= files.len(),
    ensures
        j <= first_with_key_from(files, k, j) <= files.len(),
        first_with_key_from(files, k, j) < files.len() ==> group_key(files[first_with_key_from(files, k, j)]) == k,
        forall|t: int| j <= t < first_with_key_from(files, k, j) ==> group_key(#[trigger] files[t]) != k,
    decreases files.len() - j,
{
    if j < files.len() && group_key(files[j]) != k {
        lemma_first_with_key_from(files, k, j + 1);
    }
}

/// The first file of each group is the one `grouping_from` starts the
/// group's items at.
proof fn lemma_first_of_group(files: Seq<Seq<char>>, i: int)
    requires
        0 <= i < files.len(),
    ensures
        first_of_group(files, i) <==> first_with_key_from(files, group_key(files[i]), 0) == i,
{
    lemma_first_with_key_from(files, group_key(files[i]), 0);
    let f = first_with_key_from(files, group_key(files[i]), 0);
    if first_of_group(files, i) {
        if f < i {
            assert(group_key(files[f]) == group_key(files[i]));
        }
    }
}

proof fn lemma_grouping_from_files(files: Seq<Seq<char>>, i: int, x: Seq<char>)
    requires
        0 <= i <= files.len(),
        forall|y: Seq<char>| occurrences(files, y) <= 1,
    ensures
        occurrences(item_files(grouping_from(files, i)), x) == if first_with_key_from(files, group_key(x), 0) >= i {
            occurrences(files, x)
        } else {
            0
        },
    decreases files.len() - i,
{
    let k = group_key(x);
    lemma_first_with_key_from(files, k, 0);
    let f = first_with_key_from(files, k, 0);
    if i == files.len() {
        assert(grouping_from(files, i) =~= Seq::<(Seq<Seq<char>>, MediaKind)>::empty());
        if f >= i && occurrences(files, x) > 0 {
            lemma_occurs_somewhere(files, x);
            let j = choose|j: int| 0 <= j < files.len() && files[j] == x;
            assert(group_key(files[j]) == k);
        }
    } else {
        lemma_grouping_from_files(files, i + 1, x);
        let ki = group_key(files[i]);
        let m = members(files, ki);
        let g = if first_of_group(files, i) { group_items(m) } else { Seq::<(Seq<Seq<char>>, MediaKind)>::empty() };
        lemma_item_files_concat(g, grouping_from(files, i + 1));
        lemma_occurrences_concat(item_files(g), item_files(grouping_from(files, i + 1)), x);
        lemma_first_of_group(files, i);
        if first_of_group(files, i) {
            assert forall|y: Seq<char>| occurrences(m, y) <= 1 by {
                lemma_members_occurrences(files, ki, y);
            }
            lemma_group_items_files(m, x);
            lemma_members_occurrences(files, ki, x);
        } else {
            assert(item_files(g) =~= Seq::<Seq<char>>::empty());
        }
        if k == ki {
            assert(f <= i);
        }
    }
}

/// Grouping keeps every file: each file of a folder (all different) ends up
/// in exactly one item, and no item holds a file that was not given.
pub proof fn law_each_file_in_exactly_one_item(files: Seq<Seq<char>>, x: Seq<char>)
    requires
        files.no_duplicates(),
    ensures
        occurrences(item_files(grouping_from(files, 0)), x) == occurrences(files, x),
        occurrences(files, x) <= 1,
{
    assert forall|y: Seq<char>| occurrences(files, y) <= 1 by {
        lemma_at_most_once(files, y);
    }
    lemma_grouping_from_files(files, 0, x);
    lemma_first_with_key_from(files, group_key(x), 0);
}

} // verus!

verus! {

/// Lower-casing twice is lower-casing once.
proof fn lemma_lower_idempotent(s: Seq<char>)
    ensures
        lower_text(lower_text(s)) == lower_text(s),
{
    assert(lower_text(lower_text(s)) =~= lower_text(s));
}

/// Photos are scanned in exactly these ten formats, whatever the ASCII case
/// of the extension: JPEG (`jpg`, `jpeg`), PNG, WebP, GIF, HEIC/HEIF, BMP and
/// TIFF (`tiff`, `tif`). A file with one of them is kept by the scan and
/// classified as a photo.
pub proof fn law_photo_extensions(p: Seq<char>, e: Seq<char>)
    requires
        extension(p) == Some(e),
    ensures
        ({
            let l = lower_text(e);
            let listed = l == "jpg"@ || l == "jpeg"@ || l == "png"@ || l == "webp"@ || l == "gif"@
                || l == "heic"@ || l == "heif"@ || l == "bmp"@ || l == "tiff"@ || l == "tif"@;
            &&& image_ext(l) <==> listed
            &&& listed ==> supported_path(p)
            &&& listed ==> crate::batch::ffmpeg_args::spec_classify(p) == Some(
                crate::batch::BatchMediaType::Image,
            )
        }),
{
    reveal_strlit("jpg");
    reveal_strlit("jpeg");
    reveal_strlit("png");
    reveal_strlit("webp");
    reveal_strlit("gif");
    reveal_strlit("heic");
    reveal_strlit("heif");
    reveal_strlit("bmp");
    reveal_strlit("tiff");
    reveal_strlit("tif");
    reveal_strlit("mp4");
    reveal_strlit("mov");
    reveal_strlit("m4v");
    reveal_strlit("avi");
    reveal_strlit("mkv");
    reveal_strlit("3gp");
    lemma_lower_idempotent(e);
    let l = lower_text(e);
    assert(lower_extension_of(p) == l);
    let listed = l == "jpg"@ || l == "jpeg"@ || l == "png"@ || l == "webp"@ || l == "gif"@
        || l == "heic"@ || l == "heif"@ || l == "bmp"@ || l == "tiff"@ || l == "tif"@;
    assert(image_ext(l) <==> listed);
    if listed {
        assert(supported_path(p));
        assert(l[0] == 'j' || l[0] == 'p' || l[0] == 'w' || l[0] == 'g' || l[0] == 'h' || l[0]
            == 'b' || l[0] == 't');
        assert(video_ext(l) ==> (l[0] == 'm' || l[0] == 'a' || l[0] == '3'));
        assert(!video_ext(l));
        assert(l.len() > 0);
        assert(lower_text(l) == l);
    }
}

/// In a date sort, photos go by the date they were taken: an item with an
/// EXIF date never comes after one with a later EXIF date, whatever their
/// modification times. An item without an EXIF date goes by its
/// modification time, and one with neither comes before any dated item.
pub proof fn law_photos_sort_by_capture_date(
    r: Seq<MediaItem>,
    orig: Seq<MediaItem>,
    idx: Seq<int>,
    k: int,
    l: int,
)
    requires
        stable_sorted(r, orig, idx, SortMode::ExifDate),
        0 <= k < r.len(),
        0 <= l < r.len(),
    ensures
        r[k].exif_date matches Some(x) && r[l].exif_date matches Some(y) && text_order(x@, y@) < 0
            ==> k < l,
        r[k].exif_date is None && r[l].exif_date is None && opt_text_order(
            opt_view(r[k].modified_at),
            opt_view(r[l].modified_at),
        ) < 0 ==> k < l,
        r[k].exif_date is None && r[k].modified_at is None && (r[l].exif_date is Some
            || r[l].modified_at is Some) ==> k < l,
{
    if l <= k {
        if l == k {
            if let Some(x) = r[k].exif_date {
                lemma_text_order(x@, x@, x@);
            }
            if let Some(m) = r[k].modified_at {
                lemma_text_order(m@, m@, m@);
            }
        } else {
            assert(item_order(r[l], r[k], SortMode::ExifDate) <= 0);
            lemma_item_order(r[k], r[l], r[k], SortMode::ExifDate);
            match (r[k].exif_date, r[l].exif_date) {
                (Some(x), Some(y)) => {
                    lemma_text_order(x@, y@, x@);
                },
                _ => {},
            }
            match (r[k].modified_at, r[l].modified_at) {
                (Some(x), Some(y)) => {
                    lemma_text_order(x@, y@, x@);
                },
                _ => {},
            }
        }
    }
}

} // verus!
