//! Media index: which files are pictures or videos, the indexed items, and where
//! thumbnails are cached.
use vstd::prelude::*;
use crate::paths::{join, path_join};
use crate::sorting::TextKey;
use crate::text::{ascii_text, ascii_lower_char, to_lower, unicode_lower, listed_str, str_views, trim, trim_str, slice_range, string_of, owned};
use crate::datetime::{chrono_parse_ymd_hms, chrono_parse_colon_ymd_hms, parse_ymd_hms, parse_colon_ymd_hms, ymd_hms_text, format_ymd_hms};

verus! {

broadcast use vstd::string::group_string_axioms;

/// Picture extensions, lower case.
pub open spec fn image_exts() -> Seq<Seq<char>> {
    seq![
        "jpg"@, "jpeg"@, "png"@, "tif"@, "tiff"@, "arw"@, "cr2"@, "cr3"@, "nef"@, "raf"@, "dng"@,
        "orf"@, "rw2"@, "heic"@,
    ]
}

/// Video extensions, lower case.
pub open spec fn video_exts() -> Seq<Seq<char>> {
    seq!["mp4"@, "mov"@, "mxf"@, "braw"@, "r3d"@, "avi"@, "mts"@, "m2ts"@, "m4v"@]
}

/// The video extensions are exactly mp4, mov, mxf, braw, r3d, avi, mts, m2ts and
/// m4v (matched in lower case, so `MOV` counts as `mov`).
pub proof fn lemma_video_extensions(ext: Seq<char>)
    ensures
        video_exts().contains(ext) <==> (ext == "mp4"@ || ext == "mov"@ || ext == "mxf"@ || ext == "braw"@
            || ext == "r3d"@ || ext == "avi"@ || ext == "mts"@ || ext == "m2ts"@ || ext == "m4v"@),
{
    let v = video_exts();
    if ext == "mp4"@ { assert(v[0] == ext); }
    if ext == "mov"@ { assert(v[1] == ext); }
    if ext == "mxf"@ { assert(v[2] == ext); }
    if ext == "braw"@ { assert(v[3] == ext); }
    if ext == "r3d"@ { assert(v[4] == ext); }
    if ext == "avi"@ { assert(v[5] == ext); }
    if ext == "mts"@ { assert(v[6] == ext); }
    if ext == "m2ts"@ { assert(v[7] == ext); }
    if ext == "m4v"@ { assert(v[8] == ext); }
}

/// The picture extensions are exactly jpg, jpeg, png, tif, tiff, arw, cr2, cr3, nef,
/// raf, dng, orf, rw2 and heic (matched in lower case).
pub proof fn lemma_image_extensions(ext: Seq<char>)
    ensures
        image_exts().contains(ext) <==> (ext == "jpg"@ || ext == "jpeg"@ || ext == "png"@ || ext == "tif"@
            || ext == "tiff"@ || ext == "arw"@ || ext == "cr2"@ || ext == "cr3"@ || ext == "nef"@ || ext
            == "raf"@ || ext == "dng"@ || ext == "orf"@ || ext == "rw2"@ || ext == "heic"@),
{
    let v = image_exts();
    if ext == "jpg"@ { assert(v[0] == ext); }
    if ext == "jpeg"@ { assert(v[1] == ext); }
    if ext == "png"@ { assert(v[2] == ext); }
    if ext == "tif"@ { assert(v[3] == ext); }
    if ext == "tiff"@ { assert(v[4] == ext); }
    if ext == "arw"@ { assert(v[5] == ext); }
    if ext == "cr2"@ { assert(v[6] == ext); }
    if ext == "cr3"@ { assert(v[7] == ext); }
    if ext == "nef"@ { assert(v[8] == ext); }
    if ext == "raf"@ { assert(v[9] == ext); }
    if ext == "dng"@ { assert(v[10] == ext); }
    if ext == "orf"@ { assert(v[11] == ext); }
    if ext == "rw2"@ { assert(v[12] == ext); }
    if ext == "heic"@ { assert(v[13] == ext); }
}

/// Whether `ext` names a picture (case-insensitive).
pub fn is_image_ext(ext: &str) -> (r: bool)
    ensures
        r == image_exts().contains(unicode_lower(ext@)),
        ascii_text(ext@) ==> r == image_exts().contains(ext@.map_values(|c: char| ascii_lower_char(c))),
{
    let lower = to_lower(ext);
    let list: Vec<&str> = vec![
        "jpg", "jpeg", "png", "tif", "tiff", "arw", "cr2", "cr3", "nef", "raf", "dng", "orf",
        "rw2", "heic",
    ];
    let r = listed_str(lower.as_str(), list.as_slice());
    assert(str_views(list@) =~= image_exts());
    r
}

/// Whether `ext` names a video (case-insensitive).
pub fn is_video_ext(ext: &str) -> (r: bool)
    ensures
        r == video_exts().contains(unicode_lower(ext@)),
        ascii_text(ext@) ==> r == video_exts().contains(ext@.map_values(|c: char| ascii_lower_char(c))),
{
    let lower = to_lower(ext);
    let list: Vec<&str> = vec!["mp4", "mov", "mxf", "braw", "r3d", "avi", "mts", "m2ts", "m4v"];
    let r = listed_str(lower.as_str(), list.as_slice());
    assert(str_views(list@) =~= video_exts());
    r
}

/// An indexed media file.
#[derive(Debug, Clone, PartialEq)]
pub struct MediaItem {
    pub path: String,
    pub name: String,
    /// Lower-case extension.
    pub ext: String,
    pub size: u64,
    pub modified: String,
    /// Shooting time (EXIF `DateTimeOriginal`; the modification time for videos and
    /// files without EXIF), `YYYY-MM-DD HH:MM:SS`.
    pub datetime_original: String,
    pub camera_make: Option<String>,
    pub camera_model: Option<String>,
    pub is_video: bool,
}

impl TextKey for MediaItem {
    /// Items are listed by path.
    open spec fn key(&self) -> Seq<char> {
        self.path@
    }

    fn key_str(&self) -> (r: &str) {
        self.path.as_str()
    }
}

/// The cached thumbnail of the file with content hash `hash`:
/// `{ocard_dir}/thumbs/{hash}.jpg`.
pub fn thumbnail_path(ocard_dir: &str, hash: &str) -> (r: String)
    ensures
        r@ == path_join(path_join(ocard_dir@, "thumbs"@), hash@ + ".jpg"@),
{
    let dir = join(ocard_dir, "thumbs");
    let mut name = hash.to_owned();
    name.append(".jpg");
    join(dir.as_str(), name.as_str())
}

// ---------------------------------------------------------------------------
// EXIF shooting times
// ---------------------------------------------------------------------------

/// Bytes a character takes in UTF-8.
pub open spec fn utf8_width(c: char) -> int {
    if (c as u32) < 0x80 {
        1
    } else if (c as u32) < 0x800 {
        2
    } else if (c as u32) < 0x10000 {
        3
    } else {
        4
    }
}

/// Bytes a text takes in UTF-8 (what `str::len` counts).
pub open spec fn utf8_len(s: Seq<char>) -> int
    decreases s.len(),
{
    if s.len() == 0 {
        0
    } else {
        utf8_len(s.drop_last()) + utf8_width(s.last())
    }
}

/// Character `i` of `s` starts at byte offset `b` (`i == s.len()`: the end).
pub open spec fn starts_at_byte(s: Seq<char>, i: int, b: int) -> bool {
    0 <= i <= s.len() && utf8_len(s.take(i)) == b
}

/// Byte offset `b` of `s` is a character boundary.
pub open spec fn is_boundary(s: Seq<char>, b: int) -> bool {
    exists|i: int| starts_at_byte(s, i, b)
}

/// The index of the character that starts at byte offset `b`.
pub open spec fn char_index(s: Seq<char>, b: int) -> int {
    choose|i: int| starts_at_byte(s, i, b)
}

/// The text between byte offsets `a` and `b`.
pub open spec fn byte_slice(s: Seq<char>, a: int, b: int) -> Seq<char> {
    s.subrange(char_index(s, a), char_index(s, b))
}

/// The text has at least 19 bytes and its fifth byte is `:`, as in
/// `YYYY:MM:DD HH:MM:SS`.
pub open spec fn exif_layout(t: Seq<char>) -> bool {
    utf8_len(t) >= 19 && is_boundary(t, 4) && char_index(t, 4) < t.len() && t[char_index(t, 4)] == ':'
}

/// The byte offsets at which the date and time fields are cut are character
/// boundaries.
pub open spec fn exif_cuts_ok(t: Seq<char>) -> bool {
    is_boundary(t, 7) && is_boundary(t, 8) && is_boundary(t, 10) && is_boundary(t, 11) && is_boundary(t, 19)
}

/// An EXIF time rewritten as `YYYY-MM-DD HH:MM:SS` from its fixed byte positions
/// (bytes 0–4, 5–7, 8–10 and 11–19); another text is kept as it is.
pub open spec fn exif_normalized(t: Seq<char>) -> Seq<char> {
    if exif_layout(t) {
        byte_slice(t, 0, 4) + seq!['-'] + byte_slice(t, 5, 7) + seq!['-'] + byte_slice(t, 8, 10) + seq![' ']
            + byte_slice(t, 11, 19)
    } else {
        t
    }
}

/// The shooting time an EXIF time text gives, as `YYYY-MM-DD HH:MM:SS`: the trimmed
/// and normalised text read as `%Y-%m-%d %H:%M:%S`, else as `%Y:%m:%d %H:%M:%S`.
pub open spec fn exif_time_of(s: Seq<char>) -> Option<Seq<char>> {
    let n = exif_normalized(trim(s));
    match chrono_parse_ymd_hms(n) {
        Some(dt) => Some(ymd_hms_text(dt)),
        None => match chrono_parse_colon_ymd_hms(n) {
            Some(dt) => Some(ymd_hms_text(dt)),
            None => None,
        },
    }
}

proof fn lemma_utf8_len_grows(s: Seq<char>, i: int, j: int)
    requires
        0 <= i < j <= s.len(),
    ensures
        utf8_len(s.take(i)) < utf8_len(s.take(j)),
    decreases j - i,
{
    assert(s.take(j).drop_last() =~= s.take(j - 1));
    if i < j - 1 {
        lemma_utf8_len_grows(s, i, j - 1);
    }
}

proof fn lemma_starts_at_byte_unique(s: Seq<char>, i: int, b: int)
    requires
        starts_at_byte(s, i, b),
    ensures
        is_boundary(s, b),
        char_index(s, b) == i,
{
    let k = char_index(s, b);
    assert(starts_at_byte(s, k, b));
    if k < i {
        lemma_utf8_len_grows(s, k, i);
    } else if i < k {
        lemma_utf8_len_grows(s, i, k);
    }
}

fn utf8_width_of(c: char) -> (w: u64)
    ensures
        w == utf8_width(c),
{
    let u = c as u32;
    if u < 0x80 {
        1
    } else if u < 0x800 {
        2
    } else if u < 0x10000 {
        3
    } else {
        4
    }
}

/// The index of the character starting at byte offset `b`, if there is one.
fn index_at_byte(v: &[char], b: u64) -> (r: Option<usize>)
    requires
        b <= 64,
    ensures
        match r {
            Some(i) => starts_at_byte(v@, i as int, b as int) && char_index(v@, b as int) == i,
            None => !is_boundary(v@, b as int),
        },
{
    let n = v.len();
    let mut acc: u64 = 0;
    let mut i: usize = 0;
    while i < n && acc < b
        invariant
            n == v@.len(),
            i <= n,
            b <= 64,
            acc == utf8_len(v@.take(i as int)),
            acc <= b + 3,
            forall|j: int| 0 <= j < i ==> utf8_len(v@.take(j)) < b,
        decreases n - i,
    {
        assert(v@.take(i + 1).drop_last() =~= v@.take(i as int));
        proof {
            assert forall|j: int| 0 <= j < i + 1 implies utf8_len(v@.take(j)) < b by {
                if j < i {
                } else {
                    assert(j == i);
                }
            }
        }
        acc = acc + utf8_width_of(v[i]);
        i = i + 1;
    }
    if acc == b {
        proof {
            lemma_starts_at_byte_unique(v@, i as int, b as int);
        }
        Some(i)
    } else {
        proof {
            assert forall|j: int| !starts_at_byte(v@, j, b as int) by {
                if 0 <= j <= v@.len() {
                    if j < i {
                    } else if j > i {
                        lemma_utf8_len_grows(v@, i as int, j);
                    }
                }
            }
        }
        None
    }
}

/// Whether the text takes at least `m` bytes.
fn utf8_len_at_least(v: &[char], m: u64) -> (r: bool)
    requires
        m <= 64,
    ensures
        r == (utf8_len(v@) >= m),
{
    let n = v.len();
    let mut acc: u64 = 0;
    let mut i: usize = 0;
    while i < n && acc < m
        invariant
            n == v@.len(),
            i <= n,
            m <= 64,
            acc == utf8_len(v@.take(i as int)),
            acc <= m + 3,
        decreases n - i,
    {
        assert(v@.take(i + 1).drop_last() =~= v@.take(i as int));
        acc = acc + utf8_width_of(v[i]);
        i = i + 1;
    }
    proof {
        assert(v@.take(n as int) =~= v@);
        if i < n {
            lemma_utf8_len_grows(v@, i as int, n as int);
        }
    }
    acc >= m
}

/// The EXIF layout rewritten from its byte positions.
#[verifier::rlimit(40)]
fn rearrange_exif(t: &[char]) -> (r: Vec<char>)
    requires
        exif_layout(t@),
        exif_cuts_ok(t@),
    ensures
        r@ == exif_normalized(t@),
{
    let ghost tv = t@;
    let _len = t.len();
    let o4 = index_at_byte(t, 4);
    let o7 = index_at_byte(t, 7);
    let o8 = index_at_byte(t, 8);
    let o10 = index_at_byte(t, 10);
    let o11 = index_at_byte(t, 11);
    let o19 = index_at_byte(t, 19);
    let i4 = o4.unwrap();
    let i7 = o7.unwrap();
    let i8 = o8.unwrap();
    let i10 = o10.unwrap();
    let i11 = o11.unwrap();
    let i19 = o19.unwrap();
    let i5 = i4 + 1;
    proof {
        assert(tv.take(i4 + 1).drop_last() =~= tv.take(i4 as int));
        lemma_starts_at_byte_unique(tv, i4 + 1, 5);
        assert(tv.take(0) =~= Seq::<char>::empty());
        lemma_starts_at_byte_unique(tv, 0, 0);
        if i7 < i5 {
            lemma_utf8_len_grows(tv, i7 as int, i5 as int);
        }
        if i10 < i8 {
            lemma_utf8_len_grows(tv, i10 as int, i8 as int);
        }
        if i19 < i11 {
            lemma_utf8_len_grows(tv, i19 as int, i11 as int);
        }
    }
    assert(byte_slice(tv, 0, 4) == tv.subrange(0, i4 as int));
    assert(byte_slice(tv, 5, 7) == tv.subrange(i5 as int, i7 as int));
    assert(byte_slice(tv, 8, 10) == tv.subrange(i8 as int, i10 as int));
    assert(byte_slice(tv, 11, 19) == tv.subrange(i11 as int, i19 as int));
    let mut n: Vec<char> = slice_range(t, 0, i4);
    n.push('-');
    push_all(&mut n, slice_range(t, i5, i7).as_slice());
    n.push('-');
    push_all(&mut n, slice_range(t, i8, i10).as_slice());
    n.push(' ');
    push_all(&mut n, slice_range(t, i11, i19).as_slice());
    assert(n@ =~= exif_normalized(tv));
    n
}

fn push_all(n: &mut Vec<char>, a: &[char])
    ensures
        final(n)@ == old(n)@ + a@,
{
    let ghost start = n@;
    let mut i: usize = 0;
    while i < a.len()
        invariant
            i <= a@.len(),
            n@ == start + a@.take(i as int),
        decreases a@.len() - i,
    {
        n.push(a[i]);
        assert(a@.take(i + 1) =~= a@.take(i as int).push(a@[i as int]));
        i = i + 1;
    }
    assert(a@.take(a@.len() as int) =~= a@);
}

/// The trimmed text, normalised (see [`exif_normalized`]).
fn normalize_exif(s: &str) -> (r: String)
    requires
        exif_layout(trim(s@)) ==> exif_cuts_ok(trim(s@)),
    ensures
        r@ == exif_normalized(trim(s@)),
{
    let t = trim_str(s);
    let long = utf8_len_at_least(t.as_slice(), 19);
    let at4 = index_at_byte(t.as_slice(), 4);
    let layout = match at4 {
        Some(i4) => long && i4 < t.len() && t[i4] == ':',
        None => false,
    };
    assert(layout == exif_layout(t@));
    if layout {
        let n = rearrange_exif(t.as_slice());
        string_of(n.as_slice())
    } else {
        string_of(t.as_slice())
    }
}

/// Reads an EXIF time, `YYYY:MM:DD HH:MM:SS` or already `YYYY-MM-DD HH:MM:SS`, into
/// `YYYY-MM-DD HH:MM:SS` (see [`exif_time_of`]). Text laid out as an EXIF time must
/// have its fields on character boundaries.
pub fn parse_exif_dt(s: &str) -> (r: Option<String>)
    requires
        exif_layout(trim(s@)) ==> exif_cuts_ok(trim(s@)),
    ensures
        match r {
            Some(x) => exif_time_of(s@) == Some(x@),
            None => exif_time_of(s@) is None,
        },
{
    let norm = normalize_exif(s);
    match parse_ymd_hms(norm.as_str()) {
        Some(dt) => Some(format_ymd_hms(&dt)),
        None => match parse_colon_ymd_hms(norm.as_str()) {
            Some(dt) => Some(format_ymd_hms(&dt)),
            None => None,
        },
    }
}

/// Whether `parse_exif_dt` can cut `s`: text laid out as an EXIF time has its
/// fields on character boundaries.
pub open spec fn exif_cuttable(s: Seq<char>) -> bool {
    exif_layout(trim(s)) ==> exif_cuts_ok(trim(s))
}

/// Tests `exif_cuttable`.
pub fn exif_text_cuttable(s: &str) -> (r: bool)
    ensures
        r == exif_cuttable(s@),
{
    let t = trim_str(s);
    let long = utf8_len_at_least(t.as_slice(), 19);
    let at4 = index_at_byte(t.as_slice(), 4);
    let layout = match at4 {
        Some(i4) => long && i4 < t.len() && t[i4] == ':',
        None => false,
    };
    assert(layout == exif_layout(t@));
    if !layout {
        return true;
    }
    index_at_byte(t.as_slice(), 7).is_some() && index_at_byte(t.as_slice(), 8).is_some()
        && index_at_byte(t.as_slice(), 10).is_some() && index_at_byte(t.as_slice(), 11).is_some()
        && index_at_byte(t.as_slice(), 19).is_some()
}

// ---------------------------------------------------------------------------
// EXIF camera data (kamadak-exif)
// ---------------------------------------------------------------------------

/// An optional text, by its view.
pub open spec fn opt_text(o: Option<String>) -> Option<Seq<char>> {
    match o {
        Some(s) => Some(s@),
        None => None,
    }
}

/// EXIF fields (make, model, original shooting time), by their views.
pub open spec fn fields_view(f: Option<(Option<String>, Option<String>, Option<String>)>) -> Option<
    (Option<Seq<char>>, Option<Seq<char>>, Option<Seq<char>>),
> {
    match f {
        Some(t) => Some((opt_text(t.0), opt_text(t.1), opt_text(t.2))),
        None => None,
    }
}

/// What `exif::Reader::read_from_container` finds in a file's bytes: `None` where
/// it returns an error, else the `Make`, `Model` and `DateTimeOriginal` fields of the
/// primary image, each as `display_as` shows it (`None` where the field is absent).
pub uninterp spec fn exif_fields_of(bytes: Seq<u8>) -> Option<
    (Option<Seq<char>>, Option<Seq<char>>, Option<Seq<char>>),
>;

/// `exif::Reader::read_from_container` on a file's bytes, and the `Make`, `Model`
/// and `DateTimeOriginal` fields of the primary image as `display_as` shows them.
/// The result is named by `exif_fields_of`; nothing more is claimed of it.
#[verifier::external_body]
fn exif_fields(bytes: &[u8]) -> (r: Option<(Option<String>, Option<String>, Option<String>)>)
    ensures
        fields_view(r) == exif_fields_of(bytes@),
{
    let e = match exif::Reader::new().read_from_container(&mut std::io::Cursor::new(bytes)) {
        Ok(e) => e,
        Err(_) => return None,
    };
    let show = |t: exif::Tag| e.get_field(t, exif::In::PRIMARY).map(|f| f.value.display_as(t).to_string());
    Some((show(exif::Tag::Make), show(exif::Tag::Model), show(exif::Tag::DateTimeOriginal)))
}

/// The shooting time, make and model that EXIF fields give: the original shooting
/// time read as `YYYY-MM-DD HH:MM:SS` where it is present and reads as a time, else
/// `fallback`; make and model as found. Without EXIF: `fallback` and no camera.
pub open spec fn shooting_info_of(
    fields: Option<(Option<Seq<char>>, Option<Seq<char>>, Option<Seq<char>>)>,
    fallback: Seq<char>,
) -> (Seq<char>, Option<Seq<char>>, Option<Seq<char>>) {
    match fields {
        None => (fallback, None, None),
        Some(f) => {
            let time = match f.2 {
                Some(d) => match exif_time_of(d) {
                    Some(t) => t,
                    None => fallback,
                },
                None => fallback,
            };
            (time, f.0, f.1)
        },
    }
}

/// The EXIF time text in `fields`, if any, can be cut by `parse_exif_dt`.
pub open spec fn fields_cuttable(fields: Option<(Option<String>, Option<String>, Option<String>)>) -> bool {
    fields matches Some(f) ==> (f.2 matches Some(d) ==> exif_cuttable(d@))
}

fn opt_clone(o: &Option<String>) -> (r: Option<String>)
    ensures
        opt_text(r) == opt_text(*o),
{
    match o {
        Some(s) => Some(owned(s.as_str())),
        None => None,
    }
}

/// The shooting time (`YYYY-MM-DD HH:MM:SS`), make and model of a picture from its
/// EXIF fields (see [`shooting_info_of`]).
pub fn shooting_info(
    fields: Option<(Option<String>, Option<String>, Option<String>)>,
    fallback: &str,
) -> (r: (String, Option<String>, Option<String>))
    requires
        fields_cuttable(fields),
    ensures
        (r.0@, opt_text(r.1), opt_text(r.2)) == shooting_info_of(fields_view(fields), fallback@),
{
    match fields {
        None => (owned(fallback), None, None),
        Some((make, model, dt)) => {
            let time = match &dt {
                Some(d) => match parse_exif_dt(d.as_str()) {
                    Some(t) => t,
                    None => owned(fallback),
                },
                None => owned(fallback),
            };
            (time, make, model)
        },
    }
}

/// What `extract_exif` gives: for a picture whose bytes could be read, the shooting
/// information of its EXIF fields; otherwise `fallback` and no camera.
pub open spec fn exif_info_of(ext: Seq<char>, bytes: Option<Seq<u8>>, fallback: Seq<char>) -> (
    Seq<char>,
    Option<Seq<char>>,
    Option<Seq<char>>,
) {
    match bytes {
        Some(b) => if image_exts().contains(unicode_lower(ext)) {
            shooting_info_of(exif_fields_of(b), fallback)
        } else {
            (fallback, None, None)
        },
        None => (fallback, None, None),
    }
}

/// The EXIF time text of a picture cannot be cut where `parse_exif_dt` cuts it.
pub open spec fn exif_uncuttable(ext: Seq<char>, bytes: Option<Seq<u8>>) -> bool {
    &&& bytes is Some
    &&& image_exts().contains(unicode_lower(ext))
    &&& exif_fields_of(bytes->0) matches Some(f)
    &&& f.2 matches Some(d)
    &&& !exif_cuttable(d)
}

/// The shooting time (EXIF `DateTimeOriginal`, else `fallback`, the file's
/// modification time) and the camera make and model of a media file with extension
/// `ext` and content `bytes` (`None` where the file could not be opened). Only
/// pictures are read. `None` where the EXIF time text cannot be cut at its fixed
/// byte positions.
pub fn extract_exif(ext: &str, bytes: Option<&[u8]>, fallback: &str) -> (r: Option<
    (String, Option<String>, Option<String>),
>)
    ensures
        r is None <==> exif_uncuttable(ext@, match bytes { Some(b) => Some(b@), None => None }),
        r matches Some(x) ==> (x.0@, opt_text(x.1), opt_text(x.2)) == exif_info_of(
            ext@,
            match bytes { Some(b) => Some(b@), None => None },
            fallback@,
        ),
{
    if !is_image_ext(ext) {
        return Some((owned(fallback), None, None));
    }
    let b = match bytes {
        Some(b) => b,
        None => return Some((owned(fallback), None, None)),
    };
    let fields = exif_fields(b);
    let cuttable = match &fields {
        Some((_, _, Some(d))) => exif_text_cuttable(d.as_str()),
        _ => true,
    };
    if !cuttable {
        return None;
    }
    Some(shooting_info(fields, fallback))
}

// ---------------------------------------------------------------------------
// Thumbnails (image)
// ---------------------------------------------------------------------------

/// Why a thumbnail could not be made: the picture did not decode, or the JPEG did
/// not encode; each with the image library's message.
pub enum ThumbnailError {
    Decode(String),
    Encode(String),
}

/// What the image library makes of a picture file named `path` with content
/// `bytes`: decoded in the format its extension names (`ImageFormat::from_path`,
/// `load_from_memory_with_format`), scaled by `thumbnail(max_dim, max_dim)` and
/// written as JPEG (`write_to`); `None` where any step returns an error.
pub uninterp spec fn jpeg_thumbnail(path: Seq<char>, bytes: Seq<u8>, max_dim: u32) -> Option<Seq<u8>>;

/// `image::ImageFormat::from_path`, `image::load_from_memory_with_format`,
/// `DynamicImage::thumbnail` and `DynamicImage::write_to` with
/// `ImageFormat::Jpeg`: the JPEG bytes of the picture scaled to fit `max_dim`. The
/// result is named by `jpeg_thumbnail`; the error texts are not stated.
#[verifier::external_body]
fn encode_thumbnail(path: &str, bytes: &[u8], max_dim: u32) -> (r: Result<Vec<u8>, ThumbnailError>)
    ensures
        match r {
            Ok(b) => jpeg_thumbnail(path@, bytes@, max_dim) == Some(b@),
            Err(_) => jpeg_thumbnail(path@, bytes@, max_dim) is None,
        },
{
    let decoded = match image::ImageFormat::from_path(path) {
        Ok(f) => image::load_from_memory_with_format(bytes, f),
        Err(e) => Err(e),
    };
    let img = match decoded {
        Ok(img) => img,
        Err(e) => return Err(ThumbnailError::Decode(e.to_string())),
    };
    let mut out = std::io::Cursor::new(Vec::new());
    match img.thumbnail(max_dim, max_dim).write_to(&mut out, image::ImageFormat::Jpeg) {
        Ok(()) => Ok(out.into_inner()),
        Err(e) => Err(ThumbnailError::Encode(e.to_string())),
    }
}

/// The JPEG thumbnail of the picture at `path` (content `bytes`), its longer side at
/// most `max_dim`. A picture that does not decode gives `解码失败 {shown}: {reason}`,
/// `shown` being how the path is shown; a JPEG that does not encode gives the
/// encoder's message.
pub fn thumbnail_jpeg(path: &str, shown: &str, bytes: &[u8], max_dim: u32) -> (r: Result<Vec<u8>, String>)
    ensures
        match r {
            Ok(b) => jpeg_thumbnail(path@, bytes@, max_dim) == Some(b@),
            Err(e) => jpeg_thumbnail(path@, bytes@, max_dim) is None,
        },
{
    match encode_thumbnail(path, bytes, max_dim) {
        Ok(b) => Ok(b),
        Err(ThumbnailError::Decode(reason)) => {
            let mut msg = "解码失败 ".to_owned();
            msg.append(shown);
            msg.append(": ");
            msg.append(reason.as_str());
            Err(msg)
        },
        Err(ThumbnailError::Encode(reason)) => Err(reason),
    }
}

} // verus!
