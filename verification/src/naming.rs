//! Naming rules: file-name sanitising, camera codes, project ids, folder
//! templates, time-slot folders and the finished-video naming grammar.
use vstd::prelude::*;
use crate::text::{
    chars_of, string_of, push_chars, push_char, to_upper, unicode_upper, trim, trim_chars,
    drop_last_while, is_control, control, is_white_space, white_space, is_ascii_alnum, ascii_alnum, is_ascii_digit,
    ascii_digit, decimal, digits_of, is_decimal_digit, decimal_digit, first_index, last_index,
    find_char, rfind_char, slice_range, string_views, drop_first_while, ws_pred,
};
use crate::datetime::{DateTime, two_digits, push_two_digits, today_compact, clock_reading};

verus! {

broadcast use vstd::string::group_string_axioms;

// ---------------------------------------------------------------------------
// Sequence helpers
// ---------------------------------------------------------------------------

/// The prefix of `s` before the first `c` (all of `s` when there is none).
pub open spec fn take_until(s: Seq<char>, c: char) -> Seq<char>
    decreases s.len(),
{
    if s.len() == 0 {
        s
    } else if s[0] == c {
        Seq::empty()
    } else {
        seq![s[0]] + take_until(s.drop_first(), c)
    }
}

/// Index of the prefix `take_until(s, c)` ends at: the first `c`, or `s.len()`.
pub fn take_until_len(v: &[char], c: char) -> (k: usize)
    ensures
        k <= v@.len(),
        take_until(v@, c) == v@.take(k as int),
{
    let mut k: usize = 0;
    while k < v.len() && v[k] != c
        invariant
            k <= v@.len(),
            forall|j: int| 0 <= j < k ==> v@[j] != c,
        decreases v@.len() - k,
    {
        k = k + 1;
    }
    proof {
        lemma_take_until(v@, c, k as int);
    }
    k
}

proof fn lemma_take_until(s: Seq<char>, c: char, k: int)
    requires
        0 <= k <= s.len(),
        forall|j: int| 0 <= j < k ==> s[j] != c,
        k < s.len() ==> s[k] == c,
    ensures
        take_until(s, c) == s.take(k),
    decreases s.len(),
{
    if s.len() == 0 {
        assert(s.take(k) =~= s);
    } else if k == 0 {
        assert(s.take(0) =~= Seq::<char>::empty());
    } else {
        lemma_take_until(s.drop_first(), c, k - 1);
        assert(s.take(k) =~= seq![s[0]] + s.drop_first().take(k - 1));
    }
}

// ---------------------------------------------------------------------------
// File names
// ---------------------------------------------------------------------------

/// The characters Windows does not allow in a file name: `< > : " / \ | ? *`.
pub open spec fn is_illegal_char(c: char) -> bool {
    c == '<' || c == '>' || c == ':' || c == '"' || c == '/' || c == '\\' || c == '|' || c
        == '?' || c == '*'
}

/// A character that survives the first step of `sanitize_filename`.
pub open spec fn keeps_char(c: char) -> bool {
    !is_illegal_char(c) && !is_control(c)
}

pub open spec fn keep_pred() -> spec_fn(char) -> bool {
    |c: char| keeps_char(c)
}

pub open spec fn dot_or_space(c: char) -> bool {
    c == '.' || c == ' '
}

pub open spec fn dot_space_pred() -> spec_fn(char) -> bool {
    |c: char| dot_or_space(c)
}

/// The Windows reserved device names `CON`, `PRN`, `AUX`, `NUL`, `COM1`–`COM9`
/// and `LPT1`–`LPT9`.
pub open spec fn is_reserved_name(u: Seq<char>) -> bool {
    ||| u == seq!['C', 'O', 'N']
    ||| u == seq!['P', 'R', 'N']
    ||| u == seq!['A', 'U', 'X']
    ||| u == seq!['N', 'U', 'L']
    ||| (u.len() == 4 && u.take(3) == seq!['C', 'O', 'M'] && '1' <= u[3] && u[3] <= '9')
    ||| (u.len() == 4 && u.take(3) == seq!['L', 'P', 'T'] && '1' <= u[3] && u[3] <= '9')
}

/// A dot or any white space: what may not end a sanitised name.
pub open spec fn dot_or_white_space(c: char) -> bool {
    c == '.' || is_white_space(c)
}

pub open spec fn dot_ws_pred() -> spec_fn(char) -> bool {
    |c: char| dot_or_white_space(c)
}

/// The name after illegal and control characters are removed, trailing dots and
/// spaces dropped and surrounding white space trimmed; dots and white space that
/// the trim leaves at the end are dropped too.
pub open spec fn sanitize_core(raw: Seq<char>) -> Seq<char> {
    drop_last_while(trim(drop_last_while(raw.filter(keep_pred()), dot_space_pred())), dot_ws_pred())
}

/// What `sanitize_filename` returns: the cleaned name, `_` when nothing is left,
/// and `_` prefixed when the part before the first dot is, upper-cased, a reserved
/// device name.
pub open spec fn sanitized(raw: Seq<char>) -> Seq<char> {
    let s = sanitize_core(raw);
    if s.len() == 0 {
        seq!['_']
    } else if is_reserved_name(unicode_upper(take_until(s, '.'))) {
        seq!['_'] + s
    } else {
        s
    }
}

fn reserved_name(u: &[char]) -> (r: bool)
    ensures
        r == is_reserved_name(u@),
{
    if u.len() == 3 {
        let r = (u[0] == 'C' && u[1] == 'O' && u[2] == 'N') || (u[0] == 'P' && u[1] == 'R' && u[2]
            == 'N') || (u[0] == 'A' && u[1] == 'U' && u[2] == 'X') || (u[0] == 'N' && u[1] == 'U'
            && u[2] == 'L');
        proof {
            if u[0] == 'C' && u[1] == 'O' && u[2] == 'N' {
                assert(u@ =~= seq!['C', 'O', 'N']);
            }
            if u[0] == 'P' && u[1] == 'R' && u[2] == 'N' {
                assert(u@ =~= seq!['P', 'R', 'N']);
            }
            if u[0] == 'A' && u[1] == 'U' && u[2] == 'X' {
                assert(u@ =~= seq!['A', 'U', 'X']);
            }
            if u[0] == 'N' && u[1] == 'U' && u[2] == 'L' {
                assert(u@ =~= seq!['N', 'U', 'L']);
            }
        }
        r
    } else if u.len() == 4 {
        let r = ((u[0] == 'C' && u[1] == 'O' && u[2] == 'M') || (u[0] == 'L' && u[1] == 'P' && u[2]
            == 'T')) && '1' <= u[3] && u[3] <= '9';
        proof {
            if u@.take(3) == seq!['C', 'O', 'M'] {
                assert(u@.take(3)[0] == 'C' && u@.take(3)[1] == 'O' && u@.take(3)[2] == 'M');
            }
            if u@.take(3) == seq!['L', 'P', 'T'] {
                assert(u@.take(3)[0] == 'L' && u@.take(3)[1] == 'P' && u@.take(3)[2] == 'T');
            }
            if r {
                if u[0] == 'C' {
                    assert(u@.take(3) =~= seq!['C', 'O', 'M']);
                } else {
                    assert(u@.take(3) =~= seq!['L', 'P', 'T']);
                }
            }
        }
        r
    } else {
        false
    }
}

/// Removes Windows-illegal and control characters, trailing dots and spaces and
/// surrounding white space, so that the name works on all three platforms;
/// an empty result becomes `_`, and a reserved device name gets a `_` prefix.
pub fn sanitize_filename(raw: &str) -> (r: String)
    ensures
        r@ == sanitized(raw@),
{
    let v = chars_of(raw);
    let mut f: Vec<char> = Vec::new();
    let mut i: usize = 0;
    while i < v.len()
        invariant
            i <= v@.len(),
            f@ == v@.take(i as int).filter(keep_pred()),
        decreases v@.len() - i,
    {
        proof {
            reveal(Seq::filter);
            assert(v@.take(i + 1).drop_last() =~= v@.take(i as int));
        }
        let c = v[i];
        if !(c == '<' || c == '>' || c == ':' || c == '"' || c == '/' || c == '\\' || c == '|'
            || c == '?' || c == '*') && !control(c) {
            f.push(c);
        }
        i = i + 1;
    }
    assert(v@.take(v@.len() as int) =~= v@);
    let ghost filtered = f@;
    while f.len() > 0 && (f[f.len() - 1] == '.' || f[f.len() - 1] == ' ')
        invariant
            drop_last_while(filtered, dot_space_pred()) == drop_last_while(f@, dot_space_pred()),
        decreases f@.len(),
    {
        let ghost before = f@;
        f.pop();
        assert(f@ =~= before.drop_last());
    }
    assert(drop_last_while(f@, dot_space_pred()) == f@);
    let mut t = trim_chars(f.as_slice());
    let ghost trimmed = t@;
    while t.len() > 0 && (t[t.len() - 1] == '.' || white_space(t[t.len() - 1]))
        invariant
            drop_last_while(trimmed, dot_ws_pred()) == drop_last_while(t@, dot_ws_pred()),
        decreases t@.len(),
    {
        let ghost before = t@;
        t.pop();
        assert(t@ =~= before.drop_last());
    }
    assert(drop_last_while(t@, dot_ws_pred()) == t@);
    if t.len() == 0 {
        let mut r = String::new();
        push_char(&mut r, '_');
        assert(r@ =~= seq!['_']);
        return r;
    }
    let k = take_until_len(t.as_slice(), '.');
    let stem = string_of(crate::text::slice_range(t.as_slice(), 0, k).as_slice());
    let up = to_upper(stem.as_str());
    let upv = chars_of(up.as_str());
    assert(t@.subrange(0, k as int) =~= t@.take(k as int));
    if reserved_name(upv.as_slice()) {
        let mut r = String::new();
        push_char(&mut r, '_');
        push_chars(&mut r, t.as_slice());
        assert(r@ =~= seq!['_'] + t@);
        r
    } else {
        string_of(t.as_slice())
    }
}

proof fn lemma_drop_last_while_prefix(s: Seq<char>, p: spec_fn(char) -> bool)
    ensures
        drop_last_while(s, p).len() <= s.len(),
        forall|i: int| 0 <= i < drop_last_while(s, p).len() ==> #[trigger] drop_last_while(s, p)[i] == s[i],
    decreases s.len(),
{
    if s.len() > 0 && p(s.last()) {
        lemma_drop_last_while_prefix(s.drop_last(), p);
    }
}

proof fn lemma_drop_last_while_end(s: Seq<char>, p: spec_fn(char) -> bool)
    ensures
        drop_last_while(s, p).len() > 0 ==> !p(drop_last_while(s, p).last()),
    decreases s.len(),
{
    if s.len() > 0 && p(s.last()) {
        lemma_drop_last_while_end(s.drop_last(), p);
    }
}

proof fn lemma_drop_first_while_start(s: Seq<char>, p: spec_fn(char) -> bool)
    ensures
        drop_first_while(s, p).len() > 0 ==> !p(drop_first_while(s, p)[0]),
    decreases s.len(),
{
    if s.len() > 0 && p(s[0]) {
        lemma_drop_first_while_start(s.drop_first(), p);
    }
}

proof fn lemma_drop_first_while_suffix(s: Seq<char>, p: spec_fn(char) -> bool)
    ensures
        drop_first_while(s, p).len() <= s.len(),
        forall|i: int| 0 <= i < drop_first_while(s, p).len() ==> #[trigger] drop_first_while(s, p)[i] == s[i + s.len() - drop_first_while(s, p).len()],
    decreases s.len(),
{
    if s.len() > 0 && p(s[0]) {
        lemma_drop_first_while_suffix(s.drop_first(), p);
    }
}

/// A sanitised file name is never empty, holds no character that Windows refuses
/// in a file name and no control character, neither starts nor ends with white
/// space, and does not end with a dot or a space.
pub proof fn lemma_sanitized_is_portable(raw: Seq<char>)
    ensures
        sanitized(raw).len() > 0,
        forall|i: int| 0 <= i < sanitized(raw).len() ==> keeps_char(#[trigger] sanitized(raw)[i]),
        !is_white_space(sanitized(raw)[0]),
        !is_white_space(sanitized(raw).last()),
        sanitized(raw).last() != '.',
        sanitized(raw).last() != ' ',
{
    let f = raw.filter(keep_pred());
    assert forall|i: int| 0 <= i < f.len() implies keeps_char(#[trigger] f[i]) by {
        raw.lemma_filter_pred(keep_pred(), i);
    }
    let d = drop_last_while(f, dot_space_pred());
    lemma_drop_last_while_prefix(f, dot_space_pred());
    let a = drop_first_while(d, ws_pred());
    lemma_drop_first_while_suffix(d, ws_pred());
    let w = drop_last_while(a, ws_pred());
    lemma_drop_last_while_prefix(a, ws_pred());
    let t = drop_last_while(w, dot_ws_pred());
    lemma_drop_last_while_prefix(w, dot_ws_pred());
    lemma_drop_last_while_end(w, dot_ws_pred());
    lemma_drop_first_while_start(d, ws_pred());
    assert(t == sanitize_core(raw));
    assert forall|i: int| 0 <= i < t.len() implies keeps_char(#[trigger] t[i]) by {
        assert(t[i] == w[i]);
        assert(w[i] == a[i]);
        assert(a[i] == d[i + d.len() - a.len()]);
        assert(d[i + d.len() - a.len()] == f[i + d.len() - a.len()]);
    }
    if t.len() > 0 {
        assert(t[0] == w[0]);
        assert(w[0] == a[0]);
        assert(!is_white_space(t[0]));
        assert(!dot_or_white_space(t.last()));
    }
    let r = sanitized(raw);
    assert forall|i: int| 0 <= i < r.len() implies keeps_char(#[trigger] r[i]) by {
        if t.len() == 0 {
        } else if is_reserved_name(unicode_upper(take_until(t, '.'))) {
            if i > 0 {
                assert(r[i] == t[i - 1]);
            }
        } else {
        }
    }
}

// ---------------------------------------------------------------------------
// Camera codes
// ---------------------------------------------------------------------------

pub open spec fn alnum_pred() -> spec_fn(char) -> bool {
    |c: char| is_ascii_alnum(c)
}

/// One part of a camera code: the upper-cased text with everything but ASCII
/// letters and digits removed.
pub open spec fn code_part(s: Seq<char>) -> Seq<char> {
    unicode_upper(s).filter(alnum_pred())
}

pub open spec fn or_default(s: Seq<char>, d: Seq<char>) -> Seq<char> {
    if s.len() == 0 {
        d
    } else {
        s
    }
}

/// `{model}_{position}_{operator}` with each part cleaned, and `CAM`, `X`, `DIT`
/// standing in for a part that comes out empty.
pub open spec fn camera_code_of(model: Seq<char>, position: Seq<char>, operator: Seq<char>) -> Seq<
    char,
> {
    or_default(code_part(model), "CAM"@) + seq!['_'] + or_default(code_part(position), "X"@)
        + seq!['_'] + or_default(code_part(operator), "DIT"@)
}

fn clean_part(s: &str) -> (r: Vec<char>)
    ensures
        r@ == code_part(s@),
{
    let up = to_upper(s);
    let v = chars_of(up.as_str());
    let mut f: Vec<char> = Vec::new();
    let mut i: usize = 0;
    while i < v.len()
        invariant
            i <= v@.len(),
            f@ == v@.take(i as int).filter(alnum_pred()),
        decreases v@.len() - i,
    {
        proof {
            reveal(Seq::filter);
            assert(v@.take(i + 1).drop_last() =~= v@.take(i as int));
        }
        if ascii_alnum(v[i]) {
            f.push(v[i]);
        }
        i = i + 1;
    }
    assert(v@.take(v@.len() as int) =~= v@);
    f
}

fn part_or(v: Vec<char>, d: &str) -> (r: Vec<char>)
    ensures
        r@ == or_default(v@, d@),
{
    if v.len() == 0 {
        chars_of(d)
    } else {
        v
    }
}

/// Camera code `{model}_{position}_{operator}`, each part upper-cased and reduced
/// to ASCII letters and digits, e.g. `DJIRONIN4D_B_ZS`.
pub fn camera_code(model: &str, position: &str, operator: &str) -> (r: String)
    ensures
        r@ == camera_code_of(model@, position@, operator@),
{
    let m = part_or(clean_part(model), "CAM");
    let p = part_or(clean_part(position), "X");
    let o = part_or(clean_part(operator), "DIT");
    let mut r = String::new();
    push_chars(&mut r, m.as_slice());
    push_char(&mut r, '_');
    push_chars(&mut r, p.as_slice());
    push_char(&mut r, '_');
    push_chars(&mut r, o.as_slice());
    assert(r@ =~= camera_code_of(model@, position@, operator@));
    r
}

/// A camera code is made of ASCII letters, digits and the two `_` separators; it
/// holds exactly three non-empty parts.
pub proof fn lemma_camera_code_charset(model: Seq<char>, position: Seq<char>, operator: Seq<char>)
    ensures
        forall|i: int| 0 <= i < camera_code_of(model, position, operator).len()
            ==> is_ascii_alnum(#[trigger] camera_code_of(model, position, operator)[i])
                || camera_code_of(model, position, operator)[i] == '_',
        ({
            let m = or_default(code_part(model), "CAM"@);
            let p = or_default(code_part(position), "X"@);
            let o = or_default(code_part(operator), "DIT"@);
            &&& m.len() > 0 && p.len() > 0 && o.len() > 0
            &&& camera_code_of(model, position, operator) == m + seq!['_'] + p + seq!['_'] + o
            &&& forall|i: int| 0 <= i < m.len() ==> is_ascii_alnum(#[trigger] m[i])
            &&& forall|i: int| 0 <= i < p.len() ==> is_ascii_alnum(#[trigger] p[i])
            &&& forall|i: int| 0 <= i < o.len() ==> is_ascii_alnum(#[trigger] o[i])
        }),
{
    reveal_strlit("CAM");
    reveal_strlit("X");
    reveal_strlit("DIT");
    let m = or_default(code_part(model), "CAM"@);
    let p = or_default(code_part(position), "X"@);
    let o = or_default(code_part(operator), "DIT"@);
    assert forall|i: int| 0 <= i < code_part(model).len() implies is_ascii_alnum(#[trigger] code_part(model)[i]) by {
        unicode_upper(model).lemma_filter_pred(alnum_pred(), i);
    }
    assert forall|i: int| 0 <= i < code_part(position).len() implies is_ascii_alnum(#[trigger] code_part(position)[i]) by {
        unicode_upper(position).lemma_filter_pred(alnum_pred(), i);
    }
    assert forall|i: int| 0 <= i < code_part(operator).len() implies is_ascii_alnum(#[trigger] code_part(operator)[i]) by {
        unicode_upper(operator).lemma_filter_pred(alnum_pred(), i);
    }
    let r = camera_code_of(model, position, operator);
    assert forall|i: int| 0 <= i < r.len() implies is_ascii_alnum(#[trigger] r[i]) || r[i] == '_' by {
        if i < m.len() {
            assert(r[i] == m[i]);
        } else if i == m.len() {
        } else if i < m.len() + 1 + p.len() {
            assert(r[i] == p[i - m.len() - 1]);
        } else if i == m.len() + 1 + p.len() {
        } else {
            assert(r[i] == o[i - m.len() - 2 - p.len()]);
        }
    }
}

// ---------------------------------------------------------------------------
// Project ids
// ---------------------------------------------------------------------------

/// Eight ASCII digits, as a `YYYYMMDD` date is written.
pub open spec fn is_compact_date(d: Seq<char>) -> bool {
    d.len() == 8 && forall|k: int| 0 <= k < 8 ==> is_ascii_digit(#[trigger] d[k])
}

/// `{date}_{name}`: the date when it is eight digits, otherwise `today`, then the
/// sanitised name.
pub open spec fn project_id_of(date: Seq<char>, name: Seq<char>, today: Seq<char>) -> Seq<char> {
    (if is_compact_date(date) {
        date
    } else {
        today
    }) + seq!['_'] + sanitized(name)
}

/// Whether `d` is eight ASCII digits.
pub fn compact_date(d: &str) -> (r: bool)
    ensures
        r == is_compact_date(d@),
{
    let v = chars_of(d);
    if v.len() != 8 {
        return false;
    }
    let mut k: usize = 0;
    while k < 8
        invariant
            v@ == d@,
            v@.len() == 8,
            k <= 8,
            forall|j: int| 0 <= j < k ==> is_ascii_digit(#[trigger] v@[j]),
        decreases 8 - k,
    {
        if !ascii_digit(v[k]) {
            assert(!is_ascii_digit(d@[k as int]));
            return false;
        }
        k = k + 1;
    }
    true
}

/// Project id with an explicit fallback date: `{date}_{name}` where `date` is used
/// when it is `YYYYMMDD` and `today` otherwise.
pub fn project_id_on(date: &str, name: &str, today: &str) -> (r: String)
    ensures
        r@ == project_id_of(date@, name@, today@),
{
    let mut r = if compact_date(date) {
        date.to_owned()
    } else {
        today.to_owned()
    };
    push_char(&mut r, '_');
    let n = sanitize_filename(name);
    r.append(n.as_str());
    r
}

/// Project id `YYYYMMDD_{name}` (name sanitised); a date that is not eight digits
/// is replaced by today's local date.
pub fn project_id(date: &str, name: &str) -> (r: String)
    ensures
        is_compact_date(date@) ==> r@ == project_id_of(date@, name@, date@),
        !is_compact_date(date@) ==> exists|dt: DateTime| #[trigger] clock_reading(dt) && r@ == project_id_of(
            date@,
            name@,
            crate::datetime::compact_date(dt),
        ),
{
    if compact_date(date) {
        project_id_on(date, name, date)
    } else {
        let today = today_compact();
        project_id_on(date, name, today.as_str())
    }
}

// ---------------------------------------------------------------------------
// Folder templates
// ---------------------------------------------------------------------------

/// Workflow A (video editing) folders, in order.
pub open spec fn workflow_a_template() -> Seq<Seq<char>> {
    seq![
        "1. 工程文件"@,
        "2. 原始素材"@,
        "3. 特别素材"@,
        "4. 转码素材"@,
        "5. 文字素材"@,
        "6. 成片"@,
    ]
}

/// `{n}. {name}`.
pub open spec fn numbered(n: nat, name: Seq<char>) -> Seq<char> {
    decimal(n) + ". "@ + name
}

/// Workflow B (photo) folders: `1. 待分类`, one numbered folder per category from 2,
/// then the picks folder and the rest folder.
pub open spec fn workflow_b_template(cats: Seq<Seq<char>>) -> Seq<Seq<char>> {
    seq!["1. 待分类"@] + Seq::new(cats.len(), |i: int| numbered((i + 2) as nat, sanitized(cats[i])))
        + seq![numbered(cats.len() + 2, "精选"@), numbered(cats.len() + 3, "其他"@)]
}

/// Sub-folders of the picks folder.
pub open spec fn select_template() -> Seq<Seq<char>> {
    seq!["待修"@, "已修"@]
}

/// Workflow A folder template.
pub fn workflow_a_folders() -> (r: Vec<String>)
    ensures
        string_views(r@) == workflow_a_template(),
{
    let r = vec![
        "1. 工程文件".to_owned(),
        "2. 原始素材".to_owned(),
        "3. 特别素材".to_owned(),
        "4. 转码素材".to_owned(),
        "5. 文字素材".to_owned(),
        "6. 成片".to_owned(),
    ];
    assert(string_views(r@) =~= workflow_a_template());
    r
}

fn numbered_string(n: u64, name: &str) -> (r: String)
    ensures
        r@ == numbered(n as nat, name@),
{
    let mut r = crate::text::decimal_string(n);
    r.append(". ");
    r.append(name);
    r
}

/// Workflow B folder template for the given categories.
pub fn workflow_b_folders(categories: &[String]) -> (r: Vec<String>)
    requires
        categories@.len() + 3 <= u64::MAX,
    ensures
        string_views(r@) == workflow_b_template(string_views(categories@)),
{
    let ghost cats = string_views(categories@);
    let mut folders: Vec<String> = Vec::new();
    folders.push("1. 待分类".to_owned());
    let mut i: usize = 0;
    while i < categories.len()
        invariant
            i <= categories@.len(),
            categories@.len() + 3 <= u64::MAX,
            cats == string_views(categories@),
            string_views(folders@) == seq!["1. 待分类"@] + Seq::new(
                i as nat,
                |k: int| numbered((k + 2) as nat, sanitized(cats[k])),
            ),
        decreases categories@.len() - i,
    {
        let name = sanitize_filename(categories[i].as_str());
        let item = numbered_string(i as u64 + 2, name.as_str());
        let ghost before = string_views(folders@);
        folders.push(item);
        assert(string_views(folders@) =~= before.push(item@));
        assert(string_views(folders@) =~= seq!["1. 待分类"@] + Seq::new(
            (i + 1) as nat,
            |k: int| numbered((k + 2) as nat, sanitized(cats[k])),
        ));
        i = i + 1;
    }
    let n = categories.len() as u64;
    let ghost before = string_views(folders@);
    folders.push(numbered_string(n + 2, "精选"));
    folders.push(numbered_string(n + 3, "其他"));
    assert(string_views(folders@) =~= workflow_b_template(cats));
    folders
}

/// Sub-folders of the picks folder: to retouch, retouched.
pub fn select_folders() -> (r: Vec<String>)
    ensures
        string_views(r@) == select_template(),
{
    let r = vec!["待修".to_owned(), "已修".to_owned()];
    assert(string_views(r@) =~= select_template());
    r
}

// ---------------------------------------------------------------------------
// Time slots
// ---------------------------------------------------------------------------

/// `MMDD上午` before noon, `MMDD下午` from noon on.
pub open spec fn time_slot_text(dt: DateTime) -> Seq<char> {
    two_digits(dt.month as nat) + two_digits(dt.day as nat) + (if dt.hour < 12 {
        "上午"@
    } else {
        "下午"@
    })
}

/// Time slot of a shooting time, e.g. `0101上午`.
pub fn infer_time_slot(dt: &DateTime) -> (r: String)
    ensures
        r@ == time_slot_text(*dt),
{
    let mut r = String::new();
    push_two_digits(&mut r, dt.month);
    push_two_digits(&mut r, dt.day);
    if dt.hour < 12 {
        r.append("上午");
    } else {
        r.append("下午");
    }
    assert(r@ =~= time_slot_text(*dt));
    r
}

/// Destination sub-folder `{time slot}_{camera code}`.
pub fn time_slot_folder(dt: &DateTime, cam_code: &str) -> (r: String)
    ensures
        r@ == time_slot_text(*dt) + seq!['_'] + cam_code@,
{
    let mut r = infer_time_slot(dt);
    push_char(&mut r, '_');
    r.append(cam_code);
    r
}

// ---------------------------------------------------------------------------
// Finished-video names: `{date}_{title}_{resolution}_{purpose}_{version}`
// ---------------------------------------------------------------------------

/// A parsed finished-video name.
#[derive(Debug, Clone, PartialEq, Eq)]
pub struct FinalVideoName {
    pub date: String,
    pub title: String,
    pub resolution: String,
    pub purpose: String,
    pub version: String,
    /// A preview cut: the resolution is `{n}p` with `n < 1080`.
    pub is_preview: bool,
}

/// Every character is a Unicode decimal digit (`\d`).
pub open spec fn all_decimal_digits(s: Seq<char>) -> bool {
    forall|k: int| 0 <= k < s.len() ==> is_decimal_digit(#[trigger] s[k])
}

/// No character is a line feed (what `.` excludes).
pub open spec fn no_newline(s: Seq<char>) -> bool {
    forall|k: int| 0 <= k < s.len() ==> #[trigger] s[k] != '\n'
}

/// `\d{3,4}p | [248]K | HD | SD | UHD`.
pub open spec fn is_resolution(r: Seq<char>) -> bool {
    ||| ((r.len() == 4 || r.len() == 5) && r.last() == 'p' && all_decimal_digits(r.drop_last()))
    ||| r == seq!['2', 'K']
    ||| r == seq!['4', 'K']
    ||| r == seq!['8', 'K']
    ||| r == seq!['H', 'D']
    ||| r == seq!['S', 'D']
    ||| r == seq!['U', 'H', 'D']
}

/// `V\d+`.
pub open spec fn is_version(v: Seq<char>) -> bool {
    v.len() >= 2 && v[0] == 'V' && all_decimal_digits(v.drop_first())
}

/// `{resolution}_{purpose}_{version}` split into its parts. The resolution holds no
/// `_`, so it ends at the first one; the version holds none either, so the purpose
/// (lazy, at least one character) ends at the last one.
pub open spec fn tail_parts(rest: Seq<char>) -> Option<(Seq<char>, Seq<char>, Seq<char>)> {
    let u = first_index(rest, '_');
    if u < 0 {
        None
    } else {
        let r = rest.take(u);
        let after = rest.skip(u + 1);
        let w = last_index(after, '_');
        if w < 1 {
            None
        } else {
            let p = after.take(w);
            let v = after.skip(w + 1);
            if is_resolution(r) && no_newline(p) && is_version(v) {
                Some((r, p, v))
            } else {
                None
            }
        }
    }
}

/// The name starts with `\d{8}_`.
pub open spec fn head_ok(stem: Seq<char>) -> bool {
    stem.len() >= 9 && all_decimal_digits(stem.take(8)) && stem[8] == '_'
}

/// The title may end at index `t` (the `_` there follows it) and the rest of the name
/// then matches.
pub open spec fn title_end_ok(stem: Seq<char>, t: int) -> bool {
    &&& 10 <= t < stem.len()
    &&& stem[t] == '_'
    &&& no_newline(stem.subrange(9, t))
    &&& tail_parts(stem.skip(t + 1)) is Some
}

/// The first index from `t` on at which the title may end: the lazy `(.+?)` takes
/// the shortest title that lets the whole name match.
pub open spec fn first_title_end(stem: Seq<char>, t: int) -> Option<int>
    decreases stem.len() - t,
{
    if t >= stem.len() {
        None
    } else if title_end_ok(stem, t) {
        Some(t)
    } else {
        first_title_end(stem, t + 1)
    }
}

/// The name without its extension: up to the last `.` when that is not the first
/// character.
pub open spec fn name_stem(name: Seq<char>) -> Seq<char> {
    let k = last_index(name, '.');
    if k > 0 {
        name.take(k)
    } else {
        name
    }
}

/// The captures of `^(\d{8})_(.+?)_((?:\d{3,4}p)|[248]K|HD|SD|UHD)_(.+?)_(V\d+)$` on the
/// stem of `name`: date, title, resolution, purpose, version.
pub open spec fn final_video_parts(name: Seq<char>) -> Option<
    (Seq<char>, Seq<char>, Seq<char>, Seq<char>, Seq<char>),
> {
    let stem = name_stem(name);
    if !head_ok(stem) {
        None
    } else {
        match first_title_end(stem, 10) {
            None => None,
            Some(t) => {
                let (r, p, v) = tail_parts(stem.skip(t + 1)).unwrap();
                Some((stem.take(8), stem.subrange(9, t), r, p, v))
            },
        }
    }
}

/// Value of a run of ASCII digits.
pub open spec fn ascii_value(s: Seq<char>) -> nat
    decreases s.len(),
{
    if s.len() == 0 {
        0
    } else {
        ascii_value(s.drop_last()) * 10 + ((s.last() as int - '0' as int) as nat)
    }
}

pub open spec fn all_ascii_digits(s: Seq<char>) -> bool {
    forall|k: int| 0 <= k < s.len() ==> is_ascii_digit(#[trigger] s[k])
}

/// A preview resolution: `{n}p` where `n` parses as a `u32` (ASCII digits) below 1080.
pub open spec fn is_preview_resolution(r: Seq<char>) -> bool {
    r.len() >= 1 && r.last() == 'p' && r.drop_last().len() >= 1 && all_ascii_digits(r.drop_last())
        && ascii_value(r.drop_last()) < 1080
}

/// The message `validate_final_video_name` gives for a name that does not match.
pub open spec fn final_video_error() -> Seq<char> {
    "命名不符合规范：应形如 时间日期_片名_分辨率_用途_版本（如 20260824_花絮_4K_交付_V01）"@
}

fn all_digits_in(v: &[char], from: usize, to: usize) -> (r: bool)
    requires
        from <= to <= v@.len(),
    ensures
        r == all_decimal_digits(v@.subrange(from as int, to as int)),
{
    let mut k = from;
    while k < to
        invariant
            from <= k <= to <= v@.len(),
            forall|j: int| from <= j < k ==> is_decimal_digit(#[trigger] v@[j]),
        decreases to - k,
    {
        if !decimal_digit(v[k]) {
            assert(v@.subrange(from as int, to as int)[k - from] == v@[k as int]);
            return false;
        }
        k = k + 1;
    }
    assert forall|j: int| 0 <= j < to - from implies is_decimal_digit(
        #[trigger] v@.subrange(from as int, to as int)[j],
    ) by {
        assert(v@.subrange(from as int, to as int)[j] == v@[from + j]);
    }
    true
}

fn no_newline_in(v: &[char], from: usize, to: usize) -> (r: bool)
    requires
        from <= to <= v@.len(),
    ensures
        r == no_newline(v@.subrange(from as int, to as int)),
{
    let mut k = from;
    while k < to
        invariant
            from <= k <= to <= v@.len(),
            forall|j: int| from <= j < k ==> #[trigger] v@[j] != '\n',
        decreases to - k,
    {
        if v[k] == '\n' {
            assert(v@.subrange(from as int, to as int)[k - from] == v@[k as int]);
            return false;
        }
        k = k + 1;
    }
    assert forall|j: int| 0 <= j < to - from implies #[trigger] v@.subrange(
        from as int,
        to as int,
    )[j] != '\n' by {
        assert(v@.subrange(from as int, to as int)[j] == v@[from + j]);
    }
    true
}

fn resolution_ok(r: &[char]) -> (b: bool)
    ensures
        b == is_resolution(r@),
{
    let n = r.len();
    if (n == 4 || n == 5) && r[n - 1] == 'p' {
        let d = all_digits_in(r, 0, n - 1);
        assert(r@.subrange(0, n - 1) =~= r@.drop_last());
        if d {
            return true;
        }
    }
    proof {
        if n == 2 {
            if r@ == seq!['2', 'K'] || r@ == seq!['4', 'K'] || r@ == seq!['8', 'K'] || r@ == seq![
                'H',
                'D',
            ] || r@ == seq!['S', 'D'] {
                assert(r@[0] == r@[0] && r@[1] == r@[1]);
            }
        }
    }
    if n == 2 {
        let b = ((r[0] == '2' || r[0] == '4' || r[0] == '8') && r[1] == 'K') || ((r[0] == 'H'
            || r[0] == 'S') && r[1] == 'D');
        proof {
            if b {
                if r[0] == '2' {
                    assert(r@ =~= seq!['2', 'K']);
                } else if r[0] == '4' {
                    assert(r@ =~= seq!['4', 'K']);
                } else if r[0] == '8' {
                    assert(r@ =~= seq!['8', 'K']);
                } else if r[0] == 'H' {
                    assert(r@ =~= seq!['H', 'D']);
                } else {
                    assert(r@ =~= seq!['S', 'D']);
                }
            } else {
                assert(r@ != seq!['2', 'K'] && r@ != seq!['4', 'K'] && r@ != seq!['8', 'K']) by {
                    if r@ == seq!['2', 'K'] || r@ == seq!['4', 'K'] || r@ == seq!['8', 'K'] {
                        assert(r@[1] == 'K');
                    }
                }
                assert(r@ != seq!['H', 'D'] && r@ != seq!['S', 'D']) by {
                    if r@ == seq!['H', 'D'] || r@ == seq!['S', 'D'] {
                        assert(r@[1] == 'D');
                    }
                }
            }
        }
        b
    } else if n == 3 {
        let b = r[0] == 'U' && r[1] == 'H' && r[2] == 'D';
        proof {
            if b {
                assert(r@ =~= seq!['U', 'H', 'D']);
            } else {
                assert(r@ != seq!['U', 'H', 'D']) by {
                    if r@ == seq!['U', 'H', 'D'] {
                        assert(r@[0] == 'U' && r@[1] == 'H' && r@[2] == 'D');
                    }
                }
            }
        }
        b
    } else {
        false
    }
}

fn version_ok(v: &[char]) -> (b: bool)
    ensures
        b == is_version(v@),
{
    if v.len() >= 2 && v[0] == 'V' {
        let d = all_digits_in(v, 1, v.len());
        assert(v@.subrange(1, v@.len() as int) =~= v@.drop_first());
        d
    } else {
        false
    }
}

/// Splits `rest` into resolution, purpose and version.
fn split_tail(rest: &[char]) -> (r: Option<(Vec<char>, Vec<char>, Vec<char>)>)
    ensures
        match r {
            Some((a, b, c)) => tail_parts(rest@) == Some((a@, b@, c@)),
            None => tail_parts(rest@) is None,
        },
{
    let fu = find_char(rest, '_');
    if fu.is_none() {
        return None;
    }
    let u = fu.unwrap();
    let rest_len = rest.len();
    proof {
        crate::text::lemma_first_index_props(rest@, '_');
    }
    let r = slice_range(rest, 0, u);
    let after = slice_range(rest, u + 1, rest_len);
    assert(r@ =~= rest@.take(u as int));
    assert(after@ =~= rest@.skip(u + 1));
    let fw = rfind_char(after.as_slice(), '_');
    if fw.is_none() {
        return None;
    }
    let w = fw.unwrap();
    if w < 1 {
        return None;
    }
    proof {
        crate::text::lemma_last_index_props(after@, '_');
    }
    let p = slice_range(after.as_slice(), 0, w);
    let v = slice_range(after.as_slice(), w + 1, after.len());
    assert(p@ =~= after@.take(w as int));
    assert(v@ =~= after@.skip(w + 1));
    if resolution_ok(r.as_slice()) && no_newline_in(p.as_slice(), 0, p.len()) && version_ok(
        v.as_slice(),
    ) {
        assert(p@.subrange(0, p@.len() as int) =~= p@);
        Some((r, p, v))
    } else {
        assert(p@.subrange(0, p@.len() as int) =~= p@);
        None
    }
}

fn ascii_value_of(v: &[char]) -> (r: Option<u32>)
    requires
        v@.len() <= 4,
    ensures
        match r {
            Some(n) => all_ascii_digits(v@) && n as nat == ascii_value(v@),
            None => !all_ascii_digits(v@),
        },
{
    let mut n: u32 = 0;
    let mut k: usize = 0;
    while k < v.len()
        invariant
            k <= v@.len() <= 4,
            all_ascii_digits(v@.take(k as int)),
            n as nat == ascii_value(v@.take(k as int)),
            n < 10000,
            k == 0 ==> n == 0,
            n < crate::text::pow10_spec(k as nat),
        decreases v@.len() - k,
    {
        let c = v[k];
        if !ascii_digit(c) {
            assert(!all_ascii_digits(v@)) by {
                assert(!is_ascii_digit(v@[k as int]));
            }
            return None;
        }
        let d = (c as u32) - ('0' as u32);
        assert(v@.take(k + 1).drop_last() =~= v@.take(k as int));
        proof {
            crate::text::lemma_pow10_step(k as nat);
        }
        n = n * 10 + d;
        k = k + 1;
    }
    assert(v@.take(v@.len() as int) =~= v@);
    Some(n)
}

/// Checks a finished-video name against `{date}_{title}_{resolution}_{purpose}_{version}`
/// (the extension, if any, is ignored) and returns its parts, or the reason it does not
/// match.
pub fn validate_final_video_name(name: &str) -> (r: Result<FinalVideoName, String>)
    ensures
        match r {
            Ok(f) => final_video_parts(name@) == Some(
                (f.date@, f.title@, f.resolution@, f.purpose@, f.version@),
            ) && f.is_preview == is_preview_resolution(f.resolution@),
            Err(e) => final_video_parts(name@) is None && e@ == final_video_error(),
        },
{
    let v = chars_of(name);
    let stem: Vec<char> = match rfind_char(v.as_slice(), '.') {
        Some(i) if i > 0 => slice_range(v.as_slice(), 0, i),
        _ => slice_range(v.as_slice(), 0, v.len()),
    };
    assert(stem@ == name_stem(name@)) by {
        assert(v@.subrange(0, v@.len() as int) =~= v@);
        if last_index(v@, '.') > 0 {
            assert(v@.subrange(0, last_index(v@, '.')) =~= v@.take(last_index(v@, '.')));
        }
    }
    let err = "命名不符合规范：应形如 时间日期_片名_分辨率_用途_版本（如 20260824_花絮_4K_交付_V01）".to_owned();
    if !(stem.len() >= 9 && all_digits_in(stem.as_slice(), 0, 8) && stem[8] == '_') {
        proof {
            if stem@.len() >= 9 {
                assert(stem@.subrange(0, 8) =~= stem@.take(8));
            }
        }
        return Err(err);
    }
    assert(stem@.subrange(0, 8) =~= stem@.take(8));
    let n = stem.len();
    let mut t: usize = 10;
    while t < n
        invariant
            stem@.len() == n,
            head_ok(stem@),
            stem@ == name_stem(name@),
            10 <= t,
            first_title_end(stem@, 10) == first_title_end(stem@, t as int),
        decreases n - t,
    {
        if stem[t] == '_' && no_newline_in(stem.as_slice(), 9, t) {
            let rest = slice_range(stem.as_slice(), t + 1, n);
            assert(rest@ =~= stem@.skip(t + 1));
            match split_tail(rest.as_slice()) {
                Some((res, purpose, version)) => {
                    let date = string_of(slice_range(stem.as_slice(), 0, 8).as_slice());
                    let title = string_of(slice_range(stem.as_slice(), 9, t).as_slice());
                    let is_preview = res.len() >= 1 && res[res.len() - 1] == 'p'
                        && res.len() - 1 >= 1 && match ascii_value_of(
                        slice_range(res.as_slice(), 0, res.len() - 1).as_slice(),
                    ) {
                        Some(x) => x < 1080,
                        None => false,
                    };
                    proof {
                        if res@.len() >= 1 {
                            assert(res@.subrange(0, res@.len() - 1) =~= res@.drop_last());
                        }
                    }
                    assert(stem@.subrange(0, 8) =~= stem@.take(8));
                    assert(title_end_ok(stem@, t as int));
                    assert(first_title_end(stem@, t as int) == Some(t as int));
                    assert(is_preview == is_preview_resolution(res@));
                    assert(head_ok(stem@));
                    assert(tail_parts(stem@.skip(t + 1)) == Some((res@, purpose@, version@)));
                    assert(final_video_parts(name@) == Some(
                        (date@, title@, res@, purpose@, version@),
                    ));
                    let f = FinalVideoName {
                        date,
                        title,
                        resolution: string_of(res.as_slice()),
                        purpose: string_of(purpose.as_slice()),
                        version: string_of(version.as_slice()),
                        is_preview,
                    };
                    return Ok(f);
                },
                None => {},
            }
        }
        t = t + 1;
    }
    Err(err)
}

/// No `_`, `.` or line feed: a part of a finished-video name between separators.
pub open spec fn plain_part(s: Seq<char>) -> bool {
    forall|k: int| 0 <= k < s.len() ==> #[trigger] s[k] != '_' && s[k] != '.' && s[k] != '\n'
}

/// A resolution token the naming rule lists: `UHD`, `HD`, `SD`, `2K`, `4K`, `8K`, or
/// three or four `\d` digits followed by `p`.
pub open spec fn listed_resolution(res: Seq<char>) -> bool {
    ||| res == "UHD"@
    ||| res == "HD"@
    ||| res == "SD"@
    ||| res == "2K"@
    ||| res == "4K"@
    ||| res == "8K"@
    ||| ((res.len() == 4 || res.len() == 5) && res.last() == 'p' && all_decimal_digits(res.drop_last()))
}

/// The resolutions a finished-video name may carry are exactly the listed tokens:
/// `UHD`, `HD`, `SD`, `2K`, `4K`, `8K`, and three or four `\d` digits then `p`.
pub proof fn lemma_listed_resolution(res: Seq<char>)
    ensures
        is_resolution(res) <==> listed_resolution(res),
{
    reveal_strlit("UHD");
    reveal_strlit("HD");
    reveal_strlit("SD");
    reveal_strlit("2K");
    reveal_strlit("4K");
    reveal_strlit("8K");
    assert("UHD"@ =~= seq!['U', 'H', 'D']);
    assert("HD"@ =~= seq!['H', 'D']);
    assert("SD"@ =~= seq!['S', 'D']);
    assert("2K"@ =~= seq!['2', 'K']);
    assert("4K"@ =~= seq!['4', 'K']);
    assert("8K"@ =~= seq!['8', 'K']);
}

proof fn lemma_first_title_end_at(stem: Seq<char>, t: int, t0: int)
    requires
        10 <= t <= t0 < stem.len(),
        title_end_ok(stem, t0),
        forall|k: int| t <= k < t0 ==> #[trigger] stem[k] != '_',
    ensures
        first_title_end(stem, t) == Some(t0),
    decreases t0 - t,
{
    if t < t0 {
        assert(stem[t] != '_');
        lemma_first_title_end_at(stem, t + 1, t0);
    }
}

proof fn lemma_tail_parts_of(res: Seq<char>, purpose: Seq<char>, num: Seq<char>)
    requires
        listed_resolution(res) && plain_part(res),
        purpose.len() > 0 && plain_part(purpose),
        num.len() > 0 && all_decimal_digits(num) && plain_part(num),
    ensures
        tail_parts(res + seq!['_'] + purpose + seq!['_'] + (seq!['V'] + num)) == Some(
            (res, purpose, seq!['V'] + num),
        ),
{
    let v = seq!['V'] + num;
    let rest = res + seq!['_'] + purpose + seq!['_'] + v;
    assert forall|j: int| 0 <= j < res.len() implies rest[j] != '_' by {
        assert(rest[j] == res[j]);
    }
    crate::text::lemma_first_index(rest, '_', res.len() as int);
    let after = rest.skip(res.len() as int + 1);
    assert(after =~= purpose + seq!['_'] + v);
    let w = purpose.len() as int;
    assert forall|j: int| w < j < after.len() implies after[j] != '_' by {
        if j > w + 1 {
            assert(after[j] == num[j - w - 2]);
        }
    }
    crate::text::lemma_last_index(after, '_', w);
    assert(rest.take(res.len() as int) =~= res);
    assert(after.take(w) =~= purpose);
    assert(after.skip(w + 1) =~= v);
    assert(v.drop_first() =~= num);
    assert(is_version(v));
    assert forall|k: int| 0 <= k < purpose.len() implies #[trigger] purpose[k] != '\n' by {
        assert(purpose[k] != '_' && purpose[k] != '.' && purpose[k] != '\n');
    }
    assert(no_newline(purpose));
    lemma_listed_resolution(res);
    assert(tail_parts(rest) == Some((res, purpose, v)));
}

/// Whatever name is accepted carries one of the listed resolution tokens.
pub proof fn lemma_accepted_resolution_listed(name: Seq<char>)
    ensures
        final_video_parts(name) matches Some(p) ==> listed_resolution(p.2),
{
    let stem = name_stem(name);
    if head_ok(stem) {
        if let Some(t) = first_title_end(stem, 10) {
            lemma_first_title_end_ok(stem, 10);
            let (r, p, v) = tail_parts(stem.skip(t + 1)).unwrap();
            lemma_listed_resolution(r);
        }
    }
}

proof fn lemma_first_title_end_ok(stem: Seq<char>, t: int)
    ensures
        first_title_end(stem, t) matches Some(e) ==> title_end_ok(stem, e),
    decreases stem.len() - t,
{
    if t < stem.len() && !title_end_ok(stem, t) {
        lemma_first_title_end_ok(stem, t + 1);
    }
}

/// A name `{date}_{title}_{resolution}_{purpose}_V{number}.{extension}` is accepted
/// for every resolution token the rule lists, with its parts given back as they
/// were written: date eight `\d` digits, title and purpose non-empty, the version
/// number one or more `\d` digits, and no part holding `_`, `.` or a line feed.
#[verifier::rlimit(50)]
pub proof fn lemma_final_video_name_accepted(
    date: Seq<char>,
    title: Seq<char>,
    res: Seq<char>,
    purpose: Seq<char>,
    num: Seq<char>,
    ext: Seq<char>,
)
    requires
        date.len() == 8 && all_decimal_digits(date) && plain_part(date),
        title.len() > 0 && plain_part(title),
        listed_resolution(res) && plain_part(res),
        purpose.len() > 0 && plain_part(purpose),
        num.len() > 0 && all_decimal_digits(num) && plain_part(num),
        plain_part(ext),
    ensures
        final_video_parts(
            date + seq!['_'] + title + seq!['_'] + res + seq!['_'] + purpose + seq!['_', 'V'] + num
                + seq!['.'] + ext,
        ) == Some((date, title, res, purpose, seq!['V'] + num)),
{
    let stem = date + seq!['_'] + title + seq!['_'] + res + seq!['_'] + purpose + seq!['_', 'V'] + num;
    let name = stem + seq!['.'] + ext;
    let n = stem.len() as int;
    // The extension is cut at the last dot.
    assert forall|j: int| n < j < name.len() implies name[j] != '.' by {
        assert(name[j] == ext[j - n - 1]);
    }
    crate::text::lemma_last_index(name, '.', n);
    assert(name_stem(name) =~= stem);
    // The date.
    assert(stem.take(8) =~= date);
    assert(stem[8] == '_');
    assert(head_ok(stem));
    // The title ends at the first `_` after it.
    let t0: int = 9 + title.len() as int;
    assert forall|k: int| 10 <= k < t0 implies #[trigger] stem[k] != '_' by {
        assert(stem[k] == title[k - 9]);
    }
    assert(stem[t0] == '_');
    assert(stem.subrange(9, t0) =~= title);
    assert forall|k: int| 0 <= k < title.len() implies #[trigger] title[k] != '\n' by {
        assert(title[k] != '_' && title[k] != '.' && title[k] != '\n');
    }
    let rest = stem.skip(t0 + 1);
    let v = seq!['V'] + num;
    assert(rest =~= res + seq!['_'] + purpose + seq!['_'] + v);
    lemma_tail_parts_of(res, purpose, num);
    assert(tail_parts(rest) == Some((res, purpose, v)));
    assert(no_newline(stem.subrange(9, t0)));
    assert(title_end_ok(stem, t0));
    lemma_first_title_end_at(stem, 10, t0);
}

} // verus!
