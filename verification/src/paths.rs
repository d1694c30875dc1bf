//! File-system paths as text, and the calls into `std::path` that the library
//! makes. Paths here are always valid UTF-8 (they are built from `str`).
use vstd::prelude::*;

verus! {

broadcast use vstd::string::group_string_axioms;

/// What `Path::new(base).join(part)` gives, as text.
pub uninterp spec fn path_join(base: Seq<char>, part: Seq<char>) -> Seq<char>;

/// What `Path::new(path).strip_prefix(prefix)` gives, as text (`None` on error).
pub uninterp spec fn path_strip_prefix(path: Seq<char>, prefix: Seq<char>) -> Option<Seq<char>>;

/// What `Path::new(a) == Path::new(b)` gives (paths compare by components).
pub uninterp spec fn path_eq(a: Seq<char>, b: Seq<char>) -> bool;

/// `Path::join`. The result is named by `path_join`; nothing more is claimed of it.
#[verifier::external_body]
pub(crate) fn join(base: &str, part: &str) -> (r: String)
    ensures
        r@ == path_join(base@, part@),
{
    std::path::Path::new(base).join(part).to_string_lossy().into_owned()
}

/// `Path::strip_prefix`. The result is named by `path_strip_prefix`; nothing more
/// is claimed of it.
#[verifier::external_body]
pub(crate) fn strip_prefix(path: &str, prefix: &str) -> (r: Option<String>)
    ensures
        match r {
            Some(s) => path_strip_prefix(path@, prefix@) == Some(s@),
            None => path_strip_prefix(path@, prefix@) is None,
        },
{
    match std::path::Path::new(path).strip_prefix(prefix) {
        Ok(p) => Some(p.to_string_lossy().into_owned()),
        Err(_) => None,
    }
}

/// The text holds no path separator (`/`, `\\`) and no `:` (which starts a drive
/// prefix on Windows): as a path it is at most one component.
pub open spec fn single_component(s: Seq<char>) -> bool {
    forall|i: int| 0 <= i < s.len() ==> #[trigger] s[i] != '/' && s[i] != '\\' && s[i] != ':'
}

/// `Path == Path`. The result is named by `path_eq`. Paths compare by their
/// components, so: a path equals itself; equality is symmetric (`Path` is `Eq`);
/// and texts that are each at most one component are equal paths exactly when they
/// are equal texts.
#[verifier::external_body]
pub(crate) fn paths_equal(a: &str, b: &str) -> (r: bool)
    ensures
        r == path_eq(a@, b@),
        r == path_eq(b@, a@),
        a@ == b@ ==> r,
        single_component(a@) && single_component(b@) ==> (r <==> a@ == b@),
{
    std::path::Path::new(a) == std::path::Path::new(b)
}

/// `s` with every `\` turned into `/`.
pub open spec fn forward_slashes(s: Seq<char>) -> Seq<char> {
    s.map_values(|c: char| if c == '\\' { '/' } else { c })
}

/// Replaces `\` by `/`.
pub fn to_forward_slashes(s: &str) -> (r: String)
    ensures
        r@ == forward_slashes(s@),
{
    let v = crate::text::chars_of(s);
    let mut out: Vec<char> = Vec::new();
    let mut i: usize = 0;
    while i < v.len()
        invariant
            i <= v@.len(),
            out@ == forward_slashes(v@.take(i as int)),
        decreases v@.len() - i,
    {
        let c = v[i];
        out.push(if c == '\\' { '/' } else { c });
        assert(out@ =~= forward_slashes(v@.take(i + 1)));
        i = i + 1;
    }
    assert(v@.take(v@.len() as int) =~= v@);
    crate::text::string_of(out.as_slice())
}

/// What `Path::new(p).file_name()` gives, as text.
pub uninterp spec fn path_file_name(p: Seq<char>) -> Option<Seq<char>>;

/// `Path::file_name`. The result is named by `path_file_name`; nothing more is
/// claimed of it.
#[verifier::external_body]
pub(crate) fn file_name(p: &str) -> (r: Option<String>)
    ensures
        match r {
            Some(s) => path_file_name(p@) == Some(s@),
            None => path_file_name(p@) is None,
        },
{
    std::path::Path::new(p).file_name().map(|n| n.to_string_lossy().into_owned())
}

/// The file name of `p`, or the empty text when it has none.
pub open spec fn file_name_or_empty(p: Seq<char>) -> Seq<char> {
    match path_file_name(p) {
        Some(n) => n,
        None => Seq::empty(),
    }
}

/// `file_name` with the empty text for a path that has none.
pub fn file_name_or_default(p: &str) -> (r: String)
    ensures
        r@ == file_name_or_empty(p@),
{
    match file_name(p) {
        Some(n) => n,
        None => String::new(),
    }
}

} // verus!
