//! Workstation settings: the NAS root, the operator and the machine id, kept in
//! `{config dir}/ocard/config.json`.
use vstd::prelude::*;
use crate::paths::{join, path_join};
use crate::text::{chars_of, push_char, is_ascii_alnum, ascii_alnum, hex, hex_string, pad_left, trim, trim_str, string_of, digits, digit_char};
use crate::transcode::Platform;

verus! {

broadcast use vstd::string::group_string_axioms;

/// The settings of one workstation.
#[derive(Debug, Clone, PartialEq)]
pub struct AppConfig {
    /// The NAS root (mount point, drive or UNC path) where projects live.
    pub nas_root: String,
    /// The DIT operator currently registered.
    pub operator: String,
    /// This workstation's id; each workstation writes its own audit log.
    pub machine_id: String,
    /// Camera code offered by default when copying a card.
    pub default_camera_code: Option<String>,
}

impl AppConfig {
    /// The settings of a fresh workstation with the given machine id: no NAS root,
    /// operator `DIT`.
    pub fn with_machine_id(machine_id: String) -> (r: AppConfig)
        ensures
            r.nas_root@ == Seq::<char>::empty(),
            r.operator@ == "DIT"@,
            r.machine_id == machine_id,
            r.default_camera_code is None,
    {
        AppConfig { nas_root: String::new(), operator: "DIT".to_owned(), machine_id, default_camera_code: None }
    }

    /// Applies the settings form: a NAS root or operator that is not blank replaces
    /// the current one, trimmed.
    pub fn apply_settings(&mut self, nas_root: &str, operator: &str)
        ensures
            final(self).nas_root@ == (if trim(nas_root@).len() > 0 { trim(nas_root@) } else { old(self).nas_root@ }),
            final(self).operator@ == (if trim(operator@).len() > 0 { trim(operator@) } else { old(self).operator@ }),
            final(self).machine_id == old(self).machine_id,
            final(self).default_camera_code == old(self).default_camera_code,
    {
        let n = trim_str(nas_root);
        if n.len() > 0 {
            self.nas_root = string_of(n.as_slice());
        }
        let o = trim_str(operator);
        if o.len() > 0 {
            self.operator = string_of(o.as_slice());
        }
    }
}

/// Characters kept in a host name: ASCII letters, digits and `-`.
pub open spec fn host_char(c: char) -> bool {
    is_ascii_alnum(c) || c == '-'
}

/// The characters of `s` that `keep` accepts, in order, at most `cap` of them.
pub open spec fn kept_chars(s: Seq<char>, keep: spec_fn(char) -> bool, cap: nat) -> Seq<char>
    decreases s.len(),
{
    if s.len() == 0 {
        Seq::empty()
    } else {
        let k = kept_chars(s.drop_last(), keep, cap);
        if keep(s.last()) && k.len() < cap {
            k.push(s.last())
        } else {
            k
        }
    }
}

/// Characters kept in a file-name slug: ASCII letters, digits, `-` and `_`.
pub open spec fn slug_char(c: char) -> bool {
    is_ascii_alnum(c) || c == '-' || c == '_'
}

/// The kept characters of `s`, at most `cap`, with `_` allowed when `underscore`.
fn kept(s: &str, underscore: bool, cap: usize) -> (r: String)
    ensures
        r@ == kept_chars(s@, if underscore { |c: char| slug_char(c) } else { |c: char| host_char(c) }, cap as nat),
{
    let ghost keep = if underscore { |c: char| slug_char(c) } else { |c: char| host_char(c) };
    let v = chars_of(s);
    let mut r = String::new();
    let mut count: usize = 0;
    let mut i: usize = 0;
    while i < v.len()
        invariant
            i <= v@.len(),
            v@ == s@,
            keep == (if underscore { |c: char| slug_char(c) } else { |c: char| host_char(c) }),
            r@ == kept_chars(v@.take(i as int), keep, cap as nat),
            count == r@.len(),
            count <= cap,
        decreases v@.len() - i,
    {
        let c = v[i];
        let ok = ascii_alnum(c) || c == '-' || (underscore && c == '_');
        assert(v@.take(i + 1).drop_last() =~= v@.take(i as int));
        assert(v@.take(i + 1).last() == c);
        if ok && count < cap {
            push_char(&mut r, c);
            count = count + 1;
        }
        i = i + 1;
    }
    assert(v@.take(v@.len() as int) =~= v@);
    r
}

/// A host name reduced to ASCII letters, digits and `-`, at most 16 characters.
pub fn sanitize_host(h: &str) -> (r: String)
    ensures
        r@ == kept_chars(h@, |c: char| host_char(c), 16),
{
    kept(h, false, 16)
}

/// A label reduced to ASCII letters, digits, `-` and `_`, at most 32 characters,
/// for use in a file name.
pub fn sanitize_slug(s: &str) -> (r: String)
    ensures
        r@ == kept_chars(s@, |c: char| slug_char(c), 32),
{
    kept(s, true, 32)
}

/// The xorshift scramble of a clock reading used for machine-id suffixes.
pub open spec fn scramble(nanos: u32) -> u32 {
    let x0 = nanos ^ 0x9E37_79B9u32;
    let x1 = x0 ^ (x0 << 13u32);
    let x2 = x1 ^ (x1 >> 17u32);
    x2 ^ (x2 << 5u32)
}

/// The machine-id suffix for a sub-second clock reading: its xorshift scramble.
pub fn rand_u32(nanos: u32) -> (r: u32)
    ensures
        r == scramble(nanos),
{
    let mut x: u32 = nanos ^ 0x9E37_79B9u32;
    x = x ^ (x << 13u32);
    x = x ^ (x >> 17u32);
    x = x ^ (x << 5u32);
    x
}

/// The host name used for a machine id: `COMPUTERNAME`, else `HOSTNAME`, else `ws`.
pub open spec fn host_of(computername: Option<Seq<char>>, hostname: Option<Seq<char>>) -> Seq<char> {
    match computername {
        Some(c) => c,
        None => match hostname {
            Some(h) => h,
            None => "ws"@,
        },
    }
}

pub open spec fn opt_view(o: Option<&str>) -> Option<Seq<char>> {
    match o {
        Some(s) => Some(s@),
        None => None,
    }
}

/// `{host}-{:04x}`: the sanitised host name, `-`, and the scrambled sub-second
/// clock reading in at least four hex digits.
pub open spec fn machine_id_text(host: Seq<char>, nanos: u32) -> Seq<char> {
    kept_chars(host, |c: char| host_char(c), 16) + seq!['-'] + pad_left(hex(scramble(nanos) as nat), 4, '0')
}

/// A machine id for this host (`COMPUTERNAME`, else `HOSTNAME`, else `ws`) and a
/// sub-second clock reading.
pub fn default_machine_id(computername: Option<&str>, hostname: Option<&str>, nanos: u32) -> (r: String)
    ensures
        r@ == machine_id_text(host_of(opt_view(computername), opt_view(hostname)), nanos),
{
    let host = match computername {
        Some(c) => c,
        None => match hostname {
            Some(h) => h,
            None => "ws",
        },
    };
    let mut r = sanitize_host(host);
    push_char(&mut r, '-');
    let suffix = hex_string(rand_u32(nanos) as u64, 4);
    r.append(suffix.as_str());
    r
}

/// The base configuration directory: `%APPDATA%` on Windows,
/// `$HOME/Library/Application Support` on macOS, `$XDG_CONFIG_HOME` or
/// `$HOME/.config` on other Unix systems.
pub open spec fn config_base_of(os: Platform, appdata: Option<Seq<char>>, home: Option<Seq<char>>, xdg: Option<Seq<char>>) -> Option<Seq<char>> {
    match os {
        Platform::Windows => appdata,
        Platform::MacOs => match home {
            Some(h) => Some(path_join(h, "Library/Application Support"@)),
            None => None,
        },
        Platform::OtherUnix => match xdg {
            Some(x) => Some(x),
            None => match home {
                Some(h) => Some(path_join(h, ".config"@)),
                None => None,
            },
        },
        Platform::Other => None,
    }
}

/// The base configuration directory for the platform, from the environment values
/// `APPDATA`, `HOME` and `XDG_CONFIG_HOME`.
pub fn config_base_dir(os: Platform, appdata: Option<&str>, home: Option<&str>, xdg_config_home: Option<&str>) -> (r: Option<String>)
    ensures
        match r {
            Some(s) => config_base_of(os, opt_view(appdata), opt_view(home), opt_view(xdg_config_home)) == Some(s@),
            None => config_base_of(os, opt_view(appdata), opt_view(home), opt_view(xdg_config_home)) is None,
        },
{
    match os {
        Platform::Windows => match appdata {
            Some(a) => Some(a.to_owned()),
            None => None,
        },
        Platform::MacOs => match home {
            Some(h) => Some(join(h, "Library/Application Support")),
            None => None,
        },
        Platform::OtherUnix => match xdg_config_home {
            Some(x) => Some(x.to_owned()),
            None => match home {
                Some(h) => Some(join(h, ".config")),
                None => None,
            },
        },
        Platform::Other => None,
    }
}

/// The configuration file: `{base}/ocard/config.json`, with `.` when there is no
/// base directory.
pub fn config_file_path(base: Option<&str>) -> (r: String)
    ensures
        r@ == path_join(path_join(match base { Some(b) => b@, None => "."@ }, "ocard"@), "config.json"@),
{
    let b = match base {
        Some(b) => b,
        None => ".",
    };
    let dir = join(b, "ocard");
    join(dir.as_str(), "config.json")
}

proof fn lemma_kept_chars(s: Seq<char>, keep: spec_fn(char) -> bool, cap: nat)
    ensures
        kept_chars(s, keep, cap).len() <= cap,
        forall|i: int| 0 <= i < kept_chars(s, keep, cap).len() ==> keep(#[trigger] kept_chars(s, keep, cap)[i]),
    decreases s.len(),
{
    if s.len() > 0 {
        lemma_kept_chars(s.drop_last(), keep, cap);
        let k = kept_chars(s.drop_last(), keep, cap);
        if keep(s.last()) && k.len() < cap {
            assert forall|i: int| 0 <= i < k.push(s.last()).len() implies keep(#[trigger] k.push(s.last())[i]) by {
                if i < k.len() {
                    assert(k.push(s.last())[i] == k[i]);
                }
            }
        }
    }
}

proof fn lemma_digits_alnum(n: nat, b: nat)
    requires
        2 <= b <= 16,
    ensures
        forall|i: int| 0 <= i < digits(n, b).len() ==> is_ascii_alnum(#[trigger] digits(n, b)[i]),
    decreases n,
{
    if n < b {
        assert(digits(n, b) == seq![digit_char(n)]);
    } else {
        assert(n / b < n) by (nonlinear_arith)
            requires
                n >= b,
                b >= 2,
        ;
        lemma_digits_alnum(n / b, b);
        let d = digits(n / b, b);
        assert(digits(n, b) == d.push(digit_char(n % b)));
        assert forall|i: int| 0 <= i < d.push(digit_char(n % b)).len() implies is_ascii_alnum(#[trigger] d.push(digit_char(n % b))[i]) by {
            if i < d.len() {
                assert(d.push(digit_char(n % b))[i] == d[i]);
            }
        }
    }
}

/// A machine id holds only ASCII letters, digits and `-`, so it is safe in a file
/// name on every platform; its host part has at most 16 characters.
pub proof fn lemma_machine_id_charset(host: Seq<char>, nanos: u32)
    ensures
        forall|i: int| 0 <= i < machine_id_text(host, nanos).len() ==> host_char(#[trigger] machine_id_text(host, nanos)[i]),
        kept_chars(host, |c: char| host_char(c), 16).len() <= 16,
{
    let k = kept_chars(host, |c: char| host_char(c), 16);
    lemma_kept_chars(host, |c: char| host_char(c), 16);
    let h = hex(scramble(nanos) as nat);
    lemma_digits_alnum(scramble(nanos) as nat, 16);
    let p = pad_left(h, 4, '0');
    assert forall|i: int| 0 <= i < p.len() implies host_char(#[trigger] p[i]) by {
        if h.len() < 4 {
            let pad = Seq::new((4 - h.len()) as nat, |_i: int| '0');
            assert(p == pad + h);
            if i >= pad.len() {
                assert(p[i] == h[i - pad.len()]);
            }
        }
    }
    let m = machine_id_text(host, nanos);
    assert forall|i: int| 0 <= i < m.len() implies host_char(#[trigger] m[i]) by {
        if i < k.len() {
            assert(m[i] == k[i]);
        } else if i > k.len() {
            assert(m[i] == p[i - k.len() - 1]);
        }
    }
}

} // verus!
