//! Removable volumes, and the insert / remove events between two scans of them.
use vstd::prelude::*;
use crate::paths::{path_eq, paths_equal, path_file_name, file_name};
use crate::text::{
    is_white_space, white_space, chars_of, string_of, slice_range, contains_text, contains_str,
    to_lower, unicode_lower, find_from, find_text_from, first_index, find_char, split_char,
    split_chars, drop_last_while, parse_u64_of, parse_u64,
};

verus! {

/// A mounted removable volume.
#[derive(Debug, Clone, PartialEq)]
pub struct Volume {
    /// Label or display name.
    pub name: String,
    /// Mount point (a drive such as `E:` on Windows).
    pub mount_point: String,
    /// Device node such as `/dev/sdb1`, when known.
    pub device: Option<String>,
    pub total_bytes: u64,
    pub available_bytes: u64,
}

/// A volume that appeared or went away.
#[derive(Debug, Clone, PartialEq)]
pub enum VolumeEvent {
    Inserted(Volume),
    Removed { name: String, mount_point: String },
}

/// Some volume of `vs` is mounted at `mp` (paths compared as paths).
pub open spec fn mounted_in(vs: Seq<Volume>, mp: Seq<char>) -> bool {
    exists|k: int| 0 <= k < vs.len() && path_eq(#[trigger] vs[k].mount_point@, mp)
}

/// One `Inserted` event per volume of `after`, in order, whose mount point is not
/// in `before`.
pub open spec fn inserted_events(before: Seq<Volume>, after: Seq<Volume>) -> Seq<VolumeEvent>
    decreases after.len(),
{
    if after.len() == 0 {
        Seq::empty()
    } else {
        let rest = inserted_events(before, after.drop_last());
        let v = after.last();
        if mounted_in(before, v.mount_point@) {
            rest
        } else {
            rest.push(VolumeEvent::Inserted(v))
        }
    }
}

/// One `Removed` event per volume of `before`, in order, whose mount point is not
/// in `after`.
pub open spec fn removed_events(before: Seq<Volume>, after: Seq<Volume>) -> Seq<VolumeEvent>
    decreases before.len(),
{
    if before.len() == 0 {
        Seq::empty()
    } else {
        let rest = removed_events(before.drop_last(), after);
        let b = before.last();
        if mounted_in(after, b.mount_point@) {
            rest
        } else {
            rest.push(VolumeEvent::Removed { name: b.name, mount_point: b.mount_point })
        }
    }
}

/// Whether some volume of `vs` is mounted at `mp`.
fn is_mounted(vs: &[Volume], mp: &str) -> (r: bool)
    ensures
        r == mounted_in(vs@, mp@),
        (exists|k: int| 0 <= k < vs@.len() && #[trigger] vs@[k].mount_point@ == mp@) ==> r,
{
    let mut k: usize = 0;
    while k < vs.len()
        invariant
            k <= vs@.len(),
            forall|t: int| 0 <= t < k ==> !path_eq(#[trigger] vs@[t].mount_point@, mp@),
            forall|t: int| 0 <= t < k ==> (#[trigger] vs@[t]).mount_point@ != mp@,
        decreases vs@.len() - k,
    {
        if paths_equal(vs[k].mount_point.as_str(), mp) {
            return true;
        }
        k = k + 1;
    }
    false
}

fn dup_volume(v: &Volume) -> (r: Volume)
    ensures
        r == *v,
{
    let device = match &v.device {
        Some(d) => Some(d.clone()),
        None => None,
    };
    Volume {
        name: v.name.clone(),
        mount_point: v.mount_point.clone(),
        device,
        total_bytes: v.total_bytes,
        available_bytes: v.available_bytes,
    }
}

/// The events between two scans: first each volume of `after` not mounted before
/// (in `after`'s order), then each volume of `before` no longer mounted (in
/// `before`'s order). Two identical scans give no event.
pub fn diff_volumes(before: &[Volume], after: &[Volume]) -> (r: Vec<VolumeEvent>)
    ensures
        r@ == inserted_events(before@, after@) + removed_events(before@, after@),
        before@ == after@ ==> r@.len() == 0,
{
    let mut events: Vec<VolumeEvent> = Vec::new();
    let mut i: usize = 0;
    while i < after.len()
        invariant
            i <= after@.len(),
            events@ == inserted_events(before@, after@.take(i as int)),
            before@ == after@ ==> events@.len() == 0,
        decreases after@.len() - i,
    {
        let v = &after[i];
        let found = is_mounted(before, v.mount_point.as_str());
        proof {
            assert(after@.take(i + 1).drop_last() =~= after@.take(i as int));
            if before@ == after@ {
                assert(before@[i as int].mount_point@ == v.mount_point@);
            }
        }
        if !found {
            events.push(VolumeEvent::Inserted(dup_volume(v)));
        }
        i = i + 1;
    }
    assert(after@.take(after@.len() as int) =~= after@);
    let ghost ins = events@;
    let mut j: usize = 0;
    while j < before.len()
        invariant
            j <= before@.len(),
            ins == inserted_events(before@, after@),
            events@ == ins + removed_events(before@.take(j as int), after@),
            before@ == after@ ==> events@.len() == 0,
        decreases before@.len() - j,
    {
        let b = &before[j];
        let found = is_mounted(after, b.mount_point.as_str());
        proof {
            assert(before@.take(j + 1).drop_last() =~= before@.take(j as int));
            if before@ == after@ {
                assert(after@[j as int].mount_point@ == b.mount_point@);
            }
        }
        if !found {
            events.push(VolumeEvent::Removed { name: b.name.clone(), mount_point: b.mount_point.clone() });
            assert(events@ =~= ins + removed_events(before@.take(j + 1), after@));
        } else {
            assert(events@ =~= ins + removed_events(before@.take(j + 1), after@));
        }
        j = j + 1;
    }
    assert(before@.take(before@.len() as int) =~= before@);
    events
}

// ---------------------------------------------------------------------------
// The Linux mount table
// ---------------------------------------------------------------------------

/// The first index from `i` on that does not hold white space (or the end).
pub open spec fn ws_end(s: Seq<char>, i: int) -> int
    decreases s.len() - i,
{
    if i < 0 || i >= s.len() || !is_white_space(s[i]) {
        i
    } else {
        ws_end(s, i + 1)
    }
}

/// The first index from `i` on that holds white space (or the end).
pub open spec fn field_end(s: Seq<char>, i: int) -> int
    decreases s.len() - i,
{
    if i < 0 || i >= s.len() || is_white_space(s[i]) {
        i
    } else {
        field_end(s, i + 1)
    }
}

/// The first two white-space separated fields of a line, when it has two.
pub open spec fn first_two_fields(s: Seq<char>) -> Option<(Seq<char>, Seq<char>)> {
    let a = ws_end(s, 0);
    let b = field_end(s, a);
    let c = ws_end(s, b);
    let d = field_end(s, c);
    if b > a && d > c {
        Some((s.subrange(a, b), s.subrange(c, d)))
    } else {
        None
    }
}

pub open spec fn starts_with(s: Seq<char>, p: Seq<char>) -> bool {
    s.len() >= p.len() && s.take(p.len() as int) == p
}

/// A mount point where removable media are mounted.
pub open spec fn removable_mount_point(mp: Seq<char>) -> bool {
    starts_with(mp, "/media/"@) || starts_with(mp, "/run/media/"@) || starts_with(mp, "/mnt/"@)
}

/// A real device node (a path, and not a loop device).
pub open spec fn real_device(dev: Seq<char>) -> bool {
    starts_with(dev, "/"@) && !starts_with(dev, "/dev/loop"@)
}

/// The volume a line of `/proc/mounts` describes, as `(name, mount point,
/// device)`: the device and mount point are the first two fields; only real
/// devices under `/media/`, `/run/media/` or `/mnt/` count; the name is the mount
/// point's last component (the mount point itself when it has none).
pub open spec fn linux_mount_of(line: Seq<char>) -> Option<(Seq<char>, Seq<char>, Seq<char>)> {
    match first_two_fields(line) {
        Some((dev, mp)) => if removable_mount_point(mp) && real_device(dev) {
            Some(
                (
                    match path_file_name(mp) {
                        Some(n) => n,
                        None => mp,
                    },
                    mp,
                    dev,
                ),
            )
        } else {
            None
        },
        None => None,
    }
}

proof fn lemma_field_end_at(s: Seq<char>, i: int, j: int)
    requires
        0 <= i <= j <= s.len(),
        forall|k: int| i <= k < j ==> !is_white_space(#[trigger] s[k]),
        j == s.len() || is_white_space(s[j]),
    ensures
        field_end(s, i) == j,
    decreases j - i,
{
    if i < j {
        lemma_field_end_at(s, i + 1, j);
    }
}

proof fn lemma_ws_end_at(s: Seq<char>, i: int, j: int)
    requires
        0 <= i <= j <= s.len(),
        forall|k: int| i <= k < j ==> is_white_space(#[trigger] s[k]),
        j == s.len() || !is_white_space(s[j]),
    ensures
        ws_end(s, i) == j,
    decreases j - i,
{
    if i < j {
        lemma_ws_end_at(s, i + 1, j);
    }
}

/// No character is white space.
pub open spec fn no_white_space(s: Seq<char>) -> bool {
    forall|k: int| 0 <= k < s.len() ==> !is_white_space(#[trigger] s[k])
}

/// A card is detected from its mount-table line: a line that starts with a device
/// node under `/dev/` other than a loop device, then white space, then a mount
/// point under `/media/`, `/run/media/` or `/mnt/` (then white space and the other
/// fields, or nothing) describes a removable volume with that mount point and that
/// device.
pub proof fn lemma_linux_card_detected(dev: Seq<char>, mp: Seq<char>, rest: Seq<char>)
    requires
        dev.len() > 5 && dev.take(5) == "/dev/"@,
        !(dev.len() >= 9 && dev.take(9) == "/dev/loop"@),
        no_white_space(dev),
        no_white_space(mp),
        (mp.len() > 7 && mp.take(7) == "/media/"@) || (mp.len() > 11 && mp.take(11) == "/run/media/"@)
            || (mp.len() > 5 && mp.take(5) == "/mnt/"@),
        rest.len() == 0 || is_white_space(rest[0]),
    ensures
        linux_mount_of(dev + seq![' '] + mp + rest) matches Some(v) && v.1 == mp && v.2 == dev,
{
    reveal_strlit("/dev/");
    reveal_strlit("/dev/loop");
    reveal_strlit("/media/");
    reveal_strlit("/run/media/");
    reveal_strlit("/mnt/");
    reveal_strlit("/");
    let line = dev + seq![' '] + mp + rest;
    let n = dev.len() as int;
    let m = mp.len() as int;
    assert(line[0] == dev[0]);
    assert(dev[0] == '/') by {
        assert(dev.take(5)[0] == '/');
    }
    assert(mp[0] == '/') by {
        if mp.len() > 7 && mp.take(7) == "/media/"@ {
            assert(mp.take(7)[0] == '/');
        } else if mp.len() > 11 && mp.take(11) == "/run/media/"@ {
            assert(mp.take(11)[0] == '/');
        } else {
            assert(mp.take(5)[0] == '/');
        }
    }
    lemma_ws_end_at(line, 0, 0);
    assert forall|k: int| 0 <= k < n implies !is_white_space(#[trigger] line[k]) by {
        assert(line[k] == dev[k]);
    }
    assert(line[n] == ' ');
    lemma_field_end_at(line, 0, n);
    assert(line[n + 1] == mp[0]);
    lemma_ws_end_at(line, n, n + 1);
    assert forall|k: int| n + 1 <= k < n + 1 + m implies !is_white_space(#[trigger] line[k]) by {
        assert(line[k] == mp[k - n - 1]);
    }
    if rest.len() > 0 {
        assert(line[n + 1 + m] == rest[0]);
    }
    lemma_field_end_at(line, n + 1, n + 1 + m);
    assert(line.subrange(0, n) =~= dev);
    assert(line.subrange(n + 1, n + 1 + m) =~= mp);
    assert(first_two_fields(line) == Some((dev, mp)));
    assert(starts_with(dev, "/"@)) by {
        reveal_strlit("/");
        assert("/"@ =~= seq!['/']);
        assert(dev.take(1) =~= seq!['/']);
    }
    assert(!starts_with(dev, "/dev/loop"@));
    assert(removable_mount_point(mp));
}

/// Only removable media count: a volume read from the mount table has a device that
/// is a path and not a loop device, and a mount point under `/media/`,
/// `/run/media/` or `/mnt/`.
pub proof fn lemma_linux_only_removable(line: Seq<char>)
    ensures
        linux_mount_of(line) matches Some(v) ==> {
            &&& v.2.len() >= 1 && v.2[0] == '/'
            &&& !(v.2.len() >= 9 && v.2.take(9) == "/dev/loop"@)
            &&& (v.1.len() >= 7 && v.1.take(7) == "/media/"@) || (v.1.len() >= 11 && v.1.take(11)
                == "/run/media/"@) || (v.1.len() >= 5 && v.1.take(5) == "/mnt/"@)
        },
{
    reveal_strlit("/");
    reveal_strlit("/dev/loop");
    reveal_strlit("/media/");
    reveal_strlit("/run/media/");
    reveal_strlit("/mnt/");
    if let Some(v) = linux_mount_of(line) {
        assert(starts_with(v.2, "/"@));
        assert(v.2.take(1)[0] == '/');
    }
}

fn skip_ws(v: &[char], from: usize) -> (k: usize)
    requires
        from <= v@.len(),
    ensures
        k as int == ws_end(v@, from as int),
        k <= v@.len(),
{
    let mut k = from;
    while k < v.len() && white_space(v[k])
        invariant
            from <= k <= v@.len(),
            ws_end(v@, from as int) == ws_end(v@, k as int),
        decreases v@.len() - k,
    {
        k = k + 1;
    }
    k
}

fn skip_field(v: &[char], from: usize) -> (k: usize)
    requires
        from <= v@.len(),
    ensures
        k as int == field_end(v@, from as int),
        from <= k <= v@.len(),
{
    let mut k = from;
    while k < v.len() && !white_space(v[k])
        invariant
            from <= k <= v@.len(),
            field_end(v@, from as int) == field_end(v@, k as int),
        decreases v@.len() - k,
    {
        k = k + 1;
    }
    k
}

fn starts_with_chars(s: &[char], p: &str) -> (r: bool)
    ensures
        r == starts_with(s@, p@),
{
    let pv = chars_of(p);
    if pv.len() > s.len() {
        return false;
    }
    let mut i: usize = 0;
    while i < pv.len()
        invariant
            pv@ == p@,
            pv@.len() <= s@.len(),
            i <= pv@.len(),
            forall|j: int| 0 <= j < i ==> s@[j] == pv@[j],
        decreases pv@.len() - i,
    {
        if s[i] != pv[i] {
            assert(s@.take(pv@.len() as int)[i as int] != pv@[i as int]);
            return false;
        }
        i = i + 1;
    }
    assert(s@.take(pv@.len() as int) =~= pv@);
    true
}

/// Reads one line of the Linux mount table (see [`linux_mount_of`]).
pub fn linux_mount_entry(line: &str) -> (r: Option<(String, String, String)>)
    ensures
        match r {
            Some((name, mp, dev)) => linux_mount_of(line@) == Some((name@, mp@, dev@)),
            None => linux_mount_of(line@) is None,
        },
{
    let v = chars_of(line);
    let a = skip_ws(v.as_slice(), 0);
    let b = skip_field(v.as_slice(), a);
    let c = skip_ws(v.as_slice(), b);
    let d = skip_field(v.as_slice(), c);
    if !(b > a && d > c) {
        return None;
    }
    let dev = slice_range(v.as_slice(), a, b);
    let mp = slice_range(v.as_slice(), c, d);
    let removable = starts_with_chars(mp.as_slice(), "/media/") || starts_with_chars(mp.as_slice(), "/run/media/")
        || starts_with_chars(mp.as_slice(), "/mnt/");
    let rooted = starts_with_chars(dev.as_slice(), "/");
    let is_loop = starts_with_chars(dev.as_slice(), "/dev/loop");
    if !removable || !rooted || is_loop {
        return None;
    }
    let mp_s = string_of(mp.as_slice());
    let dev_s = string_of(dev.as_slice());
    let name = match file_name(mp_s.as_str()) {
        Some(n) => n,
        None => mp_s.clone(),
    };
    Some((name, mp_s, dev_s))
}

// ---------------------------------------------------------------------------
// The macOS `mount` listing
// ---------------------------------------------------------------------------

/// A line of `mount` output that names a user volume: under `/Volumes/`, and not the
/// system or recovery volume.
pub open spec fn mac_user_volume_line(line: Seq<char>) -> bool {
    contains_text(line, "/Volumes/"@) && !contains_text(unicode_lower(line), "/volumes/macos"@)
        && !contains_text(unicode_lower(line), "/volumes/recove"@)
}

/// The second ` on `-separated piece of a line, if it has one.
pub open spec fn second_on_piece(line: Seq<char>) -> Option<Seq<char>> {
    let a = find_from(line, " on "@, 0);
    if a < 0 {
        None
    } else {
        let b = find_from(line, " on "@, a + 4);
        Some(line.subrange(a + 4, if b < 0 { line.len() as int } else { b }))
    }
}

/// The text before the first `sep` (all of it when there is none).
pub open spec fn before_text(s: Seq<char>, sep: Seq<char>) -> Seq<char> {
    let c = find_from(s, sep, 0);
    if c < 0 {
        s
    } else {
        s.take(c)
    }
}

/// The volume a line of the macOS `mount` listing describes, as `(name, mount point,
/// device)`: the mount point is what follows the first ` on `, up to ` (`; the
/// device is the first space-separated word; the name is the mount point's last
/// component.
pub open spec fn mac_mount_of(line: Seq<char>) -> Option<(Seq<char>, Seq<char>, Seq<char>)> {
    if !mac_user_volume_line(line) {
        None
    } else {
        match second_on_piece(line) {
            Some(piece) => {
                let mp = before_text(piece, " ("@);
                let d = first_index(line, ' ');
                let dev = if d < 0 {
                    line
                } else {
                    line.take(d)
                };
                Some(
                    (
                        match path_file_name(mp) {
                            Some(n) => n,
                            None => mp,
                        },
                        mp,
                        dev,
                    ),
                )
            },
            None => None,
        }
    }
}

/// Reads one line of the macOS `mount` listing (see [`mac_mount_of`]).
pub fn mac_mount_entry(line: &str) -> (r: Option<(String, String, String)>)
    ensures
        match r {
            Some((name, mp, dev)) => mac_mount_of(line@) == Some((name@, mp@, dev@)),
            None => mac_mount_of(line@) is None,
        },
{
    let lower = to_lower(line);
    let user = contains_str(line, "/Volumes/") && !contains_str(lower.as_str(), "/volumes/macos") && !contains_str(
        lower.as_str(),
        "/volumes/recove",
    );
    if !user {
        return None;
    }
    let v = chars_of(line);
    let on = chars_of(" on ");
    proof {
        reveal_strlit(" on ");
    }
    assert(on@.len() == 4);
    let a = match find_text_from(v.as_slice(), on.as_slice(), 0) {
        Some(a) => a,
        None => {
            return None;
        },
    };
    let len = v.len();
    let start = a + 4;
    let end = match find_text_from(v.as_slice(), on.as_slice(), start) {
        Some(b) => b,
        None => len,
    };
    proof {
        if end < len {
            crate::text::lemma_find_from_bounds(v@, on@, start as int);
        }
    }
    let piece = slice_range(v.as_slice(), start, end);
    let paren = chars_of(" (");
    let mp = match find_text_from(piece.as_slice(), paren.as_slice(), 0) {
        Some(c) => slice_range(piece.as_slice(), 0, c),
        None => piece.clone(),
    };
    assert(mp@ =~= before_text(piece@, " ("@));
    let dev = match find_char(v.as_slice(), ' ') {
        Some(d) => slice_range(v.as_slice(), 0, d),
        None => v.clone(),
    };
    assert(dev@ =~= (if first_index(line@, ' ') < 0 { line@ } else { line@.take(first_index(line@, ' ')) }));
    let mp_s = string_of(mp.as_slice());
    let name = match file_name(mp_s.as_str()) {
        Some(n) => n,
        None => mp_s.clone(),
    };
    Some((name, mp_s, string_of(dev.as_slice())))
}

// ---------------------------------------------------------------------------
// The Windows drive listing
// ---------------------------------------------------------------------------

/// A size field of the drive listing: its number, or 0 when it is missing or is
/// not one.
pub open spec fn size_field(parts: Seq<Seq<char>>, k: int) -> u64 {
    if k < parts.len() {
        match parse_u64_of(parts[k]) {
            Some(v) => v,
            None => 0,
        }
    } else {
        0
    }
}

/// The volume a line `{DeviceID}|{VolumeName}|{Size}|{FreeSpace}` of the Windows
/// removable-drive listing describes: named by its label (the drive when the label
/// is empty), mounted at the drive without trailing `\`, with sizes that are 0 when
/// missing or unreadable. A line with fewer than two fields describes none.
pub open spec fn windows_volume_of(line: Seq<char>) -> Option<(Seq<char>, Seq<char>, Seq<char>, u64, u64)> {
    let parts = split_char(line, '|');
    if parts.len() >= 2 {
        Some(
            (
                if parts[1].len() == 0 {
                    parts[0]
                } else {
                    parts[1]
                },
                drop_last_while(parts[0], |c: char| c == '\\'),
                parts[0],
                size_field(parts, 2),
                size_field(parts, 3),
            ),
        )
    } else {
        None
    }
}

fn size_at(parts: &Vec<Vec<char>>, k: usize) -> (r: u64)
    ensures
        r == size_field(parts@.map_values(|p: Vec<char>| p@), k as int),
{
    if k < parts.len() {
        let ghost pv = parts@.map_values(|p: Vec<char>| p@);
        assert(pv[k as int] == parts@[k as int]@);
        match parse_u64(parts[k].as_slice()) {
            Some(v) => v,
            None => 0,
        }
    } else {
        0
    }
}

/// Reads one line of the Windows removable-drive listing (see
/// [`windows_volume_of`]).
pub fn windows_volume(line: &str) -> (r: Option<Volume>)
    ensures
        match r {
            Some(v) => windows_volume_of(line@) == Some((v.name@, v.mount_point@, v.device.unwrap()@, v.total_bytes, v.available_bytes))
                && v.device is Some,
            None => windows_volume_of(line@) is None,
        },
{
    let v = chars_of(line);
    let parts = split_chars(v.as_slice(), '|');
    let ghost pv = parts@.map_values(|p: Vec<char>| p@);
    if parts.len() < 2 {
        return None;
    }
    assert(pv[0] == parts@[0]@ && pv[1] == parts@[1]@);
    let name = if parts[1].len() == 0 {
        string_of(parts[0].as_slice())
    } else {
        string_of(parts[1].as_slice())
    };
    let mut k = parts[0].len();
    assert(parts@[0]@.take(k as int) =~= parts@[0]@);
    while k > 0 && parts[0][k - 1] == '\\'
        invariant
            k <= parts@[0]@.len(),
            parts@.len() >= 2,
            drop_last_while(parts@[0]@, |c: char| c == '\\') == drop_last_while(parts@[0]@.take(k as int), |c: char| c == '\\'),
        decreases k,
    {
        assert(parts@[0]@.take(k as int).drop_last() =~= parts@[0]@.take(k - 1));
        k = k - 1;
    }
    let mp = slice_range(parts[0].as_slice(), 0, k);
    assert(mp@ =~= parts@[0]@.take(k as int));
    let total = size_at(&parts, 2);
    let avail = size_at(&parts, 3);
    Some(Volume {
        name,
        mount_point: string_of(mp.as_slice()),
        device: Some(string_of(parts[0].as_slice())),
        total_bytes: total,
        available_bytes: avail,
    })
}

} // verus!
