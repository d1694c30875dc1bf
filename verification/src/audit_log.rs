//! Append-only audit log. Each workstation appends JSON lines to its own file
//! `{logs_dir}/{machine_id}.log`; reading merges the files of all workstations and
//! orders the entries by time.
use vstd::prelude::*;
use crate::datetime::{now_rfc3339, rfc3339_instant, chrono_rfc3339_instant, rfc3339_stamp};
use crate::paths::{join, path_join};
use crate::text::{text_less, str_less, str_eq, lemma_text_less_total, lemma_text_less_transitive, trim, trim_str};
use crate::sorting::TimeKey;

verus! {

/// One logged operation.
#[derive(Debug, Clone, PartialEq)]
pub struct AuditEntry {
    /// RFC 3339 time.
    pub timestamp: String,
    /// The workstation that made the entry.
    pub machine_id: String,
    /// Who did it.
    pub operator: String,
    /// `copy`, `verify`, `delete`, `restore`, `package`, `transcode`, `create_project`, ...
    pub action: String,
    /// The file, folder or card acted on.
    pub target: String,
    pub detail: Option<String>,
}

impl AuditEntry {
    /// An entry stamped with the current local time.
    pub fn new(machine_id: &str, operator: &str, action: &str, target: &str, detail: Option<String>) -> (r: AuditEntry)
        ensures
            r.machine_id@ == machine_id@,
            r.operator@ == operator@,
            r.action@ == action@,
            r.target@ == target@,
            r.detail == detail,
            rfc3339_stamp(r.timestamp@),
    {
        AuditEntry {
            timestamp: now_rfc3339(),
            machine_id: machine_id.to_owned(),
            operator: operator.to_owned(),
            action: action.to_owned(),
            target: target.to_owned(),
            detail,
        }
    }
}

/// The log of one workstation: `{logs_dir}/{machine_id}.log`, one JSON entry per line.
pub struct AuditLog {
    logs_dir: String,
    machine_id: String,
}

impl AuditLog {
    pub closed spec fn dir(&self) -> Seq<char> {
        self.logs_dir@
    }

    pub closed spec fn machine(&self) -> Seq<char> {
        self.machine_id@
    }

    pub fn new(logs_dir: &str, machine_id: &str) -> (r: AuditLog)
        ensures
            r.dir() == logs_dir@,
            r.machine() == machine_id@,
    {
        AuditLog { logs_dir: logs_dir.to_owned(), machine_id: machine_id.to_owned() }
    }

    /// The directory of the logs.
    pub fn logs_dir(&self) -> (r: &str)
        ensures
            r@ == self.dir(),
    {
        self.logs_dir.as_str()
    }

    /// This workstation's log file: `{logs_dir}/{machine_id}.log`.
    pub fn own_file(&self) -> (r: String)
        ensures
            r@ == path_join(self.dir(), self.machine() + ".log"@),
    {
        let mut name = self.machine_id.clone();
        name.append(".log");
        join(self.logs_dir.as_str(), name.as_str())
    }

    /// The entry this workstation appends for an operation: stamped now, with this
    /// workstation's id.
    pub fn log(&self, operator: &str, action: &str, target: &str, detail: Option<String>) -> (r: AuditEntry)
        ensures
            r.machine_id@ == self.machine(),
            r.operator@ == operator@,
            r.action@ == action@,
            r.target@ == target@,
            r.detail == detail,
            rfc3339_stamp(r.timestamp@),
    {
        AuditEntry::new(self.machine_id.as_str(), operator, action, target, detail)
    }

    /// The workstations that wrote any of `entries`: their ids, each once, in
    /// increasing order.
    pub fn known_machines(entries: &[AuditEntry]) -> (r: Vec<String>)
        ensures
            forall|j: int, k: int| 0 <= j < k < r@.len() ==> text_less(#[trigger] r@[j]@, #[trigger] r@[k]@),
            forall|j: int| 0 <= j < r@.len() ==> #[trigger] written_by(entries@, entries@.len() as int, r@[j]@),
            forall|i: int| 0 <= i < entries@.len() ==> #[trigger] listed(r@, entries@[i].machine_id@),
    {
        let mut ids: Vec<String> = Vec::new();
        let mut i: usize = 0;
        while i < entries.len()
            invariant
                i <= entries@.len(),
                forall|j: int, k: int| 0 <= j < k < ids@.len() ==> text_less(#[trigger] ids@[j]@, #[trigger] ids@[k]@),
                forall|j: int| 0 <= j < ids@.len() ==> #[trigger] written_by(entries@, i as int, ids@[j]@),
                forall|t: int| 0 <= t < i ==> #[trigger] listed(ids@, entries@[t].machine_id@),
            decreases entries@.len() - i,
        {
            let id = &entries[i].machine_id;
            let mut p: usize = 0;
            while p < ids.len() && str_less(ids[p].as_str(), id.as_str())
                invariant
                    p <= ids@.len(),
                    forall|q: int| 0 <= q < p ==> text_less((#[trigger] ids@[q])@, id@),
                decreases ids@.len() - p,
            {
                p = p + 1;
            }
            let ghost old_ids = ids@;
            if p < ids.len() && str_eq(ids[p].as_str(), id.as_str()) {
                proof {
                    lemma_machine_seen(entries@, old_ids, i as int, p as int);
                }
            } else {
                proof {
                    if p < old_ids.len() {
                        lemma_text_less_total(old_ids[p as int]@, id@);
                    }
                }
                ids.insert(p, id.clone());
                proof {
                    lemma_machine_added(entries@, old_ids, ids@, i as int, p as int);
                }
            }
            i = i + 1;
        }
        ids
    }
}

/// Some of the first `n` entries was written by `id`.
pub open spec fn written_by(entries: Seq<AuditEntry>, n: int, id: Seq<char>) -> bool {
    exists|t: int| 0 <= t < n && (#[trigger] entries[t]).machine_id@ == id
}

/// `id` is among `ids`.
pub open spec fn listed(ids: Seq<String>, id: Seq<char>) -> bool {
    exists|j: int| 0 <= j < ids.len() && (#[trigger] ids[j])@ == id
}

proof fn lemma_machine_seen(entries: Seq<AuditEntry>, ids: Seq<String>, i: int, p: int)
    requires
        0 <= i < entries.len(),
        0 <= p < ids.len(),
        ids[p]@ == entries[i].machine_id@,
        forall|j: int| 0 <= j < ids.len() ==> #[trigger] written_by(entries, i, ids[j]@),
        forall|t: int| 0 <= t < i ==> #[trigger] listed(ids, entries[t].machine_id@),
    ensures
        forall|j: int| 0 <= j < ids.len() ==> #[trigger] written_by(entries, i + 1, ids[j]@),
        forall|t: int| 0 <= t < i + 1 ==> #[trigger] listed(ids, entries[t].machine_id@),
{
    assert forall|j: int| 0 <= j < ids.len() implies #[trigger] written_by(entries, i + 1, ids[j]@) by {
        assert(written_by(entries, i, ids[j]@));
        let t = choose|t: int| 0 <= t < i && (#[trigger] entries[t]).machine_id@ == ids[j]@;
        assert(entries[t].machine_id@ == ids[j]@);
    }
    assert forall|t: int| 0 <= t < i + 1 implies #[trigger] listed(ids, entries[t].machine_id@) by {
        if t == i {
            assert(ids[p]@ == entries[t].machine_id@);
        }
    }
}

proof fn lemma_machine_added(entries: Seq<AuditEntry>, old_ids: Seq<String>, ids: Seq<String>, i: int, p: int)
    requires
        0 <= i < entries.len(),
        0 <= p <= old_ids.len(),
        ids == old_ids.insert(p, ids[p]),
        ids[p]@ == entries[i].machine_id@,
        forall|q: int| 0 <= q < p ==> text_less((#[trigger] old_ids[q])@, ids[p]@),
        p < old_ids.len() ==> text_less(ids[p]@, old_ids[p]@),
        forall|j: int, k: int| 0 <= j < k < old_ids.len() ==> text_less(#[trigger] old_ids[j]@, #[trigger] old_ids[k]@),
        forall|j: int| 0 <= j < old_ids.len() ==> #[trigger] written_by(entries, i, old_ids[j]@),
        forall|t: int| 0 <= t < i ==> #[trigger] listed(old_ids, entries[t].machine_id@),
    ensures
        forall|j: int, k: int| 0 <= j < k < ids.len() ==> text_less(#[trigger] ids[j]@, #[trigger] ids[k]@),
        forall|j: int| 0 <= j < ids.len() ==> #[trigger] written_by(entries, i + 1, ids[j]@),
        forall|t: int| 0 <= t < i + 1 ==> #[trigger] listed(ids, entries[t].machine_id@),
{
    let id = ids[p]@;
    assert forall|j: int, k: int| 0 <= j < k < ids.len() implies text_less(#[trigger] ids[j]@, #[trigger] ids[k]@) by {
        if k < p {
            assert(ids[j] == old_ids[j] && ids[k] == old_ids[k]);
        } else if k == p {
            assert(ids[j] == old_ids[j]);
        } else if j < p {
            assert(ids[j] == old_ids[j] && ids[k] == old_ids[k - 1]);
            if k - 1 > p {
                lemma_text_less_transitive(id, old_ids[p]@, old_ids[k - 1]@);
            }
            lemma_text_less_transitive(old_ids[j]@, id, old_ids[k - 1]@);
        } else if j == p {
            assert(ids[k] == old_ids[k - 1]);
            if k - 1 > p {
                lemma_text_less_transitive(id, old_ids[p]@, old_ids[k - 1]@);
            }
        } else {
            assert(ids[j] == old_ids[j - 1] && ids[k] == old_ids[k - 1]);
        }
    }
    assert forall|j: int| 0 <= j < ids.len() implies #[trigger] written_by(entries, i + 1, ids[j]@) by {
        if j == p {
            assert(entries[i].machine_id@ == ids[j]@);
        } else {
            let jj = if j < p { j } else { j - 1 };
            assert(ids[j] == old_ids[jj]);
            assert(written_by(entries, i, old_ids[jj]@));
            let t = choose|t: int| 0 <= t < i && (#[trigger] entries[t]).machine_id@ == old_ids[jj]@;
            assert(entries[t].machine_id@ == ids[j]@);
        }
    }
    assert forall|t: int| 0 <= t < i + 1 implies #[trigger] listed(ids, entries[t].machine_id@) by {
        if t == i {
            assert(ids[p]@ == entries[t].machine_id@);
        } else {
            assert(listed(old_ids, entries[t].machine_id@));
            let j = choose|j: int| 0 <= j < old_ids.len() && (#[trigger] old_ids[j])@ == entries[t].machine_id@;
            if j < p {
                assert(ids[j] == old_ids[j]);
            } else {
                assert(ids[j + 1] == old_ids[j]);
            }
        }
    }
}

/// Where a timestamp falls in time: the instant its RFC 3339 text denotes, as
/// seconds times `2_000_000_000` plus nanoseconds (a leap second's nanoseconds stay
/// under two seconds, so the order is that of the instants); a text that is no
/// RFC 3339 time comes before every instant.
pub open spec fn instant_key(timestamp: Seq<char>) -> int {
    match chrono_rfc3339_instant(timestamp) {
        Some(p) => p.0 * 2_000_000_000 + p.1,
        None => i64::MIN * 2_000_000_000 - 1,
    }
}

impl TimeKey for AuditEntry {
    /// Entries are ordered by the instant their timestamp denotes.
    open spec fn time_key(&self) -> int {
        instant_key(self.timestamp@)
    }

    fn time_key_exec(&self) -> (r: i128) {
        match rfc3339_instant(self.timestamp.as_str()) {
            Some((secs, nanos)) => secs as i128 * 2_000_000_000 + nanos as i128,
            None => i64::MIN as i128 * 2_000_000_000 - 1,
        }
    }
}

/// Whether a log line holds nothing but white space (such lines are skipped).
pub fn is_blank_line(line: &str) -> (r: bool)
    ensures
        r == (trim(line@).len() == 0),
{
    let t = trim_str(line);
    t.len() == 0
}

} // verus!
