//! The card-copy engine's decisions: which files a resumed copy skips, what each
//! file's outcome is, and the task report. Reading, writing, hashing and
//! read-back happen around these calls; each step here is given what they found.
use vstd::prelude::*;
use crate::manifest::{Manifest, ManifestFileEntry, count_verified, same_header};
use crate::datetime::rfc3339_stamp;
use crate::datetime::DateTime;
use crate::naming::time_slot_text;
use crate::paths::{path_strip_prefix, strip_prefix, forward_slashes, to_forward_slashes};
use crate::text::{string_views, clone_all};

verus! {

broadcast use vstd::string::group_string_axioms;

/// A copy task: source card, destinations, and the manifest header fields.
#[derive(Debug, Clone)]
pub struct CopyTaskOptions {
    pub source_root: String,
    /// Destination roots, all written in parallel.
    pub dest_roots: Vec<String>,
    /// Files to copy, relative to the source; empty means every file on the card.
    pub rel_files: Vec<String>,
    pub project_id: String,
    pub card_label: String,
    pub camera_code: String,
    pub operator: String,
    pub note: String,
    pub source_volume: String,
}

/// What happened to one file.
#[derive(Debug, Clone)]
pub struct CopyFileOutcome {
    pub rel_path: String,
    pub size: u64,
    pub hash: String,
    /// Read back and verified at every destination that was written.
    pub verified: bool,
    /// Skipped on resume.
    pub skipped: bool,
    /// Errors of failed destinations.
    pub errors: Vec<String>,
}

/// The result of a copy task.
#[derive(Debug, Clone)]
pub struct CopyTaskReport {
    pub manifest: Manifest,
    pub outcomes: Vec<CopyFileOutcome>,
    pub copied_count: usize,
    pub verified_count: usize,
    pub failed_count: usize,
    pub skipped_count: usize,
    pub total_bytes: u64,
    /// Every file verified: the card may be formatted.
    pub all_verified: bool,
}

// ---------------------------------------------------------------------------
// Counting
// ---------------------------------------------------------------------------

pub open spec fn count_skipped(s: Seq<CopyFileOutcome>) -> nat
    decreases s.len(),
{
    if s.len() == 0 {
        0
    } else {
        count_skipped(s.drop_last()) + if s.last().skipped {
            1nat
        } else {
            0nat
        }
    }
}

pub open spec fn count_copied(s: Seq<CopyFileOutcome>) -> nat
    decreases s.len(),
{
    if s.len() == 0 {
        0
    } else {
        count_copied(s.drop_last()) + if !s.last().skipped {
            1nat
        } else {
            0nat
        }
    }
}

pub open spec fn count_outcomes_verified(s: Seq<CopyFileOutcome>) -> nat
    decreases s.len(),
{
    if s.len() == 0 {
        0
    } else {
        count_outcomes_verified(s.drop_last()) + if s.last().verified {
            1nat
        } else {
            0nat
        }
    }
}

pub open spec fn count_failed(s: Seq<CopyFileOutcome>) -> nat
    decreases s.len(),
{
    if s.len() == 0 {
        0
    } else {
        count_failed(s.drop_last()) + if s.last().errors@.len() > 0 {
            1nat
        } else {
            0nat
        }
    }
}

pub open spec fn total_size(s: Seq<CopyFileOutcome>) -> nat
    decreases s.len(),
{
    if s.len() == 0 {
        0
    } else {
        total_size(s.drop_last()) + s.last().size as nat
    }
}

/// Copied and skipped files together are all the files; at most all are verified or
/// failed; all are verified exactly when each one is, and none failed exactly when
/// none carries an error.
pub proof fn lemma_counts(s: Seq<CopyFileOutcome>)
    ensures
        count_copied(s) + count_skipped(s) == s.len(),
        count_outcomes_verified(s) <= s.len(),
        count_failed(s) <= s.len(),
        count_outcomes_verified(s) == s.len() <==> forall|i: int| 0 <= i < s.len() ==> #[trigger] s[i].verified,
        count_failed(s) == 0 <==> forall|i: int| 0 <= i < s.len() ==> #[trigger] s[i].errors@.len() == 0,
    decreases s.len(),
{
    if s.len() > 0 {
        lemma_counts(s.drop_last());
        if count_failed(s) == 0 {
            assert forall|i: int| 0 <= i < s.len() implies #[trigger] s[i].errors@.len() == 0 by {
                if i < s.len() - 1 {
                    assert(s.drop_last()[i] == s[i]);
                }
            }
        }
        if forall|i: int| 0 <= i < s.len() ==> #[trigger] s[i].errors@.len() == 0 {
            assert forall|i: int| 0 <= i < s.drop_last().len() implies #[trigger] s.drop_last()[i].errors@.len() == 0 by {
                assert(s.drop_last()[i] == s[i]);
            }
            assert(s[s.len() - 1].errors@.len() == 0);
        }
        if count_outcomes_verified(s) == s.len() {
            assert forall|i: int| 0 <= i < s.len() implies #[trigger] s[i].verified by {
                if i < s.len() - 1 {
                    assert(s.drop_last()[i] == s[i]);
                }
            }
        }
        if forall|i: int| 0 <= i < s.len() ==> #[trigger] s[i].verified {
            assert forall|i: int| 0 <= i < s.drop_last().len() implies #[trigger] s.drop_last()[i].verified by {
                assert(s.drop_last()[i] == s[i]);
            }
            assert(s[s.len() - 1].verified);
        }
    }
}

/// The texts of the errors among `rs`, in order.
pub open spec fn error_texts(rs: Seq<Result<(), String>>) -> Seq<Seq<char>>
    decreases rs.len(),
{
    if rs.len() == 0 {
        Seq::empty()
    } else {
        error_texts(rs.drop_last()) + match rs.last() {
            Ok(_) => Seq::<Seq<char>>::empty(),
            Err(e) => seq![e@],
        }
    }
}

/// How many of `rs` succeeded.
pub open spec fn count_ok(rs: Seq<Result<(), String>>) -> nat
    decreases rs.len(),
{
    if rs.len() == 0 {
        0
    } else {
        count_ok(rs.drop_last()) + if rs.last() is Ok {
            1nat
        } else {
            0nat
        }
    }
}

/// The positions of the successes among `rs`, in order: the destinations whose
/// write succeeded, which are the ones read back.
pub open spec fn ok_positions(rs: Seq<Result<(), String>>) -> Seq<usize>
    decreases rs.len(),
{
    if rs.len() == 0 {
        Seq::empty()
    } else {
        ok_positions(rs.drop_last()) + if rs.last() is Ok {
            seq![(rs.len() - 1) as usize]
        } else {
            Seq::empty()
        }
    }
}

/// Every flag is set: the file is present at every destination.
pub open spec fn all_present(at_dests: Seq<bool>) -> bool {
    forall|i: int| 0 <= i < at_dests.len() ==> #[trigger] at_dests[i]
}

/// The manifest holds a verified entry for `rel`.
pub open spec fn has_verified_entry(files: Seq<ManifestFileEntry>, rel: Seq<char>) -> bool {
    exists|i: int| 0 <= i < files.len() && (#[trigger] files[i]).path@ == rel && files[i].verified
}

/// `e` is the first verified entry for `rel`.
pub open spec fn first_verified_entry(files: Seq<ManifestFileEntry>, rel: Seq<char>, e: ManifestFileEntry) -> bool {
    exists|i: int| 0 <= i < files.len() && e == files[i] && e.path@ == rel && e.verified
        && forall|j: int| 0 <= j < i ==> !(#[trigger] files[j].path@ == rel && files[j].verified)
}

/// The destinations to read back after a copy: those whose write succeeded
/// (`writes` holds the result at each destination), in order.
pub fn readback_targets(writes: &[Result<(), String>]) -> (r: Vec<usize>)
    ensures
        r@ == ok_positions(writes@),
        r@.len() == count_ok(writes@),
        forall|k: int| 0 <= k < r@.len() ==> (#[trigger] r@[k]) < writes@.len() && writes@[r@[k] as int] is Ok,
{
    let mut r: Vec<usize> = Vec::new();
    let mut i: usize = 0;
    while i < writes.len()
        invariant
            i <= writes@.len(),
            r@ == ok_positions(writes@.take(i as int)),
            r@.len() == count_ok(writes@.take(i as int)),
            forall|k: int| 0 <= k < r@.len() ==> (#[trigger] r@[k]) < i && writes@[r@[k] as int] is Ok,
        decreases writes@.len() - i,
    {
        assert(writes@.take(i + 1).drop_last() =~= writes@.take(i as int));
        if writes[i].is_ok() {
            r.push(i);
        }
        assert(r@ =~= ok_positions(writes@.take(i + 1)));
        i = i + 1;
    }
    assert(writes@.take(writes@.len() as int) =~= writes@);
    r
}

/// Outcome and manifest entry describe the same file the same way.
pub open spec fn entry_agrees(e: ManifestFileEntry, o: CopyFileOutcome) -> bool {
    e.path@ == o.rel_path@ && e.size == o.size && e.hash@ == o.hash@ && e.verified == o.verified
}

fn dup_entry(e: &ManifestFileEntry) -> (r: ManifestFileEntry)
    ensures
        r == *e,
{
    ManifestFileEntry { path: e.path.clone(), size: e.size, hash: e.hash.clone(), verified: e.verified }
}

/// Collects the texts of the errors among `rs` onto `out`, and counts the successes.
fn collect_errors(rs: &[Result<(), String>], out: &mut Vec<String>) -> (ok: usize)
    ensures
        string_views(final(out)@) == string_views(old(out)@) + error_texts(rs@),
        ok == count_ok(rs@),
{
    let mut ok: usize = 0;
    let mut i: usize = 0;
    while i < rs.len()
        invariant
            i <= rs@.len(),
            ok <= i,
            ok == count_ok(rs@.take(i as int)),
            string_views(out@) == string_views(old(out)@) + error_texts(rs@.take(i as int)),
        decreases rs@.len() - i,
    {
        assert(rs@.take(i + 1).drop_last() =~= rs@.take(i as int));
        let ghost before = out@;
        match &rs[i] {
            Ok(()) => {
                ok = ok + 1;
                assert(string_views(out@) =~= string_views(old(out)@) + error_texts(rs@.take(i + 1)));
            },
            Err(e) => {
                out.push(e.clone());
                assert(string_views(out@) =~= string_views(before).push(e@));
                assert(string_views(out@) =~= string_views(old(out)@) + error_texts(rs@.take(i + 1)));
            },
        }
        i = i + 1;
    }
    assert(rs@.take(rs@.len() as int) =~= rs@);
    ok
}

// ---------------------------------------------------------------------------
// The task as a sequence of recorded steps
// ---------------------------------------------------------------------------

/// A copy task in progress: the manifest being written, the outcomes so far and
/// the bytes accounted for.
pub struct CopyRun {
    pub manifest: Manifest,
    pub outcomes: Vec<CopyFileOutcome>,
    pub total_bytes: u64,
}

impl CopyRun {
    /// The manifest holds one entry per outcome, in the same order and agreeing
    /// with it; the byte total is the sum of the outcome sizes; nothing is marked
    /// completed yet.
    pub open spec fn wf(&self) -> bool {
        &&& self.manifest.files@.len() == self.outcomes@.len()
        &&& forall|i: int| 0 <= i < self.outcomes@.len() ==> entry_agrees(#[trigger] self.manifest.files@[i], self.outcomes@[i])
        &&& self.total_bytes as nat == total_size(self.outcomes@)
        &&& self.manifest.completed_at is None
    }

    /// Starts a task: there must be at least one destination. The manifest lists the
    /// destinations and holds no files yet.
    pub fn start(opts: &CopyTaskOptions) -> (r: Result<CopyRun, String>)
        ensures
            match r {
                Ok(run) => {
                    &&& opts.dest_roots@.len() > 0
                    &&& run.wf()
                    &&& run.outcomes@.len() == 0
                    &&& run.manifest.destinations@ == opts.dest_roots@
                    &&& run.manifest.project_id@ == opts.project_id@
                    &&& run.manifest.card_label@ == opts.card_label@
                    &&& run.manifest.camera_code@ == opts.camera_code@
                    &&& run.manifest.operator@ == opts.operator@
                    &&& run.manifest.note@ == opts.note@
                    &&& run.manifest.source_volume@ == opts.source_volume@
                    &&& rfc3339_stamp(run.manifest.started_at@)
                },
                Err(e) => opts.dest_roots@.len() == 0 && e@ == "至少需要一个目的地"@,
            },
    {
        if opts.dest_roots.len() == 0 {
            return Err("至少需要一个目的地".to_owned());
        }
        let manifest = Manifest::new(
            opts.project_id.as_str(),
            opts.card_label.as_str(),
            opts.camera_code.as_str(),
            opts.operator.as_str(),
            opts.note.as_str(),
            opts.source_volume.as_str(),
            clone_all(&opts.dest_roots),
        );
        Ok(CopyRun { manifest, outcomes: Vec::new(), total_bytes: 0 })
    }

    /// The entry of a resume manifest that lets `rel` be skipped: the first one for
    /// that path that was verified.
    pub fn resume_entry<'a>(resume: &'a Manifest, rel: &str) -> (r: Option<&'a ManifestFileEntry>)
        ensures
            match r {
                Some(e) => exists|i: int| 0 <= i < resume.files@.len() && *e == resume.files@[i]
                    && e.path@ == rel@ && e.verified
                    && forall|j: int| 0 <= j < i ==> !(#[trigger] resume.files@[j].path@ == rel@ && resume.files@[j].verified),
                None => forall|j: int| 0 <= j < resume.files@.len() ==> !(#[trigger] resume.files@[j].path@ == rel@ && resume.files@[j].verified),
            },
    {
        let mut i: usize = 0;
        while i < resume.files.len()
            invariant
                i <= resume.files@.len(),
                forall|j: int| 0 <= j < i ==> !(#[trigger] resume.files@[j].path@ == rel@ && resume.files@[j].verified),
            decreases resume.files@.len() - i,
        {
            let f = &resume.files[i];
            if crate::text::str_eq(f.path.as_str(), rel) && f.verified {
                return Some(f);
            }
            i = i + 1;
        }
        None
    }

    /// Whether the file `rel` is skipped on resume, and with which entry: the resume
    /// manifest's first verified entry for it, provided the file is present at every
    /// destination (`at_dests`, one flag per destination).
    pub fn resume_skip<'a>(resume: Option<&'a Manifest>, rel: &str, at_dests: &[bool]) -> (r: Option<
        &'a ManifestFileEntry,
    >)
        ensures
            match resume {
                None => r is None,
                Some(m) => match r {
                    Some(e) => all_present(at_dests@) && first_verified_entry(m.files@, rel@, *e),
                    None => !all_present(at_dests@) || !has_verified_entry(m.files@, rel@),
                },
            },
    {
        let m = match resume {
            Some(m) => m,
            None => return None,
        };
        let entry = match CopyRun::resume_entry(m, rel) {
            Some(e) => e,
            None => return None,
        };
        let mut i: usize = 0;
        while i < at_dests.len()
            invariant
                i <= at_dests@.len(),
                forall|j: int| 0 <= j < i ==> #[trigger] at_dests@[j],
            decreases at_dests@.len() - i,
        {
            if !at_dests[i] {
                return None;
            }
            i = i + 1;
        }
        Some(entry)
    }

    /// Records a file skipped on resume: it keeps its earlier verified entry.
    pub fn record_skipped(&mut self, entry: &ManifestFileEntry)
        requires
            old(self).wf(),
            entry.verified,
            old(self).total_bytes + entry.size <= u64::MAX,
        ensures
            final(self).wf(),
            final(self).manifest.files@ == old(self).manifest.files@.push(*entry),
            final(self).outcomes@.len() == old(self).outcomes@.len() + 1,
            final(self).outcomes@.drop_last() == old(self).outcomes@,
            ({
                let o = final(self).outcomes@.last();
                &&& o.rel_path@ == entry.path@
                &&& o.size == entry.size
                &&& o.hash@ == entry.hash@
                &&& o.verified
                &&& o.skipped
                &&& o.errors@.len() == 0
            }),
            same_header(final(self).manifest, old(self).manifest),
    {
        let o = CopyFileOutcome {
            rel_path: entry.path.clone(),
            size: entry.size,
            hash: entry.hash.clone(),
            verified: true,
            skipped: true,
            errors: Vec::new(),
        };
        self.push(dup_entry(entry), o);
    }

    /// Records a file whose source could not be read through: no hash, not
    /// verified, and the error `{rel}: {error}`.
    pub fn record_read_failure(&mut self, rel: &str, size: u64, error: &str)
        requires
            old(self).wf(),
            old(self).total_bytes + size <= u64::MAX,
        ensures
            final(self).wf(),
            final(self).outcomes@.len() == old(self).outcomes@.len() + 1,
            final(self).outcomes@.drop_last() == old(self).outcomes@,
            ({
                let o = final(self).outcomes@.last();
                &&& o.rel_path@ == rel@
                &&& o.size == size
                &&& o.hash@.len() == 0
                &&& !o.verified
                &&& !o.skipped
                &&& string_views(o.errors@) == seq![rel@ + ": "@ + error@]
            }),
            same_header(final(self).manifest, old(self).manifest),
    {
        let mut msg = rel.to_owned();
        msg.append(": ");
        msg.append(error);
        let mut errors: Vec<String> = Vec::new();
        errors.push(msg);
        assert(string_views(errors@) =~= seq![rel@ + ": "@ + error@]);
        let e = ManifestFileEntry { path: rel.to_owned(), size, hash: String::new(), verified: false };
        let o = CopyFileOutcome {
            rel_path: rel.to_owned(),
            size,
            hash: String::new(),
            verified: false,
            skipped: false,
            errors,
        };
        self.push(e, o);
    }

    /// Records a copied file: `writes` are the results at each destination, in order;
    /// `verifies` the read-back results at the destinations that were written, in
    /// order. The file is verified when at least one destination was written and
    /// every read-back matched; the errors are the write errors, then the read-back
    /// errors.
    pub fn record_copied(
        &mut self,
        rel: &str,
        size: u64,
        hash: &str,
        writes: &[Result<(), String>],
        verifies: &[Result<(), String>],
    )
        requires
            old(self).wf(),
            old(self).total_bytes + size <= u64::MAX,
            verifies@.len() == count_ok(writes@),
        ensures
            final(self).wf(),
            final(self).outcomes@.len() == old(self).outcomes@.len() + 1,
            final(self).outcomes@.drop_last() == old(self).outcomes@,
            ({
                let o = final(self).outcomes@.last();
                &&& o.rel_path@ == rel@
                &&& o.size == size
                &&& o.hash@ == hash@
                &&& o.verified == (count_ok(writes@) > 0 && count_ok(verifies@) == verifies@.len())
                &&& !o.skipped
                &&& string_views(o.errors@) == error_texts(writes@) + error_texts(verifies@)
            }),
            same_header(final(self).manifest, old(self).manifest),
    {
        let mut errors: Vec<String> = Vec::new();
        let ok_writes = collect_errors(writes, &mut errors);
        let ok_verifies = collect_errors(verifies, &mut errors);
        assert(string_views(Seq::<String>::empty()) =~= Seq::<Seq<char>>::empty());
        let verified = ok_writes > 0 && ok_verifies == verifies.len();
        let e = ManifestFileEntry { path: rel.to_owned(), size, hash: hash.to_owned(), verified };
        let o = CopyFileOutcome {
            rel_path: rel.to_owned(),
            size,
            hash: hash.to_owned(),
            verified,
            skipped: false,
            errors,
        };
        self.push(e, o);
    }

    fn push(&mut self, e: ManifestFileEntry, o: CopyFileOutcome)
        requires
            old(self).wf(),
            old(self).total_bytes + o.size <= u64::MAX,
            entry_agrees(e, o),
        ensures
            final(self).wf(),
            final(self).manifest.files@ == old(self).manifest.files@.push(e),
            final(self).outcomes@ == old(self).outcomes@.push(o),
            same_header(final(self).manifest, old(self).manifest),
    {
        let ghost old_outcomes = self.outcomes@;
        self.total_bytes = self.total_bytes + o.size;
        self.manifest.files.push(e);
        self.outcomes.push(o);
        assert(self.outcomes@.drop_last() =~= old_outcomes);
    }

    /// Ends the task: the counts of copied, verified, failed and skipped files, the
    /// byte total, and whether all files were verified; a fully verified manifest is
    /// marked completed.
    pub fn finish(self) -> (r: CopyTaskReport)
        requires
            self.wf(),
        ensures
            r.outcomes@ == self.outcomes@,
            r.manifest.files@ == self.manifest.files@,
            same_header(r.manifest, self.manifest),
            r.copied_count == count_copied(self.outcomes@),
            r.skipped_count == count_skipped(self.outcomes@),
            r.verified_count == count_outcomes_verified(self.outcomes@),
            r.failed_count == count_failed(self.outcomes@),
            r.total_bytes as nat == total_size(self.outcomes@),
            r.all_verified == (self.outcomes@.len() > 0
                && (forall|i: int| 0 <= i < self.outcomes@.len() ==> #[trigger] self.outcomes@[i].verified)
                && (forall|i: int| 0 <= i < self.outcomes@.len() ==> #[trigger] self.outcomes@[i].errors@.len() == 0)),
            r.manifest.completed_at is Some <==> r.all_verified,
            r.manifest.completed_at matches Some(c) ==> rfc3339_stamp(c@),
            r.copied_count + r.skipped_count == r.outcomes@.len(),
            r.verified_count <= r.outcomes@.len(),
            r.failed_count <= r.outcomes@.len(),
            r.all_verified == (r.manifest.files@.len() > 0 && count_verified(r.manifest.files@) == r.manifest.files@.len() && r.failed_count == 0),
    {
        let mut copied: usize = 0;
        let mut skipped: usize = 0;
        let mut verified: usize = 0;
        let mut failed: usize = 0;
        let mut i: usize = 0;
        while i < self.outcomes.len()
            invariant
                i <= self.outcomes@.len(),
                copied == count_copied(self.outcomes@.take(i as int)),
                skipped == count_skipped(self.outcomes@.take(i as int)),
                verified == count_outcomes_verified(self.outcomes@.take(i as int)),
                failed == count_failed(self.outcomes@.take(i as int)),
                copied <= i,
                skipped <= i,
                verified <= i,
                failed <= i,
            decreases self.outcomes@.len() - i,
        {
            assert(self.outcomes@.take(i + 1).drop_last() =~= self.outcomes@.take(i as int));
            let o = &self.outcomes[i];
            if o.skipped {
                skipped = skipped + 1;
            } else {
                copied = copied + 1;
            }
            if o.verified {
                verified = verified + 1;
            }
            if o.errors.len() > 0 {
                failed = failed + 1;
            }
            i = i + 1;
        }
        assert(self.outcomes@.take(self.outcomes@.len() as int) =~= self.outcomes@);
        proof {
            lemma_counts(self.outcomes@);
            crate::manifest::lemma_count_verified(self.manifest.files@);
            assert forall|k: int| 0 <= k < self.outcomes@.len() implies (#[trigger] self.outcomes@[k].verified == self.manifest.files@[k].verified) by {
                assert(entry_agrees(self.manifest.files@[k], self.outcomes@[k]));
            }
        }
        let all_verified = self.outcomes.len() > 0 && verified == self.outcomes.len() && failed == 0;
        let mut manifest = self.manifest;
        if all_verified {
            manifest.finish();
        }
        CopyTaskReport {
            manifest,
            outcomes: self.outcomes,
            copied_count: copied,
            verified_count: verified,
            failed_count: failed,
            skipped_count: skipped,
            total_bytes: self.total_bytes,
            all_verified,
        }
    }
}

// ---------------------------------------------------------------------------
// Destination naming
// ---------------------------------------------------------------------------

/// The destination sub-folder for a card: `2. 原始素材/{date}_{camera}` in workflow A,
/// `1. 待分类/{time slot}_{camera}` otherwise (`0000上午` when the shooting time is
/// unknown).
pub open spec fn dest_subdir_of(workflow: Seq<char>, camera_code: Seq<char>, date: Seq<char>, first_ts: Option<DateTime>) -> Seq<char> {
    if workflow == "A"@ {
        "2. 原始素材/"@ + date + seq!['_'] + camera_code
    } else {
        "1. 待分类/"@ + match first_ts {
            Some(dt) => time_slot_text(dt),
            None => "0000上午"@,
        } + seq!['_'] + camera_code
    }
}

/// Destination sub-folder for a card copy.
pub fn dest_subdir(workflow: &str, camera_code: &str, date: &str, first_ts: Option<&DateTime>) -> (r: String)
    ensures
        r@ == dest_subdir_of(workflow@, camera_code@, date@, match first_ts { Some(d) => Some(*d), None => None }),
{
    let is_a = crate::text::str_eq(workflow, "A");
    if is_a {
        let mut r = "2. 原始素材/".to_owned();
        r.append(date);
        crate::text::push_char(&mut r, '_');
        r.append(camera_code);
        assert(r@ =~= dest_subdir_of(workflow@, camera_code@, date@, match first_ts { Some(d) => Some(*d), None => None }));
        r
    } else {
        let mut r = "1. 待分类/".to_owned();
        match first_ts {
            Some(dt) => {
                let slot = crate::naming::infer_time_slot(dt);
                r.append(slot.as_str());
            },
            None => {
                r.append("0000上午");
            },
        }
        crate::text::push_char(&mut r, '_');
        r.append(camera_code);
        assert(r@ =~= dest_subdir_of(workflow@, camera_code@, date@, match first_ts { Some(d) => Some(*d), None => None }));
        r
    }
}

/// `abs` relative to `root`, with `/` separators; `abs` itself when it is not under
/// `root`.
pub open spec fn rel_path_of(root: Seq<char>, abs: Seq<char>) -> Seq<char> {
    forward_slashes(
        match path_strip_prefix(abs, root) {
            Some(p) => p,
            None => abs,
        },
    )
}

/// The path of `abs` relative to `root`, with forward slashes.
pub fn rel_path(root: &str, abs: &str) -> (r: String)
    ensures
        r@ == rel_path_of(root@, abs@),
{
    match strip_prefix(abs, root) {
        Some(p) => to_forward_slashes(p.as_str()),
        None => to_forward_slashes(abs),
    }
}

/// Whether a directory entry is left out of a scan: a hidden name (starting with
/// `.`) below the root.
pub open spec fn skipped_entry(depth: usize, name: Seq<char>) -> bool {
    depth > 0 && name.len() > 0 && name[0] == '.'
}

/// The filter of the recursive scans: entries below the root whose name starts
/// with `.` (such as `.ocard`) are not entered.
pub fn skip_entry(depth: usize, name: &str) -> (r: bool)
    ensures
        r == skipped_entry(depth, name@),
{
    let v = crate::text::chars_of(name);
    depth > 0 && v.len() > 0 && v[0] == '.'
}

} // verus!
