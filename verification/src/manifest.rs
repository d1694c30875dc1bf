//! The copy manifest: what one card copy wrote and verified, kept so that an
//! interrupted copy can resume.
use vstd::prelude::*;
use crate::datetime::{now_rfc3339, now_stamp, rfc3339_stamp, clock_reading, file_stamp, DateTime};
use crate::config::{sanitize_slug, kept_chars, slug_char};
use crate::sorting::TextKey;

verus! {

broadcast use vstd::string::group_string_axioms;

pub const MANIFEST_VERSION: u32 = 1;
pub const HASH_ALGO: &'static str = "xxh3-64";

/// One copied file.
#[derive(Debug, Clone, PartialEq)]
pub struct ManifestFileEntry {
    /// Path relative to the card root.
    pub path: String,
    /// Size in bytes.
    pub size: u64,
    /// xxHash3-64, hex.
    pub hash: String,
    /// Read back and verified at the destinations.
    pub verified: bool,
}

/// The manifest of one card copy.
#[derive(Debug, Clone, PartialEq)]
pub struct Manifest {
    pub version: u32,
    pub hash_algo: String,
    pub project_id: String,
    pub card_label: String,
    pub camera_code: String,
    pub operator: String,
    pub note: String,
    /// Source volume (mount point or drive).
    pub source_volume: String,
    /// Destinations, relative to the project root.
    pub destinations: Vec<String>,
    pub started_at: String,
    pub completed_at: Option<String>,
    pub files: Vec<ManifestFileEntry>,
}

/// Two manifests describe the same task: everything but the files and the
/// completion time agrees.
pub open spec fn same_header(a: Manifest, b: Manifest) -> bool {
    &&& a.version == b.version
    &&& a.hash_algo == b.hash_algo
    &&& a.project_id == b.project_id
    &&& a.card_label == b.card_label
    &&& a.camera_code == b.camera_code
    &&& a.operator == b.operator
    &&& a.note == b.note
    &&& a.source_volume == b.source_volume
    &&& a.destinations == b.destinations
    &&& a.started_at == b.started_at
}

/// Number of verified entries.
pub open spec fn count_verified(files: Seq<ManifestFileEntry>) -> nat
    decreases files.len(),
{
    if files.len() == 0 {
        0
    } else {
        count_verified(files.drop_last()) + if files.last().verified {
            1nat
        } else {
            0nat
        }
    }
}

/// Sum of the entry sizes.
pub open spec fn sum_sizes(files: Seq<ManifestFileEntry>) -> nat
    decreases files.len(),
{
    if files.len() == 0 {
        0
    } else {
        sum_sizes(files.drop_last()) + files.last().size as nat
    }
}

/// An entry records `rel` with this size and hash as verified.
pub open spec fn entry_matches(f: ManifestFileEntry, rel: Seq<char>, size: u64, hash: Seq<char>) -> bool {
    f.path@ == rel && f.size == size && f.hash@ == hash && f.verified
}

/// The count of verified entries is at most the number of entries, and equals it
/// exactly when every entry is verified.
pub proof fn lemma_count_verified(files: Seq<ManifestFileEntry>)
    ensures
        count_verified(files) <= files.len(),
        count_verified(files) == files.len() <==> forall|i: int| 0 <= i < files.len() ==> #[trigger] files[i].verified,
    decreases files.len(),
{
    if files.len() > 0 {
        lemma_count_verified(files.drop_last());
        if count_verified(files) == files.len() {
            assert forall|i: int| 0 <= i < files.len() implies #[trigger] files[i].verified by {
                if i < files.len() - 1 {
                    assert(files.drop_last()[i] == files[i]);
                }
            }
        }
        if forall|i: int| 0 <= i < files.len() ==> #[trigger] files[i].verified {
            assert forall|i: int| 0 <= i < files.drop_last().len() implies #[trigger] files.drop_last()[i].verified by {
                assert(files.drop_last()[i] == files[i]);
            }
            assert(files[files.len() - 1].verified);
        }
    }
}

impl Manifest {
    /// A new manifest for a copy that starts now, with no files yet.
    pub fn new(
        project_id: &str,
        card_label: &str,
        camera_code: &str,
        operator: &str,
        note: &str,
        source_volume: &str,
        destinations: Vec<String>,
    ) -> (m: Manifest)
        ensures
            m.version == MANIFEST_VERSION,
            m.hash_algo@ == HASH_ALGO@,
            m.project_id@ == project_id@,
            m.card_label@ == card_label@,
            m.camera_code@ == camera_code@,
            m.operator@ == operator@,
            m.note@ == note@,
            m.source_volume@ == source_volume@,
            m.destinations == destinations,
            m.completed_at is None,
            m.files@.len() == 0,
            rfc3339_stamp(m.started_at@),
    {
        Manifest {
            version: MANIFEST_VERSION,
            hash_algo: HASH_ALGO.to_owned(),
            project_id: project_id.to_owned(),
            card_label: card_label.to_owned(),
            camera_code: camera_code.to_owned(),
            operator: operator.to_owned(),
            note: note.to_owned(),
            source_volume: source_volume.to_owned(),
            destinations,
            started_at: now_rfc3339(),
            completed_at: None,
            files: Vec::new(),
        }
    }

    /// Marks the copy as completed now.
    pub fn finish(&mut self)
        ensures
            final(self).completed_at matches Some(c) && rfc3339_stamp(c@),
            final(self).files == old(self).files,
            same_header(*final(self), *old(self)),
    {
        self.completed_at = Some(now_rfc3339());
    }

    /// Number of verified files.
    pub fn verified_count(&self) -> (n: usize)
        ensures
            n == count_verified(self.files@),
    {
        let mut n: usize = 0;
        let mut i: usize = 0;
        while i < self.files.len()
            invariant
                i <= self.files@.len(),
                n == count_verified(self.files@.take(i as int)),
                n <= i,
            decreases self.files@.len() - i,
        {
            assert(self.files@.take(i + 1).drop_last() =~= self.files@.take(i as int));
            if self.files[i].verified {
                n = n + 1;
            }
            i = i + 1;
        }
        assert(self.files@.take(self.files@.len() as int) =~= self.files@);
        n
    }

    /// Whether there is at least one file and every file is verified.
    pub fn all_verified(&self) -> (b: bool)
        ensures
            b == (self.files@.len() > 0 && forall|i: int| 0 <= i < self.files@.len() ==> #[trigger] self.files@[i].verified),
            b == (self.files@.len() > 0 && count_verified(self.files@) == self.files@.len()),
    {
        proof {
            lemma_count_verified(self.files@);
        }
        !self.files.is_empty() && self.verified_count() == self.files.len()
    }

    /// Sum of the file sizes.
    pub fn total_bytes(&self) -> (t: u64)
        requires
            sum_sizes(self.files@) <= u64::MAX,
        ensures
            t == sum_sizes(self.files@),
    {
        let mut t: u64 = 0;
        let mut i: usize = 0;
        while i < self.files.len()
            invariant
                i <= self.files@.len(),
                t == sum_sizes(self.files@.take(i as int)),
                sum_sizes(self.files@) <= u64::MAX,
            decreases self.files@.len() - i,
        {
            assert(self.files@.take(i + 1).drop_last() =~= self.files@.take(i as int));
            proof {
                lemma_sum_sizes_prefix(self.files@, i + 1);
            }
            t = t + self.files[i].size;
            i = i + 1;
        }
        assert(self.files@.take(self.files@.len() as int) =~= self.files@);
        t
    }

    /// Whether `rel_path` is recorded with this size and hash and was verified (the
    /// resume test).
    pub fn has_verified(&self, rel_path: &str, size: u64, hash: &str) -> (b: bool)
        ensures
            b == exists|i: int| 0 <= i < self.files@.len() && entry_matches(#[trigger] self.files@[i], rel_path@, size, hash@),
    {
        let mut i: usize = 0;
        while i < self.files.len()
            invariant
                i <= self.files@.len(),
                forall|j: int| 0 <= j < i ==> !entry_matches(#[trigger] self.files@[j], rel_path@, size, hash@),
            decreases self.files@.len() - i,
        {
            let f = &self.files[i];
            if crate::text::str_eq(f.path.as_str(), rel_path) && f.size == size && crate::text::str_eq(f.hash.as_str(), hash) && f.verified {
                assert(entry_matches(self.files@[i as int], rel_path@, size, hash@));
                return true;
            }
            i = i + 1;
        }
        false
    }
}

/// A prefix's size sum is at most the whole sum.
pub proof fn lemma_sum_sizes_prefix(files: Seq<ManifestFileEntry>, k: int)
    requires
        0 <= k <= files.len(),
    ensures
        sum_sizes(files.take(k)) <= sum_sizes(files),
    decreases files.len() - k,
{
    if k < files.len() {
        lemma_sum_sizes_prefix(files, k + 1);
        assert(files.take(k + 1).drop_last() =~= files.take(k));
    } else {
        assert(files.take(k) =~= files);
    }
}

impl TextKey for Manifest {
    /// Manifests are listed by start time.
    open spec fn key(&self) -> Seq<char> {
        self.started_at@
    }

    fn key_str(&self) -> (r: &str) {
        self.started_at.as_str()
    }
}

/// `copy_{stamp}_{card slug}.json`: the file a card copy's manifest is saved in.
pub open spec fn manifest_file_name_of(stamp: Seq<char>, card_label: Seq<char>) -> Seq<char> {
    "copy_"@ + stamp + "_"@ + kept_chars(card_label, |c: char| slug_char(c), 32) + ".json"@
}

/// The manifest file name for a card copy stamped `stamp`.
pub fn manifest_file_name(stamp: &str, card_label: &str) -> (r: String)
    ensures
        r@ == manifest_file_name_of(stamp@, card_label@),
{
    let mut r = "copy_".to_owned();
    r.append(stamp);
    r.append("_");
    let slug = sanitize_slug(card_label);
    r.append(slug.as_str());
    r.append(".json");
    r
}

/// The manifest file name for a card copy saved now.
pub fn manifest_file_name_now(card_label: &str) -> (r: String)
    ensures
        exists|dt: DateTime| #[trigger] clock_reading(dt) && r@ == manifest_file_name_of(file_stamp(dt), card_label@),
{
    let stamp = now_stamp();
    manifest_file_name(stamp.as_str(), card_label)
}

} // verus!
