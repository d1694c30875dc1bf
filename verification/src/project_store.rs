//! Projects: a `YYYYMMDD_{name}` folder on the NAS whose state lives in `.ocard/`.
use vstd::prelude::*;
use crate::datetime::{now_rfc3339, rfc3339_stamp};
use crate::manifest::{Manifest, count_verified, sum_sizes};
use crate::naming::{
    is_compact_date, compact_date, project_id_of, project_id_on, sanitized, sanitize_filename,
    workflow_a_template, workflow_b_template, select_template, workflow_a_folders,
    workflow_b_folders, select_folders,
};
use crate::paths::{join, path_join};
use crate::sorting::TextKey;
use crate::sums::{sum_of, lemma_sum_of_prefix, lemma_sum_of_element};
use crate::text::{trim, trim_str, string_of, str_eq, string_views, contains_text, contains_str, to_lower, unicode_lower};

verus! {

broadcast use vstd::string::group_string_axioms;

/// Project metadata, kept in `.ocard/project.json`.
#[derive(Debug, Clone, PartialEq)]
pub struct Project {
    pub id: String,
    pub name: String,
    /// `YYYYMMDD`.
    pub date: String,
    /// `A` (video editing) or `B` (photos).
    pub workflow: String,
    /// The categories of workflow B.
    pub categories: Vec<String>,
    pub created_at: String,
}

/// A project's state, as the project list shows it.
#[derive(Debug, Clone, PartialEq)]
pub struct ProjectSummary {
    pub id: String,
    pub name: String,
    pub workflow: String,
    /// Files copied from cards.
    pub copied_files: u64,
    /// Bytes copied from cards.
    pub copied_bytes: u64,
    /// Files sorted out of `1. 待分类`, and files still in it (workflow B).
    pub classified: u64,
    pub unclassified: u64,
    /// Some card copy was fully verified.
    pub backup_ok: bool,
    /// A delivery was packaged.
    pub packaged: bool,
}

impl Default for ProjectSummary {
    fn default() -> (r: ProjectSummary)
        ensures
            r.id@ == Seq::<char>::empty(),
            r.name@ == Seq::<char>::empty(),
            r.workflow@ == Seq::<char>::empty(),
            r.copied_files == 0,
            r.copied_bytes == 0,
            r.classified == 0,
            r.unclassified == 0,
            !r.backup_ok,
            !r.packaged,
    {
        ProjectSummary {
            id: String::new(),
            name: String::new(),
            workflow: String::new(),
            copied_files: 0,
            copied_bytes: 0,
            classified: 0,
            unclassified: 0,
            backup_ok: false,
            packaged: false,
        }
    }
}

/// The folder template of a project: workflow A's, or workflow B's for its
/// categories.
pub open spec fn template_of(p: Project) -> Seq<Seq<char>> {
    if p.workflow@ == "A"@ {
        workflow_a_template()
    } else {
        workflow_b_template(string_views(p.categories@))
    }
}

/// The first of `fs` that contains `needle`.
pub open spec fn first_containing(fs: Seq<Seq<char>>, needle: Seq<char>) -> Option<Seq<char>>
    decreases fs.len(),
{
    if fs.len() == 0 {
        None
    } else if contains_text(fs[0], needle) {
        Some(fs[0])
    } else {
        first_containing(fs.drop_first(), needle)
    }
}

/// The metadata folders of `.ocard`.
pub open spec fn meta_folders() -> Seq<Seq<char>> {
    seq![".ocard"@, ".ocard/manifests"@, ".ocard/logs"@, ".ocard/thumbs"@, ".ocard/trash"@]
}

/// The folders a new project gets, relative to its root: `.ocard` and its
/// sub-folders, the template, and in workflow B the retouch folders inside the
/// picks folder.
pub open spec fn project_folders(p: Project) -> Seq<Seq<char>> {
    meta_folders() + template_of(p) + if p.workflow@ == "B"@ {
        match first_containing(template_of(p), "精选"@) {
            Some(f) => seq![path_join(f, select_template()[0]), path_join(f, select_template()[1])],
            None => Seq::empty(),
        }
    } else {
        Seq::empty()
    }
}

/// Why a project cannot be created, if it cannot: a workflow other than `A` or `B`
/// (surrounding white space aside), a date that is not eight digits, or a project
/// folder that already exists.
pub open spec fn create_error(date: Seq<char>, name: Seq<char>, workflow: Seq<char>, root_exists: bool) -> Option<Seq<char>> {
    if trim(workflow) != "A"@ && trim(workflow) != "B"@ {
        Some("工况必须为 A 或 B"@)
    } else if !is_compact_date(date) {
        Some("日期必须为 YYYYMMDD"@)
    } else if root_exists {
        Some("项目已存在："@ + project_id_of(date, name, date))
    } else {
        None
    }
}

/// The workstation's copies all fully verified: files, and each verified.
pub open spec fn fully_verified(m: Manifest) -> bool {
    m.files@.len() > 0 && count_verified(m.files@) == m.files@.len()
}

/// The number of files of each manifest.
pub open spec fn manifest_file_counts(ms: Seq<Manifest>) -> Seq<int> {
    ms.map_values(|m: Manifest| m.files@.len() as int)
}

/// The bytes of each manifest.
pub open spec fn manifest_byte_totals(ms: Seq<Manifest>) -> Seq<int> {
    ms.map_values(|m: Manifest| sum_sizes(m.files@) as int)
}

fn sanitize_all(cats: &[String]) -> (r: Vec<String>)
    ensures
        string_views(r@) == string_views(cats@).map_values(|c: Seq<char>| sanitized(c)),
{
    let mut r: Vec<String> = Vec::new();
    let mut i: usize = 0;
    while i < cats.len()
        invariant
            i <= cats@.len(),
            string_views(r@) == string_views(cats@.take(i as int)).map_values(|c: Seq<char>| sanitized(c)),
        decreases cats@.len() - i,
    {
        let s = sanitize_filename(cats[i].as_str());
        let ghost before = r@;
        r.push(s);
        assert(string_views(r@) =~= string_views(before).push(sanitized(cats@[i as int]@)));
        assert(string_views(cats@.take(i + 1)) =~= string_views(cats@.take(i as int)).push(cats@[i as int]@));
        assert(string_views(r@) =~= string_views(cats@.take(i + 1)).map_values(|c: Seq<char>| sanitized(c)));
        i = i + 1;
    }
    assert(cats@.take(cats@.len() as int) =~= cats@);
    r
}

impl Project {
    /// The project's folder template.
    pub fn folder_template(&self) -> (r: Vec<String>)
        requires
            self.categories@.len() + 3 <= u64::MAX,
        ensures
            string_views(r@) == template_of(*self),
    {
        if str_eq(self.workflow.as_str(), "A") {
            workflow_a_folders()
        } else {
            workflow_b_folders(self.categories.as_slice())
        }
    }

    /// A new project from the wizard's date, name, workflow and categories, stamped
    /// now; `root_exists` tells whether `{nas_root}/{id}` is already there. The
    /// workflow is checked first, then the date, then the folder.
    pub fn create(date: &str, name: &str, workflow: &str, categories: &[String], root_exists: bool) -> (r: Result<Project, String>)
        ensures
            match create_error(date@, name@, workflow@, root_exists) {
                Some(e) => r is Err && r->Err_0@ == e,
                None => r is Ok && {
                    let p = r->Ok_0;
                    &&& p.id@ == project_id_of(date@, name@, date@)
                    &&& p.name@ == sanitized(name@)
                    &&& p.date@ == date@
                    &&& p.workflow@ == trim(workflow@)
                    &&& string_views(p.categories@) == string_views(categories@).map_values(|c: Seq<char>| sanitized(c))
                    &&& rfc3339_stamp(p.created_at@)
                },
            },
    {
        let wf_chars = trim_str(workflow);
        let wf = string_of(wf_chars.as_slice());
        let is_a = str_eq(wf.as_str(), "A");
        let is_b = str_eq(wf.as_str(), "B");
        if !is_a && !is_b {
            return Err("工况必须为 A 或 B".to_owned());
        }
        if !compact_date(date) {
            return Err("日期必须为 YYYYMMDD".to_owned());
        }
        let id = project_id_on(date, name, date);
        if root_exists {
            let mut msg = "项目已存在：".to_owned();
            msg.append(id.as_str());
            return Err(msg);
        }
        Ok(Project {
            id,
            name: sanitize_filename(name),
            date: date.to_owned(),
            workflow: wf,
            categories: sanitize_all(categories),
            created_at: now_rfc3339(),
        })
    }

    /// The folders to create for this project, relative to its root.
    pub fn folders_to_create(&self) -> (r: Vec<String>)
        requires
            self.categories@.len() + 3 <= u64::MAX,
        ensures
            string_views(r@) == project_folders(*self),
    {
        let mut r: Vec<String> = vec![
            ".ocard".to_owned(),
            ".ocard/manifests".to_owned(),
            ".ocard/logs".to_owned(),
            ".ocard/thumbs".to_owned(),
            ".ocard/trash".to_owned(),
        ];
        assert(string_views(r@) =~= meta_folders());
        let template = self.folder_template();
        let ghost t = string_views(template@);
        let mut i: usize = 0;
        while i < template.len()
            invariant
                i <= template@.len(),
                t == string_views(template@),
                t == template_of(*self),
                string_views(r@) == meta_folders() + t.take(i as int),
            decreases template@.len() - i,
        {
            let ghost before = r@;
            let f = template[i].clone();
            r.push(f);
            assert(string_views(r@) =~= string_views(before).push(t[i as int]));
            assert(string_views(r@) =~= meta_folders() + t.take(i + 1));
            i = i + 1;
        }
        assert(t.take(t.len() as int) =~= t);
        let ghost base = string_views(r@);
        if str_eq(self.workflow.as_str(), "B") {
            let mut k: usize = 0;
            let mut found = false;
            assert(t.skip(0) =~= t);
            while !found && k < template.len()
                invariant
                    k <= template@.len(),
                    t == string_views(template@),
                    found ==> k < template@.len() && first_containing(t, "精选"@) == Some(t[k as int]),
                    !found ==> first_containing(t, "精选"@) == first_containing(t.skip(k as int), "精选"@),
                decreases template@.len() - k + (if found { 0int } else { 1int }),
            {
                if contains_str(template[k].as_str(), "精选") {
                    found = true;
                } else {
                    assert(t.skip(k as int).drop_first() =~= t.skip(k + 1));
                    k = k + 1;
                }
            }
            if found {
                let sel = select_folders();
                assert(string_views(sel@).len() == select_template().len());
                assert(sel@.len() == 2);
                let a = join(template[k].as_str(), sel[0].as_str());
                let b = join(template[k].as_str(), sel[1].as_str());
                r.push(a);
                r.push(b);
                assert(string_views(r@) =~= project_folders(*self));
            } else {
                assert(t.skip(k as int) =~= Seq::<Seq<char>>::empty());
                assert(string_views(r@) =~= project_folders(*self));
            }
        } else {
            assert(string_views(r@) =~= project_folders(*self));
        }
        r
    }

    /// The project's state from the manifests of its card copies, the number of
    /// files left in `1. 待分类` (counted for workflow B only) and whether a
    /// delivery was packaged.
    pub fn summary(&self, manifests: &[Manifest], unclassified: u64, packaged: bool) -> (r: ProjectSummary)
        requires
            sum_of(manifest_file_counts(manifests@)) <= u64::MAX,
            sum_of(manifest_byte_totals(manifests@)) <= u64::MAX,
        ensures
            r.id == self.id,
            r.name == self.name,
            r.workflow == self.workflow,
            r.copied_files == sum_of(manifest_file_counts(manifests@)),
            r.copied_bytes == sum_of(manifest_byte_totals(manifests@)),
            r.backup_ok == exists|k: int| 0 <= k < manifests@.len() && fully_verified(#[trigger] manifests@[k]),
            self.workflow@ == "B"@ ==> r.unclassified == unclassified && r.classified == (if r.copied_files >= unclassified {
                r.copied_files - unclassified
            } else {
                0
            }),
            self.workflow@ != "B"@ ==> r.unclassified == 0 && r.classified == 0,
            r.packaged == packaged,
    {
        let ghost counts = manifest_file_counts(manifests@);
        let ghost bytes = manifest_byte_totals(manifests@);
        let mut files: u64 = 0;
        let mut total: u64 = 0;
        let mut backup_ok = false;
        let mut i: usize = 0;
        while i < manifests.len()
            invariant
                i <= manifests@.len(),
                counts == manifest_file_counts(manifests@),
                bytes == manifest_byte_totals(manifests@),
                sum_of(counts) <= u64::MAX,
                sum_of(bytes) <= u64::MAX,
                files == sum_of(counts.take(i as int)),
                total == sum_of(bytes.take(i as int)),
                backup_ok == exists|k: int| 0 <= k < i && fully_verified(#[trigger] manifests@[k]),
            decreases manifests@.len() - i,
        {
            let m = &manifests[i];
            proof {
                assert forall|u: int| 0 <= u < counts.len() implies counts[u] >= 0 by {}
                assert forall|u: int| 0 <= u < bytes.len() implies bytes[u] >= 0 by {}
                lemma_sum_of_prefix(counts, i + 1);
                lemma_sum_of_prefix(bytes, i + 1);
                lemma_sum_of_element(bytes, i as int);
                assert(counts.take(i + 1).drop_last() =~= counts.take(i as int));
                assert(bytes.take(i + 1).drop_last() =~= bytes.take(i as int));
            }
            files = files + m.files.len() as u64;
            total = total + m.total_bytes();
            if m.all_verified() {
                backup_ok = true;
            }
            i = i + 1;
        }
        assert(counts.take(counts.len() as int) =~= counts);
        assert(bytes.take(bytes.len() as int) =~= bytes);
        let (classified, pending) = if str_eq(self.workflow.as_str(), "B") {
            (files.saturating_sub(unclassified), unclassified)
        } else {
            (0, 0)
        };
        ProjectSummary {
            id: self.id.clone(),
            name: self.name.clone(),
            workflow: self.workflow.clone(),
            copied_files: files,
            copied_bytes: total,
            classified,
            unclassified: pending,
            backup_ok,
            packaged,
        }
    }
}

/// The folder a file classified into `category` goes to, relative to the project
/// root: the first template folder whose name contains `category` (so also one that
/// starts or ends with it); inside the picks folder, its `待修` sub-folder.
pub open spec fn category_dir_of(p: Project, category: Seq<char>) -> Option<Seq<char>> {
    match first_containing(template_of(p), category) {
        Some(f) => Some(
            if contains_text(f, "精选"@) {
                path_join(f, select_template()[0])
            } else {
                f
            },
        ),
        None => None,
    }
}

impl Project {
    /// Where a file classified into `category` goes (see [`category_dir_of`]), or
    /// `未找到分类目录：{category}` when no folder matches.
    pub fn category_folder(&self, category: &str) -> (r: Result<String, String>)
        requires
            self.categories@.len() + 3 <= u64::MAX,
        ensures
            match category_dir_of(*self, category@) {
                Some(d) => r is Ok && r->Ok_0@ == d,
                None => r is Err && r->Err_0@ == "未找到分类目录："@ + category@,
            },
    {
        let template = self.folder_template();
        let ghost t = string_views(template@);
        let mut k: usize = 0;
        let mut found = false;
        assert(t.skip(0) =~= t);
        while !found && k < template.len()
            invariant
                k <= template@.len(),
                t == string_views(template@),
                t == template_of(*self),
                found ==> k < template@.len() && first_containing(t, category@) == Some(t[k as int]),
                !found ==> first_containing(t, category@) == first_containing(t.skip(k as int), category@),
            decreases template@.len() - k + (if found { 0int } else { 1int }),
        {
            if contains_str(template[k].as_str(), category) {
                found = true;
            } else {
                assert(t.skip(k as int).drop_first() =~= t.skip(k + 1));
                k = k + 1;
            }
        }
        if found {
            if contains_str(template[k].as_str(), "精选") {
                let sel = select_folders();
                assert(string_views(sel@).len() == select_template().len());
                Ok(join(template[k].as_str(), sel[0].as_str()))
            } else {
                Ok(template[k].clone())
            }
        } else {
            assert(t.skip(k as int) =~= Seq::<Seq<char>>::empty());
            let mut msg = "未找到分类目录：".to_owned();
            msg.append(category);
            Err(msg)
        }
    }
}

impl TextKey for Project {
    /// Projects are listed by id.
    open spec fn key(&self) -> Seq<char> {
        self.id@
    }

    fn key_str(&self) -> (r: &str) {
        self.id.as_str()
    }
}

/// The extensions counted as media files in a project folder.
pub open spec fn counted_media_exts() -> Seq<Seq<char>> {
    seq![
        "jpg"@, "jpeg"@, "png"@, "tif"@, "tiff"@, "arw"@, "cr2"@, "cr3"@, "nef"@, "raf"@, "dng"@,
        "orf"@, "rw2"@, "mp4"@, "mov"@, "mxf"@, "braw"@, "r3d"@, "avi"@, "mts"@, "m2ts"@,
    ]
}

/// Whether a file with this extension is counted as a media file (case-insensitive).
pub fn is_counted_media_ext(ext: &str) -> (r: bool)
    ensures
        r == counted_media_exts().contains(unicode_lower(ext@)),
{
    let lower = to_lower(ext);
    let list: Vec<&str> = vec![
        "jpg", "jpeg", "png", "tif", "tiff", "arw", "cr2", "cr3", "nef", "raf", "dng", "orf",
        "rw2", "mp4", "mov", "mxf", "braw", "r3d", "avi", "mts", "m2ts",
    ];
    let r = crate::text::listed_str(lower.as_str(), list.as_slice());
    assert(crate::text::str_views(list@) =~= counted_media_exts());
    r
}

} // verus!
