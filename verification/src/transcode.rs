//! Transcoding: encoder choice per platform, ffmpeg command lines, output names
//! and the job queue. Running ffmpeg itself happens outside the library; the
//! queue records what it decided and what came back.
use vstd::prelude::*;
use crate::text::{decimal_signed, decimal_string_signed, str_eq, chars_of, string_of, last_index, rfind_char, slice_range, to_lower, unicode_lower, decimal, decimal_string};
use crate::paths::{path_join, join, file_name_or_default, file_name_or_empty};
use crate::text::{contains_text, contains_str, clone_all};

verus! {

broadcast use vstd::string::group_string_axioms;

/// Preset level.
#[derive(Debug, Clone, Copy, PartialEq, Eq)]
pub enum QualityPreset {
    /// High quality (archive).
    High,
    /// Balanced.
    Balanced,
    /// Strong compression.
    Compact,
}

/// Kind of transcode.
#[derive(Debug, Clone, Copy, PartialEq, Eq)]
pub enum JobKind {
    /// Proxy (h264, low bit rate).
    Proxy { preset: QualityPreset },
    /// Archive (HEVC 10-bit).
    Archive { preset: QualityPreset },
}

#[derive(Debug, Clone, Copy, PartialEq, Eq, Structural)]
pub enum JobStatus {
    Pending,
    Running,
    Done,
    Failed,
}

/// The operating system the program was built for, which decides the encoder order.
#[derive(Debug, Clone, Copy, PartialEq, Eq)]
pub enum Platform {
    Windows,
    MacOs,
    /// Linux and the other Unix systems.
    OtherUnix,
    Other,
}

/// A transcode job.
#[derive(Debug, Clone, PartialEq)]
pub struct TranscodeJob {
    pub id: String,
    pub input: String,
    /// Output directory (usually `4. 转码素材/{camera code}`).
    pub output_dir: String,
    pub kind: JobKind,
    pub status: JobStatus,
    /// The full ffmpeg command, kept once built.
    pub command: Option<Vec<String>>,
    pub error: Option<String>,
}

/// Encoders available on this machine.
#[derive(Debug, Clone, Default, PartialEq)]
pub struct EncoderInfo {
    pub platform: String,
    pub nvenc: bool,
    pub qsv: bool,
    pub amf: bool,
    pub videotoolbox: bool,
    pub vaapi: bool,
    pub ffmpeg_available: bool,
}

/// The job queue.
#[derive(Debug, Clone, Default, PartialEq)]
pub struct TranscodeQueue {
    pub jobs: Vec<TranscodeJob>,
}

impl QualityPreset {
    pub open spec fn label_text(self) -> Seq<char> {
        match self {
            QualityPreset::High => "高质量"@,
            QualityPreset::Balanced => "平衡"@,
            QualityPreset::Compact => "高压缩"@,
        }
    }

    pub open spec fn crf(self) -> int {
        match self {
            QualityPreset::High => 18,
            QualityPreset::Balanced => 23,
            QualityPreset::Compact => 28,
        }
    }

    /// Display label.
    pub fn label(&self) -> (r: &'static str)
        ensures
            r@ == self.label_text(),
    {
        match self {
            QualityPreset::High => "高质量",
            QualityPreset::Balanced => "平衡",
            QualityPreset::Compact => "高压缩",
        }
    }

    /// CRF of the HEVC 10-bit archive levels.
    pub fn hevc_crf(&self) -> (r: i32)
        ensures
            r == self.crf(),
    {
        match self {
            QualityPreset::High => 18,
            QualityPreset::Balanced => 23,
            QualityPreset::Compact => 28,
        }
    }

    /// CRF of the proxy levels.
    pub fn proxy_crf(&self) -> (r: i32)
        ensures
            r == self.crf(),
    {
        match self {
            QualityPreset::High => 18,
            QualityPreset::Balanced => 23,
            QualityPreset::Compact => 28,
        }
    }
}

impl EncoderInfo {
    /// The h264 encoder to use: the platform's hardware encoders in order of
    /// preference, else `libx264`.
    pub open spec fn video_codec(self, os: Platform) -> Seq<char> {
        match os {
            Platform::MacOs => if self.videotoolbox {
                "h264_videotoolbox"@
            } else {
                "libx264"@
            },
            Platform::Windows => if self.nvenc {
                "h264_nvenc"@
            } else if self.qsv {
                "h264_qsv"@
            } else if self.amf {
                "h264_amf"@
            } else {
                "libx264"@
            },
            Platform::OtherUnix => if self.nvenc {
                "h264_nvenc"@
            } else if self.qsv {
                "h264_qsv"@
            } else if self.vaapi {
                "h264_vaapi"@
            } else {
                "libx264"@
            },
            Platform::Other => "libx264"@,
        }
    }

    /// The HEVC encoder to use: the platform's hardware encoders in order of
    /// preference, else `libx265`.
    pub open spec fn hevc_codec(self, os: Platform) -> Seq<char> {
        match os {
            Platform::MacOs => if self.videotoolbox {
                "hevc_videotoolbox"@
            } else {
                "libx265"@
            },
            Platform::Windows | Platform::OtherUnix => if self.nvenc {
                "hevc_nvenc"@
            } else if self.qsv {
                "hevc_qsv"@
            } else {
                "libx265"@
            },
            Platform::Other => "libx265"@,
        }
    }

    /// Without any hardware encoder, every platform falls back to the software
    /// encoders `libx264` and `libx265`.
    pub proof fn lemma_software_fallback(e: EncoderInfo, os: Platform)
        requires
            !e.nvenc && !e.qsv && !e.amf && !e.videotoolbox && !e.vaapi,
        ensures
            e.video_codec(os) == "libx264"@,
            e.hevc_codec(os) == "libx265"@,
    {
    }

    /// The hardware encoders are preferred in a fixed order, and the software
    /// encoders `libx264` / `libx265` are chosen only when no hardware encoder that the
    /// platform uses is available: on Windows and other Unix systems NVENC first, then
    /// Quick Sync, then AMF (Windows, h264 only) or VA-API (other Unix, h264 only); on
    /// macOS VideoToolbox; elsewhere always software.
    pub proof fn lemma_encoder_preference(e: EncoderInfo, os: Platform)
        ensures
            (os == Platform::Windows || os == Platform::OtherUnix) && e.nvenc ==> e.hevc_codec(os)
                == "hevc_nvenc"@ && e.video_codec(os) == "h264_nvenc"@,
            (os == Platform::Windows || os == Platform::OtherUnix) && !e.nvenc && e.qsv ==> e.hevc_codec(os)
                == "hevc_qsv"@ && e.video_codec(os) == "h264_qsv"@,
            (os == Platform::Windows || os == Platform::OtherUnix) ==> (e.hevc_codec(os) == "libx265"@
                <==> !e.nvenc && !e.qsv),
            os == Platform::Windows ==> (e.video_codec(os) == "libx264"@ <==> !e.nvenc && !e.qsv && !e.amf),
            os == Platform::Windows && !e.nvenc && !e.qsv && e.amf ==> e.video_codec(os) == "h264_amf"@,
            os == Platform::OtherUnix ==> (e.video_codec(os) == "libx264"@ <==> !e.nvenc && !e.qsv && !e.vaapi),
            os == Platform::OtherUnix && !e.nvenc && !e.qsv && e.vaapi ==> e.video_codec(os) == "h264_vaapi"@,
            os == Platform::MacOs && e.videotoolbox ==> e.hevc_codec(os) == "hevc_videotoolbox"@
                && e.video_codec(os) == "h264_videotoolbox"@,
            os == Platform::MacOs ==> (e.hevc_codec(os) == "libx265"@ <==> !e.videotoolbox)
                && (e.video_codec(os) == "libx264"@ <==> !e.videotoolbox),
            os == Platform::Other ==> e.hevc_codec(os) == "libx265"@ && e.video_codec(os) == "libx264"@,
    {
        reveal_strlit("libx265");
        reveal_strlit("libx264");
        reveal_strlit("hevc_nvenc");
        reveal_strlit("hevc_qsv");
        reveal_strlit("hevc_videotoolbox");
        reveal_strlit("h264_nvenc");
        reveal_strlit("h264_qsv");
        reveal_strlit("h264_amf");
        reveal_strlit("h264_vaapi");
        reveal_strlit("h264_videotoolbox");
        assert("libx265"@.len() == 7 && "libx264"@.len() == 7);
        assert("hevc_nvenc"@.len() == 10 && "hevc_qsv"@.len() == 8 && "hevc_videotoolbox"@.len() == 17);
        assert("h264_nvenc"@.len() == 10 && "h264_qsv"@.len() == 8 && "h264_amf"@.len() == 8);
        assert("h264_vaapi"@.len() == 10 && "h264_videotoolbox"@.len() == 17);
    }

    /// Preferred h264 encoder name (for ffmpeg `-c:v`) on `os`.
    pub fn preferred_video_codec(&self, os: Platform) -> (r: String)
        ensures
            r@ == self.video_codec(os),
    {
        let s = match os {
            Platform::MacOs => if self.videotoolbox {
                "h264_videotoolbox"
            } else {
                "libx264"
            },
            Platform::Windows => if self.nvenc {
                "h264_nvenc"
            } else if self.qsv {
                "h264_qsv"
            } else if self.amf {
                "h264_amf"
            } else {
                "libx264"
            },
            Platform::OtherUnix => if self.nvenc {
                "h264_nvenc"
            } else if self.qsv {
                "h264_qsv"
            } else if self.vaapi {
                "h264_vaapi"
            } else {
                "libx264"
            },
            Platform::Other => "libx264",
        };
        s.to_owned()
    }

    /// Preferred HEVC encoder name (archive) on `os`.
    pub fn preferred_hevc_codec(&self, os: Platform) -> (r: String)
        ensures
            r@ == self.hevc_codec(os),
    {
        let s = match os {
            Platform::MacOs => if self.videotoolbox {
                "hevc_videotoolbox"
            } else {
                "libx265"
            },
            Platform::Windows | Platform::OtherUnix => if self.nvenc {
                "hevc_nvenc"
            } else if self.qsv {
                "hevc_qsv"
            } else {
                "libx265"
            },
            Platform::Other => "libx265",
        };
        s.to_owned()
    }
}

/// The texts of a list of strings.
pub open spec fn texts(v: Seq<String>) -> Seq<Seq<char>> {
    v.map_values(|s: String| s@)
}

/// The ffmpeg arguments for a job: proxies are scaled to at most 1920 wide and
/// encoded as h264 with AAC 128k; archives keep the resolution and are encoded as
/// HEVC 10-bit with AAC 192k; software encoders get a speed preset.
pub open spec fn ffmpeg_command(job: JobKind, input: Seq<char>, output: Seq<char>, e: EncoderInfo, os: Platform) -> Seq<Seq<char>> {
    seq!["ffmpeg"@, "-y"@, "-i"@, input] + match job {
        JobKind::Proxy { preset } => seq![
            "-vf"@,
            "scale='min(1920,iw)':-2"@,
            "-c:v"@,
            e.video_codec(os),
        ] + (if e.video_codec(os) == "libx264"@ {
            seq!["-preset"@, "veryfast"@]
        } else {
            Seq::empty()
        }) + seq![
            "-crf"@,
            decimal_signed(preset.crf()),
            "-c:a"@,
            "aac"@,
            "-b:a"@,
            "128k"@,
            "-movflags"@,
            "+faststart"@,
        ],
        JobKind::Archive { preset } => seq![
            "-c:v"@,
            e.hevc_codec(os),
            "-pix_fmt"@,
            "yuv420p10le"@,
        ] + (if e.hevc_codec(os) == "libx265"@ {
            seq!["-preset"@, "medium"@]
        } else {
            Seq::empty()
        }) + seq![
            "-crf"@,
            decimal_signed(preset.crf()),
            "-c:a"@,
            "aac"@,
            "-b:a"@,
            "192k"@,
            "-movflags"@,
            "+faststart"@,
        ],
    } + seq![output]
}

/// Where the encoder stands in a command: an archive is encoded with `-c:v` set to
/// the platform's HEVC encoder (so NVENC where it is available on Windows and
/// other Unix systems), and only the software encoder gets the `-preset medium`
/// speed setting; a proxy is scaled, then encoded with the h264 encoder, and only
/// the software one gets `-preset veryfast`. The command reads `input` and ends
/// with `output`.
pub proof fn lemma_command_encoder(job: JobKind, input: Seq<char>, output: Seq<char>, e: EncoderInfo, os: Platform)
    ensures
        ({
            let c = ffmpeg_command(job, input, output, e, os);
            &&& c[0] == "ffmpeg"@ && c[2] == "-i"@ && c[3] == input && c.last() == output
            &&& job is Archive ==> {
                &&& c[4] == "-c:v"@ && c[5] == e.hevc_codec(os)
                &&& (os == Platform::Windows || os == Platform::OtherUnix) && e.nvenc ==> c[5] == "hevc_nvenc"@
                    && c[8] == "-crf"@
                &&& e.hevc_codec(os) == "libx265"@ <==> c[8] == "-preset"@
                &&& e.hevc_codec(os) == "libx265"@ ==> c[9] == "medium"@
            }
            &&& job is Proxy ==> {
                &&& c[4] == "-vf"@ && c[6] == "-c:v"@ && c[7] == e.video_codec(os)
                &&& e.video_codec(os) == "libx264"@ <==> c[8] == "-preset"@
                &&& e.video_codec(os) == "libx264"@ ==> c[9] == "veryfast"@
            }
        }),
{
    EncoderInfo::lemma_encoder_preference(e, os);
    reveal_strlit("-crf");
    reveal_strlit("-preset");
    assert("-crf"@.len() == 4 && "-preset"@.len() == 7);
}

fn push_text(v: &mut Vec<String>, s: &str)
    ensures
        texts(final(v)@) == texts(old(v)@).push(s@),
{
    let ghost before = v@;
    v.push(s.to_owned());
    assert(texts(v@) =~= texts(before).push(s@));
}

/// Builds the ffmpeg argument list for a job (it is not run here).
pub fn build_ffmpeg_command(job: &JobKind, input: &str, output: &str, encoders: &EncoderInfo, os: Platform) -> (r: Vec<String>)
    ensures
        texts(r@) == ffmpeg_command(*job, input@, output@, *encoders, os),
{
    let mut cmd: Vec<String> = Vec::new();
    push_text(&mut cmd, "ffmpeg");
    push_text(&mut cmd, "-y");
    push_text(&mut cmd, "-i");
    push_text(&mut cmd, input);
    let ghost head = texts(cmd@);
    match job {
        JobKind::Proxy { preset } => {
            push_text(&mut cmd, "-vf");
            push_text(&mut cmd, "scale='min(1920,iw)':-2");
            push_text(&mut cmd, "-c:v");
            let codec = encoders.preferred_video_codec(os);
            push_text(&mut cmd, codec.as_str());
            let ghost mid = texts(cmd@);
            if str_eq(codec.as_str(), "libx264") {
                push_text(&mut cmd, "-preset");
                push_text(&mut cmd, "veryfast");
            }
            let ghost mid2 = texts(cmd@);
            push_text(&mut cmd, "-crf");
            let crf = decimal_string_signed(preset.proxy_crf() as i64);
            push_text(&mut cmd, crf.as_str());
            push_text(&mut cmd, "-c:a");
            push_text(&mut cmd, "aac");
            push_text(&mut cmd, "-b:a");
            push_text(&mut cmd, "128k");
            push_text(&mut cmd, "-movflags");
            push_text(&mut cmd, "+faststart");
        },
        JobKind::Archive { preset } => {
            push_text(&mut cmd, "-c:v");
            let codec = encoders.preferred_hevc_codec(os);
            push_text(&mut cmd, codec.as_str());
            push_text(&mut cmd, "-pix_fmt");
            push_text(&mut cmd, "yuv420p10le");
            if str_eq(codec.as_str(), "libx265") {
                push_text(&mut cmd, "-preset");
                push_text(&mut cmd, "medium");
            }
            push_text(&mut cmd, "-crf");
            let crf = decimal_string_signed(preset.hevc_crf() as i64);
            push_text(&mut cmd, crf.as_str());
            push_text(&mut cmd, "-c:a");
            push_text(&mut cmd, "aac");
            push_text(&mut cmd, "-b:a");
            push_text(&mut cmd, "192k");
            push_text(&mut cmd, "-movflags");
            push_text(&mut cmd, "+faststart");
        },
    }
    push_text(&mut cmd, output);
    assert(texts(cmd@) =~= ffmpeg_command(*job, input@, output@, *encoders, os));
    cmd
}

/// The file name without its extension: up to the last `.` when that is not the
/// first character.
pub open spec fn file_stem(name: Seq<char>) -> Seq<char> {
    let k = last_index(name, '.');
    if k > 0 {
        name.take(k)
    } else {
        name
    }
}

/// `{stem}_proxy.mp4` or `{stem}_arc.mp4`.
pub open spec fn output_filename_of(input_name: Seq<char>, kind: JobKind) -> Seq<char> {
    file_stem(input_name) + match kind {
        JobKind::Proxy { .. } => "_proxy.mp4"@,
        JobKind::Archive { .. } => "_arc.mp4"@,
    }
}

/// Output file name for a job's input.
pub fn output_filename(input_name: &str, kind: &JobKind) -> (r: String)
    ensures
        r@ == output_filename_of(input_name@, *kind),
{
    let v = chars_of(input_name);
    let stem = match rfind_char(v.as_slice(), '.') {
        Some(i) if i > 0 => slice_range(v.as_slice(), 0, i),
        _ => slice_range(v.as_slice(), 0, v.len()),
    };
    assert(stem@ == file_stem(input_name@)) by {
        assert(v@.subrange(0, v@.len() as int) =~= v@);
        if last_index(v@, '.') > 0 {
            assert(v@.subrange(0, last_index(v@, '.')) =~= v@.take(last_index(v@, '.')));
        }
    }
    let mut r = string_of(stem.as_slice());
    match kind {
        JobKind::Proxy { .. } => r.append("_proxy.mp4"),
        JobKind::Archive { .. } => r.append("_arc.mp4"),
    }
    r
}

/// Number of jobs with status `st`.
pub open spec fn count_status(jobs: Seq<TranscodeJob>, st: JobStatus) -> nat
    decreases jobs.len(),
{
    if jobs.len() == 0 {
        0
    } else {
        count_status(jobs.drop_last(), st) + if jobs.last().status == st {
            1nat
        } else {
            0nat
        }
    }
}

impl TranscodeQueue {
    /// Adds a pending job with the next id `tj-{n}`.
    pub fn add(&mut self, input: String, output_dir: String, kind: JobKind) -> (r: TranscodeJob)
        requires
            old(self).jobs@.len() < u64::MAX,
        ensures
            r.id@ == "tj-"@ + decimal((old(self).jobs@.len() + 1) as nat),
            r.input == input,
            r.output_dir == output_dir,
            r.kind == kind,
            r.status == JobStatus::Pending,
            r.command is None,
            r.error is None,
            final(self).jobs@ == old(self).jobs@.push(r),
            count_status(final(self).jobs@, JobStatus::Pending) == count_status(old(self).jobs@, JobStatus::Pending) + 1,
            count_status(final(self).jobs@, JobStatus::Running) == count_status(old(self).jobs@, JobStatus::Running),
            count_status(final(self).jobs@, JobStatus::Done) == count_status(old(self).jobs@, JobStatus::Done),
    {
        let mut id = "tj-".to_owned();
        let n = decimal_string(self.jobs.len() as u64 + 1);
        id.append(n.as_str());
        let job = TranscodeJob {
            id,
            input,
            output_dir,
            kind,
            status: JobStatus::Pending,
            command: None,
            error: None,
        };
        let stored = TranscodeJob {
            id: job.id.clone(),
            input: job.input.clone(),
            output_dir: job.output_dir.clone(),
            kind,
            status: JobStatus::Pending,
            command: None,
            error: None,
        };
        let ghost before = self.jobs@;
        self.jobs.push(stored);
        assert(self.jobs@.drop_last() =~= before);
        job
    }

    fn count(&self, st: JobStatus) -> (n: usize)
        ensures
            n == count_status(self.jobs@, st),
    {
        let mut n: usize = 0;
        let mut i: usize = 0;
        while i < self.jobs.len()
            invariant
                i <= self.jobs@.len(),
                n <= i,
                n == count_status(self.jobs@.take(i as int), st),
            decreases self.jobs@.len() - i,
        {
            assert(self.jobs@.take(i + 1).drop_last() =~= self.jobs@.take(i as int));
            if self.jobs[i].status == st {
                n = n + 1;
            }
            i = i + 1;
        }
        assert(self.jobs@.take(self.jobs@.len() as int) =~= self.jobs@);
        n
    }

    /// Number of pending jobs.
    pub fn pending(&self) -> (n: usize)
        ensures
            n == count_status(self.jobs@, JobStatus::Pending),
    {
        self.count(JobStatus::Pending)
    }

    /// Number of running jobs.
    pub fn running(&self) -> (n: usize)
        ensures
            n == count_status(self.jobs@, JobStatus::Running),
    {
        self.count(JobStatus::Running)
    }

    /// Number of finished jobs.
    pub fn done_count(&self) -> (n: usize)
        ensures
            n == count_status(self.jobs@, JobStatus::Done),
    {
        self.count(JobStatus::Done)
    }
}

// ---------------------------------------------------------------------------
// Probing and running
// ---------------------------------------------------------------------------

/// Reads an `ffmpeg -hide_banner -encoders` listing (`None` when ffmpeg could not
/// be run or failed): which hardware encoder families it mentions, case-insensitively.
pub fn encoder_info_from_listing(platform: &str, listing: Option<&str>) -> (r: EncoderInfo)
    ensures
        r.platform@ == platform@,
        match listing {
            None => !r.ffmpeg_available && !r.nvenc && !r.qsv && !r.amf && !r.videotoolbox && !r.vaapi,
            Some(text) => {
                let t = unicode_lower(text@);
                &&& r.ffmpeg_available
                &&& r.nvenc == (contains_text(t, "nvenc"@) || contains_text(t, "cuda"@))
                &&& r.qsv == contains_text(t, "qsv"@)
                &&& r.amf == contains_text(t, "amf"@)
                &&& r.videotoolbox == contains_text(t, "videotoolbox"@)
                &&& r.vaapi == contains_text(t, "vaapi"@)
            },
        },
{
    match listing {
        None => EncoderInfo {
            platform: platform.to_owned(),
            nvenc: false,
            qsv: false,
            amf: false,
            videotoolbox: false,
            vaapi: false,
            ffmpeg_available: false,
        },
        Some(text) => {
            let lower = to_lower(text);
            let t = lower.as_str();
            EncoderInfo {
                platform: platform.to_owned(),
                nvenc: contains_str(t, "nvenc") || contains_str(t, "cuda"),
                qsv: contains_str(t, "qsv"),
                amf: contains_str(t, "amf"),
                videotoolbox: contains_str(t, "videotoolbox"),
                vaapi: contains_str(t, "vaapi"),
                ffmpeg_available: true,
            }
        },
    }
}

/// What a run of ffmpeg came to.
#[derive(Debug, Clone)]
pub enum RunResult {
    /// Exited successfully.
    Succeeded,
    /// Exited with failure; its standard error output.
    Failed { stderr: String },
    /// Could not be started; the error.
    NotStarted { error: String },
}

/// Index of the first job with this id.
pub open spec fn first_job_with_id(jobs: Seq<TranscodeJob>, id: Seq<char>) -> int
    decreases jobs.len(),
{
    if jobs.len() == 0 {
        -1
    } else if jobs[0].id@ == id {
        0
    } else {
        let r = first_job_with_id(jobs.drop_first(), id);
        if r < 0 {
            -1
        } else {
            r + 1
        }
    }
}

proof fn lemma_first_job(jobs: Seq<TranscodeJob>, id: Seq<char>, k: int)
    requires
        0 <= k <= jobs.len(),
        forall|j: int| 0 <= j < k ==> #[trigger] jobs[j].id@ != id,
        k < jobs.len() ==> jobs[k].id@ == id,
    ensures
        first_job_with_id(jobs, id) == (if k < jobs.len() {
            k
        } else {
            -1
        }),
    decreases jobs.len(),
{
    if jobs.len() > 0 && k > 0 {
        lemma_first_job(jobs.drop_first(), id, k - 1);
    }
}

/// The first `n` characters of `s`.
pub open spec fn prefix_chars(s: Seq<char>, n: nat) -> Seq<char> {
    if s.len() <= n {
        s
    } else {
        s.take(n as int)
    }
}

/// The output path of a job: its input's file name turned into the output name,
/// inside its output directory.
pub open spec fn job_output(job: TranscodeJob) -> Seq<char> {
    path_join(job.output_dir@, output_filename_of(file_name_or_empty(job.input@), job.kind))
}

impl TranscodeQueue {
    fn find_job(&self, id: &str) -> (r: Option<usize>)
        ensures
            match r {
                Some(i) => i < self.jobs@.len() && first_job_with_id(self.jobs@, id@) == i as int,
                None => first_job_with_id(self.jobs@, id@) == -1,
            },
    {
        let mut i: usize = 0;
        while i < self.jobs.len()
            invariant
                i <= self.jobs@.len(),
                forall|j: int| 0 <= j < i ==> #[trigger] self.jobs@[j].id@ != id@,
            decreases self.jobs@.len() - i,
        {
            if str_eq(self.jobs[i].id.as_str(), id) {
                proof {
                    lemma_first_job(self.jobs@, id@, i as int);
                }
                return Some(i);
            }
            i = i + 1;
        }
        proof {
            lemma_first_job(self.jobs@, id@, i as int);
        }
        None
    }

    /// Prepares a job to run: it must exist and not be running, and ffmpeg must be
    /// available. The job is marked running and keeps its command, which is returned.
    pub fn begin_run(&mut self, job_id: &str, encoders: &EncoderInfo, os: Platform) -> (r: Result<Vec<String>, String>)
        ensures
            ({
                let k = first_job_with_id(old(self).jobs@, job_id@);
                match r {
                    Ok(cmd) => {
                        let job = old(self).jobs@[k];
                        let now = final(self).jobs@[k];
                        &&& k >= 0
                        &&& job.status != JobStatus::Running
                        &&& encoders.ffmpeg_available
                        &&& texts(cmd@) == ffmpeg_command(job.kind, job.input@, job_output(job), *encoders, os)
                        &&& final(self).jobs@ == old(self).jobs@.update(k, now)
                        &&& now.id == job.id && now.input == job.input && now.output_dir == job.output_dir
                        &&& now.kind == job.kind && now.error == job.error
                        &&& now.status == JobStatus::Running
                        &&& now.command is Some
                        &&& texts(now.command.unwrap()@) == texts(cmd@)
                    },
                    Err(e) => {
                        &&& *final(self) == *old(self)
                        &&& if k < 0 {
                            e@ == "任务不存在"@
                        } else if old(self).jobs@[k].status == JobStatus::Running {
                            e@ == "任务运行中"@
                        } else {
                            !encoders.ffmpeg_available && e@ == "未找到 ffmpeg，请安装后重试"@
                        }
                    },
                }
            }),
    {
        let k = match self.find_job(job_id) {
            Some(k) => k,
            None => {
                return Err("任务不存在".to_owned());
            },
        };
        if self.jobs[k].status == JobStatus::Running {
            return Err("任务运行中".to_owned());
        }
        if !encoders.ffmpeg_available {
            return Err("未找到 ffmpeg，请安装后重试".to_owned());
        }
        let ghost old_jobs = self.jobs@;
        let mut job = empty_job();
        self.jobs.set_and_swap(k, &mut job);
        let name = file_name_or_default(job.input.as_str());
        let out_name = output_filename(name.as_str(), &job.kind);
        let output = join(job.output_dir.as_str(), out_name.as_str());
        let cmd = build_ffmpeg_command(&job.kind, job.input.as_str(), output.as_str(), encoders, os);
        job.status = JobStatus::Running;
        job.command = Some(clone_all(&cmd));
        self.jobs.set(k, job);
        assert(self.jobs@ =~= old_jobs.update(k as int, self.jobs@[k as int]));
        Ok(cmd)
    }

    /// Records how a run ended: success marks the job done; failure marks it failed
    /// with the first 500 characters of ffmpeg's error output, or the error that kept
    /// it from starting. Returns a copy of the updated job.
    pub fn finish_run(&mut self, job_id: &str, result: RunResult) -> (r: Result<TranscodeJob, String>)
        ensures
            ({
                let k = first_job_with_id(old(self).jobs@, job_id@);
                match r {
                    Ok(job) => {
                        let before = old(self).jobs@[k];
                        let now = final(self).jobs@[k];
                        &&& k >= 0
                        &&& final(self).jobs@ == old(self).jobs@.update(k, now)
                        &&& now.id == before.id && now.input == before.input
                        &&& now.output_dir == before.output_dir && now.kind == before.kind
                        &&& now.command == before.command
                        &&& match result {
                            RunResult::Succeeded => now.status == JobStatus::Done && now.error == before.error,
                            RunResult::Failed { stderr } => now.status == JobStatus::Failed
                                && now.error is Some && now.error.unwrap()@ == prefix_chars(stderr@, 500),
                            RunResult::NotStarted { error } => now.status == JobStatus::Failed
                                && now.error is Some && now.error.unwrap()@ == error@,
                        }
                        &&& same_job(job, now)
                    },
                    Err(e) => k < 0 && e@ == "任务不存在"@ && *final(self) == *old(self),
                }
            }),
    {
        let k = match self.find_job(job_id) {
            Some(k) => k,
            None => {
                return Err("任务不存在".to_owned());
            },
        };
        let ghost old_jobs = self.jobs@;
        let mut job = empty_job();
        self.jobs.set_and_swap(k, &mut job);
        match &result {
            RunResult::Succeeded => {
                job.status = JobStatus::Done;
            },
            RunResult::Failed { stderr } => {
                let v = chars_of(stderr.as_str());
                let n: usize = if v.len() <= 500 { v.len() } else { 500 };
                let p = slice_range(v.as_slice(), 0, n);
                assert(p@ =~= prefix_chars(stderr@, 500));
                job.status = JobStatus::Failed;
                job.error = Some(string_of(p.as_slice()));
            },
            RunResult::NotStarted { error } => {
                job.status = JobStatus::Failed;
                job.error = Some(error.clone());
            },
        }
        let copy = copy_job(&job);
        self.jobs.set(k, job);
        assert(self.jobs@ =~= old_jobs.update(k as int, self.jobs@[k as int]));
        Ok(copy)
    }
}

/// Two jobs hold the same texts and values.
pub open spec fn same_job(a: TranscodeJob, b: TranscodeJob) -> bool {
    &&& a.id@ == b.id@
    &&& a.input@ == b.input@
    &&& a.output_dir@ == b.output_dir@
    &&& a.kind == b.kind
    &&& a.status == b.status
    &&& match (a.command, b.command) {
        (Some(x), Some(y)) => texts(x@) == texts(y@),
        (None, None) => true,
        _ => false,
    }
    &&& a.error == b.error
}

fn empty_job() -> (r: TranscodeJob)
    ensures
        r.id@ == Seq::<char>::empty(),
        r.input@ == Seq::<char>::empty(),
        r.output_dir@ == Seq::<char>::empty(),
        r.kind == (JobKind::Proxy { preset: QualityPreset::Balanced }),
        r.status == JobStatus::Pending,
        r.command is None,
        r.error is None,
{
    TranscodeJob {
        id: String::new(),
        input: String::new(),
        output_dir: String::new(),
        kind: JobKind::Proxy { preset: QualityPreset::Balanced },
        status: JobStatus::Pending,
        command: None,
        error: None,
    }
}

fn copy_job(j: &TranscodeJob) -> (r: TranscodeJob)
    ensures
        same_job(r, *j),
{
    TranscodeJob {
        id: j.id.clone(),
        input: j.input.clone(),
        output_dir: j.output_dir.clone(),
        kind: j.kind,
        status: j.status,
        command: match &j.command {
            Some(c) => Some(clone_all(c)),
            None => None,
        },
        error: clone_option(&j.error),
    }
}

fn clone_option(o: &Option<String>) -> (r: Option<String>)
    ensures
        r == *o,
{
    match o {
        Some(s) => Some(s.clone()),
        None => None,
    }
}

} // verus!
