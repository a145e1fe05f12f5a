//! A compression job over the video files of a media folder: which files
//! it works on, the names of its backup and temporary files, and the
//! bookkeeping of each file's outcome.
//!
//! The encode, verify and swap of a file are the caller's work (they run
//! ffmpeg and touch the disk); [`JobRun`] records how each file ended and
//! keeps the totals that the final report carries.

use vstd::prelude::*;

use crate::ffmpeg::Codec;
use crate::numfmt::{fmt_i32, int_str};
use crate::classify::is_video_path;
use crate::path::{
    ext_dot, ext_of, extension, extension_spec, file_name, file_name_spec, file_stem, file_stem_spec,
    is_dot_segment, join, join_spec, last_index_of, last_segment, lemma_file_name_of_join, lemma_last_index_of,
    lemma_last_index_of_append, parent_dir, parent_prefix, stem_of, trim_slashes,
};
use crate::text::{chars_of, extend_chars, string_of};

verus! {

/// Settings for a single compression job.
#[derive(Debug, Clone)]
pub struct JobSettings {
    pub codec: Codec,
    pub crf: i32,
    pub downscale_720p: bool,
    pub exhaustive_verify: bool,
}

/// Stage or end state of a job.
#[derive(Debug, Clone, Copy, PartialEq, Eq, Structural)]
pub enum JobState {
    Encoding,
    Verifying,
    Swapping,
    Done,
    Cancelled,
    Failed,
}

/// Shared cancellation flag of a running job.
#[derive(Debug, Clone)]
pub struct CancelFlag(pub std::sync::Arc<std::sync::atomic::AtomicBool>);

impl CancelFlag {
    /// A flag that is not raised.
    pub fn new() -> (r: CancelFlag) {
        CancelFlag(std::sync::Arc::new(std::sync::atomic::AtomicBool::new(false)))
    }

    /// Raise the flag.
    pub fn cancel(&self) {
        self.0.store(true, std::sync::atomic::Ordering::SeqCst);
    }

    /// The flag has been raised (by any holder of a clone).
    pub fn is_cancelled(&self) -> (r: bool) {
        self.0.load(std::sync::atomic::Ordering::SeqCst)
    }
}

/// Result of a single file's compression attempt.
#[derive(Debug, Clone)]
pub struct PerFileOutcome {
    pub file: String,
    pub original_bytes: u64,
    pub compressed_bytes: Option<u64>,
    pub error: Option<String>,
    pub skipped: bool,
}

/// Final result of a job.
#[derive(Debug, Clone)]
pub struct JobReport {
    pub job_id: String,
    pub state: JobState,
    pub outcomes: Vec<PerFileOutcome>,
    pub total_original_bytes: u64,
    pub total_compressed_bytes: u64,
}

/// `<parent>/<stem>.<tag>[.<ext>]`: a sibling of `file` with `.<tag>`
/// inserted before its extension.
pub open spec fn tagged_sibling(file: Seq<char>, tag: Seq<char>) -> Seq<char> {
    let stem = match file_stem_spec(file) {
        Some(s) => s,
        None => seq![],
    };
    let ext = match extension_spec(file) {
        Some(e) => e,
        None => seq![],
    };
    let name = if ext.len() == 0 {
        stem + seq!['.'] + tag
    } else {
        stem + seq!['.'] + tag + seq!['.'] + ext
    };
    join_spec(parent_dir(file), name)
}

fn tagged_sibling_exec(file: &str, tag: &str) -> (r: String)
    ensures
        r@ == tagged_sibling(file@, tag@),
{
    let fv = chars_of(file);
    let stem = match file_stem(&fv) {
        Some(s) => s,
        None => Vec::new(),
    };
    let ext = match extension(&fv) {
        Some(e) => e,
        None => Vec::new(),
    };
    let mut name = stem;
    name.push('.');
    extend_chars(&mut name, &chars_of(tag));
    if ext.len() > 0 {
        name.push('.');
        extend_chars(&mut name, &ext);
    }
    let parent = parent_prefix(&fv);
    string_of(&join(&parent, &name))
}

/// Path of the renamed-original sibling: `<name>.original.<ext>`.
pub fn original_sidecar_path(file: &str) -> (r: String)
    ensures
        r@ == tagged_sibling(file@, "original"@),
{
    tagged_sibling_exec(file, "original")
}

/// Path of the temporary in-progress encode: `<name>.compressing.<ext>`.
pub fn temp_encode_path(file: &str) -> (r: String)
    ensures
        r@ == tagged_sibling(file@, "compressing"@),
{
    tagged_sibling_exec(file, "compressing")
}

/// The stem of `file` ends with `suffix`.
pub open spec fn stem_ends_with(file: Seq<char>, suffix: Seq<char>) -> bool {
    match file_stem_spec(file) {
        Some(s) => suffix.len() <= s.len() && s.subrange(s.len() - suffix.len(), s.len() as int) == suffix,
        None => false,
    }
}

fn stem_ends_with_exec(file: &str, suffix: &str) -> (r: bool)
    ensures
        r == stem_ends_with(file@, suffix@),
{
    let s = match file_stem(&chars_of(file)) {
        Some(s) => s,
        None => return false,
    };
    let x = chars_of(suffix);
    if x.len() > s.len() {
        return false;
    }
    let off = s.len() - x.len();
    let mut i: usize = 0;
    while i < x.len()
        invariant
            i <= x.len(),
            off + x.len() == s.len(),
            file_stem_spec(file@) == Some(s@),
            x@ == suffix@,
            forall|k: int| 0 <= k < i ==> s@[off + k] == x@[k],
        decreases x.len() - i,
    {
        if s[off + i] != x[i] {
            proof {
                assert(s@.subrange(off as int, s.len() as int)[i as int] != x@[i as int]);
                assert(s@.subrange(off as int, s.len() as int) != x@);
            }
            return false;
        }
        i = i + 1;
    }
    assert(s@.subrange(off as int, s.len() as int) =~= x@);
    true
}

/// `file` is a leftover backup (`<name>.original.<ext>`).
pub fn is_original_backup(file: &str) -> (r: bool)
    ensures
        r == stem_ends_with(file@, ".original"@),
{
    stem_ends_with_exec(file, ".original")
}

/// `file` is an interrupted encode (`<name>.compressing.<ext>`).
pub fn is_temp_encode(file: &str) -> (r: bool)
    ensures
        r == stem_ends_with(file@, ".compressing"@),
{
    stem_ends_with_exec(file, ".compressing")
}

/// The file has a non-empty extension.
pub open spec fn has_extension(file: Seq<char>) -> bool {
    extension_spec(file) matches Some(e) && e.len() > 0
}

/// The sibling tagged `tag` of a file with an extension keeps that
/// extension, and its stem ends with `.<tag>`.
proof fn lemma_tagged_sibling(file: Seq<char>, tag: Seq<char>)
    requires
        has_extension(file),
        tag.len() > 0,
        forall|k: int| 0 <= k < tag.len() ==> tag[k] != '/' && tag[k] != '.',
    ensures
        stem_ends_with(tagged_sibling(file, tag), seq!['.'] + tag),
        extension_spec(tagged_sibling(file, tag)) == extension_spec(file),
{
    let n = file_name_spec(file).unwrap();
    let t = trim_slashes(file);
    lemma_last_index_of(t, '/');
    assert(n == last_segment(t));
    assert forall|k: int| 0 <= k < n.len() implies n[k] != '/' by {
        assert(n[k] == t[last_index_of(t, '/') + 1 + k]);
    }
    let d = ext_dot(n);
    lemma_last_index_of(n, '.');
    assert(d > 0);
    let stem = n.subrange(0, d);
    let e = n.subrange(d + 1, n.len() as int);
    assert(file_stem_spec(file) == Some(stem));
    assert(extension_spec(file) == Some(e));
    assert forall|k: int| 0 <= k < e.len() implies e[k] != '.' && e[k] != '/' by {
        assert(e[k] == n[d + 1 + k]);
    }
    assert forall|k: int| 0 <= k < stem.len() implies stem[k] != '/' by {
        assert(stem[k] == n[k]);
    }
    let head = stem + seq!['.'] + tag + seq!['.'];
    let name = head + e;
    assert(name =~= stem + seq!['.'] + tag + seq!['.'] + e);
    assert forall|k: int| 0 <= k < name.len() implies name[k] != '/' by {
        if k < stem.len() {
            assert(name[k] == stem[k]);
        } else if k == stem.len() {
        } else if k < stem.len() + 1 + tag.len() {
            assert(name[k] == tag[k - stem.len() - 1]);
        } else if k == stem.len() + 1 + tag.len() {
        } else {
            assert(name[k] == e[k - head.len()]);
        }
    }
    assert(!is_dot_segment(name)) by {
        assert(name.len() > 2);
    }
    lemma_file_name_of_join(parent_dir(file), name);
    let tagged = tagged_sibling(file, tag);
    assert(tagged == join_spec(parent_dir(file), name));
    assert(file_name_spec(tagged) == Some(name));
    lemma_last_index_of_append(head, e, '.');
    assert(head.last() == '.');
    assert(last_index_of(head, '.') == head.len() - 1);
    assert(ext_dot(name) == head.len() - 1);
    assert(stem_of(name) =~= stem + seq!['.'] + tag);
    assert(ext_of(name) == Some(e)) by {
        assert(name.subrange(head.len() as int, name.len() as int) =~= e);
    }
    let st = stem_of(name);
    let sfx = seq!['.'] + tag;
    assert(st.subrange(st.len() - sfx.len(), st.len() as int) =~= sfx);
}

/// No stem ends with both `.original` and `.compressing`: nothing is both
/// a backup and a temporary encode.
proof fn lemma_backup_not_temp(f: Seq<char>)
    ensures
        !(stem_ends_with(f, ".original"@) && stem_ends_with(f, ".compressing"@)),
{
    reveal_strlit(".original");
    reveal_strlit(".compressing");
    if stem_ends_with(f, ".original"@) && stem_ends_with(f, ".compressing"@) {
        let s = file_stem_spec(f).unwrap();
        assert(s.subrange(s.len() - 9, s.len() as int)[8] == s[s.len() - 1]);
        assert(s.subrange(s.len() - 12, s.len() as int)[11] == s[s.len() - 1]);
    }
}

/// What a job leaves beside a file, the sweep finds. For any file with an
/// extension, the backup of the original is recognised as a backup and
/// not as a temporary encode; the temporary encode is recognised as one
/// and not as a backup; both keep the file's extension (so a video's are
/// videos too), and neither is taken as a file to compress.
pub proof fn law_job_leftovers_recognised(file: Seq<char>)
    requires
        has_extension(file),
    ensures
        stem_ends_with(tagged_sibling(file, "original"@), ".original"@),
        !stem_ends_with(tagged_sibling(file, "original"@), ".compressing"@),
        stem_ends_with(tagged_sibling(file, "compressing"@), ".compressing"@),
        !stem_ends_with(tagged_sibling(file, "compressing"@), ".original"@),
        extension_spec(tagged_sibling(file, "original"@)) == extension_spec(file),
        extension_spec(tagged_sibling(file, "compressing"@)) == extension_spec(file),
        is_video_path(tagged_sibling(file, "original"@)) == is_video_path(file),
        is_video_path(tagged_sibling(file, "compressing"@)) == is_video_path(file),
        !job_file(tagged_sibling(file, "original"@)),
        !job_file(tagged_sibling(file, "compressing"@)),
{
    reveal_strlit("original");
    reveal_strlit(".original");
    reveal_strlit("compressing");
    reveal_strlit(".compressing");
    assert(".original"@ =~= seq!['.'] + "original"@);
    assert(".compressing"@ =~= seq!['.'] + "compressing"@);
    lemma_tagged_sibling(file, "original"@);
    lemma_tagged_sibling(file, "compressing"@);
    lemma_backup_not_temp(tagged_sibling(file, "original"@));
    lemma_backup_not_temp(tagged_sibling(file, "compressing"@));
}

/// A file the job works on: neither a backup nor a temporary encode.
pub open spec fn job_file(f: Seq<char>) -> bool {
    !stem_ends_with(f, ".original"@) && !stem_ends_with(f, ".compressing"@)
}

/// The files of `all` the job works on, in order.
pub open spec fn job_files(all: Seq<Seq<char>>) -> Seq<Seq<char>>
    decreases all.len(),
{
    if all.len() == 0 {
        seq![]
    } else if job_file(all.last()) {
        job_files(all.drop_last()).push(all.last())
    } else {
        job_files(all.drop_last())
    }
}

pub open spec fn str_views(v: Seq<String>) -> Seq<Seq<char>> {
    v.map_values(|s: String| s@)
}

/// How one file's attempt ended.
#[derive(Debug, Clone)]
pub enum FileEnd {
    /// The duration could not be probed.
    ProbeFailed(String),
    /// ffmpeg could not be started.
    SpawnFailed(String),
    /// The job was cancelled while the file was encoded.
    Cancelled,
    /// ffmpeg exited unsuccessfully with this code.
    ExitFailed(Option<i32>),
    /// Waiting for ffmpeg failed.
    WaitFailed(String),
    /// The encode did not verify.
    VerifyFailed(String),
    /// The original could not be moved to its backup name.
    RenameOriginalFailed(String),
    /// The encode could not take the original's name.
    RenameCompressedFailed(String),
    /// The file was replaced by its encode of this size.
    Compressed(u64),
}

/// How `{:?}` writes an `Option<i32>`.
pub open spec fn opt_code_debug(c: Option<i32>) -> Seq<char> {
    match c {
        Some(x) => "Some("@ + int_str(x as int) + ")"@,
        None => "None"@,
    }
}

/// The error recorded for a file that ended with `e`.
pub open spec fn end_error(e: FileEnd) -> Option<Seq<char>> {
    match e {
        FileEnd::ProbeFailed(m) => Some("ffprobe duration: "@ + m@),
        FileEnd::SpawnFailed(m) => Some("spawn ffmpeg: "@ + m@),
        FileEnd::Cancelled => Some("cancelled"@),
        FileEnd::ExitFailed(c) => Some("ffmpeg exit "@ + opt_code_debug(c)),
        FileEnd::WaitFailed(m) => Some("ffmpeg wait: "@ + m@),
        FileEnd::VerifyFailed(m) => Some("verify: "@ + m@),
        FileEnd::RenameOriginalFailed(m) => Some("rename original: "@ + m@),
        FileEnd::RenameCompressedFailed(m) => Some("rename compressed: "@ + m@),
        FileEnd::Compressed(_) => None,
    }
}

pub open spec fn end_compressed(e: FileEnd) -> Option<u64> {
    match e {
        FileEnd::Compressed(b) => Some(b),
        _ => None,
    }
}

/// Where the compression of one file stands.
#[derive(Debug, Clone, Copy, PartialEq, Eq, Structural)]
pub enum FileStep {
    /// Its duration is being probed.
    Probing,
    /// ffmpeg encodes it into the temporary file.
    Encoding,
    /// The encode is being verified.
    Verifying,
    /// The original is being renamed to its backup name.
    BackingUp,
    /// The encode is being renamed into the original's place.
    Replacing,
    /// The size of the new file is being read.
    Measuring,
    /// The file is finished.
    Finished,
}

/// What the outside work of the current step came to.
#[derive(Debug, Clone)]
pub enum FileEvent {
    ProbeOk,
    ProbeFailed(String),
    SpawnFailed(String),
    /// ffmpeg exited successfully.
    EncodeOk,
    /// The job was cancelled while ffmpeg ran (ffmpeg was stopped).
    EncodeCancelled,
    ExitFailed(Option<i32>),
    WaitFailed(String),
    VerifyOk,
    VerifyFailed(String),
    RenameOk,
    RenameFailed(String),
    Measured(u64),
}

/// Outside work the job does next for a file.
#[derive(Debug, Clone)]
pub enum FileAction {
    /// Remove the temporary encode (best effort).
    RemoveTemp(String),
    /// Encode `input` into `output` with ffmpeg.
    Encode { input: String, output: String },
    /// Verify the encode at this path.
    Verify(String),
    /// Rename `from` to `to`.
    Rename { from: String, to: String },
    /// Read the size of this file.
    Measure(String),
    /// The file ended so.
    Finish(FileEnd),
}

/// A file end as values: variant index, message, exit code, size.
pub type EndV = (int, Seq<char>, Option<i32>, u64);

pub open spec fn end_view(e: FileEnd) -> EndV {
    match e {
        FileEnd::ProbeFailed(m) => (0, m@, None, 0),
        FileEnd::SpawnFailed(m) => (1, m@, None, 0),
        FileEnd::Cancelled => (2, seq![], None, 0),
        FileEnd::ExitFailed(c) => (3, seq![], c, 0),
        FileEnd::WaitFailed(m) => (4, m@, None, 0),
        FileEnd::VerifyFailed(m) => (5, m@, None, 0),
        FileEnd::RenameOriginalFailed(m) => (6, m@, None, 0),
        FileEnd::RenameCompressedFailed(m) => (7, m@, None, 0),
        FileEnd::Compressed(b) => (8, seq![], None, b),
    }
}

/// An action as values: `(kind, first path, second path, end)` with kinds
/// 0 = remove temp, 1 = encode, 2 = verify, 3 = rename, 4 = measure,
/// 5 = finish.
pub type ActionV = (int, Seq<char>, Seq<char>, EndV);

pub open spec fn no_end() -> EndV {
    (0, seq![], None, 0)
}

pub open spec fn action_view(a: FileAction) -> ActionV {
    match a {
        FileAction::RemoveTemp(p) => (0, p@, seq![], no_end()),
        FileAction::Encode { input, output } => (1, input@, output@, no_end()),
        FileAction::Verify(p) => (2, p@, seq![], no_end()),
        FileAction::Rename { from, to } => (3, from@, to@, no_end()),
        FileAction::Measure(p) => (4, p@, seq![], no_end()),
        FileAction::Finish(e) => (5, seq![], seq![], end_view(e)),
    }
}

pub open spec fn actions_view(a: Seq<FileAction>) -> Seq<ActionV> {
    a.map_values(|x: FileAction| action_view(x))
}

/// The temporary encode of `file`.
pub open spec fn temp_of(file: Seq<char>) -> Seq<char> {
    tagged_sibling(file, "compressing"@)
}

/// The backup of `file`.
pub open spec fn backup_of(file: Seq<char>) -> Seq<char> {
    tagged_sibling(file, "original"@)
}

pub open spec fn remove_temp(file: Seq<char>) -> ActionV {
    (0, temp_of(file), seq![], no_end())
}

pub open spec fn rename_v(from: Seq<char>, to: Seq<char>) -> ActionV {
    (3, from, to, no_end())
}

pub open spec fn finish_v(kind: int, m: Seq<char>, c: Option<i32>, b: u64) -> ActionV {
    (5, seq![], seq![], (kind, m, c, b))
}

/// The message of a file whose backup name is already taken.
pub open spec fn backup_taken_message(backup: Seq<char>) -> Seq<char> {
    "backup already exists: "@ + backup
}

/// The per-file flow of a compression job: probe, encode into the
/// temporary file, verify it, rename the original to its backup name
/// (never onto an existing backup), rename the encode into place, read
/// its size. A failure before the swap removes the temporary encode; a
/// failed second rename restores the original from its backup. An event
/// that does not belong to the step changes nothing.
pub open spec fn file_step_spec(file: Seq<char>, backup_exists: bool, step: FileStep, event: FileEvent) -> (
    FileStep,
    Seq<ActionV>,
) {
    let temp = temp_of(file);
    let backup = backup_of(file);
    match (step, event) {
        (FileStep::Probing, FileEvent::ProbeOk) => (
            FileStep::Encoding,
            seq![remove_temp(file), (1int, file, temp, no_end())],
        ),
        (FileStep::Probing, FileEvent::ProbeFailed(m)) => (FileStep::Finished, seq![finish_v(0, m@, None, 0)]),
        (FileStep::Encoding, FileEvent::SpawnFailed(m)) => (FileStep::Finished, seq![finish_v(1, m@, None, 0)]),
        (FileStep::Encoding, FileEvent::EncodeCancelled) => (
            FileStep::Finished,
            seq![remove_temp(file), finish_v(2, seq![], None, 0)],
        ),
        (FileStep::Encoding, FileEvent::ExitFailed(c)) => (
            FileStep::Finished,
            seq![remove_temp(file), finish_v(3, seq![], c, 0)],
        ),
        (FileStep::Encoding, FileEvent::WaitFailed(m)) => (
            FileStep::Finished,
            seq![remove_temp(file), finish_v(4, m@, None, 0)],
        ),
        (FileStep::Encoding, FileEvent::EncodeOk) => (FileStep::Verifying, seq![(2int, temp, seq![], no_end())]),
        (FileStep::Verifying, FileEvent::VerifyFailed(m)) => (
            FileStep::Finished,
            seq![remove_temp(file), finish_v(5, m@, None, 0)],
        ),
        (FileStep::Verifying, FileEvent::VerifyOk) => if backup_exists {
            (FileStep::Finished, seq![remove_temp(file), finish_v(6, backup_taken_message(backup), None, 0)])
        } else {
            (FileStep::BackingUp, seq![rename_v(file, backup)])
        },
        (FileStep::BackingUp, FileEvent::RenameFailed(m)) => (
            FileStep::Finished,
            seq![remove_temp(file), finish_v(6, m@, None, 0)],
        ),
        (FileStep::BackingUp, FileEvent::RenameOk) => (FileStep::Replacing, seq![rename_v(temp, file)]),
        (FileStep::Replacing, FileEvent::RenameFailed(m)) => (
            FileStep::Finished,
            seq![rename_v(backup, file), finish_v(7, m@, None, 0)],
        ),
        (FileStep::Replacing, FileEvent::RenameOk) => (FileStep::Measuring, seq![(4int, file, seq![], no_end())]),
        (FileStep::Measuring, FileEvent::Measured(b)) => (FileStep::Finished, seq![finish_v(8, seq![], None, b)]),
        _ => (step, seq![]),
    }
}

fn push_remove_temp(acts: &mut Vec<FileAction>, temp: &String)
    ensures
        actions_view(final(acts)@) == actions_view(old(acts)@).push((0int, temp@, seq![], no_end())),
{
    let ghost before = acts@;
    acts.push(FileAction::RemoveTemp(temp.clone()));
    assert(actions_view(acts@) =~= actions_view(before).push((0int, temp@, seq![], no_end())));
}

fn push_finish(acts: &mut Vec<FileAction>, e: FileEnd)
    ensures
        actions_view(final(acts)@) == actions_view(old(acts)@).push((5int, seq![], seq![], end_view(e))),
{
    let ghost before = acts@;
    acts.push(FileAction::Finish(e));
    assert(actions_view(acts@) =~= actions_view(before).push((5int, seq![], seq![], end_view(e))));
}

fn push_rename(acts: &mut Vec<FileAction>, from: &String, to: &String)
    ensures
        actions_view(final(acts)@) == actions_view(old(acts)@).push(rename_v(from@, to@)),
{
    let ghost before = acts@;
    acts.push(FileAction::Rename { from: from.clone(), to: to.clone() });
    assert(actions_view(acts@) =~= actions_view(before).push(rename_v(from@, to@)));
}

/// One step of the per-file flow: given where the file's compression
/// stands, whether its backup name is already taken, and what the last
/// outside work came to, the next step and the outside work to do.
pub fn file_step(file: &str, backup_exists: bool, step: FileStep, event: FileEvent) -> (r: (FileStep, Vec<FileAction>))
    ensures
        r.0 == file_step_spec(file@, backup_exists, step, event).0,
        actions_view(r.1@) == file_step_spec(file@, backup_exists, step, event).1,
{
    let temp = temp_encode_path(file);
    let backup = original_sidecar_path(file);
    let f = file.to_owned();
    let mut acts: Vec<FileAction> = Vec::new();
    assert(actions_view(acts@) =~= Seq::<ActionV>::empty());
    let next = match (step, event) {
        (FileStep::Probing, FileEvent::ProbeOk) => {
            push_remove_temp(&mut acts, &temp);
            let ghost before = acts@;
            acts.push(FileAction::Encode { input: f, output: temp });
            assert(actions_view(acts@) =~= actions_view(before).push((1int, file@, temp_of(file@), no_end())));
            FileStep::Encoding
        },
        (FileStep::Probing, FileEvent::ProbeFailed(m)) => {
            push_finish(&mut acts, FileEnd::ProbeFailed(m));
            FileStep::Finished
        },
        (FileStep::Encoding, FileEvent::SpawnFailed(m)) => {
            push_finish(&mut acts, FileEnd::SpawnFailed(m));
            FileStep::Finished
        },
        (FileStep::Encoding, FileEvent::EncodeCancelled) => {
            push_remove_temp(&mut acts, &temp);
            push_finish(&mut acts, FileEnd::Cancelled);
            FileStep::Finished
        },
        (FileStep::Encoding, FileEvent::ExitFailed(c)) => {
            push_remove_temp(&mut acts, &temp);
            push_finish(&mut acts, FileEnd::ExitFailed(c));
            FileStep::Finished
        },
        (FileStep::Encoding, FileEvent::WaitFailed(m)) => {
            push_remove_temp(&mut acts, &temp);
            push_finish(&mut acts, FileEnd::WaitFailed(m));
            FileStep::Finished
        },
        (FileStep::Encoding, FileEvent::EncodeOk) => {
            let ghost before = acts@;
            acts.push(FileAction::Verify(temp));
            assert(actions_view(acts@) =~= actions_view(before).push((2int, temp_of(file@), seq![], no_end())));
            FileStep::Verifying
        },
        (FileStep::Verifying, FileEvent::VerifyFailed(m)) => {
            push_remove_temp(&mut acts, &temp);
            push_finish(&mut acts, FileEnd::VerifyFailed(m));
            FileStep::Finished
        },
        (FileStep::Verifying, FileEvent::VerifyOk) => {
            if backup_exists {
                push_remove_temp(&mut acts, &temp);
                let m = prefixed("backup already exists: ", backup.as_str());
                push_finish(&mut acts, FileEnd::RenameOriginalFailed(m));
                FileStep::Finished
            } else {
                push_rename(&mut acts, &f, &backup);
                FileStep::BackingUp
            }
        },
        (FileStep::BackingUp, FileEvent::RenameFailed(m)) => {
            push_remove_temp(&mut acts, &temp);
            push_finish(&mut acts, FileEnd::RenameOriginalFailed(m));
            FileStep::Finished
        },
        (FileStep::BackingUp, FileEvent::RenameOk) => {
            push_rename(&mut acts, &temp, &f);
            FileStep::Replacing
        },
        (FileStep::Replacing, FileEvent::RenameFailed(m)) => {
            push_rename(&mut acts, &backup, &f);
            push_finish(&mut acts, FileEnd::RenameCompressedFailed(m));
            FileStep::Finished
        },
        (FileStep::Replacing, FileEvent::RenameOk) => {
            let ghost before = acts@;
            acts.push(FileAction::Measure(f));
            assert(actions_view(acts@) =~= actions_view(before).push((4int, file@, seq![], no_end())));
            FileStep::Measuring
        },
        (FileStep::Measuring, FileEvent::Measured(b)) => {
            push_finish(&mut acts, FileEnd::Compressed(b));
            FileStep::Finished
        },
        _ => step,
    };
    (next, acts)
}

/// How a file's flow ends: a failed verify ends the file with a
/// verify-failed end that carries the verifier's message (after the
/// temporary encode is removed), and the only event whose end is a
/// cancellation, the one end that stops the whole job, is a cancel during
/// the encode. Every other failure ends the file with its own kind of end
/// carrying the failure's message or exit code, never a cancellation; a
/// failed rename of the encode into place first restores the backup; a
/// measured size ends the file as compressed to that size. A finished file
/// takes no more steps, a finish is always the last action, and every
/// step into `Finished` ends with one.
pub proof fn law_file_ends(file: Seq<char>, backup_exists: bool, step: FileStep, event: FileEvent)
    ensures
        ({
            let (next, acts) = file_step_spec(file, backup_exists, step, event);
            &&& (step == FileStep::Verifying && event is VerifyFailed) ==> next == FileStep::Finished
                && acts.len() == 2 && acts[0] == (0int, temp_of(file), Seq::<char>::empty(), no_end())
                && acts[1].0 == 5 && acts[1].3 == end_view(FileEnd::VerifyFailed(event->VerifyFailed_0))
                && acts[1].3.1 == event->VerifyFailed_0@
                && acts[1].3 != end_view(FileEnd::Cancelled)
            &&& forall|i: int|
                0 <= i < acts.len() && (#[trigger] acts[i]).0 == 5 && acts[i].3 == end_view(FileEnd::Cancelled)
                    ==> step == FileStep::Encoding && event is EncodeCancelled
            &&& (step == FileStep::Encoding && event is EncodeCancelled) ==> acts.len() == 2 && acts[1]
                == (5int, Seq::<char>::empty(), Seq::<char>::empty(), end_view(FileEnd::Cancelled))
            &&& (step == FileStep::Probing && event is ProbeFailed) ==> next == FileStep::Finished
                && acts.len() == 1 && acts[0].3 == end_view(FileEnd::ProbeFailed(event->ProbeFailed_0))
                && acts[0].3.1 == event->ProbeFailed_0@
            &&& (step == FileStep::Encoding && event is SpawnFailed) ==> next == FileStep::Finished
                && acts.len() == 1 && acts[0].3 == end_view(FileEnd::SpawnFailed(event->SpawnFailed_0))
                && acts[0].3.1 == event->SpawnFailed_0@
            &&& (step == FileStep::Encoding && event is ExitFailed) ==> next == FileStep::Finished
                && acts.len() == 2 && acts[1].3 == end_view(FileEnd::ExitFailed(event->ExitFailed_0))
                && acts[1].3.2 == event->ExitFailed_0
            &&& (step == FileStep::Encoding && event is WaitFailed) ==> next == FileStep::Finished
                && acts.len() == 2 && acts[1].3 == end_view(FileEnd::WaitFailed(event->WaitFailed_0))
                && acts[1].3.1 == event->WaitFailed_0@
            &&& (step == FileStep::BackingUp && event is RenameFailed) ==> next == FileStep::Finished
                && acts.len() == 2 && acts[1].3 == end_view(FileEnd::RenameOriginalFailed(event->RenameFailed_0))
                && acts[1].3.1 == event->RenameFailed_0@
            &&& (step == FileStep::Replacing && event is RenameFailed) ==> next == FileStep::Finished
                && acts.len() == 2 && acts[0] == (3int, backup_of(file), file, no_end()) && acts[1].3
                == end_view(FileEnd::RenameCompressedFailed(event->RenameFailed_0)) && acts[1].3.1
                == event->RenameFailed_0@
            &&& (step == FileStep::Verifying && event is VerifyOk && backup_exists) ==> next == FileStep::Finished
                && acts.len() == 2 && acts[1].0 == 5 && acts[1].3.1 == "backup already exists: "@ + backup_of(
                file,
            )
            &&& (step == FileStep::Measuring && event is Measured) ==> next == FileStep::Finished && acts.len()
                == 1 && acts[0].3 == end_view(FileEnd::Compressed(event->Measured_0)) && acts[0].3.3
                == event->Measured_0
            &&& step == FileStep::Finished ==> next == FileStep::Finished && acts.len() == 0
            &&& forall|i: int|
                0 <= i < acts.len() && (#[trigger] acts[i]).0 == 5 ==> i == acts.len() - 1 && next
                    == FileStep::Finished
            &&& (next == FileStep::Finished && step != FileStep::Finished) ==> acts.len() > 0 && acts.last().0
                == 5
        }),
{
}

/// The swap never loses the original. For a file the job works on (one
/// with an extension that is neither a backup nor a temporary encode),
/// whatever the step and the event:
/// - only the temporary encode is ever removed, never the file or its
///   backup;
/// - the file is renamed only to its backup name, only after a
///   successful verify, and never when that name is taken;
/// - nothing but the encode (after the backup was made) or the backup
///   (to restore it) is renamed onto the file;
/// - a failed rename of the encode into place restores the backup.
pub proof fn law_swap_keeps_original(file: Seq<char>, backup_exists: bool, step: FileStep, event: FileEvent)
    requires
        has_extension(file),
        job_file(file),
    ensures
        ({
            let acts = file_step_spec(file, backup_exists, step, event).1;
            &&& forall|i: int|
                0 <= i < acts.len() && (#[trigger] acts[i]).0 == 0 ==> acts[i].1 == temp_of(file) && acts[i].1
                    != file && acts[i].1 != backup_of(file)
            &&& forall|i: int|
                0 <= i < acts.len() && (#[trigger] acts[i]).0 == 3 && acts[i].1 == file ==> acts[i].2 == backup_of(
                    file,
                ) && step == FileStep::Verifying && event is VerifyOk && !backup_exists
            &&& forall|i: int|
                0 <= i < acts.len() && (#[trigger] acts[i]).0 == 3 && acts[i].2 == file ==> (acts[i].1 == temp_of(
                    file,
                ) && step == FileStep::BackingUp && event is RenameOk) || (acts[i].1 == backup_of(file) && step
                    == FileStep::Replacing && event is RenameFailed)
            &&& (step == FileStep::Replacing && event is RenameFailed) ==> acts.contains(
                rename_v(backup_of(file), file),
            )
        }),
{
    law_job_leftovers_recognised(file);
    lemma_backup_not_temp(temp_of(file));
    let acts = file_step_spec(file, backup_exists, step, event).1;
    assert(temp_of(file) != file);
    assert(backup_of(file) != file);
    assert(temp_of(file) != backup_of(file));
    if step == FileStep::Replacing && event is RenameFailed {
        assert(acts[0] == rename_v(backup_of(file), file));
    }
}

/// Sum of the original sizes of `outs`.
pub open spec fn sum_original(outs: Seq<PerFileOutcome>) -> int
    decreases outs.len(),
{
    if outs.len() == 0 {
        0
    } else {
        sum_original(outs.drop_last()) + outs.last().original_bytes
    }
}

/// Sum of the compressed sizes of `outs`.
pub open spec fn sum_compressed(outs: Seq<PerFileOutcome>) -> int
    decreases outs.len(),
{
    if outs.len() == 0 {
        0
    } else {
        sum_compressed(outs.drop_last()) + match outs.last().compressed_bytes {
            Some(b) => b as int,
            None => 0,
        }
    }
}

/// The bookkeeping of a running job.
pub struct JobRun {
    files: Vec<String>,
    outcomes: Vec<PerFileOutcome>,
    total_original_bytes: u64,
    total_compressed_bytes: u64,
    state: JobState,
    stopped: bool,
}

impl JobRun {
    pub closed spec fn files(&self) -> Seq<Seq<char>> {
        str_views(self.files@)
    }

    pub closed spec fn outcomes(&self) -> Seq<PerFileOutcome> {
        self.outcomes@
    }

    pub closed spec fn state(&self) -> JobState {
        self.state
    }

    pub closed spec fn stopped(&self) -> bool {
        self.stopped
    }

    pub closed spec fn totals(&self) -> (int, int) {
        (self.total_original_bytes as int, self.total_compressed_bytes as int)
    }

    /// One outcome per file handled so far, in file order; the totals are
    /// the sums over the outcomes; a cancelled job has stopped. Every
    /// `JobRun` keeps this.
    #[verifier::type_invariant]
    pub closed spec fn wf(&self) -> bool {
        &&& self.outcomes@.len() <= self.files@.len()
        &&& forall|i: int| 0 <= i < self.outcomes@.len() ==> #[trigger] self.outcomes@[i].file@ == self.files@[i]@
        &&& self.total_original_bytes == sum_original(self.outcomes@)
        &&& self.total_compressed_bytes == sum_compressed(self.outcomes@)
        &&& (self.state == JobState::Done || self.state == JobState::Cancelled)
        &&& self.state == JobState::Cancelled ==> self.stopped
    }

    /// A job over the video files `all`, skipping leftover backups and
    /// temporary encodes.
    pub fn new(all: Vec<String>) -> (r: JobRun)
        ensures
            r.files() == job_files(str_views(all@)),
            r.outcomes().len() == 0,
            r.state() == JobState::Done,
            !r.stopped(),
    {
        let mut files: Vec<String> = Vec::new();
        let mut i: usize = 0;
        while i < all.len()
            invariant
                i <= all.len(),
                str_views(files@) == job_files(str_views(all@).take(i as int)),
            decreases all.len() - i,
        {
            proof {
                assert(str_views(all@).take(i + 1).drop_last() =~= str_views(all@).take(i as int));
                assert(str_views(all@).take(i + 1).last() == all@[i as int]@);
            }
            let f = all[i].as_str();
            if !is_original_backup(f) && !is_temp_encode(f) {
                let ghost prev = files@;
                files.push(all[i].clone());
                proof {
                    assert(str_views(files@) =~= str_views(prev).push(all@[i as int]@));
                }
            }
            i = i + 1;
        }
        proof {
            assert(str_views(all@).take(all.len() as int) =~= str_views(all@));
        }
        JobRun {
            files,
            outcomes: Vec::new(),
            total_original_bytes: 0,
            total_compressed_bytes: 0,
            state: JobState::Done,
            stopped: false,
        }
    }

    /// Number of files the job works on.
    pub fn total_files(&self) -> (r: usize)
        ensures
            r == self.files().len(),
    {
        self.files.len()
    }

    /// Index and path of the next file to handle; `None` once every file
    /// is handled or the job has stopped.
    pub fn next_file(&self) -> (r: Option<(usize, String)>)
        ensures
            match r {
                Some((i, f)) => !self.stopped() && i == self.outcomes().len() && i < self.files().len()
                    && f@ == self.files()[i as int],
                None => self.stopped() || self.outcomes().len() == self.files().len(),
            },
    {
        proof {
            use_type_invariant(self);
        }
        if self.stopped || self.outcomes.len() >= self.files.len() {
            return None;
        }
        let i = self.outcomes.len();
        proof {
            assert(self.files()[i as int] == self.files@[i as int]@);
        }
        Some((i, self.files[i].clone()))
    }

    /// The job was cancelled before the next file: it stops, cancelled.
    pub fn cancel_before_next(&mut self)
        ensures
            final(self).stopped(),
            final(self).state() == JobState::Cancelled,
            final(self).outcomes() == old(self).outcomes(),
            final(self).files() == old(self).files(),
            final(self).totals() == old(self).totals(),
    {
        proof {
            use_type_invariant(&*self);
        }
        self.stopped = true;
        self.state = JobState::Cancelled;
    }

    /// Record how the next file ended, given its size before the attempt.
    /// A cancelled file stops the job, cancelled.
    pub fn finish_file(&mut self, original_bytes: u64, end: FileEnd)
        requires
            !old(self).stopped(),
            old(self).outcomes().len() < old(self).files().len(),
            old(self).totals().0 + original_bytes <= u64::MAX,
            old(self).totals().1 + match end_compressed(end) {
                Some(b) => b as int,
                None => 0,
            } <= u64::MAX,
        ensures
            final(self).files() == old(self).files(),
            final(self).outcomes().len() == old(self).outcomes().len() + 1,
            final(self).outcomes().drop_last() == old(self).outcomes(),
            ({
                let o = final(self).outcomes().last();
                &&& o.file@ == old(self).files()[old(self).outcomes().len() as int]
                &&& o.original_bytes == original_bytes
                &&& o.compressed_bytes == end_compressed(end)
                &&& crate::tmdb::opt_view(o.error) == end_error(end)
                &&& !o.skipped
            }),
            final(self).stopped() == (end is Cancelled),
            final(self).state() == (if end is Cancelled {
                JobState::Cancelled
            } else {
                old(self).state()
            }),
    {
        proof {
            use_type_invariant(&*self);
        }
        let mut cur = JobRun::new(Vec::new());
        std::mem::swap(self, &mut cur);
        proof {
            use_type_invariant(&cur);
        }
        let JobRun { files, mut outcomes, total_original_bytes, total_compressed_bytes, state, stopped } = cur;
        let i = outcomes.len();
        let file = files[i].clone();
        let error: Option<String> = match &end {
            FileEnd::ProbeFailed(m) => Some(prefixed("ffprobe duration: ", m.as_str())),
            FileEnd::SpawnFailed(m) => Some(prefixed("spawn ffmpeg: ", m.as_str())),
            FileEnd::Cancelled => Some("cancelled".to_owned()),
            FileEnd::ExitFailed(c) => Some(exit_message(*c)),
            FileEnd::WaitFailed(m) => Some(prefixed("ffmpeg wait: ", m.as_str())),
            FileEnd::VerifyFailed(m) => Some(prefixed("verify: ", m.as_str())),
            FileEnd::RenameOriginalFailed(m) => Some(prefixed("rename original: ", m.as_str())),
            FileEnd::RenameCompressedFailed(m) => Some(prefixed("rename compressed: ", m.as_str())),
            FileEnd::Compressed(_) => None,
        };
        let compressed: Option<u64> = match &end {
            FileEnd::Compressed(b) => Some(*b),
            _ => None,
        };
        let ghost before = outcomes@;
        let o = PerFileOutcome { file, original_bytes, compressed_bytes: compressed, error, skipped: false };
        outcomes.push(o);
        let new_original = total_original_bytes + original_bytes;
        let new_compressed = match compressed {
            Some(b) => total_compressed_bytes + b,
            None => total_compressed_bytes,
        };
        proof {
            assert(outcomes@.drop_last() =~= before);
            assert(outcomes@[i as int].file@ == files@[i as int]@);
            assert forall|k: int| 0 <= k < outcomes@.len() implies #[trigger] outcomes@[k].file@
                == files@[k]@ by {
                if k < i {
                    assert(outcomes@[k] == before[k]);
                }
            }
        }
        let (new_state, new_stopped) = match end {
            FileEnd::Cancelled => (JobState::Cancelled, true),
            _ => (state, stopped),
        };
        *self = JobRun {
            files,
            outcomes,
            total_original_bytes: new_original,
            total_compressed_bytes: new_compressed,
            state: new_state,
            stopped: new_stopped,
        };
    }

    /// The totals so far: original bytes, compressed bytes.
    pub fn byte_totals(&self) -> (r: (u64, u64))
        ensures
            r.0 as int == self.totals().0,
            r.1 as int == self.totals().1,
    {
        (self.total_original_bytes, self.total_compressed_bytes)
    }

    /// `total original - total compressed`, the bytes saved so far.
    pub fn bytes_saved(&self) -> (r: i64)
        requires
            self.totals().0 <= i64::MAX,
            self.totals().1 <= i64::MAX,
        ensures
            r == self.totals().0 - self.totals().1,
    {
        self.total_original_bytes as i64 - self.total_compressed_bytes as i64
    }

    /// The final report.
    pub fn into_report(self, job_id: String) -> (r: JobReport)
        ensures
            r.job_id == job_id,
            r.state == self.state(),
            r.state == JobState::Done || r.state == JobState::Cancelled,
            r.outcomes@ == self.outcomes(),
            r.total_original_bytes == sum_original(r.outcomes@),
            r.total_compressed_bytes == sum_compressed(r.outcomes@),
    {
        proof {
            use_type_invariant(&self);
        }
        JobReport {
            job_id,
            state: self.state,
            outcomes: self.outcomes,
            total_original_bytes: self.total_original_bytes,
            total_compressed_bytes: self.total_compressed_bytes,
        }
    }
}

fn prefixed(p: &str, m: &str) -> (r: String)
    ensures
        r@ == p@ + m@,
{
    let mut v = chars_of(p);
    extend_chars(&mut v, &chars_of(m));
    string_of(&v)
}

fn exit_message(c: Option<i32>) -> (r: String)
    ensures
        r@ == "ffmpeg exit "@ + opt_code_debug(c),
{
    let mut v = chars_of("ffmpeg exit ");
    match c {
        Some(x) => {
            extend_chars(&mut v, &chars_of("Some("));
            extend_chars(&mut v, &fmt_i32(x));
            extend_chars(&mut v, &chars_of(")"));
        },
        None => {
            extend_chars(&mut v, &chars_of("None"));
        },
    }
    let r = string_of(&v);
    proof {
        assert(r@ =~= "ffmpeg exit "@ + opt_code_debug(c));
    }
    r
}

/// Every report a job gives states totals that are the sums of its
/// outcomes' sizes, one outcome per handled file in file order.
pub proof fn law_report_totals(run: JobRun)
    requires
        run.wf(),
    ensures
        run.totals().0 == sum_original(run.outcomes()),
        run.totals().1 == sum_compressed(run.outcomes()),
        run.outcomes().len() <= run.files().len(),
        forall|i: int| 0 <= i < run.outcomes().len() ==> #[trigger] run.outcomes()[i].file@ == run.files()[i],
{
    assert forall|i: int| 0 <= i < run.outcomes().len() implies #[trigger] run.outcomes()[i].file@
        == run.files()[i] by {
        assert(run.files()[i] == run.files@[i]@);
    }
}


/// A request to compress a catalogued work.
#[derive(Debug, Clone)]
pub struct StartCompressionArgs {
    pub media_id: i64,
    pub codec: Codec,
    pub crf: i32,
    pub downscale_720p: bool,
    pub exhaustive_verify: bool,
}

impl StartCompressionArgs {
    /// The job settings of the request.
    pub fn settings(&self) -> (r: JobSettings)
        ensures
            r.codec == self.codec,
            r.crf == self.crf,
            r.downscale_720p == self.downscale_720p,
            r.exhaustive_verify == self.exhaustive_verify,
    {
        JobSettings {
            codec: self.codec,
            crf: self.crf,
            downscale_720p: self.downscale_720p,
            exhaustive_verify: self.exhaustive_verify,
        }
    }
}

/// The id of a started job.
#[derive(Debug, Clone)]
pub struct StartCompressionResult {
    pub job_id: String,
}

/// What a sweep of backups removed.
#[derive(Debug, Clone)]
pub struct CleanupResult {
    pub files_removed: usize,
    pub bytes_freed: u64,
}

/// The backups (`<name>.original.<ext>`) among `files`, in order.
pub open spec fn backups_of(files: Seq<Seq<char>>) -> Seq<Seq<char>>
    decreases files.len(),
{
    if files.len() == 0 {
        seq![]
    } else if stem_ends_with(files.last(), ".original"@) {
        backups_of(files.drop_last()).push(files.last())
    } else {
        backups_of(files.drop_last())
    }
}

/// The leftover backups among a folder's video files: what a sweep
/// removes, and whether there is anything to sweep.
pub fn backups_among(files: &Vec<String>) -> (r: Vec<String>)
    ensures
        str_views(r@) == backups_of(str_views(files@)),
{
    let mut out: Vec<String> = Vec::new();
    let mut i: usize = 0;
    while i < files.len()
        invariant
            i <= files.len(),
            str_views(out@) == backups_of(str_views(files@).take(i as int)),
        decreases files.len() - i,
    {
        proof {
            assert(str_views(files@).take(i + 1).drop_last() =~= str_views(files@).take(i as int));
            assert(str_views(files@).take(i + 1).last() == files@[i as int]@);
        }
        if is_original_backup(files[i].as_str()) {
            let ghost prev = out@;
            out.push(files[i].clone());
            proof {
                assert(str_views(out@) =~= str_views(prev).push(files@[i as int]@));
            }
        }
        i = i + 1;
    }
    proof {
        assert(str_views(files@).take(files.len() as int) =~= str_views(files@));
    }
    out
}

/// The file a preview is made from: the first of a folder's (sorted)
/// video files that is neither a backup nor a temporary encode.
pub fn preview_source(videos: &Vec<String>) -> (r: Option<String>)
    ensures
        match r {
            Some(f) => exists|i: int|
                0 <= i < videos.len() && #[trigger] videos@[i]@ == f@ && job_file(f@) && forall|j: int|
                    0 <= j < i ==> !job_file(#[trigger] videos@[j]@),
            None => forall|j: int| 0 <= j < videos.len() ==> !job_file(#[trigger] videos@[j]@),
        },
{
    let mut i: usize = 0;
    while i < videos.len()
        invariant
            i <= videos.len(),
            forall|j: int| 0 <= j < i ==> !job_file(#[trigger] videos@[j]@),
        decreases videos.len() - i,
    {
        let f = videos[i].as_str();
        if !is_original_backup(f) && !is_temp_encode(f) {
            return Some(videos[i].clone());
        }
        i = i + 1;
    }
    None
}


/// `"sorta-preview-"`: how the temporary folder of a preview is named.
pub open spec fn preview_prefix() -> Seq<char> {
    seq!['s', 'o', 'r', 't', 'a', '-', 'p', 'r', 'e', 'v', 'i', 'e', 'w', '-']
}

/// Name of the temporary folder that preview job `job_id` works in.
pub fn preview_dir_name(job_id: &str) -> (r: String)
    ensures
        r@ == preview_prefix() + job_id@,
{
    let mut v = chars_of("sorta-preview-");
    proof {
        reveal_strlit("sorta-preview-");
        assert(v@ =~= preview_prefix());
    }
    extend_chars(&mut v, &chars_of(job_id));
    string_of(&v)
}

/// `path` names a preview folder: its file name starts with the preview
/// prefix. Only such folders are removed when a preview is discarded.
pub fn is_preview_dir(path: &str) -> (r: bool)
    ensures
        r == (file_name_spec(path@) matches Some(n) && preview_prefix().is_prefix_of(n)),
{
    let name = match file_name(&chars_of(path)) {
        Some(n) => n,
        None => return false,
    };
    let pre = chars_of("sorta-preview-");
    proof {
        reveal_strlit("sorta-preview-");
        assert(pre@ =~= preview_prefix());
    }
    if name.len() < pre.len() {
        return false;
    }
    let mut i: usize = 0;
    while i < pre.len()
        invariant
            i <= pre.len(),
            pre.len() <= name.len(),
            pre@ == preview_prefix(),
            file_name_spec(path@) == Some(name@),
            forall|k: int| 0 <= k < i ==> name@[k] == pre@[k],
        decreases pre.len() - i,
    {
        if name[i] != pre[i] {
            proof {
                if preview_prefix().is_prefix_of(name@) {
                    assert(name@.subrange(0, pre.len() as int)[i as int] == name@[i as int]);
                    assert(name@.subrange(0, pre.len() as int) == preview_prefix());
                }
            }
            return false;
        }
        i = i + 1;
    }
    proof {
        assert(name@.subrange(0, pre.len() as int) =~= pre@);
    }
    true
}

/// Discarding a preview removes the folder the preview made: the folder
/// named for any job id without a separator, under any temporary
/// directory, is a preview folder.
pub proof fn law_preview_dirs_are_discardable(tmp: Seq<char>, job_id: Seq<char>)
    requires
        forall|k: int| 0 <= k < job_id.len() ==> job_id[k] != '/',
    ensures
        file_name_spec(join_spec(tmp, preview_prefix() + job_id)) matches Some(n) && preview_prefix().is_prefix_of(
            n,
        ),
{
    let name = preview_prefix() + job_id;
    assert forall|k: int| 0 <= k < name.len() implies name[k] != '/' by {
        if k >= preview_prefix().len() {
            assert(name[k] == job_id[k - preview_prefix().len()]);
        }
    }
    assert(name[0] == 's');
    lemma_file_name_of_join(tmp, name);
    assert(name.subrange(0, preview_prefix().len() as int) =~= preview_prefix());
}

} // verus!
