//! Cleaning a batch of selected files: previewing it, sending files to the
//! recycle bin, or moving them into a dated archive. The decisions are made
//! here; the caller performs each action and reports what came of it.

use vstd::prelude::*;
use crate::classify::{archive_cloud_words, archive_courses, course_of, detect_course,
    archive_course_table, archive_is_in_cloud_folder};
use crate::protection::{CleanupAction, Config, ProtectionType, protection_of};
use crate::text::{
    chars_of, decimal, decimal_text, extension, extension_of, file_name, file_name_of, has_any_infix,
    lower_of, lowercase, stem, stem_of, ext_dot, is_last_at, last_index, lemma_decimal_injective,
    lemma_decimal_len,
};

verus! {

/// What happened to a batch of files.
#[derive(Clone, Debug)]
pub struct CleanupResult {
    pub files_processed: usize,
    pub total_size_bytes: u64,
    pub successful_files: Vec<String>,
    pub failed_files: Vec<(String, String)>,
}

/// `a + b`, or the largest `u64` where the sum does not fit.
pub open spec fn sat_add(a: int, b: int) -> int {
    if a + b > u64::MAX { u64::MAX as int } else { a + b }
}

impl CleanupResult {
    pub fn empty() -> (r: CleanupResult)
        ensures
            r.files_processed == 0,
            r.total_size_bytes == 0,
            r.successful_files@.len() == 0,
            r.failed_files@.len() == 0,
    {
        CleanupResult { files_processed: 0, total_size_bytes: 0, successful_files: Vec::new(), failed_files: Vec::new() }
    }

    /// Records a file that was dealt with, and its size.
    pub fn record_success(&mut self, path: String, size: u64)
        requires
            old(self).files_processed < usize::MAX,
        ensures
            final(self).files_processed == old(self).files_processed + 1,
            final(self).total_size_bytes == sat_add(old(self).total_size_bytes as int, size as int),
            final(self).successful_files@ == old(self).successful_files@.push(path),
            final(self).failed_files@ == old(self).failed_files@,
    {
        self.files_processed = self.files_processed + 1;
        self.total_size_bytes = self.total_size_bytes.saturating_add(size);
        self.successful_files.push(path);
    }

    /// Records a file that failed, and why.
    pub fn record_failure(&mut self, path: String, cause: String)
        ensures
            final(self).files_processed == old(self).files_processed,
            final(self).total_size_bytes == old(self).total_size_bytes,
            final(self).successful_files@ == old(self).successful_files@,
            final(self).failed_files@ == old(self).failed_files@.push((path, cause)),
    {
        self.failed_files.push((path, cause));
    }
}

/// How a batch is cleaned.
#[derive(Clone, Copy, Debug, PartialEq, Eq, Structural)]
pub enum CleanMode {
    /// Nothing is changed; sizes and flags are reported.
    Preview,
    Recycle,
    Archive,
}

/// The mode of a batch: a preview in safe mode or on a dry run, else as the
/// settings say.
pub open spec fn mode_for(dry_run: bool, safe_mode: bool, action: CleanupAction) -> CleanMode {
    if safe_mode || dry_run {
        CleanMode::Preview
    } else {
        match action {
            CleanupAction::RecycleBin => CleanMode::Recycle,
            CleanupAction::Archive => CleanMode::Archive,
        }
    }
}

/// What is known of a selected file before it is touched.
#[derive(Clone, Debug)]
pub struct FileStatus {
    pub path: String,
    pub exists: bool,
    pub size_bytes: u64,
    pub is_locked: bool,
}

/// A question put to the user about one file.
#[derive(Clone, Copy, Debug, PartialEq, Eq, Structural)]
pub enum Prompt {
    /// The file lies in a cloud-synced folder: skip it, delete it anyway, or cancel all.
    CloudDeletion,
    /// The file is open elsewhere: skip it, retry once after a wait, or cancel all.
    LockedFile,
    /// The file lies in a softly protected folder: proceed or not.
    ProtectedDeletion,
}

/// An answer to a prompt.
#[derive(Clone, Copy, Debug, PartialEq, Eq, Structural)]
pub enum Reply {
    Skip,
    Proceed,
    Retry,
    Cancel,
}

/// Why a file was left alone.
#[derive(Clone, Copy, Debug, PartialEq, Eq, Structural)]
pub enum SkipCause {
    NotFound,
    Cloud,
    Locked,
    Protected,
}

/// What the caller does next for one file.
#[derive(Clone, Copy, Debug, PartialEq, Eq, Structural)]
pub enum Step {
    Ask(Prompt),
    /// Wait ten seconds, check the lock again and report it.
    WaitThenRecheck,
    Skip(SkipCause),
    /// Recycle or archive the file.
    Go,
    /// Stop the batch; what was done stays done.
    CancelAll,
}

/// The checks that stand before one file is recycled or archived.
#[derive(Clone, Copy, Debug, PartialEq, Eq, Structural)]
pub struct GateFacts {
    pub recycle: bool,
    pub in_cloud: bool,
    pub locked: bool,
    pub protection: Option<ProtectionType>,
}

/// The step that the checks from `stage` on call for. A file in a
/// hard-protected folder is skipped before anything is asked. Otherwise 0 is
/// the cloud check, 1 the lock check, 2 the soft-protection check; the cloud
/// and soft-protection checks apply to recycling only.
pub open spec fn step_from(g: GateFacts, stage: int) -> Step {
    if g.protection == Some(ProtectionType::Hard) {
        Step::Skip(SkipCause::Protected)
    } else if stage <= 0 && g.recycle && g.in_cloud {
        Step::Ask(Prompt::CloudDeletion)
    } else if stage <= 1 && g.locked {
        Step::Ask(Prompt::LockedFile)
    } else if g.recycle && g.protection == Some(ProtectionType::Soft) {
        Step::Ask(Prompt::ProtectedDeletion)
    } else {
        Step::Go
    }
}

/// The stage at which a step waits, or 3 where it waits for nothing.
pub open spec fn stage_of(s: Step) -> int {
    match s {
        Step::Ask(Prompt::CloudDeletion) => 0,
        Step::Ask(Prompt::LockedFile) => 1,
        Step::WaitThenRecheck => 1,
        Step::Ask(Prompt::ProtectedDeletion) => 2,
        _ => 3,
    }
}

/// The step that follows an answer to the prompt of `stage`.
pub open spec fn step_after_reply(g: GateFacts, stage: int, reply: Reply) -> Step {
    if reply == Reply::Cancel && stage <= 2 {
        Step::CancelAll
    } else if stage == 0 {
        if reply == Reply::Proceed { step_from(g, 1) } else { Step::Skip(SkipCause::Cloud) }
    } else if stage == 1 {
        if reply == Reply::Retry { Step::WaitThenRecheck } else { Step::Skip(SkipCause::Locked) }
    } else if stage == 2 {
        if reply == Reply::Proceed { Step::Go } else { Step::Skip(SkipCause::Protected) }
    } else {
        Step::Skip(SkipCause::NotFound)
    }
}

/// The step that follows the second look at a locked file.
pub open spec fn step_after_recheck(g: GateFacts, still_locked: bool) -> Step {
    if still_locked { Step::Skip(SkipCause::Locked) } else { step_from(g, 2) }
}

/// The checks of one file, and the step it waits at.
pub struct FileGate {
    pub facts: GateFacts,
    pub waiting: Step,
}

fn first_step(g: GateFacts, stage: u8) -> (r: Step)
    ensures
        r == step_from(g, stage as int),
{
    if g.protection == Some(ProtectionType::Hard) {
        Step::Skip(SkipCause::Protected)
    } else if stage == 0 && g.recycle && g.in_cloud {
        Step::Ask(Prompt::CloudDeletion)
    } else if stage <= 1 && g.locked {
        Step::Ask(Prompt::LockedFile)
    } else if g.recycle && g.protection == Some(ProtectionType::Soft) {
        Step::Ask(Prompt::ProtectedDeletion)
    } else {
        Step::Go
    }
}

fn stage_number(s: Step) -> (r: u8)
    ensures
        r == stage_of(s),
{
    match s {
        Step::Ask(Prompt::CloudDeletion) => 0,
        Step::Ask(Prompt::LockedFile) => 1,
        Step::WaitThenRecheck => 1,
        Step::Ask(Prompt::ProtectedDeletion) => 2,
        _ => 3,
    }
}

impl FileGate {
    /// Answers the prompt the file waits at.
    pub fn on_reply(&mut self, reply: Reply) -> (r: Step)
        ensures
            r == step_after_reply(old(self).facts, stage_of(old(self).waiting), reply),
            final(self).facts == old(self).facts,
            final(self).waiting == r,
    {
        let stage = stage_number(self.waiting);
        let next = if reply == Reply::Cancel && stage <= 2 {
            Step::CancelAll
        } else if stage == 0 {
            if reply == Reply::Proceed { first_step(self.facts, 1) } else { Step::Skip(SkipCause::Cloud) }
        } else if stage == 1 {
            if reply == Reply::Retry { Step::WaitThenRecheck } else { Step::Skip(SkipCause::Locked) }
        } else if stage == 2 {
            if reply == Reply::Proceed { Step::Go } else { Step::Skip(SkipCause::Protected) }
        } else {
            Step::Skip(SkipCause::NotFound)
        };
        self.waiting = next;
        next
    }

    /// Reports whether the file is still locked after the wait.
    pub fn on_recheck(&mut self, still_locked: bool) -> (r: Step)
        ensures
            r == step_after_recheck(old(self).facts, still_locked),
            final(self).facts == old(self).facts,
            final(self).waiting == r,
    {
        let next = if still_locked { Step::Skip(SkipCause::Locked) } else { first_step(self.facts, 2) };
        self.waiting = next;
        next
    }
}

/// Folder names under the home directory.
pub open spec fn archive_root_of(action: CleanupAction, home: Seq<char>) -> Seq<char> {
    match action {
        CleanupAction::Archive => home + "/CleanCrush-Archive"@,
        CleanupAction::RecycleBin => home + "/CleanCrush-Temp"@,
    }
}

/// `dir` and `name` joined by a separator.
pub open spec fn join_of(dir: Seq<char>, name: Seq<char>) -> Seq<char> {
    dir + "/"@ + name
}

/// `dir` and `name` joined by a separator.
pub fn join(dir: &str, name: &str) -> (r: String)
    ensures
        r@ == join_of(dir@, name@),
{
    String::from_str(dir).concat("/").concat(name)
}

/// The archive store.
pub struct ArchiveSystem {
    pub archive_path: String,
    pub config: Config,
}

/// How many existing selected files there are among the first `n`.
pub open spec fn count_existing(files: Seq<FileStatus>, n: int) -> nat
    decreases n,
{
    if n <= 0 {
        0
    } else {
        count_existing(files, n - 1) + if files[n - 1].exists { 1nat } else { 0nat }
    }
}

/// The bytes of the existing selected files among the first `n`.
pub open spec fn existing_bytes(files: Seq<FileStatus>, n: int) -> nat
    decreases n,
{
    if n <= 0 {
        0
    } else {
        existing_bytes(files, n - 1) + if files[n - 1].exists { files[n - 1].size_bytes as nat } else { 0nat }
    }
}

/// The checks that stand before `f` is cleaned in `mode`.
pub open spec fn gate_facts(config: Config, mode: CleanMode, f: FileStatus) -> GateFacts {
    GateFacts {
        recycle: mode == CleanMode::Recycle,
        in_cloud: has_any_infix(lower_of(f.path@), archive_cloud_words()),
        locked: f.is_locked,
        protection: protection_of(config, f.path@),
    }
}

/// The name tried for a file on the `k`-th attempt: its own name first, then
/// `stem_k.ext` (or `stem_k` where it has no extension).
pub open spec fn numbered_name(name: Seq<char>, k: nat) -> Seq<char> {
    if k == 0 {
        name
    } else {
        stem_of(name) + "_"@ + decimal(k) + match extension_of(name) {
            Some(e) => if e.len() > 0 { "."@ + e } else { seq![] },
            None => seq![],
        }
    }
}

/// A destination is given up after this many names were tried.
pub const MAX_NAME_ATTEMPTS: u64 = 100;

/// The first name from attempt `k` on that is not taken, within the attempt limit.
pub open spec fn free_name_from(name: Seq<char>, taken: Seq<Seq<char>>, k: nat) -> Option<Seq<char>>
    decreases MAX_NAME_ATTEMPTS - k,
{
    if k >= MAX_NAME_ATTEMPTS {
        None
    } else if !taken.contains(numbered_name(name, k)) {
        Some(numbered_name(name, k))
    } else {
        free_name_from(name, taken, k + 1)
    }
}

/// The names of a list of strings.
pub open spec fn names_view(v: Seq<String>) -> Seq<Seq<char>> {
    v.map_values(|s: String| s@)
}

/// The names present in one course folder of a snapshot.
pub struct CourseFolder {
    pub course: String,
    pub names: Vec<String>,
}

fn name_taken(names: &Vec<String>, n: &String) -> (r: bool)
    ensures
        r == names_view(names@).contains(n@),
{
    let ghost nv = names_view(names@);
    let mut i: usize = 0;
    while i < names.len()
        invariant
            nv == names_view(names@),
            i <= names@.len(),
            forall|t: int| 0 <= t < i ==> nv[t] != n@,
        decreases names@.len() - i,
    {
        if names[i] == *n {
            assert(nv[i as int] == n@);
            return true;
        }
        i += 1;
    }
    false
}

fn numbered(name: &str, k: u64) -> (r: String)
    requires
        1 <= k,
    ensures
        r@ == numbered_name(name@, k as nat),
{
    let base = String::from_str(stem(name)).concat("_").concat(decimal_text(k).as_str());
    match extension(name) {
        Some(e) => {
            if e.unicode_len() > 0 {
                base.concat(".").concat(e)
            } else {
                base
            }
        },
        None => base,
    }
}

impl CourseFolder {
    /// Claims a name for a file called `name`: its own if free, else the
    /// first free numbered one; none once every attempt is taken.
    pub fn claim(&mut self, name: &str) -> (r: Option<String>)
        ensures
            final(self).course == old(self).course,
            match r {
                Some(d) => free_name_from(name@, names_view(old(self).names@), 0) == Some(d@)
                    && final(self).names@ == old(self).names@.push(d),
                None => free_name_from(name@, names_view(old(self).names@), 0).is_none()
                    && final(self).names@ == old(self).names@,
            },
    {
        let ghost taken = names_view(self.names@);
        let ghost before = *self;
        let mut k: u64 = 0;
        while k < MAX_NAME_ATTEMPTS
            invariant
                *self == before,
                before == *old(self),
                taken == names_view(self.names@),
                k <= MAX_NAME_ATTEMPTS,
                free_name_from(name@, taken, 0) == free_name_from(name@, taken, k as nat),
            decreases MAX_NAME_ATTEMPTS - k,
        {
            let candidate = if k == 0 { String::from_str(name) } else { numbered(name, k) };
            if !name_taken(&self.names, &candidate) {
                let d = candidate.clone();
                self.names.push(candidate);
                assert(names_view(self.names@) =~= taken.push(d@));
                return Some(d);
            }
            k += 1;
        }
        None
    }
}

/// A file moved into the archive.
#[derive(Clone, Debug)]
pub struct ArchivedFileInfo {
    pub original_path: String,
    pub archived_path: String,
    pub course: String,
    pub file_type: String,
    pub size_bytes: u64,
    pub archived_date: i64,
    pub original_modified: i64,
}

/// The manifest of one snapshot.
#[derive(Clone, Debug)]
pub struct ArchiveInfo {
    pub archive_date: i64,
    pub total_files: usize,
    pub total_size_bytes: u64,
    pub files: Vec<ArchivedFileInfo>,
}

/// The sum of the sizes of the archived files.
pub open spec fn archived_bytes(files: Seq<ArchivedFileInfo>) -> nat
    decreases files.len(),
{
    if files.len() == 0 {
        0
    } else {
        archived_bytes(files.drop_last()) + files.last().size_bytes as nat
    }
}

impl ArchiveInfo {
    /// Its counters agree with its files (the size saturates).
    pub open spec fn wf(&self) -> bool {
        &&& self.total_files == self.files@.len()
        &&& self.total_size_bytes == if archived_bytes(self.files@) > u64::MAX {
            u64::MAX as nat
        } else {
            archived_bytes(self.files@)
        }
    }

    /// An empty manifest of a snapshot made at `archive_date`.
    pub fn new(archive_date: i64) -> (r: ArchiveInfo)
        ensures
            r.wf(),
            r.archive_date == archive_date,
            r.files@.len() == 0,
    {
        ArchiveInfo { archive_date, total_files: 0, total_size_bytes: 0, files: Vec::new() }
    }

    /// Adds a moved file.
    pub fn record(&mut self, f: ArchivedFileInfo)
        requires
            old(self).wf(),
            old(self).files@.len() < usize::MAX,
        ensures
            final(self).wf(),
            final(self).archive_date == old(self).archive_date,
            final(self).files@ == old(self).files@.push(f),
    {
        let ghost before = self.files@;
        self.total_files = self.total_files + 1;
        self.total_size_bytes = self.total_size_bytes.saturating_add(f.size_bytes);
        self.files.push(f);
        assert(self.files@.drop_last() =~= before);
    }
}

/// What came of one file of a batch.
#[derive(Clone, Debug)]
pub enum FileOutcome {
    /// Left alone after its checks.
    Skipped,
    /// Sent to the recycle bin: its path and size.
    Recycled(String, u64),
    /// Moved into the snapshot.
    Archived(ArchivedFileInfo),
    /// Its action failed: its path and the cause.
    Failed(String, String),
    /// The user cancelled the batch at this file.
    Cancelled,
}

/// A batch in progress: what was done, the manifest of what was moved, and
/// whether the user cancelled it.
pub struct CleanupBatch {
    pub result: CleanupResult,
    pub manifest: ArchiveInfo,
    pub cancelled: bool,
}

impl CleanupBatch {
    pub open spec fn wf(&self) -> bool {
        self.manifest.wf()
    }

    /// An empty batch started at `now`.
    pub fn new(now: i64) -> (r: CleanupBatch)
        ensures
            r.wf(),
            !r.cancelled,
            r.result.files_processed == 0,
            r.result.total_size_bytes == 0,
            r.result.successful_files@.len() == 0,
            r.result.failed_files@.len() == 0,
            r.manifest.archive_date == now,
            r.manifest.files@.len() == 0,
    {
        CleanupBatch { result: CleanupResult::empty(), manifest: ArchiveInfo::new(now), cancelled: false }
    }

    /// Takes in the outcome of one file and says whether the batch goes on:
    /// a failure is recorded and the batch goes on; a cancellation stops it
    /// and keeps what was done.
    pub fn apply(&mut self, outcome: FileOutcome) -> (go_on: bool)
        requires
            old(self).wf(),
            !old(self).cancelled,
            old(self).result.files_processed < usize::MAX,
            old(self).manifest.files@.len() < usize::MAX,
        ensures
            final(self).wf(),
            go_on == !final(self).cancelled,
            final(self).manifest.archive_date == old(self).manifest.archive_date,
            match outcome {
                FileOutcome::Skipped => *final(self) == *old(self),
                FileOutcome::Recycled(path, size) => {
                    &&& final(self).result.files_processed == old(self).result.files_processed + 1
                    &&& final(self).result.total_size_bytes == sat_add(old(self).result.total_size_bytes as int, size as int)
                    &&& final(self).result.successful_files@ == old(self).result.successful_files@.push(path)
                    &&& final(self).result.failed_files@ == old(self).result.failed_files@
                    &&& final(self).manifest == old(self).manifest
                    &&& !final(self).cancelled
                },
                FileOutcome::Archived(info) => {
                    &&& final(self).result.files_processed == old(self).result.files_processed + 1
                    &&& final(self).result.total_size_bytes == sat_add(old(self).result.total_size_bytes as int, info.size_bytes as int)
                    &&& final(self).result.successful_files@ == old(self).result.successful_files@.push(info.original_path)
                    &&& final(self).result.failed_files@ == old(self).result.failed_files@
                    &&& final(self).manifest.files@ == old(self).manifest.files@.push(info)
                    &&& !final(self).cancelled
                },
                FileOutcome::Failed(path, cause) => {
                    &&& final(self).result.files_processed == old(self).result.files_processed
                    &&& final(self).result.total_size_bytes == old(self).result.total_size_bytes
                    &&& final(self).result.successful_files@ == old(self).result.successful_files@
                    &&& final(self).result.failed_files@ == old(self).result.failed_files@.push((path, cause))
                    &&& final(self).manifest == old(self).manifest
                    &&& !final(self).cancelled
                },
                FileOutcome::Cancelled => {
                    &&& final(self).result == old(self).result
                    &&& final(self).manifest == old(self).manifest
                    &&& final(self).cancelled
                },
            },
    {
        match outcome {
            FileOutcome::Skipped => true,
            FileOutcome::Recycled(path, size) => {
                self.result.record_success(path, size);
                true
            },
            FileOutcome::Archived(info) => {
                self.result.record_success(info.original_path.clone(), info.size_bytes);
                self.manifest.record(info);
                true
            },
            FileOutcome::Failed(path, cause) => {
                self.result.record_failure(path, cause);
                true
            },
            FileOutcome::Cancelled => {
                self.cancelled = true;
                false
            },
        }
    }

    /// Whether the manifest is written at the end: only where a file was moved.
    pub fn writes_manifest(&self) -> (r: bool)
        ensures
            r == (self.manifest.files@.len() > 0),
    {
        self.manifest.files.len() > 0
    }
}

/// The type recorded for an archived file: its extension, or `unknown`.
pub open spec fn archived_type_of(path: Seq<char>) -> Seq<char> {
    match extension_of(file_name_of(path)) {
        Some(e) => e,
        None => "unknown"@,
    }
}

impl ArchiveSystem {
    /// The store for `config`, rooted under `home`: the archive folder, or a
    /// scratch folder where files go to the recycle bin.
    pub fn new(config: Config, home: &str) -> (r: ArchiveSystem)
        ensures
            r.config == config,
            r.archive_path@ == archive_root_of(config.default_action, home@),
    {
        let archive_path = match config.default_action {
            CleanupAction::Archive => String::from_str(home).concat("/CleanCrush-Archive"),
            CleanupAction::RecycleBin => String::from_str(home).concat("/CleanCrush-Temp"),
        };
        ArchiveSystem { archive_path, config }
    }

    /// The mode of a batch.
    pub fn clean_mode(&self, dry_run: bool, safe_mode: bool) -> (r: CleanMode)
        ensures
            r == mode_for(dry_run, safe_mode, self.config.default_action),
    {
        if safe_mode || dry_run {
            CleanMode::Preview
        } else {
            match self.config.default_action {
                CleanupAction::RecycleBin => CleanMode::Recycle,
                CleanupAction::Archive => CleanMode::Archive,
            }
        }
    }

    /// What a batch would do: the existing files are counted with their
    /// sizes; nothing is changed.
    pub fn preview_cleanup(&self, files: &Vec<FileStatus>) -> (r: CleanupResult)
        ensures
            r.files_processed == count_existing(files@, files@.len() as int),
            r.total_size_bytes == sat_add(0, existing_bytes(files@, files@.len() as int) as int),
            r.successful_files@.len() == 0,
            r.failed_files@.len() == 0,
    {
        let mut processed: usize = 0;
        let mut total: u64 = 0;
        let mut i: usize = 0;
        while i < files.len()
            invariant
                i <= files@.len(),
                processed == count_existing(files@, i as int),
                processed <= i,
                total == sat_add(0, existing_bytes(files@, i as int) as int),
            decreases files@.len() - i,
        {
            if files[i].exists {
                processed += 1;
                total = total.saturating_add(files[i].size_bytes);
            }
            i += 1;
        }
        CleanupResult { files_processed: processed, total_size_bytes: total, successful_files: Vec::new(), failed_files: Vec::new() }
    }

    /// Whether a path lies in a cloud-synced folder.
    pub fn is_in_cloud_folder(&self, path: &str) -> (r: bool)
        ensures
            r == has_any_infix(lower_of(path@), archive_cloud_words()),
    {
        let lp = lowercase(path);
        archive_is_in_cloud_folder(&chars_of(lp.as_str()))
    }

    /// The checks of one file of a batch that recycles or archives, and its
    /// first step: a missing file is skipped, a file in a hard-protected
    /// folder is skipped without a question, else the first check that
    /// applies is made.
    pub fn start_gate(&self, mode: CleanMode, f: &FileStatus) -> (r: FileGate)
        ensures
            r.facts == gate_facts(self.config, mode, *f),
            r.waiting == if f.exists { step_from(r.facts, 0) } else { Step::Skip(SkipCause::NotFound) },
            f.exists && protection_of(self.config, f.path@) == Some(ProtectionType::Hard)
                ==> r.waiting == Step::Skip(SkipCause::Protected),
    {
        let facts = GateFacts {
            recycle: mode == CleanMode::Recycle,
            in_cloud: self.is_in_cloud_folder(f.path.as_str()),
            locked: f.is_locked,
            protection: self.config.protection(f.path.as_str()),
        };
        let waiting = if f.exists { first_step(facts, 0) } else { Step::Skip(SkipCause::NotFound) };
        FileGate { facts, waiting }
    }

    /// The course sub-folder for a file: the first course rule whose word
    /// occurs in its lower-cased name, or `general`.
    pub fn detect_course(&self, path: &str) -> (r: String)
        ensures
            r@ == course_of(lower_of(file_name_of(path@)), archive_courses()),
    {
        let ln = lowercase(file_name(path));
        detect_course(&chars_of(ln.as_str()), archive_course_table())
    }

    /// The manifest entry of a file moved from `path` to `archived_path`.
    pub fn archived_file_info(
        &self,
        path: &str,
        archived_path: &str,
        size_bytes: u64,
        archived_date: i64,
        original_modified: i64,
    ) -> (r: ArchivedFileInfo)
        ensures
            r.original_path@ == path@,
            r.archived_path@ == archived_path@,
            r.course@ == course_of(lower_of(file_name_of(path@)), archive_courses()),
            r.file_type@ == archived_type_of(path@),
            r.size_bytes == size_bytes,
            r.archived_date == archived_date,
            r.original_modified == original_modified,
    {
        let file_type = match extension(file_name(path)) {
            Some(e) => String::from_str(e),
            None => String::from_str("unknown"),
        };
        ArchivedFileInfo {
            original_path: String::from_str(path),
            archived_path: String::from_str(archived_path),
            course: self.detect_course(path),
            file_type,
            size_bytes,
            archived_date,
            original_modified,
        }
    }
}

/// What a run of claims in one course folder gives: the folder's names are
/// `taken` at first, and each claim that succeeds adds its name.
pub open spec fn claim_all(taken: Seq<Seq<char>>, names: Seq<Seq<char>>) -> Seq<Option<Seq<char>>>
    decreases names.len(),
{
    if names.len() == 0 {
        seq![]
    } else {
        let r = free_name_from(names[0], taken, 0);
        let next = match r {
            Some(d) => taken.push(d),
            None => taken,
        };
        seq![r] + claim_all(next, names.drop_first())
    }
}

impl CourseFolder {
    /// Claims a name for each file of `names` in turn.
    pub fn claim_each(&mut self, names: &Vec<String>) -> (r: Vec<Option<String>>)
        ensures
            r@.len() == names@.len(),
            r@.map_values(|o: Option<String>| match o {
                Some(d) => Some(d@),
                None => None,
            }) == claim_all(names_view(old(self).names@), names_view(names@)),
    {
        let ghost start = names_view(self.names@);
        let ghost all = names_view(names@);
        let mut r: Vec<Option<String>> = Vec::new();
        let mut i: usize = 0;
        assert(all.subrange(0, all.len() as int) =~= all);
        while i < names.len()
            invariant
                i <= names@.len(),
                all == names_view(names@),
                r@.len() == i,
                r@.map_values(|o: Option<String>| match o {
                    Some(d) => Some(d@),
                    None => None,
                }) + claim_all(names_view(self.names@), all.subrange(i as int, all.len() as int))
                    == claim_all(start, all),
            decreases names@.len() - i,
        {
            let ghost before = names_view(self.names@);
            let ghost rest = all.subrange(i as int, all.len() as int);
            let ghost prev = r@;
            let c = self.claim(names[i].as_str());
            proof {
                assert(rest[0] == names[i as int]@);
                assert(rest.drop_first() =~= all.subrange(i + 1, all.len() as int));
                if c is Some {
                    assert(names_view(self.names@) =~= before.push(c->Some_0@));
                }
                assert(claim_all(before, rest) == seq![free_name_from(rest[0], before, 0)]
                    + claim_all(names_view(self.names@), rest.drop_first()));
            }
            r.push(c);
            proof {
                let vw = |o: Option<String>| match o {
                    Some(d) => Some(d@),
                    None => None,
                };
                assert(r@.map_values(vw) =~= prev.map_values(vw).push(vw(c)));
                assert(r@.map_values(vw) + claim_all(names_view(self.names@), all.subrange(i + 1, all.len() as int))
                    =~= prev.map_values(vw) + claim_all(before, rest));
            }
            i += 1;
        }
        proof {
            let vw = |o: Option<String>| match o {
                Some(d) => Some(d@),
                None => None,
            };
            assert(all.subrange(i as int, all.len() as int) =~= Seq::<Seq<char>>::empty());
            assert(r@.map_values(vw) + seq![] =~= r@.map_values(vw));
        }
        r
    }
}

proof fn lemma_free_name_not_taken(name: Seq<char>, taken: Seq<Seq<char>>, k: nat)
    ensures
        free_name_from(name, taken, k) matches Some(d) ==> !taken.contains(d),
    decreases MAX_NAME_ATTEMPTS - k,
{
    if k < MAX_NAME_ATTEMPTS && taken.contains(numbered_name(name, k)) {
        lemma_free_name_not_taken(name, taken, k + 1);
    }
}

/// A claim fails only when every name it may try is taken.
pub proof fn lemma_claim_fails_only_when_full(name: Seq<char>, taken: Seq<Seq<char>>, k: nat)
    requires
        free_name_from(name, taken, k) is None,
    ensures
        forall|j: nat| k <= j < MAX_NAME_ATTEMPTS ==> taken.contains(#[trigger] numbered_name(name, j)),
    decreases MAX_NAME_ATTEMPTS - k,
{
    if k < MAX_NAME_ATTEMPTS {
        lemma_claim_fails_only_when_full(name, taken, k + 1);
    }
}

/// Files archived one after another into the same course folder get
/// pairwise distinct names, none of which was there before; a file that gets
/// none fails on its own, and only once every name it may try is taken.
pub proof fn lemma_claims_distinct(taken: Seq<Seq<char>>, names: Seq<Seq<char>>)
    ensures
        claim_all(taken, names).len() == names.len(),
        forall|a: int| 0 <= a < names.len() ==> (#[trigger] claim_all(taken, names)[a] matches Some(d)
            ==> !taken.contains(d)),
        forall|a: int, b: int| #![trigger claim_all(taken, names)[a], claim_all(taken, names)[b]]
            0 <= a < b < names.len() ==> (claim_all(taken, names)[a] matches Some(x)
            ==> (claim_all(taken, names)[b] matches Some(y) ==> x != y)),
    decreases names.len(),
{
    if names.len() > 0 {
        let r = free_name_from(names[0], taken, 0);
        let next = match r {
            Some(d) => taken.push(d),
            None => taken,
        };
        let rest = claim_all(next, names.drop_first());
        lemma_claims_distinct(next, names.drop_first());
        lemma_free_name_not_taken(names[0], taken, 0);
        let all = claim_all(taken, names);
        assert(all == seq![r] + rest);
        assert forall|a: int| 0 <= a < names.len() implies (#[trigger] all[a] matches Some(d) ==> !taken.contains(d)) by {
            if a > 0 {
                assert(all[a] == rest[a - 1]);
                if let Some(d) = rest[a - 1] {
                    assert(!next.contains(d));
                    if taken.contains(d) {
                        let t = choose|t: int| 0 <= t < taken.len() && taken[t] == d;
                        if let Some(x) = r {
                            assert(next[t] == d);
                        }
                    }
                }
            }
        }
        assert forall|a: int, b: int| #![trigger all[a], all[b]] 0 <= a < b < names.len() implies (all[a] matches Some(x)
            ==> (all[b] matches Some(y) ==> x != y)) by {
            assert(all[b] == rest[b - 1]);
            if a == 0 {
                if let Some(x) = r {
                    assert(next[next.len() - 1] == x);
                    assert(next.contains(x));
                }
            } else {
                assert(all[a] == rest[a - 1]);
            }
        }
    }
}

proof fn lemma_ext_dot(name: Seq<char>)
    ensures
        ext_dot(name) > 0 ==> ext_dot(name) < name.len() && name[ext_dot(name)] == '.',
{
    if exists|p: int| is_last_at(name, '.', p) {
        let p = choose|p: int| is_last_at(name, '.', p);
        assert(is_last_at(name, '.', p));
        assert(last_index(name, '.') == p);
    }
}

/// The suffix that follows the number in a numbered name.
spec fn tail_of(name: Seq<char>) -> Seq<char> {
    match extension_of(name) {
        Some(e) => if e.len() > 0 { "."@ + e } else { seq![] },
        None => seq![],
    }
}

/// The names tried for one file are pairwise distinct.
pub proof fn lemma_numbered_injective(name: Seq<char>, a: nat, b: nat)
    requires
        a != b,
    ensures
        numbered_name(name, a) != numbered_name(name, b),
{
    reveal_strlit("_");
    reveal_strlit(".");
    let st = stem_of(name);
    let t = tail_of(name);
    lemma_ext_dot(name);
    if a > 0 && b > 0 {
        let na = numbered_name(name, a);
        let nb = numbered_name(name, b);
        assert(na == st + "_"@ + decimal(a) + t);
        assert(nb == st + "_"@ + decimal(b) + t);
        if na == nb {
            let lo: int = st.len() as int + 1;
            assert(decimal(a).len() == decimal(b).len());
            assert(na.subrange(lo, lo + decimal(a).len() as int) =~= decimal(a));
            assert(nb.subrange(lo, lo + decimal(b).len() as int) =~= decimal(b));
            lemma_decimal_injective(a, b);
        }
    } else {
        let k = if a > 0 { a } else { b };
        let nk = numbered_name(name, k);
        lemma_decimal_len(k);
        assert(nk == st + "_"@ + decimal(k) + t);
        assert(nk[st.len() as int] == '_');
        if ext_dot(name) <= 0 {
            assert(st == name);
            assert(nk.len() > name.len());
        } else {
            assert(st =~= name.subrange(0, ext_dot(name)));
            assert(name[st.len() as int] == '.');
        }
    }
}

proof fn lemma_free_name_skips(name: Seq<char>, taken: Seq<Seq<char>>, k: nat, a0: nat)
    requires
        k <= a0 <= MAX_NAME_ATTEMPTS,
        forall|j: nat| j < a0 ==> taken.contains(#[trigger] numbered_name(name, j)),
    ensures
        free_name_from(name, taken, k) == free_name_from(name, taken, a0),
    decreases a0 - k,
{
    if k < a0 {
        lemma_free_name_skips(name, taken, k + 1, a0);
    }
}

/// `n` files of the same name.
pub open spec fn repeated(name: Seq<char>, n: nat) -> Seq<Seq<char>> {
    Seq::new(n, |x: int| name)
}

proof fn lemma_run_of_same_name(name: Seq<char>, taken: Seq<Seq<char>>, n: nat, a0: nat)
    requires
        a0 <= MAX_NAME_ATTEMPTS,
        forall|j: nat| j < a0 ==> taken.contains(#[trigger] numbered_name(name, j)),
        forall|j: nat| a0 <= j < MAX_NAME_ATTEMPTS ==> !taken.contains(#[trigger] numbered_name(name, j)),
    ensures
        forall|i: int| 0 <= i < n ==> (#[trigger] claim_all(taken, repeated(name, n))[i] is Some
            <==> a0 + i < MAX_NAME_ATTEMPTS),
    decreases n,
{
    let names = repeated(name, n);
    if n > 0 {
        let rest_names = repeated(name, (n - 1) as nat);
        assert(names.drop_first() =~= rest_names);
        lemma_free_name_skips(name, taken, 0, a0);
        let r = free_name_from(name, taken, 0);
        if a0 < MAX_NAME_ATTEMPTS {
            assert(r == Some(numbered_name(name, a0)));
            let next = taken.push(numbered_name(name, a0));
            assert forall|j: nat| j < a0 + 1 implies next.contains(#[trigger] numbered_name(name, j)) by {
                if j < a0 {
                    let t = choose|t: int| 0 <= t < taken.len() && taken[t] == numbered_name(name, j);
                    assert(next[t] == numbered_name(name, j));
                } else {
                    assert(next[taken.len() as int] == numbered_name(name, j));
                }
            }
            assert forall|j: nat| a0 + 1 <= j < MAX_NAME_ATTEMPTS implies !next.contains(#[trigger] numbered_name(name, j)) by {
                lemma_numbered_injective(name, j, a0);
                if next.contains(numbered_name(name, j)) {
                    let t = choose|t: int| 0 <= t < next.len() && next[t] == numbered_name(name, j);
                    if t < taken.len() {
                        assert(taken[t] == numbered_name(name, j));
                    }
                }
            }
            lemma_run_of_same_name(name, next, (n - 1) as nat, a0 + 1);
            lemma_claims_distinct(next, rest_names);
            assert(claim_all(taken, names) == seq![r] + claim_all(next, rest_names));
        } else {
            assert(r is None);
            lemma_run_of_same_name(name, taken, (n - 1) as nat, a0);
            lemma_claims_distinct(taken, rest_names);
            assert(claim_all(taken, names) == seq![r] + claim_all(taken, rest_names));
        }
        let all = claim_all(taken, names);
        assert forall|i: int| 0 <= i < n implies (#[trigger] all[i] is Some <==> a0 + i < MAX_NAME_ATTEMPTS) by {
            if i > 0 {
                if a0 < MAX_NAME_ATTEMPTS {
                    assert(all[i] == claim_all(taken.push(numbered_name(name, a0)), rest_names)[i - 1]);
                } else {
                    assert(all[i] == claim_all(taken, rest_names)[i - 1]);
                }
            }
        }
    }
}

/// Archiving files of one name into a course folder that holds none of the
/// names they may take: the first hundred succeed, each after fails.
pub proof fn lemma_hundred_names(name: Seq<char>, taken: Seq<Seq<char>>, n: nat)
    requires
        forall|j: nat| j < MAX_NAME_ATTEMPTS ==> !taken.contains(#[trigger] numbered_name(name, j)),
    ensures
        forall|i: int| 0 <= i < n ==> (#[trigger] claim_all(taken, repeated(name, n))[i] is Some
            <==> i < MAX_NAME_ATTEMPTS),
{
    lemma_run_of_same_name(name, taken, n, 0);
}

} // verus!
