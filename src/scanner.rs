//! The directory scan: which entries of a bounded walk become candidates, and
//! how candidates become a ranked list of removal suggestions.

use vstd::prelude::*;
use vstd::set_lib::{set_int_range, lemma_int_range};
use crate::classify::{
    lecture_words,
    FileCategory, category_of, course_by_pattern, scan_course_patterns, scan_cloud_words, system_words,
    categorize_file, detect_course_by_pattern, scan_course_table, scan_is_in_cloud_folder, is_system_path,
};
use crate::duplicates::{
    needs_hash, size_shared, digests_view, group_size, detect_duplicates, group_sizes, blake3_hex,
    lemma_two_in_group, lemma_duplicate_has_partner,
};
use crate::protection::{Config, ProtectionType, protection_of};
use crate::scoring::{
    UNIT, SCALE, Reason, confidence_of, reasons_of, reason_text, calculate_confidence, study_words,
};
use crate::text::{
    chars_of, extension, extension_of, file_name, file_name_of, has_any_infix, has_infix, lower_of, lowercase,
};
use crate::time::{days_between, whole_days_between};

verus! {

/// The walk never reports entries deeper than this below the root.
pub const MAX_DEPTH: usize = 3;

/// A scan stops after this many candidates.
pub const MAX_FILES_TO_SCAN: usize = 5000;

/// Files scoring below this are dropped from the suggestions in normal mode (0.4).
pub const MIN_SUGGESTED: u64 = 40 * UNIT;

/// What a walk entry is. A symbolic link is reported as such and never followed.
#[derive(Clone, Copy, Debug, PartialEq, Eq, Structural)]
pub enum EntryKind {
    File,
    Dir,
    Symlink,
    Other,
}

/// One entry of the directory walk, with its depth below the root (the root is 0).
#[derive(Clone, Debug)]
pub struct WalkEntry {
    pub path: String,
    pub depth: usize,
    pub kind: EntryKind,
}

/// A candidate file with what its metadata told: size in bytes and times in
/// seconds since the Unix epoch.
#[derive(Clone, Debug)]
pub struct Candidate {
    pub path: String,
    pub size_bytes: u64,
    pub modified: i64,
    pub created: i64,
}

/// One suggestion of the scan.
#[derive(Clone, Debug)]
pub struct FileInfo {
    pub path: String,
    pub size_bytes: u64,
    pub modified: i64,
    pub created: i64,
    pub days_old: i64,
    pub course: String,
    pub file_type: String,
    pub hash: Option<String>,
    /// Fixed-point confidence; `SCALE` is 1.0.
    pub confidence: u64,
    pub reason: String,
    pub category: FileCategory,
    pub is_in_cloud: bool,
    pub is_locked: bool,
    /// Position of the file among the candidates of the scan.
    pub candidate: usize,
}

/// The ranked suggestions of one scan and its counters.
#[derive(Clone, Debug)]
pub struct ScanResult {
    pub files: Vec<FileInfo>,
    pub total_files_scanned: usize,
    pub total_size_bytes: u64,
    pub duplicates_found: usize,
    pub old_files_found: usize,
    pub large_files_found: usize,
    pub cloud_files_found: usize,
    /// Elapsed time in seconds, measured by whoever ran the scan.
    pub scan_duration_secs: i64,
}

/// The scanner, with its settings.
pub struct Scanner {
    pub config: Config,
    pub is_exam_mode: bool,
}

pub open spec fn study_extensions() -> Seq<Seq<char>> {
    seq![
        "pdf"@, "docx"@, "pptx"@, "txt"@, "md"@, "ipynb"@, "py"@, "java"@, "c"@, "cpp"@, "rs"@,
        "js"@, "html"@, "csv"@, "xlsx"@,
    ]
}

pub open spec fn exam_extensions() -> Seq<Seq<char>> {
    study_extensions() + seq!["png"@, "jpg"@, "jpeg"@]
}

pub open spec fn allowed_extensions(exam: bool) -> Seq<Seq<char>> {
    if exam { exam_extensions() } else { study_extensions() }
}

/// The lower-cased name of the file at `path`.
pub open spec fn lname_of(path: Seq<char>) -> Seq<char> {
    lower_of(file_name_of(path))
}

/// The extension of the file at `path` is on the allowlist of the mode.
pub open spec fn extension_allowed(path: Seq<char>, exam: bool) -> bool {
    match extension_of(file_name_of(path)) {
        Some(e) => allowed_extensions(exam).contains(lower_of(e)),
        None => false,
    }
}

/// The folder that protects `path` has hard protection.
pub open spec fn hard_protected(config: Config, path: Seq<char>) -> bool {
    protection_of(config, path) == Some(ProtectionType::Hard)
}

fn allowed_extension_table(exam: bool) -> (r: &'static [&'static str])
    ensures
        r@.map_values(|w: &str| w@) == allowed_extensions(exam),
{
    if exam {
        let r: &'static [&'static str] = &[
            "pdf", "docx", "pptx", "txt", "md", "ipynb", "py", "java", "c", "cpp", "rs", "js",
            "html", "csv", "xlsx", "png", "jpg", "jpeg",
        ];
        assert(r@.map_values(|w: &str| w@) =~= exam_extensions());
        r
    } else {
        let r: &'static [&'static str] = &[
            "pdf", "docx", "pptx", "txt", "md", "ipynb", "py", "java", "c", "cpp", "rs", "js",
            "html", "csv", "xlsx",
        ];
        assert(r@.map_values(|w: &str| w@) =~= study_extensions());
        r
    }
}

fn str_in(s: &String, table: &[&str]) -> (r: bool)
    ensures
        r == table@.map_values(|w: &str| w@).contains(s@),
{
    let ghost tv = table@.map_values(|w: &str| w@);
    let mut k: usize = 0;
    while k < table.len()
        invariant
            tv == table@.map_values(|w: &str| w@),
            k <= table@.len(),
            forall|t: int| 0 <= t < k ==> tv[t] != s@,
        decreases table@.len() - k,
    {
        let w = String::from_str(table[k]);
        if *s == w {
            assert(tv[k as int] == s@);
            return true;
        }
        k += 1;
    }
    false
}

impl Scanner {
    pub fn new(config: Config, is_exam_mode: bool) -> (r: Scanner)
        ensures
            r.config == config,
            r.is_exam_mode == is_exam_mode,
    {
        Scanner { config, is_exam_mode }
    }

    /// A walk entry that becomes a candidate: a regular file at most three
    /// levels down, outside system locations and hard-protected folders, with
    /// an extension on the allowlist of the mode.
    pub open spec fn eligible(&self, e: WalkEntry) -> bool {
        &&& e.kind == EntryKind::File
        &&& e.depth <= MAX_DEPTH
        &&& !has_any_infix(lower_of(e.path@), system_words())
        &&& !hard_protected(self.config, e.path@)
        &&& extension_allowed(e.path@, self.is_exam_mode)
    }

    /// The positions of the eligible entries among the first `s`.
    pub open spec fn selected(&self, entries: Seq<WalkEntry>, s: int) -> Seq<usize>
        decreases s,
    {
        if s <= 0 {
            seq![]
        } else if self.eligible(entries[s - 1]) {
            self.selected(entries, s - 1).push((s - 1) as usize)
        } else {
            self.selected(entries, s - 1)
        }
    }

    /// Whether a path may be scanned at all: not a system location and not in
    /// a hard-protected folder.
    pub fn path_allowed(&self, path: &str) -> (r: bool)
        ensures
            r == (!has_any_infix(lower_of(path@), system_words()) && !hard_protected(self.config, path@)),
    {
        let lp = lowercase(path);
        if is_system_path(&chars_of(lp.as_str())) {
            return false;
        }
        match self.config.protection(path) {
            Some(ProtectionType::Hard) => false,
            _ => true,
        }
    }

    fn entry_eligible(&self, e: &WalkEntry) -> (r: bool)
        ensures
            r == self.eligible(*e),
    {
        if e.kind != EntryKind::File || e.depth > MAX_DEPTH {
            return false;
        }
        if !self.path_allowed(e.path.as_str()) {
            return false;
        }
        match extension(file_name(e.path.as_str())) {
            Some(ext) => {
                let lext = lowercase(ext);
                str_in(&lext, allowed_extension_table(self.is_exam_mode))
            },
            None => false,
        }
    }

    /// Picks the candidates among the entries of a walk, in walk order. The
    /// walk stops at the first entry met once `MAX_FILES_TO_SCAN` candidates
    /// are taken; the flag says whether it stopped early.
    pub fn collect_candidates(&self, entries: &Vec<WalkEntry>) -> (r: (Vec<usize>, bool))
        ensures
            forall|k: int| 0 <= k < r.0@.len() ==> r.0@[k] < entries@.len()
                && self.eligible(entries@[r.0@[k] as int]),
            forall|a: int, b: int| 0 <= a < b < r.0@.len() ==> r.0@[a] < r.0@[b],
            r.0@.len() <= MAX_FILES_TO_SCAN,
            !r.1 ==> r.0@ == self.selected(entries@, entries@.len() as int),
            r.1 ==> r.0@.len() == MAX_FILES_TO_SCAN && exists|s: int| 0 <= s < entries@.len()
                && r.0@ == self.selected(entries@, s),
    {
        let mut r: Vec<usize> = Vec::new();
        let mut i: usize = 0;
        while i < entries.len()
            invariant
                i <= entries@.len(),
                r@ == self.selected(entries@, i as int),
                r@.len() <= MAX_FILES_TO_SCAN,
                forall|k: int| 0 <= k < r@.len() ==> r@[k] < i && self.eligible(entries@[r@[k] as int]),
                forall|a: int, b: int| 0 <= a < b < r@.len() ==> r@[a] < r@[b],
            decreases entries@.len() - i,
        {
            if r.len() >= MAX_FILES_TO_SCAN {
                return (r, true);
            }
            if self.entry_eligible(&entries[i]) {
                r.push(i);
            }
            i += 1;
        }
        (r, false)
    }
}

/// The type of the file at `path`: its lower-cased extension, or `unknown`.
pub open spec fn file_type_of(path: Seq<char>) -> Seq<char> {
    match extension_of(file_name_of(path)) {
        Some(e) => lower_of(e),
        None => lower_of("unknown"@),
    }
}

pub open spec fn is_image_type(t: Seq<char>) -> bool {
    t == "png"@ || t == "jpg"@ || t == "jpeg"@
}

/// The file is a screenshot scored in exam mode.
pub open spec fn exam_image(c: Candidate, exam: bool) -> bool {
    exam && extension_of(file_name_of(c.path@)) is Some && is_image_type(file_type_of(c.path@))
}

/// The category of a candidate: `Duplicate` where its content is shared,
/// else by name, age and size.
pub open spec fn file_category(c: Candidate, copies: int, now: int, large_mb: int) -> FileCategory {
    if copies > 1 {
        FileCategory::Duplicate
    } else {
        category_of(lname_of(c.path@), days_between(now, c.modified as int), c.size_bytes as int, large_mb)
    }
}

/// The confidence of a candidate.
pub open spec fn file_confidence(c: Candidate, copies: int, now: int, days_threshold: int, large_mb: int, exam: bool) -> int {
    confidence_of(
        copies,
        lname_of(c.path@),
        days_between(now, c.modified as int),
        c.size_bytes as int,
        days_threshold,
        large_mb,
        file_category(c, copies, now, large_mb),
        exam_image(c, exam),
    )
}

/// The reason text of a candidate.
pub open spec fn file_reason(c: Candidate, copies: int, now: int, days_threshold: int, large_mb: int, exam: bool) -> Seq<char> {
    reason_text(
        reasons_of(
            copies,
            lname_of(c.path@),
            days_between(now, c.modified as int),
            c.size_bytes as int,
            days_threshold,
            large_mb,
            exam_image(c, exam),
        ),
    )
}

pub open spec fn hash_view(h: Option<String>) -> Option<Seq<char>> {
    match h {
        Some(s) => Some(s@),
        None => None,
    }
}

/// `r` is the suggestion made of candidate `c`, the `i`-th, given its digest
/// `h`, the size `copies` of its duplicate group and whether it is locked.
pub open spec fn file_matches(
    r: FileInfo,
    c: Candidate,
    i: int,
    h: Option<Seq<char>>,
    copies: int,
    locked: bool,
    now: int,
    days_threshold: int,
    large_mb: int,
    exam: bool,
) -> bool {
    &&& r.path@ == c.path@
    &&& r.size_bytes == c.size_bytes
    &&& r.modified == c.modified
    &&& r.created == c.created
    &&& r.days_old == days_between(now, c.modified as int)
    &&& r.course@ == course_by_pattern(lname_of(c.path@), scan_course_patterns())
    &&& r.file_type@ == file_type_of(c.path@)
    &&& hash_view(r.hash) == h
    &&& r.category == file_category(c, copies, now, large_mb)
    &&& r.confidence == file_confidence(c, copies, now, days_threshold, large_mb, exam)
    &&& r.reason@ == file_reason(c, copies, now, days_threshold, large_mb, exam)
    &&& r.is_in_cloud == has_any_infix(lower_of(c.path@), scan_cloud_words())
    &&& r.is_locked == locked
    &&& r.candidate == i
}

/// `a` ranks before `b`: higher confidence, or the same and found earlier.
pub open spec fn ranks_before(a: FileInfo, b: FileInfo) -> bool {
    a.confidence > b.confidence || (a.confidence == b.confidence && a.candidate < b.candidate)
}

/// Every suggestion ranks before those after it.
pub open spec fn ranked(files: Seq<FileInfo>) -> bool {
    forall|a: int, b: int| 0 <= a < b < files.len() ==> ranks_before(files[a], files[b])
}

/// What a scan is computed from.
pub struct ScanInputs {
    pub cands: Seq<Candidate>,
    pub digests: Seq<Option<Seq<char>>>,
    pub locked: Seq<bool>,
    pub now: int,
    pub days_threshold: int,
    pub large_mb: int,
    pub exam: bool,
}

impl ScanInputs {
    pub open spec fn sizes(self) -> Seq<u64> {
        self.cands.map_values(|c: Candidate| c.size_bytes)
    }

    /// The digests that count: only those of candidates that needed hashing.
    pub open spec fn effective(self) -> Seq<Option<Seq<char>>> {
        Seq::new(self.cands.len(), |i: int| if needs_hash(self.sizes(), i) { self.digests[i] } else { None })
    }

    pub open spec fn copies(self, i: int) -> int {
        group_size(self.sizes(), self.effective(), i) as int
    }

    pub open spec fn category(self, i: int) -> FileCategory {
        file_category(self.cands[i], self.copies(i), self.now, self.large_mb)
    }

    pub open spec fn confidence(self, i: int) -> int {
        file_confidence(self.cands[i], self.copies(i), self.now, self.days_threshold, self.large_mb, self.exam)
    }

    /// Candidate `i` is suggested: always in exam mode, else from 0.4 up.
    pub open spec fn kept(self, i: int) -> bool {
        self.exam || self.confidence(i) >= MIN_SUGGESTED
    }

    pub open spec fn in_cloud(self, i: int) -> bool {
        has_any_infix(lower_of(self.cands[i].path@), scan_cloud_words())
    }

    pub open spec fn matches(self, r: FileInfo, i: int) -> bool {
        file_matches(
            r,
            self.cands[i],
            i,
            self.effective()[i],
            self.copies(i),
            self.locked[i],
            self.now,
            self.days_threshold,
            self.large_mb,
            self.exam,
        )
    }

    /// Suggested candidates among the first `n` in category `cat`.
    pub open spec fn count_kept_in(self, n: int, cat: FileCategory) -> nat
        decreases n,
    {
        if n <= 0 {
            0
        } else {
            self.count_kept_in(n - 1, cat) + if self.kept(n - 1) && self.category(n - 1) == cat { 1nat } else { 0nat }
        }
    }

    /// Candidates among the first `n` in cloud-synced folders.
    pub open spec fn count_cloud(self, n: int) -> nat
        decreases n,
    {
        if n <= 0 {
            0
        } else {
            self.count_cloud(n - 1) + if self.in_cloud(n - 1) { 1nat } else { 0nat }
        }
    }

    /// Bytes of the suggested candidates among the first `n`.
    pub open spec fn kept_bytes(self, n: int) -> nat
        decreases n,
    {
        if n <= 0 {
            0
        } else {
            self.kept_bytes(n - 1) + if self.kept(n - 1) { self.cands[n - 1].size_bytes as nat } else { 0nat }
        }
    }
}

/// `r` is the result of a scan of `inp`: the suggested candidates, each once,
/// ranked by confidence with ties in candidate order, and the counters.
pub open spec fn scan_result_ok(r: ScanResult, inp: ScanInputs) -> bool {
    let n = inp.cands.len() as int;
    &&& ranked(r.files@)
    &&& forall|k: int| 0 <= k < r.files@.len() ==> {
        let i = r.files@[k].candidate as int;
        0 <= i < n && inp.kept(i) && inp.matches(#[trigger] r.files@[k], i)
    }
    &&& forall|i: int| 0 <= i < n && inp.kept(i) ==> exists|k: int| 0 <= k < r.files@.len()
        && #[trigger] r.files@[k].candidate == i
    &&& r.total_files_scanned == n
    &&& r.total_size_bytes == if inp.kept_bytes(n) > u64::MAX { u64::MAX as nat } else { inp.kept_bytes(n) }
    &&& r.duplicates_found == inp.count_kept_in(n, FileCategory::Duplicate)
    &&& r.old_files_found == inp.count_kept_in(n, FileCategory::Old)
    &&& r.large_files_found == inp.count_kept_in(n, FileCategory::Large)
    &&& r.cloud_files_found == inp.count_cloud(n)
    &&& r.scan_duration_secs == 0
}

/// The inputs of a scan, as its contract sees them.
pub open spec fn scan_inputs(
    candidates: Seq<Candidate>,
    digests: Seq<Option<String>>,
    locked: Seq<bool>,
    now: i64,
    days_threshold: u64,
    large_mb: u64,
    exam: bool,
) -> ScanInputs {
    ScanInputs {
        cands: candidates,
        digests: digests_view(digests),
        locked,
        now: now as int,
        days_threshold: days_threshold as int,
        large_mb: large_mb as int,
        exam,
    }
}

fn clone_digest(h: &Option<String>) -> (r: Option<String>)
    ensures
        hash_view(r) == hash_view(*h),
{
    match h {
        Some(d) => Some(d.clone()),
        None => None,
    }
}

proof fn lemma_insert_ranked(old: Seq<FileInfo>, p: int, x: FileInfo)
    requires
        ranked(old),
        0 <= p <= old.len(),
        forall|q: int| 0 <= q < p ==> old[q].confidence > x.confidence,
        forall|q: int| p <= q < old.len() ==> old[q].confidence <= x.confidence,
        forall|q: int| 0 <= q < old.len() ==> x.candidate < old[q].candidate,
    ensures
        ranked(old.insert(p, x)),
{
    let o = old.insert(p, x);
    assert forall|a: int, b: int| 0 <= a < b < o.len() implies ranks_before(o[a], o[b]) by {
        if b < p {
            assert(o[a] == old[a] && o[b] == old[b]);
        } else if a < p && b == p {
            assert(o[a] == old[a]);
        } else if a < p {
            assert(o[a] == old[a] && o[b] == old[b - 1]);
        } else if a == p {
            assert(o[b] == old[b - 1]);
        } else {
            assert(o[a] == old[a - 1] && o[b] == old[b - 1]);
        }
    }
}

/// Orders suggestions by confidence, highest first, keeping the order of the
/// candidates among equal confidences. What holds of every suggestion given
/// holds of every one returned.
fn rank(recs: Vec<FileInfo>, Ghost(ok): Ghost<spec_fn(FileInfo) -> bool>) -> (r: Vec<FileInfo>)
    requires
        forall|a: int, b: int| 0 <= a < b < recs@.len() ==> recs@[a].candidate < recs@[b].candidate,
        forall|t: int| 0 <= t < recs@.len() ==> ok(#[trigger] recs@[t]),
    ensures
        r@.len() == recs@.len(),
        ranked(r@),
        forall|k: int| 0 <= k < r@.len() ==> ok(#[trigger] r@[k]),
        forall|t: int| #![trigger recs@[t]] 0 <= t < recs@.len() ==> exists|k: int| #![trigger r@[k]]
            0 <= k < r@.len() && r@[k].candidate == recs@[t].candidate,
{
    let ghost all = recs@;
    let mut rest = recs;
    let mut out: Vec<FileInfo> = Vec::new();
    while rest.len() > 0
        invariant
            rest@ == all.subrange(0, rest@.len() as int),
            rest@.len() <= all.len(),
            forall|a: int, b: int| 0 <= a < b < all.len() ==> all[a].candidate < all[b].candidate,
            forall|t: int| 0 <= t < all.len() ==> ok(#[trigger] all[t]),
            out@.len() == all.len() - rest@.len(),
            ranked(out@),
            forall|k: int| 0 <= k < out@.len() ==> ok(#[trigger] out@[k]),
            forall|t: int| #![trigger all[t]] rest@.len() <= t < all.len() ==> exists|k: int| #![trigger out@[k]]
                0 <= k < out@.len() && out@[k].candidate == all[t].candidate,
            forall|k: int, t: int| 0 <= k < out@.len() && 0 <= t < rest@.len()
                ==> #[trigger] all[t].candidate < #[trigger] out@[k].candidate,
        decreases rest@.len(),
    {
        let ghost m = rest@.len() - 1;
        let ghost old_out = out@;
        let x = match rest.pop() {
            Some(x) => x,
            None => {
                return out;
            },
        };
        assert(x == all[m]);
        let mut p: usize = 0;
        while p < out.len() && out[p].confidence > x.confidence
            invariant
                out@ == old_out,
                p <= out@.len(),
                forall|q: int| 0 <= q < p ==> out@[q].confidence > x.confidence,
            decreases out@.len() - p,
        {
            p += 1;
        }
        proof {
            assert forall|q: int| p <= q < old_out.len() implies old_out[q].confidence <= x.confidence by {
                if q > p {
                    assert(ranks_before(old_out[p as int], old_out[q]));
                }
            }
            assert forall|q: int| 0 <= q < old_out.len() implies x.candidate < old_out[q].candidate by {
                assert(all[m].candidate < old_out[q].candidate);
            }
            lemma_insert_ranked(old_out, p as int, x);
        }
        out.insert(p, x);
        proof {
            let o = out@;
            assert forall|k: int| 0 <= k < o.len() implies ok(#[trigger] o[k]) by {
                if k < p {
                    assert(o[k] == old_out[k]);
                } else if k > p {
                    assert(o[k] == old_out[k - 1]);
                }
            }
            assert forall|t: int| #![trigger all[t]] rest@.len() <= t < all.len() implies exists|k: int| #![trigger o[k]]
                0 <= k < o.len() && o[k].candidate == all[t].candidate by {
                if t == m {
                    assert(o[p as int].candidate == all[t].candidate);
                } else {
                    let k = choose|k: int| #![trigger old_out[k]] 0 <= k < old_out.len() && old_out[k].candidate == all[t].candidate;
                    if k < p {
                        assert(o[k] == old_out[k]);
                    } else {
                        assert(o[k + 1] == old_out[k]);
                    }
                }
            }
            assert forall|k: int, t: int| 0 <= k < o.len() && 0 <= t < rest@.len()
                implies #[trigger] all[t].candidate < #[trigger] o[k].candidate by {
                if k < p {
                    assert(o[k] == old_out[k]);
                } else if k == p {
                    assert(all[t].candidate < all[m].candidate);
                } else {
                    assert(o[k] == old_out[k - 1]);
                }
            }
        }
    }
    out
}

impl Scanner {
    fn analyze_one(
        &self,
        c: &Candidate,
        i: usize,
        hash: Option<String>,
        copies: usize,
        locked: bool,
        now: i64,
        days_threshold: u64,
        large_mb: u64,
    ) -> (r: FileInfo)
        ensures
            file_matches(r, *c, i as int, hash_view(hash), copies as int, locked, now as int,
                days_threshold as int, large_mb as int, self.is_exam_mode),
    {
        let name = file_name(c.path.as_str());
        let lname_s = lowercase(name);
        let lname = chars_of(lname_s.as_str());
        let days_old = whole_days_between(now, c.modified);
        let course = detect_course_by_pattern(lname_s.as_str(), scan_course_table());
        let ext = extension(name);
        let has_ext = ext.is_some();
        let type_src: &str = match ext {
            Some(e) => e,
            None => "unknown",
        };
        let file_type = lowercase(type_src);
        let images: &'static [&'static str] = &["png", "jpg", "jpeg"];
        let is_image = str_in(&file_type, images);
        proof {
            reveal_strlit("png");
            reveal_strlit("jpg");
            reveal_strlit("jpeg");
            assert(images@.map_values(|w: &str| w@) =~= seq!["png"@, "jpg"@, "jpeg"@]);
        }
        let exam_img = self.is_exam_mode && has_ext && is_image;
        let category = if copies > 1 {
            FileCategory::Duplicate
        } else {
            categorize_file(&lname, days_old, c.size_bytes, large_mb)
        };
        let (confidence, reason) = calculate_confidence(
            &lname, days_old, c.size_bytes, days_threshold, large_mb, copies, category, exam_img);
        let lpath = lowercase(c.path.as_str());
        let is_in_cloud = scan_is_in_cloud_folder(&chars_of(lpath.as_str()));
        FileInfo {
            path: c.path.clone(),
            size_bytes: c.size_bytes,
            modified: c.modified,
            created: c.created,
            days_old,
            course,
            file_type,
            hash,
            confidence,
            reason,
            category,
            is_in_cloud,
            is_locked: locked,
            candidate: i,
        }
    }
}

impl Scanner {
    /// Ranks the candidates of a walk. `digests` holds, for each candidate, the
    /// content digest where it was hashed (a digest of a candidate that did not
    /// need hashing is ignored), `locked` whether it is open elsewhere, `now`
    /// the time of the scan. Files of the same content form duplicate groups;
    /// each candidate is scored, those under 0.4 are dropped outside exam
    /// mode, and the rest are ranked by confidence, ties in candidate order.
    pub fn scan(
        &self,
        candidates: &Vec<Candidate>,
        digests: &Vec<Option<String>>,
        locked: &Vec<bool>,
        now: i64,
        days_threshold: u64,
        large_threshold_mb: u64,
    ) -> (r: ScanResult)
        requires
            digests@.len() == candidates@.len(),
            locked@.len() == candidates@.len(),
        ensures
            scan_result_ok(r, scan_inputs(candidates@, digests@, locked@, now, days_threshold,
                large_threshold_mb, self.is_exam_mode)),
    {
        let ghost inp = scan_inputs(candidates@, digests@, locked@, now, days_threshold,
            large_threshold_mb, self.is_exam_mode);
        let n = candidates.len();
        let mut sizes: Vec<u64> = Vec::new();
        let mut i: usize = 0;
        while i < n
            invariant
                n == candidates@.len(),
                i <= n,
                sizes@ =~= candidates@.subrange(0, i as int).map_values(|c: Candidate| c.size_bytes),
            decreases n - i,
        {
            sizes.push(candidates[i].size_bytes);
            i += 1;
        }
        assert(candidates@.subrange(0, n as int) =~= candidates@);
        assert(sizes@ == inp.sizes());
        let plan = detect_duplicates(&sizes);
        let mut effective: Vec<Option<String>> = Vec::new();
        i = 0;
        while i < n
            invariant
                n == candidates@.len(),
                n == digests@.len(),
                plan@.len() == n,
                forall|k: int| 0 <= k < n ==> plan@[k] == needs_hash(inp.sizes(), k),
                inp == scan_inputs(candidates@, digests@, locked@, now, days_threshold,
                    large_threshold_mb, self.is_exam_mode),
                i <= n,
                effective@.len() == i,
                forall|k: int| 0 <= k < i ==> hash_view(#[trigger] effective@[k]) == inp.effective()[k],
            decreases n - i,
        {
            if plan[i] {
                effective.push(clone_digest(&digests[i]));
            } else {
                effective.push(None);
            }
            i += 1;
        }
        assert(digests_view(effective@) =~= inp.effective());
        let counts = group_sizes(&sizes, &effective);
        let mut recs: Vec<FileInfo> = Vec::new();
        let mut total: u64 = 0;
        let mut dups: usize = 0;
        let mut olds: usize = 0;
        let mut larges: usize = 0;
        let mut clouds: usize = 0;
        i = 0;
        while i < n
            invariant
                n == candidates@.len(),
                n == locked@.len(),
                effective@.len() == n,
                digests_view(effective@) == inp.effective(),
                counts@.len() == n,
                forall|k: int| 0 <= k < n ==> counts@[k] == inp.copies(k),
                inp == scan_inputs(candidates@, digests@, locked@, now, days_threshold,
                    large_threshold_mb, self.is_exam_mode),
                i <= n,
                forall|k: int| 0 <= k < recs@.len() ==> {
                    let c = (#[trigger] recs@[k]).candidate as int;
                    0 <= c < i && inp.kept(c) && inp.matches(recs@[k], c)
                },
                forall|a: int, b: int| 0 <= a < b < recs@.len() ==> recs@[a].candidate < recs@[b].candidate,
                forall|t: int| #![trigger inp.kept(t)] 0 <= t < i && inp.kept(t) ==> exists|k: int| #![trigger recs@[k]]
                    0 <= k < recs@.len() && recs@[k].candidate == t,
                total == if inp.kept_bytes(i as int) > u64::MAX { u64::MAX as nat } else { inp.kept_bytes(i as int) },
                dups == inp.count_kept_in(i as int, FileCategory::Duplicate),
                olds == inp.count_kept_in(i as int, FileCategory::Old),
                larges == inp.count_kept_in(i as int, FileCategory::Large),
                clouds == inp.count_cloud(i as int),
                dups <= i,
                olds <= i,
                larges <= i,
                clouds <= i,
            decreases n - i,
        {
            let ghost old_recs = recs@;
            let rec = self.analyze_one(&candidates[i], i, clone_digest(&effective[i]), counts[i], locked[i],
                now, days_threshold, large_threshold_mb);
            if rec.is_in_cloud {
                clouds += 1;
            }
            if self.is_exam_mode || rec.confidence >= MIN_SUGGESTED {
                match rec.category {
                    FileCategory::Duplicate => dups += 1,
                    FileCategory::Old => olds += 1,
                    FileCategory::Large => larges += 1,
                    _ => {},
                }
                total = total.saturating_add(rec.size_bytes);
                proof {
                    if recs@.len() > 0 {
                        assert(recs@[recs@.len() - 1].candidate < i);
                    }
                }
                recs.push(rec);
                proof {
                    assert(recs@[recs@.len() - 1].candidate == i);
                }
            }
            proof {
                assert forall|t: int| #![trigger inp.kept(t)] 0 <= t < i + 1 && inp.kept(t)
                    implies exists|k: int| #![trigger recs@[k]] 0 <= k < recs@.len() && recs@[k].candidate == t by {
                    if t == i {
                        assert(recs@[recs@.len() - 1].candidate == t);
                    } else {
                        let k = choose|k: int| #![trigger old_recs[k]] 0 <= k < old_recs.len() && old_recs[k].candidate == t;
                        assert(recs@[k] == old_recs[k]);
                    }
                }
            }
            i += 1;
        }
        let ghost ok = |f: FileInfo| 0 <= f.candidate < n && inp.kept(f.candidate as int)
            && inp.matches(f, f.candidate as int);
        let files = rank(recs, Ghost(ok));
        proof {
            assert forall|k: int| 0 <= k < files@.len() implies {
                let c = (#[trigger] files@[k]).candidate as int;
                0 <= c < n && inp.kept(c) && inp.matches(files@[k], c)
            } by {
                assert(ok(files@[k]));
            }
            assert forall|t: int| 0 <= t < n && inp.kept(t) implies exists|k: int| 0 <= k < files@.len()
                && #[trigger] files@[k].candidate == t by {
                let j = choose|j: int| #![trigger recs@[j]] 0 <= j < recs@.len() && recs@[j].candidate == t;
                assert(recs@[j].candidate == t);
            }
        }
        ScanResult {
            files,
            total_files_scanned: n,
            total_size_bytes: total,
            duplicates_found: dups,
            old_files_found: olds,
            large_files_found: larges,
            cloud_files_found: clouds,
            scan_duration_secs: 0,
        }
    }
}

impl ScanResult {
    /// The result of a scan that found nothing.
    pub fn empty() -> (r: ScanResult)
        ensures
            r.files@.len() == 0,
            r.total_files_scanned == 0,
            r.total_size_bytes == 0,
            r.duplicates_found == 0,
            r.old_files_found == 0,
            r.large_files_found == 0,
            r.cloud_files_found == 0,
            r.scan_duration_secs == 0,
    {
        ScanResult {
            files: Vec::new(),
            total_files_scanned: 0,
            total_size_bytes: 0,
            duplicates_found: 0,
            old_files_found: 0,
            large_files_found: 0,
            cloud_files_found: 0,
            scan_duration_secs: 0,
        }
    }

    /// The suggestions in one category, in ranked order.
    pub fn files_by_category(&self, category: FileCategory) -> (r: Vec<&FileInfo>)
        ensures
            r@.map_values(|f: &FileInfo| *f) == self.files@.filter(|f: FileInfo| f.category == category),
    {
        let ghost pred = |f: FileInfo| f.category == category;
        let mut r: Vec<&FileInfo> = Vec::new();
        let mut i: usize = 0;
        while i < self.files.len()
            invariant
                pred == (|f: FileInfo| f.category == category),
                i <= self.files@.len(),
                r@.map_values(|f: &FileInfo| *f) == self.files@.subrange(0, i as int).filter(pred),
            decreases self.files@.len() - i,
        {
            let ghost prefix = self.files@.subrange(0, i as int + 1);
            proof {
                reveal(Seq::filter);
                assert(prefix.drop_last() =~= self.files@.subrange(0, i as int));
                assert(prefix.last() == self.files@[i as int]);
                assert(prefix.filter(pred) == if pred(prefix.last()) {
                    prefix.drop_last().filter(pred).push(prefix.last())
                } else {
                    prefix.drop_last().filter(pred)
                });
            }
            let ghost before = r@;
            if self.files[i].category == category {
                r.push(&self.files[i]);
                assert(r@.map_values(|f: &FileInfo| *f) =~= before.map_values(|f: &FileInfo| *f).push(self.files@[i as int]));
            }
            i += 1;
        }
        assert(self.files@.subrange(0, i as int) =~= self.files@);
        r
    }

    /// How many files are suggested.
    pub fn total_suggestions(&self) -> (r: usize)
        ensures
            r == self.files@.len(),
    {
        self.files.len()
    }
}

/// Two candidates with the same non-empty content (so the same size, and the
/// same digest from `ContentHasher`) both need hashing, share one duplicate
/// group, and are both suggested as duplicates with confidence at least 0.99,
/// unless a candidate is a screenshot scored in exam mode, whose confidence
/// is capped.
pub proof fn lemma_identical_content_grouped(r: ScanResult, inp: ScanInputs, i: int, j: int, content: Seq<u8>)
    requires
        scan_result_ok(r, inp),
        inp.digests.len() == inp.cands.len(),
        0 <= i < inp.cands.len(),
        0 <= j < inp.cands.len(),
        i != j,
        inp.cands[i].size_bytes == content.len(),
        inp.cands[j].size_bytes == content.len(),
        content.len() > 0,
        inp.digests[i] == Some(blake3_hex(content)),
        inp.digests[j] == Some(blake3_hex(content)),
        !exam_image(inp.cands[i], inp.exam),
        !exam_image(inp.cands[j], inp.exam),
    ensures
        inp.effective()[i] == Some(blake3_hex(content)),
        inp.effective()[j] == Some(blake3_hex(content)),
        exists|a: int, b: int| #![trigger r.files@[a], r.files@[b]]
            0 <= a < r.files@.len() && 0 <= b < r.files@.len()
            && r.files@[a].candidate == i && r.files@[b].candidate == j
            && hash_view(r.files@[a].hash) == Some(blake3_hex(content))
            && hash_view(r.files@[b].hash) == Some(blake3_hex(content))
            && r.files@[a].category == FileCategory::Duplicate
            && r.files@[b].category == FileCategory::Duplicate
            && r.files@[a].confidence >= 99 * UNIT
            && r.files@[b].confidence >= 99 * UNIT,
{
    let sizes = inp.sizes();
    assert(sizes[j] == sizes[i]);
    assert(size_shared(sizes, i));
    assert(sizes[i] == inp.cands[i].size_bytes);
    assert(size_shared(sizes, j)) by {
        assert(sizes[i] == sizes[j]);
    }
    let eff = inp.effective();
    let d = blake3_hex(content);
    assert(eff[i] == Some(d));
    assert(eff[j] == Some(d));
    lemma_two_in_group(sizes, eff, sizes[i], d, eff.len() as int, i, j);
    assert(inp.copies(i) >= 2);
    assert(inp.copies(j) >= 2);
    assert(inp.kept(i));
    assert(inp.kept(j));
    let a = choose|a: int| 0 <= a < r.files@.len() && #[trigger] r.files@[a].candidate == i;
    let b = choose|b: int| 0 <= b < r.files@.len() && #[trigger] r.files@[b].candidate == j;
    assert(inp.matches(r.files@[a], i));
    assert(inp.matches(r.files@[b], j));
}

/// A candidate whose size no other candidate has is not hashed: whatever
/// digest is handed in for it is ignored, it belongs to no duplicate group,
/// and its suggestion, if any, carries no digest and is not a duplicate.
pub proof fn lemma_unique_size_never_grouped(r: ScanResult, inp: ScanInputs, i: int)
    requires
        scan_result_ok(r, inp),
        0 <= i < inp.cands.len(),
        !size_shared(inp.sizes(), i),
    ensures
        inp.effective()[i] is None,
        inp.copies(i) == 0,
        forall|k: int| 0 <= k < r.files@.len() && #[trigger] r.files@[k].candidate == i
            ==> r.files@[k].hash is None && r.files@[k].category != FileCategory::Duplicate,
{
    assert forall|k: int| 0 <= k < r.files@.len() && #[trigger] r.files@[k].candidate == i
        implies r.files@[k].hash is None && r.files@[k].category != FileCategory::Duplicate by {
        assert(inp.matches(r.files@[k], i));
    }
}

/// Every confidence lies between 0.1 and 1.0.
pub proof fn lemma_confidence_bounds(
    copies: int,
    lname: Seq<char>,
    days_old: int,
    size: int,
    days_threshold: int,
    large_mb: int,
    category: FileCategory,
    exam_image: bool,
)
    ensures
        10 * UNIT <= confidence_of(copies, lname, days_old, size, days_threshold, large_mb, category, exam_image) <= SCALE,
{
}

/// Every suggestion of a scan has a confidence between 0.1 and 1.0.
pub proof fn lemma_scan_confidence_bounds(r: ScanResult, inp: ScanInputs)
    requires
        scan_result_ok(r, inp),
    ensures
        forall|k: int| 0 <= k < r.files@.len() ==> 10 * UNIT <= #[trigger] r.files@[k].confidence <= SCALE,
{
    assert forall|k: int| 0 <= k < r.files@.len() implies 10 * UNIT <= #[trigger] r.files@[k].confidence <= SCALE by {
        let i = r.files@[k].candidate as int;
        assert(inp.matches(r.files@[k], i));
    }
}

/// The suggestions of a scan never rise in confidence, and suggestions of
/// equal confidence keep the order in which their candidates were found.
pub proof fn lemma_ranked_non_increasing(r: ScanResult, inp: ScanInputs)
    requires
        scan_result_ok(r, inp),
    ensures
        forall|a: int, b: int| 0 <= a < b < r.files@.len() ==> r.files@[a].confidence >= r.files@[b].confidence,
        forall|a: int, b: int| 0 <= a < b < r.files@.len() && r.files@[a].confidence == r.files@[b].confidence
            ==> r.files@[a].candidate < r.files@[b].candidate,
{
    assert forall|a: int, b: int| 0 <= a < b < r.files@.len() implies r.files@[a].confidence >= r.files@[b].confidence by {
        assert(ranks_before(r.files@[a], r.files@[b]));
    }
    assert forall|a: int, b: int| 0 <= a < b < r.files@.len() && r.files@[a].confidence == r.files@[b].confidence
        implies r.files@[a].candidate < r.files@[b].candidate by {
        assert(ranks_before(r.files@[a], r.files@[b]));
    }
}

/// No candidate comes from deeper than three levels below the root, nor from
/// a symbolic link: a file whose only entries lie deeper is never found.
pub proof fn lemma_walk_bounded(scanner: Scanner, entries: Seq<WalkEntry>, picked: Seq<usize>)
    requires
        forall|k: int| 0 <= k < picked.len() ==> picked[k] < entries.len()
            && scanner.eligible(entries[picked[k] as int]),
    ensures
        forall|k: int| 0 <= k < picked.len() ==> entries[#[trigger] picked[k] as int].depth <= MAX_DEPTH
            && entries[picked[k] as int].kind == EntryKind::File,
{
    assert forall|k: int| 0 <= k < picked.len() implies entries[#[trigger] picked[k] as int].depth <= MAX_DEPTH
        && entries[picked[k] as int].kind == EntryKind::File by {
        assert(scanner.eligible(entries[picked[k] as int]));
    }
}

/// A scan in which every candidate is suggested (as in exam mode, or where
/// all score at least 0.4) returns exactly one suggestion per candidate.
pub proof fn lemma_all_kept_all_returned(r: ScanResult, inp: ScanInputs)
    requires
        scan_result_ok(r, inp),
        forall|i: int| 0 <= i < inp.cands.len() ==> #[trigger] inp.kept(i),
    ensures
        r.files@.len() == inp.cands.len(),
{
    let n = inp.cands.len() as int;
    let files = r.files@;
    let cs = files.map_values(|f: FileInfo| f.candidate as int);
    assert forall|a: int, b: int| 0 <= a < cs.len() && 0 <= b < cs.len() && a != b implies cs[a] != cs[b] by {
        let (x, y) = if a < b { (a, b) } else { (b, a) };
        assert(ranks_before(files[x], files[y]));
        let i = files[x].candidate as int;
        assert(inp.matches(files[x], i));
        let j = files[y].candidate as int;
        assert(inp.matches(files[y], j));
    }
    assert(cs.no_duplicates());
    assert forall|i: int| #[trigger] cs.to_set().contains(i) <==> set_int_range(0, n).contains(i) by {
        if 0 <= i < n {
            assert(inp.kept(i));
            let k = choose|k: int| 0 <= k < files.len() && #[trigger] files[k].candidate == i;
            assert(cs[k] == i);
        }
        if cs.to_set().contains(i) {
            let k = choose|k: int| 0 <= k < cs.len() && cs[k] == i;
            assert(0 <= files[k].candidate < n);
        }
    }
    assert(cs.to_set() =~= set_int_range(0, n));
    cs.unique_seq_to_set();
    lemma_int_range(0, n);
}

/// Two files with the same non-empty content, scanned alone in normal mode,
/// are both suggested, as duplicates of confidence exactly 0.99 with one
/// digest, and the scan counts two duplicates.
pub proof fn lemma_two_identical_files(r: ScanResult, inp: ScanInputs, content: Seq<u8>)
    requires
        scan_result_ok(r, inp),
        inp.cands.len() == 2,
        inp.digests.len() == 2,
        !inp.exam,
        content.len() > 0,
        inp.cands[0].size_bytes == content.len(),
        inp.cands[1].size_bytes == content.len(),
        inp.digests[0] == Some(blake3_hex(content)),
        inp.digests[1] == Some(blake3_hex(content)),
    ensures
        r.files@.len() == 2,
        forall|k: int| 0 <= k < 2 ==> {
            &&& (#[trigger] r.files@[k]).category == FileCategory::Duplicate
            &&& r.files@[k].confidence == 99 * UNIT
            &&& hash_view(r.files@[k].hash) == Some(blake3_hex(content))
        },
        r.duplicates_found == 2,
{
    lemma_identical_content_grouped(r, inp, 0, 1, content);
    let eff = inp.effective();
    lemma_two_in_group(inp.sizes(), eff, inp.sizes()[0], blake3_hex(content), 2, 0, 1);
    assert(inp.copies(0) >= 2 && inp.copies(1) >= 2);
    assert(inp.kept(0) && inp.kept(1));
    assert(inp.category(0) == FileCategory::Duplicate);
    assert(inp.category(1) == FileCategory::Duplicate);
    lemma_all_kept_all_returned(r, inp);
    assert forall|k: int| 0 <= k < 2 implies {
        &&& (#[trigger] r.files@[k]).category == FileCategory::Duplicate
        &&& r.files@[k].confidence == 99 * UNIT
        &&& hash_view(r.files@[k].hash) == Some(blake3_hex(content))
    } by {
        let i = r.files@[k].candidate as int;
        assert(inp.matches(r.files@[k], i));
        assert(inp.copies(i) >= 2);
    }
    assert(inp.count_kept_in(0, FileCategory::Duplicate) == 0);
    assert(inp.count_kept_in(1, FileCategory::Duplicate) == 1);
    assert(inp.count_kept_in(2, FileCategory::Duplicate) == 2);
}

/// A file whose lower-cased name holds `lecture` is suggested as a lecture
/// with confidence at least 0.65 and a study-related reason (unless it is a
/// screenshot scored in exam mode); where no other file has its size it
/// carries no digest.
pub proof fn lemma_lecture_file(r: ScanResult, inp: ScanInputs, i: int)
    requires
        scan_result_ok(r, inp),
        0 <= i < inp.cands.len(),
        has_infix(lname_of(inp.cands[i].path@), "lecture"@),
        !size_shared(inp.sizes(), i),
        !exam_image(inp.cands[i], inp.exam),
    ensures
        exists|k: int| #![trigger r.files@[k]] 0 <= k < r.files@.len() && {
            let f = r.files@[k];
            &&& f.candidate == i
            &&& f.category == FileCategory::Lecture
            &&& f.confidence >= 65 * UNIT
            &&& f.hash is None
            &&& f.reason@ == reason_text(reasons_of(
                0,
                lname_of(inp.cands[i].path@),
                days_between(inp.now, inp.cands[i].modified as int),
                inp.cands[i].size_bytes as int,
                inp.days_threshold,
                inp.large_mb,
                false,
            ))
            &&& reasons_of(
                0,
                lname_of(inp.cands[i].path@),
                days_between(inp.now, inp.cands[i].modified as int),
                inp.cands[i].size_bytes as int,
                inp.days_threshold,
                inp.large_mb,
                false,
            ).contains(Reason::StudyRelated)
        },
{
    let lname = lname_of(inp.cands[i].path@);
    assert(lecture_words()[0] == "lecture"@);
    assert(has_any_infix(lname, lecture_words()));
    assert(study_words()[0] == "lecture"@);
    assert(has_any_infix(lname, study_words()));
    assert(inp.effective()[i] is None);
    assert(inp.copies(i) == 0);
    assert(inp.category(i) == FileCategory::Lecture);
    assert(inp.kept(i));
    let k = choose|k: int| 0 <= k < r.files@.len() && #[trigger] r.files@[k].candidate == i;
    assert(inp.matches(r.files@[k], i));
    let rs = reasons_of(
        0,
        lname,
        days_between(inp.now, inp.cands[i].modified as int),
        inp.cands[i].size_bytes as int,
        inp.days_threshold,
        inp.large_mb,
        false,
    );
    assert(rs[rs.len() - 1] == Reason::StudyRelated);
}

/// Every suggestion in the `Duplicate` category has another candidate of the
/// same size whose digest is the same.
pub proof fn lemma_duplicates_share_size_and_digest(r: ScanResult, inp: ScanInputs, k: int)
    requires
        scan_result_ok(r, inp),
        0 <= k < r.files@.len(),
        r.files@[k].category == FileCategory::Duplicate,
    ensures
        exists|j: int| #![trigger inp.cands[j]] 0 <= j < inp.cands.len() && j != r.files@[k].candidate
            && inp.cands[j].size_bytes == inp.cands[r.files@[k].candidate as int].size_bytes
            && inp.effective()[j] == inp.effective()[r.files@[k].candidate as int]
            && inp.effective()[j] is Some,
{
    let i = r.files@[k].candidate as int;
    assert(inp.matches(r.files@[k], i));
    assert(inp.copies(i) > 1);
    lemma_duplicate_has_partner(inp.sizes(), inp.effective(), i);
    let j = choose|j: int| 0 <= j < inp.effective().len() && j != i && inp.sizes()[j] == inp.sizes()[i]
        && inp.effective()[j] == inp.effective()[i];
    assert(inp.sizes()[j] == inp.cands[j].size_bytes);
    assert(inp.sizes()[i] == inp.cands[i].size_bytes);
}

} // verus!
