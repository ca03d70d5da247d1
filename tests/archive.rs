use cleancrush::archive::{
    join, ArchiveInfo, ArchiveSystem, CleanMode, CleanupBatch, CleanupResult, CourseFolder, FileOutcome,
    FileStatus, Prompt, Reply, SkipCause, Step, MAX_NAME_ATTEMPTS,
};
use cleancrush::protection::{CleanupAction, Config, ProtectedFolder, ProtectionType};

fn system(action: CleanupAction, folders: Vec<ProtectedFolder>) -> ArchiveSystem {
    ArchiveSystem::new(Config { default_action: action, protected_folders: folders }, "/home/u")
}

fn status(path: &str, exists: bool, size: u64, locked: bool) -> FileStatus {
    FileStatus { path: path.to_string(), exists, size_bytes: size, is_locked: locked }
}

fn folder(course: &str) -> CourseFolder {
    CourseFolder { course: course.to_string(), names: Vec::new() }
}

#[test]
fn same_name_twice_gets_numbered() {
    let mut f = folder("general");
    assert_eq!(f.claim("report.docx"), Some("report.docx".to_string()));
    assert_eq!(f.claim("report.docx"), Some("report_1.docx".to_string()));
    assert_eq!(f.names, vec!["report.docx".to_string(), "report_1.docx".to_string()]);
}

#[test]
fn hundred_and_first_claim_fails() {
    let mut f = folder("general");
    let mut got = Vec::new();
    for _ in 0..MAX_NAME_ATTEMPTS {
        got.push(f.claim("notes.pdf").expect("a free name"));
    }
    let mut unique = got.clone();
    unique.sort();
    unique.dedup();
    assert_eq!(unique.len(), 100);
    assert_eq!(got[99], "notes_99.pdf");
    assert_eq!(f.claim("notes.pdf"), None);
    assert_eq!(f.names.len(), 100);
}

#[test]
fn names_without_extension_and_existing_files() {
    let mut f = CourseFolder { course: "cs".to_string(), names: vec!["Makefile".to_string(), "Makefile_1".to_string()] };
    assert_eq!(f.claim("Makefile"), Some("Makefile_2".to_string()));
    let mut g = folder("cs");
    g.claim(".bashrc");
    assert_eq!(g.claim(".bashrc"), Some(".bashrc_1".to_string()));
    let mut h = folder("cs");
    h.claim("a.tar.gz");
    assert_eq!(h.claim("a.tar.gz"), Some("a.tar_1.gz".to_string()));
}

#[test]
fn archive_routes_by_course() {
    let a = system(CleanupAction::Archive, Vec::new());
    assert_eq!(a.archive_path, "/home/u/CleanCrush-Archive");
    assert_eq!(a.detect_course("/x/Calculus_hw.pdf"), "math");
    assert_eq!(a.detect_course("/x/Intro_Programming.pdf"), "cs");
    assert_eq!(a.detect_course("/x/lab3.pdf"), "science");
    assert_eq!(a.detect_course("/x/notes.pdf"), "general");
    let r = system(CleanupAction::RecycleBin, Vec::new());
    assert_eq!(r.archive_path, "/home/u/CleanCrush-Temp");
}

#[test]
fn manifest_counts_files() {
    let a = system(CleanupAction::Archive, Vec::new());
    let mut info = ArchiveInfo::new(100);
    info.record(a.archived_file_info("/x/a.PDF", "/arc/general/a.PDF", 10, 100, 50));
    info.record(a.archived_file_info("/x/README", "/arc/general/README", 5, 100, 50));
    assert_eq!(info.total_files, 2);
    assert_eq!(info.total_size_bytes, 15);
    assert_eq!(info.files[0].file_type, "PDF");
    assert_eq!(info.files[1].file_type, "unknown");
    assert_eq!(info.files[1].archived_path, "/arc/general/README");
}

#[test]
fn join_paths() {
    assert_eq!(join("/arc/2024-01-01", "cs"), "/arc/2024-01-01/cs");
}

#[test]
fn preview_counts_existing_only() {
    let a = system(CleanupAction::Archive, Vec::new());
    let r = a.preview_cleanup(&vec![status("/a", true, 10, false), status("/b", false, 99, false), status("/c", true, 5, true)]);
    assert_eq!(r.files_processed, 2);
    assert_eq!(r.total_size_bytes, 15);
    assert!(r.successful_files.is_empty());
}

#[test]
fn mode_selection() {
    let a = system(CleanupAction::Archive, Vec::new());
    assert_eq!(a.clean_mode(true, false), CleanMode::Preview);
    assert_eq!(a.clean_mode(false, true), CleanMode::Preview);
    assert_eq!(a.clean_mode(false, false), CleanMode::Archive);
    let r = system(CleanupAction::RecycleBin, Vec::new());
    assert_eq!(r.clean_mode(false, false), CleanMode::Recycle);
}

#[test]
fn missing_file_is_skipped() {
    let a = system(CleanupAction::RecycleBin, Vec::new());
    let g = a.start_gate(CleanMode::Recycle, &status("/x/a.pdf", false, 1, false));
    assert_eq!(g.waiting, Step::Skip(SkipCause::NotFound));
}

#[test]
fn cloud_file_asks_then_skips_or_proceeds() {
    let a = system(CleanupAction::RecycleBin, Vec::new());
    let f = status("/home/u/OneDrive/a.pdf", true, 1, false);
    let mut g = a.start_gate(CleanMode::Recycle, &f);
    assert_eq!(g.waiting, Step::Ask(Prompt::CloudDeletion));
    assert_eq!(g.on_reply(Reply::Skip), Step::Skip(SkipCause::Cloud));
    let mut g = a.start_gate(CleanMode::Recycle, &f);
    assert_eq!(g.on_reply(Reply::Proceed), Step::Go);
    let mut g = a.start_gate(CleanMode::Recycle, &f);
    assert_eq!(g.on_reply(Reply::Cancel), Step::CancelAll);
    // Archiving does not ask about cloud folders.
    assert_eq!(a.start_gate(CleanMode::Archive, &f).waiting, Step::Go);
}

#[test]
fn locked_file_retry() {
    let a = system(CleanupAction::Archive, Vec::new());
    let f = status("/x/a.pdf", true, 1, true);
    let mut g = a.start_gate(CleanMode::Archive, &f);
    assert_eq!(g.waiting, Step::Ask(Prompt::LockedFile));
    assert_eq!(g.on_reply(Reply::Retry), Step::WaitThenRecheck);
    assert_eq!(g.on_recheck(false), Step::Go);
    let mut g = a.start_gate(CleanMode::Archive, &f);
    g.on_reply(Reply::Retry);
    assert_eq!(g.on_recheck(true), Step::Skip(SkipCause::Locked));
    let mut g = a.start_gate(CleanMode::Archive, &f);
    assert_eq!(g.on_reply(Reply::Skip), Step::Skip(SkipCause::Locked));
}

#[test]
fn protection_gates_recycling() {
    let folders = vec![
        ProtectedFolder { path: "/home/u/docs".to_string(), protection_type: ProtectionType::Soft },
        ProtectedFolder { path: "/home/u/docs/keep".to_string(), protection_type: ProtectionType::Hard },
    ];
    let a = system(CleanupAction::RecycleBin, folders);
    let hard = a.start_gate(CleanMode::Recycle, &status("/home/u/docs/keep/a.pdf", true, 1, false));
    assert_eq!(hard.waiting, Step::Skip(SkipCause::Protected));
    let mut soft = a.start_gate(CleanMode::Recycle, &status("/home/u/docs/a.pdf", true, 1, false));
    assert_eq!(soft.waiting, Step::Ask(Prompt::ProtectedDeletion));
    assert_eq!(soft.on_reply(Reply::Proceed), Step::Go);
    let mut soft = a.start_gate(CleanMode::Recycle, &status("/home/u/docs/a.pdf", true, 1, false));
    assert_eq!(soft.on_reply(Reply::Skip), Step::Skip(SkipCause::Protected));
    let free = a.start_gate(CleanMode::Recycle, &status("/home/u/a.pdf", true, 1, false));
    assert_eq!(free.waiting, Step::Go);
}

#[test]
fn cleanup_result_accumulates() {
    let mut r = CleanupResult::empty();
    r.record_success("/a".to_string(), 10);
    r.record_failure("/b".to_string(), "denied".to_string());
    r.record_success("/c".to_string(), u64::MAX);
    assert_eq!(r.files_processed, 2);
    assert_eq!(r.total_size_bytes, u64::MAX);
    assert_eq!(r.failed_files, vec![("/b".to_string(), "denied".to_string())]);
}

#[test]
fn hard_protected_is_skipped_before_any_question() {
    let folders = vec![ProtectedFolder { path: "/home/u/OneDrive/keep".to_string(), protection_type: ProtectionType::Hard }];
    let a = system(CleanupAction::RecycleBin, folders);
    let cloud_and_locked = status("/home/u/OneDrive/keep/a.pdf", true, 1, true);
    assert_eq!(a.start_gate(CleanMode::Recycle, &cloud_and_locked).waiting, Step::Skip(SkipCause::Protected));
    assert_eq!(a.start_gate(CleanMode::Archive, &cloud_and_locked).waiting, Step::Skip(SkipCause::Protected));
    let missing = status("/home/u/OneDrive/keep/b.pdf", false, 1, false);
    assert_eq!(a.start_gate(CleanMode::Recycle, &missing).waiting, Step::Skip(SkipCause::NotFound));
}

#[test]
fn soft_protected_locked_file_asks_lock_then_protection() {
    let folders = vec![ProtectedFolder { path: "/d".to_string(), protection_type: ProtectionType::Soft }];
    let a = system(CleanupAction::RecycleBin, folders);
    let mut g = a.start_gate(CleanMode::Recycle, &status("/d/a.pdf", true, 1, true));
    assert_eq!(g.waiting, Step::Ask(Prompt::LockedFile));
    assert_eq!(g.on_reply(Reply::Retry), Step::WaitThenRecheck);
    assert_eq!(g.on_recheck(false), Step::Ask(Prompt::ProtectedDeletion));
    assert_eq!(g.on_reply(Reply::Cancel), Step::CancelAll);
}

#[test]
fn batch_goes_on_after_failure_and_stops_on_cancel() {
    let a = system(CleanupAction::Archive, Vec::new());
    let mut b = CleanupBatch::new(7);
    assert!(!b.writes_manifest());
    assert!(b.apply(FileOutcome::Failed("/x".to_string(), "denied".to_string())));
    assert!(b.apply(FileOutcome::Skipped));
    assert!(b.apply(FileOutcome::Archived(a.archived_file_info("/y/a.pdf", "/arc/a.pdf", 4, 7, 1))));
    assert!(b.apply(FileOutcome::Recycled("/z".to_string(), 6)));
    assert!(!b.apply(FileOutcome::Cancelled));
    assert!(b.cancelled);
    assert!(b.writes_manifest());
    assert_eq!(b.result.files_processed, 2);
    assert_eq!(b.result.total_size_bytes, 10);
    assert_eq!(b.result.successful_files, vec!["/y/a.pdf".to_string(), "/z".to_string()]);
    assert_eq!(b.result.failed_files.len(), 1);
    assert_eq!(b.manifest.total_files, 1);
    assert_eq!(b.manifest.total_size_bytes, 4);
}

#[test]
fn claim_each_gives_distinct_names() {
    let mut f = CourseFolder { course: "general".to_string(), names: vec!["report.docx".to_string()] };
    let names = vec!["report.docx".to_string(), "report.docx".to_string(), "notes".to_string()];
    let got = f.claim_each(&names);
    assert_eq!(
        got,
        vec![Some("report_1.docx".to_string()), Some("report_2.docx".to_string()), Some("notes".to_string())]
    );
    let many: Vec<String> = (0..101).map(|_| "x.pdf".to_string()).collect();
    let mut g = CourseFolder { course: "general".to_string(), names: Vec::new() };
    let got = g.claim_each(&many);
    assert_eq!(got.iter().filter(|o| o.is_some()).count(), 100);
    assert_eq!(got[100], None);
}
