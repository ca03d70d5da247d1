use cleancrush::classify::{categorize_file, detect_course_by_pattern, scan_course_table, FileCategory};
use cleancrush::duplicates::{detect_duplicates, group_sizes, ContentHasher};
use cleancrush::protection::{CleanupAction, Config, ProtectedFolder, ProtectionType};
use cleancrush::scanner::{Candidate, EntryKind, ScanResult, Scanner, WalkEntry, MAX_FILES_TO_SCAN};
use cleancrush::scoring::{calculate_confidence, AGE_STEP, SCALE, UNIT};

const NOW: i64 = 1_700_000_000;
const DAY: i64 = 86_400;
const MIB: u64 = 1_048_576;

fn config() -> Config {
    Config { default_action: CleanupAction::RecycleBin, protected_folders: Vec::new() }
}

fn digest_of(bytes: &[u8]) -> String {
    let mut h = ContentHasher::new();
    h.update(bytes);
    h.finish()
}

fn cand(path: &str, size: u64, days_old: i64) -> Candidate {
    Candidate { path: path.to_string(), size_bytes: size, modified: NOW - days_old * DAY, created: NOW - days_old * DAY }
}

fn chars(s: &str) -> Vec<char> {
    s.chars().collect()
}

fn run(scanner: &Scanner, cands: &Vec<Candidate>, digests: Vec<Option<String>>) -> ScanResult {
    let locked = vec![false; cands.len()];
    scanner.scan(cands, &digests, &locked, NOW, 60, 100)
}

#[test]
fn identical_notes_are_duplicates() {
    let scanner = Scanner::new(config(), false);
    let cands = vec![cand("/home/u/notes.pdf", 5, 3), cand("/home/u/notes_copy.pdf", 5, 3)];
    let d = digest_of(b"hello");
    let r = run(&scanner, &cands, vec![Some(d.clone()), Some(d.clone())]);
    assert_eq!(r.files.len(), 2);
    for f in &r.files {
        assert_eq!(f.category, FileCategory::Duplicate);
        assert_eq!(f.confidence, 99 * UNIT);
        assert_eq!(f.hash, Some(d.clone()));
    }
    assert_eq!(r.files[0].path, "/home/u/notes.pdf");
    assert_eq!(r.files[0].reason, "Exact duplicate (2 copies) + Study-related file");
    assert_eq!(
        r.files[1].reason,
        "Exact duplicate (2 copies) + Filename suggests duplicate + Study-related file"
    );
    assert_eq!(r.duplicates_found, 2);
    assert_eq!(r.total_size_bytes, 10);
}

#[test]
fn same_content_under_any_names_is_grouped() {
    let scanner = Scanner::new(config(), false);
    let cands = vec![
        cand("/d/a.txt", 7, 1),
        cand("/d/zzz.md", 7, 1),
        cand("/d/other.txt", 7, 1),
    ];
    let same = digest_of(b"content");
    let other = digest_of(b"CONTENT");
    let r = run(&scanner, &cands, vec![Some(same.clone()), Some(same.clone()), Some(other)]);
    let dups: Vec<_> = r.files.iter().filter(|f| f.category == FileCategory::Duplicate).collect();
    assert_eq!(dups.len(), 2);
    assert!(dups.iter().all(|f| f.hash == Some(same.clone()) && f.confidence >= 99 * UNIT));
    let lone = r.files.iter().find(|f| f.path == "/d/other.txt").unwrap();
    assert_eq!(lone.category, FileCategory::Other);
}

#[test]
fn unique_size_is_never_hashed() {
    let plan = detect_duplicates(&vec![10, 20, 10, 0, 0, 30]);
    assert_eq!(plan, vec![true, false, true, false, false, false]);
    let scanner = Scanner::new(config(), false);
    let cands = vec![cand("/d/a.txt", 10, 1), cand("/d/b.txt", 20, 1)];
    let d = digest_of(b"x");
    // A digest handed in for a file of unique size is ignored.
    let r = run(&scanner, &cands, vec![Some(d.clone()), Some(d)]);
    assert!(r.files.iter().all(|f| f.hash.is_none() && f.category != FileCategory::Duplicate));
}

#[test]
fn empty_files_are_not_hashed() {
    assert_eq!(detect_duplicates(&vec![0, 0]), vec![false, false]);
}

#[test]
fn group_sizes_count_shared_digests() {
    let a = Some("a".to_string());
    let b = Some("b".to_string());
    assert_eq!(group_sizes(&vec![5, 5, 5, 5], &vec![a.clone(), b, None, a]), vec![2, 1, 0, 2]);
}

#[test]
fn groups_need_equal_size_and_digest() {
    let a = Some("a".to_string());
    assert_eq!(group_sizes(&vec![5, 6, 5], &vec![a.clone(), a.clone(), a]), vec![2, 1, 2]);
}

#[test]
fn lecture_scenario() {
    let scanner = Scanner::new(config(), false);
    let cands = vec![cand("/home/u/lecture_03.pdf", 2 * MIB, 10)];
    let r = run(&scanner, &cands, vec![None]);
    assert_eq!(r.files.len(), 1);
    let f = &r.files[0];
    assert_eq!(f.category, FileCategory::Lecture);
    assert!(f.confidence >= 65 * UNIT);
    assert_eq!(f.confidence, 75 * UNIT);
    assert!(f.reason.contains("Study-related"));
    assert_eq!(f.days_old, 10);
    assert_eq!(f.file_type, "pdf");
    assert_eq!(f.course, "general");
}

#[test]
fn confidences_stay_in_bounds() {
    let scanner = Scanner::new(config(), true);
    let cands = vec![
        cand("/d/shot.png", 1, 1),
        cand("/d/huge_old_backup.pdf", 900 * MIB, 400),
        cand("/d/plain.txt", 1, 1),
    ];
    let r = run(&scanner, &cands, vec![None, None, None]);
    assert_eq!(r.files.len(), 3);
    for f in &r.files {
        assert!(f.confidence >= 10 * UNIT && f.confidence <= SCALE);
    }
}

#[test]
fn ranking_is_non_increasing_and_stable() {
    let scanner = Scanner::new(config(), false);
    let cands = vec![
        cand("/d/a.txt", 1, 1),
        cand("/d/old.txt", 1, 200),
        cand("/d/b.txt", 1, 1),
        cand("/d/lecture.txt", 1, 1),
        cand("/d/c.txt", 1, 1),
    ];
    let r = run(&scanner, &cands, vec![None; 5]);
    let order: Vec<usize> = r.files.iter().map(|f| f.candidate).collect();
    assert_eq!(order, vec![1, 3, 0, 2, 4]);
    for w in r.files.windows(2) {
        assert!(w[0].confidence >= w[1].confidence);
    }
    assert_eq!(r.total_suggestions(), 5);
}

#[test]
fn files_by_category_keeps_rank_order() {
    let scanner = Scanner::new(config(), false);
    let cands = vec![cand("/d/a.txt", 1, 1), cand("/d/old.txt", 1, 200), cand("/d/b.txt", 1, 1)];
    let r = run(&scanner, &cands, vec![None; 3]);
    let others = r.files_by_category(FileCategory::Other);
    assert_eq!(others.len(), 2);
    assert_eq!(others[0].path, "/d/a.txt");
    assert_eq!(others[1].path, "/d/b.txt");
    assert_eq!(r.old_files_found, 1);
}

#[test]
fn low_confidence_dropped_outside_exam_mode() {
    let cands = vec![cand("/d/shot.png", 1, 1)];
    let normal = run(&Scanner::new(config(), false), &cands, vec![None]);
    assert_eq!(normal.files.len(), 1);
    let exam = run(&Scanner::new(config(), true), &cands, vec![None]);
    assert_eq!(exam.files[0].confidence, 40 * UNIT);
    assert!(exam.files[0].reason.ends_with("Screenshot (lower confidence)"));
}

#[test]
fn exam_screenshot_duplicates_are_capped() {
    let scanner = Scanner::new(config(), true);
    let cands = vec![cand("/d/s1.PNG", 3, 1), cand("/d/s2.png", 3, 1)];
    let d = digest_of(b"img");
    let r = run(&scanner, &cands, vec![Some(d.clone()), Some(d)]);
    assert!(r.files.iter().all(|f| f.category == FileCategory::Duplicate && f.confidence == 40 * UNIT));
}

#[test]
fn empty_scan() {
    let r = run(&Scanner::new(config(), false), &Vec::new(), Vec::new());
    assert_eq!(r.files.len(), 0);
    assert_eq!(r.total_files_scanned, 0);
    let e = ScanResult::empty();
    assert_eq!(e.total_suggestions(), 0);
}

#[test]
fn cloud_files_are_counted_before_filtering() {
    let scanner = Scanner::new(config(), false);
    let cands = vec![cand("/home/u/Dropbox/a.txt", 1, 1), cand("/home/u/b.txt", 1, 1)];
    let r = run(&scanner, &cands, vec![None, None]);
    assert_eq!(r.cloud_files_found, 1);
    assert!(r.files[0].is_in_cloud);
}

#[test]
fn age_ramp_is_exact() {
    let (c, reason) = calculate_confidence(&chars("x.txt"), 65, 1, 60, 100, 0, FileCategory::Other, false);
    assert_eq!(c, 70 * UNIT + 5 * AGE_STEP);
    assert_eq!(reason, "Old (65 days)");
    let (c, _) = calculate_confidence(&chars("x.txt"), 80, 1, 60, 100, 0, FileCategory::Other, false);
    assert_eq!(c, 95 * UNIT);
    let (c, reason) = calculate_confidence(&chars("x.txt"), 120, 1, 60, 100, 0, FileCategory::Old, false);
    assert_eq!(c, 95 * UNIT);
    assert_eq!(reason, "Very old (120 days)");
}

#[test]
fn size_ramp_is_exact() {
    let (c, reason) = calculate_confidence(&chars("x.txt"), 1, 150 * MIB, 60, 100, 0, FileCategory::Large, false);
    assert_eq!(c, 85 * UNIT);
    assert_eq!(reason, "Large file (150.0 MB)");
    let (c, _) = calculate_confidence(&chars("x.txt"), 1, 5000 * MIB, 60, 100, 0, FileCategory::Large, false);
    assert_eq!(c, 95 * UNIT);
}

#[test]
fn general_reason_and_floor() {
    let (c, reason) = calculate_confidence(&chars("x.txt"), 1, 1, 60, 100, 0, FileCategory::Duplicate, false);
    assert_eq!(c, 10 * UNIT);
    assert_eq!(reason, "General study file");
}

#[test]
fn category_precedence() {
    assert_eq!(categorize_file(&chars("slides_old.pdf"), 400, 1, 100), FileCategory::Lecture);
    assert_eq!(categorize_file(&chars("hw3.pdf"), 400, 1, 100), FileCategory::Assignment);
    assert_eq!(categorize_file(&chars("textbook.pdf"), 1, 1, 100), FileCategory::Reference);
    assert_eq!(categorize_file(&chars("x.pdf"), 61, 200 * MIB, 100), FileCategory::Old);
    assert_eq!(categorize_file(&chars("x.pdf"), 60, 200 * MIB, 100), FileCategory::Large);
    assert_eq!(categorize_file(&chars("x.pdf"), 60, 100 * MIB, 100), FileCategory::Other);
}

#[test]
fn names_are_lowercased_before_matching() {
    let scanner = Scanner::new(config(), false);
    let cands = vec![cand("/d/LECTURE_Calculus.PDF", 1, 1)];
    let r = run(&scanner, &cands, vec![None]);
    assert_eq!(r.files[0].category, FileCategory::Lecture);
    assert_eq!(r.files[0].course, "math");
    assert_eq!(r.files[0].file_type, "pdf");
}

fn entry(path: &str, depth: usize, kind: EntryKind) -> WalkEntry {
    WalkEntry { path: path.to_string(), depth, kind }
}

#[test]
fn walk_stays_within_three_levels() {
    let scanner = Scanner::new(config(), false);
    let entries = vec![
        entry("/r", 0, EntryKind::Dir),
        entry("/r/a/b/c.pdf", 3, EntryKind::File),
        entry("/r/a/b/c/d.pdf", 4, EntryKind::File),
        entry("/r/link.pdf", 1, EntryKind::Symlink),
        entry("/r/notes.exe", 1, EntryKind::File),
        entry("/r/Notes.PDF", 1, EntryKind::File),
    ];
    let (picked, truncated) = scanner.collect_candidates(&entries);
    assert_eq!(picked, vec![1, 5]);
    assert!(!truncated);
}

#[test]
fn deep_files_only_are_never_found() {
    let scanner = Scanner::new(config(), false);
    let entries = vec![entry("/r/a/b/c/x.pdf", 4, EntryKind::File), entry("/r/a/b/c/y.txt", 5, EntryKind::File)];
    let (picked, _) = scanner.collect_candidates(&entries);
    assert!(picked.is_empty());
}

#[test]
fn walk_skips_system_and_hard_protected() {
    let cfg = Config {
        default_action: CleanupAction::RecycleBin,
        protected_folders: vec![
            ProtectedFolder { path: "/home/u".to_string(), protection_type: ProtectionType::Soft },
            ProtectedFolder { path: "/home/u/secret".to_string(), protection_type: ProtectionType::Hard },
        ],
    };
    let scanner = Scanner::new(cfg, false);
    let entries = vec![
        entry("/usr/share/doc.pdf", 1, EntryKind::File),
        entry("/home/u/secret/a.pdf", 1, EntryKind::File),
        entry("/home/u/secretive/a.pdf", 1, EntryKind::File),
        entry("/home/u/a.pdf", 1, EntryKind::File),
    ];
    let (picked, _) = scanner.collect_candidates(&entries);
    assert_eq!(picked, vec![2, 3]);
    assert!(!scanner.path_allowed("/home/u/secret"));
    assert!(scanner.path_allowed("/home/u"));
}

#[test]
fn exam_mode_admits_images() {
    let entries = vec![entry("/r/shot.jpeg", 1, EntryKind::File)];
    assert!(Scanner::new(config(), false).collect_candidates(&entries).0.is_empty());
    assert_eq!(Scanner::new(config(), true).collect_candidates(&entries).0, vec![0]);
}

#[test]
fn candidate_ceiling_truncates() {
    let scanner = Scanner::new(config(), false);
    let mut entries = Vec::new();
    for i in 0..(MAX_FILES_TO_SCAN + 2) {
        entries.push(entry(&format!("/r/f{}.txt", i), 1, EntryKind::File));
    }
    let (picked, truncated) = scanner.collect_candidates(&entries);
    assert_eq!(picked.len(), MAX_FILES_TO_SCAN);
    assert!(truncated);
    let exact: Vec<WalkEntry> = entries.into_iter().take(MAX_FILES_TO_SCAN).collect();
    let (picked, truncated) = scanner.collect_candidates(&exact);
    assert_eq!(picked.len(), MAX_FILES_TO_SCAN);
    assert!(!truncated);
}

#[test]
fn content_digest_is_blake3() {
    let mut h = ContentHasher::new();
    h.update(b"ab");
    h.update(b"c");
    assert_eq!(h.finish(), blake3::hash(b"abc").to_hex().to_string());
    assert_ne!(h.finish(), "abc");
    assert_eq!(h.finish().len(), 64);
}

#[test]
fn course_expressions_pick_the_first_match() {
    let t = scan_course_table();
    assert_eq!(detect_course_by_pattern("intro to quantum.pdf", t), "physics");
    assert_eq!(detect_course_by_pattern("world history essay.docx", t), "history");
    assert_eq!(detect_course_by_pattern("data structures hw.md", t), "cs");
    assert_eq!(detect_course_by_pattern("calculus_and_physics.pdf", t), "math");
    assert_eq!(detect_course_by_pattern("diary.txt", t), "general");
}

#[test]
fn invalid_course_expression_matches_nothing() {
    let t: &[(&str, &str)] = &[("broken", "(math"), ("math", "math")];
    assert_eq!(detect_course_by_pattern("math.pdf", t), "math");
}
