//! Keyword rule tables and the classifications built on them: the category
//! of a file, its course tag, and whether its path lies in a cloud-synced or
//! a system folder. Every rule reads a lower-cased name or path.

use vstd::prelude::*;
use crate::text::{contains_any, has_any_infix};

verus! {

/// Files older than this many days fall in the `Old` category.
pub const OLD_DAYS: i64 = 60;

/// Bytes in a mebibyte.
pub const MIB: u64 = 1_048_576;

/// Course tag of a file that matches no course rule.
pub open spec fn general_course() -> Seq<char> {
    "general"@
}

/// What a file is, for the purpose of suggesting its removal.
#[derive(Clone, Copy, Debug, PartialEq, Eq, Structural)]
pub enum FileCategory {
    Lecture,
    Assignment,
    Reference,
    Other,
    Duplicate,
    Old,
    Large,
}

/// The words of a keyword table.
pub open spec fn words_view(words: &[&str]) -> Seq<Seq<char>> {
    words@.map_values(|w: &str| w@)
}

/// A course rule: the tag and the words that select it.
pub type CourseRule = (&'static str, &'static [&'static str]);

/// The view of a course table.
pub open spec fn courses_view(table: &[CourseRule]) -> Seq<(Seq<char>, Seq<Seq<char>>)> {
    table@.map_values(|e: CourseRule| (e.0@, e.1@.map_values(|w: &str| w@)))
}

pub open spec fn lecture_words() -> Seq<Seq<char>> {
    seq!["lecture"@, "slide"@, "presentation"@]
}

pub open spec fn assignment_words() -> Seq<Seq<char>> {
    seq!["assignment"@, "homework"@, "hw"@]
}

pub open spec fn reference_words() -> Seq<Seq<char>> {
    seq!["textbook"@, "book"@, "reference"@]
}

pub fn lecture_table() -> (r: &'static [&'static str])
    ensures
        words_view(r) == lecture_words(),
{
    let r: &'static [&'static str] = &["lecture", "slide", "presentation"];
    assert(words_view(r) =~= lecture_words());
    r
}

pub fn assignment_table() -> (r: &'static [&'static str])
    ensures
        words_view(r) == assignment_words(),
{
    let r: &'static [&'static str] = &["assignment", "homework", "hw"];
    assert(words_view(r) =~= assignment_words());
    r
}

pub fn reference_table() -> (r: &'static [&'static str])
    ensures
        words_view(r) == reference_words(),
{
    let r: &'static [&'static str] = &["textbook", "book", "reference"];
    assert(words_view(r) =~= reference_words());
    r
}

/// The category of a file, by fixed precedence: a keyword of its lower-cased
/// name, then its age, then its size, else `Other`.
pub open spec fn category_of(lname: Seq<char>, days_old: int, size: int, large_mb: int) -> FileCategory {
    if has_any_infix(lname, lecture_words()) {
        FileCategory::Lecture
    } else if has_any_infix(lname, assignment_words()) {
        FileCategory::Assignment
    } else if has_any_infix(lname, reference_words()) {
        FileCategory::Reference
    } else if days_old > OLD_DAYS {
        FileCategory::Old
    } else if size > large_mb * MIB {
        FileCategory::Large
    } else {
        FileCategory::Other
    }
}

/// Categorizes a file from its lower-cased name, its age in days, its size in
/// bytes and the large-file threshold in mebibytes.
pub fn categorize_file(lname: &Vec<char>, days_old: i64, size: u64, large_mb: u64) -> (r: FileCategory)
    ensures
        r == category_of(lname@, days_old as int, size as int, large_mb as int),
{
    if contains_any(lname, lecture_table()) {
        FileCategory::Lecture
    } else if contains_any(lname, assignment_table()) {
        FileCategory::Assignment
    } else if contains_any(lname, reference_table()) {
        FileCategory::Reference
    } else if days_old > OLD_DAYS {
        FileCategory::Old
    } else if (size as u128) > (large_mb as u128) * (MIB as u128) {
        FileCategory::Large
    } else {
        FileCategory::Other
    }
}

/// The tag of the first rule of `table` that one of whose words occurs in
/// `lname`, or `general`.
pub open spec fn course_of(lname: Seq<char>, table: Seq<(Seq<char>, Seq<Seq<char>>)>) -> Seq<char>
    decreases table.len(),
{
    if table.len() == 0 {
        general_course()
    } else if has_any_infix(lname, table[0].1) {
        table[0].0
    } else {
        course_of(lname, table.drop_first())
    }
}

/// The course tag that `table` gives a lower-cased file name.
pub fn detect_course(lname: &Vec<char>, table: &[CourseRule]) -> (r: String)
    ensures
        r@ == course_of(lname@, courses_view(table)),
{
    let ghost tv = courses_view(table);
    assert(tv.subrange(0, tv.len() as int) =~= tv);
    let mut k: usize = 0;
    while k < table.len()
        invariant
            tv == courses_view(table),
            k <= table@.len(),
            course_of(lname@, tv) == course_of(lname@, tv.subrange(k as int, tv.len() as int)),
        decreases table@.len() - k,
    {
        let ghost rest = tv.subrange(k as int, tv.len() as int);
        assert(rest.drop_first() =~= tv.subrange(k + 1, tv.len() as int));
        assert(rest[0].1 == words_view(table[k as int].1));
        if contains_any(lname, table[k].1) {
            return String::from_str(table[k].0);
        }
        k += 1;
    }
    assert(tv.subrange(k as int, tv.len() as int).len() == 0);
    let general = "general";
    String::from_str(general)
}

/// Whether `pattern` is a regular expression that can be compiled.
pub uninterp spec fn regex_valid(pattern: Seq<char>) -> bool;

/// Whether the regular expression `pattern` matches somewhere in `text`.
pub uninterp spec fn regex_finds(pattern: Seq<char>, text: Seq<char>) -> bool;

/// Relies on `regex::Regex::new`, which fails where the pattern is not a
/// valid expression, and on `Regex::is_match`: whether the expression matches
/// anywhere in the text.
#[verifier::external_body]
fn regex_is_match(pattern: &str, text: &str) -> (r: Option<bool>)
    ensures
        r is Some <==> regex_valid(pattern@),
        r matches Some(b) ==> b == regex_finds(pattern@, text@),
{
    match regex::Regex::new(pattern) {
        Ok(re) => Some(re.is_match(text)),
        Err(_) => None,
    }
}

/// A course rule of the scanner: the tag and the expression that selects it.
pub type CoursePattern = (&'static str, &'static str);

/// The view of a table of course expressions.
pub open spec fn patterns_view(table: &[CoursePattern]) -> Seq<(Seq<char>, Seq<char>)> {
    table@.map_values(|e: CoursePattern| (e.0@, e.1@))
}

/// The tag of the first rule of `table` whose expression matches `lname`, or
/// `general`.
pub open spec fn course_by_pattern(lname: Seq<char>, table: Seq<(Seq<char>, Seq<char>)>) -> Seq<char>
    decreases table.len(),
{
    if table.len() == 0 {
        general_course()
    } else if regex_valid(table[0].1) && regex_finds(table[0].1, lname) {
        table[0].0
    } else {
        course_by_pattern(lname, table.drop_first())
    }
}

/// The course tag that a table of expressions gives a lower-cased file name.
pub fn detect_course_by_pattern(lname: &str, table: &[CoursePattern]) -> (r: String)
    ensures
        r@ == course_by_pattern(lname@, patterns_view(table)),
{
    let ghost tv = patterns_view(table);
    assert(tv.subrange(0, tv.len() as int) =~= tv);
    let mut k: usize = 0;
    while k < table.len()
        invariant
            tv == patterns_view(table),
            k <= table@.len(),
            course_by_pattern(lname@, tv) == course_by_pattern(lname@, tv.subrange(k as int, tv.len() as int)),
        decreases table@.len() - k,
    {
        let ghost rest = tv.subrange(k as int, tv.len() as int);
        assert(rest.drop_first() =~= tv.subrange(k + 1, tv.len() as int));
        if let Some(true) = regex_is_match(table[k].1, lname) {
            return String::from_str(table[k].0);
        }
        k += 1;
    }
    assert(tv.subrange(k as int, tv.len() as int).len() == 0);
    String::from_str("general")
}

/// Course rules of the scanner: case-insensitive expressions over the file name.
pub open spec fn scan_course_patterns() -> Seq<(Seq<char>, Seq<char>)> {
    seq![
        ("math"@, "(?i)(math|calculus|algebra|geometry)"@),
        ("cs"@, "(?i)(cs|computer science|programming|data structures)"@),
        ("physics"@, "(?i)(physics|mechanics|quantum)"@),
        ("chemistry"@, "(?i)(chemistry|organic|inorganic)"@),
        ("biology"@, "(?i)(biology|genetics|ecology)"@),
        ("history"@, "(?i)(history|world history|us history)"@),
        ("literature"@, "(?i)(literature|english|novel)"@),
    ]
}

pub fn scan_course_table() -> (r: &'static [CoursePattern])
    ensures
        patterns_view(r) == scan_course_patterns(),
{
    let r: &'static [CoursePattern] = &[
        ("math", "(?i)(math|calculus|algebra|geometry)"),
        ("cs", "(?i)(cs|computer science|programming|data structures)"),
        ("physics", "(?i)(physics|mechanics|quantum)"),
        ("chemistry", "(?i)(chemistry|organic|inorganic)"),
        ("biology", "(?i)(biology|genetics|ecology)"),
        ("history", "(?i)(history|world history|us history)"),
        ("literature", "(?i)(literature|english|novel)"),
    ];
    assert(patterns_view(r) =~= scan_course_patterns());
    r
}

/// Course rules that pick the archive sub-folder.
pub open spec fn archive_courses() -> Seq<(Seq<char>, Seq<Seq<char>>)> {
    seq![
        ("cs"@, seq!["cs"@, "computer"@, "programming"@, "algorithm"@, "software"@]),
        ("math"@, seq!["math"@, "calculus"@, "algebra"@, "statistics"@, "geometry"@]),
        ("science"@, seq!["physics"@, "chemistry"@, "biology"@, "science"@, "lab"@]),
        ("engineering"@, seq!["engineer"@, "mechanical"@, "electrical"@, "civil"@, "robotics"@]),
        ("business"@, seq!["business"@, "management"@, "finance"@, "economics"@, "marketing"@]),
        ("humanities"@, seq!["history"@, "literature"@, "philosophy"@, "art"@, "psychology"@]),
    ]
}

pub fn archive_course_table() -> (r: &'static [CourseRule])
    ensures
        courses_view(r) == archive_courses(),
{
    let r: &'static [CourseRule] = &[
        ("cs", &["cs", "computer", "programming", "algorithm", "software"]),
        ("math", &["math", "calculus", "algebra", "statistics", "geometry"]),
        ("science", &["physics", "chemistry", "biology", "science", "lab"]),
        ("engineering", &["engineer", "mechanical", "electrical", "civil", "robotics"]),
        ("business", &["business", "management", "finance", "economics", "marketing"]),
        ("humanities", &["history", "literature", "philosophy", "art", "psychology"]),
    ];
    assert(courses_view(r)[0].1 =~= archive_courses()[0].1);
    assert(courses_view(r)[1].1 =~= archive_courses()[1].1);
    assert(courses_view(r)[2].1 =~= archive_courses()[2].1);
    assert(courses_view(r)[3].1 =~= archive_courses()[3].1);
    assert(courses_view(r)[4].1 =~= archive_courses()[4].1);
    assert(courses_view(r)[5].1 =~= archive_courses()[5].1);
    assert(courses_view(r) =~= archive_courses());
    r
}

/// Lower-cased names of cloud-synced folders, as the scanner knows them.
pub open spec fn scan_cloud_words() -> Seq<Seq<char>> {
    seq!["google drive"@, "dropbox"@, "onedrive"@, "icloud drive"@, "box"@, "sync"@]
}

/// Lower-cased names of cloud-synced folders, as the archive knows them.
pub open spec fn archive_cloud_words() -> Seq<Seq<char>> {
    seq!["onedrive"@, "dropbox"@, "google drive"@, "icloud drive"@, "box"@]
}

/// Lower-cased system locations that are never scanned or touched.
pub open spec fn system_words() -> Seq<Seq<char>> {
    seq![
        "c:\\windows"@,
        "c:\\program files"@,
        "c:\\programdata"@,
        "c:\\system volume information"@,
        "/system"@,
        "/usr"@,
        "/bin"@,
        "/sbin"@,
        "/etc"@,
        "/var"@,
        "/lib"@,
    ]
}

/// Whether a lower-cased path lies in a cloud-synced folder, for the scanner.
pub fn scan_is_in_cloud_folder(lpath: &Vec<char>) -> (r: bool)
    ensures
        r == has_any_infix(lpath@, scan_cloud_words()),
{
    let words: &'static [&'static str] = &["google drive", "dropbox", "onedrive", "icloud drive", "box", "sync"];
    assert(words_view(words) =~= scan_cloud_words());
    contains_any(lpath, words)
}

/// Whether a lower-cased path lies in a cloud-synced folder, for the archive.
pub fn archive_is_in_cloud_folder(lpath: &Vec<char>) -> (r: bool)
    ensures
        r == has_any_infix(lpath@, archive_cloud_words()),
{
    let words: &'static [&'static str] = &["onedrive", "dropbox", "google drive", "icloud drive", "box"];
    assert(words_view(words) =~= archive_cloud_words());
    contains_any(lpath, words)
}

/// Whether a lower-cased path names a system location.
pub fn is_system_path(lpath: &Vec<char>) -> (r: bool)
    ensures
        r == has_any_infix(lpath@, system_words()),
{
    let words: &'static [&'static str] = &[
        "c:\\windows",
        "c:\\program files",
        "c:\\programdata",
        "c:\\system volume information",
        "/system",
        "/usr",
        "/bin",
        "/sbin",
        "/etc",
        "/var",
        "/lib",
    ];
    assert(words_view(words) =~= system_words());
    contains_any(lpath, words)
}

} // verus!
