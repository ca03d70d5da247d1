//! The confidence that a file is safe to clear away, and the reasons behind it.
//!
//! Confidence is a fixed-point number: `SCALE` stands for 1.0. The scale is
//! chosen so that every signal, including the age ramp (thirtieths per day)
//! and the size ramp (thousandths per mebibyte), is an exact integer.

use vstd::prelude::*;
use crate::classify::{FileCategory, MIB};
use crate::text::{contains_any, has_any_infix, decimal, signed_decimal, decimal_text, signed_decimal_text};

verus! {

/// Confidence 1.0.
pub const SCALE: u64 = 3_145_728_000_000;

/// Confidence 0.01.
pub const UNIT: u64 = 31_457_280_000;

/// Age ramp: confidence gained per day beyond the age threshold (1/30).
pub const AGE_STEP: u64 = 104_857_600_000;

/// Size ramp: confidence gained per byte (1/1000 per mebibyte).
pub const SIZE_STEP: u64 = 3_000;

/// Highest confidence that the age or size ramp adds to its base (0.25).
pub const RAMP_CAP: u64 = 25 * UNIT;

/// Files older than this many days are very old.
pub const VERY_OLD_DAYS: i64 = 90;

/// One clause of the explanation of a score.
#[derive(Clone, Copy, Debug, PartialEq, Eq, Structural)]
pub enum Reason {
    /// Its content is shared with this many files (itself included).
    ExactDuplicate(usize),
    NameSuggestsDuplicate,
    /// Older than the very-old limit, by its age in days.
    VeryOld(i64),
    /// Older than the age threshold, by its age in days.
    Old(i64),
    /// Larger than the size threshold, by its size in bytes.
    LargeFile(u64),
    StudyRelated,
    Screenshot,
}

pub open spec fn duplicate_words() -> Seq<Seq<char>> {
    seq!["copy"@, "(1)"@, "(2)"@, "_copy"@, "-copy"@, "final_final"@, "old"@, "backup"@, "version"@]
}

pub open spec fn study_words() -> Seq<Seq<char>> {
    seq![
        "lecture"@, "notes"@, "assignment"@, "homework"@, "lab"@, "exam"@, "quiz"@, "week"@,
        "chapter"@, "slide"@, "tutorial"@, "worksheet"@, "solution"@, "practice"@, "review"@,
    ]
}

pub open spec fn max(a: int, b: int) -> int {
    if a >= b { a } else { b }
}

pub open spec fn min(a: int, b: int) -> int {
    if a <= b { a } else { b }
}

pub open spec fn duplicate_signal(copies: int) -> int {
    if copies > 1 { 99 * UNIT } else { 0 }
}

pub open spec fn name_signal(lname: Seq<char>) -> int {
    if has_any_infix(lname, duplicate_words()) { 85 * UNIT } else { 0 }
}

pub open spec fn age_signal(days_old: int, days_threshold: int) -> int {
    if days_old > VERY_OLD_DAYS {
        95 * UNIT
    } else if days_old > days_threshold {
        70 * UNIT + min(RAMP_CAP as int, (days_old - days_threshold) * AGE_STEP)
    } else {
        0
    }
}

pub open spec fn is_large(size: int, large_mb: int) -> bool {
    size > large_mb * MIB
}

pub open spec fn size_signal(size: int, large_mb: int) -> int {
    if is_large(size, large_mb) {
        70 * UNIT + min(RAMP_CAP as int, size * SIZE_STEP)
    } else {
        0
    }
}

pub open spec fn study_signal(lname: Seq<char>) -> int {
    if has_any_infix(lname, study_words()) { 75 * UNIT } else { 0 }
}

/// The least confidence that each category carries.
pub open spec fn category_floor(category: FileCategory) -> int {
    match category {
        FileCategory::Lecture | FileCategory::Assignment | FileCategory::Reference => 65 * UNIT,
        FileCategory::Old => 85 * UNIT,
        FileCategory::Large => 75 * UNIT,
        FileCategory::Other => 40 * UNIT,
        FileCategory::Duplicate => 0,
    }
}

/// The confidence of a file: the largest of its signals and its category
/// floor; a screenshot in exam mode is capped at 0.4; the result is at least
/// 0.1 and at most 1.0.
pub open spec fn confidence_of(
    copies: int,
    lname: Seq<char>,
    days_old: int,
    size: int,
    days_threshold: int,
    large_mb: int,
    category: FileCategory,
    exam_image: bool,
) -> int {
    let m = max(
        max(
            max(max(max(duplicate_signal(copies), name_signal(lname)), age_signal(days_old, days_threshold)),
                size_signal(size, large_mb)),
            study_signal(lname),
        ),
        category_floor(category),
    );
    let capped = if exam_image { min(m, 40 * UNIT) } else { m };
    min(max(capped, 10 * UNIT), SCALE as int)
}

pub open spec fn duplicate_clause(copies: int) -> Seq<Reason> {
    if copies > 1 { seq![Reason::ExactDuplicate(copies as usize)] } else { seq![] }
}

pub open spec fn name_clause(lname: Seq<char>) -> Seq<Reason> {
    if has_any_infix(lname, duplicate_words()) { seq![Reason::NameSuggestsDuplicate] } else { seq![] }
}

pub open spec fn age_clause(days_old: int, days_threshold: int) -> Seq<Reason> {
    if days_old > VERY_OLD_DAYS {
        seq![Reason::VeryOld(days_old as i64)]
    } else if days_old > days_threshold {
        seq![Reason::Old(days_old as i64)]
    } else {
        seq![]
    }
}

pub open spec fn size_clause(size: int, large_mb: int) -> Seq<Reason> {
    if is_large(size, large_mb) { seq![Reason::LargeFile(size as u64)] } else { seq![] }
}

pub open spec fn study_clause(lname: Seq<char>) -> Seq<Reason> {
    if has_any_infix(lname, study_words()) { seq![Reason::StudyRelated] } else { seq![] }
}

pub open spec fn screenshot_clause(exam_image: bool) -> Seq<Reason> {
    if exam_image { seq![Reason::Screenshot] } else { seq![] }
}

/// The clauses of every signal that fired, in the order of evaluation.
pub open spec fn reasons_of(
    copies: int,
    lname: Seq<char>,
    days_old: int,
    size: int,
    days_threshold: int,
    large_mb: int,
    exam_image: bool,
) -> Seq<Reason> {
    duplicate_clause(copies) + name_clause(lname) + age_clause(days_old, days_threshold)
        + size_clause(size, large_mb) + study_clause(lname) + screenshot_clause(exam_image)
}

/// A size in mebibytes, in tenths, rounded half up.
pub open spec fn mib_tenths(size: nat) -> nat {
    ((size * 10 + MIB / 2) / (MIB as int)) as nat
}

/// A size in mebibytes with one decimal.
pub open spec fn mib_text(size: nat) -> Seq<char> {
    decimal(mib_tenths(size) / 10) + "."@ + decimal(mib_tenths(size) % 10)
}

/// The text of one clause.
pub open spec fn clause_text(r: Reason) -> Seq<char> {
    match r {
        Reason::ExactDuplicate(n) => "Exact duplicate ("@ + decimal(n as nat) + " copies)"@,
        Reason::NameSuggestsDuplicate => "Filename suggests duplicate"@,
        Reason::VeryOld(d) => "Very old ("@ + signed_decimal(d as int) + " days)"@,
        Reason::Old(d) => "Old ("@ + signed_decimal(d as int) + " days)"@,
        Reason::LargeFile(s) => "Large file ("@ + mib_text(s as nat) + " MB)"@,
        Reason::StudyRelated => "Study-related file"@,
        Reason::Screenshot => "Screenshot (lower confidence)"@,
    }
}

/// The clauses joined by ` + `.
pub open spec fn joined(rs: Seq<Reason>) -> Seq<char>
    decreases rs.len(),
{
    if rs.len() == 0 {
        seq![]
    } else if rs.len() == 1 {
        clause_text(rs[0])
    } else {
        joined(rs.drop_last()) + " + "@ + clause_text(rs.last())
    }
}

/// The reason text of a score.
pub open spec fn reason_text(rs: Seq<Reason>) -> Seq<char> {
    if rs.len() == 0 {
        "General study file"@
    } else {
        joined(rs)
    }
}

fn mib_text_exec(size: u64) -> (r: String)
    ensures
        r@ == mib_text(size as nat),
{
    let t128: u128 = ((size as u128) * 10 + (MIB as u128) / 2) / (MIB as u128);
    assert(t128 == mib_tenths(size as nat));
    assert(t128 <= u64::MAX) by (nonlinear_arith)
        requires
            t128 == (size * 10 + 524288) / 1048576,
            size <= u64::MAX,
    {
    }
    let t = t128 as u64;
    let whole = decimal_text(t / 10);
    let dot = ".";
    let r = whole.concat(dot).concat(decimal_text(t % 10).as_str());
    r
}

/// The text of one clause.
pub fn clause(r: Reason) -> (s: String)
    ensures
        s@ == clause_text(r),
{
    match r {
        Reason::ExactDuplicate(n) => {
            String::from_str("Exact duplicate (").concat(decimal_text(n as u64).as_str()).concat(" copies)")
        },
        Reason::NameSuggestsDuplicate => String::from_str("Filename suggests duplicate"),
        Reason::VeryOld(d) => {
            String::from_str("Very old (").concat(signed_decimal_text(d).as_str()).concat(" days)")
        },
        Reason::Old(d) => String::from_str("Old (").concat(signed_decimal_text(d).as_str()).concat(" days)"),
        Reason::LargeFile(s) => String::from_str("Large file (").concat(mib_text_exec(s).as_str()).concat(" MB)"),
        Reason::StudyRelated => String::from_str("Study-related file"),
        Reason::Screenshot => String::from_str("Screenshot (lower confidence)"),
    }
}

/// The reason text of a score: its clauses joined by ` + `, or a general
/// remark where no signal fired.
pub fn render_reasons(rs: &Vec<Reason>) -> (s: String)
    ensures
        s@ == reason_text(rs@),
{
    if rs.len() == 0 {
        return String::from_str("General study file");
    }
    let mut acc = clause(rs[0]);
    let mut i: usize = 1;
    assert(rs@.subrange(0, 1).drop_last() =~= seq![]);
    while i < rs.len()
        invariant
            1 <= i <= rs@.len(),
            acc@ == joined(rs@.subrange(0, i as int)),
        decreases rs@.len() - i,
    {
        let sep = " + ";
        acc = acc.concat(sep).concat(clause(rs[i]).as_str());
        assert(rs@.subrange(0, i + 1).drop_last() =~= rs@.subrange(0, i as int));
        i += 1;
    }
    assert(rs@.subrange(0, i as int) =~= rs@);
    acc
}

fn max_u64(a: u64, b: u64) -> (r: u64)
    ensures
        r == max(a as int, b as int),
{
    if a >= b { a } else { b }
}

fn min_u64(a: u64, b: u64) -> (r: u64)
    ensures
        r == min(a as int, b as int),
{
    if a <= b { a } else { b }
}

fn age_part(days_old: i64, days_threshold: u64) -> (r: u64)
    ensures
        r == age_signal(days_old as int, days_threshold as int),
{
    if days_old > VERY_OLD_DAYS {
        95 * UNIT
    } else if (days_old as i128) > (days_threshold as i128) {
        let beyond: u64 = (days_old as i128 - days_threshold as i128) as u64;
        70 * UNIT + min_u64(RAMP_CAP, beyond * AGE_STEP)
    } else {
        0
    }
}

fn size_part(size: u64, large_mb: u64) -> (r: u64)
    ensures
        r == size_signal(size as int, large_mb as int),
{
    if (size as u128) > (large_mb as u128) * (MIB as u128) {
        let capped_size = min_u64(size, 262_144_000);
        let ramp = min_u64(RAMP_CAP, capped_size * SIZE_STEP);
        assert(min(RAMP_CAP as int, capped_size * SIZE_STEP) == min(RAMP_CAP as int, size * SIZE_STEP));
        70 * UNIT + ramp
    } else {
        0
    }
}

fn floor_part(category: FileCategory) -> (r: u64)
    ensures
        r == category_floor(category),
{
    match category {
        FileCategory::Lecture | FileCategory::Assignment | FileCategory::Reference => 65 * UNIT,
        FileCategory::Old => 85 * UNIT,
        FileCategory::Large => 75 * UNIT,
        FileCategory::Other => 40 * UNIT,
        FileCategory::Duplicate => 0,
    }
}

fn name_suggests_duplicate(lname: &Vec<char>) -> (r: bool)
    ensures
        r == has_any_infix(lname@, duplicate_words()),
{
    let table: &'static [&'static str] = &[
        "copy", "(1)", "(2)", "_copy", "-copy", "final_final", "old", "backup", "version",
    ];
    assert(table@.map_values(|w: &str| w@) =~= duplicate_words());
    contains_any(lname, table)
}

fn name_is_study_related(lname: &Vec<char>) -> (r: bool)
    ensures
        r == has_any_infix(lname@, study_words()),
{
    let table: &'static [&'static str] = &[
        "lecture", "notes", "assignment", "homework", "lab", "exam", "quiz", "week",
        "chapter", "slide", "tutorial", "worksheet", "solution", "practice", "review",
    ];
    assert(table@.map_values(|w: &str| w@) =~= study_words());
    contains_any(lname, table)
}

fn collect_reasons(
    lname: &Vec<char>,
    days_old: i64,
    size: u64,
    days_threshold: u64,
    large_mb: u64,
    copies: usize,
    exam_image: bool,
) -> (r: Vec<Reason>)
    ensures
        r@ == reasons_of(copies as int, lname@, days_old as int, size as int, days_threshold as int, large_mb as int, exam_image),
{
    let ghost upto_dup = duplicate_clause(copies as int);
    let ghost upto_name = upto_dup + name_clause(lname@);
    let ghost upto_age = upto_name + age_clause(days_old as int, days_threshold as int);
    let ghost upto_size = upto_age + size_clause(size as int, large_mb as int);
    let ghost upto_study = upto_size + study_clause(lname@);
    let ghost upto_shot = upto_study + screenshot_clause(exam_image);
    let mut reasons: Vec<Reason> = Vec::new();
    if copies > 1 {
        reasons.push(Reason::ExactDuplicate(copies));
    }
    assert(reasons@ =~= upto_dup);
    if name_suggests_duplicate(lname) {
        reasons.push(Reason::NameSuggestsDuplicate);
    }
    assert(reasons@ =~= upto_name);
    if days_old > VERY_OLD_DAYS {
        reasons.push(Reason::VeryOld(days_old));
    } else if (days_old as i128) > (days_threshold as i128) {
        reasons.push(Reason::Old(days_old));
    }
    assert(reasons@ =~= upto_age);
    if (size as u128) > (large_mb as u128) * (MIB as u128) {
        reasons.push(Reason::LargeFile(size));
    }
    assert(reasons@ =~= upto_size);
    if name_is_study_related(lname) {
        reasons.push(Reason::StudyRelated);
    }
    assert(reasons@ =~= upto_study);
    if exam_image {
        reasons.push(Reason::Screenshot);
    }
    assert(reasons@ =~= upto_shot);
    reasons
}

/// Scores a file: its lower-cased name, age in days, size in bytes, the age
/// threshold in days, the large-file threshold in mebibytes, how many files
/// share its content (0 where it was not hashed), its category, and whether
/// it is a screenshot scored in exam mode. Gives the confidence and the reason
/// text.
pub fn calculate_confidence(
    lname: &Vec<char>,
    days_old: i64,
    size: u64,
    days_threshold: u64,
    large_mb: u64,
    copies: usize,
    category: FileCategory,
    exam_image: bool,
) -> (r: (u64, String))
    ensures
        r.0 == confidence_of(
            copies as int,
            lname@,
            days_old as int,
            size as int,
            days_threshold as int,
            large_mb as int,
            category,
            exam_image,
        ),
        r.1@ == reason_text(
            reasons_of(copies as int, lname@, days_old as int, size as int, days_threshold as int, large_mb as int, exam_image),
        ),
{
    let dup: u64 = if copies > 1 { 99 * UNIT } else { 0 };
    let name: u64 = if name_suggests_duplicate(lname) { 85 * UNIT } else { 0 };
    let study: u64 = if name_is_study_related(lname) { 75 * UNIT } else { 0 };
    let mut confidence = max_u64(dup, name);
    confidence = max_u64(confidence, age_part(days_old, days_threshold));
    confidence = max_u64(confidence, size_part(size, large_mb));
    confidence = max_u64(confidence, study);
    confidence = max_u64(confidence, floor_part(category));
    if exam_image {
        confidence = min_u64(confidence, 40 * UNIT);
    }
    confidence = max_u64(confidence, 10 * UNIT);
    confidence = min_u64(confidence, SCALE);
    let reasons = collect_reasons(lname, days_old, size, days_threshold, large_mb, copies, exam_image);
    let text = render_reasons(&reasons);
    (confidence, text)
}

} // verus!
