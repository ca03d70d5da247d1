//! Dated snapshots of the archive: their names, their order, and when they
//! are due for a reminder or old enough to be removed.

use vstd::prelude::*;
use chrono::Datelike;
use crate::archive::ArchiveSystem;
use crate::time::{DAY_SECS, day_of, day_number, days_between};

verus! {

/// The Common Era day number of 1970-01-01 (0001-01-01 is day 1).
pub const UNIX_EPOCH_CE_DAY: i64 = 719_163;

/// A snapshot is due for a reminder once it is this many days old.
pub const REMINDER_AGE_DAYS: i64 = 30;

/// A snoozed reminder comes back after this many days.
pub const SNOOZE_DAYS: i64 = 7;

/// The `YYYY-MM-DD` text of a Common Era day number.
pub uninterp spec fn ce_date_text(ce: i32) -> Seq<char>;

/// The Common Era day number of a `YYYY-MM-DD` text, if it is a date.
pub uninterp spec fn ce_day_of_text(s: Seq<char>) -> Option<i32>;

/// The first day chrono can represent (262144 BCE, January 1).
pub const MIN_CE_DAY: i32 = -95_746_129;

/// The last day chrono can represent (262142 CE, December 31).
pub const MAX_CE_DAY: i32 = 95_745_399;

/// Relies on `chrono::NaiveDate::from_num_days_from_ce_opt`, which gives a
/// date exactly for the days from `NaiveDate::MIN` to `NaiveDate::MAX`, and on
/// formatting the date as `%Y-%m-%d`.
#[verifier::external_body]
fn date_text(ce: i32) -> (r: Option<String>)
    ensures
        r is Some <==> MIN_CE_DAY <= ce <= MAX_CE_DAY,
        r matches Some(s) ==> s@ == ce_date_text(ce),
{
    match chrono::NaiveDate::from_num_days_from_ce_opt(ce) {
        Some(d) => Some(d.format("%Y-%m-%d").to_string()),
        None => None,
    }
}

/// Relies on parsing a `chrono::NaiveDate` from text and on
/// `Datelike::num_days_from_ce`: the day number depends on the text alone.
#[verifier::external_body]
fn parse_date(s: &str) -> (r: Option<i32>)
    ensures
        r == ce_day_of_text(s@),
{
    match s.parse::<chrono::NaiveDate>() {
        Ok(d) => Some(d.num_days_from_ce()),
        Err(_) => None,
    }
}

/// The Unix day number of a snapshot folder name, if it names a date.
pub open spec fn snapshot_day_of(name: Seq<char>) -> Option<int> {
    match ce_day_of_text(name) {
        Some(c) => Some(c - UNIX_EPOCH_CE_DAY),
        None => None,
    }
}

/// The Unix day number of a snapshot folder name, if it names a date.
pub fn parse_snapshot_day(name: &str) -> (r: Option<i64>)
    ensures
        match r {
            Some(d) => snapshot_day_of(name@) == Some(d as int),
            None => snapshot_day_of(name@).is_none(),
        },
{
    match parse_date(name) {
        Some(c) => Some(c as i64 - UNIX_EPOCH_CE_DAY),
        None => None,
    }
}

/// The name of the snapshot folder for the day of instant `now`: its date as
/// `YYYY-MM-DD`, for every day that chrono can represent.
pub fn snapshot_folder_name(now: i64) -> (r: Option<String>)
    ensures
        r is Some <==> MIN_CE_DAY <= day_of(now as int) + UNIX_EPOCH_CE_DAY <= MAX_CE_DAY,
        r matches Some(s) ==> s@ == ce_date_text((day_of(now as int) + UNIX_EPOCH_CE_DAY) as i32),
{
    let ce: i64 = day_number(now) + UNIX_EPOCH_CE_DAY;
    if ce < i32::MIN as i64 || ce > i32::MAX as i64 {
        return None;
    }
    date_text(ce as i32)
}

/// An entry of the archive folder.
#[derive(Clone, Debug)]
pub struct DirEntry {
    pub path: String,
    pub name: String,
    pub is_dir: bool,
}

/// A snapshot: its folder, its Unix day number, and where its folder stood in
/// the listing.
#[derive(Clone, Debug)]
pub struct ArchiveEntry {
    pub path: String,
    pub day: i64,
    pub position: usize,
}

/// The day of a listing entry, where it is a folder named by a date.
pub open spec fn entry_day(e: DirEntry) -> Option<int> {
    if e.is_dir { snapshot_day_of(e.name@) } else { None }
}

/// `a` comes before `b`: an older day, or the same and listed earlier.
pub open spec fn older_first(a: ArchiveEntry, b: ArchiveEntry) -> bool {
    a.day < b.day || (a.day == b.day && a.position < b.position)
}

pub open spec fn oldest_first(s: Seq<ArchiveEntry>) -> bool {
    forall|a: int, b: int| 0 <= a < b < s.len() ==> older_first(s[a], s[b])
}

/// `e` is the snapshot of entry `entries[e.position]`.
pub open spec fn entry_matches(entries: Seq<DirEntry>, e: ArchiveEntry) -> bool {
    &&& e.position < entries.len()
    &&& entry_day(entries[e.position as int]) == Some(e.day as int)
    &&& e.path@ == entries[e.position as int].path@
}

proof fn lemma_insert_oldest_first(old: Seq<ArchiveEntry>, p: int, x: ArchiveEntry)
    requires
        oldest_first(old),
        0 <= p <= old.len(),
        forall|q: int| 0 <= q < p ==> old[q].day <= x.day,
        forall|q: int| p <= q < old.len() ==> old[q].day > x.day,
        forall|q: int| 0 <= q < old.len() ==> old[q].position < x.position,
    ensures
        oldest_first(old.insert(p, x)),
{
    let o = old.insert(p, x);
    assert forall|a: int, b: int| 0 <= a < b < o.len() implies older_first(o[a], o[b]) by {
        if b < p {
            assert(o[a] == old[a] && o[b] == old[b]);
        } else if a < p && b == p {
            assert(o[a] == old[a]);
        } else if a < p {
            assert(o[a] == old[a] && o[b] == old[b - 1]);
        } else if a == p {
            assert(o[b] == old[b - 1]);
        } else {
            assert(o[a] == old[a - 1] && o[b] == old[b - 1]);
        }
    }
}

impl ArchiveSystem {
    /// The snapshots among the entries of the archive folder: the folders
    /// whose names parse as dates, oldest first, in listing order on the same
    /// day.
    pub fn list_archives(&self, entries: &Vec<DirEntry>) -> (r: Vec<ArchiveEntry>)
        ensures
            oldest_first(r@),
            forall|k: int| 0 <= k < r@.len() ==> entry_matches(entries@, #[trigger] r@[k]),
            forall|i: int| #![trigger entries@[i]] 0 <= i < entries@.len() && entry_day(entries@[i]) is Some
                ==> exists|k: int| #![trigger r@[k]] 0 <= k < r@.len() && r@[k].position == i,
    {
        let mut out: Vec<ArchiveEntry> = Vec::new();
        let mut i: usize = 0;
        while i < entries.len()
            invariant
                i <= entries@.len(),
                oldest_first(out@),
                forall|k: int| 0 <= k < out@.len() ==> entry_matches(entries@, #[trigger] out@[k])
                    && out@[k].position < i,
                forall|t: int| #![trigger entries@[t]] 0 <= t < i && entry_day(entries@[t]) is Some
                    ==> exists|k: int| #![trigger out@[k]] 0 <= k < out@.len() && out@[k].position == t,
            decreases entries@.len() - i,
        {
            let day = if entries[i].is_dir { parse_snapshot_day(entries[i].name.as_str()) } else { None };
            match day {
                Some(d) => {
                    let ghost old_out = out@;
                    let mut p: usize = 0;
                    while p < out.len() && out[p].day <= d
                        invariant
                            out@ == old_out,
                            p <= out@.len(),
                            forall|q: int| 0 <= q < p ==> out@[q].day <= d,
                        decreases out@.len() - p,
                    {
                        p += 1;
                    }
                    let x = ArchiveEntry { path: entries[i].path.clone(), day: d, position: i };
                    proof {
                        assert forall|q: int| p <= q < old_out.len() implies old_out[q].day > x.day by {
                            if q > p {
                                assert(older_first(old_out[p as int], old_out[q]));
                            }
                        }
                        lemma_insert_oldest_first(old_out, p as int, x);
                    }
                    out.insert(p, x);
                    proof {
                        let o = out@;
                        assert forall|k: int| 0 <= k < o.len() implies entry_matches(entries@, #[trigger] o[k])
                            && o[k].position < i + 1 by {
                            if k < p {
                                assert(o[k] == old_out[k]);
                            } else if k > p {
                                assert(o[k] == old_out[k - 1]);
                            }
                        }
                        assert forall|t: int| #![trigger entries@[t]] 0 <= t < i + 1 && entry_day(entries@[t]) is Some
                            implies exists|k: int| #![trigger o[k]] 0 <= k < o.len() && o[k].position == t by {
                            if t == i {
                                assert(o[p as int].position == t);
                            } else {
                                let k = choose|k: int| #![trigger old_out[k]] 0 <= k < old_out.len() && old_out[k].position == t;
                                if k < p {
                                    assert(o[k] == old_out[k]);
                                } else {
                                    assert(o[k + 1] == old_out[k]);
                                }
                            }
                        }
                    }
                },
                None => {},
            }
            i += 1;
        }
        out
    }
}

/// A snapshot of day `day` is due for a reminder at `now`: it is at least
/// thirty days old and not marked to be kept forever.
pub open spec fn is_due(day: int, keep_forever: bool, now: int) -> bool {
    !keep_forever && days_between(now, day * DAY_SECS) >= REMINDER_AGE_DAYS
}

/// The positions of the due snapshots among the first `n`.
pub open spec fn due_indices(s: Seq<ArchiveEntry>, keep: Seq<bool>, now: int, n: int) -> Seq<usize>
    decreases n,
{
    if n <= 0 {
        seq![]
    } else if is_due(s[n - 1].day as int, keep[n - 1], now) {
        due_indices(s, keep, now, n - 1).push((n - 1) as usize)
    } else {
        due_indices(s, keep, now, n - 1)
    }
}

/// The positions of the snapshots older than `older_than_days` at `now`,
/// among the first `n`: those whose midnight lies before the cutoff.
pub open spec fn older_indices(s: Seq<ArchiveEntry>, now: int, older_than_days: int, n: int) -> Seq<usize>
    decreases n,
{
    if n <= 0 {
        seq![]
    } else if s[n - 1].day * DAY_SECS < now - older_than_days * DAY_SECS {
        older_indices(s, now, older_than_days, n - 1).push((n - 1) as usize)
    } else {
        older_indices(s, now, older_than_days, n - 1)
    }
}

fn snapshot_age_days(day: i64, now: i64) -> (r: i128)
    ensures
        r == days_between(now as int, day * DAY_SECS),
{
    let midnight: i128 = (day as i128) * (DAY_SECS as i128);
    let diff: i128 = now as i128 - midnight;
    if diff >= 0 {
        diff / (DAY_SECS as i128)
    } else {
        -((-diff) / (DAY_SECS as i128))
    }
}

/// What to do with a snapshot that is due.
#[derive(Clone, Copy, Debug, PartialEq, Eq, Structural)]
pub enum ReminderChoice {
    Clean,
    Snooze,
    KeepForever,
}

/// What the caller does to a snapshot's folder.
#[derive(Clone, Copy, Debug, PartialEq, Eq, Structural)]
pub enum LifecycleAction {
    /// Delete the whole snapshot folder.
    RemoveSnapshot,
    /// Write the reminder marker with this due instant.
    WriteReminder(i64),
    /// Write the keep-forever marker.
    WriteKeepMarker,
}

/// `t` moved on by `days` days, held at the largest instant.
pub open spec fn later_by(t: int, days: int) -> int {
    if t + days * DAY_SECS > i64::MAX { i64::MAX as int } else { t + days * DAY_SECS }
}

fn later(t: i64, days: i64) -> (r: i64)
    requires
        0 <= days <= 365,
    ensures
        r == later_by(t as int, days as int),
{
    let secs: i64 = days * DAY_SECS;
    if t > i64::MAX - secs { i64::MAX } else { t + secs }
}

/// When the reminder of a snapshot made at `now` falls due: thirty days on.
pub fn schedule_archive_reminder(now: i64) -> (r: i64)
    ensures
        r == later_by(now as int, REMINDER_AGE_DAYS as int),
{
    later(now, REMINDER_AGE_DAYS)
}

/// The action a reminder choice calls for at `now`.
pub fn reminder_action(choice: ReminderChoice, now: i64) -> (r: LifecycleAction)
    ensures
        r == match choice {
            ReminderChoice::Clean => LifecycleAction::RemoveSnapshot,
            ReminderChoice::Snooze => LifecycleAction::WriteReminder(later_by(now as int, SNOOZE_DAYS as int) as i64),
            ReminderChoice::KeepForever => LifecycleAction::WriteKeepMarker,
        },
{
    match choice {
        ReminderChoice::Clean => LifecycleAction::RemoveSnapshot,
        ReminderChoice::Snooze => LifecycleAction::WriteReminder(later(now, SNOOZE_DAYS)),
        ReminderChoice::KeepForever => LifecycleAction::WriteKeepMarker,
    }
}

impl ArchiveSystem {
    /// The positions of the snapshots due for a reminder at `now`, given for
    /// each whether it carries the keep-forever marker.
    pub fn check_archive_reminders(&self, archives: &Vec<ArchiveEntry>, keep_forever: &Vec<bool>, now: i64) -> (r: Vec<usize>)
        requires
            keep_forever@.len() == archives@.len(),
        ensures
            r@ == due_indices(archives@, keep_forever@, now as int, archives@.len() as int),
    {
        let mut r: Vec<usize> = Vec::new();
        let mut i: usize = 0;
        while i < archives.len()
            invariant
                keep_forever@.len() == archives@.len(),
                i <= archives@.len(),
                r@ == due_indices(archives@, keep_forever@, now as int, i as int),
            decreases archives@.len() - i,
        {
            if !keep_forever[i] && snapshot_age_days(archives[i].day, now) >= REMINDER_AGE_DAYS as i128 {
                r.push(i);
            }
            i += 1;
        }
        r
    }

    /// The positions of the snapshots older than `older_than_days` at `now`.
    pub fn clean_old_archives(&self, archives: &Vec<ArchiveEntry>, now: i64, older_than_days: i64) -> (r: Vec<usize>)
        ensures
            r@ == older_indices(archives@, now as int, older_than_days as int, archives@.len() as int),
    {
        let cutoff: i128 = now as i128 - (older_than_days as i128) * (DAY_SECS as i128);
        let mut r: Vec<usize> = Vec::new();
        let mut i: usize = 0;
        while i < archives.len()
            invariant
                i <= archives@.len(),
                cutoff == now - older_than_days * DAY_SECS,
                r@ == older_indices(archives@, now as int, older_than_days as int, i as int),
            decreases archives@.len() - i,
        {
            if (archives[i].day as i128) * (DAY_SECS as i128) < cutoff {
                r.push(i);
            }
            i += 1;
        }
        r
    }
}

/// A snapshot marked to be kept forever is never reported due, however old
/// it grows; choosing to keep it forever is what writes that mark.
pub proof fn lemma_keep_forever_exempts(s: Seq<ArchiveEntry>, keep: Seq<bool>, now: int, n: int, k: int)
    requires
        0 <= k < s.len(),
        s.len() <= usize::MAX,
        keep.len() == s.len(),
        n <= s.len(),
        keep[k],
    ensures
        !due_indices(s, keep, now, n).contains(k as usize),
    decreases n,
{
    if n > 0 {
        lemma_keep_forever_exempts(s, keep, now, n - 1, k);
        let prev = due_indices(s, keep, now, n - 1);
        if is_due(s[n - 1].day as int, keep[n - 1], now) {
            assert(n - 1 != k);
            assert(due_indices(s, keep, now, n) == prev.push((n - 1) as usize));
            assert forall|t: int| 0 <= t < prev.len() + 1 implies #[trigger] prev.push((n - 1) as usize)[t] != k as usize by {
                if t < prev.len() {
                    assert(prev.push((n - 1) as usize)[t] == prev[t]);
                }
            }
        }
    }
}

} // verus!
