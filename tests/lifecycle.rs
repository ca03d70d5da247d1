use cleancrush::archive::ArchiveSystem;
use cleancrush::lifecycle::{
    parse_snapshot_day, reminder_action, schedule_archive_reminder, snapshot_folder_name, ArchiveEntry,
    DirEntry, LifecycleAction, ReminderChoice, MAX_CE_DAY, MIN_CE_DAY, UNIX_EPOCH_CE_DAY,
};
use cleancrush::protection::{CleanupAction, Config};
use cleancrush::time::{day_number, whole_days_between};

const DAY: i64 = 86_400;

fn system() -> ArchiveSystem {
    ArchiveSystem::new(Config { default_action: CleanupAction::Archive, protected_folders: Vec::new() }, "/h")
}

fn dir(name: &str) -> DirEntry {
    DirEntry { path: format!("/h/CleanCrush-Archive/{}", name), name: name.to_string(), is_dir: true }
}

#[test]
fn snapshot_names_round_trip() {
    assert_eq!(snapshot_folder_name(0), Some("1970-01-01".to_string()));
    assert_eq!(snapshot_folder_name(19_783 * DAY + 5), Some("2024-03-01".to_string()));
    assert_eq!(parse_snapshot_day("2024-03-01"), Some(19_783));
    assert_eq!(parse_snapshot_day("1969-12-31"), Some(-1));
    assert_eq!(parse_snapshot_day("notes"), None);
    assert_eq!(parse_snapshot_day("2024-02-30"), None);
}

#[test]
fn listing_is_oldest_first() {
    let mut file = dir("2024-01-05");
    file.is_dir = false;
    let entries = vec![dir("2024-03-01"), dir("misc"), dir("2024-01-02"), file, dir("2024-01-02")];
    let list = system().list_archives(&entries);
    let got: Vec<(i64, usize)> = list.iter().map(|e| (e.day, e.position)).collect();
    assert_eq!(got, vec![(19_724, 2), (19_724, 4), (19_783, 0)]);
    assert_eq!(list[2].path, "/h/CleanCrush-Archive/2024-03-01");
}

#[test]
fn snapshot_45_days_old_is_due_until_kept() {
    let now = 20_000 * DAY + 3_600;
    let archives = vec![
        ArchiveEntry { path: "/a/old".to_string(), day: 20_000 - 45, position: 0 },
        ArchiveEntry { path: "/a/new".to_string(), day: 20_000 - 10, position: 1 },
    ];
    let s = system();
    assert_eq!(s.check_archive_reminders(&archives, &vec![false, false], now), vec![0]);
    assert_eq!(reminder_action(ReminderChoice::KeepForever, now), LifecycleAction::WriteKeepMarker);
    assert!(s.check_archive_reminders(&archives, &vec![true, false], now).is_empty());
    assert_eq!(s.check_archive_reminders(&archives, &vec![true, false], now + 1000 * DAY), vec![1]);
}

#[test]
fn reminder_boundary_is_thirty_days() {
    let now = 20_000 * DAY;
    let archives = vec![
        ArchiveEntry { path: "/a/x".to_string(), day: 20_000 - 30, position: 0 },
        ArchiveEntry { path: "/a/y".to_string(), day: 20_000 - 29, position: 1 },
    ];
    assert_eq!(system().check_archive_reminders(&archives, &vec![false, false], now), vec![0]);
}

#[test]
fn reminder_choices() {
    assert_eq!(reminder_action(ReminderChoice::Clean, 5), LifecycleAction::RemoveSnapshot);
    assert_eq!(reminder_action(ReminderChoice::Snooze, 5), LifecycleAction::WriteReminder(5 + 7 * DAY));
    assert_eq!(reminder_action(ReminderChoice::Snooze, i64::MAX - 1), LifecycleAction::WriteReminder(i64::MAX));
    assert_eq!(schedule_archive_reminder(100), 100 + 30 * DAY);
}

#[test]
fn old_archives_strictly_before_cutoff() {
    let now = 20_000 * DAY;
    let archives = vec![
        ArchiveEntry { path: "/a/x".to_string(), day: 20_000 - 31, position: 0 },
        ArchiveEntry { path: "/a/y".to_string(), day: 20_000 - 30, position: 1 },
        ArchiveEntry { path: "/a/z".to_string(), day: 20_000 - 2, position: 2 },
    ];
    assert_eq!(system().clean_old_archives(&archives, now, 30), vec![0]);
    assert_eq!(system().clean_old_archives(&archives, now + 1, 30), vec![0, 1]);
}

#[test]
fn whole_days_round_toward_zero() {
    assert_eq!(whole_days_between(10 * DAY + 5, 0), 10);
    assert_eq!(whole_days_between(0, DAY + 1), -1);
    assert_eq!(whole_days_between(0, DAY - 1), 0);
    assert_eq!(day_number(-1), -1);
    assert_eq!(day_number(DAY), 1);
}

#[test]
fn folder_names_exist_exactly_within_chrono_range() {
    let first = (MIN_CE_DAY as i64 - UNIX_EPOCH_CE_DAY) * DAY;
    let last = (MAX_CE_DAY as i64 - UNIX_EPOCH_CE_DAY) * DAY;
    assert!(snapshot_folder_name(first).is_some());
    assert!(snapshot_folder_name(first - 1).is_none());
    assert!(snapshot_folder_name(last + DAY - 1).is_some());
    assert!(snapshot_folder_name(last + DAY).is_none());
    assert_eq!(snapshot_folder_name((3_652_059 - UNIX_EPOCH_CE_DAY) * DAY), Some("9999-12-31".to_string()));
    assert!(snapshot_folder_name(i64::MAX).is_none());
}
