use dmpool::backup::BackupManager;
use dmpool::catalog::{load_record, read_catalog};
use dmpool::files::{contains_file, copy_listing, put_file, remove_file, FileEntry};
use dmpool::record::{BackupError, BackupMetadata, Sidecar};
use dmpool::snapshot::{backup_name, safety_name};
use dmpool::text::{concat_str, join_child, starts_with, str_eq};
use dmpool::time::Timestamp;
use dmpool::validity::{entries_are_distinct, listing_is_distinct};
use dmpool::volume::{FsAction, RootEntry, Step, Volume};

fn dir(name: &str, files: Vec<FileEntry>) -> RootEntry {
    RootEntry {
        name: name.to_string(),
        is_dir: true,
        modified: Timestamp::new(1_700_000_000, 0),
        files,
        sidecar: Sidecar::Missing,
    }
}

fn manager() -> BackupManager {
    BackupManager::new("/s".to_string(), "/b".to_string(), 3)
}

#[test]
fn manager_keeps_its_configuration() {
    let mgr = BackupManager::new("/var/store".to_string(), "/var/backups".to_string(), 14);
    assert_eq!(mgr.store_path, "/var/store");
    assert_eq!(mgr.backup_dir, "/var/backups");
    assert_eq!(mgr.max_backups, 14);
    assert!(mgr.compression_enabled);
}

#[test]
fn text_helpers_compare_and_join() {
    assert!(str_eq("CURRENT", "CURRENT"));
    assert!(!str_eq("CURRENT", "CURRENT "));
    assert!(!str_eq("", "x"));
    assert!(starts_with("dmpool_backup_20250101_000000", "dmpool_backup_"));
    assert!(starts_with("dmpool_backup_", "dmpool_backup_"));
    assert!(starts_with("anything", ""));
    assert!(!starts_with("dmpool_backup", "dmpool_backup_"));
    assert!(!starts_with("xdmpool_backup_1", "dmpool_backup_"));
    assert!(starts_with("\u{e9}t\u{e9}", "\u{e9}t"));
    assert_eq!(concat_str("pre_restore_", "20250101_000000"), "pre_restore_20250101_000000");
    assert_eq!(join_child("/var/backups", "a"), "/var/backups/a");
    assert_eq!(join_child("", "a"), "/a");
    assert_eq!(backup_name("20250101_000000"), "dmpool_backup_20250101_000000");
    assert_eq!(safety_name("20250101_000000"), "pre_restore_20250101_000000");
}

#[test]
fn timestamps_compare_by_seconds_then_nanoseconds() {
    let a = Timestamp::new(10, 500);
    assert!(a.is_before(&Timestamp::new(11, 0)));
    assert!(a.is_before(&Timestamp::new(10, 501)));
    assert!(!a.is_before(&a));
    assert!(!a.is_before(&Timestamp::new(9, 999_999_999)));
    assert!(Timestamp::new(-5, 0).is_before(&Timestamp::new(-4, 0)));
}

#[test]
fn nameable_instants_have_a_four_digit_year() {
    assert!(Timestamp::new(0, 0).is_nameable());
    assert!(Timestamp::new(253_402_300_799, 999_999_999).is_nameable());
    assert!(!Timestamp::new(253_402_300_800, 0).is_nameable());
    assert!(Timestamp::new(-62_167_219_200, 0).is_nameable());
    assert!(!Timestamp::new(-62_167_219_201, 0).is_nameable());
    assert!(!Timestamp::new(0, 1_000_000_000).is_nameable());
}

#[test]
fn listings_replace_and_remove_by_name() {
    let mut files = vec![FileEntry::new("a", 1), FileEntry::new("b", 2), FileEntry::new("c", 3)];
    put_file(&mut files, FileEntry::new("b", 20));
    assert_eq!(files, vec![FileEntry::new("a", 1), FileEntry::new("c", 3), FileEntry::new("b", 20)]);
    put_file(&mut files, FileEntry::new("d", 4));
    assert_eq!(files.len(), 4);
    remove_file(&mut files, "a");
    assert_eq!(files, vec![FileEntry::new("c", 3), FileEntry::new("b", 20), FileEntry::new("d", 4)]);
    remove_file(&mut files, "zz");
    assert_eq!(files.len(), 3);
    assert!(contains_file(&files, "d"));
    assert!(!contains_file(&files, "a"));
    assert!(!contains_file(&Vec::new(), "a"));
    assert_eq!(copy_listing(&files), files);
}

#[test]
fn validity_asks_for_distinct_names() {
    let twice = vec![FileEntry::new("a", 1), FileEntry::new("b", 2), FileEntry::new("a", 3)];
    let once = vec![FileEntry::new("a", 1), FileEntry::new("b", 2)];
    assert!(!listing_is_distinct(&twice));
    assert!(listing_is_distinct(&once));
    assert!(listing_is_distinct(&Vec::new()));
    assert!(entries_are_distinct(&vec![dir("x", Vec::new()), dir("y", Vec::new())]));
    assert!(!entries_are_distinct(&vec![dir("x", Vec::new()), dir("y", Vec::new()), dir("x", Vec::new())]));

    assert!(Volume::new(Some(once.clone()), vec![dir("x", once.clone())]).is_valid());
    assert!(Volume::new(None, Vec::new()).is_valid());
    assert!(!Volume::new(Some(twice.clone()), Vec::new()).is_valid());
    assert!(!Volume::new(None, vec![dir("x", twice.clone())]).is_valid());
    assert!(!Volume::new(None, vec![dir("x", once.clone()), dir("x", Vec::new())]).is_valid());
    assert!(Volume::new(Some(vec![FileEntry::new("metadata.json", 1)]), Vec::new()).is_valid());
    assert!(!Volume::new(None, vec![dir("x", vec![FileEntry::new("metadata.json", 1)])]).is_valid());
}

#[test]
fn operations_keep_the_image_valid() {
    let mgr = manager();
    let mut vol = Volume::new(
        Some(vec![FileEntry::new("CURRENT", 1), FileEntry::new("metadata.json", 9)]),
        vec![dir("dmpool_backup_old", vec![FileEntry::new("CURRENT", 5)])],
    );
    assert!(vol.is_valid());
    for hour in 0..5 {
        mgr.backup(&mut vol, Timestamp::new(1_735_689_600 + hour * 3600, 0)).unwrap();
        assert!(vol.is_valid());
    }
    assert_eq!(vol.backups.len(), 3);
    mgr.restore(&mut vol, "dmpool_backup_20250101_040000", Timestamp::new(1_735_800_000, 0))
        .unwrap();
    assert!(vol.is_valid());
    assert_eq!(vol.live, Some(vec![FileEntry::new("CURRENT", 1)]));
    mgr.delete_backup(&mut vol, "dmpool_backup_20250101_030000").unwrap();
    assert!(vol.is_valid());
    assert_eq!(manager().cleanup_old_backups(&mut vol), 0);
    assert_eq!(BackupManager::new("/s".to_string(), "/b".to_string(), 1).cleanup_old_backups(&mut vol), 1);
    assert!(vol.is_valid());
}

#[test]
fn snapshot_takes_the_given_name_and_does_not_trim() {
    let mgr = BackupManager::new("/s".to_string(), "/b".to_string(), 0);
    let mut vol = Volume::new(Some(vec![FileEntry::new("CURRENT", 8)]), Vec::new());
    let now = Timestamp::new(1_735_689_600, 77);
    let record = mgr.snapshot(&mut vol, "dmpool_backup_by_hand", now).unwrap();
    assert_eq!(
        record,
        BackupMetadata {
            backup_name: "dmpool_backup_by_hand".to_string(),
            created_at: now,
            store_path: "/s".to_string(),
            backup_path: "/b/dmpool_backup_by_hand".to_string(),
            size_bytes: 8,
            version: "0.1.0".to_string(),
        }
    );
    assert_eq!(vol.backups.len(), 1);
    assert_eq!(vol.journal.len(), 3);
    assert_eq!(mgr.list_backups(&vol), vec![record]);
}

#[test]
fn records_load_from_a_sidecar_that_names_its_directory() {
    let record = BackupMetadata {
        backup_name: "dmpool_backup_x".to_string(),
        created_at: Timestamp::new(5, 0),
        store_path: "/elsewhere".to_string(),
        backup_path: "/moved/dmpool_backup_x".to_string(),
        size_bytes: 123,
        version: "0.0.9".to_string(),
    };
    let mut entry = dir("dmpool_backup_x", vec![FileEntry::new("CURRENT", 1)]);
    entry.sidecar = Sidecar::Present(record.clone());
    assert_eq!(load_record(&entry, "/s", "/b"), Some(record.clone()));
    entry.name = "dmpool_backup_y".to_string();
    assert_eq!(load_record(&entry, "/s", "/b"), None);
    entry.sidecar = Sidecar::Unreadable;
    assert_eq!(load_record(&entry, "/s", "/b"), None);
    entry.sidecar = Sidecar::Missing;
    assert_eq!(load_record(&entry, "/s", "/b").unwrap().size_bytes, 1);
    assert_eq!(read_catalog(&vec![entry], "/s", "/b").len(), 1);
}

#[test]
fn errors_describe_themselves() {
    assert_eq!(
        BackupError::NotFound { subject: "dmpool_backup_1".to_string() }.message(),
        "Not found: dmpool_backup_1"
    );
    assert_eq!(
        BackupError::Io { path: "/b/x/CURRENT".to_string(), cause: "disk full".to_string() }
            .message(),
        "File system step failed at /b/x/CURRENT: disk full"
    );
    assert_eq!(
        BackupError::InvalidBackup { name: "dmpool_backup_1".to_string() }.message(),
        "Invalid backup, missing CURRENT file: dmpool_backup_1"
    );
    assert_eq!(
        BackupError::Serialization { name: "dmpool_backup_1".to_string() }.message(),
        "Unreadable metadata of backup: dmpool_backup_1"
    );
}

#[test]
fn journal_grows_and_is_never_rewritten() {
    let mgr = manager();
    let mut vol = Volume::new(Some(vec![FileEntry::new("CURRENT", 8)]), Vec::new());
    mgr.backup(&mut vol, Timestamp::new(1_735_689_600, 0)).unwrap();
    let first: Vec<Step> = vol.journal.clone();
    mgr.delete_backup(&mut vol, "dmpool_backup_20250101_000000").unwrap();
    assert_eq!(vol.journal[..first.len()].to_vec(), first);
    assert_eq!(
        vol.journal.last().unwrap().action,
        FsAction::RemoveBackup { backup: "dmpool_backup_20250101_000000".to_string() }
    );
    let before = vol.clone();
    assert!(mgr.list_backups(&vol).is_empty());
    assert_eq!(mgr.get_stats(&vol).count, 0);
    assert_eq!(vol, before);
}
