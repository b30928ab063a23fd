use dmpool::backup::BackupManager;
use dmpool::files::FileEntry;
use dmpool::journal::StepFailure;
use dmpool::record::{BackupError, BackupMetadata, Sidecar};
use dmpool::time::{stamp, Timestamp};
use dmpool::volume::{FsAction, RootEntry, Step, Volume};

fn at(year: i32, month: u32, day: u32, hour: u32, minute: u32, second: u32) -> Timestamp {
    let moment = chrono::NaiveDate::from_ymd_opt(year, month, day)
        .unwrap()
        .and_hms_opt(hour, minute, second)
        .unwrap()
        .and_utc();
    Timestamp::new(moment.timestamp(), 0)
}

fn manager(max_backups: usize) -> BackupManager {
    BackupManager::new("/var/lib/pool/store".to_string(), "/var/backups/pool".to_string(), max_backups)
}

fn live_store() -> Vec<FileEntry> {
    vec![
        FileEntry::new("CURRENT", 16),
        FileEntry::new("MANIFEST-000005", 1200),
        FileEntry::new("000007.sst", 4096),
    ]
}

fn fresh_volume() -> Volume {
    Volume::new(Some(live_store()), Vec::new())
}

fn names(records: &Vec<BackupMetadata>) -> Vec<String> {
    records.iter().map(|r| r.backup_name.clone()).collect()
}

fn entry<'a>(vol: &'a Volume, name: &str) -> &'a RootEntry {
    vol.backups.iter().find(|e| e.name == name).unwrap()
}

fn legacy_dir(name: &str, modified: Timestamp, files: Vec<FileEntry>) -> RootEntry {
    RootEntry { name: name.to_string(), is_dir: true, modified, files, sidecar: Sidecar::Missing }
}

#[test]
fn test_metadata_serialization() {
    let metadata = BackupMetadata {
        backup_name: "test_backup".to_string(),
        created_at: at(2025, 1, 1, 0, 0, 0),
        store_path: "/tmp/store".to_string(),
        backup_path: "/tmp/backup".to_string(),
        size_bytes: 1024,
        version: "1.0.0".to_string(),
    };
    let mut fields = serde_json::Map::new();
    fields.insert(
        "backup_name".to_string(),
        serde_json::Value::String(metadata.backup_name.clone()),
    );
    fields.insert(
        "created_at".to_string(),
        serde_json::Value::String(
            chrono::DateTime::from_timestamp(metadata.created_at.secs, metadata.created_at.nanos)
                .unwrap()
                .to_rfc3339(),
        ),
    );
    fields.insert("store_path".to_string(), serde_json::Value::String(metadata.store_path.clone()));
    fields.insert(
        "backup_path".to_string(),
        serde_json::Value::String(metadata.backup_path.clone()),
    );
    fields.insert("size_bytes".to_string(), serde_json::Value::from(metadata.size_bytes));
    fields.insert("version".to_string(), serde_json::Value::String(metadata.version.clone()));
    let json = serde_json::to_string(&serde_json::Value::Object(fields)).unwrap();
    assert!(json.contains("test_backup"));

    let decoded: serde_json::Value = serde_json::from_str(&json).unwrap();
    let decoded = BackupMetadata {
        backup_name: decoded["backup_name"].as_str().unwrap().to_string(),
        created_at: metadata.created_at,
        store_path: decoded["store_path"].as_str().unwrap().to_string(),
        backup_path: decoded["backup_path"].as_str().unwrap().to_string(),
        size_bytes: decoded["size_bytes"].as_u64().unwrap(),
        version: decoded["version"].as_str().unwrap().to_string(),
    };
    assert_eq!(decoded.backup_name, "test_backup");
    assert_eq!(decoded, metadata);
}

#[test]
fn backup_is_named_by_prefix_and_utc_stamp() {
    let mgr = manager(5);
    let mut vol = fresh_volume();
    let info = mgr.backup(&mut vol, at(2025, 1, 1, 0, 0, 0)).unwrap();
    assert_eq!(info.metadata.backup_name, "dmpool_backup_20250101_000000");
    assert_eq!(info.path, "/var/backups/pool/dmpool_backup_20250101_000000");
    assert_eq!(info.metadata.backup_path, info.path);
    let later = mgr.backup(&mut vol, at(2031, 12, 9, 23, 59, 7)).unwrap();
    assert_eq!(later.metadata.backup_name, "dmpool_backup_20311209_235907");
}

#[test]
fn stamp_has_second_resolution() {
    let whole = at(2024, 2, 29, 6, 5, 4);
    let fraction = Timestamp::new(whole.secs, 999_999_999);
    assert_eq!(stamp(whole), "20240229_060504");
    assert_eq!(stamp(fraction), "20240229_060504");
    assert_eq!(stamp(Timestamp::new(0, 0)), "19700101_000000");
    assert_eq!(stamp(Timestamp::new(253_402_300_799, 0)), "99991231_235959");
    assert_eq!(stamp(Timestamp::new(-62_167_219_200, 0)), "00000101_000000");
}

#[test]
fn backup_records_what_it_copied() {
    let mgr = manager(5);
    let mut vol = fresh_volume();
    let now = Timestamp::new(at(2025, 3, 4, 5, 6, 7).secs, 250);
    let info = mgr.backup(&mut vol, now).unwrap();
    let m = &info.metadata;
    assert_eq!(m.created_at, now);
    assert_eq!(m.store_path, "/var/lib/pool/store");
    assert_eq!(m.size_bytes, 16 + 1200 + 4096);
    assert_eq!(m.version, "0.1.0");
    let dir = entry(&vol, "dmpool_backup_20250304_050607");
    assert!(dir.is_dir);
    assert_eq!(dir.modified, now);
    assert_eq!(dir.files, live_store());
    assert_eq!(dir.sidecar, Sidecar::Present(info.metadata.clone()));
    assert_eq!(vol.live, Some(live_store()));
}

#[test]
fn backup_journals_its_steps_in_order() {
    let mgr = manager(5);
    let mut vol = fresh_volume();
    let info = mgr.backup(&mut vol, at(2025, 1, 1, 0, 0, 0)).unwrap();
    let name = "dmpool_backup_20250101_000000".to_string();
    let copy = |file: &str| Step {
        action: FsAction::CopyIntoBackup { backup: name.clone(), file: file.to_string() },
        required: true,
    };
    assert_eq!(
        vol.journal,
        vec![
            Step { action: FsAction::CreateBackupDir { backup: name.clone() }, required: true },
            copy("CURRENT"),
            copy("MANIFEST-000005"),
            copy("000007.sst"),
            Step {
                action: FsAction::WriteSidecar { backup: name.clone(), metadata: info.metadata },
                required: true,
            },
        ]
    );
}

#[test]
fn backup_does_not_copy_a_file_with_the_sidecar_name() {
    let mgr = manager(5);
    let mut files = live_store();
    files.push(FileEntry::new("metadata.json", 300));
    let mut vol = Volume::new(Some(files), Vec::new());
    let info = mgr.backup(&mut vol, at(2025, 1, 1, 0, 0, 0)).unwrap();
    assert_eq!(info.metadata.size_bytes, 16 + 1200 + 4096);
    assert_eq!(entry(&vol, &info.metadata.backup_name).files, live_store());
    assert_eq!(mgr.verify(&vol, &info.metadata.backup_name), Ok(true));
}

#[test]
fn backup_of_a_missing_source_fails_with_not_found_after_creating_the_directory() {
    let mgr = manager(5);
    let mut vol = Volume::new(None, Vec::new());
    let out = mgr.backup(&mut vol, at(2025, 1, 1, 0, 0, 0));
    assert_eq!(out, Err(BackupError::NotFound { subject: "/var/lib/pool/store".to_string() }));
    assert_eq!(
        vol.journal,
        vec![Step {
            action: FsAction::CreateBackupDir { backup: "dmpool_backup_20250101_000000".to_string() },
            required: true,
        }]
    );
    let dir = entry(&vol, "dmpool_backup_20250101_000000");
    assert!(dir.files.is_empty());
    assert_eq!(dir.sidecar, Sidecar::Missing);
}

#[test]
fn backup_fails_with_io_where_a_file_has_its_name() {
    let mgr = manager(5);
    let blocker = RootEntry {
        name: "dmpool_backup_20250101_000000".to_string(),
        is_dir: false,
        modified: at(2024, 1, 1, 0, 0, 0),
        files: Vec::new(),
        sidecar: Sidecar::Missing,
    };
    let mut vol = Volume::new(Some(live_store()), vec![blocker]);
    let out = mgr.backup(&mut vol, at(2025, 1, 1, 0, 0, 0));
    match out {
        Err(BackupError::Io { path, cause }) => {
            assert_eq!(path, "/var/backups/pool/dmpool_backup_20250101_000000");
            assert!(!cause.is_empty());
        }
        other => panic!("expected an I/O error, got {:?}", other),
    }
    assert!(vol.journal.is_empty());
    assert_eq!(vol.backups.len(), 1);
}

#[test]
fn backups_within_one_second_share_a_directory() {
    let mgr = manager(5);
    let mut vol = fresh_volume();
    let first = Timestamp::new(at(2025, 1, 1, 0, 0, 0).secs, 1);
    let second = Timestamp::new(first.secs, 900);
    mgr.backup(&mut vol, first).unwrap();
    vol.live = Some(vec![FileEntry::new("CURRENT", 20), FileEntry::new("000009.sst", 5)]);
    let info = mgr.backup(&mut vol, second).unwrap();
    assert_eq!(vol.backups.len(), 1);
    assert_eq!(info.metadata.created_at, second);
    assert_eq!(info.metadata.size_bytes, 1200 + 4096 + 20 + 5);
    assert_eq!(mgr.list_backups(&vol).len(), 1);
}

#[test]
fn every_backup_is_listed_newest_first() {
    let mgr = manager(10);
    let mut vol = fresh_volume();
    let times: Vec<Timestamp> = (0..6).map(|h| at(2025, 6, 1, h, 30, 0)).collect();
    for t in &times {
        mgr.backup(&mut vol, *t).unwrap();
    }
    let listed = mgr.list_backups(&vol);
    assert_eq!(listed.len(), 6);
    for i in 0..6 {
        assert_eq!(listed[i].created_at, times[5 - i]);
    }
    for pair in listed.windows(2) {
        assert!(pair[1].created_at.is_before(&pair[0].created_at));
    }
}

#[test]
fn list_of_an_empty_root_is_empty() {
    let mgr = manager(3);
    let vol = Volume::new(Some(live_store()), Vec::new());
    assert_eq!(mgr.list_backups(&vol), Vec::<BackupMetadata>::new());
    let stats = mgr.get_stats(&vol);
    assert_eq!(stats.count, 0);
    assert_eq!(stats.total_size_bytes, 0);
    assert_eq!(stats.oldest, None);
    assert_eq!(stats.newest, None);
}

#[test]
fn list_leaves_out_what_is_no_backup() {
    let mgr = manager(3);
    let t = at(2025, 1, 1, 0, 0, 0);
    let mut plain_file = legacy_dir("dmpool_backup_20250101_000000", t, Vec::new());
    plain_file.is_dir = false;
    let mut unreadable = legacy_dir("dmpool_backup_20250102_000000", t, live_store());
    unreadable.sidecar = Sidecar::Unreadable;
    let vol = Volume::new(
        Some(live_store()),
        vec![
            legacy_dir("lost+found", t, Vec::new()),
            legacy_dir("pre_restore_20250101_000000", t, live_store()),
            legacy_dir("dmpool_backup", t, live_store()),
            plain_file,
            unreadable,
            legacy_dir("dmpool_backup_20250103_000000", t, live_store()),
        ],
    );
    assert_eq!(names(&mgr.list_backups(&vol)), vec!["dmpool_backup_20250103_000000".to_string()]);
}

#[test]
fn list_leaves_out_a_sidecar_that_names_another_backup() {
    let mgr = manager(3);
    let t = at(2025, 1, 1, 0, 0, 0);
    let mut vol = fresh_volume();
    let info = mgr.backup(&mut vol, t).unwrap();
    let mut moved = legacy_dir("dmpool_backup_20250105_000000", t, live_store());
    moved.sidecar = Sidecar::Present(info.metadata.clone());
    vol.backups.push(moved);
    assert_eq!(names(&mgr.list_backups(&vol)), vec![info.metadata.backup_name.clone()]);
    assert_eq!(
        mgr.get_backup(&vol, "dmpool_backup_20250105_000000"),
        Err(BackupError::Serialization { name: "dmpool_backup_20250105_000000".to_string() })
    );
}

#[test]
fn a_directory_without_sidecar_gets_a_derived_record() {
    let mgr = manager(3);
    let modified = at(2023, 7, 8, 9, 10, 11);
    let vol = Volume::new(
        None,
        vec![legacy_dir("dmpool_backup_20230708_091011", modified, live_store())],
    );
    let expected = BackupMetadata {
        backup_name: "dmpool_backup_20230708_091011".to_string(),
        created_at: modified,
        store_path: "/var/lib/pool/store".to_string(),
        backup_path: "/var/backups/pool/dmpool_backup_20230708_091011".to_string(),
        size_bytes: 5312,
        version: "unknown".to_string(),
    };
    assert_eq!(mgr.list_backups(&vol), vec![expected.clone()]);
    assert_eq!(mgr.get_backup(&vol, "dmpool_backup_20230708_091011"), Ok(expected));
    assert!(vol.journal.is_empty());
}

#[test]
fn records_of_one_instant_keep_the_order_of_the_entries() {
    let mgr = manager(9);
    let early = at(2025, 1, 1, 0, 0, 0);
    let late = at(2025, 1, 2, 0, 0, 0);
    let vol = Volume::new(
        None,
        vec![
            legacy_dir("dmpool_backup_b", early, Vec::new()),
            legacy_dir("dmpool_backup_d", late, Vec::new()),
            legacy_dir("dmpool_backup_a", early, Vec::new()),
            legacy_dir("dmpool_backup_c", late, Vec::new()),
        ],
    );
    assert_eq!(
        names(&mgr.list_backups(&vol)),
        vec![
            "dmpool_backup_d".to_string(),
            "dmpool_backup_c".to_string(),
            "dmpool_backup_b".to_string(),
            "dmpool_backup_a".to_string(),
        ]
    );
}

#[test]
fn created_at_orders_by_seconds_then_nanoseconds() {
    let mgr = manager(9);
    let vol = Volume::new(
        None,
        vec![
            legacy_dir("dmpool_backup_1", Timestamp::new(100, 5), Vec::new()),
            legacy_dir("dmpool_backup_2", Timestamp::new(100, 6), Vec::new()),
            legacy_dir("dmpool_backup_3", Timestamp::new(-7, 999), Vec::new()),
            legacy_dir("dmpool_backup_4", Timestamp::new(101, 0), Vec::new()),
        ],
    );
    assert_eq!(
        names(&mgr.list_backups(&vol)),
        vec![
            "dmpool_backup_4".to_string(),
            "dmpool_backup_2".to_string(),
            "dmpool_backup_1".to_string(),
            "dmpool_backup_3".to_string(),
        ]
    );
}

#[test]
fn get_backup_of_an_unknown_name_is_not_found() {
    let mgr = manager(3);
    let t = at(2025, 1, 1, 0, 0, 0);
    let mut not_a_dir = legacy_dir("dmpool_backup_20250101_000000", t, Vec::new());
    not_a_dir.is_dir = false;
    let vol = Volume::new(Some(live_store()), vec![not_a_dir]);
    assert_eq!(
        mgr.get_backup(&vol, "dmpool_backup_20240101_000000"),
        Err(BackupError::NotFound { subject: "dmpool_backup_20240101_000000".to_string() })
    );
    assert_eq!(
        mgr.get_backup(&vol, "dmpool_backup_20250101_000000"),
        Err(BackupError::NotFound { subject: "dmpool_backup_20250101_000000".to_string() })
    );
}

#[test]
fn retention_scenario_three_backups_keep_two() {
    let taking = manager(10);
    let mut vol = fresh_volume();
    let t0 = at(2025, 1, 1, 0, 0, 0);
    let t1 = at(2025, 1, 1, 1, 0, 0);
    let t2 = at(2025, 1, 1, 2, 0, 0);
    taking.backup(&mut vol, t0).unwrap();
    taking.backup(&mut vol, t1).unwrap();
    taking.backup(&mut vol, t2).unwrap();
    vol.journal.clear();

    let keeping = manager(2);
    assert_eq!(keeping.cleanup_old_backups(&mut vol), 1);
    let listed = keeping.list_backups(&vol);
    assert_eq!(listed.len(), 2);
    assert_eq!(listed[0].created_at, t2);
    assert_eq!(listed[0].backup_name, "dmpool_backup_20250101_020000");
    assert_eq!(listed[1].created_at, t1);
    assert_eq!(listed[1].backup_name, "dmpool_backup_20250101_010000");
    assert_eq!(
        vol.journal,
        vec![Step {
            action: FsAction::RemoveBackup { backup: "dmpool_backup_20250101_000000".to_string() },
            required: true,
        }]
    );
    assert_eq!(vol.backups.len(), 2);
}

#[test]
fn cleanup_removes_the_oldest_and_returns_their_number() {
    let taking = manager(100);
    let mut vol = fresh_volume();
    for day in 1..=7 {
        taking.backup(&mut vol, at(2025, 2, day, 12, 0, 0)).unwrap();
    }
    vol.journal.clear();
    let keeping = manager(3);
    assert_eq!(keeping.cleanup_old_backups(&mut vol), 4);
    assert_eq!(
        names(&keeping.list_backups(&vol)),
        vec![
            "dmpool_backup_20250207_120000".to_string(),
            "dmpool_backup_20250206_120000".to_string(),
            "dmpool_backup_20250205_120000".to_string(),
        ]
    );
    let removed: Vec<String> = vol
        .journal
        .iter()
        .map(|s| match &s.action {
            FsAction::RemoveBackup { backup } => backup.clone(),
            other => panic!("unexpected step {:?}", other),
        })
        .collect();
    assert_eq!(
        removed,
        vec![
            "dmpool_backup_20250204_120000".to_string(),
            "dmpool_backup_20250203_120000".to_string(),
            "dmpool_backup_20250202_120000".to_string(),
            "dmpool_backup_20250201_120000".to_string(),
        ]
    );
    assert_eq!(vol.backups.len(), 3);
}

#[test]
fn cleanup_within_the_limit_does_nothing() {
    let mgr = manager(3);
    let mut vol = fresh_volume();
    for day in 1..=3 {
        mgr.backup(&mut vol, at(2025, 2, day, 12, 0, 0)).unwrap();
    }
    vol.journal.clear();
    assert_eq!(mgr.cleanup_old_backups(&mut vol), 0);
    assert!(vol.journal.is_empty());
    assert_eq!(mgr.list_backups(&vol).len(), 3);
}

#[test]
fn cleanup_with_a_limit_of_zero_removes_every_backup() {
    let mut vol = fresh_volume();
    manager(5).backup(&mut vol, at(2025, 2, 1, 0, 0, 0)).unwrap();
    manager(5).backup(&mut vol, at(2025, 2, 2, 0, 0, 0)).unwrap();
    assert_eq!(manager(0).cleanup_old_backups(&mut vol), 2);
    assert!(vol.backups.is_empty());
}

#[test]
fn backup_trims_the_catalog_with_steps_that_are_not_required() {
    let mgr = manager(2);
    let mut vol = fresh_volume();
    mgr.backup(&mut vol, at(2025, 1, 1, 0, 0, 0)).unwrap();
    mgr.backup(&mut vol, at(2025, 1, 1, 1, 0, 0)).unwrap();
    vol.journal.clear();
    let info = mgr.backup(&mut vol, at(2025, 1, 1, 2, 0, 0)).unwrap();
    assert_eq!(info.metadata.backup_name, "dmpool_backup_20250101_020000");
    assert_eq!(
        names(&mgr.list_backups(&vol)),
        vec![
            "dmpool_backup_20250101_020000".to_string(),
            "dmpool_backup_20250101_010000".to_string(),
        ]
    );
    let last = vol.journal.last().unwrap();
    assert_eq!(
        *last,
        Step {
            action: FsAction::RemoveBackup { backup: "dmpool_backup_20250101_000000".to_string() },
            required: false,
        }
    );
    assert_eq!(vol.journal.iter().filter(|s| !s.required).count(), 1);
}

#[test]
fn verify_is_true_right_after_a_backup() {
    let mgr = manager(5);
    let mut vol = fresh_volume();
    let info = mgr.backup(&mut vol, at(2025, 1, 1, 0, 0, 0)).unwrap();
    assert_eq!(mgr.verify(&vol, &info.metadata.backup_name), Ok(true));
}

#[test]
fn verify_is_false_after_a_file_was_cut_short() {
    let mgr = manager(5);
    let mut vol = fresh_volume();
    let info = mgr.backup(&mut vol, at(2025, 1, 1, 0, 0, 0)).unwrap();
    vol.backups[0].files[2].size = 4095;
    assert_eq!(mgr.verify(&vol, &info.metadata.backup_name), Ok(false));
}

#[test]
fn verify_is_false_after_a_file_was_removed() {
    let mgr = manager(5);
    let mut vol = fresh_volume();
    let info = mgr.backup(&mut vol, at(2025, 1, 1, 0, 0, 0)).unwrap();
    let mut without_data = Volume::new(None, vec![vol.backups[0].duplicate()]);
    without_data.backups[0].files.remove(1);
    assert_eq!(mgr.verify(&without_data, &info.metadata.backup_name), Ok(false));
    vol.backups[0].files.remove(0);
    assert_eq!(mgr.verify(&vol, &info.metadata.backup_name), Ok(false));
}

#[test]
fn verify_is_false_without_the_sentinel() {
    let mgr = manager(5);
    let mut vol = Volume::new(Some(vec![FileEntry::new("000007.sst", 4096)]), Vec::new());
    let info = mgr.backup(&mut vol, at(2025, 1, 1, 0, 0, 0)).unwrap();
    assert_eq!(mgr.verify(&vol, &info.metadata.backup_name), Ok(false));
}

#[test]
fn verify_reports_what_it_cannot_load() {
    let mgr = manager(5);
    let t = at(2025, 1, 1, 0, 0, 0);
    let mut unreadable = legacy_dir("dmpool_backup_20250102_000000", t, live_store());
    unreadable.sidecar = Sidecar::Unreadable;
    let vol = Volume::new(None, vec![unreadable]);
    assert_eq!(
        mgr.verify(&vol, "dmpool_backup_20250102_000000"),
        Err(BackupError::Serialization { name: "dmpool_backup_20250102_000000".to_string() })
    );
    assert_eq!(
        mgr.verify(&vol, "dmpool_backup_20250103_000000"),
        Err(BackupError::NotFound { subject: "dmpool_backup_20250103_000000".to_string() })
    );
}

#[test]
fn recorded_size_stops_at_the_largest_u64() {
    let mgr = manager(5);
    let huge = vec![
        FileEntry::new("CURRENT", u64::MAX),
        FileEntry::new("000001.sst", 1),
        FileEntry::new("000002.sst", u64::MAX),
    ];
    let mut vol = Volume::new(Some(huge), Vec::new());
    let info = mgr.backup(&mut vol, at(2025, 1, 1, 0, 0, 0)).unwrap();
    assert_eq!(info.metadata.size_bytes, u64::MAX);
    assert_eq!(dmpool::files::listing_size(&vec![FileEntry::new("a", u64::MAX - 1), FileEntry::new("b", 1)]), u64::MAX);
    assert_eq!(dmpool::files::listing_size(&vec![FileEntry::new("a", 7), FileEntry::new("b", 35)]), 42);
    assert_eq!(dmpool::files::listing_size(&Vec::new()), 0);
}

#[test]
fn delete_then_get_is_not_found() {
    let mgr = manager(5);
    let mut vol = fresh_volume();
    let kept = mgr.backup(&mut vol, at(2025, 1, 1, 0, 0, 0)).unwrap();
    let doomed = mgr.backup(&mut vol, at(2025, 1, 2, 0, 0, 0)).unwrap();
    vol.journal.clear();
    assert_eq!(mgr.delete_backup(&mut vol, &doomed.metadata.backup_name), Ok(()));
    assert_eq!(
        mgr.get_backup(&vol, &doomed.metadata.backup_name),
        Err(BackupError::NotFound { subject: doomed.metadata.backup_name.clone() })
    );
    assert_eq!(mgr.get_backup(&vol, &kept.metadata.backup_name), Ok(kept.metadata.clone()));
    assert_eq!(
        vol.journal,
        vec![Step {
            action: FsAction::RemoveBackup { backup: doomed.metadata.backup_name.clone() },
            required: true,
        }]
    );
}

#[test]
fn delete_of_an_unknown_name_is_not_found_and_changes_nothing() {
    let mgr = manager(5);
    let mut vol = fresh_volume();
    mgr.backup(&mut vol, at(2025, 1, 1, 0, 0, 0)).unwrap();
    vol.journal.clear();
    assert_eq!(
        mgr.delete_backup(&mut vol, "dmpool_backup_19990101_000000"),
        Err(BackupError::NotFound { subject: "dmpool_backup_19990101_000000".to_string() })
    );
    assert!(vol.journal.is_empty());
    assert_eq!(vol.backups.len(), 1);
}

#[test]
fn stats_count_sum_and_span_the_catalog() {
    let mgr = manager(10);
    let mut vol = fresh_volume();
    let first = at(2025, 1, 1, 0, 0, 0);
    let last = at(2025, 1, 3, 0, 0, 0);
    mgr.backup(&mut vol, first).unwrap();
    vol.live = Some(vec![FileEntry::new("CURRENT", 10)]);
    mgr.backup(&mut vol, at(2025, 1, 2, 0, 0, 0)).unwrap();
    vol.live = Some(vec![FileEntry::new("CURRENT", u64::MAX)]);
    mgr.backup(&mut vol, last).unwrap();
    let stats = mgr.get_stats(&vol);
    assert_eq!(stats.count, 3);
    assert_eq!(stats.total_size_bytes, 5312u128 + 10 + u64::MAX as u128);
    assert_eq!(stats.oldest, Some(first));
    assert_eq!(stats.newest, Some(last));
}

#[test]
fn settle_fails_on_a_required_step_only() {
    let mgr = manager(1);
    let mut vol = fresh_volume();
    mgr.backup(&mut vol, at(2025, 1, 1, 0, 0, 0)).unwrap();
    vol.journal.clear();
    mgr.backup(&mut vol, at(2025, 1, 1, 1, 0, 0)).unwrap();
    let fail = |index: usize| Some(StepFailure { index, cause: "permission denied".to_string() });
    assert_eq!(mgr.settle(&vol.journal, None), Ok(()));
    assert_eq!(
        mgr.settle(&vol.journal, fail(1)),
        Err(BackupError::Io {
            path: "/var/backups/pool/dmpool_backup_20250101_010000/CURRENT".to_string(),
            cause: "permission denied".to_string(),
        })
    );
    assert_eq!(
        mgr.settle(&vol.journal, fail(4)),
        Err(BackupError::Io {
            path: "/var/backups/pool/dmpool_backup_20250101_010000/metadata.json".to_string(),
            cause: "permission denied".to_string(),
        })
    );
    assert!(!vol.journal[5].required);
    assert_eq!(mgr.settle(&vol.journal, fail(5)), Ok(()));
    assert_eq!(mgr.settle(&vol.journal, fail(6)), Ok(()));
}

#[test]
fn steps_name_their_paths() {
    let mgr = manager(1);
    let b = "dmpool_backup_20250101_000000".to_string();
    let copy = FsAction::CopyIntoBackup { backup: b.clone(), file: "CURRENT".to_string() };
    assert_eq!(mgr.step_source(&copy), Some("/var/lib/pool/store/CURRENT".to_string()));
    assert_eq!(mgr.step_target(&copy), "/var/backups/pool/dmpool_backup_20250101_000000/CURRENT");
    let back = FsAction::RestoreFile {
        backup: b.clone(),
        file: "CURRENT".to_string(),
        dir: "/srv/other".to_string(),
    };
    assert_eq!(
        mgr.step_source(&back),
        Some("/var/backups/pool/dmpool_backup_20250101_000000/CURRENT".to_string())
    );
    assert_eq!(mgr.step_target(&back), "/srv/other/CURRENT");
    let remove = FsAction::RemoveBackup { backup: b.clone() };
    assert_eq!(mgr.step_source(&remove), None);
    assert_eq!(mgr.step_target(&remove), "/var/backups/pool/dmpool_backup_20250101_000000");
    assert_eq!(mgr.step_target(&FsAction::CreateBackupDir { backup: b.clone() }), "/var/backups/pool/dmpool_backup_20250101_000000");
    assert_eq!(mgr.step_target(&FsAction::CreateDataDir { dir: "/srv/other".to_string() }), "/srv/other");
    assert_eq!(
        mgr.step_target(&FsAction::RemoveDataFile { dir: "/srv/other".to_string(), file: "LOCK".to_string() }),
        "/srv/other/LOCK"
    );
}
