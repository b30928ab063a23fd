use dmpool::backup::BackupManager;
use dmpool::files::FileEntry;
use dmpool::record::{BackupError, Sidecar};
use dmpool::scheduler::{Scheduler, SchedulerAction, SchedulerEvent};
use dmpool::time::Timestamp;
use dmpool::volume::{FsAction, RootEntry, Step, Volume};

fn at(year: i32, month: u32, day: u32, hour: u32, minute: u32, second: u32) -> Timestamp {
    let moment = chrono::NaiveDate::from_ymd_opt(year, month, day)
        .unwrap()
        .and_hms_opt(hour, minute, second)
        .unwrap()
        .and_utc();
    Timestamp::new(moment.timestamp(), 0)
}

fn manager(max_backups: usize) -> BackupManager {
    BackupManager::new("/data/store".to_string(), "/data/backups".to_string(), max_backups)
}

fn old_store() -> Vec<FileEntry> {
    vec![FileEntry::new("CURRENT", 16), FileEntry::new("000003.sst", 700)]
}

fn new_store() -> Vec<FileEntry> {
    vec![
        FileEntry::new("000003.sst", 700),
        FileEntry::new("CURRENT", 16),
        FileEntry::new("000004.sst", 900),
        FileEntry::new("LOCK", 0),
    ]
}

fn step(action: FsAction) -> Step {
    Step { action, required: true }
}

fn volume_with_one_backup() -> (BackupManager, Volume, String) {
    let mgr = manager(5);
    let mut vol = Volume::new(Some(old_store()), Vec::new());
    let info = mgr.backup(&mut vol, at(2025, 5, 1, 8, 0, 0)).unwrap();
    vol.live = Some(new_store());
    vol.journal.clear();
    (mgr, vol, info.metadata.backup_name)
}

#[test]
fn restore_replaces_the_live_files_by_those_of_the_backup() {
    let (mgr, mut vol, name) = volume_with_one_backup();
    assert_eq!(mgr.restore(&mut vol, &name, at(2025, 5, 2, 9, 30, 15)), Ok(()));
    assert_eq!(vol.live, Some(old_store()));
}

#[test]
fn restore_takes_a_safety_snapshot_first() {
    let (mgr, mut vol, name) = volume_with_one_backup();
    let now = at(2025, 5, 2, 9, 30, 15);
    mgr.restore(&mut vol, &name, now).unwrap();
    let safety = vol.backups.iter().find(|e| e.name == "pre_restore_20250502_093015").unwrap();
    assert!(safety.is_dir);
    assert_eq!(safety.files, new_store());
    match &safety.sidecar {
        Sidecar::Present(m) => {
            assert_eq!(m.backup_name, "pre_restore_20250502_093015");
            assert_eq!(m.created_at, now);
            assert_eq!(m.size_bytes, 700 + 16 + 900);
            assert_eq!(m.backup_path, "/data/backups/pre_restore_20250502_093015");
        }
        other => panic!("expected a record, got {:?}", other),
    }
    assert_eq!(mgr.list_backups(&vol).len(), 1);
    assert_eq!(mgr.get_backup(&vol, "pre_restore_20250502_093015").unwrap().size_bytes, 1616);
}

#[test]
fn restore_journals_snapshot_then_removals_then_copies() {
    let (mgr, mut vol, name) = volume_with_one_backup();
    mgr.restore(&mut vol, &name, at(2025, 5, 2, 9, 30, 15)).unwrap();
    let safety = "pre_restore_20250502_093015".to_string();
    let dir = "/data/store".to_string();
    let record = match &vol.backups[1].sidecar {
        Sidecar::Present(m) => m.clone(),
        other => panic!("expected a record, got {:?}", other),
    };
    let copy_in = |file: &str| {
        step(FsAction::CopyIntoBackup { backup: safety.clone(), file: file.to_string() })
    };
    let remove =
        |file: &str| step(FsAction::RemoveDataFile { dir: dir.clone(), file: file.to_string() });
    let copy_back = |file: &str| {
        step(FsAction::RestoreFile { backup: name.clone(), file: file.to_string(), dir: dir.clone() })
    };
    assert_eq!(
        vol.journal,
        vec![
            step(FsAction::CreateBackupDir { backup: safety.clone() }),
            copy_in("000003.sst"),
            copy_in("CURRENT"),
            copy_in("000004.sst"),
            copy_in("LOCK"),
            step(FsAction::WriteSidecar { backup: safety.clone(), metadata: record }),
            remove("000003.sst"),
            remove("CURRENT"),
            remove("000004.sst"),
            remove("LOCK"),
            copy_back("CURRENT"),
            copy_back("000003.sst"),
        ]
    );
}

#[test]
fn safety_snapshots_are_not_reclaimed_by_retention() {
    let (_, mut vol, name) = volume_with_one_backup();
    let mgr = manager(1);
    mgr.restore(&mut vol, &name, at(2025, 5, 2, 9, 30, 15)).unwrap();
    mgr.restore(&mut vol, &name, at(2025, 5, 3, 9, 30, 15)).unwrap();
    mgr.backup(&mut vol, at(2025, 5, 4, 0, 0, 0)).unwrap();
    assert_eq!(mgr.cleanup_old_backups(&mut vol), 0);
    let left: Vec<String> = vol.backups.iter().map(|e| e.name.clone()).collect();
    assert_eq!(
        left,
        vec![
            "pre_restore_20250502_093015".to_string(),
            "pre_restore_20250503_093015".to_string(),
            "dmpool_backup_20250504_000000".to_string(),
        ]
    );
}

#[test]
fn restore_then_backup_gives_the_files_of_the_backup() {
    let (mgr, mut vol, name) = volume_with_one_backup();
    mgr.restore(&mut vol, &name, at(2025, 5, 2, 9, 30, 15)).unwrap();
    let fresh = mgr.backup(&mut vol, at(2025, 5, 2, 10, 0, 0)).unwrap();
    let restored_from = vol.backups.iter().find(|e| e.name == name).unwrap();
    let taken = vol.backups.iter().find(|e| e.name == fresh.metadata.backup_name).unwrap();
    assert_eq!(taken.files, restored_from.files);
    assert_eq!(taken.files, old_store());
    assert_eq!(fresh.metadata.size_bytes, 716);
    assert_eq!(mgr.verify(&vol, &fresh.metadata.backup_name), Ok(true));
}

#[test]
fn restore_of_an_unknown_backup_is_not_found_and_changes_nothing() {
    let (mgr, mut vol, _) = volume_with_one_backup();
    assert_eq!(
        mgr.restore(&mut vol, "dmpool_backup_20200101_000000", at(2025, 5, 2, 9, 30, 15)),
        Err(BackupError::NotFound { subject: "dmpool_backup_20200101_000000".to_string() })
    );
    assert!(vol.journal.is_empty());
    assert_eq!(vol.live, Some(new_store()));
    assert_eq!(vol.backups.len(), 1);
}

#[test]
fn restore_without_the_sentinel_is_an_invalid_backup() {
    let mgr = manager(5);
    let broken = RootEntry {
        name: "dmpool_backup_20250101_000000".to_string(),
        is_dir: true,
        modified: at(2025, 1, 1, 0, 0, 0),
        files: vec![FileEntry::new("000003.sst", 700)],
        sidecar: Sidecar::Missing,
    };
    let mut vol = Volume::new(Some(new_store()), vec![broken]);
    assert_eq!(
        mgr.validate_backup(&vol, "dmpool_backup_20250101_000000"),
        Err(BackupError::InvalidBackup { name: "dmpool_backup_20250101_000000".to_string() })
    );
    assert_eq!(
        mgr.restore(&mut vol, "dmpool_backup_20250101_000000", at(2025, 5, 2, 9, 30, 15)),
        Err(BackupError::InvalidBackup { name: "dmpool_backup_20250101_000000".to_string() })
    );
    assert!(vol.journal.is_empty());
    assert_eq!(vol.live, Some(new_store()));
}

#[test]
fn restore_needs_no_matching_size() {
    let (mgr, mut vol, name) = volume_with_one_backup();
    vol.backups[0].files[1].size = 1;
    assert_eq!(mgr.verify(&vol, &name), Ok(false));
    assert_eq!(mgr.validate_backup(&vol, &name), Ok(()));
    assert_eq!(mgr.restore(&mut vol, &name, at(2025, 5, 2, 9, 30, 15)), Ok(()));
    assert_eq!(
        vol.live,
        Some(vec![FileEntry::new("CURRENT", 16), FileEntry::new("000003.sst", 1)])
    );
}

#[test]
fn restore_with_an_unreadable_sidecar_is_a_serialization_error() {
    let (mgr, mut vol, name) = volume_with_one_backup();
    vol.backups[0].sidecar = Sidecar::Unreadable;
    assert_eq!(
        mgr.restore(&mut vol, &name, at(2025, 5, 2, 9, 30, 15)),
        Err(BackupError::Serialization { name: name.clone() })
    );
    assert!(vol.journal.is_empty());
}

#[test]
fn restore_without_live_data_fails_at_the_safety_snapshot() {
    let (mgr, mut vol, name) = volume_with_one_backup();
    vol.live = None;
    assert_eq!(
        mgr.restore(&mut vol, &name, at(2025, 5, 2, 9, 30, 15)),
        Err(BackupError::NotFound { subject: "/data/store".to_string() })
    );
    assert_eq!(vol.live, None);
    assert_eq!(
        vol.journal,
        vec![step(FsAction::CreateBackupDir { backup: "pre_restore_20250502_093015".to_string() })]
    );
}

#[test]
fn restore_to_another_directory_leaves_the_live_data_alone() {
    let (mgr, mut vol, name) = volume_with_one_backup();
    let mut target = Some(vec![FileEntry::new("stale", 3)]);
    let done = mgr.restore_to(&mut vol, &name, at(2025, 5, 2, 9, 30, 15), "/srv/copy", &mut target);
    assert_eq!(done, Ok(()));
    assert_eq!(target, Some(old_store()));
    assert_eq!(vol.live, Some(new_store()));
    let tail: Vec<Step> = vol.journal[6..].to_vec();
    assert_eq!(
        tail,
        vec![
            step(FsAction::RemoveDataFile { dir: "/srv/copy".to_string(), file: "stale".to_string() }),
            step(FsAction::RestoreFile {
                backup: name.clone(),
                file: "CURRENT".to_string(),
                dir: "/srv/copy".to_string(),
            }),
            step(FsAction::RestoreFile {
                backup: name.clone(),
                file: "000003.sst".to_string(),
                dir: "/srv/copy".to_string(),
            }),
        ]
    );
}

#[test]
fn restore_to_a_missing_directory_creates_it() {
    let (mgr, mut vol, name) = volume_with_one_backup();
    let mut target = None;
    let done = mgr.restore_to(&mut vol, &name, at(2025, 5, 2, 9, 30, 15), "/srv/new", &mut target);
    assert_eq!(done, Ok(()));
    assert_eq!(target, Some(old_store()));
    assert_eq!(vol.journal[6], step(FsAction::CreateDataDir { dir: "/srv/new".to_string() }));
    assert_eq!(vol.journal.len(), 9);
}

#[test]
fn restore_to_fails_before_it_touches_the_target() {
    let (mgr, mut vol, _) = volume_with_one_backup();
    let mut target = Some(vec![FileEntry::new("stale", 3)]);
    let done = mgr.restore_to(
        &mut vol,
        "dmpool_backup_20200101_000000",
        at(2025, 5, 2, 9, 30, 15),
        "/srv/copy",
        &mut target,
    );
    assert_eq!(
        done,
        Err(BackupError::NotFound { subject: "dmpool_backup_20200101_000000".to_string() })
    );
    assert_eq!(target, Some(vec![FileEntry::new("stale", 3)]));
}

#[test]
fn scheduler_runs_a_backup_on_each_tick_and_survives_failures() {
    let mgr = manager(5);
    let mut s = mgr.start_scheduler(6);
    assert_eq!(s, Scheduler { period_secs: 21600, running: true });
    assert_eq!(s.step(SchedulerEvent::Tick), SchedulerAction::RunBackup);
    assert_eq!(s.step(SchedulerEvent::BackupFailed), SchedulerAction::LogFailureAndAwaitTick);
    assert!(s.running);
    assert_eq!(s.step(SchedulerEvent::Tick), SchedulerAction::RunBackup);
    assert_eq!(s.step(SchedulerEvent::BackupSucceeded), SchedulerAction::AwaitTick);
    assert_eq!(s.step(SchedulerEvent::StopRequested), SchedulerAction::Finish);
    assert!(!s.running);
    assert_eq!(s.step(SchedulerEvent::Tick), SchedulerAction::Finish);
    assert_eq!(s.period_secs, 21600);
}

#[test]
fn scheduler_period_is_the_interval_in_seconds() {
    let mgr = manager(5);
    assert_eq!(mgr.start_scheduler(1).period_secs, 3600);
    assert_eq!(mgr.start_scheduler(24).period_secs, 86400);
    assert_eq!(
        mgr.start_scheduler(5_124_095_576_030_431).period_secs,
        18_446_744_073_709_551_600
    );
}
