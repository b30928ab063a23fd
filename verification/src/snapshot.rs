//! Taking a snapshot of the live data: naming it, creating its directory,
//! copying the data files, measuring them and writing the record.

use vstd::prelude::*;
use crate::backup::{record_result, BackupManager, ManagerModel};
use crate::catalog::{BACKUP_PREFIX, SAFETY_PREFIX};
use crate::files::{data_files, listing_size, measured_size};
use crate::record::{
    BackupError, BackupInfo, BackupMetadata, ErrorModel, MetadataModel, SOFTWARE_VERSION,
};
use crate::text::{child_path, concat_str, join_child};
use crate::time::{stamp, stamp_of, Timestamp};
use crate::volume::{
    copy_steps, entry_with_files, entry_with_sidecar, find_entry, lemma_find_entry,
    lemma_with_dir_find, with_dir, ActionModel, EntryModel, StepModel, Volume, VolumeModel,
};

verus! {

/// Cause reported where a backup's name is taken by an entry that is no
/// directory.
pub const NOT_A_DIRECTORY: &'static str = "an entry of that name exists and is not a directory";

/// What a [`BackupInfo`] stands for.
pub struct InfoModel {
    pub path: Seq<char>,
    pub metadata: MetadataModel,
}

impl View for BackupInfo {
    type V = InfoModel;

    open spec fn view(&self) -> InfoModel {
        InfoModel { path: self.path@, metadata: self.metadata@ }
    }
}

/// The model of a taken backup or of the error in its place.
pub open spec fn info_result(r: Result<BackupInfo, BackupError>) -> Result<InfoModel, ErrorModel> {
    match r {
        Ok(info) => Ok(info@),
        Err(e) => Err(e@),
    }
}

/// Name of the backup taken at `now`.
pub open spec fn backup_name_at(now: Timestamp) -> Seq<char> {
    BACKUP_PREFIX@ + stamp_of(now)
}

/// Name of the safety snapshot taken at `now`.
pub open spec fn safety_name_at(now: Timestamp) -> Seq<char> {
    SAFETY_PREFIX@ + stamp_of(now)
}

/// An entry of that name exists and is no directory, so that no directory
/// of that name can be created.
pub open spec fn collides(entries: Seq<EntryModel>, name: Seq<char>) -> bool {
    match find_entry(entries, name) {
        Some(i) => !entries[i].is_dir,
        None => false,
    }
}

/// The journal entry for the creation of a backup's directory.
pub open spec fn created_step(name: Seq<char>) -> StepModel {
    StepModel { action: ActionModel::CreateBackupDir { backup: name }, required: true }
}

/// The journal entry for the writing of a record.
pub open spec fn sidecar_step(name: Seq<char>, metadata: MetadataModel) -> StepModel {
    StepModel { action: ActionModel::WriteSidecar { backup: name, metadata }, required: true }
}

impl ManagerModel {
    /// The record of a snapshot named `name`, taken at `now`, whose directory
    /// holds `files` once the copy is done.
    pub open spec fn new_record(
        self,
        name: Seq<char>,
        now: Timestamp,
        size_bytes: u64,
    ) -> MetadataModel {
        MetadataModel {
            backup_name: name,
            created_at: now,
            store_path: self.store_path,
            backup_path: child_path(self.backup_dir, name),
            size_bytes,
            version: SOFTWARE_VERSION@,
        }
    }

    /// What a snapshot named `name`, taken at `now`, returns, and the image
    /// that it leaves.
    ///
    /// It fails with `Io`, and changes nothing, where the name is taken by an
    /// entry that is no directory. Else the directory is created; it then
    /// fails with `NotFound` where nothing lies at the live data path. Else
    /// every data file is copied in, the directory's files are measured, and
    /// the record is written.
    pub open spec fn after_snapshot(self, v: VolumeModel, name: Seq<char>, now: Timestamp) -> (
        Result<MetadataModel, ErrorModel>,
        VolumeModel,
    ) {
        if collides(v.backups, name) {
            (
                Err(
                    ErrorModel::Io {
                        path: child_path(self.backup_dir, name),
                        cause: NOT_A_DIRECTORY@,
                    },
                ),
                v,
            )
        } else {
            let dirs = with_dir(v.backups, name, now);
            match v.live {
                None => (
                    Err(ErrorModel::NotFound { subject: self.store_path }),
                    VolumeModel {
                        live: v.live,
                        backups: dirs,
                        journal: v.journal.push(created_step(name)),
                    },
                ),
                Some(live) => {
                    let at = find_entry(dirs, name).unwrap();
                    let filled = entry_with_files(dirs[at], live);
                    let record = self.new_record(name, now, measured_size(filled.files));
                    (
                        Ok(record),
                        VolumeModel {
                            live: v.live,
                            backups: dirs.update(at, entry_with_sidecar(filled, record)),
                            journal: v.journal.push(created_step(name)) + copy_steps(
                                name,
                                data_files(live),
                            ) + seq![sidecar_step(name, record)],
                        },
                    )
                },
            }
        }
    }

    /// What a backup at `now` returns, and the image that it leaves: a
    /// snapshot under the backup prefix, followed by a retention pass whose
    /// steps are not required.
    pub open spec fn after_backup(self, v: VolumeModel, now: Timestamp) -> (
        Result<InfoModel, ErrorModel>,
        VolumeModel,
    ) {
        let name = backup_name_at(now);
        let (taken, snap) = self.after_snapshot(v, name, now);
        match taken {
            Ok(record) => (
                Ok(InfoModel { path: child_path(self.backup_dir, name), metadata: record }),
                self.after_trim(snap, false),
            ),
            Err(e) => (Err(e), snap),
        }
    }
}

/// The name of a backup with that stamp.
pub fn backup_name(stamp: &str) -> (name: String)
    ensures
        name@ == BACKUP_PREFIX@ + stamp@,
{
    concat_str(BACKUP_PREFIX, stamp)
}

/// The name of a safety snapshot with that stamp.
pub fn safety_name(stamp: &str) -> (name: String)
    ensures
        name@ == SAFETY_PREFIX@ + stamp@,
{
    concat_str(SAFETY_PREFIX, stamp)
}

impl BackupManager {
    /// Takes a snapshot of the live data into the directory `name` under the
    /// backups root, dated `now`. No retention pass follows.
    pub fn snapshot(&self, vol: &mut Volume, name: &str, now: Timestamp) -> (out: Result<
        BackupMetadata,
        BackupError,
    >)
        ensures
            (record_result(out), final(vol)@) == self@.after_snapshot(old(vol)@, name@, now),
    {
        let ghost before = vol@;
        let ghost dirs = with_dir(before.backups, name@, now);
        match vol.find(name) {
            Some(i) => {
                if !vol.backups[i].is_dir {
                    return Err(
                        BackupError::Io {
                            path: join_child(self.backup_dir.as_str(), name),
                            cause: NOT_A_DIRECTORY.to_owned(),
                        },
                    );
                }
            },
            None => {},
        }
        vol.create_backup_dir(name, now);
        proof {
            lemma_with_dir_find(before.backups, name@, now);
            lemma_find_entry(dirs, name@);
        }
        let at: usize = match vol.find(name) {
            Some(i) => i,
            None => {
                return Err(BackupError::NotFound { subject: self.store_path.clone() });
            },
        };
        if vol.live.is_none() {
            return Err(BackupError::NotFound { subject: self.store_path.clone() });
        }
        vol.copy_into_backup(at);
        assert(vol.backups.len() == vol@.backups.len());
        let size_bytes: u64 = listing_size(&vol.backups[at].files);
        let record = BackupMetadata {
            backup_name: name.to_owned(),
            created_at: now,
            store_path: self.store_path.clone(),
            backup_path: join_child(self.backup_dir.as_str(), name),
            size_bytes,
            version: SOFTWARE_VERSION.to_owned(),
        };
        vol.write_sidecar(at, record.duplicate());
        proof {
            let live = before.live.unwrap();
            let filled = entry_with_files(dirs[at as int], live);
            let expected = self@.after_snapshot(before, name@, now).1;
            assert(vol@.backups =~= expected.backups);
            assert(vol@.journal =~= expected.journal);
        }
        Ok(record)
    }

    /// Takes a backup of the live data at `now`, and then trims the catalog
    /// to the configured number of backups.
    ///
    /// The backup is named by the backup prefix and the stamp of `now`. A
    /// retention step that fails does not fail the backup: those steps are
    /// journalled as not required.
    pub fn backup(&self, vol: &mut Volume, now: Timestamp) -> (out: Result<
        BackupInfo,
        BackupError,
    >)
        requires
            now.nameable(),
        ensures
            (info_result(out), final(vol)@) == self@.after_backup(old(vol)@, now),
    {
        let at: String = stamp(now);
        let name: String = backup_name(at.as_str());
        match self.snapshot(vol, name.as_str(), now) {
            Ok(metadata) => {
                let _ = self.trim(vol, false);
                Ok(BackupInfo { path: join_child(self.backup_dir.as_str(), name.as_str()), metadata })
            },
            Err(e) => Err(e),
        }
    }
}

} // verus!
