//! Restoring the live data from a backup: validation, the safety snapshot
//! of the current live data, and the replacement of the data files.

use vstd::prelude::*;
use crate::backup::{unit_result, BackupManager, ManagerModel};
use crate::files::{
    contains_file, copy_listing, has_file, placed, FileEntry, FileModel, SENTINEL_FILE,
};
use crate::record::{BackupError, ErrorModel};
use crate::snapshot::{safety_name, safety_name_at};
use crate::time::{stamp, Timestamp};
use crate::volume::{
    backup_files, clear_data_dir, clear_steps, restore_into, restore_steps, EntryModel, Step,
    Volume, VolumeModel,
};

verus! {

/// The listing of a data directory once it was emptied and the files were
/// copied into it.
pub open spec fn replaced_by(files: Seq<FileModel>) -> Seq<FileModel> {
    placed(Seq::empty(), files)
}

impl ManagerModel {
    /// Whether the backup of that name can be restored from: its record
    /// loads, and it holds the completeness sentinel.
    pub open spec fn restorable(self, entries: Seq<EntryModel>, name: Seq<char>) -> Result<
        (),
        ErrorModel,
    > {
        match self.lookup(entries, name) {
            Err(e) => Err(e),
            Ok(_) => if has_file(backup_files(entries, name), SENTINEL_FILE@) {
                Ok(())
            } else {
                Err(ErrorModel::InvalidBackup { name })
            },
        }
    }

    /// What a restore from the backup `name` into the data directory at
    /// `dir` returns, the image that it leaves, and the listing of that
    /// directory afterwards.
    ///
    /// It fails, and changes nothing, where the backup cannot be restored
    /// from. Else a safety snapshot of the live data is taken at `now`; where
    /// that fails, the restore fails with its error and the data directory is
    /// left alone. Else the data directory is emptied, or created where
    /// nothing lies at its path, and every file of the backup is copied in.
    pub open spec fn after_restore_to(
        self,
        v: VolumeModel,
        name: Seq<char>,
        now: Timestamp,
        dir: Seq<char>,
        target: Option<Seq<FileModel>>,
    ) -> (Result<(), ErrorModel>, VolumeModel, Option<Seq<FileModel>>) {
        match self.restorable(v.backups, name) {
            Err(e) => (Err(e), v, target),
            Ok(_) => {
                let (taken, snap) = self.after_snapshot(v, safety_name_at(now), now);
                match taken {
                    Err(e) => (Err(e), snap, target),
                    Ok(_) => {
                        let files = backup_files(snap.backups, name);
                        (
                            Ok(()),
                            VolumeModel {
                                live: snap.live,
                                backups: snap.backups,
                                journal: snap.journal + clear_steps(dir, target) + restore_steps(
                                    name,
                                    files,
                                    dir,
                                ),
                            },
                            Some(replaced_by(files)),
                        )
                    },
                }
            },
        }
    }

    /// What a restore from the backup `name` into the live data directory
    /// returns, and the image that it leaves.
    pub open spec fn after_restore(self, v: VolumeModel, name: Seq<char>, now: Timestamp) -> (
        Result<(), ErrorModel>,
        VolumeModel,
    ) {
        let (done, w, listing) = self.after_restore_to(v, name, now, self.store_path, v.live);
        (done, VolumeModel { live: listing, backups: w.backups, journal: w.journal })
    }
}

/// Journals the replacement of a data directory's files by those of a
/// backup, and gives the directory the listing that it has afterwards.
fn replace_data(
    listing: &mut Option<Vec<FileEntry>>,
    dir: &str,
    backup: &str,
    files: &Vec<FileEntry>,
    journal: &mut Vec<Step>,
)
    ensures
        final(listing).deep_view() == Some(replaced_by(files.deep_view())),
        final(journal).deep_view() == old(journal).deep_view() + clear_steps(
            dir@,
            old(listing).deep_view(),
        ) + restore_steps(backup@, files.deep_view(), dir@),
{
    clear_data_dir(listing, dir, journal);
    match listing {
        Some(into) => {
            restore_into(into, dir, backup, files, journal);
        },
        None => {},
    }
}

impl BackupManager {
    /// Checks that the backup of that name can be restored from.
    pub fn validate_backup(&self, vol: &Volume, backup_name: &str) -> (out: Result<
        (),
        BackupError,
    >)
        ensures
            unit_result(out) == self@.restorable(vol@.backups, backup_name@),
    {
        match self.get_backup(vol, backup_name) {
            Ok(_) => {},
            Err(e) => {
                return Err(e);
            },
        }
        let sound: bool = match vol.find(backup_name) {
            Some(i) => contains_file(&vol.backups[i].files, SENTINEL_FILE),
            None => false,
        };
        if sound {
            Ok(())
        } else {
            Err(BackupError::InvalidBackup { name: backup_name.to_owned() })
        }
    }

    /// Validates the backup, takes the safety snapshot, and hands out the
    /// files to restore.
    fn prepare_restore(&self, vol: &mut Volume, backup_name: &str, now: Timestamp) -> (out: Result<
        Vec<FileEntry>,
        BackupError,
    >)
        requires
            now.nameable(),
        ensures
            match out {
                Ok(files) => self@.restorable(old(vol)@.backups, backup_name@).is_ok()
                    && self@.after_snapshot(old(vol)@, safety_name_at(now), now).0.is_ok()
                    && final(vol)@ == self@.after_snapshot(old(vol)@, safety_name_at(now), now).1
                    && files.deep_view() == backup_files(final(vol)@.backups, backup_name@),
                Err(e) => if self@.restorable(old(vol)@.backups, backup_name@).is_ok() {
                    self@.after_snapshot(old(vol)@, safety_name_at(now), now) == (
                        Err::<crate::record::MetadataModel, ErrorModel>(e@),
                        final(vol)@,
                    )
                } else {
                    self@.restorable(old(vol)@.backups, backup_name@) == Err::<(), ErrorModel>(e@)
                        && final(vol)@ == old(vol)@
                },
            },
    {
        match self.validate_backup(vol, backup_name) {
            Ok(_) => {},
            Err(e) => {
                return Err(e);
            },
        }
        let at: String = stamp(now);
        let name: String = safety_name(at.as_str());
        match self.snapshot(vol, name.as_str(), now) {
            Ok(_) => {},
            Err(e) => {
                return Err(e);
            },
        }
        let files: Vec<FileEntry> = match vol.find(backup_name) {
            Some(i) => copy_listing(&vol.backups[i].files),
            None => Vec::new(),
        };
        assert(files.deep_view() =~= backup_files(vol@.backups, backup_name@));
        Ok(files)
    }

    /// Restores the live data from the backup of that name.
    ///
    /// The backup is validated first; then a safety snapshot of the current
    /// live data is taken under the safety prefix and the stamp of `now`;
    /// then every regular file of the live data directory is removed and
    /// every file of the backup is copied in.
    pub fn restore(&self, vol: &mut Volume, backup_name: &str, now: Timestamp) -> (out: Result<
        (),
        BackupError,
    >)
        requires
            now.nameable(),
        ensures
            (unit_result(out), final(vol)@) == self@.after_restore(old(vol)@, backup_name@, now),
    {
        let ghost before = vol@;
        let files: Vec<FileEntry> = match self.prepare_restore(vol, backup_name, now) {
            Ok(files) => files,
            Err(e) => {
                return Err(e);
            },
        };
        let ghost snap = vol@;
        replace_data(
            &mut vol.live,
            self.store_path.as_str(),
            backup_name,
            &files,
            &mut vol.journal,
        );
        proof {
            let expected = self@.after_restore(before, backup_name@, now).1;
            assert(snap.live == before.live);
            assert(vol@.journal =~= expected.journal);
        }
        Ok(())
    }

    /// Restores from the backup of that name into the data directory at
    /// `target_path`, whose listing is `target`, in place of the live data
    /// directory. The safety snapshot is still one of the live data.
    pub fn restore_to(
        &self,
        vol: &mut Volume,
        backup_name: &str,
        now: Timestamp,
        target_path: &str,
        target: &mut Option<Vec<FileEntry>>,
    ) -> (out: Result<(), BackupError>)
        requires
            now.nameable(),
        ensures
            (unit_result(out), final(vol)@, final(target).deep_view()) == self@.after_restore_to(
                old(vol)@,
                backup_name@,
                now,
                target_path@,
                old(target).deep_view(),
            ),
    {
        let ghost before = vol@;
        let files: Vec<FileEntry> = match self.prepare_restore(vol, backup_name, now) {
            Ok(files) => files,
            Err(e) => {
                return Err(e);
            },
        };
        replace_data(target, target_path, backup_name, &files, &mut vol.journal);
        proof {
            let expected = self@.after_restore_to(
                before,
                backup_name@,
                now,
                target_path@,
                old(target).deep_view(),
            ).1;
            assert(vol@.journal =~= expected.journal);
        }
        Ok(())
    }
}

} // verus!
