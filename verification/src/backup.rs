//! The backup manager: snapshot creation, catalog discovery, retention,
//! structural verification and restore, decided on a [`Volume`].

use vstd::prelude::*;
use crate::catalog::{
    catalog, descending, load_record, loaded, read_catalog, recorded_total, records,
};
use crate::files::{contains_file, has_file, listing_size, measured_size, SENTINEL_FILE};
use crate::record::{BackupError, BackupMetadata, BackupStats, ErrorModel, MetadataModel};
use crate::time::Timestamp;
use crate::volume::{
    backup_files, find_entry, has_dir, without_entry, ActionModel, EntryModel, StepModel, Volume,
    VolumeModel,
};

verus! {

/// Holds the configuration of the backups of one data directory: the path
/// of the live data, the backups root, and how many backups are kept.
#[derive(Debug, Clone, PartialEq, Eq)]
pub struct BackupManager {
    pub store_path: String,
    pub backup_dir: String,
    pub max_backups: usize,
    pub compression_enabled: bool,
}

/// What a [`BackupManager`] stands for.
pub struct ManagerModel {
    pub store_path: Seq<char>,
    pub backup_dir: Seq<char>,
    pub max_backups: usize,
    pub compression_enabled: bool,
}

impl View for BackupManager {
    type V = ManagerModel;

    open spec fn view(&self) -> ManagerModel {
        ManagerModel {
            store_path: self.store_path@,
            backup_dir: self.backup_dir@,
            max_backups: self.max_backups,
            compression_enabled: self.compression_enabled,
        }
    }
}

/// The model of a loaded record or of the error in its place.
pub open spec fn record_result(r: Result<BackupMetadata, BackupError>) -> Result<
    MetadataModel,
    ErrorModel,
> {
    match r {
        Ok(m) => Ok(m@),
        Err(e) => Err(e@),
    }
}

/// The model of a verdict or of the error in its place.
pub open spec fn flag_result(r: Result<bool, BackupError>) -> Result<bool, ErrorModel> {
    match r {
        Ok(b) => Ok(b),
        Err(e) => Err(e@),
    }
}

/// The model of a completion or of the error in its place.
pub open spec fn unit_result(r: Result<(), BackupError>) -> Result<(), ErrorModel> {
    match r {
        Ok(_) => Ok(()),
        Err(e) => Err(e@),
    }
}

/// The entries once each of the records' directories was removed, in order.
pub open spec fn without_records(entries: Seq<EntryModel>, doomed: Seq<MetadataModel>) -> Seq<
    EntryModel,
>
    decreases doomed.len(),
{
    if doomed.len() == 0 {
        entries
    } else {
        without_entry(without_records(entries, doomed.drop_last()), doomed.last().backup_name)
    }
}

/// The steps that remove the records' directories, one step for each record.
pub open spec fn removal_steps(doomed: Seq<MetadataModel>, required: bool) -> Seq<StepModel> {
    Seq::new(
        doomed.len(),
        |i: int|
            StepModel {
                action: ActionModel::RemoveBackup { backup: doomed[i].backup_name },
                required,
            },
    )
}

impl ManagerModel {
    /// The catalog that this manager reads from the entries.
    pub open spec fn catalog_of(self, entries: Seq<EntryModel>) -> Seq<MetadataModel> {
        catalog(entries, self.store_path, self.backup_dir)
    }

    /// The record of the backup of that name, or why there is none: no
    /// directory of that name, or a sidecar that does not hold its record.
    pub open spec fn lookup(self, entries: Seq<EntryModel>, name: Seq<char>) -> Result<
        MetadataModel,
        ErrorModel,
    > {
        match find_entry(entries, name) {
            None => Err(ErrorModel::NotFound { subject: name }),
            Some(i) => if !entries[i].is_dir {
                Err(ErrorModel::NotFound { subject: name })
            } else {
                match loaded(entries[i], self.store_path, self.backup_dir) {
                    Some(m) => Ok(m),
                    None => Err(ErrorModel::Serialization { name }),
                }
            },
        }
    }

    /// Whether the backup of that name is structurally sound: it holds the
    /// completeness sentinel, and its files have the recorded size.
    pub open spec fn verdict(self, entries: Seq<EntryModel>, name: Seq<char>) -> Result<
        bool,
        ErrorModel,
    > {
        match self.lookup(entries, name) {
            Err(e) => Err(e),
            Ok(m) => Ok(
                has_file(backup_files(entries, name), SENTINEL_FILE@) && measured_size(
                    backup_files(entries, name),
                ) == m.size_bytes,
            ),
        }
    }

    /// The records that retention removes: those of the catalog at and
    /// behind the index `max_backups`.
    pub open spec fn excess(self, entries: Seq<EntryModel>) -> Seq<MetadataModel> {
        let c = self.catalog_of(entries);
        if c.len() > self.max_backups {
            c.skip(self.max_backups as int)
        } else {
            Seq::empty()
        }
    }

    /// The image after a retention pass.
    pub open spec fn after_trim(self, v: VolumeModel, required: bool) -> VolumeModel {
        let doomed = self.excess(v.backups);
        VolumeModel {
            live: v.live,
            backups: without_records(v.backups, doomed),
            journal: v.journal + removal_steps(doomed, required),
        }
    }

    /// The image after the removal of the backup of that name.
    pub open spec fn after_delete(self, v: VolumeModel, name: Seq<char>) -> VolumeModel {
        if has_dir(v.backups, name) {
            VolumeModel {
                live: v.live,
                backups: without_entry(v.backups, name),
                journal: v.journal.push(
                    StepModel {
                        action: ActionModel::RemoveBackup { backup: name },
                        required: true,
                    },
                ),
            }
        } else {
            v
        }
    }
}

impl BackupManager {
    /// A manager for the live data at `store_path` that keeps up to
    /// `max_backups` backups under `backup_dir`.
    pub fn new(store_path: String, backup_dir: String, max_backups: usize) -> (manager: Self)
        ensures
            manager@ == (ManagerModel {
                store_path: store_path@,
                backup_dir: backup_dir@,
                max_backups,
                compression_enabled: true,
            }),
    {
        BackupManager { store_path, backup_dir, max_backups, compression_enabled: true }
    }

    /// The records of all backups under the backups root, newest first. An
    /// entry that is no directory, lacks the backup prefix or has a sidecar
    /// that does not hold its record is left out.
    pub fn list_backups(&self, vol: &Volume) -> (out: Vec<BackupMetadata>)
        ensures
            out.deep_view() == self@.catalog_of(vol@.backups),
            descending(out.deep_view()),
            out.deep_view().to_multiset() == records(
                vol@.backups,
                self@.store_path,
                self@.backup_dir,
            ).to_multiset(),
    {
        read_catalog(&vol.backups, self.store_path.as_str(), self.backup_dir.as_str())
    }

    /// The record of the backup of that name.
    pub fn get_backup(&self, vol: &Volume, backup_name: &str) -> (out: Result<
        BackupMetadata,
        BackupError,
    >)
        ensures
            record_result(out) == self@.lookup(vol@.backups, backup_name@),
    {
        match vol.find(backup_name) {
            None => Err(BackupError::NotFound { subject: backup_name.to_owned() }),
            Some(i) => {
                if !vol.backups[i].is_dir {
                    return Err(BackupError::NotFound { subject: backup_name.to_owned() });
                }
                match load_record(
                    &vol.backups[i],
                    self.store_path.as_str(),
                    self.backup_dir.as_str(),
                ) {
                    Some(m) => Ok(m),
                    None => Err(BackupError::Serialization { name: backup_name.to_owned() }),
                }
            },
        }
    }

    /// Checks the structure of the backup of that name: `true` where it
    /// holds the completeness sentinel and its files have the recorded size.
    pub fn verify(&self, vol: &Volume, backup_name: &str) -> (out: Result<bool, BackupError>)
        ensures
            flag_result(out) == self@.verdict(vol@.backups, backup_name@),
    {
        let record: BackupMetadata = match self.get_backup(vol, backup_name) {
            Ok(m) => m,
            Err(e) => {
                return Err(e);
            },
        };
        let at: usize = match vol.find(backup_name) {
            Some(i) => i,
            None => {
                return Ok(false);
            },
        };
        if !contains_file(&vol.backups[at].files, SENTINEL_FILE) {
            return Ok(false);
        }
        let current_size: u64 = listing_size(&vol.backups[at].files);
        Ok(current_size == record.size_bytes)
    }

    /// Removes the backup of that name. Fails with `NotFound`, and leaves the
    /// image as it was, where no directory of that name exists.
    pub fn delete_backup(&self, vol: &mut Volume, backup_name: &str) -> (out: Result<
        (),
        BackupError,
    >)
        ensures
            final(vol)@ == self@.after_delete(old(vol)@, backup_name@),
            unit_result(out) == if has_dir(old(vol)@.backups, backup_name@) {
                Ok::<(), ErrorModel>(())
            } else {
                Err::<(), ErrorModel>(ErrorModel::NotFound { subject: backup_name@ })
            },
    {
        match vol.find(backup_name) {
            Some(i) => {
                if vol.backups[i].is_dir {
                    vol.remove_backup(backup_name, true);
                    Ok(())
                } else {
                    Err(BackupError::NotFound { subject: backup_name.to_owned() })
                }
            },
            None => Err(BackupError::NotFound { subject: backup_name.to_owned() }),
        }
    }

    /// One retention pass: removes the directory of every record behind the
    /// newest `max_backups`, oldest last, and says how many those were.
    pub(crate) fn trim(&self, vol: &mut Volume, required: bool) -> (removed: usize)
        ensures
            final(vol)@ == self@.after_trim(old(vol)@, required),
            removed == self@.excess(old(vol)@.backups).len(),
    {
        let ghost before = vol@;
        let ghost cat = self@.catalog_of(before.backups);
        let c: Vec<BackupMetadata> = read_catalog(
            &vol.backups,
            self.store_path.as_str(),
            self.backup_dir.as_str(),
        );
        if c.len() <= self.max_backups {
            proof {
                assert(vol@.journal =~= before.journal + removal_steps(
                    self@.excess(before.backups),
                    required,
                ));
            }
            return 0;
        }
        let ghost doomed = cat.skip(self.max_backups as int);
        let mut i: usize = self.max_backups;
        proof {
            assert(doomed.take(0) =~= Seq::<MetadataModel>::empty());
            assert(vol@.journal =~= before.journal + removal_steps(doomed.take(0), required));
        }
        while i < c.len()
            invariant
                self.max_backups <= i <= c.len(),
                c.deep_view() == cat,
                doomed == cat.skip(self.max_backups as int),
                vol@.live == before.live,
                vol@.backups == without_records(
                    before.backups,
                    doomed.take(i - self.max_backups),
                ),
                vol@.journal == before.journal + removal_steps(
                    doomed.take(i - self.max_backups),
                    required,
                ),
            decreases c.len() - i,
        {
            let ghost k = i - self.max_backups;
            let ghost log = vol@.journal;
            proof {
                assert(doomed.take(k + 1).drop_last() =~= doomed.take(k));
                assert(doomed.take(k + 1).last() == c[i as int]@);
            }
            vol.remove_backup(c[i].backup_name.as_str(), required);
            proof {
                assert(vol@.journal =~= before.journal + removal_steps(
                    doomed.take(k + 1),
                    required,
                ));
            }
            i += 1;
        }
        proof {
            assert(doomed.take(i - self.max_backups) =~= doomed);
        }
        c.len() - self.max_backups
    }

    /// Trims the catalog to the newest `max_backups` records: removes the
    /// directory of every record behind them and returns how many it removed,
    /// which is 0 where the catalog is within the limit.
    pub fn cleanup_old_backups(&self, vol: &mut Volume) -> (removed: usize)
        ensures
            final(vol)@ == self@.after_trim(old(vol)@, true),
            removed == self@.excess(old(vol)@.backups).len(),
            self@.catalog_of(old(vol)@.backups).len() <= self.max_backups ==> removed == 0
                && final(vol)@ == old(vol)@,
            self@.catalog_of(old(vol)@.backups).len() > self.max_backups ==> removed
                == self@.catalog_of(old(vol)@.backups).len() - self.max_backups,
    {
        let ghost before = vol@;
        let removed: usize = self.trim(vol, true);
        proof {
            if self@.catalog_of(before.backups).len() <= self.max_backups {
                assert(vol@.journal =~= before.journal);
            }
        }
        removed
    }

    /// Figures over the catalog: how many backups it lists, the sum of their
    /// recorded sizes, and when the oldest and the newest were created.
    pub fn get_stats(&self, vol: &Volume) -> (stats: BackupStats)
        ensures
            stats.count == self@.catalog_of(vol@.backups).len(),
            stats.total_size_bytes == recorded_total(self@.catalog_of(vol@.backups)),
            stats.count == 0 ==> stats.newest.is_none() && stats.oldest.is_none(),
            stats.count > 0 ==> stats.newest == Some(
                self@.catalog_of(vol@.backups).first().created_at,
            ) && stats.oldest == Some(self@.catalog_of(vol@.backups).last().created_at),
    {
        let c: Vec<BackupMetadata> = self.list_backups(vol);
        let ghost cat = c.deep_view();
        let mut total: u128 = 0;
        let mut i: usize = 0;
        while i < c.len()
            invariant
                i <= c.len(),
                c.deep_view() == cat,
                total == recorded_total(cat.take(i as int)),
                total <= i * 0xFFFF_FFFF_FFFF_FFFF,
            decreases c.len() - i,
        {
            proof {
                assert(cat.take(i + 1).drop_last() =~= cat.take(i as int));
                assert(cat.take(i + 1).last().size_bytes == c[i as int].size_bytes);
                assert((i + 1) * 0xFFFF_FFFF_FFFF_FFFF == i * 0xFFFF_FFFF_FFFF_FFFF
                    + 0xFFFF_FFFF_FFFF_FFFF) by (nonlinear_arith);
                assert(i * 0xFFFF_FFFF_FFFF_FFFF <= 0xFFFF_FFFF_FFFF_FFFF
                    * 0xFFFF_FFFF_FFFF_FFFF) by (nonlinear_arith)
                    requires
                        0 <= i <= 0xFFFF_FFFF_FFFF_FFFF,
                ;
            }
            total = total + c[i].size_bytes as u128;
            i += 1;
        }
        assert(cat.take(i as int) =~= cat);
        let newest: Option<Timestamp> = if c.len() > 0 {
            Some(c[0].created_at)
        } else {
            None
        };
        let oldest: Option<Timestamp> = if c.len() > 0 {
            Some(c[c.len() - 1].created_at)
        } else {
            None
        };
        BackupStats { count: c.len(), total_size_bytes: total, oldest, newest }
    }
}

} // verus!
