//! The image of the two directories that the backup operations work on, and
//! the journal of file-system steps that an operation asks for.
//!
//! A [`Volume`] is filled by a scan: the regular files of the live data
//! directory, and the entries of the backups root. An operation changes the
//! image to what the directories will hold once its steps are carried out, and
//! appends those steps to the journal in the order in which they are to run.

use vstd::prelude::*;
use crate::files::{
    copy_listing, data_files, placed, put_file, FileEntry, FileModel, SIDECAR_FILE,
};
use crate::record::{BackupMetadata, MetadataModel, Sidecar, SidecarModel};
use crate::text::str_eq;
use crate::time::Timestamp;

verus! {

/// One entry directly under the backups root.
#[derive(Debug, Clone, PartialEq, Eq)]
pub struct RootEntry {
    pub name: String,
    /// Whether the entry is a directory.
    pub is_dir: bool,
    /// When the entry was last modified.
    pub modified: Timestamp,
    /// The regular files directly under the directory, the sidecar left out.
    pub files: Vec<FileEntry>,
    pub sidecar: Sidecar,
}

/// What a [`RootEntry`] stands for.
pub struct EntryModel {
    pub name: Seq<char>,
    pub is_dir: bool,
    pub modified: Timestamp,
    pub files: Seq<FileModel>,
    pub sidecar: SidecarModel,
}

impl View for RootEntry {
    type V = EntryModel;

    open spec fn view(&self) -> EntryModel {
        EntryModel {
            name: self.name@,
            is_dir: self.is_dir,
            modified: self.modified,
            files: self.files.deep_view(),
            sidecar: self.sidecar@,
        }
    }
}

impl DeepView for RootEntry {
    type V = EntryModel;

    open spec fn deep_view(&self) -> EntryModel {
        self@
    }
}

/// One step on the file system. A backup is named by its directory's name
/// under the backups root; a data directory by its path.
#[derive(Debug, Clone, PartialEq, Eq)]
pub enum FsAction {
    /// Create the backup's directory, and what is missing above it.
    CreateBackupDir { backup: String },
    /// Copy a file of the live data directory into the backup, under its name.
    CopyIntoBackup { backup: String, file: String },
    /// Write the record into the backup's sidecar.
    WriteSidecar { backup: String, metadata: BackupMetadata },
    /// Remove the backup's directory with all that it holds.
    RemoveBackup { backup: String },
    /// Create the data directory, and what is missing above it.
    CreateDataDir { dir: String },
    /// Remove a regular file of the data directory.
    RemoveDataFile { dir: String, file: String },
    /// Copy a file of the backup into the data directory, under its name.
    RestoreFile { backup: String, file: String, dir: String },
}

/// What an [`FsAction`] stands for.
pub enum ActionModel {
    CreateBackupDir { backup: Seq<char> },
    CopyIntoBackup { backup: Seq<char>, file: Seq<char> },
    WriteSidecar { backup: Seq<char>, metadata: MetadataModel },
    RemoveBackup { backup: Seq<char> },
    CreateDataDir { dir: Seq<char> },
    RemoveDataFile { dir: Seq<char>, file: Seq<char> },
    RestoreFile { backup: Seq<char>, file: Seq<char>, dir: Seq<char> },
}

impl View for FsAction {
    type V = ActionModel;

    open spec fn view(&self) -> ActionModel {
        match self {
            FsAction::CreateBackupDir { backup } => ActionModel::CreateBackupDir {
                backup: backup@,
            },
            FsAction::CopyIntoBackup { backup, file } => ActionModel::CopyIntoBackup {
                backup: backup@,
                file: file@,
            },
            FsAction::WriteSidecar { backup, metadata } => ActionModel::WriteSidecar {
                backup: backup@,
                metadata: metadata@,
            },
            FsAction::RemoveBackup { backup } => ActionModel::RemoveBackup { backup: backup@ },
            FsAction::CreateDataDir { dir } => ActionModel::CreateDataDir { dir: dir@ },
            FsAction::RemoveDataFile { dir, file } => ActionModel::RemoveDataFile {
                dir: dir@,
                file: file@,
            },
            FsAction::RestoreFile { backup, file, dir } => ActionModel::RestoreFile {
                backup: backup@,
                file: file@,
                dir: dir@,
            },
        }
    }
}

/// A journal entry: the step, and whether the operation that asked for it
/// fails when the step does.
#[derive(Debug, Clone, PartialEq, Eq)]
pub struct Step {
    pub action: FsAction,
    pub required: bool,
}

/// What a [`Step`] stands for.
pub struct StepModel {
    pub action: ActionModel,
    pub required: bool,
}

impl View for Step {
    type V = StepModel;

    open spec fn view(&self) -> StepModel {
        StepModel { action: self.action@, required: self.required }
    }
}

impl DeepView for Step {
    type V = StepModel;

    open spec fn deep_view(&self) -> StepModel {
        self@
    }
}

/// The image of the live data directory and of the backups root, with the
/// journal of the steps asked for so far.
#[derive(Debug, Clone, PartialEq, Eq)]
pub struct Volume {
    /// The regular files directly under the live data path; `None` where
    /// nothing lies at that path.
    pub live: Option<Vec<FileEntry>>,
    /// The entries directly under the backups root.
    pub backups: Vec<RootEntry>,
    /// The steps that bring the directories to this image, in order.
    pub journal: Vec<Step>,
}

/// What a [`Volume`] stands for.
pub struct VolumeModel {
    pub live: Option<Seq<FileModel>>,
    pub backups: Seq<EntryModel>,
    pub journal: Seq<StepModel>,
}

impl View for Volume {
    type V = VolumeModel;

    open spec fn view(&self) -> VolumeModel {
        VolumeModel {
            live: self.live.deep_view(),
            backups: self.backups.deep_view(),
            journal: self.journal.deep_view(),
        }
    }
}

/// Index of the first entry of that name.
pub open spec fn find_entry(entries: Seq<EntryModel>, name: Seq<char>) -> Option<int>
    decreases entries.len(),
{
    if entries.len() == 0 {
        None
    } else {
        match find_entry(entries.drop_last(), name) {
            Some(i) => Some(i),
            None => if entries.last().name == name {
                Some(entries.len() - 1)
            } else {
                None
            },
        }
    }
}

/// A directory of that name lies under the backups root.
pub open spec fn has_dir(entries: Seq<EntryModel>, name: Seq<char>) -> bool {
    match find_entry(entries, name) {
        Some(i) => entries[i].is_dir,
        None => false,
    }
}

/// The files of the backup directory of that name.
pub open spec fn backup_files(entries: Seq<EntryModel>, name: Seq<char>) -> Seq<FileModel> {
    match find_entry(entries, name) {
        Some(i) => entries[i].files,
        None => Seq::empty(),
    }
}

/// No two entries bear the same name.
pub open spec fn entry_names_distinct(entries: Seq<EntryModel>) -> bool {
    forall|i: int, j: int|
        0 <= i < entries.len() && 0 <= j < entries.len() && i != j ==> #[trigger] entries[i].name
            != #[trigger] entries[j].name
}

/// The entries without those of that name; the others keep their order.
pub open spec fn without_entry(entries: Seq<EntryModel>, name: Seq<char>) -> Seq<EntryModel>
    decreases entries.len(),
{
    if entries.len() == 0 {
        entries
    } else if entries.last().name == name {
        without_entry(entries.drop_last(), name)
    } else {
        without_entry(entries.drop_last(), name).push(entries.last())
    }
}

/// An empty directory created at `now`.
pub open spec fn fresh_dir(name: Seq<char>, now: Timestamp) -> EntryModel {
    EntryModel {
        name,
        is_dir: true,
        modified: now,
        files: Seq::empty(),
        sidecar: SidecarModel::Missing,
    }
}

/// The entries once a directory of that name was asked for: a new, empty one
/// is added where no entry bears the name.
pub open spec fn with_dir(entries: Seq<EntryModel>, name: Seq<char>, now: Timestamp) -> Seq<
    EntryModel,
> {
    if find_entry(entries, name).is_some() {
        entries
    } else {
        entries.push(fresh_dir(name, now))
    }
}

/// The steps that copy the files into the backup, one step for each file.
pub open spec fn copy_steps(backup: Seq<char>, files: Seq<FileModel>) -> Seq<StepModel> {
    Seq::new(
        files.len(),
        |i: int|
            StepModel {
                action: ActionModel::CopyIntoBackup { backup, file: files[i].name },
                required: true,
            },
    )
}

/// The steps that empty a data directory: one removal for each of its files,
/// or its creation where nothing lies at its path.
pub open spec fn clear_steps(dir: Seq<char>, listing: Option<Seq<FileModel>>) -> Seq<StepModel> {
    match listing {
        Some(files) => Seq::new(
            files.len(),
            |i: int|
                StepModel {
                    action: ActionModel::RemoveDataFile { dir, file: files[i].name },
                    required: true,
                },
        ),
        None => seq![StepModel { action: ActionModel::CreateDataDir { dir }, required: true }],
    }
}

/// The steps that copy the backup's files into the data directory, one step
/// for each file.
pub open spec fn restore_steps(backup: Seq<char>, files: Seq<FileModel>, dir: Seq<char>) -> Seq<
    StepModel,
> {
    Seq::new(
        files.len(),
        |i: int|
            StepModel {
                action: ActionModel::RestoreFile { backup, file: files[i].name, dir },
                required: true,
            },
    )
}

/// The entry once the data files of `live` were copied into it.
pub open spec fn entry_with_files(entry: EntryModel, live: Seq<FileModel>) -> EntryModel {
    EntryModel { files: placed(entry.files, data_files(live)), ..entry }
}

/// The entry once the record was written into its sidecar.
pub open spec fn entry_with_sidecar(entry: EntryModel, metadata: MetadataModel) -> EntryModel {
    EntryModel { sidecar: SidecarModel::Present(metadata), ..entry }
}

/// Asking for a directory leaves an entry of its name, at the index that
/// the name had or else at the end.
pub proof fn lemma_with_dir_find(entries: Seq<EntryModel>, name: Seq<char>, now: Timestamp)
    ensures
        find_entry(with_dir(entries, name, now), name) == match find_entry(entries, name) {
            Some(i) => Some(i),
            None => Some(entries.len() as int),
        },
        find_entry(entries, name).is_none() ==> with_dir(entries, name, now)[entries.len() as int]
            == fresh_dir(name, now),
{
    lemma_find_entry(entries, name);
    if find_entry(entries, name).is_none() {
        let out = entries.push(fresh_dir(name, now));
        assert(out[entries.len() as int].name == name);
        assert forall|j: int| 0 <= j < entries.len() implies (#[trigger] out[j]).name != name by {
            assert(out[j] == entries[j]);
        }
        lemma_find_entry_at(out, name, entries.len() as int);
    }
}

/// `find_entry` gives the first index at which the name stands, and `None`
/// exactly if it stands nowhere.
pub proof fn lemma_find_entry(entries: Seq<EntryModel>, name: Seq<char>)
    ensures
        match find_entry(entries, name) {
            Some(i) => 0 <= i < entries.len() && entries[i].name == name && forall|j: int|
                0 <= j < i ==> (#[trigger] entries[j]).name != name,
            None => forall|j: int| 0 <= j < entries.len() ==> (#[trigger] entries[j]).name != name,
        },
    decreases entries.len(),
{
    if entries.len() > 0 {
        let init = entries.drop_last();
        lemma_find_entry(init, name);
        match find_entry(init, name) {
            Some(i) => {
                assert(init[i] == entries[i]);
                assert forall|j: int| 0 <= j < i implies (#[trigger] entries[j]).name != name by {
                    assert(init[j] == entries[j]);
                }
            },
            None => {
                assert forall|j: int| 0 <= j < init.len() implies (#[trigger] entries[j]).name
                    != name by {
                    assert(init[j] == entries[j]);
                }
            },
        }
    }
}

/// The first index at which a name stands is the one that `find_entry` gives.
pub proof fn lemma_find_entry_at(entries: Seq<EntryModel>, name: Seq<char>, i: int)
    requires
        0 <= i < entries.len(),
        entries[i].name == name,
        forall|j: int| 0 <= j < i ==> (#[trigger] entries[j]).name != name,
    ensures
        find_entry(entries, name) == Some(i),
{
    lemma_find_entry(entries, name);
}

/// An entry is in `without_entry(entries, name)` exactly if it is in
/// `entries` and bears another name.
pub proof fn lemma_without_entry_contains(entries: Seq<EntryModel>, name: Seq<char>, e: EntryModel)
    ensures
        without_entry(entries, name).contains(e) <==> (entries.contains(e) && e.name != name),
    decreases entries.len(),
{
    if entries.len() == 0 {
    } else {
        let init = entries.drop_last();
        lemma_without_entry_contains(init, name, e);
        let rest = without_entry(init, name);
        if entries.contains(e) {
            let i = choose|i: int| 0 <= i < entries.len() && entries[i] == e;
            if i < init.len() {
                assert(init[i] == e);
            }
        }
        if init.contains(e) {
            let i = choose|i: int| 0 <= i < init.len() && init[i] == e;
            assert(entries[i] == e);
        }
        if entries.last().name == name {
        } else {
            let out = rest.push(entries.last());
            if rest.contains(e) {
                let i = choose|i: int| 0 <= i < rest.len() && rest[i] == e;
                assert(out[i] == e);
            }
            if e == entries.last() {
                assert(out[rest.len() as int] == e);
                assert(entries[entries.len() - 1] == e);
            }
            if out.contains(e) {
                let i = choose|i: int| 0 <= i < out.len() && out[i] == e;
                if i < rest.len() {
                    assert(rest[i] == e);
                }
            }
        }
    }
}

/// After a removal no entry bears the removed name.
pub proof fn lemma_without_entry_absent(entries: Seq<EntryModel>, name: Seq<char>)
    ensures
        find_entry(without_entry(entries, name), name).is_none(),
{
    let out = without_entry(entries, name);
    lemma_find_entry(out, name);
    if let Some(i) = find_entry(out, name) {
        assert(out.contains(out[i]));
        lemma_without_entry_contains(entries, name, out[i]);
    }
}

/// Removing a name that no entry bears changes nothing.
pub proof fn lemma_without_entry_noop(entries: Seq<EntryModel>, name: Seq<char>)
    requires
        find_entry(entries, name).is_none(),
    ensures
        without_entry(entries, name) == entries,
    decreases entries.len(),
{
    if entries.len() > 0 {
        lemma_without_entry_noop(entries.drop_last(), name);
        assert(entries.drop_last().push(entries.last()) =~= entries);
    }
}

impl RootEntry {
    /// A second value of the same entry.
    pub fn duplicate(&self) -> (e: RootEntry)
        ensures
            e@ == self@,
    {
        let sidecar: Sidecar = match &self.sidecar {
            Sidecar::Missing => Sidecar::Missing,
            Sidecar::Unreadable => Sidecar::Unreadable,
            Sidecar::Present(m) => Sidecar::Present(m.duplicate()),
        };
        RootEntry {
            name: self.name.clone(),
            is_dir: self.is_dir,
            modified: self.modified,
            files: copy_listing(&self.files),
            sidecar,
        }
    }
}

impl Volume {
    /// The image that a scan found, with an empty journal.
    pub fn new(live: Option<Vec<FileEntry>>, backups: Vec<RootEntry>) -> (vol: Volume)
        ensures
            vol@.live == live.deep_view(),
            vol@.backups == backups.deep_view(),
            vol@.journal == Seq::<StepModel>::empty(),
    {
        let vol = Volume { live, backups, journal: Vec::new() };
        assert(vol.journal.deep_view() =~= Seq::<StepModel>::empty());
        vol
    }

    /// Index of the first entry of that name under the backups root.
    pub fn find(&self, name: &str) -> (at: Option<usize>)
        ensures
            match at {
                Some(i) => find_entry(self@.backups, name@) == Some(i as int) && i
                    < self.backups.len(),
                None => find_entry(self@.backups, name@).is_none(),
            },
    {
        let mut i: usize = 0;
        while i < self.backups.len()
            invariant
                i <= self.backups.len(),
                forall|j: int| 0 <= j < i ==> self.backups[j].name@ != name@,
            decreases self.backups.len() - i,
        {
            if str_eq(self.backups[i].name.as_str(), name) {
                proof {
                    let entries = self@.backups;
                    assert(entries[i as int].name == name@);
                    assert forall|j: int| 0 <= j < i implies (#[trigger] entries[j]).name
                        != name@ by {
                        assert(self.backups[j].name@ != name@);
                    }
                    lemma_find_entry_at(entries, name@, i as int);
                }
                return Some(i);
            }
            i += 1;
        }
        proof {
            let entries = self@.backups;
            lemma_find_entry(entries, name@);
            if let Some(k) = find_entry(entries, name@) {
                assert(self.backups[k].name@ != name@);
            }
        }
        None
    }

    /// Journals the creation of a backup directory. Where no entry bears the
    /// name, the image gains an empty directory.
    pub(crate) fn create_backup_dir(&mut self, name: &str, now: Timestamp)
        ensures
            final(self)@.live == old(self)@.live,
            final(self)@.backups == with_dir(old(self)@.backups, name@, now),
            final(self)@.journal == old(self)@.journal.push(
                StepModel { action: ActionModel::CreateBackupDir { backup: name@ }, required: true },
            ),
    {
        let ghost before = self@;
        let found: Option<usize> = self.find(name);
        if found.is_none() {
            let entry = RootEntry {
                name: name.to_owned(),
                is_dir: true,
                modified: now,
                files: Vec::new(),
                sidecar: Sidecar::Missing,
            };
            assert(entry@.files =~= Seq::<FileModel>::empty());
            self.backups.push(entry);
            assert(self@.backups =~= before.backups.push(fresh_dir(name@, now)));
        }
        self.journal.push(
            Step { action: FsAction::CreateBackupDir { backup: name.to_owned() }, required: true },
        );
        assert(self@.journal =~= before.journal.push(
            StepModel { action: ActionModel::CreateBackupDir { backup: name@ }, required: true },
        ));
    }

    /// Journals the removal of a backup directory and takes the entries of
    /// that name out of the image.
    pub(crate) fn remove_backup(&mut self, name: &str, required: bool)
        ensures
            final(self)@.live == old(self)@.live,
            final(self)@.backups == without_entry(old(self)@.backups, name@),
            final(self)@.journal == old(self)@.journal.push(
                StepModel { action: ActionModel::RemoveBackup { backup: name@ }, required },
            ),
    {
        let ghost before = self@;
        let mut kept: Vec<RootEntry> = Vec::new();
        let mut i: usize = 0;
        while i < self.backups.len()
            invariant
                i <= self.backups.len(),
                *self == *old(self),
                kept.deep_view() == without_entry(self.backups.deep_view().take(i as int), name@),
            decreases self.backups.len() - i,
        {
            proof {
                let all = self.backups.deep_view();
                assert(all.take(i + 1).drop_last() =~= all.take(i as int));
                assert(all.take(i + 1).last() == self.backups[i as int]@);
            }
            let ghost so_far = kept.deep_view();
            if !str_eq(self.backups[i].name.as_str(), name) {
                kept.push(self.backups[i].duplicate());
                assert(kept.deep_view() =~= so_far.push(self.backups[i as int]@));
            }
            i += 1;
        }
        assert(self.backups.deep_view().take(i as int) =~= self.backups.deep_view());
        self.backups = kept;
        self.journal.push(
            Step { action: FsAction::RemoveBackup { backup: name.to_owned() }, required },
        );
        assert(self@.journal =~= before.journal.push(
            StepModel { action: ActionModel::RemoveBackup { backup: name@ }, required },
        ));
    }

    /// Journals the copy of each data file of the live directory into the
    /// backup directory at `idx`, and writes the files into its listing.
    pub(crate) fn copy_into_backup(&mut self, idx: usize)
        requires
            idx < old(self).backups.len(),
            old(self).live.is_some(),
        ensures
            final(self)@.live == old(self)@.live,
            final(self)@.backups == old(self)@.backups.update(
                idx as int,
                entry_with_files(old(self)@.backups[idx as int], old(self)@.live.unwrap()),
            ),
            final(self)@.journal == old(self)@.journal + copy_steps(
                old(self)@.backups[idx as int].name,
                data_files(old(self)@.live.unwrap()),
            ),
    {
        let ghost before = self@;
        let ghost source = before.live.unwrap();
        let ghost target = before.backups[idx as int];
        let mut entry: RootEntry = self.backups.remove(idx);
        let ghost rest = self.backups@;
        assert(entry@ == target);
        match &self.live {
            Some(live) => {
                let mut i: usize = 0;
                assert(source.take(0) =~= Seq::<FileModel>::empty());
                assert(self.journal.deep_view() =~= before.journal + copy_steps(
                    target.name,
                    data_files(source.take(0)),
                ));
                while i < live.len()
                    invariant
                        i <= live.len(),
                        live.deep_view() == source,
                        self.backups@ == rest,
                        self.live == old(self).live,
                        entry@.name == target.name,
                        entry@.is_dir == target.is_dir,
                        entry@.modified == target.modified,
                        entry@.sidecar == target.sidecar,
                        entry@.files == placed(target.files, data_files(source.take(i as int))),
                        self.journal.deep_view() == before.journal + copy_steps(
                            target.name,
                            data_files(source.take(i as int)),
                        ),
                    decreases live.len() - i,
                {
                    let ghost done = data_files(source.take(i as int));
                    let ghost log = self.journal.deep_view();
                    proof {
                        assert(source.take(i + 1).drop_last() =~= source.take(i as int));
                        assert(source.take(i + 1).last() == live[i as int]@);
                    }
                    if !str_eq(live[i].name.as_str(), SIDECAR_FILE) {
                        put_file(&mut entry.files, live[i].duplicate());
                        self.journal.push(
                            Step {
                                action: FsAction::CopyIntoBackup {
                                    backup: entry.name.clone(),
                                    file: live[i].name.clone(),
                                },
                                required: true,
                            },
                        );
                        proof {
                            let f = live[i as int]@;
                            assert(data_files(source.take(i + 1)) == done.push(f));
                            assert(done.push(f).drop_last() =~= done);
                            assert(self.journal.deep_view() =~= log.push(
                                StepModel {
                                    action: ActionModel::CopyIntoBackup {
                                        backup: target.name,
                                        file: f.name,
                                    },
                                    required: true,
                                },
                            ));
                            assert(self.journal.deep_view() =~= before.journal + copy_steps(
                                target.name,
                                done.push(f),
                            ));
                        }
                    }
                    i += 1;
                }
                assert(source.take(i as int) =~= source);
            },
            None => {},
        }
        self.backups.insert(idx, entry);
        assert(self@.backups =~= before.backups.update(
            idx as int,
            entry_with_files(target, source),
        ));
    }

    /// Journals the writing of the record into the sidecar of the backup
    /// directory at `idx`, and puts the record into the image.
    pub(crate) fn write_sidecar(&mut self, idx: usize, metadata: BackupMetadata)
        requires
            idx < old(self).backups.len(),
        ensures
            final(self)@.live == old(self)@.live,
            final(self)@.backups == old(self)@.backups.update(
                idx as int,
                entry_with_sidecar(old(self)@.backups[idx as int], metadata@),
            ),
            final(self)@.journal == old(self)@.journal.push(
                StepModel {
                    action: ActionModel::WriteSidecar {
                        backup: old(self)@.backups[idx as int].name,
                        metadata: metadata@,
                    },
                    required: true,
                },
            ),
    {
        let ghost before = self@;
        let mut entry: RootEntry = self.backups.remove(idx);
        let step = Step {
            action: FsAction::WriteSidecar {
                backup: entry.name.clone(),
                metadata: metadata.duplicate(),
            },
            required: true,
        };
        entry.sidecar = Sidecar::Present(metadata);
        self.backups.insert(idx, entry);
        self.journal.push(step);
        assert(self@.backups =~= before.backups.update(
            idx as int,
            entry_with_sidecar(before.backups[idx as int], metadata@),
        ));
        assert(self@.journal =~= before.journal.push(step@));
    }
}

/// Journals the emptying of a data directory: the removal of each regular
/// file in it, or its creation where nothing lies at its path. The listing
/// is empty afterwards.
pub(crate) fn clear_data_dir(listing: &mut Option<Vec<FileEntry>>, dir: &str, journal: &mut Vec<Step>)
    ensures
        final(listing).deep_view() == Some(Seq::<FileModel>::empty()),
        final(journal).deep_view() == old(journal).deep_view() + clear_steps(
            dir@,
            old(listing).deep_view(),
        ),
{
    let ghost log = journal.deep_view();
    match listing {
        Some(files) => {
            let ghost all = files.deep_view();
            let mut i: usize = 0;
            assert(journal.deep_view() =~= log + clear_steps(dir@, Some(all.take(0))));
            while i < files.len()
                invariant
                    i <= files.len(),
                    files.deep_view() == all,
                    journal.deep_view() == log + clear_steps(dir@, Some(all.take(i as int))),
                decreases files.len() - i,
            {
                let ghost so_far = journal.deep_view();
                journal.push(
                    Step {
                        action: FsAction::RemoveDataFile {
                            dir: dir.to_owned(),
                            file: files[i].name.clone(),
                        },
                        required: true,
                    },
                );
                assert(journal.deep_view() =~= so_far.push(
                    StepModel {
                        action: ActionModel::RemoveDataFile { dir: dir@, file: all[i as int].name },
                        required: true,
                    },
                ));
                assert(journal.deep_view() =~= log + clear_steps(dir@, Some(all.take(i + 1))));
                i += 1;
            }
            assert(all.take(i as int) =~= all);
        },
        None => {
            journal.push(
                Step { action: FsAction::CreateDataDir { dir: dir.to_owned() }, required: true },
            );
            assert(journal.deep_view() =~= log + clear_steps(dir@, None));
        },
    }
    let empty: Vec<FileEntry> = Vec::new();
    assert(empty.deep_view() =~= Seq::<FileModel>::empty());
    *listing = Some(empty);
}

/// Journals the copy of each file of a backup into a data directory, and
/// writes the files into its listing.
pub(crate) fn restore_into(
    listing: &mut Vec<FileEntry>,
    dir: &str,
    backup: &str,
    files: &Vec<FileEntry>,
    journal: &mut Vec<Step>,
)
    ensures
        final(listing).deep_view() == placed(old(listing).deep_view(), files.deep_view()),
        final(journal).deep_view() == old(journal).deep_view() + restore_steps(
            backup@,
            files.deep_view(),
            dir@,
        ),
{
    let ghost log = journal.deep_view();
    let ghost base = listing.deep_view();
    let ghost all = files.deep_view();
    let mut i: usize = 0;
    assert(journal.deep_view() =~= log + restore_steps(backup@, all.take(0), dir@));
    while i < files.len()
        invariant
            i <= files.len(),
            files.deep_view() == all,
            listing.deep_view() == placed(base, all.take(i as int)),
            journal.deep_view() == log + restore_steps(backup@, all.take(i as int), dir@),
        decreases files.len() - i,
    {
        let ghost so_far = journal.deep_view();
        proof {
            assert(all.take(i + 1).drop_last() =~= all.take(i as int));
            assert(all.take(i + 1).last() == files[i as int]@);
        }
        put_file(listing, files[i].duplicate());
        journal.push(
            Step {
                action: FsAction::RestoreFile {
                    backup: backup.to_owned(),
                    file: files[i].name.clone(),
                    dir: dir.to_owned(),
                },
                required: true,
            },
        );
        assert(journal.deep_view() =~= so_far.push(
            StepModel {
                action: ActionModel::RestoreFile {
                    backup: backup@,
                    file: all[i as int].name,
                    dir: dir@,
                },
                required: true,
            },
        ));
        assert(journal.deep_view() =~= log + restore_steps(backup@, all.take(i + 1), dir@));
        i += 1;
    }
    assert(all.take(i as int) =~= all);
}

/// The entry of that name, where there is one.
pub open spec fn entry_of(entries: Seq<EntryModel>, name: Seq<char>) -> Option<EntryModel> {
    match find_entry(entries, name) {
        Some(i) => Some(entries[i]),
        None => None,
    }
}

/// The entry found under a name after one more entry was added.
pub proof fn lemma_entry_of_push(entries: Seq<EntryModel>, e: EntryModel, name: Seq<char>)
    ensures
        entry_of(entries.push(e), name) == match entry_of(entries, name) {
            Some(x) => Some(x),
            None => if e.name == name {
                Some(e)
            } else {
                None
            },
        },
{
    assert(entries.push(e).drop_last() =~= entries);
    lemma_find_entry(entries, name);
}

/// The entry found under a name after the entry at `at` was replaced by one
/// of the same name.
pub proof fn lemma_entry_of_update(
    entries: Seq<EntryModel>,
    at: int,
    e: EntryModel,
    name: Seq<char>,
)
    requires
        0 <= at < entries.len(),
        e.name == entries[at].name,
    ensures
        find_entry(entries.update(at, e), name) == find_entry(entries, name),
        entry_of(entries.update(at, e), name) == if find_entry(entries, name) == Some(at) {
            Some(e)
        } else {
            entry_of(entries, name)
        },
{
    let out = entries.update(at, e);
    lemma_find_entry(entries, name);
    lemma_find_entry(out, name);
    match find_entry(entries, name) {
        Some(i) => {
            assert(out[i].name == name);
            assert forall|j: int| 0 <= j < i implies (#[trigger] out[j]).name != name by {
                assert(entries[j].name != name);
            }
            lemma_find_entry_at(out, name, i);
        },
        None => {
            if let Some(k) = find_entry(out, name) {
                assert(entries[k].name != name);
            }
        },
    }
}

/// Removing the entries of one name leaves the entry found under another
/// name as it was.
pub proof fn lemma_without_entry_keeps(entries: Seq<EntryModel>, gone: Seq<char>, name: Seq<char>)
    requires
        gone != name,
    ensures
        entry_of(without_entry(entries, gone), name) == entry_of(entries, name),
    decreases entries.len(),
{
    if entries.len() > 0 {
        let init = entries.drop_last();
        lemma_without_entry_keeps(init, gone, name);
        assert(init.push(entries.last()) =~= entries);
        lemma_entry_of_push(init, entries.last(), name);
        if entries.last().name != gone {
            lemma_entry_of_push(without_entry(init, gone), entries.last(), name);
        }
    }
}

} // verus!
