//! What the steps of a journal do to the directories, and why the image that
//! an operation leaves is the image that its journal brings about.

use vstd::prelude::*;
use crate::backup::{removal_steps, without_records, ManagerModel};
use crate::files::{
    data_files, lemma_without_file_contains, names_distinct, placed, with_file, without_file,
    FileModel, SIDECAR_FILE,
};
use crate::record::MetadataModel;
use crate::retention::{lemma_catalog_names_distinct, lemma_trim_progress};
use crate::snapshot::{backup_name_at, collides, created_step, safety_name_at, sidecar_step};
use crate::time::Timestamp;
use crate::validity::lemma_snapshot_valid;
use crate::volume::{
    backup_files, entry_names_distinct, clear_steps, copy_steps, entry_with_files, entry_with_sidecar, find_entry, has_dir,
    lemma_entry_of_update, lemma_find_entry, lemma_with_dir_find, restore_steps, with_dir,
    without_entry, ActionModel, EntryModel, StepModel, VolumeModel,
};

verus! {

/// The first file of that name.
pub open spec fn find_file(files: Seq<FileModel>, name: Seq<char>) -> Option<FileModel>
    decreases files.len(),
{
    if files.len() == 0 {
        None
    } else {
        match find_file(files.drop_last(), name) {
            Some(f) => Some(f),
            None => if files.last().name == name {
                Some(files.last())
            } else {
                None
            },
        }
    }
}

/// The entries once the file was written into the directory of that name.
pub open spec fn entry_put(entries: Seq<EntryModel>, backup: Seq<char>, file: FileModel) -> Seq<
    EntryModel,
> {
    match find_entry(entries, backup) {
        Some(i) => entries.update(
            i,
            EntryModel { files: with_file(entries[i].files, file), ..entries[i] },
        ),
        None => entries,
    }
}

/// The two directories hold the same in both images.
pub open spec fn same_dirs(a: VolumeModel, b: VolumeModel) -> bool {
    a.live == b.live && a.backups == b.backups
}

impl ManagerModel {
    /// The image of the directories once the step was carried out at `now`.
    /// A step on a data directory other than the live one leaves the image
    /// as it is, and so does a copy of a file that is not there.
    pub open spec fn carried_out(
        self,
        v: VolumeModel,
        action: ActionModel,
        now: Timestamp,
    ) -> VolumeModel {
        match action {
            ActionModel::CreateBackupDir { backup } => VolumeModel {
                backups: with_dir(v.backups, backup, now),
                ..v
            },
            ActionModel::CopyIntoBackup { backup, file } => match v.live {
                Some(live) => match find_file(live, file) {
                    Some(f) => VolumeModel { backups: entry_put(v.backups, backup, f), ..v },
                    None => v,
                },
                None => v,
            },
            ActionModel::WriteSidecar { backup, metadata } => match find_entry(v.backups, backup) {
                Some(i) => VolumeModel {
                    backups: v.backups.update(i, entry_with_sidecar(v.backups[i], metadata)),
                    ..v
                },
                None => v,
            },
            ActionModel::RemoveBackup { backup } => VolumeModel {
                backups: without_entry(v.backups, backup),
                ..v
            },
            ActionModel::CreateDataDir { dir } => if dir == self.store_path && v.live.is_none() {
                VolumeModel { live: Some(Seq::empty()), ..v }
            } else {
                v
            },
            ActionModel::RemoveDataFile { dir, file } => match v.live {
                Some(live) => if dir == self.store_path {
                    VolumeModel { live: Some(without_file(live, file)), ..v }
                } else {
                    v
                },
                None => v,
            },
            ActionModel::RestoreFile { backup, file, dir } => match v.live {
                Some(live) => match find_file(backup_files(v.backups, backup), file) {
                    Some(f) => if dir == self.store_path {
                        VolumeModel { live: Some(with_file(live, f)), ..v }
                    } else {
                        v
                    },
                    None => v,
                },
                None => v,
            },
        }
    }

    /// The image of the directories once the steps were carried out, in
    /// order, at `now`.
    pub open spec fn replayed(
        self,
        v: VolumeModel,
        steps: Seq<StepModel>,
        now: Timestamp,
    ) -> VolumeModel
        decreases steps.len(),
    {
        if steps.len() == 0 {
            v
        } else {
            self.carried_out(self.replayed(v, steps.drop_last(), now), steps.last().action, now)
        }
    }

    /// The image `w` follows from the image `v` by the steps that its
    /// journal holds beyond the journal of `v`.
    pub open spec fn explains(self, v: VolumeModel, w: VolumeModel, now: Timestamp) -> bool {
        &&& v.journal.len() <= w.journal.len()
        &&& w.journal.take(v.journal.len() as int) == v.journal
        &&& same_dirs(self.replayed(v, w.journal.skip(v.journal.len() as int), now), w)
    }
}

/// Where no two files share a name, the first file of a name is the only one.
pub proof fn lemma_find_file_at(files: Seq<FileModel>, at: int)
    requires
        names_distinct(files),
        0 <= at < files.len(),
    ensures
        find_file(files, files[at].name) == Some(files[at]),
    decreases files.len(),
{
    let init = files.drop_last();
    assert forall|i: int, j: int|
        0 <= i < init.len() && 0 <= j < init.len() && i != j implies (#[trigger] init[i]).name != (
        #[trigger] init[j]).name by {
        assert(files[i].name != files[j].name);
    }
    if at < init.len() {
        assert(init[at] == files[at]);
        lemma_find_file_at(init, at);
    } else {
        lemma_find_file_absent(init, files[at].name);
    }
}

/// Where no file bears a name, none is found under it.
pub proof fn lemma_find_file_absent(files: Seq<FileModel>, name: Seq<char>)
    requires
        forall|i: int| 0 <= i < files.len() ==> (#[trigger] files[i]).name != name,
    ensures
        find_file(files, name).is_none(),
    decreases files.len(),
{
    if files.len() > 0 {
        let init = files.drop_last();
        assert forall|i: int| 0 <= i < init.len() implies (#[trigger] init[i]).name != name by {
            assert(files[i].name != name);
        }
        lemma_find_file_absent(init, name);
        assert(files[files.len() - 1].name != name);
    }
}

/// Carrying out two runs of steps one after the other is carrying out their
/// concatenation.
pub proof fn lemma_replayed_concat(
    m: ManagerModel,
    v: VolumeModel,
    a: Seq<StepModel>,
    b: Seq<StepModel>,
    now: Timestamp,
)
    ensures
        m.replayed(v, a + b, now) == m.replayed(m.replayed(v, a, now), b, now),
    decreases b.len(),
{
    if b.len() == 0 {
        assert(a + b =~= a);
    } else {
        lemma_replayed_concat(m, v, a, b.drop_last(), now);
        assert((a + b).drop_last() =~= a + b.drop_last());
        assert((a + b).last() == b.last());
    }
}

/// Carrying out one step.
pub proof fn lemma_replayed_one(m: ManagerModel, v: VolumeModel, step: StepModel, now: Timestamp)
    ensures
        m.replayed(v, seq![step], now) == m.carried_out(v, step.action, now),
{
    assert(seq![step].drop_last() =~= Seq::<StepModel>::empty());
    assert(m.replayed(v, seq![step].drop_last(), now) == v);
}

/// The copy steps of a snapshot write the data files of the live directory
/// into the backup's directory.
proof fn lemma_replayed_copies(
    m: ManagerModel,
    v: VolumeModel,
    name: Seq<char>,
    k: int,
    now: Timestamp,
)
    requires
        v.live.is_some(),
        names_distinct(v.live.unwrap()),
        find_entry(v.backups, name).is_some(),
        0 <= k <= data_files(v.live.unwrap()).len(),
    ensures
        ({
            let at = find_entry(v.backups, name).unwrap();
            let data = data_files(v.live.unwrap());
            let out = m.replayed(v, copy_steps(name, data.take(k)), now);
            &&& out.live == v.live
            &&& out.journal == v.journal
            &&& out.backups == v.backups.update(
                at,
                EntryModel { files: placed(v.backups[at].files, data.take(k)), ..v.backups[at] },
            )
        }),
    decreases k,
{
    let at = find_entry(v.backups, name).unwrap();
    let live = v.live.unwrap();
    let data = data_files(live);
    lemma_find_entry(v.backups, name);
    if k == 0 {
        assert(data.take(0) =~= Seq::<FileModel>::empty());
        assert(copy_steps(name, data.take(0)) =~= Seq::<StepModel>::empty());
        assert(v.backups.update(at, v.backups[at]) =~= v.backups);
    } else {
        lemma_replayed_copies(m, v, name, k - 1, now);
        let steps = copy_steps(name, data.take(k));
        assert(steps.drop_last() =~= copy_steps(name, data.take(k - 1)));
        assert(steps.last().action == ActionModel::CopyIntoBackup {
            backup: name,
            file: data[k - 1].name,
        });
        let mid = m.replayed(v, copy_steps(name, data.take(k - 1)), now);
        // the file copied is the one that the live directory lists
        assert(data.contains(data[k - 1]));
        lemma_without_file_contains(live, SIDECAR_FILE@, data[k - 1]);
        let i = choose|i: int| 0 <= i < live.len() && live[i] == data[k - 1];
        lemma_find_file_at(live, i);
        lemma_entry_of_update(v.backups, at, mid.backups[at], name);
        assert(data.take(k).drop_last() =~= data.take(k - 1));
        assert(data.take(k).last() == data[k - 1]);
        assert(m.replayed(v, steps, now).backups =~= v.backups.update(
            at,
            EntryModel { files: placed(v.backups[at].files, data.take(k)), ..v.backups[at] },
        ));
    }
}

/// The removal steps of a retention pass remove the directories of the
/// records.
proof fn lemma_replayed_removals(
    m: ManagerModel,
    v: VolumeModel,
    doomed: Seq<MetadataModel>,
    required: bool,
    now: Timestamp,
)
    ensures
        m.replayed(v, removal_steps(doomed, required), now) == (VolumeModel {
            backups: without_records(v.backups, doomed),
            ..v
        }),
    decreases doomed.len(),
{
    let steps = removal_steps(doomed, required);
    if doomed.len() > 0 {
        lemma_replayed_removals(m, v, doomed.drop_last(), required, now);
        assert(steps.drop_last() =~= removal_steps(doomed.drop_last(), required));
    }
}

/// The removal steps of a restore leave the live directory without the
/// files that it listed first.
proof fn lemma_replayed_clearing(
    m: ManagerModel,
    v: VolumeModel,
    files: Seq<FileModel>,
    k: int,
    now: Timestamp,
)
    requires
        v.live.is_some(),
        0 <= k <= files.len(),
    ensures
        ({
            let out = m.replayed(v, clear_steps(m.store_path, Some(files)).take(k), now);
            &&& out.backups == v.backups
            &&& out.journal == v.journal
            &&& out.live.is_some()
            &&& forall|f: FileModel| #[trigger]
                out.live.unwrap().contains(f) ==> v.live.unwrap().contains(f) && forall|j: int|
                    0 <= j < k ==> (#[trigger] files[j]).name != f.name
        }),
    decreases k,
{
    let steps = clear_steps(m.store_path, Some(files));
    if k == 0 {
        assert(steps.take(0) =~= Seq::<StepModel>::empty());
    } else {
        lemma_replayed_clearing(m, v, files, k - 1, now);
        assert(steps.take(k).drop_last() =~= steps.take(k - 1));
        assert(steps.take(k).last().action == ActionModel::RemoveDataFile {
            dir: m.store_path,
            file: files[k - 1].name,
        });
        let mid = m.replayed(v, steps.take(k - 1), now);
        let out = m.replayed(v, steps.take(k), now);
        assert forall|f: FileModel| #[trigger] out.live.unwrap().contains(f) implies v.live.unwrap(
        ).contains(f) && forall|j: int| 0 <= j < k ==> (#[trigger] files[j]).name != f.name by {
            lemma_without_file_contains(mid.live.unwrap(), files[k - 1].name, f);
            assert(mid.live.unwrap().contains(f));
        }
    }
}

/// The copy steps of a restore write the files of the backup into the live
/// directory.
proof fn lemma_replayed_restoring(
    m: ManagerModel,
    v: VolumeModel,
    name: Seq<char>,
    k: int,
    now: Timestamp,
)
    requires
        v.live.is_some(),
        names_distinct(backup_files(v.backups, name)),
        0 <= k <= backup_files(v.backups, name).len(),
    ensures
        ({
            let files = backup_files(v.backups, name);
            let out = m.replayed(v, restore_steps(name, files.take(k), m.store_path), now);
            &&& out.backups == v.backups
            &&& out.journal == v.journal
            &&& out.live == Some(placed(v.live.unwrap(), files.take(k)))
        }),
    decreases k,
{
    let files = backup_files(v.backups, name);
    if k == 0 {
        assert(files.take(0) =~= Seq::<FileModel>::empty());
        assert(restore_steps(name, files.take(0), m.store_path) =~= Seq::<StepModel>::empty());
    } else {
        lemma_replayed_restoring(m, v, name, k - 1, now);
        let steps = restore_steps(name, files.take(k), m.store_path);
        assert(steps.drop_last() =~= restore_steps(name, files.take(k - 1), m.store_path));
        assert(steps.last().action == ActionModel::RestoreFile {
            backup: name,
            file: files[k - 1].name,
            dir: m.store_path,
        });
        lemma_find_file_at(files, k - 1);
        assert(files.take(k).drop_last() =~= files.take(k - 1));
        assert(files.take(k).last() == files[k - 1]);
    }
}

/// The image that a snapshot leaves is the image that its steps bring about.
pub proof fn lemma_snapshot_explained(
    m: ManagerModel,
    v: VolumeModel,
    name: Seq<char>,
    now: Timestamp,
)
    requires
        v.valid(),
    ensures
        m.explains(v, m.after_snapshot(v, name, now).1, now),
{
    let w = m.after_snapshot(v, name, now).1;
    let n = v.journal.len() as int;
    if collides(v.backups, name) {
        assert(w.journal.skip(n) =~= Seq::<StepModel>::empty());
        assert(w.journal.take(n) =~= v.journal);
    } else {
        let dirs = with_dir(v.backups, name, now);
        let made = VolumeModel { backups: dirs, ..v };
        lemma_replayed_one(m, v, created_step(name), now);
        lemma_with_dir_find(v.backups, name, now);
        lemma_find_entry(dirs, name);
        match v.live {
            None => {
                assert(w.journal.skip(n) =~= seq![created_step(name)]);
                assert(w.journal.take(n) =~= v.journal);
            },
            Some(live) => {
                let at = find_entry(dirs, name).unwrap();
                let data = data_files(live);
                let copies = copy_steps(name, data);
                let record = m.after_snapshot(v, name, now).0->Ok_0;
                let last = seq![sidecar_step(name, record)];
                assert(w.journal.skip(n) =~= seq![created_step(name)] + copies + last);
                assert(w.journal.take(n) =~= v.journal);
                lemma_replayed_concat(m, v, seq![created_step(name)] + copies, last, now);
                lemma_replayed_concat(m, v, seq![created_step(name)], copies, now);
                lemma_replayed_copies(m, made, name, data.len() as int, now);
                assert(data.take(data.len() as int) =~= data);
                let copied = m.replayed(made, copies, now);
                lemma_replayed_one(m, copied, sidecar_step(name, record), now);
                lemma_entry_of_update(dirs, at, entry_with_files(dirs[at], live), name);
                assert(m.replayed(v, w.journal.skip(n), now).backups =~= w.backups);
            },
        }
    }
}

/// The image that a retention pass leaves is the image that its steps bring
/// about.
pub proof fn lemma_trim_explained(
    m: ManagerModel,
    v: VolumeModel,
    required: bool,
    now: Timestamp,
)
    ensures
        m.explains(v, m.after_trim(v, required), now),
{
    let w = m.after_trim(v, required);
    let n = v.journal.len() as int;
    let steps = removal_steps(m.excess(v.backups), required);
    assert(w.journal.skip(n) =~= steps);
    assert(w.journal.take(n) =~= v.journal);
    lemma_replayed_removals(m, v, m.excess(v.backups), required, now);
}

/// One image explained by a second, and that by a third: the first explains
/// the third.
pub proof fn lemma_explains_chain(
    m: ManagerModel,
    a: VolumeModel,
    b: VolumeModel,
    c: VolumeModel,
    now: Timestamp,
)
    requires
        m.explains(a, b, now),
        m.explains(b, c, now),
    ensures
        m.explains(a, c, now),
{
    let n = a.journal.len() as int;
    let k = b.journal.len() as int;
    let first = b.journal.skip(n);
    let second = c.journal.skip(k);
    assert(c.journal.skip(n) =~= first + second) by {
        assert forall|i: int| 0 <= i < c.journal.len() - n implies c.journal.skip(n)[i] == (first
            + second)[i] by {
            if i < k - n {
                assert(c.journal.take(k)[n + i] == b.journal[n + i]);
            }
        }
    }
    assert(c.journal.take(n) =~= a.journal) by {
        assert forall|i: int| 0 <= i < n implies c.journal.take(n)[i] == a.journal[i] by {
            assert(c.journal.take(k)[i] == b.journal[i]);
            assert(b.journal.take(n)[i] == a.journal[i]);
        }
    }
    lemma_replayed_concat(m, a, first, second, now);
    lemma_replayed_same_dirs(m, m.replayed(a, first, now), b, second, now);
}

/// What steps bring about depends on what the directories hold, not on the
/// journal so far.
pub proof fn lemma_replayed_same_dirs(
    m: ManagerModel,
    a: VolumeModel,
    b: VolumeModel,
    steps: Seq<StepModel>,
    now: Timestamp,
)
    requires
        same_dirs(a, b),
    ensures
        same_dirs(m.replayed(a, steps, now), m.replayed(b, steps, now)),
    decreases steps.len(),
{
    if steps.len() > 0 {
        lemma_replayed_same_dirs(m, a, b, steps.drop_last(), now);
    }
}

/// The image that a backup leaves is the image that its journal brings
/// about: carrying out, on valid directories, the steps that the backup
/// added to the journal gives the directories of the image.
pub proof fn law_backup_is_its_journal(m: ManagerModel, v: VolumeModel, now: Timestamp)
    requires
        v.valid(),
    ensures
        m.explains(v, m.after_backup(v, now).1, now),
{
    let name = backup_name_at(now);
    let snap = m.after_snapshot(v, name, now).1;
    lemma_snapshot_explained(m, v, name, now);
    lemma_trim_explained(m, snap, false, now);
    if m.after_snapshot(v, name, now).0.is_ok() {
        lemma_explains_chain(m, v, snap, m.after_trim(snap, false), now);
    }
}

/// The image that a retention pass leaves is the image that its journal
/// brings about.
pub proof fn law_cleanup_is_its_journal(m: ManagerModel, v: VolumeModel, now: Timestamp)
    ensures
        m.explains(v, m.after_trim(v, true), now),
{
    lemma_trim_explained(m, v, true, now);
}

/// The image that the removal of a backup leaves is the image that its
/// journal brings about.
pub proof fn law_delete_is_its_journal(
    m: ManagerModel,
    v: VolumeModel,
    name: Seq<char>,
    now: Timestamp,
)
    ensures
        m.explains(v, m.after_delete(v, name), now),
{
    let w = m.after_delete(v, name);
    let n = v.journal.len() as int;
    assert(w.journal.take(n) =~= v.journal);
    if has_dir(v.backups, name) {
        let step = StepModel { action: ActionModel::RemoveBackup { backup: name }, required: true };
        assert(w.journal.skip(n) =~= seq![step]);
        lemma_replayed_one(m, v, step, now);
    } else {
        assert(w.journal.skip(n) =~= Seq::<StepModel>::empty());
    }
}

/// The image that a restore into the live data directory leaves is the
/// image that its journal brings about.
pub proof fn law_restore_is_its_journal(
    m: ManagerModel,
    v: VolumeModel,
    name: Seq<char>,
    now: Timestamp,
)
    requires
        v.valid(),
    ensures
        m.explains(v, m.after_restore(v, name, now).1, now),
{
    let w = m.after_restore(v, name, now).1;
    let n = v.journal.len() as int;
    if m.restorable(v.backups, name).is_err() {
        assert(w.journal.skip(n) =~= Seq::<StepModel>::empty());
        assert(w.journal.take(n) =~= v.journal);
    } else {
        let safety = safety_name_at(now);
        let snap = m.after_snapshot(v, safety, now).1;
        lemma_snapshot_explained(m, v, safety, now);
        if m.after_snapshot(v, safety, now).0.is_ok() {
            lemma_snapshot_valid(m, v, safety, now);
            let files = backup_files(snap.backups, name);
            let live = snap.live.unwrap();
            let clearing = clear_steps(m.store_path, snap.live);
            let copying = restore_steps(name, files, m.store_path);
            assert(w.journal.skip(snap.journal.len() as int) =~= clearing + copying);
            assert(w.journal.take(snap.journal.len() as int) =~= snap.journal);
            lemma_replayed_concat(m, snap, clearing, copying, now);
            // the live directory is empty once its files were removed
            lemma_replayed_clearing(m, snap, live, live.len() as int, now);
            assert(clearing.take(live.len() as int) =~= clearing);
            let cleared = m.replayed(snap, clearing, now);
            assert(cleared.live.unwrap() =~= Seq::<FileModel>::empty()) by {
                let left = cleared.live.unwrap();
                if left.len() > 0 {
                    assert(left.contains(left[0]));
                    let i = choose|i: int| 0 <= i < live.len() && live[i] == left[0];
                    assert(live[i].name != left[0].name);
                }
            }
            // and holds the files of the backup once they were copied in
            lemma_find_entry(snap.backups, name);
            if find_entry(snap.backups, name).is_some() {
                assert(snap.backups[find_entry(snap.backups, name).unwrap()].valid());
            }
            lemma_replayed_restoring(m, cleared, name, files.len() as int, now);
            assert(files.take(files.len() as int) =~= files);
            assert(same_dirs(m.replayed(snap, clearing + copying, now), w));
            lemma_explains_chain(m, v, snap, w, now);
        }
    }
}

/// A retention pass that is cut short has kept the newest records: once
/// the first `done` of its steps were carried out, the catalog holds the
/// newest `max_backups` records and those that the pass had yet to remove.
pub proof fn law_interrupted_cleanup_keeps_newest(
    m: ManagerModel,
    v: VolumeModel,
    done: int,
    now: Timestamp,
)
    requires
        entry_names_distinct(v.backups),
        m.catalog_of(v.backups).len() > m.max_backups,
        0 <= done <= m.catalog_of(v.backups).len() - m.max_backups,
    ensures
        m.catalog_of(
            m.replayed(v, removal_steps(m.excess(v.backups), true).take(done), now).backups,
        ) == m.catalog_of(v.backups).take(m.max_backups as int) + m.catalog_of(v.backups).skip(
            m.max_backups + done,
        ),
{
    let doomed = m.excess(v.backups);
    assert(removal_steps(doomed, true).take(done) =~= removal_steps(doomed.take(done), true));
    lemma_replayed_removals(m, v, doomed.take(done), true, now);
    lemma_catalog_names_distinct(v.backups, m.store_path, m.backup_dir);
    lemma_trim_progress(v.backups, m.store_path, m.backup_dir, m.max_backups as int, done);
}

} // verus!
