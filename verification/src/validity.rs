//! What a scan of real directories always gives, and what every operation
//! keeps: names that are distinct, and backups without a data file that
//! bears the sidecar's name.

use vstd::prelude::*;
use crate::backup::{without_records, ManagerModel};
use crate::files::{
    contains_file, data_files, has_file, lemma_placed_distinct, lemma_placed_has,
    lemma_without_file_absent,
    names_distinct, FileEntry, FileModel, SIDECAR_FILE,
};
use crate::record::MetadataModel;
use crate::snapshot::{backup_name_at, safety_name_at};
use crate::text::str_eq;
use crate::time::Timestamp;
use crate::volume::{
    backup_files, entry_names_distinct, find_entry, lemma_find_entry, lemma_with_dir_find,
    lemma_without_entry_contains, with_dir, without_entry, EntryModel, RootEntry, Volume,
    VolumeModel,
};

verus! {

impl EntryModel {
    /// No two files of the entry share a name, and none bears the name of
    /// the sidecar.
    pub open spec fn valid(self) -> bool {
        names_distinct(self.files) && !has_file(self.files, SIDECAR_FILE@)
    }
}

/// Every entry is valid, and no two share a name.
pub open spec fn entries_valid(entries: Seq<EntryModel>) -> bool {
    entry_names_distinct(entries) && forall|i: int|
        0 <= i < entries.len() ==> (#[trigger] entries[i]).valid()
}

/// The listing of a data directory is valid where no two files share a name.
pub open spec fn data_valid(listing: Option<Seq<FileModel>>) -> bool {
    match listing {
        Some(files) => names_distinct(files),
        None => true,
    }
}

impl VolumeModel {
    /// The image is one that a scan of real directories can give.
    pub open spec fn valid(self) -> bool {
        entries_valid(self.backups) && data_valid(self.live)
    }
}

/// Whether no two files of the listing share a name.
pub fn listing_is_distinct(files: &Vec<FileEntry>) -> (yes: bool)
    ensures
        yes == names_distinct(files.deep_view()),
{
    let ghost all = files.deep_view();
    let mut i: usize = 0;
    while i < files.len()
        invariant
            i <= files.len(),
            all == files.deep_view(),
            forall|a: int, b: int|
                0 <= a < b < i ==> (#[trigger] all[a]).name != (#[trigger] all[b]).name,
        decreases files.len() - i,
    {
        let mut j: usize = 0;
        while j < i
            invariant
                j <= i < files.len(),
                all == files.deep_view(),
                forall|a: int| 0 <= a < j ==> (#[trigger] all[a]).name != all[i as int].name,
            decreases i - j,
        {
            if str_eq(files[j].name.as_str(), files[i].name.as_str()) {
                assert(all[j as int].name == all[i as int].name);
                return false;
            }
            j += 1;
        }
        i += 1;
    }
    assert forall|a: int, b: int| 0 <= a < all.len() && 0 <= b < all.len() && a != b implies (
    #[trigger] all[a]).name != (#[trigger] all[b]).name by {
        if a < b {
        } else {
            assert(all[b].name != all[a].name);
        }
    }
    true
}

/// Whether no two entries share a name.
pub fn entries_are_distinct(entries: &Vec<RootEntry>) -> (yes: bool)
    ensures
        yes == entry_names_distinct(entries.deep_view()),
{
    let ghost all = entries.deep_view();
    let mut i: usize = 0;
    while i < entries.len()
        invariant
            i <= entries.len(),
            all == entries.deep_view(),
            forall|a: int, b: int|
                0 <= a < b < i ==> (#[trigger] all[a]).name != (#[trigger] all[b]).name,
        decreases entries.len() - i,
    {
        let mut j: usize = 0;
        while j < i
            invariant
                j <= i < entries.len(),
                all == entries.deep_view(),
                forall|a: int| 0 <= a < j ==> (#[trigger] all[a]).name != all[i as int].name,
            decreases i - j,
        {
            if str_eq(entries[j].name.as_str(), entries[i].name.as_str()) {
                assert(all[j as int].name == all[i as int].name);
                return false;
            }
            j += 1;
        }
        i += 1;
    }
    assert forall|a: int, b: int| 0 <= a < all.len() && 0 <= b < all.len() && a != b implies (
    #[trigger] all[a]).name != (#[trigger] all[b]).name by {
        if a < b {
        } else {
            assert(all[b].name != all[a].name);
        }
    }
    true
}

impl Volume {
    /// Whether the image is one that a scan of real directories can give.
    pub fn is_valid(&self) -> (yes: bool)
        ensures
            yes == self@.valid(),
    {
        match &self.live {
            Some(files) => {
                if !listing_is_distinct(files) {
                    return false;
                }
            },
            None => {},
        }
        if !entries_are_distinct(&self.backups) {
            return false;
        }
        let ghost all = self.backups.deep_view();
        let mut i: usize = 0;
        while i < self.backups.len()
            invariant
                i <= self.backups.len(),
                all == self.backups.deep_view(),
                forall|a: int| 0 <= a < i ==> (#[trigger] all[a]).valid(),
            decreases self.backups.len() - i,
        {
            let entry: &RootEntry = &self.backups[i];
            if !listing_is_distinct(&entry.files) || contains_file(&entry.files, SIDECAR_FILE) {
                assert(!all[i as int].valid());
                return false;
            }
            i += 1;
        }
        true
    }
}

/// Removing the entries of one name keeps the entries valid.
pub proof fn lemma_without_entry_valid(entries: Seq<EntryModel>, name: Seq<char>)
    requires
        entries_valid(entries),
    ensures
        entries_valid(without_entry(entries, name)),
    decreases entries.len(),
{
    if entries.len() > 0 {
        let init = entries.drop_last();
        assert forall|i: int, j: int|
            0 <= i < init.len() && 0 <= j < init.len() && i != j implies (#[trigger] init[i]).name
            != (#[trigger] init[j]).name by {
            assert(entries[i].name != entries[j].name);
        }
        assert forall|i: int| 0 <= i < init.len() implies (#[trigger] init[i]).valid() by {
            assert(entries[i].valid());
        }
        lemma_without_entry_valid(init, name);
        let rest = without_entry(init, name);
        if entries.last().name != name {
            let out = rest.push(entries.last());
            assert(entries[entries.len() - 1].valid());
            assert forall|i: int, j: int|
                0 <= i < out.len() && 0 <= j < out.len() && i != j implies (#[trigger] out[i]).name
                != (#[trigger] out[j]).name by {
                if i < rest.len() && j < rest.len() {
                } else {
                    let k = if i < rest.len() {
                        i
                    } else {
                        j
                    };
                    assert(rest.contains(rest[k]));
                    lemma_without_entry_contains(init, name, rest[k]);
                    let x = choose|x: int| 0 <= x < init.len() && init[x] == rest[k];
                    assert(entries[x].name != entries[entries.len() - 1].name);
                }
            }
            assert forall|i: int| 0 <= i < out.len() implies (#[trigger] out[i]).valid() by {
                if i < rest.len() {
                    assert(rest[i].valid());
                }
            }
        }
    }
}

/// A retention pass keeps the entries valid.
pub proof fn lemma_without_records_valid(entries: Seq<EntryModel>, doomed: Seq<MetadataModel>)
    requires
        entries_valid(entries),
    ensures
        entries_valid(without_records(entries, doomed)),
    decreases doomed.len(),
{
    if doomed.len() > 0 {
        lemma_without_records_valid(entries, doomed.drop_last());
        lemma_without_entry_valid(
            without_records(entries, doomed.drop_last()),
            doomed.last().backup_name,
        );
    }
}

/// A snapshot keeps the image valid.
pub proof fn lemma_snapshot_valid(m: ManagerModel, v: VolumeModel, name: Seq<char>, now: Timestamp)
    requires
        v.valid(),
    ensures
        m.after_snapshot(v, name, now).1.valid(),
{
    let out = m.after_snapshot(v, name, now).1;
    let dirs = with_dir(v.backups, name, now);
    lemma_with_dir_find(v.backups, name, now);
    lemma_find_entry(v.backups, name);
    lemma_find_entry(dirs, name);
    // the directory is there, under a name of its own
    assert(entries_valid(dirs)) by {
        if find_entry(v.backups, name).is_none() {
            assert forall|i: int, j: int|
                0 <= i < dirs.len() && 0 <= j < dirs.len() && i != j implies (#[trigger] dirs[i])
                .name != (#[trigger] dirs[j]).name by {
                if i < v.backups.len() && j < v.backups.len() {
                    assert(v.backups[i].name != v.backups[j].name);
                } else {
                    let k = if i < v.backups.len() {
                        i
                    } else {
                        j
                    };
                    assert(v.backups[k].name != name);
                }
            }
            assert forall|i: int| 0 <= i < dirs.len() implies (#[trigger] dirs[i]).valid() by {
                if i < v.backups.len() {
                    assert(v.backups[i].valid());
                }
            }
        }
    }
    if out.backups != v.backups && out.backups != dirs {
        let live = v.live.unwrap();
        let at = find_entry(dirs, name).unwrap();
        let taken = out.backups[at];
        assert(dirs[at].valid());
        lemma_placed_distinct(dirs[at].files, data_files(live));
        lemma_placed_has(dirs[at].files, data_files(live), SIDECAR_FILE@);
        lemma_without_file_absent(live, SIDECAR_FILE@);
        assert(taken.valid());
        assert forall|i: int, j: int|
            0 <= i < out.backups.len() && 0 <= j < out.backups.len() && i != j implies (
        #[trigger] out.backups[i]).name != (#[trigger] out.backups[j]).name by {
            assert(dirs[i].name != dirs[j].name);
        }
        assert forall|i: int| 0 <= i < out.backups.len() implies (#[trigger] out.backups[i])
            .valid() by {
            if i != at {
                assert(dirs[i].valid());
            }
        }
    }
}

/// A backup keeps the image valid.
pub proof fn law_backup_keeps_validity(m: ManagerModel, v: VolumeModel, now: Timestamp)
    requires
        v.valid(),
    ensures
        m.after_backup(v, now).1.valid(),
{
    let name = backup_name_at(now);
    lemma_snapshot_valid(m, v, name, now);
    let snap = m.after_snapshot(v, name, now).1;
    lemma_without_records_valid(snap.backups, m.excess(snap.backups));
}

/// A retention pass keeps the image valid.
pub proof fn law_cleanup_keeps_validity(m: ManagerModel, v: VolumeModel)
    requires
        v.valid(),
    ensures
        m.after_trim(v, true).valid(),
{
    lemma_without_records_valid(v.backups, m.excess(v.backups));
}

/// The removal of a backup keeps the image valid.
pub proof fn law_delete_keeps_validity(m: ManagerModel, v: VolumeModel, name: Seq<char>)
    requires
        v.valid(),
    ensures
        m.after_delete(v, name).valid(),
{
    lemma_without_entry_valid(v.backups, name);
}

/// A restore keeps the image valid, and leaves a valid listing in the data
/// directory that it restored into.
pub proof fn law_restore_keeps_validity(
    m: ManagerModel,
    v: VolumeModel,
    name: Seq<char>,
    now: Timestamp,
    dir: Seq<char>,
    target: Option<Seq<FileModel>>,
)
    requires
        v.valid(),
        data_valid(target),
    ensures
        m.after_restore(v, name, now).1.valid(),
        m.after_restore_to(v, name, now, dir, target).1.valid(),
        data_valid(m.after_restore_to(v, name, now, dir, target).2),
{
    lemma_snapshot_valid(m, v, safety_name_at(now), now);
    let snap = m.after_snapshot(v, safety_name_at(now), now).1;
    let files = backup_files(snap.backups, name);
    lemma_placed_distinct(Seq::<FileModel>::empty(), files);
}

} // verus!
