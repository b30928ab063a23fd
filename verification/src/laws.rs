//! What holds of the backup operations on every image: laws that relate
//! several operations, stated over their models and proved.

use vstd::prelude::*;
use crate::backup::ManagerModel;
use crate::catalog::{
    insert_desc, lemma_catalog_members, lemma_insert_desc_at, lemma_insert_desc_permutes,
    lemma_records_members, listable, loaded, records, strictly_descending, BACKUP_PREFIX,
    SAFETY_PREFIX,
};
use crate::files::{
    data_files, has_file, lemma_placed_has, lemma_placed_on_empty, lemma_sentinel_is_data,
    lemma_total_size_remove, lemma_total_size_update, lemma_without_file_noop, measured_size,
    names_distinct, total_size, FileModel, SENTINEL_FILE, SIDECAR_FILE,
};
use crate::record::{ErrorModel, MetadataModel};
use crate::retention::lemma_without_records_keeps;
use crate::snapshot::{backup_name_at, safety_name_at};
use crate::text::{has_prefix, lemma_concat_has_prefix, lemma_first_char_decides};
use crate::time::Timestamp;
use crate::volume::{
    backup_files, entry_of, find_entry, fresh_dir, has_dir, lemma_entry_of_push, lemma_entry_of_update,
    lemma_find_entry, lemma_with_dir_find, lemma_without_entry_absent, with_dir, EntryModel,
    VolumeModel,
};

verus! {

/// The catalog of an empty backups root is empty.
pub proof fn law_empty_root_lists_nothing(m: ManagerModel)
    ensures
        m.catalog_of(Seq::<EntryModel>::empty()) == Seq::<MetadataModel>::empty(),
{
}

/// Every record of the catalog is the record of a directory under the
/// backups root whose name has the backup prefix: an entry that is no
/// directory, or whose name lacks the prefix, is not listed.
pub proof fn law_catalog_lists_backups_only(m: ManagerModel, entries: Seq<EntryModel>, k: int)
    requires
        0 <= k < m.catalog_of(entries).len(),
    ensures
        has_prefix(m.catalog_of(entries)[k].backup_name, BACKUP_PREFIX@),
        exists|i: int|
            0 <= i < entries.len() && (#[trigger] entries[i]).is_dir && entries[i].name
                == m.catalog_of(entries)[k].backup_name && has_prefix(
                entries[i].name,
                BACKUP_PREFIX@,
            ),
{
    let c = m.catalog_of(entries);
    let r = c[k];
    assert(c.contains(r));
    lemma_catalog_members(entries, m.store_path, m.backup_dir, r);
    lemma_records_members(entries, m.store_path, m.backup_dir, r);
    let i = choose|i: int|
        0 <= i < entries.len() && listable(#[trigger] entries[i], m.store_path, m.backup_dir)
            && loaded(entries[i], m.store_path, m.backup_dir) == Some(r);
    assert(entries[i].is_dir && entries[i].name == r.backup_name);
}

/// An entry whose name lacks the backup prefix, or that is no directory,
/// adds nothing to the catalog.
pub proof fn law_unrecognized_entry_excluded(
    m: ManagerModel,
    entries: Seq<EntryModel>,
    extra: EntryModel,
)
    requires
        !extra.is_dir || !has_prefix(extra.name, BACKUP_PREFIX@),
    ensures
        m.catalog_of(entries.push(extra)) == m.catalog_of(entries),
{
    assert(entries.push(extra).drop_last() =~= entries);
}

/// After a backup was deleted, no record is found under its name.
pub proof fn law_deleted_backup_not_found(m: ManagerModel, v: VolumeModel, name: Seq<char>)
    ensures
        m.lookup(m.after_delete(v, name).backups, name) == Err::<MetadataModel, ErrorModel>(
            ErrorModel::NotFound { subject: name },
        ),
{
    lemma_without_entry_absent(v.backups, name);
    lemma_find_entry(v.backups, name);
}

/// What is found, loaded and verified under a name depends on the entry
/// found under it alone.
pub proof fn lemma_same_entry(
    m: ManagerModel,
    a: Seq<EntryModel>,
    b: Seq<EntryModel>,
    name: Seq<char>,
)
    requires
        entry_of(a, name) == entry_of(b, name),
    ensures
        has_dir(a, name) == has_dir(b, name),
        m.lookup(a, name) == m.lookup(b, name),
        m.verdict(a, name) == m.verdict(b, name),
        m.restorable(a, name) == m.restorable(b, name),
        backup_files(a, name) == backup_files(b, name),
{
}

/// A backup verifies right after it was taken: where the live data holds
/// the completeness sentinel and the retention pass of that backup did not
/// remove the backup itself, `verify` on its name gives `true`.
pub proof fn law_fresh_backup_verifies(m: ManagerModel, v: VolumeModel, now: Timestamp)
    requires
        m.after_backup(v, now).0.is_ok(),
        has_file(v.live.unwrap(), SENTINEL_FILE@),
        has_dir(m.after_backup(v, now).1.backups, backup_name_at(now)),
    ensures
        m.verdict(m.after_backup(v, now).1.backups, backup_name_at(now)) == Ok::<bool, ErrorModel>(
            true,
        ),
{
    let name = backup_name_at(now);
    let snap = m.after_snapshot(v, name, now).1;
    lemma_snapshot_verifies(m, v, name, now);
    let doomed = m.excess(snap.backups);
    lemma_without_records_keeps(snap.backups, doomed, name);
    lemma_same_entry(m, m.after_backup(v, now).1.backups, snap.backups, name);
}

/// A snapshot verifies in the image that it leaves, where the live data
/// holds the completeness sentinel.
pub proof fn lemma_snapshot_verifies(
    m: ManagerModel,
    v: VolumeModel,
    name: Seq<char>,
    now: Timestamp,
)
    requires
        m.after_snapshot(v, name, now).0.is_ok(),
        has_file(v.live.unwrap(), SENTINEL_FILE@),
    ensures
        m.verdict(m.after_snapshot(v, name, now).1.backups, name) == Ok::<bool, ErrorModel>(true),
        has_dir(m.after_snapshot(v, name, now).1.backups, name),
{
    let live = v.live.unwrap();
    let dirs = with_dir(v.backups, name, now);
    lemma_with_dir_find(v.backups, name, now);
    lemma_find_entry(v.backups, name);
    lemma_find_entry(dirs, name);
    let at = find_entry(dirs, name).unwrap();
    let snap = m.after_snapshot(v, name, now).1;
    lemma_entry_of_update(dirs, at, snap.backups[at], name);
    lemma_sentinel_is_data(live);
    lemma_placed_has(dirs[at].files, data_files(live), SENTINEL_FILE@);
}

/// A backup into a directory of its own, while the catalog is below the
/// retention count, adds one directory and one record and removes nothing:
/// the catalog afterwards is the catalog before with the record of the new
/// backup put in at its place.
pub proof fn law_backup_adds_one_record(m: ManagerModel, v: VolumeModel, now: Timestamp)
    requires
        v.live.is_some(),
        find_entry(v.backups, backup_name_at(now)).is_none(),
        m.catalog_of(v.backups).len() < m.max_backups,
    ensures
        m.after_backup(v, now).0.is_ok(),
        m.after_backup(v, now).0->Ok_0.metadata.created_at == now,
        m.after_backup(v, now).0->Ok_0.metadata.backup_name == backup_name_at(now),
        m.after_backup(v, now).1.backups.len() == v.backups.len() + 1,
        m.after_backup(v, now).1.backups.drop_last() == v.backups,
        m.after_backup(v, now).1.backups.last().name == backup_name_at(now),
        m.catalog_of(m.after_backup(v, now).1.backups) == insert_desc(
            m.catalog_of(v.backups),
            m.after_backup(v, now).0->Ok_0.metadata,
        ),
        m.catalog_of(m.after_backup(v, now).1.backups).len() == m.catalog_of(v.backups).len() + 1,
{
    let name = backup_name_at(now);
    lemma_find_entry(v.backups, name);
    lemma_with_dir_find(v.backups, name, now);
    let snap = m.after_snapshot(v, name, now).1;
    let at = v.backups.len() as int;
    let taken = snap.backups[at];
    assert(snap.backups =~= v.backups.push(taken));
    assert(v.backups.push(taken).drop_last() =~= v.backups);
    // the new directory is listed
    lemma_concat_has_prefix(BACKUP_PREFIX@, crate::time::stamp_of(now));
    assert(listable(taken, m.store_path, m.backup_dir));
    let record = loaded(taken, m.store_path, m.backup_dir).unwrap();
    let prior = records(v.backups, m.store_path, m.backup_dir);
    assert(records(snap.backups, m.store_path, m.backup_dir) == prior.push(record));
    assert(prior.push(record).drop_last() =~= prior);
    lemma_insert_desc_permutes(m.catalog_of(v.backups), record);
    // nothing is over the limit
    assert(m.excess(snap.backups) =~= Seq::<MetadataModel>::empty());
}

impl ManagerModel {
    /// The image after one backup at each of the instants, in their order.
    pub open spec fn after_backups(self, v: VolumeModel, times: Seq<Timestamp>) -> VolumeModel
        decreases times.len(),
    {
        if times.len() == 0 {
            v
        } else {
            self.after_backup(self.after_backups(v, times.drop_last()), times.last()).1
        }
    }
}

/// The instants follow one another.
pub open spec fn ascending(times: Seq<Timestamp>) -> bool {
    forall|i: int, j: int|
        0 <= i < j < times.len() ==> (#[trigger] times[i]).before(#[trigger] times[j])
}

/// No two of the instants give a backup the same name.
pub open spec fn names_apart(times: Seq<Timestamp>) -> bool {
    forall|i: int, j: int|
        0 <= i < j < times.len() ==> backup_name_at(#[trigger] times[i]) != backup_name_at(
            #[trigger] times[j],
        )
}

/// What holds of the image after backups, one after another, into an empty
/// backups root, while retention has nothing to remove.
proof fn lemma_backups_accumulate(m: ManagerModel, v: VolumeModel, times: Seq<Timestamp>)
    requires
        v.backups.len() == 0,
        v.live.is_some(),
        times.len() <= m.max_backups,
        ascending(times),
        names_apart(times),
    ensures
        ({
            let w = m.after_backups(v, times);
            let c = m.catalog_of(w.backups);
            &&& w.live == v.live
            &&& w.backups.len() == times.len()
            &&& forall|j: int|
                0 <= j < times.len() ==> (#[trigger] w.backups[j]).name == backup_name_at(times[j])
            &&& c.len() == times.len()
            &&& forall|i: int|
                0 <= i < c.len() ==> (#[trigger] c[i]).created_at == times[times.len() - 1 - i]
        }),
    decreases times.len(),
{
    if times.len() == 0 {
        assert(v.backups =~= Seq::<EntryModel>::empty());
    } else {
        let init = times.drop_last();
        let now = times.last();
        let name = backup_name_at(now);
        assert forall|i: int, j: int| 0 <= i < j < init.len() implies (#[trigger] init[i]).before(
            #[trigger] init[j],
        ) by {
            assert(times[i].before(times[j]));
        }
        assert forall|i: int, j: int| 0 <= i < j < init.len() implies backup_name_at(
            #[trigger] init[i],
        ) != backup_name_at(#[trigger] init[j]) by {
            assert(backup_name_at(times[i]) != backup_name_at(times[j]));
        }
        lemma_backups_accumulate(m, v, init);
        let w = m.after_backups(v, init);
        let c = m.catalog_of(w.backups);
        // the name is new under the backups root
        lemma_find_entry(w.backups, name);
        if let Some(k) = find_entry(w.backups, name) {
            assert(w.backups[k].name == backup_name_at(times[k]));
            assert(backup_name_at(times[k]) != backup_name_at(times[times.len() - 1]));
        }
        law_backup_adds_one_record(m, w, now);
        let snap = m.after_backup(w, now).1;
        let at = w.backups.len() as int;
        let record = m.after_backup(w, now).0->Ok_0.metadata;
        assert forall|k: int| 0 <= k < c.len() implies (#[trigger] c[k]).created_at.before(
            record.created_at,
        ) by {
            assert(times[init.len() - 1 - k].before(times[times.len() - 1]));
        }
        lemma_insert_desc_at(c, record, 0);
        let grown = m.catalog_of(snap.backups);
        assert(grown == c.insert(0, record));
        let out = m.after_backups(v, times);
        assert(out.backups == snap.backups);
        assert forall|j: int| 0 <= j < times.len() implies (#[trigger] out.backups[j]).name
            == backup_name_at(times[j]) by {
            if j < at {
                assert(out.backups[j] == w.backups[j]);
            }
        }
        assert forall|i: int| 0 <= i < grown.len() implies (#[trigger] grown[i]).created_at
            == times[times.len() - 1 - i] by {
            if i > 0 {
                assert(grown[i] == c[i - 1]);
            }
        }
    }
}

/// Backups taken one after another into an empty backups root, with none
/// removed in between, are all listed: the catalog holds one record for each,
/// in strictly descending order of creation, the newest first.
///
/// None is removed in between where the live data directory exists and the
/// number of backups does not exceed the retention count. Two backups taken
/// within one second would share a name and a directory; such instants are
/// left out.
pub proof fn law_every_backup_is_listed(m: ManagerModel, v: VolumeModel, times: Seq<Timestamp>)
    requires
        v.backups.len() == 0,
        v.live.is_some(),
        times.len() <= m.max_backups,
        ascending(times),
        names_apart(times),
    ensures
        m.catalog_of(m.after_backups(v, times).backups).len() == times.len(),
        strictly_descending(m.catalog_of(m.after_backups(v, times).backups)),
        forall|i: int|
            0 <= i < times.len() ==> (#[trigger] m.catalog_of(
                m.after_backups(v, times).backups,
            )[i]).created_at == times[times.len() - 1 - i],
{
    lemma_backups_accumulate(m, v, times);
    let c = m.catalog_of(m.after_backups(v, times).backups);
    assert forall|i: int, j: int| 0 <= i < j < c.len() implies (#[trigger] c[j]).created_at.before(
        (#[trigger] c[i]).created_at,
    ) by {
        assert(times[times.len() - 1 - j].before(times[times.len() - 1 - i]));
    }
}

/// A restore followed by a fresh backup gives a backup with the files of the
/// one restored from: the same names with the same sizes, in the same order.
///
/// `w` is the image after the restore from `name`. The listing of that
/// backup is taken to be a valid one: no two of its files share a name, and
/// none bears the sidecar's name. The fresh backup is taken into a directory
/// of its own, and is not removed by its own retention pass.
pub proof fn law_restore_then_backup_matches(
    m: ManagerModel,
    v: VolumeModel,
    name: Seq<char>,
    restored_at: Timestamp,
    taken_at: Timestamp,
)
    requires
        m.after_restore(v, name, restored_at).0.is_ok(),
        names_distinct(backup_files(m.after_restore(v, name, restored_at).1.backups, name)),
        !has_file(
            backup_files(m.after_restore(v, name, restored_at).1.backups, name),
            SIDECAR_FILE@,
        ),
        find_entry(
            m.after_restore(v, name, restored_at).1.backups,
            backup_name_at(taken_at),
        ).is_none(),
        has_dir(
            m.after_backup(m.after_restore(v, name, restored_at).1, taken_at).1.backups,
            backup_name_at(taken_at),
        ),
    ensures
        m.after_restore(v, name, restored_at).1.live == Some(
            backup_files(m.after_restore(v, name, restored_at).1.backups, name),
        ),
        m.after_backup(m.after_restore(v, name, restored_at).1, taken_at).0.is_ok(),
        backup_files(
            m.after_backup(m.after_restore(v, name, restored_at).1, taken_at).1.backups,
            backup_name_at(taken_at),
        ) == backup_files(m.after_restore(v, name, restored_at).1.backups, name),
{
    let w = m.after_restore(v, name, restored_at).1;
    let files = backup_files(w.backups, name);
    lemma_placed_on_empty(files);
    assert(w.live == Some(files));
    let fresh = backup_name_at(taken_at);
    lemma_with_dir_find(w.backups, fresh, taken_at);
    let dirs = with_dir(w.backups, fresh, taken_at);
    let at = w.backups.len() as int;
    lemma_without_file_noop(files, SIDECAR_FILE@);
    let snap = m.after_snapshot(w, fresh, taken_at).1;
    lemma_entry_of_update(dirs, at, snap.backups[at], fresh);
    assert(backup_files(snap.backups, fresh) == files);
    let out = m.after_backup(w, taken_at).1;
    lemma_without_records_keeps(snap.backups, m.excess(snap.backups), fresh);
    lemma_same_entry(m, out.backups, snap.backups, fresh);
}

/// The entry at `at` with another listing.
pub open spec fn with_listing(entries: Seq<EntryModel>, at: int, files: Seq<FileModel>) -> Seq<
    EntryModel,
> {
    entries.update(at, EntryModel { files, ..entries[at] })
}

/// A backup that verified no longer does once one of its files was cut
/// short: where the backup has a sidecar and its files' sizes add up to no
/// more than a `u64` holds, `verify` gives `false` after any file got a
/// smaller size.
pub proof fn law_truncation_is_detected(
    m: ManagerModel,
    entries: Seq<EntryModel>,
    name: Seq<char>,
    k: int,
    size: u64,
)
    requires
        m.verdict(entries, name) == Ok::<bool, ErrorModel>(true),
        entries[find_entry(entries, name).unwrap()].sidecar is Present,
        total_size(backup_files(entries, name)) <= u64::MAX,
        0 <= k < backup_files(entries, name).len(),
        size < backup_files(entries, name)[k].size,
    ensures
        m.verdict(
            with_listing(
                entries,
                find_entry(entries, name).unwrap(),
                backup_files(entries, name).update(
                    k,
                    FileModel { name: backup_files(entries, name)[k].name, size },
                ),
            ),
            name,
        ) == Ok::<bool, ErrorModel>(false),
{
    let at = find_entry(entries, name).unwrap();
    let files = backup_files(entries, name);
    let cut = files.update(k, FileModel { name: files[k].name, size });
    lemma_find_entry(entries, name);
    let out = with_listing(entries, at, cut);
    lemma_entry_of_update(entries, at, out[at], name);
    lemma_total_size_update(files, k, size);
    assert(measured_size(cut) != measured_size(files));
}

/// A backup that verified no longer does once one of its files was removed:
/// where the backup has a sidecar, no two of its files share a name, and the
/// sizes add up to no more than a `u64` holds, `verify` gives `false` after
/// the sentinel or any file that is not empty was taken out.
pub proof fn law_removal_is_detected(
    m: ManagerModel,
    entries: Seq<EntryModel>,
    name: Seq<char>,
    k: int,
)
    requires
        m.verdict(entries, name) == Ok::<bool, ErrorModel>(true),
        entries[find_entry(entries, name).unwrap()].sidecar is Present,
        total_size(backup_files(entries, name)) <= u64::MAX,
        names_distinct(backup_files(entries, name)),
        0 <= k < backup_files(entries, name).len(),
        backup_files(entries, name)[k].size > 0 || backup_files(entries, name)[k].name
            == SENTINEL_FILE@,
    ensures
        m.verdict(
            with_listing(
                entries,
                find_entry(entries, name).unwrap(),
                backup_files(entries, name).remove(k),
            ),
            name,
        ) == Ok::<bool, ErrorModel>(false),
{
    let at = find_entry(entries, name).unwrap();
    let files = backup_files(entries, name);
    let fewer = files.remove(k);
    lemma_find_entry(entries, name);
    let out = with_listing(entries, at, fewer);
    lemma_entry_of_update(entries, at, out[at], name);
    lemma_total_size_remove(files, k);
    if files[k].name == SENTINEL_FILE@ {
        if has_file(fewer, SENTINEL_FILE@) {
            let i = choose|i: int| 0 <= i < fewer.len() && fewer[i].name == SENTINEL_FILE@;
            let j = if i < k {
                i
            } else {
                i + 1
            };
            assert(fewer[i] == files[j]);
            assert(files[j].name != files[k].name);
        }
    } else {
        assert(measured_size(fewer) != measured_size(files));
    }
}

/// No name of a safety snapshot has the backup prefix.
pub proof fn lemma_safety_name_unlisted(now: Timestamp)
    ensures
        !has_prefix(safety_name_at(now), BACKUP_PREFIX@),
{
    reveal_strlit("dmpool_backup_");
    reveal_strlit("pre_restore_");
    lemma_concat_has_prefix(SAFETY_PREFIX@, crate::time::stamp_of(now));
    lemma_first_char_decides(safety_name_at(now), SAFETY_PREFIX@, BACKUP_PREFIX@);
}

/// A safety snapshot is not listed, and retention never removes it: a
/// retention pass leaves what lies under the name of a safety snapshot as it
/// was, until it is deleted by name.
pub proof fn law_retention_spares_safety_snapshots(
    m: ManagerModel,
    v: VolumeModel,
    now: Timestamp,
    required: bool,
)
    ensures
        forall|k: int|
            0 <= k < m.catalog_of(v.backups).len() ==> (#[trigger] m.catalog_of(
                v.backups,
            )[k]).backup_name != safety_name_at(now),
        entry_of(m.after_trim(v, required).backups, safety_name_at(now)) == entry_of(
            v.backups,
            safety_name_at(now),
        ),
{
    let name = safety_name_at(now);
    let c = m.catalog_of(v.backups);
    lemma_safety_name_unlisted(now);
    assert forall|k: int| 0 <= k < c.len() implies (#[trigger] c[k]).backup_name != name by {
        law_catalog_lists_backups_only(m, v.backups, k);
    }
    let doomed = m.excess(v.backups);
    lemma_without_records_keeps(v.backups, doomed, name);
    if exists|k: int| 0 <= k < doomed.len() && (#[trigger] doomed[k]).backup_name == name {
        let k = choose|k: int| 0 <= k < doomed.len() && (#[trigger] doomed[k]).backup_name == name;
        assert(doomed[k] == c[k + m.max_backups]);
    }
}

/// A snapshot creates at most one directory and touches no other: what lies
/// under any other name is left as it was.
pub proof fn law_snapshot_touches_one_directory(
    m: ManagerModel,
    v: VolumeModel,
    name: Seq<char>,
    now: Timestamp,
    other: Seq<char>,
)
    requires
        other != name,
    ensures
        m.after_snapshot(v, name, now).1.backups.len() <= v.backups.len() + 1,
        m.after_snapshot(v, name, now).1.live == v.live,
        entry_of(m.after_snapshot(v, name, now).1.backups, other) == entry_of(v.backups, other),
{
    let w = m.after_snapshot(v, name, now).1;
    let dirs = with_dir(v.backups, name, now);
    lemma_with_dir_find(v.backups, name, now);
    lemma_find_entry(dirs, name);
    lemma_find_entry(dirs, other);
    if find_entry(v.backups, name).is_none() {
        lemma_entry_of_push(v.backups, fresh_dir(name, now), other);
    }
    if w.backups != v.backups && w.backups != dirs {
        let at = find_entry(dirs, name).unwrap();
        lemma_entry_of_update(dirs, at, w.backups[at], other);
    }
}

/// A backup that verifies can be restored from; so can one whose files no
/// longer have the recorded size, as long as it holds the sentinel.
pub proof fn law_verified_backup_is_restorable(
    m: ManagerModel,
    entries: Seq<EntryModel>,
    name: Seq<char>,
)
    ensures
        m.verdict(entries, name) == Ok::<bool, ErrorModel>(true) ==> m.restorable(entries, name)
            == Ok::<(), ErrorModel>(()),
        m.restorable(entries, name).is_ok() <==> (m.lookup(entries, name).is_ok() && has_file(
            backup_files(entries, name),
            SENTINEL_FILE@,
        )),
{
}

} // verus!
