//! The catalog: the records of the backups under the backups root, newest
//! first. It is read from the image each time; nothing is cached.

use vstd::prelude::*;
use vstd::seq_lib::{to_multiset_build, to_multiset_contains};
use crate::files::{listing_size, measured_size};
use crate::record::{BackupMetadata, MetadataModel, Sidecar, SidecarModel, UNKNOWN_VERSION};
use crate::text::{child_path, has_prefix, join_child, starts_with};
use crate::volume::{EntryModel, RootEntry};

verus! {

/// Prefix of the name of a backup that the catalog lists.
pub const BACKUP_PREFIX: &'static str = "dmpool_backup_";

/// Prefix of the name of a safety snapshot taken before a restore.
pub const SAFETY_PREFIX: &'static str = "pre_restore_";

/// The record derived from a directory that holds no sidecar: named after the
/// directory, dated by its modification time, sized by its files.
pub open spec fn legacy_record(
    entry: EntryModel,
    store_path: Seq<char>,
    root: Seq<char>,
) -> MetadataModel {
    MetadataModel {
        backup_name: entry.name,
        created_at: entry.modified,
        store_path,
        backup_path: child_path(root, entry.name),
        size_bytes: measured_size(entry.files),
        version: UNKNOWN_VERSION@,
    }
}

/// The record of a backup directory: the one in its sidecar, where that is
/// the record of this directory; a derived one where there is no sidecar;
/// none where the sidecar cannot be read or names another backup.
pub open spec fn loaded(entry: EntryModel, store_path: Seq<char>, root: Seq<char>) -> Option<
    MetadataModel,
> {
    match entry.sidecar {
        SidecarModel::Missing => Some(legacy_record(entry, store_path, root)),
        SidecarModel::Unreadable => None,
        SidecarModel::Present(m) => if m.backup_name == entry.name {
            Some(m)
        } else {
            None
        },
    }
}

/// The entry is listed: a directory with the backup prefix whose record loads.
pub open spec fn listable(entry: EntryModel, store_path: Seq<char>, root: Seq<char>) -> bool {
    entry.is_dir && has_prefix(entry.name, BACKUP_PREFIX@) && loaded(
        entry,
        store_path,
        root,
    ).is_some()
}

/// The records of the listed entries, in the order of the entries.
pub open spec fn records(entries: Seq<EntryModel>, store_path: Seq<char>, root: Seq<char>) -> Seq<
    MetadataModel,
>
    decreases entries.len(),
{
    if entries.len() == 0 {
        Seq::empty()
    } else if listable(entries.last(), store_path, root) {
        records(entries.drop_last(), store_path, root).push(
            loaded(entries.last(), store_path, root).unwrap(),
        )
    } else {
        records(entries.drop_last(), store_path, root)
    }
}

/// Every record was created at or after each record behind it.
pub open spec fn descending(c: Seq<MetadataModel>) -> bool {
    forall|i: int, j: int|
        0 <= i < j < c.len() ==> (#[trigger] c[i]).created_at.at_or_after(
            (#[trigger] c[j]).created_at,
        )
}

/// Every record was created strictly after each record behind it.
pub open spec fn strictly_descending(c: Seq<MetadataModel>) -> bool {
    forall|i: int, j: int|
        0 <= i < j < c.len() ==> (#[trigger] c[j]).created_at.before((#[trigger] c[i]).created_at)
}

/// `r` put into `c` behind the last record that is not older than `r`.
pub open spec fn insert_desc(c: Seq<MetadataModel>, r: MetadataModel) -> Seq<MetadataModel>
    decreases c.len(),
{
    if c.len() == 0 {
        seq![r]
    } else if c.last().created_at.at_or_after(r.created_at) {
        c.push(r)
    } else {
        insert_desc(c.drop_last(), r).push(c.last())
    }
}

/// The records ordered newest first; records of one instant keep their order.
pub open spec fn sort_desc(rs: Seq<MetadataModel>) -> Seq<MetadataModel>
    decreases rs.len(),
{
    if rs.len() == 0 {
        rs
    } else {
        insert_desc(sort_desc(rs.drop_last()), rs.last())
    }
}

/// The catalog of the backups root: the records of its listed entries, newest
/// first.
pub open spec fn catalog(entries: Seq<EntryModel>, store_path: Seq<char>, root: Seq<char>) -> Seq<
    MetadataModel,
> {
    sort_desc(records(entries, store_path, root))
}

/// Sum of the recorded sizes.
pub open spec fn recorded_total(c: Seq<MetadataModel>) -> nat
    decreases c.len(),
{
    if c.len() == 0 {
        0
    } else {
        recorded_total(c.drop_last()) + c.last().size_bytes as nat
    }
}

/// Where `insert_desc` puts a record: at the index behind which all records
/// are older and before which the nearest is not.
pub proof fn lemma_insert_desc_at(c: Seq<MetadataModel>, r: MetadataModel, at: int)
    requires
        0 <= at <= c.len(),
        forall|k: int| at <= k < c.len() ==> (#[trigger] c[k]).created_at.before(r.created_at),
        at == 0 || c[at - 1].created_at.at_or_after(r.created_at),
    ensures
        insert_desc(c, r) == c.insert(at, r),
    decreases c.len(),
{
    if c.len() == 0 {
        assert(seq![r] =~= c.insert(at, r));
    } else if at == c.len() {
        assert(c.push(r) =~= c.insert(at, r));
    } else {
        assert(c[c.len() - 1].created_at.before(r.created_at));
        let init = c.drop_last();
        assert forall|k: int| at <= k < init.len() implies (#[trigger] init[k]).created_at.before(
            r.created_at,
        ) by {
            assert(c[k].created_at.before(r.created_at));
        }
        lemma_insert_desc_at(init, r, at);
        assert(init.insert(at, r).push(c.last()) =~= c.insert(at, r));
    }
}

/// `insert_desc` adds the record and nothing else.
pub proof fn lemma_insert_desc_permutes(c: Seq<MetadataModel>, r: MetadataModel)
    ensures
        insert_desc(c, r).len() == c.len() + 1,
        insert_desc(c, r).to_multiset() == c.to_multiset().insert(r),
    decreases c.len(),
{
    if c.len() == 0 {
        assert(seq![r] =~= c.push(r));
        to_multiset_build(c, r);
    } else if c.last().created_at.at_or_after(r.created_at) {
        to_multiset_build(c, r);
    } else {
        let init = c.drop_last();
        lemma_insert_desc_permutes(init, r);
        to_multiset_build(insert_desc(init, r), c.last());
        to_multiset_build(init, c.last());
        assert(init.push(c.last()) =~= c);
        assert(init.to_multiset().insert(r).insert(c.last()) =~= init.to_multiset().insert(
            c.last(),
        ).insert(r));
    }
}

/// `insert_desc` keeps a descending sequence descending.
pub proof fn lemma_insert_desc_descending(c: Seq<MetadataModel>, r: MetadataModel)
    requires
        descending(c),
    ensures
        descending(insert_desc(c, r)),
    decreases c.len(),
{
    if c.len() == 0 {
    } else if c.last().created_at.at_or_after(r.created_at) {
        let out = c.push(r);
        assert forall|i: int, j: int| 0 <= i < j < out.len() implies (#[trigger] out[i])
            .created_at.at_or_after((#[trigger] out[j]).created_at) by {
            if j < c.len() {
                assert(c[i].created_at.at_or_after(c[j].created_at));
            } else if i < c.len() - 1 {
                assert(c[i].created_at.at_or_after(c[c.len() - 1].created_at));
            }
        }
    } else {
        let init = c.drop_last();
        assert forall|i: int, j: int| 0 <= i < j < init.len() implies (#[trigger] init[i])
            .created_at.at_or_after((#[trigger] init[j]).created_at) by {
            assert(c[i].created_at.at_or_after(c[j].created_at));
        }
        lemma_insert_desc_descending(init, r);
        lemma_insert_desc_permutes(init, r);
        let mid = insert_desc(init, r);
        let out = mid.push(c.last());
        assert forall|i: int, j: int| 0 <= i < j < out.len() implies (#[trigger] out[i])
            .created_at.at_or_after((#[trigger] out[j]).created_at) by {
            if j < mid.len() {
                assert(mid[i].created_at.at_or_after(mid[j].created_at));
            } else {
                // out[j] is the oldest record of c; out[i] is r or a record of init
                assert(mid.contains(mid[i]));
                to_multiset_contains(mid, mid[i]);
                if mid[i] != r {
                    to_multiset_contains(init, mid[i]);
                    assert(init.contains(mid[i]));
                    let k = choose|k: int| 0 <= k < init.len() && init[k] == mid[i];
                    assert(c[k].created_at.at_or_after(c[c.len() - 1].created_at));
                }
            }
        }
    }
}

/// The ordered records are descending, and are the given records, each as
/// often as it was given.
pub proof fn lemma_sort_desc(rs: Seq<MetadataModel>)
    ensures
        descending(sort_desc(rs)),
        sort_desc(rs).len() == rs.len(),
        sort_desc(rs).to_multiset() == rs.to_multiset(),
    decreases rs.len(),
{
    if rs.len() > 0 {
        let init = rs.drop_last();
        lemma_sort_desc(init);
        lemma_insert_desc_descending(sort_desc(init), rs.last());
        lemma_insert_desc_permutes(sort_desc(init), rs.last());
        to_multiset_build(init, rs.last());
        assert(init.push(rs.last()) =~= rs);
    }
}

/// Loads the record of one directory.
pub fn load_record(entry: &RootEntry, store_path: &str, root: &str) -> (out: Option<
    BackupMetadata,
>)
    ensures
        out.deep_view() == loaded(entry@, store_path@, root@),
{
    match &entry.sidecar {
        Sidecar::Missing => {
            Some(
                BackupMetadata {
                    backup_name: entry.name.clone(),
                    created_at: entry.modified,
                    store_path: store_path.to_owned(),
                    backup_path: join_child(root, entry.name.as_str()),
                    size_bytes: listing_size(&entry.files),
                    version: UNKNOWN_VERSION.to_owned(),
                },
            )
        },
        Sidecar::Unreadable => None,
        Sidecar::Present(m) => {
            if m.backup_name == entry.name {
                Some(m.duplicate())
            } else {
                None
            }
        },
    }
}

/// Reads the catalog from the entries of the backups root.
pub fn read_catalog(entries: &Vec<RootEntry>, store_path: &str, root: &str) -> (out: Vec<
    BackupMetadata,
>)
    ensures
        out.deep_view() == catalog(entries.deep_view(), store_path@, root@),
        descending(out.deep_view()),
        out.deep_view().to_multiset() == records(
            entries.deep_view(),
            store_path@,
            root@,
        ).to_multiset(),
{
    let mut out: Vec<BackupMetadata> = Vec::new();
    let mut i: usize = 0;
    assert(entries.deep_view().take(0) =~= Seq::<EntryModel>::empty());
    assert(out.deep_view() =~= Seq::<MetadataModel>::empty());
    while i < entries.len()
        invariant
            i <= entries.len(),
            out.deep_view() == catalog(entries.deep_view().take(i as int), store_path@, root@),
        decreases entries.len() - i,
    {
        proof {
            let all = entries.deep_view();
            assert(all.take(i + 1).drop_last() =~= all.take(i as int));
            assert(all.take(i + 1).last() == entries[i as int]@);
        }
        let entry: &RootEntry = &entries[i];
        if entry.is_dir && starts_with(entry.name.as_str(), BACKUP_PREFIX) {
            match load_record(entry, store_path, root) {
                Some(rec) => {
                    let ghost before = out.deep_view();
                    let mut at: usize = out.len();
                    while at > 0 && out[at - 1].created_at.is_before(&rec.created_at)
                        invariant
                            at <= out.len(),
                            out.deep_view() == before,
                            forall|k: int|
                                at <= k < out.len() ==> (#[trigger] out[k]).created_at.before(
                                    rec.created_at,
                                ),
                        decreases at,
                    {
                        at -= 1;
                    }
                    proof {
                        assert forall|k: int| at <= k < before.len() implies (
                        #[trigger] before[k]).created_at.before(rec@.created_at) by {
                            assert(out[k].created_at.before(rec.created_at));
                        }
                        if at > 0 {
                            assert(before[at - 1].created_at == out[at - 1].created_at);
                        }
                        lemma_insert_desc_at(before, rec@, at as int);
                    }
                    out.insert(at, rec);
                    assert(out.deep_view() =~= before.insert(at as int, rec@));
                    proof {
                        let prior = records(entries.deep_view().take(i as int), store_path@, root@);
                        assert(listable(entries[i as int]@, store_path@, root@));
                        assert(records(entries.deep_view().take(i + 1), store_path@, root@)
                            == prior.push(rec@));
                        assert(prior.push(rec@).drop_last() =~= prior);
                    }
                },
                None => {
                    assert(!listable(entries[i as int]@, store_path@, root@));
                },
            }
        } else {
            assert(!listable(entries[i as int]@, store_path@, root@));
        }
        i += 1;
    }
    proof {
        assert(entries.deep_view().take(i as int) =~= entries.deep_view());
        lemma_sort_desc(records(entries.deep_view(), store_path@, root@));
    }
    out
}

/// A record is among the records of the entries exactly if it is the record
/// of a listed entry.
pub proof fn lemma_records_members(
    entries: Seq<EntryModel>,
    store_path: Seq<char>,
    root: Seq<char>,
    r: MetadataModel,
)
    ensures
        records(entries, store_path, root).contains(r) <==> exists|i: int|
            0 <= i < entries.len() && listable(#[trigger] entries[i], store_path, root) && loaded(
                entries[i],
                store_path,
                root,
            ) == Some(r),
    decreases entries.len(),
{
    let rs = records(entries, store_path, root);
    if entries.len() > 0 {
        let init = entries.drop_last();
        let prior = records(init, store_path, root);
        lemma_records_members(init, store_path, root, r);
        if rs.contains(r) {
            let k = choose|k: int| 0 <= k < rs.len() && rs[k] == r;
            if listable(entries.last(), store_path, root) && k == prior.len() {
                assert(listable(entries[entries.len() - 1], store_path, root));
            } else {
                assert(prior[k] == r);
                let i = choose|i: int|
                    0 <= i < init.len() && listable(#[trigger] init[i], store_path, root) && loaded(
                        init[i],
                        store_path,
                        root,
                    ) == Some(r);
                assert(entries[i] == init[i]);
            }
        }
        if exists|i: int|
            0 <= i < entries.len() && listable(#[trigger] entries[i], store_path, root) && loaded(
                entries[i],
                store_path,
                root,
            ) == Some(r) {
            let i = choose|i: int|
                0 <= i < entries.len() && listable(#[trigger] entries[i], store_path, root)
                    && loaded(entries[i], store_path, root) == Some(r);
            if i == entries.len() - 1 {
                assert(rs[prior.len() as int] == r);
            } else {
                assert(init[i] == entries[i]);
                let k = choose|k: int| 0 <= k < prior.len() && prior[k] == r;
                assert(rs[k] == r);
            }
        }
    }
}

/// The catalog holds a record exactly if it is the record of a listed entry.
pub proof fn lemma_catalog_members(
    entries: Seq<EntryModel>,
    store_path: Seq<char>,
    root: Seq<char>,
    r: MetadataModel,
)
    ensures
        catalog(entries, store_path, root).contains(r) <==> records(
            entries,
            store_path,
            root,
        ).contains(r),
{
    let rs = records(entries, store_path, root);
    lemma_sort_desc(rs);
    to_multiset_contains(rs, r);
    to_multiset_contains(sort_desc(rs), r);
}

} // verus!
