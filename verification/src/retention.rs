//! Why a retention pass leaves exactly the newest records: how the catalog
//! changes when directories are removed.

use vstd::prelude::*;
use vstd::seq_lib::to_multiset_contains;
use crate::backup::{removal_steps, without_records, ManagerModel};
use crate::catalog::{
    catalog, descending, insert_desc, lemma_catalog_members, lemma_insert_desc_permutes,
    lemma_records_members, lemma_sort_desc, listable, loaded, records, sort_desc,
};
use crate::laws::law_catalog_lists_backups_only;
use crate::record::MetadataModel;
use crate::volume::{
    entry_names_distinct, entry_of, find_entry, lemma_find_entry, lemma_without_entry_absent,
    lemma_without_entry_contains, lemma_without_entry_keeps, lemma_without_entry_noop,
    without_entry, EntryModel, VolumeModel,
};

verus! {

/// The records without those of that name; the others keep their order.
pub open spec fn drop_named(c: Seq<MetadataModel>, name: Seq<char>) -> Seq<MetadataModel>
    decreases c.len(),
{
    if c.len() == 0 {
        c
    } else if c.last().backup_name == name {
        drop_named(c.drop_last(), name)
    } else {
        drop_named(c.drop_last(), name).push(c.last())
    }
}

/// No two records bear the same name.
pub open spec fn record_names_distinct(c: Seq<MetadataModel>) -> bool {
    forall|i: int, j: int|
        0 <= i < c.len() && 0 <= j < c.len() && i != j ==> (#[trigger] c[i]).backup_name != (
        #[trigger] c[j]).backup_name
}

/// A record is in `drop_named(c, name)` exactly if it is in `c` and bears
/// another name.
pub proof fn lemma_drop_named_contains(c: Seq<MetadataModel>, name: Seq<char>, r: MetadataModel)
    ensures
        drop_named(c, name).contains(r) <==> (c.contains(r) && r.backup_name != name),
    decreases c.len(),
{
    if c.len() > 0 {
        let init = c.drop_last();
        lemma_drop_named_contains(init, name, r);
        let rest = drop_named(init, name);
        if c.contains(r) {
            let i = choose|i: int| 0 <= i < c.len() && c[i] == r;
            if i < init.len() {
                assert(init[i] == r);
            }
        }
        if init.contains(r) {
            let i = choose|i: int| 0 <= i < init.len() && init[i] == r;
            assert(c[i] == r);
        }
        if c.last().backup_name != name {
            let out = rest.push(c.last());
            if rest.contains(r) {
                let i = choose|i: int| 0 <= i < rest.len() && rest[i] == r;
                assert(out[i] == r);
            }
            if r == c.last() {
                assert(out[rest.len() as int] == r);
                assert(c[c.len() - 1] == r);
            }
            if out.contains(r) {
                let i = choose|i: int| 0 <= i < out.len() && out[i] == r;
                if i < rest.len() {
                    assert(rest[i] == r);
                }
            }
        }
    }
}

/// The records of the entries that are left when the entries of one name are
/// removed are the records of the other names.
pub proof fn lemma_records_without_entry(
    entries: Seq<EntryModel>,
    name: Seq<char>,
    store_path: Seq<char>,
    root: Seq<char>,
)
    ensures
        records(without_entry(entries, name), store_path, root) == drop_named(
            records(entries, store_path, root),
            name,
        ),
    decreases entries.len(),
{
    if entries.len() > 0 {
        let init = entries.drop_last();
        let last = entries.last();
        lemma_records_without_entry(init, name, store_path, root);
        let prior = records(init, store_path, root);
        if listable(last, store_path, root) {
            let r = loaded(last, store_path, root).unwrap();
            assert(r.backup_name == last.name);
            assert(prior.push(r).drop_last() =~= prior);
        }
        if last.name != name {
            assert(without_entry(init, name).push(last).drop_last() =~= without_entry(init, name));
        }
    }
}

/// Putting a record into a descending sequence and then dropping a name is
/// dropping the name first and then putting the record in, if it is kept.
pub proof fn lemma_insert_desc_drop(c: Seq<MetadataModel>, r: MetadataModel, name: Seq<char>)
    requires
        descending(c),
    ensures
        drop_named(insert_desc(c, r), name) == if r.backup_name == name {
            drop_named(c, name)
        } else {
            insert_desc(drop_named(c, name), r)
        },
    decreases c.len(),
{
    if c.len() == 0 {
        assert(seq![r].drop_last() =~= c);
        assert(seq![r].last() == r);
        if r.backup_name != name {
            assert(c.push(r) =~= seq![r]);
        }
    } else if c.last().created_at.at_or_after(r.created_at) {
        assert(c.push(r).drop_last() =~= c);
        if r.backup_name != name {
            let kept = drop_named(c, name);
            if kept.len() > 0 {
                assert(kept.contains(kept.last()));
                lemma_drop_named_contains(c, name, kept.last());
                let i = choose|i: int| 0 <= i < c.len() && c[i] == kept.last();
                if i < c.len() - 1 {
                    assert(c[i].created_at.at_or_after(c[c.len() - 1].created_at));
                }
            } else {
                assert(kept.push(r) =~= seq![r]);
            }
        }
    } else {
        let init = c.drop_last();
        assert forall|i: int, j: int| 0 <= i < j < init.len() implies (#[trigger] init[i])
            .created_at.at_or_after((#[trigger] init[j]).created_at) by {
            assert(c[i].created_at.at_or_after(c[j].created_at));
        }
        lemma_insert_desc_drop(init, r, name);
        let mid = insert_desc(init, r);
        assert(mid.push(c.last()).drop_last() =~= mid);
        if r.backup_name != name && c.last().backup_name != name {
            let kept = drop_named(init, name);
            assert(kept.push(c.last()).drop_last() =~= kept);
        }
    }
}

/// Ordering commutes with dropping a name.
pub proof fn lemma_sort_desc_drop(rs: Seq<MetadataModel>, name: Seq<char>)
    ensures
        drop_named(sort_desc(rs), name) == sort_desc(drop_named(rs, name)),
    decreases rs.len(),
{
    if rs.len() > 0 {
        let init = rs.drop_last();
        lemma_sort_desc_drop(init, name);
        lemma_sort_desc(init);
        lemma_insert_desc_drop(sort_desc(init), rs.last(), name);
        if rs.last().backup_name != name {
            let kept = drop_named(init, name);
            assert(kept.push(rs.last()).drop_last() =~= kept);
        }
    }
}

/// The catalog after the entries of one name were removed is the catalog
/// without the records of that name.
pub proof fn lemma_catalog_without_entry(
    entries: Seq<EntryModel>,
    name: Seq<char>,
    store_path: Seq<char>,
    root: Seq<char>,
)
    ensures
        catalog(without_entry(entries, name), store_path, root) == drop_named(
            catalog(entries, store_path, root),
            name,
        ),
{
    lemma_records_without_entry(entries, name, store_path, root);
    lemma_sort_desc_drop(records(entries, store_path, root), name);
}

/// Where the names are distinct, dropping the name of the record at an
/// index takes out that record and no other.
pub proof fn lemma_drop_named_at(c: Seq<MetadataModel>, at: int)
    requires
        record_names_distinct(c),
        0 <= at < c.len(),
    ensures
        drop_named(c, c[at].backup_name) == c.remove(at),
    decreases c.len(),
{
    let name = c[at].backup_name;
    let init = c.drop_last();
    assert forall|i: int, j: int|
        0 <= i < init.len() && 0 <= j < init.len() && i != j implies (#[trigger] init[i])
        .backup_name != (#[trigger] init[j]).backup_name by {
        assert(c[i].backup_name != c[j].backup_name);
    }
    if at == c.len() - 1 {
        lemma_drop_named_absent(init, name);
        assert(init =~= c.remove(at));
    } else {
        assert(c[c.len() - 1].backup_name != c[at].backup_name);
        assert(init[at] == c[at]);
        lemma_drop_named_at(init, at);
        assert(init.remove(at).push(c.last()) =~= c.remove(at));
    }
}

/// Dropping a name that no record bears changes nothing.
pub proof fn lemma_drop_named_absent(c: Seq<MetadataModel>, name: Seq<char>)
    requires
        forall|i: int| 0 <= i < c.len() ==> (#[trigger] c[i]).backup_name != name,
    ensures
        drop_named(c, name) == c,
    decreases c.len(),
{
    if c.len() > 0 {
        let init = c.drop_last();
        assert forall|i: int| 0 <= i < init.len() implies (#[trigger] init[i]).backup_name
            != name by {
            assert(c[i].backup_name != name);
        }
        lemma_drop_named_absent(init, name);
        assert(c[c.len() - 1].backup_name != name);
        assert(init.push(c.last()) =~= c);
    }
}

/// Where no two entries share a name, no two records of the catalog do.
pub proof fn lemma_catalog_names_distinct(
    entries: Seq<EntryModel>,
    store_path: Seq<char>,
    root: Seq<char>,
)
    requires
        entry_names_distinct(entries),
    ensures
        record_names_distinct(catalog(entries, store_path, root)),
    decreases entries.len(),
{
    let c = catalog(entries, store_path, root);
    if entries.len() > 0 {
        let init = entries.drop_last();
        let last = entries.last();
        assert forall|i: int, j: int|
            0 <= i < init.len() && 0 <= j < init.len() && i != j implies (#[trigger] init[i]).name
            != (#[trigger] init[j]).name by {
            assert(entries[i].name != entries[j].name);
        }
        lemma_catalog_names_distinct(init, store_path, root);
        let prior = catalog(init, store_path, root);
        if listable(last, store_path, root) {
            let r = loaded(last, store_path, root).unwrap();
            let rs = records(init, store_path, root);
            assert(rs.push(r).drop_last() =~= rs);
            assert(c == insert_desc(prior, r));
            // no record of the catalog so far bears the name of the last entry
            assert forall|k: int| 0 <= k < prior.len() implies (#[trigger] prior[k]).backup_name
                != r.backup_name by {
                assert(prior.contains(prior[k]));
                lemma_catalog_members(init, store_path, root, prior[k]);
                lemma_records_members(init, store_path, root, prior[k]);
                let i = choose|i: int|
                    0 <= i < init.len() && listable(#[trigger] init[i], store_path, root) && loaded(
                        init[i],
                        store_path,
                        root,
                    ) == Some(prior[k]);
                assert(entries[i].name != entries[entries.len() - 1].name);
            }
            lemma_insert_desc_names_distinct(prior, r);
        }
    }
}

/// Putting in a record under a new name keeps the names distinct.
pub proof fn lemma_insert_desc_names_distinct(c: Seq<MetadataModel>, r: MetadataModel)
    requires
        record_names_distinct(c),
        forall|k: int| 0 <= k < c.len() ==> (#[trigger] c[k]).backup_name != r.backup_name,
    ensures
        record_names_distinct(insert_desc(c, r)),
    decreases c.len(),
{
    if c.len() == 0 {
    } else if c.last().created_at.at_or_after(r.created_at) {
    } else {
        let init = c.drop_last();
        assert forall|i: int, j: int|
            0 <= i < init.len() && 0 <= j < init.len() && i != j implies (#[trigger] init[i])
            .backup_name != (#[trigger] init[j]).backup_name by {
            assert(c[i].backup_name != c[j].backup_name);
        }
        assert forall|k: int| 0 <= k < init.len() implies (#[trigger] init[k]).backup_name
            != r.backup_name by {
            assert(c[k].backup_name != r.backup_name);
        }
        lemma_insert_desc_names_distinct(init, r);
        lemma_insert_desc_permutes(init, r);
        let mid = insert_desc(init, r);
        let out = mid.push(c.last());
        assert forall|i: int, j: int|
            0 <= i < out.len() && 0 <= j < out.len() && i != j implies (#[trigger] out[i])
            .backup_name != (#[trigger] out[j]).backup_name by {
            if i < mid.len() && j < mid.len() {
            } else {
                let k = if i < mid.len() {
                    i
                } else {
                    j
                };
                assert(mid.contains(mid[k]));
                to_multiset_contains(mid, mid[k]);
                assert(c[c.len() - 1].backup_name != r.backup_name);
                if mid[k] != r {
                    to_multiset_contains(init, mid[k]);
                    let x = choose|x: int| 0 <= x < init.len() && init[x] == mid[k];
                    assert(c[x].backup_name != c[c.len() - 1].backup_name);
                }
            }
        }
    }
}

/// What is left of the catalog while a retention pass removes the records
/// behind the index `keep`, one after another.
pub proof fn lemma_trim_progress(
    entries: Seq<EntryModel>,
    store_path: Seq<char>,
    root: Seq<char>,
    keep: int,
    done: int,
)
    requires
        record_names_distinct(catalog(entries, store_path, root)),
        0 <= keep,
        0 <= done,
        keep + done <= catalog(entries, store_path, root).len(),
    ensures
        catalog(
            without_records(
                entries,
                catalog(entries, store_path, root).skip(keep).take(done),
            ),
            store_path,
            root,
        ) == catalog(entries, store_path, root).take(keep) + catalog(
            entries,
            store_path,
            root,
        ).skip(keep + done),
    decreases done,
{
    let c = catalog(entries, store_path, root);
    let doomed = c.skip(keep).take(done);
    if done == 0 {
        assert(doomed =~= Seq::<MetadataModel>::empty());
        assert(c.take(keep) + c.skip(keep) =~= c);
    } else {
        lemma_trim_progress(entries, store_path, root, keep, done - 1);
        let earlier = c.skip(keep).take(done - 1);
        assert(doomed.drop_last() =~= earlier);
        assert(doomed.last() == c[keep + done - 1]);
        let mid = without_records(entries, earlier);
        let left = c.take(keep) + c.skip(keep + done - 1);
        lemma_catalog_without_entry(mid, doomed.last().backup_name, store_path, root);
        assert forall|i: int, j: int|
            0 <= i < left.len() && 0 <= j < left.len() && i != j implies (#[trigger] left[i])
            .backup_name != (#[trigger] left[j]).backup_name by {
            let a = if i < keep {
                i
            } else {
                i + done - 1
            };
            let b = if j < keep {
                j
            } else {
                j + done - 1
            };
            assert(left[i] == c[a] && left[j] == c[b]);
        }
        assert(left[keep] == c[keep + done - 1]);
        lemma_drop_named_at(left, keep);
        assert(left.remove(keep) =~= c.take(keep) + c.skip(keep + done));
    }
}

/// Where no two entries share a name, removing a name that an entry bears
/// takes out one entry.
pub proof fn lemma_without_entry_one(entries: Seq<EntryModel>, name: Seq<char>)
    requires
        entry_names_distinct(entries),
        find_entry(entries, name).is_some(),
    ensures
        without_entry(entries, name).len() == entries.len() - 1,
        entry_names_distinct(without_entry(entries, name)),
    decreases entries.len(),
{
    let init = entries.drop_last();
    let last = entries.last();
    assert forall|i: int, j: int|
        0 <= i < init.len() && 0 <= j < init.len() && i != j implies (#[trigger] init[i]).name != (
        #[trigger] init[j]).name by {
        assert(entries[i].name != entries[j].name);
    }
    lemma_find_entry(init, name);
    if last.name == name {
        if let Some(k) = find_entry(init, name) {
            assert(entries[k].name != entries[entries.len() - 1].name);
        }
        lemma_without_entry_noop(init, name);
    } else {
        lemma_without_entry_one(init, name);
        let rest = without_entry(init, name);
        let out = rest.push(last);
        assert forall|i: int, j: int|
            0 <= i < out.len() && 0 <= j < out.len() && i != j implies (#[trigger] out[i]).name != (
            #[trigger] out[j]).name by {
            if i < rest.len() && j < rest.len() {
            } else {
                let k = if i < rest.len() {
                    i
                } else {
                    j
                };
                assert(rest.contains(rest[k]));
                lemma_without_entry_contains(init, name, rest[k]);
                let x = choose|x: int| 0 <= x < init.len() && init[x] == rest[k];
                assert(entries[x].name != entries[entries.len() - 1].name);
            }
        }
    }
}

/// How many entries are left while a retention pass removes the records
/// behind the index `keep`, one after another: each removal takes out one.
proof fn lemma_trim_count(
    entries: Seq<EntryModel>,
    store_path: Seq<char>,
    root: Seq<char>,
    keep: int,
    done: int,
)
    requires
        entry_names_distinct(entries),
        0 <= keep,
        0 <= done,
        keep + done <= catalog(entries, store_path, root).len(),
    ensures
        without_records(
            entries,
            catalog(entries, store_path, root).skip(keep).take(done),
        ).len() == entries.len() - done,
        entry_names_distinct(
            without_records(entries, catalog(entries, store_path, root).skip(keep).take(done)),
        ),
    decreases done,
{
    let c = catalog(entries, store_path, root);
    let doomed = c.skip(keep).take(done);
    if done == 0 {
        assert(doomed =~= Seq::<MetadataModel>::empty());
    } else {
        lemma_trim_count(entries, store_path, root, keep, done - 1);
        lemma_catalog_names_distinct(entries, store_path, root);
        lemma_trim_progress(entries, store_path, root, keep, done - 1);
        let earlier = c.skip(keep).take(done - 1);
        assert(doomed.drop_last() =~= earlier);
        assert(doomed.last() == c[keep + done - 1]);
        let mid = without_records(entries, earlier);
        let left = catalog(mid, store_path, root);
        assert(left[keep] == c[keep + done - 1]);
        let m = ManagerModel {
            store_path,
            backup_dir: root,
            max_backups: 0,
            compression_enabled: true,
        };
        law_catalog_lists_backups_only(m, mid, keep);
        lemma_find_entry(mid, doomed.last().backup_name);
        lemma_without_entry_one(mid, doomed.last().backup_name);
    }
}

/// A retention pass on a catalog of more than `max_backups` records keeps
/// exactly the newest `max_backups`.
///
/// With `N` records in the catalog and a retention count `K < N`, where no
/// two entries of the backups root share a name: the pass asks for the
/// removal of `N - K` directories, those of the records behind the first `K`;
/// the catalog afterwards is the first `K` records of the catalog before;
/// and no record that was removed is newer than one that was kept.
pub proof fn law_cleanup_keeps_newest(m: ManagerModel, v: VolumeModel)
    requires
        entry_names_distinct(v.backups),
        m.catalog_of(v.backups).len() > m.max_backups,
    ensures
        m.excess(v.backups).len() == m.catalog_of(v.backups).len() - m.max_backups,
        m.after_trim(v, true).backups.len() == v.backups.len() - (m.catalog_of(v.backups).len()
            - m.max_backups),
        m.after_trim(v, true).journal == v.journal + removal_steps(
            m.catalog_of(v.backups).skip(m.max_backups as int),
            true,
        ),
        m.catalog_of(m.after_trim(v, true).backups) == m.catalog_of(v.backups).take(
            m.max_backups as int,
        ),
        m.catalog_of(m.after_trim(v, true).backups).len() == m.max_backups,
        forall|i: int, j: int|
            0 <= i < m.max_backups <= j < m.catalog_of(v.backups).len() ==> (#[trigger] m.catalog_of(
                v.backups,
            )[i]).created_at.at_or_after((#[trigger] m.catalog_of(v.backups)[j]).created_at),
{
    let c = m.catalog_of(v.backups);
    let keep = m.max_backups as int;
    lemma_catalog_names_distinct(v.backups, m.store_path, m.backup_dir);
    lemma_trim_progress(v.backups, m.store_path, m.backup_dir, keep, c.len() - keep);
    lemma_trim_count(v.backups, m.store_path, m.backup_dir, keep, c.len() - keep);
    assert(c.skip(keep).take(c.len() - keep) =~= c.skip(keep));
    assert(c.take(keep) + c.skip(c.len() as int) =~= c.take(keep));
    lemma_sort_desc(records(v.backups, m.store_path, m.backup_dir));
}

/// A retention pass leaves the entry found under a name as it was, unless it
/// removed a record of that name, in which case no entry is left under it.
pub proof fn lemma_without_records_keeps(
    entries: Seq<EntryModel>,
    doomed: Seq<MetadataModel>,
    name: Seq<char>,
)
    ensures
        entry_of(without_records(entries, doomed), name) == if exists|k: int|
            0 <= k < doomed.len() && (#[trigger] doomed[k]).backup_name == name {
            None
        } else {
            entry_of(entries, name)
        },
    decreases doomed.len(),
{
    if doomed.len() > 0 {
        let init = doomed.drop_last();
        let mid = without_records(entries, init);
        lemma_without_records_keeps(entries, init, name);
        if doomed.last().backup_name == name {
            lemma_without_entry_absent(mid, name);
            assert(doomed[doomed.len() - 1].backup_name == name);
        } else {
            lemma_without_entry_keeps(mid, doomed.last().backup_name, name);
            if exists|k: int| 0 <= k < init.len() && (#[trigger] init[k]).backup_name == name {
                let k = choose|k: int|
                    0 <= k < init.len() && (#[trigger] init[k]).backup_name == name;
                assert(doomed[k].backup_name == name);
            }
            if exists|k: int| 0 <= k < doomed.len() && (#[trigger] doomed[k]).backup_name == name {
                let k = choose|k: int|
                    0 <= k < doomed.len() && (#[trigger] doomed[k]).backup_name == name;
                assert(init[k].backup_name == name);
            }
        }
    }
}

} // verus!
