//! Directory listings: the regular files that lie directly under one
//! directory, each with its name and its size in bytes.

use vstd::prelude::*;
use crate::text::str_eq;

verus! {

/// Name of the metadata sidecar inside a backup directory. It describes the
/// backup and is never counted or copied as one of its data files.
pub const SIDECAR_FILE: &'static str = "metadata.json";

/// Name of the completeness sentinel: the data store's own manifest pointer,
/// whose presence shows that a whole data directory was captured.
pub const SENTINEL_FILE: &'static str = "CURRENT";

/// One regular file of a listing.
#[derive(Debug, Clone, PartialEq, Eq)]
pub struct FileEntry {
    pub name: String,
    pub size: u64,
}

/// What a [`FileEntry`] stands for.
pub struct FileModel {
    pub name: Seq<char>,
    pub size: u64,
}

impl View for FileEntry {
    type V = FileModel;

    open spec fn view(&self) -> FileModel {
        FileModel { name: self.name@, size: self.size }
    }
}

impl DeepView for FileEntry {
    type V = FileModel;

    open spec fn deep_view(&self) -> FileModel {
        self@
    }
}

/// Some file of the listing bears the name.
pub open spec fn has_file(files: Seq<FileModel>, name: Seq<char>) -> bool {
    exists|i: int| 0 <= i < files.len() && #[trigger] files[i].name == name
}

/// No two files of the listing bear the same name.
pub open spec fn names_distinct(files: Seq<FileModel>) -> bool {
    forall|i: int, j: int|
        0 <= i < files.len() && 0 <= j < files.len() && i != j ==> #[trigger] files[i].name
            != #[trigger] files[j].name
}

/// The listing without the files of that name; the others keep their order.
pub open spec fn without_file(files: Seq<FileModel>, name: Seq<char>) -> Seq<FileModel>
    decreases files.len(),
{
    if files.len() == 0 {
        files
    } else if files.last().name == name {
        without_file(files.drop_last(), name)
    } else {
        without_file(files.drop_last(), name).push(files.last())
    }
}

/// The listing after `file` was written into the directory: it replaces a
/// file of its name, and is listed last.
pub open spec fn with_file(files: Seq<FileModel>, file: FileModel) -> Seq<FileModel> {
    without_file(files, file.name).push(file)
}

/// The listing after each file of `added` was written into it, in order.
pub open spec fn placed(base: Seq<FileModel>, added: Seq<FileModel>) -> Seq<FileModel>
    decreases added.len(),
{
    if added.len() == 0 {
        base
    } else {
        with_file(placed(base, added.drop_last()), added.last())
    }
}

/// The files of the listing that can be data of a backup: all but one that
/// bears the sidecar's name.
pub open spec fn data_files(files: Seq<FileModel>) -> Seq<FileModel> {
    without_file(files, SIDECAR_FILE@)
}

/// Sum of the sizes of the listing's files.
pub open spec fn total_size(files: Seq<FileModel>) -> nat
    decreases files.len(),
{
    if files.len() == 0 {
        0
    } else {
        total_size(files.drop_last()) + files.last().size as nat
    }
}

/// The size recorded for a listing: the sum of its files' sizes, held at the
/// largest `u64` where the sum is above it.
pub open spec fn measured_size(files: Seq<FileModel>) -> u64 {
    if total_size(files) > u64::MAX {
        u64::MAX
    } else {
        total_size(files) as u64
    }
}

/// A file is in `without_file(files, name)` exactly if it is in `files` and
/// bears another name.
pub proof fn lemma_without_file_contains(files: Seq<FileModel>, name: Seq<char>, f: FileModel)
    ensures
        without_file(files, name).contains(f) <==> (files.contains(f) && f.name != name),
    decreases files.len(),
{
    if files.len() == 0 {
    } else {
        let init = files.drop_last();
        lemma_without_file_contains(init, name, f);
        let rest = without_file(init, name);
        if files.contains(f) {
            let i = choose|i: int| 0 <= i < files.len() && files[i] == f;
            if i < init.len() {
                assert(init[i] == f);
            }
        }
        if init.contains(f) {
            let i = choose|i: int| 0 <= i < init.len() && init[i] == f;
            assert(files[i] == f);
        }
        if files.last().name == name {
        } else {
            let out = rest.push(files.last());
            if rest.contains(f) {
                let i = choose|i: int| 0 <= i < rest.len() && rest[i] == f;
                assert(out[i] == f);
            }
            if f == files.last() {
                assert(out[rest.len() as int] == f);
                assert(files[files.len() - 1] == f);
            }
            if out.contains(f) {
                let i = choose|i: int| 0 <= i < out.len() && out[i] == f;
                if i < rest.len() {
                    assert(rest[i] == f);
                }
            }
        }
    }
}

/// Removing a name leaves no file of that name.
pub proof fn lemma_without_file_absent(files: Seq<FileModel>, name: Seq<char>)
    ensures
        !has_file(without_file(files, name), name),
{
    let out = without_file(files, name);
    if has_file(out, name) {
        let i = choose|i: int| 0 <= i < out.len() && out[i].name == name;
        assert(out.contains(out[i]));
        lemma_without_file_contains(files, name, out[i]);
    }
}

/// Removing a name that no file bears changes nothing.
pub proof fn lemma_without_file_noop(files: Seq<FileModel>, name: Seq<char>)
    requires
        !has_file(files, name),
    ensures
        without_file(files, name) == files,
    decreases files.len(),
{
    if files.len() > 0 {
        let init = files.drop_last();
        assert(files[files.len() - 1].name != name);
        assert forall|i: int| 0 <= i < init.len() implies init[i].name != name by {
            assert(files[i].name != name);
        }
        lemma_without_file_noop(init, name);
        assert(init.push(files.last()) =~= files);
    }
}

/// Removing a name keeps the remaining names distinct.
pub proof fn lemma_without_file_distinct(files: Seq<FileModel>, name: Seq<char>)
    requires
        names_distinct(files),
    ensures
        names_distinct(without_file(files, name)),
    decreases files.len(),
{
    if files.len() > 0 {
        let init = files.drop_last();
        assert forall|i: int, j: int|
            0 <= i < init.len() && 0 <= j < init.len() && i != j implies init[i].name
            != init[j].name by {
            assert(files[i].name != files[j].name);
        }
        lemma_without_file_distinct(init, name);
        let rest = without_file(init, name);
        if files.last().name != name {
            let out = rest.push(files.last());
            assert forall|i: int, j: int|
                0 <= i < out.len() && 0 <= j < out.len() && i != j implies out[i].name
                != out[j].name by {
                if i < rest.len() && j < rest.len() {
                } else {
                    let k = if i < rest.len() { i } else { j };
                    assert(rest.contains(rest[k]));
                    lemma_without_file_contains(init, name, rest[k]);
                    let m = choose|m: int| 0 <= m < init.len() && init[m] == rest[k];
                    assert(files[m].name != files[files.len() - 1].name);
                }
            }
        }
    }
}

/// Writing a file keeps the names distinct.
pub proof fn lemma_with_file_distinct(files: Seq<FileModel>, file: FileModel)
    requires
        names_distinct(files),
    ensures
        names_distinct(with_file(files, file)),
{
    let rest = without_file(files, file.name);
    lemma_without_file_distinct(files, file.name);
    lemma_without_file_absent(files, file.name);
    let out = rest.push(file);
    assert forall|i: int, j: int|
        0 <= i < out.len() && 0 <= j < out.len() && i != j implies out[i].name
        != out[j].name by {
        if i < rest.len() && j < rest.len() {
        } else {
            let k = if i < rest.len() { i } else { j };
            assert(rest[k].name != file.name);
        }
    }
}

/// Writing files keeps the names distinct.
pub proof fn lemma_placed_distinct(base: Seq<FileModel>, added: Seq<FileModel>)
    requires
        names_distinct(base),
    ensures
        names_distinct(placed(base, added)),
    decreases added.len(),
{
    if added.len() > 0 {
        lemma_placed_distinct(base, added.drop_last());
        lemma_with_file_distinct(placed(base, added.drop_last()), added.last());
    }
}

/// Writing files with distinct names into an empty directory gives a
/// directory that lists exactly those files.
pub proof fn lemma_placed_on_empty(added: Seq<FileModel>)
    requires
        names_distinct(added),
    ensures
        placed(Seq::<FileModel>::empty(), added) == added,
    decreases added.len(),
{
    if added.len() > 0 {
        let init = added.drop_last();
        assert forall|i: int, j: int|
            0 <= i < init.len() && 0 <= j < init.len() && i != j implies init[i].name
            != init[j].name by {
            assert(added[i].name != added[j].name);
        }
        lemma_placed_on_empty(init);
        if has_file(init, added.last().name) {
            let i = choose|i: int| 0 <= i < init.len() && init[i].name == added.last().name;
            assert(added[i].name != added[added.len() - 1].name);
        }
        lemma_without_file_noop(init, added.last().name);
        assert(init.push(added.last()) =~= added);
    } else {
        assert(added =~= Seq::<FileModel>::empty());
    }
}

/// A file of another name is in the listing after a write exactly if it was
/// there before; the written name is always there.
pub proof fn lemma_with_file_has(files: Seq<FileModel>, file: FileModel, name: Seq<char>)
    ensures
        has_file(with_file(files, file), name) <==> (name == file.name || has_file(files, name)),
{
    let rest = without_file(files, file.name);
    let out = rest.push(file);
    assert(out[rest.len() as int].name == file.name);
    if has_file(out, name) && name != file.name {
        let i = choose|i: int| 0 <= i < out.len() && out[i].name == name;
        assert(rest.contains(rest[i]));
        lemma_without_file_contains(files, file.name, rest[i]);
        let m = choose|m: int| 0 <= m < files.len() && files[m] == rest[i];
        assert(files[m].name == name);
    }
    if has_file(files, name) && name != file.name {
        let m = choose|m: int| 0 <= m < files.len() && files[m].name == name;
        assert(files.contains(files[m]));
        lemma_without_file_contains(files, file.name, files[m]);
        let i = choose|i: int| 0 <= i < rest.len() && rest[i] == files[m];
        assert(out[i].name == name);
    }
}

impl FileEntry {
    pub fn new(name: &str, size: u64) -> (f: FileEntry)
        ensures
            f@ == (FileModel { name: name@, size }),
    {
        FileEntry { name: name.to_owned(), size }
    }

    /// A second entry for the same file.
    pub fn duplicate(&self) -> (f: FileEntry)
        ensures
            f@ == self@,
    {
        FileEntry { name: self.name.clone(), size: self.size }
    }
}

/// A second listing of the same files.
pub fn copy_listing(files: &Vec<FileEntry>) -> (out: Vec<FileEntry>)
    ensures
        out.deep_view() == files.deep_view(),
{
    let mut out: Vec<FileEntry> = Vec::new();
    let mut i: usize = 0;
    while i < files.len()
        invariant
            i <= files.len(),
            out.len() == i,
            forall|j: int| 0 <= j < i ==> out[j]@ == files[j]@,
        decreases files.len() - i,
    {
        out.push(files[i].duplicate());
        i += 1;
    }
    assert(out.deep_view() =~= files.deep_view());
    out
}

/// Whether the listing has a file of that name.
pub fn contains_file(files: &Vec<FileEntry>, name: &str) -> (yes: bool)
    ensures
        yes == has_file(files.deep_view(), name@),
{
    let mut i: usize = 0;
    while i < files.len()
        invariant
            i <= files.len(),
            forall|j: int| 0 <= j < i ==> files[j].name@ != name@,
        decreases files.len() - i,
    {
        if str_eq(files[i].name.as_str(), name) {
            assert(files.deep_view()[i as int].name == name@);
            return true;
        }
        i += 1;
    }
    assert forall|j: int| 0 <= j < files.deep_view().len() implies files.deep_view()[j].name
        != name@ by {
        assert(files[j].name@ != name@);
    }
    false
}

/// Takes every file of that name out of the listing.
pub fn remove_file(files: &mut Vec<FileEntry>, name: &str)
    ensures
        final(files).deep_view() == without_file(old(files).deep_view(), name@),
{
    let mut kept: Vec<FileEntry> = Vec::new();
    let mut i: usize = 0;
    while i < files.len()
        invariant
            i <= files.len(),
            *files == *old(files),
            kept.deep_view() == without_file(files.deep_view().take(i as int), name@),
        decreases files.len() - i,
    {
        proof {
            let all = files.deep_view();
            assert(all.take(i + 1).drop_last() =~= all.take(i as int));
            assert(all.take(i + 1).last() == files[i as int]@);
        }
        let ghost before = kept.deep_view();
        if !str_eq(files[i].name.as_str(), name) {
            kept.push(files[i].duplicate());
            assert(kept.deep_view() =~= before.push(files[i as int]@));
        }
        i += 1;
    }
    assert(files.deep_view().take(i as int) =~= files.deep_view());
    *files = kept;
}

/// Writes a file into the listing, in place of one of its name.
pub fn put_file(files: &mut Vec<FileEntry>, file: FileEntry)
    ensures
        final(files).deep_view() == with_file(old(files).deep_view(), file@),
{
    remove_file(files, file.name.as_str());
    let ghost before = files.deep_view();
    files.push(file);
    assert(files.deep_view() =~= before.push(file@));
}

/// The size recorded for a listing.
pub fn listing_size(files: &Vec<FileEntry>) -> (size: u64)
    ensures
        size == measured_size(files.deep_view()),
{
    let mut total: u64 = 0;
    let mut capped: bool = false;
    let mut i: usize = 0;
    while i < files.len()
        invariant
            i <= files.len(),
            capped ==> total_size(files.deep_view().take(i as int)) > u64::MAX,
            !capped ==> total == total_size(files.deep_view().take(i as int)),
        decreases files.len() - i,
    {
        proof {
            let all = files.deep_view();
            assert(all.take(i + 1).drop_last() =~= all.take(i as int));
            assert(all.take(i + 1).last().size == files[i as int].size);
        }
        if !capped {
            match total.checked_add(files[i].size) {
                Some(sum) => {
                    total = sum;
                },
                None => {
                    capped = true;
                },
            }
        }
        i += 1;
    }
    assert(files.deep_view().take(i as int) =~= files.deep_view());
    if capped {
        u64::MAX
    } else {
        total
    }
}

/// A file is listed after files were written exactly if it was listed
/// before or is one of those written.
pub proof fn lemma_placed_has(base: Seq<FileModel>, added: Seq<FileModel>, name: Seq<char>)
    ensures
        has_file(placed(base, added), name) <==> (has_file(base, name) || has_file(added, name)),
    decreases added.len(),
{
    if added.len() > 0 {
        let init = added.drop_last();
        lemma_placed_has(base, init, name);
        lemma_with_file_has(placed(base, init), added.last(), name);
        if has_file(added, name) {
            let i = choose|i: int| 0 <= i < added.len() && added[i].name == name;
            if i < init.len() {
                assert(init[i].name == name);
            }
        }
        if has_file(init, name) {
            let i = choose|i: int| 0 <= i < init.len() && init[i].name == name;
            assert(added[i].name == name);
        }
        if added.last().name == name {
            assert(added[added.len() - 1].name == name);
        }
    }
}

/// The sentinel is a data file: where a listing holds it, so do its data
/// files.
pub proof fn lemma_sentinel_is_data(files: Seq<FileModel>)
    requires
        has_file(files, SENTINEL_FILE@),
    ensures
        has_file(data_files(files), SENTINEL_FILE@),
{
    reveal_strlit("CURRENT");
    reveal_strlit("metadata.json");
    assert(SENTINEL_FILE@ != SIDECAR_FILE@) by {
        assert(SENTINEL_FILE@.len() == 7);
        assert(SIDECAR_FILE@.len() == 13);
    }
    let i = choose|i: int| 0 <= i < files.len() && files[i].name == SENTINEL_FILE@;
    assert(files.contains(files[i]));
    lemma_without_file_contains(files, SIDECAR_FILE@, files[i]);
    let out = data_files(files);
    let k = choose|k: int| 0 <= k < out.len() && out[k] == files[i];
    assert(out[k].name == SENTINEL_FILE@);
}

/// The sum of the sizes after the file at an index got another size.
pub proof fn lemma_total_size_update(files: Seq<FileModel>, at: int, size: u64)
    requires
        0 <= at < files.len(),
    ensures
        total_size(files.update(at, FileModel { name: files[at].name, size })) == total_size(
            files,
        ) - files[at].size + size,
    decreases files.len(),
{
    let out = files.update(at, FileModel { name: files[at].name, size });
    if at == files.len() - 1 {
        assert(out.drop_last() =~= files.drop_last());
    } else {
        lemma_total_size_update(files.drop_last(), at, size);
        assert(out.drop_last() =~= files.drop_last().update(
            at,
            FileModel { name: files[at].name, size },
        ));
    }
}

/// The sum of the sizes after the file at an index was taken out.
pub proof fn lemma_total_size_remove(files: Seq<FileModel>, at: int)
    requires
        0 <= at < files.len(),
    ensures
        total_size(files.remove(at)) == total_size(files) - files[at].size,
    decreases files.len(),
{
    let out = files.remove(at);
    if at == files.len() - 1 {
        assert(out =~= files.drop_last());
    } else {
        lemma_total_size_remove(files.drop_last(), at);
        assert(out.drop_last() =~= files.drop_last().remove(at));
        assert(out.last() == files.last());
    }
}

} // verus!
