//! The mathematical model of the catalog: a sequence of entries in the
//! order in which their paths were first stored, and the functions that
//! say what each catalog operation does to it.

use crate::models::{earlier, FileMetaView, FolderSnapshot};
use crate::natural::natural_before;
use crate::text::contains_ignoring_case;
use vstd::prelude::*;
use vstd::seq_lib::to_multiset_build;

verus! {

/// One catalog entry: a record and the folder it was indexed under.
#[verifier::ext_equal]
pub struct EntryView {
    pub file: FileMetaView,
    pub folder: Seq<char>,
}

/// Everything the catalog holds.
#[verifier::ext_equal]
pub struct CatalogView {
    pub files: Seq<EntryView>,
    pub snapshots: Map<Seq<char>, FolderSnapshot>,
    pub settings: Map<Seq<char>, Seq<char>>,
}

/// Whether some entry is stored under `path`.
pub open spec fn has_path(files: Seq<EntryView>, path: Seq<char>) -> bool {
    exists|i: int| 0 <= i < files.len() && files[i].file.path == path
}

/// The position of the entry stored under `path`.
pub open spec fn path_index(files: Seq<EntryView>, path: Seq<char>) -> int {
    choose|i: int| 0 <= i < files.len() && files[i].file.path == path
}

/// Whether some entry carries the identifier `id`.
pub open spec fn has_id(files: Seq<EntryView>, id: Seq<char>) -> bool {
    exists|i: int| 0 <= i < files.len() && files[i].file.id == id
}

/// The position of the entry that carries `id`.
pub open spec fn id_index(files: Seq<EntryView>, id: Seq<char>) -> int {
    choose|i: int| 0 <= i < files.len() && files[i].file.id == id
}

/// No two entries share a path.
pub open spec fn paths_distinct(files: Seq<EntryView>) -> bool {
    forall|i: int, j: int|
        0 <= i < j < files.len() ==> (#[trigger] files[i]).file.path != (
        #[trigger] files[j]).file.path
}

/// No two entries share an identifier.
pub open spec fn ids_distinct(files: Seq<EntryView>) -> bool {
    forall|i: int, j: int|
        0 <= i < j < files.len() ==> (#[trigger] files[i]).file.id != (#[trigger] files[j]).file.id
}

/// The catalog's invariant: a path is stored once, and an identifier
/// names one entry.
pub open spec fn files_wf(files: Seq<EntryView>) -> bool {
    paths_distinct(files) && ids_distinct(files)
}

/// `file` as it is stored over an entry that carries `id`: every field is
/// the new one, the identifier is kept.
pub open spec fn with_id(file: FileMetaView, id: Seq<char>) -> FileMetaView {
    FileMetaView { id, ..file }
}

/// An upsert is refused when the path is new and the identifier already
/// names another entry.
pub open spec fn upsert_refused(files: Seq<EntryView>, file: FileMetaView) -> bool {
    !has_path(files, file.path) && has_id(files, file.id)
}

/// The entries after `file` was stored under `folder`: an entry with the
/// same path is replaced in place and keeps its identifier, a new path is
/// appended.
pub open spec fn upsert_files(files: Seq<EntryView>, file: FileMetaView, folder: Seq<char>) -> Seq<
    EntryView,
> {
    if has_path(files, file.path) {
        let i = path_index(files, file.path);
        files.update(i, EntryView { file: with_id(file, files[i].file.id), folder })
    } else {
        files.push(EntryView { file, folder })
    }
}

/// The record as the catalog holds it after an upsert of `file`: under
/// the identifier of the entry that was there, if one was.
pub open spec fn stored_form(files: Seq<EntryView>, file: FileMetaView) -> FileMetaView {
    if has_path(files, file.path) {
        with_id(file, files[path_index(files, file.path)].file.id)
    } else {
        file
    }
}

/// The entries without the one that carries `id`.
pub open spec fn remove_id(files: Seq<EntryView>, id: Seq<char>) -> Seq<EntryView> {
    if has_id(files, id) {
        files.remove(id_index(files, id))
    } else {
        files
    }
}

/// The entries without the one stored under `path`.
pub open spec fn remove_path(files: Seq<EntryView>, path: Seq<char>) -> Seq<EntryView> {
    if has_path(files, path) {
        files.remove(path_index(files, path))
    } else {
        files
    }
}

/// The entries that are indexed under `folder` (with `inside`) or under
/// any other folder (without it), in catalog order.
pub open spec fn by_folder(files: Seq<EntryView>, folder: Seq<char>, inside: bool) -> Seq<
    EntryView,
>
    decreases files.len(),
{
    if files.len() == 0 {
        Seq::empty()
    } else {
        let rest = by_folder(files.drop_last(), folder, inside);
        if (files.last().folder == folder) == inside {
            rest.push(files.last())
        } else {
            rest
        }
    }
}

/// The entries indexed under `folder`, in catalog order.
pub open spec fn in_folder(files: Seq<EntryView>, folder: Seq<char>) -> Seq<EntryView> {
    by_folder(files, folder, true)
}

/// The entries indexed under any other folder than `folder`, in catalog
/// order.
pub open spec fn outside_folder(files: Seq<EntryView>, folder: Seq<char>) -> Seq<EntryView> {
    by_folder(files, folder, false)
}

/// The records of a list of entries.
pub open spec fn records(files: Seq<EntryView>) -> Seq<FileMetaView> {
    Seq::new(files.len(), |i: int| files[i].file)
}

/// The `(identifier, path)` pairs of a list of entries.
pub open spec fn id_path_pairs(files: Seq<EntryView>) -> Seq<(Seq<char>, Seq<char>)> {
    Seq::new(files.len(), |i: int| (files[i].file.id, files[i].file.path))
}

/// `sorted` with `f` put behind every record that is at least as recent.
pub open spec fn insert_recent(sorted: Seq<FileMetaView>, f: FileMetaView) -> Seq<FileMetaView>
    decreases sorted.len(),
{
    if sorted.len() == 0 {
        seq![f]
    } else if !earlier(sorted.last().modified_at, f.modified_at) {
        sorted.push(f)
    } else {
        insert_recent(sorted.drop_last(), f).push(sorted.last())
    }
}

/// The records ordered most recently modified first, by the time their
/// `modified` text was written from, to the nanosecond; records of the
/// very same time keep their catalog order.
pub open spec fn by_recency(list: Seq<FileMetaView>) -> Seq<FileMetaView>
    decreases list.len(),
{
    if list.len() == 0 {
        Seq::empty()
    } else {
        insert_recent(by_recency(list.drop_last()), list.last())
    }
}

/// Whether no record stands in front of a more recent one.
pub open spec fn recent_first(list: Seq<FileMetaView>) -> bool {
    forall|i: int, j: int|
        0 <= i < j < list.len() ==> !earlier(
            (#[trigger] list[i]).modified_at,
            (#[trigger] list[j]).modified_at,
        )
}

/// The slice of `list` that starts at `offset` and holds at most `limit`
/// items.
pub open spec fn page<T>(list: Seq<T>, offset: int, limit: int) -> Seq<T>
    recommends
        0 <= offset,
        0 <= limit,
{
    let lo = if offset < list.len() {
        offset
    } else {
        list.len() as int
    };
    let hi = if offset + limit < list.len() {
        offset + limit
    } else {
        list.len() as int
    };
    list.subrange(lo, hi)
}

/// Whether a record answers a search for `query`: the query occurs in its
/// name or in its path, ASCII letter case ignored.
pub open spec fn answers(file: FileMetaView, query: Seq<char>) -> bool {
    contains_ignoring_case(file.name, query) || contains_ignoring_case(file.path, query)
}

/// The records that answer `query`, in catalog order.
pub open spec fn matching(files: Seq<EntryView>, query: Seq<char>) -> Seq<FileMetaView>
    decreases files.len(),
{
    if files.len() == 0 {
        Seq::empty()
    } else {
        let rest = matching(files.drop_last(), query);
        if answers(files.last().file, query) {
            rest.push(files.last().file)
        } else {
            rest
        }
    }
}

/// Whether some entry is indexed under `folder`.
pub open spec fn folder_used(files: Seq<EntryView>, folder: Seq<char>) -> bool {
    exists|i: int| 0 <= i < files.len() && (#[trigger] files[i]).folder == folder
}

/// Whether each text of the list comes strictly before every later one in
/// the natural order.
pub open spec fn naturally_sorted(list: Seq<Seq<char>>) -> bool {
    forall|i: int, j: int|
        0 <= i < j < list.len() ==> natural_before(#[trigger] list[i], #[trigger] list[j])
}

/// `insert_recent` puts the record in front of the run of strictly older
/// records at the end of the list.
pub proof fn lemma_insert_recent_at(sorted: Seq<FileMetaView>, f: FileMetaView, at: int)
    requires
        0 <= at <= sorted.len(),
        forall|k: int|
            at <= k < sorted.len() ==> earlier((#[trigger] sorted[k]).modified_at, f.modified_at),
        at > 0 ==> !earlier(sorted[at - 1].modified_at, f.modified_at),
    ensures
        insert_recent(sorted, f) == sorted.insert(at, f),
    decreases sorted.len(),
{
    if sorted.len() == 0 {
        assert(seq![f] =~= sorted.insert(at, f));
    } else if at == sorted.len() {
        assert(sorted.push(f) =~= sorted.insert(at, f));
    } else {
        let front = sorted.drop_last();
        assert(earlier(sorted[sorted.len() - 1].modified_at, f.modified_at));
        assert forall|k: int| at <= k < front.len() implies earlier(
            (#[trigger] front[k]).modified_at,
            f.modified_at,
        ) by {
            assert(front[k] == sorted[k]);
        }
        lemma_insert_recent_at(front, f, at);
        assert(front.insert(at, f).push(sorted.last()) =~= sorted.insert(at, f));
    }
}

/// The matches among the first `n` entries are the first matches of the
/// whole list.
pub proof fn lemma_matching_prefix(files: Seq<EntryView>, query: Seq<char>, n: int)
    requires
        0 <= n <= files.len(),
    ensures
        matching(files.take(n), query).len() <= matching(files, query).len(),
        forall|k: int|
            0 <= k < matching(files.take(n), query).len() ==> matching(files.take(n), query)[k]
                == #[trigger] matching(files, query)[k],
    decreases files.len() - n,
{
    if n < files.len() {
        lemma_matching_prefix(files, query, n + 1);
        assert(files.take(n + 1).drop_last() =~= files.take(n));
    } else {
        assert(files.take(n) =~= files);
    }
}

/// Putting a record into a list that is ordered by recency keeps the
/// order, and adds that record and nothing else.
pub proof fn lemma_insert_recent(sorted: Seq<FileMetaView>, f: FileMetaView)
    requires
        recent_first(sorted),
    ensures
        recent_first(insert_recent(sorted, f)),
        insert_recent(sorted, f).len() == sorted.len() + 1,
        insert_recent(sorted, f).to_multiset() == sorted.to_multiset().insert(f),
        forall|k: int|
            0 <= k < insert_recent(sorted, f).len() ==> (#[trigger] insert_recent(sorted, f)[k])
                == f || sorted.contains(insert_recent(sorted, f)[k]),
    decreases sorted.len(),
{
    let out = insert_recent(sorted, f);
    if sorted.len() == 0 || !earlier(sorted.last().modified_at, f.modified_at) {
        to_multiset_build(sorted, f);
        assert(out =~= sorted.push(f));
        assert forall|i: int, j: int| 0 <= i < j < out.len() implies !earlier(
            (#[trigger] out[i]).modified_at,
            (#[trigger] out[j]).modified_at,
        ) by {
            if j == sorted.len() {
                if i < sorted.len() - 1 {
                    assert(!earlier(
                        sorted[i].modified_at,
                        sorted[sorted.len() - 1].modified_at,
                    ));
                }
            } else {
                assert(out[i] == sorted[i] && out[j] == sorted[j]);
            }
        }
        assert forall|k: int| 0 <= k < out.len() implies (#[trigger] out[k]) == f
            || sorted.contains(out[k]) by {
            if k < sorted.len() {
                assert(sorted[k] == out[k]);
            }
        }
    } else {
        let front = sorted.drop_last();
        let last = sorted.last();
        assert forall|i: int, j: int| 0 <= i < j < front.len() implies !earlier(
            (#[trigger] front[i]).modified_at,
            (#[trigger] front[j]).modified_at,
        ) by {
            assert(front[i] == sorted[i] && front[j] == sorted[j]);
        }
        lemma_insert_recent(front, f);
        let inner = insert_recent(front, f);
        assert(sorted =~= front.push(last));
        to_multiset_build(inner, last);
        to_multiset_build(front, last);
        assert(front.to_multiset().insert(f).insert(last) =~= front.to_multiset().insert(
            last,
        ).insert(f));
        assert forall|k: int| 0 <= k < out.len() implies (#[trigger] out[k]) == f
            || sorted.contains(out[k]) by {
            if k < inner.len() {
                assert(out[k] == inner[k]);
                if inner[k] != f {
                    let m = choose|m: int| 0 <= m < front.len() && front[m] == inner[k];
                    assert(sorted[m] == out[k]);
                }
            } else {
                assert(sorted[sorted.len() - 1] == out[k]);
            }
        }
        assert forall|i: int, j: int| 0 <= i < j < out.len() implies !earlier(
            (#[trigger] out[i]).modified_at,
            (#[trigger] out[j]).modified_at,
        ) by {
            if j < inner.len() {
                assert(out[i] == inner[i] && out[j] == inner[j]);
            } else {
                assert(out[i] == inner[i]);
                if inner[i] != f {
                    let m = choose|m: int| 0 <= m < front.len() && front[m] == inner[i];
                    assert(sorted[m] == inner[i]);
                    assert(!earlier(
                        sorted[m].modified_at,
                        sorted[sorted.len() - 1].modified_at,
                    ));
                }
            }
        }
    }
}

/// Ordering by recency rearranges the records, loses and adds none, and
/// puts no record in front of a more recent one.
pub proof fn lemma_by_recency(list: Seq<FileMetaView>)
    ensures
        recent_first(by_recency(list)),
        by_recency(list).len() == list.len(),
        by_recency(list).to_multiset() == list.to_multiset(),
    decreases list.len(),
{
    if list.len() > 0 {
        let front = list.drop_last();
        lemma_by_recency(front);
        lemma_insert_recent(by_recency(front), list.last());
        assert(list =~= front.push(list.last()));
        to_multiset_build(front, list.last());
    } else {
        assert(list =~= by_recency(list));
    }
}

/// With distinct paths, the entry found under a path is the one that
/// `path_index` names.
pub proof fn lemma_path_index(files: Seq<EntryView>, i: int)
    requires
        paths_distinct(files),
        0 <= i < files.len(),
    ensures
        has_path(files, files[i].file.path),
        path_index(files, files[i].file.path) == i,
{
    let p = files[i].file.path;
    let j = path_index(files, p);
    assert(0 <= j < files.len() && files[j].file.path == p);
    if i < j {
        assert(files[i].file.path != files[j].file.path);
    } else if j < i {
        assert(files[j].file.path != files[i].file.path);
    }
}

/// With distinct identifiers, the entry found under an identifier is the
/// one that `id_index` names.
pub proof fn lemma_id_index(files: Seq<EntryView>, i: int)
    requires
        ids_distinct(files),
        0 <= i < files.len(),
    ensures
        has_id(files, files[i].file.id),
        id_index(files, files[i].file.id) == i,
{
    let d = files[i].file.id;
    let j = id_index(files, d);
    assert(0 <= j < files.len() && files[j].file.id == d);
    if i < j {
        assert(files[i].file.id != files[j].file.id);
    } else if j < i {
        assert(files[j].file.id != files[i].file.id);
    }
}

/// Taking one entry out keeps the invariant.
pub proof fn lemma_remove_wf(files: Seq<EntryView>, i: int)
    requires
        files_wf(files),
        0 <= i < files.len(),
    ensures
        files_wf(files.remove(i)),
        files.remove(i).len() == files.len() - 1,
        forall|k: int| 0 <= k < i ==> files.remove(i)[k] == files[k],
        forall|k: int| i <= k < files.len() - 1 ==> files.remove(i)[k] == files[k + 1],
{
    let after = files.remove(i);
    assert forall|a: int, b: int| 0 <= a < b < after.len() implies (#[trigger] after[a]).file.path
        != (#[trigger] after[b]).file.path && after[a].file.id != after[b].file.id by {
        let a0 = if a < i { a } else { a + 1 };
        let b0 = if b < i { b } else { b + 1 };
        assert(after[a] == files[a0]);
        assert(after[b] == files[b0]);
    }
}

/// What `by_folder` keeps: entries of the catalog on the chosen side of
/// the folder, all of them, and the catalog's invariant with them.
pub proof fn lemma_by_folder(files: Seq<EntryView>, folder: Seq<char>, inside: bool)
    ensures
        by_folder(files, folder, inside).len() <= files.len(),
        forall|k: int|
            0 <= k < by_folder(files, folder, inside).len() ==> ((#[trigger] by_folder(
                files,
                folder,
                inside,
            )[k]).folder == folder) == inside && files.contains(
                by_folder(files, folder, inside)[k],
            ),
        forall|i: int|
            0 <= i < files.len() && ((#[trigger] files[i]).folder == folder) == inside
                ==> by_folder(files, folder, inside).contains(files[i]),
        files_wf(files) ==> files_wf(by_folder(files, folder, inside)),
    decreases files.len(),
{
    if files.len() > 0 {
        let front = files.drop_last();
        let rest = by_folder(front, folder, inside);
        let all = by_folder(files, folder, inside);
        lemma_by_folder(front, folder, inside);
        assert forall|k: int| 0 <= k < all.len() implies ((#[trigger] all[k]).folder == folder)
            == inside && files.contains(all[k]) by {
            if k < rest.len() {
                assert(all[k] == rest[k]);
                assert(front.contains(rest[k]));
                let j = choose|j: int| 0 <= j < front.len() && front[j] == rest[k];
                assert(files[j] == all[k]);
            } else {
                assert(all[k] == files[files.len() - 1]);
            }
        }
        assert forall|i: int|
            0 <= i < files.len() && ((#[trigger] files[i]).folder == folder)
                == inside implies all.contains(files[i]) by {
            if i < files.len() - 1 {
                assert(front[i] == files[i]);
                assert(rest.contains(front[i]));
                let j = choose|j: int| 0 <= j < rest.len() && rest[j] == front[i];
                assert(all[j] == files[i]);
            } else {
                assert(all[all.len() - 1] == files[i]);
            }
        }
        if files_wf(files) {
            assert(files_wf(front)) by {
                assert forall|a: int, b: int| 0 <= a < b < front.len() implies (
                #[trigger] front[a]).file.path != (#[trigger] front[b]).file.path
                    && front[a].file.id != front[b].file.id by {
                    assert(front[a] == files[a]);
                    assert(front[b] == files[b]);
                }
            }
            assert forall|a: int, b: int| 0 <= a < b < all.len() implies (
            #[trigger] all[a]).file.path != (#[trigger] all[b]).file.path && all[a].file.id
                != all[b].file.id by {
                if b < rest.len() {
                    assert(all[a] == rest[a]);
                    assert(all[b] == rest[b]);
                } else {
                    assert(all[a] == rest[a]);
                    assert(front.contains(rest[a]));
                    let j = choose|j: int| 0 <= j < front.len() && front[j] == rest[a];
                    assert(files[j] == rest[a]);
                    assert(all[b] == files[files.len() - 1]);
                }
            }
        }
    }
}

/// An accepted upsert keeps the invariant and never duplicates: the
/// catalog grows by one entry if the path was new and not at all if it
/// was known, and it then holds the record under its path, in its stored
/// form.
pub proof fn lemma_upsert(files: Seq<EntryView>, file: FileMetaView, folder: Seq<char>)
    requires
        files_wf(files),
        !upsert_refused(files, file),
    ensures
        files_wf(upsert_files(files, file, folder)),
        upsert_files(files, file, folder).len() == files.len() + if has_path(files, file.path) {
            0int
        } else {
            1int
        },
        has_path(upsert_files(files, file, folder), file.path),
        upsert_files(files, file, folder)[path_index(
            upsert_files(files, file, folder),
            file.path,
        )].file == stored_form(files, file),
{
    let after = upsert_files(files, file, folder);
    if has_path(files, file.path) {
        let i = path_index(files, file.path);
        assert(after[i].file.path == file.path);
        assert forall|a: int, b: int| 0 <= a < b < after.len() implies (
        #[trigger] after[a]).file.path != (#[trigger] after[b]).file.path && after[a].file.id
            != after[b].file.id by {
            assert(after[a].file.path == files[a].file.path);
            assert(after[b].file.path == files[b].file.path);
            assert(after[a].file.id == files[a].file.id);
            assert(after[b].file.id == files[b].file.id);
        }
        lemma_path_index(after, i);
    } else {
        let i = files.len() as int;
        assert(after[i].file.path == file.path);
        assert forall|a: int, b: int| 0 <= a < b < after.len() implies (
        #[trigger] after[a]).file.path != (#[trigger] after[b]).file.path && after[a].file.id
            != after[b].file.id by {
            assert(after[a] == files[a]);
            if b < files.len() {
                assert(after[b] == files[b]);
            }
        }
        lemma_path_index(after, i);
    }
}

/// An upsert under a path that is known refreshes the record where it
/// stands: the entry keeps its place and its identifier, takes every other
/// field and the folder from the new record, and all other entries and the
/// number of entries stay as they were. If no record carried the new
/// record's identifier before, none carries it afterwards.
pub proof fn lemma_upsert_known_path(files: Seq<EntryView>, file: FileMetaView, folder: Seq<char>)
    requires
        files_wf(files),
        has_path(files, file.path),
    ensures
        ({
            let i = path_index(files, file.path);
            let after = upsert_files(files, file, folder);
            &&& 0 <= i < files.len()
            &&& !upsert_refused(files, file)
            &&& after.len() == files.len()
            &&& after[i].file == with_id(file, files[i].file.id)
            &&& after[i].file.id == files[i].file.id
            &&& after[i].folder == folder
            &&& forall|k: int| 0 <= k < files.len() && k != i ==> #[trigger] after[k] == files[k]
            &&& !has_id(files, file.id) ==> !has_id(after, file.id)
        }),
{
    let i = path_index(files, file.path);
    let after = upsert_files(files, file, folder);
    if has_id(after, file.id) {
        let k = choose|k: int| 0 <= k < after.len() && after[k].file.id == file.id;
        assert(files[k].file.id == after[k].file.id);
    }
}

} // verus!
