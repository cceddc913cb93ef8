//! The catalog store: file records with upsert by path and removal by
//! identifier or path, folder snapshots and key/value settings.
//!
//! The store lives in memory. Its contracts speak of `CatalogView`, the
//! model in `crate::catalog`.

use crate::catalog::{
    by_recency, files_wf, folder_used, has_id, has_path, id_index, id_path_pairs, in_folder,
    lemma_by_folder, lemma_id_index, lemma_insert_recent_at, lemma_matching_prefix,
    lemma_path_index, lemma_remove_wf, lemma_upsert, matching, naturally_sorted, outside_folder,
    page, path_index, records, remove_id, remove_path, upsert_files, upsert_refused, CatalogView,
    EntryView,
};
use crate::models::{
    earlier, is_earlier, texts, views, FileMeta, FileMetaView, FolderSnapshot,
};
use crate::natural::{
    lemma_natural_flip, lemma_natural_same, lemma_natural_transitive, natural_before,
    natural_order, natural_precedence, Precedence,
};
use crate::text::{chars_of, contains_ignore_ascii_case, str_eq};
use crate::textmap::TextMap;
use vstd::prelude::*;

verus! {

/// Why the catalog refused a change.
#[derive(Debug, Clone, Copy, PartialEq, Eq, Structural)]
pub enum CatalogError {
    /// A record with a new path carries an identifier that already names
    /// another record.
    DuplicateId,
}

/// A record together with the folder it was indexed under.
pub struct CatalogEntry {
    pub file: FileMeta,
    pub folder: String,
}

impl View for CatalogEntry {
    type V = EntryView;

    open spec fn view(&self) -> EntryView {
        EntryView { file: self.file@, folder: self.folder@ }
    }
}

/// The views of a list of entries.
pub open spec fn entry_views(v: Seq<CatalogEntry>) -> Seq<EntryView> {
    Seq::new(v.len(), |i: int| v[i]@)
}

/// The texts of a list of `(identifier, path)` pairs.
pub open spec fn pair_texts(v: Seq<(String, String)>) -> Seq<(Seq<char>, Seq<char>)> {
    Seq::new(v.len(), |i: int| (v[i].0@, v[i].1@))
}

/// Orders records most recently modified first, to the nanosecond;
/// records of the very same time keep their order.
pub fn sort_by_recency(list: Vec<FileMeta>) -> (sorted: Vec<FileMeta>)
    ensures
        views(sorted@) == by_recency(views(list@)),
{
    let ghost all = views(list@);
    let mut sorted: Vec<FileMeta> = Vec::new();
    assert(all.take(0) =~= Seq::<FileMetaView>::empty());
    assert(views(sorted@) =~= by_recency(all.take(0)));
    for f in it: list
        invariant
            views(it.seq()) == all,
            views(sorted@) == by_recency(all.take(it.index() as int)),
    {
        let ghost before = views(sorted@);
        assert(all.take(it.index() + 1).drop_last() =~= all.take(it.index() as int));
        assert(all.take(it.index() + 1).last() == f@);
        let mut at: usize = sorted.len();
        while at > 0 && is_earlier(sorted[at - 1].modified_at, f.modified_at)
            invariant
                at <= sorted.len(),
                before == views(sorted@),
                forall|k: int|
                    at <= k < sorted.len() ==> earlier(
                        (#[trigger] before[k]).modified_at,
                        f@.modified_at,
                    ),
            decreases at,
        {
            at = at - 1;
        }
        proof {
            if at > 0 {
                assert(!earlier(before[at - 1].modified_at, f@.modified_at));
            }
            lemma_insert_recent_at(before, f@, at as int);
        }
        sorted.insert(at, f);
        assert(views(sorted@) =~= before.insert(at as int, f@));
    }
    assert(all.take(all.len() as int) =~= all);
    sorted
}

/// The slice of `list` that starts at `offset` and holds at most `limit`
/// records.
pub fn take_page(list: Vec<FileMeta>, offset: usize, limit: usize) -> (r: Vec<FileMeta>)
    ensures
        views(r@) == page(views(list@), offset as int, limit as int),
{
    let ghost all = views(list@);
    let mut list = list;
    let len = list.len();
    let lo: usize = if offset < len {
        offset
    } else {
        len
    };
    let hi: usize = if limit < len - lo {
        lo + limit
    } else {
        len
    };
    list.truncate(hi);
    let r = list.split_off(lo);
    assert(views(r@) =~= all.subrange(lo as int, hi as int));
    r
}

/// Where `key` belongs in a naturally sorted list, and whether it already
/// stands there.
fn insertion_point(keys: &Vec<Vec<char>>, key: &Vec<char>) -> (r: (usize, bool))
    ensures
        r.0 <= keys.len(),
        forall|k: int|
            0 <= k < r.0 ==> natural_order(key@, (#[trigger] keys@[k])@) == Precedence::After,
        r.1 ==> r.0 < keys.len() && natural_order(key@, keys@[r.0 as int]@) == Precedence::Same,
        !r.1 && r.0 < keys.len() ==> natural_order(key@, keys@[r.0 as int]@)
            == Precedence::Before,
{
    let mut at: usize = 0;
    while at < keys.len()
        invariant
            at <= keys.len(),
            forall|k: int|
                0 <= k < at ==> natural_order(key@, (#[trigger] keys@[k])@) == Precedence::After,
        decreases keys.len() - at,
    {
        match natural_precedence(key, &keys[at]) {
            Precedence::After => {
                at = at + 1;
            },
            Precedence::Same => {
                return (at, true);
            },
            Precedence::Before => {
                return (at, false);
            },
        }
    }
    (at, false)
}

/// The catalog store.
pub struct Database {
    entries: Vec<CatalogEntry>,
    snapshots: TextMap<FolderSnapshot>,
    settings: TextMap<String>,
}

impl View for Database {
    type V = CatalogView;

    closed spec fn view(&self) -> CatalogView {
        CatalogView {
            files: entry_views(self.entries@),
            snapshots: self.snapshots.model(),
            settings: self.settings.model().map_values(|s: String| s@),
        }
    }
}

impl Database {
    /// The store's invariant. It implies `files_wf` of the stored files.
    pub closed spec fn wf(&self) -> bool {
        &&& files_wf(entry_views(self.entries@))
        &&& self.snapshots.wf()
        &&& self.settings.wf()
    }

    /// A well-formed store never holds a path or an identifier twice.
    pub proof fn lemma_wf(&self)
        requires
            self.wf(),
        ensures
            files_wf(self@.files),
    {
    }

    /// An empty store.
    pub fn new() -> (db: Database)
        ensures
            db.wf(),
            db@.files == Seq::<EntryView>::empty(),
            db@.snapshots == Map::<Seq<char>, FolderSnapshot>::empty(),
            db@.settings == Map::<Seq<char>, Seq<char>>::empty(),
    {
        let db = Database {
            entries: Vec::new(),
            snapshots: TextMap::new(),
            settings: TextMap::new(),
        };
        assert(db@.files =~= Seq::<EntryView>::empty());
        assert(db@.settings =~= Map::<Seq<char>, Seq<char>>::empty());
        db
    }

    fn find_path(&self, path: &str) -> (r: Option<usize>)
        ensures
            match r {
                Some(i) => i < self.entries.len() && self.entries@[i as int].file.path@ == path@,
                None => !has_path(self@.files, path@),
            },
    {
        let mut i: usize = 0;
        while i < self.entries.len()
            invariant
                i <= self.entries.len(),
                forall|k: int| 0 <= k < i ==> self.entries@[k].file.path@ != path@,
            decreases self.entries.len() - i,
        {
            if str_eq(self.entries[i].file.path.as_str(), path) {
                return Some(i);
            }
            i = i + 1;
        }
        None
    }

    fn find_id(&self, id: &str) -> (r: Option<usize>)
        ensures
            match r {
                Some(i) => i < self.entries.len() && self.entries@[i as int].file.id@ == id@,
                None => !has_id(self@.files, id@),
            },
    {
        let mut i: usize = 0;
        while i < self.entries.len()
            invariant
                i <= self.entries.len(),
                forall|k: int| 0 <= k < i ==> self.entries@[k].file.id@ != id@,
            decreases self.entries.len() - i,
        {
            if str_eq(self.entries[i].file.id.as_str(), id) {
                return Some(i);
            }
            i = i + 1;
        }
        None
    }

    /// Upsert by path. A record whose path is already stored replaces the
    /// stored one in place and takes over its identifier and this folder;
    /// a record with a new path is appended under `folder_path`. A new
    /// path under an identifier that is already in use is refused and
    /// changes nothing.
    pub fn add_file(&mut self, file: &FileMeta, folder_path: &str) -> (r: Result<(), CatalogError>)
        requires
            old(self).wf(),
        ensures
            final(self).wf(),
            final(self)@.snapshots == old(self)@.snapshots,
            final(self)@.settings == old(self)@.settings,
            r is Err <==> upsert_refused(old(self)@.files, file@),
            r is Err ==> r == Err::<(), CatalogError>(CatalogError::DuplicateId) && final(self)@
                == old(self)@,
            r is Ok ==> final(self)@.files == upsert_files(
                old(self)@.files,
                file@,
                folder_path@,
            ),
    {
        let ghost before = self@.files;
        match self.find_path(file.path.as_str()) {
            Some(i) => {
                proof {
                    lemma_path_index(before, i as int);
                }
                let mut stored = file.duplicate();
                stored.id = self.entries[i].file.id.clone();
                let entry = CatalogEntry { file: stored, folder: folder_path.to_string() };
                self.entries.set(i, entry);
                proof {
                    assert(self@.files =~= upsert_files(before, file@, folder_path@));
                    lemma_upsert(before, file@, folder_path@);
                }
                Ok(())
            },
            None => {
                match self.find_id(file.id.as_str()) {
                    Some(j) => {
                        assert(before[j as int].file.id == file@.id);
                        Err(CatalogError::DuplicateId)
                    },
                    None => {
                        let entry = CatalogEntry {
                            file: file.duplicate(),
                            folder: folder_path.to_string(),
                        };
                        self.entries.push(entry);
                        proof {
                            assert(self@.files =~= upsert_files(before, file@, folder_path@));
                            lemma_upsert(before, file@, folder_path@);
                        }
                        Ok(())
                    },
                }
            },
        }
    }

    /// The record that carries `id`.
    pub fn get_file(&self, id: &str) -> (r: Option<FileMeta>)
        requires
            self.wf(),
        ensures
            r is Some <==> has_id(self@.files, id@),
            r is Some ==> r->0@ == self@.files[id_index(self@.files, id@)].file,
    {
        match self.find_id(id) {
            Some(i) => {
                proof {
                    lemma_id_index(self@.files, i as int);
                }
                Some(self.entries[i].file.duplicate())
            },
            None => None,
        }
    }

    /// The record stored under `path`.
    pub fn get_file_by_path(&self, path: &str) -> (r: Option<FileMeta>)
        requires
            self.wf(),
        ensures
            r is Some <==> has_path(self@.files, path@),
            r is Some ==> r->0@ == self@.files[path_index(self@.files, path@)].file,
    {
        match self.find_path(path) {
            Some(i) => {
                proof {
                    lemma_path_index(self@.files, i as int);
                }
                Some(self.entries[i].file.duplicate())
            },
            None => None,
        }
    }

    /// Deletes the record that carries `id`, if there is one.
    pub fn remove_file(&mut self, id: &str)
        requires
            old(self).wf(),
        ensures
            final(self).wf(),
            final(self)@.files == remove_id(old(self)@.files, id@),
            final(self)@.snapshots == old(self)@.snapshots,
            final(self)@.settings == old(self)@.settings,
    {
        let ghost before = self@.files;
        match self.find_id(id) {
            Some(i) => {
                proof {
                    lemma_id_index(before, i as int);
                    lemma_remove_wf(before, i as int);
                }
                self.entries.remove(i);
                assert(self@.files =~= before.remove(i as int));
            },
            None => {},
        }
    }

    /// Deletes the record stored under `path`, if there is one.
    pub fn remove_file_by_path(&mut self, path: &str)
        requires
            old(self).wf(),
        ensures
            final(self).wf(),
            final(self)@.files == remove_path(old(self)@.files, path@),
            final(self)@.snapshots == old(self)@.snapshots,
            final(self)@.settings == old(self)@.settings,
    {
        let ghost before = self@.files;
        match self.find_path(path) {
            Some(i) => {
                proof {
                    lemma_path_index(before, i as int);
                    lemma_remove_wf(before, i as int);
                }
                self.entries.remove(i);
                assert(self@.files =~= before.remove(i as int));
            },
            None => {},
        }
    }

    /// The records indexed under `folder_path`, in catalog order.
    pub fn files_in_folder(&self, folder_path: &str) -> (r: Vec<FileMeta>)
        ensures
            views(r@) == records(in_folder(self@.files, folder_path@)),
    {
        let ghost all = self@.files;
        let mut r: Vec<FileMeta> = Vec::new();
        let mut i: usize = 0;
        assert(all.take(0) =~= Seq::<EntryView>::empty());
        while i < self.entries.len()
            invariant
                i <= self.entries.len(),
                all == self@.files,
                all.len() == self.entries.len(),
                r.len() == in_folder(all.take(i as int), folder_path@).len(),
                forall|k: int|
                    0 <= k < r.len() ==> (#[trigger] r@[k])@ == in_folder(
                        all.take(i as int),
                        folder_path@,
                    )[k].file,
            decreases self.entries.len() - i,
        {
            assert(all.take(i + 1).drop_last() =~= all.take(i as int));
            assert(all.take(i + 1).last() == self.entries@[i as int]@);
            if str_eq(self.entries[i].folder.as_str(), folder_path) {
                r.push(self.entries[i].file.duplicate());
            }
            i = i + 1;
        }
        assert(all.take(all.len() as int) =~= all);
        assert(views(r@) =~= records(in_folder(all, folder_path@)));
        r
    }

    /// The `(identifier, path)` pairs of the records indexed under
    /// `folder_path`, in catalog order.
    pub fn get_all_file_paths_in_folder(&self, folder_path: &str) -> (r: Vec<(String, String)>)
        ensures
            pair_texts(r@) == id_path_pairs(in_folder(self@.files, folder_path@)),
    {
        let ghost all = self@.files;
        let mut r: Vec<(String, String)> = Vec::new();
        let mut i: usize = 0;
        assert(all.take(0) =~= Seq::<EntryView>::empty());
        while i < self.entries.len()
            invariant
                i <= self.entries.len(),
                all == self@.files,
                all.len() == self.entries.len(),
                r.len() == in_folder(all.take(i as int), folder_path@).len(),
                forall|k: int|
                    0 <= k < r.len() ==> (#[trigger] r@[k]).0@ == in_folder(
                        all.take(i as int),
                        folder_path@,
                    )[k].file.id && r@[k].1@ == in_folder(
                        all.take(i as int),
                        folder_path@,
                    )[k].file.path,
            decreases self.entries.len() - i,
        {
            assert(all.take(i + 1).drop_last() =~= all.take(i as int));
            assert(all.take(i + 1).last() == self.entries@[i as int]@);
            if str_eq(self.entries[i].folder.as_str(), folder_path) {
                r.push((self.entries[i].file.id.clone(), self.entries[i].file.path.clone()));
            }
            i = i + 1;
        }
        assert(all.take(all.len() as int) =~= all);
        assert(pair_texts(r@) =~= id_path_pairs(in_folder(all, folder_path@)));
        r
    }

    /// One page of all records, most recently modified first.
    pub fn get_files(&self, offset: usize, limit: usize) -> (r: Vec<FileMeta>)
        ensures
            views(r@) == page(by_recency(records(self@.files)), offset as int, limit as int),
    {
        let mut all: Vec<FileMeta> = Vec::new();
        let mut i: usize = 0;
        while i < self.entries.len()
            invariant
                i <= self.entries.len(),
                all.len() == i,
                forall|k: int| 0 <= k < i ==> (#[trigger] all@[k])@ == self.entries@[k].file@,
            decreases self.entries.len() - i,
        {
            all.push(self.entries[i].file.duplicate());
            i = i + 1;
        }
        assert(views(all@) =~= records(self@.files));
        take_page(sort_by_recency(all), offset, limit)
    }

    /// One page of the records indexed under `folder_path`, most recently
    /// modified first.
    pub fn get_files_for_folder(&self, folder_path: &str, offset: usize, limit: usize) -> (r: Vec<
        FileMeta,
    >)
        ensures
            views(r@) == page(
                by_recency(records(in_folder(self@.files, folder_path@))),
                offset as int,
                limit as int,
            ),
    {
        take_page(sort_by_recency(self.files_in_folder(folder_path)), offset, limit)
    }

    /// The first `limit` records, in catalog order, whose name or path
    /// holds `query`, ASCII letter case ignored.
    pub fn search(&self, query: &str, limit: usize) -> (r: Vec<FileMeta>)
        ensures
            views(r@) == page(matching(self@.files, query@), 0, limit as int),
    {
        let ghost all = self@.files;
        let mut r: Vec<FileMeta> = Vec::new();
        let mut i: usize = 0;
        assert(all.take(0) =~= Seq::<EntryView>::empty());
        while i < self.entries.len() && r.len() < limit
            invariant
                i <= self.entries.len(),
                all == self@.files,
                all.len() == self.entries.len(),
                r.len() <= limit,
                r.len() == matching(all.take(i as int), query@).len(),
                forall|k: int|
                    0 <= k < r.len() ==> (#[trigger] r@[k])@ == matching(
                        all.take(i as int),
                        query@,
                    )[k],
            decreases self.entries.len() - i,
        {
            assert(all.take(i + 1).drop_last() =~= all.take(i as int));
            assert(all.take(i + 1).last() == self.entries@[i as int]@);
            let file = &self.entries[i].file;
            if contains_ignore_ascii_case(file.name.as_str(), query) || contains_ignore_ascii_case(
                file.path.as_str(),
                query,
            ) {
                r.push(file.duplicate());
            }
            i = i + 1;
        }
        proof {
            lemma_matching_prefix(all, query@, i as int);
            assert(all.take(all.len() as int) =~= all);
            assert(views(r@) =~= page(matching(all, query@), 0, limit as int));
        }
        r
    }

    /// The folders that hold at least one record, each once, in natural
    /// order.
    pub fn get_indexed_folders(&self) -> (r: Vec<String>)
        ensures
            naturally_sorted(texts(r@)),
            forall|f: Seq<char>| texts(r@).contains(f) <==> folder_used(self@.files, f),
    {
        let ghost all = self@.files;
        let mut names: Vec<String> = Vec::new();
        let mut keys: Vec<Vec<char>> = Vec::new();
        let mut i: usize = 0;
        while i < self.entries.len()
            invariant
                i <= self.entries.len(),
                all == self@.files,
                all.len() == self.entries.len(),
                names.len() == keys.len(),
                forall|k: int| 0 <= k < keys.len() ==> (#[trigger] keys@[k])@ == names@[k]@,
                naturally_sorted(texts(names@)),
                forall|f: Seq<char>|
                    texts(names@).contains(f) <==> folder_used(all.take(i as int), f),
            decreases self.entries.len() - i,
        {
            let folder = &self.entries[i].folder;
            let key = chars_of(folder.as_str());
            let (at, found) = insertion_point(&keys, &key);
            let ghost before = texts(names@);
            let ghost x = key@;
            assert(x == all[i as int].folder);
            proof {
                assert forall|f: Seq<char>|
                    folder_used(all.take(i + 1), f) <==> (folder_used(all.take(i as int), f) || f
                        == x) by {
                    if folder_used(all.take(i + 1), f) {
                        let k = choose|k: int|
                            0 <= k < all.take(i + 1).len() && (#[trigger] all.take(i + 1)[k]).folder
                                == f;
                        if k < i {
                            assert(all.take(i as int)[k].folder == f);
                        }
                    }
                    if folder_used(all.take(i as int), f) {
                        let k = choose|k: int|
                            0 <= k < all.take(i as int).len() && (#[trigger] all.take(
                                i as int,
                            )[k]).folder == f;
                        assert(all.take(i + 1)[k].folder == f);
                    }
                    if f == x {
                        assert(all.take(i + 1)[i as int].folder == f);
                    }
                }
            }
            proof {
                assert forall|k: int| 0 <= k < at implies natural_order(x, #[trigger] before[k])
                    == Precedence::After by {
                    assert(keys@[k]@ == before[k]);
                }
                if at < keys.len() {
                    assert(keys@[at as int]@ == before[at as int]);
                }
            }
            if found {
                proof {
                    lemma_natural_same(x, before[at as int]);
                    assert(before.contains(x));
                }
            } else {
                names.insert(at, folder.clone());
                keys.insert(at, key);
                proof {
                    let after = texts(names@);
                    assert(after =~= before.insert(at as int, x));
                    assert forall|a: int, b: int| 0 <= a < b < after.len() implies natural_before(
                        #[trigger] after[a],
                        #[trigger] after[b],
                    ) by {
                        if b < at {
                            assert(after[a] == before[a] && after[b] == before[b]);
                        } else if b == at {
                            assert(after[a] == before[a]);
                            lemma_natural_flip(x, before[a]);
                        } else if a < at {
                            assert(after[a] == before[a] && after[b] == before[b - 1]);
                        } else if a == at {
                            assert(after[b] == before[b - 1]);
                            if b - 1 > at {
                                assert(natural_before(before[at as int], before[b - 1]));
                                lemma_natural_transitive(x, before[at as int], before[b - 1]);
                            }
                        } else {
                            assert(after[a] == before[a - 1] && after[b] == before[b - 1]);
                        }
                    }
                    assert forall|f: Seq<char>| after.contains(f) <==> (before.contains(f) || f
                        == x) by {
                        if after.contains(f) {
                            let k = choose|k: int| 0 <= k < after.len() && after[k] == f;
                            if k < at {
                                assert(before[k] == f);
                            } else if k > at {
                                assert(before[k - 1] == f);
                            }
                        }
                        if before.contains(f) {
                            let k = choose|k: int| 0 <= k < before.len() && before[k] == f;
                            if k < at {
                                assert(after[k] == f);
                            } else {
                                assert(after[k + 1] == f);
                            }
                        }
                        if f == x {
                            assert(after[at as int] == f);
                        }
                    }
                }
            }
            i = i + 1;
        }
        assert(all.take(all.len() as int) =~= all);
        names
    }

    /// The snapshot last saved for `folder_path`.
    pub fn get_snapshot(&self, folder_path: &str) -> (r: Option<(usize, i64)>)
        requires
            self.wf(),
        ensures
            r is Some <==> self@.snapshots.contains_key(folder_path@),
            r is Some ==> r->0 == (
                self@.snapshots[folder_path@].file_count,
                self@.snapshots[folder_path@].agg_mtime,
            ),
    {
        match self.snapshots.get(folder_path) {
            Some(s) => Some((s.file_count, s.agg_mtime)),
            None => None,
        }
    }

    /// Saves the snapshot of `folder_path`, replacing an earlier one.
    pub fn save_snapshot(&mut self, folder_path: &str, count: usize, agg_mtime: i64)
        requires
            old(self).wf(),
        ensures
            final(self).wf(),
            final(self)@.files == old(self)@.files,
            final(self)@.settings == old(self)@.settings,
            final(self)@.snapshots == old(self)@.snapshots.insert(
                folder_path@,
                FolderSnapshot { file_count: count, agg_mtime },
            ),
    {
        self.snapshots.put(
            folder_path.to_string(),
            FolderSnapshot { file_count: count, agg_mtime },
        );
    }

    /// Deletes every record indexed under `folder_path` and the folder's
    /// snapshot.
    pub fn clear_folder(&mut self, folder_path: &str)
        requires
            old(self).wf(),
        ensures
            final(self).wf(),
            final(self)@.files == outside_folder(old(self)@.files, folder_path@),
            final(self)@.snapshots == old(self)@.snapshots.remove(folder_path@),
            final(self)@.settings == old(self)@.settings,
    {
        let ghost all = self@.files;
        let mut previous: Vec<CatalogEntry> = Vec::new();
        core::mem::swap(&mut self.entries, &mut previous);
        assert(all.take(0) =~= Seq::<EntryView>::empty());
        assert(entry_views(self.entries@) =~= Seq::<EntryView>::empty());
        for entry in it: previous
            invariant
                entry_views(it.seq()) == all,
                entry_views(self.entries@) =~= outside_folder(
                    all.take(it.index() as int),
                    folder_path@,
                ),
                self.snapshots == old(self).snapshots,
                self.settings == old(self).settings,
        {
            assert(all.take(it.index() + 1).drop_last() =~= all.take(it.index() as int));
            assert(all[it.index() as int] == entry@);
            if !str_eq(entry.folder.as_str(), folder_path) {
                self.entries.push(entry);
            }
        }
        assert(all.take(all.len() as int) =~= all);
        proof {
            lemma_by_folder(all, folder_path@, false);
        }
        self.snapshots.remove(folder_path);
    }

    /// The value stored under `key`.
    pub fn get_setting(&self, key: &str) -> (r: Option<String>)
        requires
            self.wf(),
        ensures
            r is Some <==> self@.settings.contains_key(key@),
            r is Some ==> r->0@ == self@.settings[key@],
    {
        match self.settings.get(key) {
            Some(v) => Some(v.clone()),
            None => None,
        }
    }

    /// Stores `value` under `key`, replacing an earlier value.
    pub fn set_setting(&mut self, key: &str, value: &str)
        requires
            old(self).wf(),
        ensures
            final(self).wf(),
            final(self)@.files == old(self)@.files,
            final(self)@.snapshots == old(self)@.snapshots,
            final(self)@.settings == old(self)@.settings.insert(key@, value@),
    {
        self.settings.put(key.to_string(), value.to_string());
        assert(self@.settings =~= old(self)@.settings.insert(key@, value@));
    }

    /// Empties the store: no records, no snapshots, no settings.
    pub fn clear_library(&mut self)
        ensures
            final(self).wf(),
            final(self)@.files == Seq::<EntryView>::empty(),
            final(self)@.snapshots == Map::<Seq<char>, FolderSnapshot>::empty(),
            final(self)@.settings == Map::<Seq<char>, Seq<char>>::empty(),
    {
        self.entries.clear();
        self.snapshots.clear();
        self.settings.clear();
        assert(self@.files =~= Seq::<EntryView>::empty());
        assert(self@.settings =~= Map::<Seq<char>, Seq<char>>::empty());
    }

    /// Every entry of the store, in catalog order.
    pub fn all_entries(&self) -> (r: Vec<CatalogEntry>)
        ensures
            entry_views(r@) == self@.files,
    {
        let mut r: Vec<CatalogEntry> = Vec::new();
        let mut i: usize = 0;
        while i < self.entries.len()
            invariant
                i <= self.entries.len(),
                r.len() == i,
                forall|k: int| 0 <= k < i ==> (#[trigger] r@[k])@ == self.entries@[k]@,
            decreases self.entries.len() - i,
        {
            r.push(
                CatalogEntry {
                    file: self.entries[i].file.duplicate(),
                    folder: self.entries[i].folder.clone(),
                },
            );
            i = i + 1;
        }
        assert(entry_views(r@) =~= self@.files);
        r
    }

    /// The folders for which a snapshot is saved, each once.
    pub fn snapshot_folders(&self) -> (r: Vec<String>)
        requires
            self.wf(),
        ensures
            forall|i: int, j: int| 0 <= i < j < r.len() ==> r@[i]@ != r@[j]@,
            forall|f: Seq<char>| texts(r@).contains(f) <==> self@.snapshots.contains_key(f),
    {
        self.snapshots.keys()
    }

    /// The keys under which a setting is stored, each once.
    pub fn setting_keys(&self) -> (r: Vec<String>)
        requires
            self.wf(),
        ensures
            forall|i: int, j: int| 0 <= i < j < r.len() ==> r@[i]@ != r@[j]@,
            forall|k: Seq<char>| texts(r@).contains(k) <==> self@.settings.contains_key(k),
    {
        self.settings.keys()
    }

    /// How many records the store holds.
    pub fn file_count(&self) -> (n: usize)
        ensures
            n == self@.files.len(),
    {
        self.entries.len()
    }
}

} // verus!
