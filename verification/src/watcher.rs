//! The live watcher's decisions: which folders are watched, which file
//! system events matter, and what they do to the catalog.

use crate::catalog::{remove_path, upsert_files, upsert_refused};
use crate::database::{CatalogError, Database};
use crate::indexer::{extension_key, is_supported_extension, supported_extension};
use crate::models::{opt_text, FileMeta, FileMetaView};
use crate::text::to_lowercase;
use crate::textmap::TextMap;
use vstd::prelude::*;

verus! {

/// The kind of a file system event.
#[derive(Debug, Clone, Copy, PartialEq, Eq, Structural)]
pub enum WatchEventKind {
    /// A file was read or opened; nothing changed.
    Access,
    /// A file appeared.
    Create,
    /// A file's content or metadata changed.
    Modify,
    /// A file disappeared.
    Remove,
    /// Anything else.
    Other,
}

/// What an event asks of the engine.
#[derive(Debug, Clone, Copy, PartialEq, Eq, Structural)]
pub enum WatchAction {
    /// Nothing.
    Ignore,
    /// Process the file, ensure its thumbnail and upsert its record.
    Upsert,
    /// Remove the record stored under the path.
    Remove,
}

/// What an event of `kind` on a path with the lower-case extension `ext`
/// asks for: nothing for access events, other kinds and unsupported
/// extensions; an upsert for a created or modified image; a removal for a
/// removed one.
pub open spec fn watch_decision(kind: WatchEventKind, ext: Seq<char>) -> WatchAction {
    if !supported_extension(ext) {
        WatchAction::Ignore
    } else {
        match kind {
            WatchEventKind::Create => WatchAction::Upsert,
            WatchEventKind::Modify => WatchAction::Upsert,
            WatchEventKind::Remove => WatchAction::Remove,
            WatchEventKind::Access => WatchAction::Ignore,
            WatchEventKind::Other => WatchAction::Ignore,
        }
    }
}

/// Decides what one event on one path asks for. `extension` is the
/// path's extension as found, if it has one.
pub fn watch_action(kind: WatchEventKind, extension: &Option<String>) -> (action: WatchAction)
    ensures
        action == watch_decision(kind, extension_key(opt_text(*extension))),
{
    match kind {
        WatchEventKind::Access => {
            return WatchAction::Ignore;
        },
        WatchEventKind::Other => {
            return WatchAction::Ignore;
        },
        _ => {},
    }
    let ext = match extension {
        Some(e) => to_lowercase(e.as_str()),
        None => {
            proof {
                reveal_strlit("");
                assert(""@ =~= Seq::<char>::empty());
            }
            to_lowercase("")
        },
    };
    if !is_supported_extension(ext.as_str()) {
        return WatchAction::Ignore;
    }
    match kind {
        WatchEventKind::Remove => WatchAction::Remove,
        _ => WatchAction::Upsert,
    }
}

/// The record that a create or modify event stores: the processed record
/// with the thumbnail attached, if one could be made.
pub open spec fn with_thumbnail(file: FileMetaView, thumbnail: Option<Seq<char>>) -> FileMetaView {
    match thumbnail {
        Some(p) => FileMetaView { thumbnail_path: Some(p), ..file },
        None => file,
    }
}

/// Handles a create or modify event once the file is processed: attaches
/// the thumbnail, if there is one, and upserts the record under `folder`.
pub fn apply_watch_upsert(
    db: &mut Database,
    folder: &str,
    file: FileMeta,
    thumbnail: Option<String>,
) -> (r: Result<(), CatalogError>)
    requires
        old(db).wf(),
    ensures
        final(db).wf(),
        final(db)@.snapshots == old(db)@.snapshots,
        final(db)@.settings == old(db)@.settings,
        r is Err <==> upsert_refused(old(db)@.files, with_thumbnail(file@, opt_text(thumbnail))),
        r is Err ==> final(db)@ == old(db)@,
        r is Ok ==> final(db)@.files == upsert_files(
            old(db)@.files,
            with_thumbnail(file@, opt_text(thumbnail)),
            folder@,
        ),
{
    let mut record = file;
    match thumbnail {
        Some(p) => {
            record.thumbnail_path = Some(p);
        },
        None => {},
    }
    assert(record@ =~= with_thumbnail(file@, opt_text(thumbnail)));
    db.add_file(&record, folder)
}

/// Handles a remove event: deletes the record stored under `path`.
pub fn apply_watch_remove(db: &mut Database, path: &str)
    requires
        old(db).wf(),
    ensures
        final(db).wf(),
        final(db)@.files == remove_path(old(db)@.files, path@),
        final(db)@.snapshots == old(db)@.snapshots,
        final(db)@.settings == old(db)@.settings,
{
    db.remove_file_by_path(path)
}

/// The folders that are being watched.
pub struct WatchRegistry {
    folders: TextMap<bool>,
}

impl WatchRegistry {
    /// The registry's invariant.
    pub closed spec fn wf(&self) -> bool {
        self.folders.wf()
    }

    /// The set of watched folders.
    pub closed spec fn watched(&self) -> Set<Seq<char>> {
        self.folders.model().dom()
    }

    /// A registry that watches nothing.
    pub fn new() -> (r: WatchRegistry)
        ensures
            r.wf(),
            r.watched() == Set::<Seq<char>>::empty(),
    {
        let r = WatchRegistry { folders: TextMap::new() };
        assert(r.watched() =~= Set::<Seq<char>>::empty());
        r
    }

    /// Whether `folder` is watched.
    pub fn is_watching(&self, folder: &str) -> (r: bool)
        requires
            self.wf(),
        ensures
            r == self.watched().contains(folder@),
    {
        self.folders.get(folder).is_some()
    }

    /// Subscribes to `folder`. Returns whether the folder was not watched
    /// before: a folder that is already watched stays as it is.
    pub fn subscribe(&mut self, folder: &str) -> (started: bool)
        requires
            old(self).wf(),
        ensures
            final(self).wf(),
            started == !old(self).watched().contains(folder@),
            final(self).watched() == old(self).watched().insert(folder@),
    {
        if self.folders.get(folder).is_some() {
            assert(self.watched() =~= old(self).watched().insert(folder@));
            false
        } else {
            self.folders.put(folder.to_string(), true);
            assert(self.watched() =~= old(self).watched().insert(folder@));
            true
        }
    }
}

/// Subscribing twice is subscribing once: the second request starts no
/// watcher and leaves the set of watched folders as it is.
pub proof fn lemma_subscribe_idempotent(watched: Set<Seq<char>>, folder: Seq<char>)
    ensures
        watched.insert(folder).contains(folder),
        watched.insert(folder).insert(folder) == watched.insert(folder),
{
    assert(watched.insert(folder).insert(folder) =~= watched.insert(folder));
}

} // verus!
