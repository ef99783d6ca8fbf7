use crate::model::DatabaseData;
use crate::store::{exec_batch, exec_sql, SqlArg};
use crate::Error;
use vstd::prelude::*;

verus! {

/// What a probed path turned out to be.
pub enum PathKind {
    File,
    Dir,
    Missing,
}

/// One debounced filesystem event, translated to plain values: relative
/// paths as components, with the path kinds already probed. Rescans and
/// untrusted folder-creation events are handled by a full scan before
/// events reach this dispatcher.
pub enum FileEvent {
    FileCreated { path: Vec<String> },
    FileRemoved { path: Vec<String> },
    FolderRemoved { path: Vec<String> },
    Renamed { old_path: Vec<String>, new_path: Vec<String>, new_kind: PathKind },
    Updated { path: Vec<String>, kind: PathKind },
}

/// What handling one event decided.
pub enum WatchOutcome {
    Changed,
    Unchanged,
    NeedScan,
}

/// A path the watcher treats as an audio file: non-empty, its file name
/// not hidden and carrying an audio extension.
pub open spec fn audio_event_path(p: Seq<Seq<char>>) -> bool {
    p.len() > 0 && !(p.last().len() > 0 && p.last()[0] == '.') && crate::is_audio_name(p.last())
}

/// The catalog after the entry registered at `p` was removed: exactly the
/// entry-removal transition applied to the resolved entry.
pub open spec fn removal_effect(pre: DatabaseData, post: DatabaseData, p: Seq<Seq<char>>) -> bool {
    &&& crate::queries::spec_entry_at(pre.folders_view(), p) is Some
    &&& post.folders_view() == crate::folder_ops::spec_remove_entry(
        pre.folders_view(),
        pre.entries_view(),
        crate::queries::spec_entry_at(pre.folders_view(), p)->Some_0,
    ).0
    &&& post.entries_view() == crate::folder_ops::spec_remove_entry(
        pre.folders_view(),
        pre.entries_view(),
        crate::queries::spec_entry_at(pre.folders_view(), p)->Some_0,
    ).1
}

/// The catalog after the folder at `p` was removed with its subtree:
/// the folder is gone, survivors were already there with their paths, and
/// no entry appeared or changed.
pub open spec fn folder_removal_effect(
    pre: DatabaseData,
    post: DatabaseData,
    p: Seq<Seq<char>>,
) -> bool {
    &&& crate::queries::spec_folder_at(pre.folders_view(), p) is Some
    &&& !post.folders_view().contains_key(
        crate::queries::spec_folder_at(pre.folders_view(), p)->Some_0,
    )
    &&& forall|f: int| #[trigger]
        post.folders_view().contains_key(f) ==> pre.folders_view().contains_key(f)
            && post.folders_view()[f].path == pre.folders_view()[f].path
    &&& forall|k: int| #[trigger]
        post.entries_view().contains_key(k) ==> pre.entries_view().contains_key(k)
            && post.entries_view()[k] == pre.entries_view()[k]
}

/// The catalog after the folder at the old path was re-keyed under the
/// folder at the new path's parent, ids preserved.
pub open spec fn folder_move_effect(
    pre: DatabaseData,
    post: DatabaseData,
    oldp: Seq<Seq<char>>,
    newp: Seq<Seq<char>>,
) -> bool {
    &&& crate::queries::spec_folder_at(pre.folders_view(), oldp) is Some
    &&& newp.len() > 0
    &&& crate::queries::spec_folder_at(pre.folders_view(), newp.drop_last()) is Some
    &&& post.folders_view().dom() == pre.folders_view().dom()
    &&& post.folders_view()[crate::queries::spec_folder_at(
        pre.folders_view(),
        oldp,
    )->Some_0].parent == crate::queries::spec_folder_at(pre.folders_view(), newp.drop_last())->Some_0
}

/// What a reported change means, by event kind: a created or updated
/// audio file is registered at its path, a removed file or folder is gone
/// by the exact removal transition, a file rename lands the entry at the
/// new path (and drops the old one when the new name is not audio), a
/// directory rename re-keys the folder, and an updated directory exists.
pub open spec fn event_effect(pre: DatabaseData, post: DatabaseData, event: FileEvent) -> bool {
    match event {
        FileEvent::FileCreated { path } => crate::queries::spec_entry_at(
            post.folders_view(),
            crate::scan::path_view(path),
        ) is Some,
        FileEvent::FileRemoved { path } => removal_effect(pre, post, crate::scan::path_view(path)),
        FileEvent::FolderRemoved { path } => folder_removal_effect(
            pre,
            post,
            crate::scan::path_view(path),
        ),
        FileEvent::Renamed { old_path, new_path, new_kind } => match new_kind {
            PathKind::File => {
                &&& (audio_event_path(crate::scan::path_view(new_path))
                    ==> crate::queries::spec_entry_at(
                    post.folders_view(),
                    crate::scan::path_view(new_path),
                ) is Some)
                &&& ((audio_event_path(crate::scan::path_view(old_path)) && !audio_event_path(
                    crate::scan::path_view(new_path),
                )) ==> removal_effect(pre, post, crate::scan::path_view(old_path)))
            },
            PathKind::Dir => folder_move_effect(
                pre,
                post,
                crate::scan::path_view(old_path),
                crate::scan::path_view(new_path),
            ),
            PathKind::Missing => true,
        },
        FileEvent::Updated { path, kind } => match kind {
            PathKind::Dir => crate::queries::spec_folder_at(
                post.folders_view(),
                crate::scan::path_view(path),
            ) is Some,
            PathKind::File => crate::queries::spec_entry_at(
                post.folders_view(),
                crate::scan::path_view(path),
            ) is Some,
            PathKind::Missing => {
                &&& (crate::queries::spec_entry_at(
                    pre.folders_view(),
                    crate::scan::path_view(path),
                ) is Some ==> removal_effect(pre, post, crate::scan::path_view(path)))
                &&& ((crate::queries::spec_entry_at(
                    pre.folders_view(),
                    crate::scan::path_view(path),
                ) is None && crate::queries::spec_folder_at(
                    pre.folders_view(),
                    crate::scan::path_view(path),
                ) is Some && crate::queries::spec_folder_at(
                    pre.folders_view(),
                    crate::scan::path_view(path),
                )->Some_0 != crate::folder::ROOT_FOLDER_ID as int) ==> folder_removal_effect(
                    pre,
                    post,
                    crate::scan::path_view(path),
                ))
            },
        },
    }
}

impl DatabaseData {
    /// Register a created audio file, or refresh an entry already there.
    fn watch_file_created(&mut self, path: &Vec<String>, db: &rusqlite::Connection) -> (r: Result<
        WatchOutcome,
        Error,
    >)
        requires
            old(self).wf(),
            path@.len() > 0,
        ensures
            final(self).wf(),
            final(self).tags@ == old(self).tags@,
            r matches Ok(WatchOutcome::Unchanged) ==> final(self).folders@ == old(self).folders@
                && final(self).entries@ == old(self).entries@,
            r matches Ok(WatchOutcome::Changed) ==> crate::queries::spec_entry_at(
                final(self).folders_view(),
                crate::scan::path_view(*path),
            ) is Some,
    {
        match self.get_entry_id(path) {
            Some(_) => Ok(WatchOutcome::Changed),
            None => {
                match self.add_entry_path(path, None, db) {
                    Ok(Some(_)) => Ok(WatchOutcome::Changed),
                    // The containing folder is not in the catalog; skipped,
                    // as a scan-time addition would be.
                    Ok(None) => Ok(WatchOutcome::Unchanged),
                    Err(e) => Err(e),
                }
            },
        }
    }

    /// Relocate a tracked entry to a new path, displacing whatever entry
    /// already sits there, store first and model after.
    fn watch_move_entry(
        &mut self,
        entry_id: crate::entry::EntryId,
        new_path: &Vec<String>,
        db: &rusqlite::Connection,
    ) -> (r: Result<WatchOutcome, Error>)
        requires
            old(self).wf(),
            new_path@.len() > 0,
            old(self).entries_view().contains_key(entry_id as int),
        ensures
            final(self).wf(),
            final(self).tags@ == old(self).tags@,
            r matches Ok(WatchOutcome::Unchanged) ==> final(self).folders@ == old(self).folders@
                && final(self).entries@ == old(self).entries@,
            r matches Ok(WatchOutcome::Changed) ==> crate::queries::spec_entry_at(
                final(self).folders_view(),
                crate::scan::path_view(*new_path),
            ) is Some,
    {
        let ghost fv0 = self.folders_view();
        let ghost gpath = crate::scan::path_view(*new_path);
        let n = new_path.len();
        let mut dir: Vec<String> = Vec::new();
        let mut i: usize = 0;
        while i < n - 1
            invariant
                0 <= i <= n - 1,
                n == new_path@.len(),
                n >= 1,
                self.wf(),
                self == old(self),
                dir@ =~= new_path@.take(i as int),
            decreases n - i,
        {
            dir.push(new_path[i].clone());
            i += 1;
        }
        proof {
            assert(crate::scan::path_view(dir) =~= gpath.drop_last()) by {
                assert(dir@ =~= new_path@.take(n - 1));
            }
        }
        let nf = match self.get_folder_by_path(&dir) {
            Some(f) => f,
            None => {
                return Err(Error::Other(String::new()));
            },
        };
        let name = new_path[n - 1].clone();
        // Displace any other entry already registered at the target.
        let occupied: Option<crate::entry::EntryId> = {
            let f = match self.folders.get(nf) {
                Some(f) => f,
                None => vstd::pervasive::unreached(),
            };
            let o = f.entries.get(&name);
            proof {
                if o is Some {
                    assert(self.folders_view()[nf as int].files.contains_key(name@));
                    assert(self.folders_view()[nf as int].files[name@] == o->Some_0);
                    assert(self.entries_view().contains_key(o->Some_0 as int));
                }
            }
            o
        };
        if let Some(ex) = occupied {
            if ex != entry_id {
                self.apply_remove_entry(ex);
            }
        }
        if !self.entries.contains(entry_id) {
            return Err(Error::Other(String::new()));
        }
        // The store in one transaction: drop the displaced row, move ours.
        match exec_batch(db, "BEGIN;") {
            Ok(_) => {},
            Err(e) => {
                return Err(Error::Store(e));
            },
        }
        let mut del_args: Vec<SqlArg> = Vec::new();
        del_args.push(SqlArg::Int(nf as i64));
        del_args.push(SqlArg::Text(name.clone()));
        match exec_sql(db, "DELETE FROM entries WHERE folder_id = ? AND file_name = ?", &del_args) {
            Ok(_) => {},
            Err(e) => {
                let _ = exec_batch(db, "ROLLBACK;");
                return Err(Error::Store(e));
            },
        }
        let mut upd_args: Vec<SqlArg> = Vec::new();
        upd_args.push(SqlArg::Int(nf as i64));
        upd_args.push(SqlArg::Text(name.clone()));
        upd_args.push(SqlArg::Int(entry_id as i64));
        match exec_sql(db, "UPDATE entries SET folder_id = ?, file_name = ? WHERE id = ?", &upd_args)
        {
            Ok(_) => {},
            Err(e) => {
                let _ = exec_batch(db, "ROLLBACK;");
                return Err(Error::Store(e));
            },
        }
        match exec_batch(db, "COMMIT;") {
            Ok(_) => {},
            Err(e) => {
                let _ = exec_batch(db, "ROLLBACK;");
                return Err(Error::Store(e));
            },
        }
        proof {
            assert(self.folders_view().contains_key(nf as int));
        }
        let free = {
            let f = match self.folders.get(nf) {
                Some(f) => f,
                None => vstd::pervasive::unreached(),
            };
            let o = f.entries.get(&name);
            proof {
                if o is Some {
                    assert(self.folders_view()[nf as int].files.contains_key(name@));
                    assert(self.folders_view()[nf as int].files[name@] == o->Some_0);
                    assert(self.entries_view().contains_key(o->Some_0 as int));
                }
            }
            o
        };
        let ghost fv_pre = self.folders_view();
        let ghost gname = name@;
        match free {
            Some(ex2) => {
                if ex2 != entry_id {
                    return Err(Error::Other(String::new()));
                }
                proof {
                    assert(self.entries_view()[entry_id as int].folder == nf as int
                        && self.entries_view()[entry_id as int].file_name == name@);
                }
                self.apply_move_entry(entry_id, nf, name);
            },
            None => {
                self.apply_move_entry(entry_id, nf, name);
            },
        }
        proof {
            // The move touched no sub-folder map, so the directory still
            // resolves to the same folder, which now lists the entry.
            crate::queries::lemma_folder_at_same_sub(self.folders_view(), fv_pre, gpath.drop_last());
            crate::queries::lemma_folder_at_same_sub(fv_pre, fv0, gpath.drop_last());
            assert(crate::queries::spec_folder_at(self.folders_view(), gpath.drop_last()) == Some(
                nf as int,
            ));
            assert(self.folders_view()[nf as int].files.contains_key(gname));
            assert(self.folders_view()[nf as int].files[gname] == entry_id);
            assert(gpath.last() == gname);
            assert(crate::queries::spec_entry_at(self.folders_view(), gpath) == Some(
                entry_id as int,
            ));
        }
        Ok(WatchOutcome::Changed)
    }

    /// A directory rename: when only the parent changed and both sides
    /// resolve, move the folder and keep its ids; otherwise fall back to
    /// a scan, which rebuilds the structure.
    fn watch_move_folder(
        &mut self,
        old_path: &Vec<String>,
        new_path: &Vec<String>,
        db: &rusqlite::Connection,
    ) -> (r: Result<WatchOutcome, Error>)
        requires
            old(self).wf(),
        ensures
            final(self).wf(),
            final(self).tags@ == old(self).tags@,
            r matches Ok(WatchOutcome::Unchanged) ==> final(self).folders@ == old(self).folders@
                && final(self).entries@ == old(self).entries@,
            r matches Ok(WatchOutcome::Changed) ==> folder_move_effect(
                *old(self),
                *final(self),
                crate::scan::path_view(*old_path),
                crate::scan::path_view(*new_path),
            ),
    {
        if old_path.len() == 0 || new_path.len() == 0 {
            return Ok(WatchOutcome::NeedScan);
        }
        if !(old_path[old_path.len() - 1] == new_path[new_path.len() - 1]) {
            // A rename that changes the folder's own name is rebuilt by a
            // scan.
            return Ok(WatchOutcome::NeedScan);
        }
        let folder = match self.get_folder_by_path(old_path) {
            Some(f) => f,
            None => {
                return Ok(WatchOutcome::NeedScan);
            },
        };
        if folder == crate::folder::ROOT_FOLDER_ID {
            return Err(Error::Other(String::new()));
        }
        let ghost gnew = crate::scan::path_view(*new_path);
        let n = new_path.len();
        let mut dir: Vec<String> = Vec::new();
        let mut i: usize = 0;
        while i < n - 1
            invariant
                0 <= i <= n - 1,
                n == new_path@.len(),
                n >= 1,
                self.wf(),
                self == old(self),
                dir@ =~= new_path@.take(i as int),
            decreases n - i,
        {
            dir.push(new_path[i].clone());
            i += 1;
        }
        proof {
            assert(crate::scan::path_view(dir) =~= gnew.drop_last()) by {
                assert(dir@ =~= new_path@.take(n - 1));
            }
        }
        let new_parent = match self.get_folder_by_path(&dir) {
            Some(f) => f,
            None => {
                return Ok(WatchOutcome::NeedScan);
            },
        };
        if new_parent == folder {
            return Ok(WatchOutcome::NeedScan);
        }
        match self.move_folder(folder, new_parent, db) {
            Ok(_) => Ok(WatchOutcome::Changed),
            Err(Error::FolderAlreadyExists(_)) => Ok(WatchOutcome::NeedScan),
            Err(e) => Err(e),
        }
    }

    /// Turn one debounced filesystem event into the catalog mutation it
    /// calls for: creations add or refresh, removals drop entries or
    /// folder subtrees, renames move, add or drop by what each side is,
    /// and a directory rename falls back to a scan. Internal
    /// inconsistencies come back as errors for the caller to log; the
    /// model is only changed on success paths.
    pub fn handle_file_event(&mut self, event: &FileEvent, db: &rusqlite::Connection) -> (r: Result<
        WatchOutcome,
        Error,
    >)
        requires
            old(self).wf(),
        ensures
            final(self).wf(),
            final(self).tags@ == old(self).tags@,
            r matches Ok(WatchOutcome::Unchanged) ==> final(self).folders@ == old(self).folders@
                && final(self).entries@ == old(self).entries@,
            r matches Ok(WatchOutcome::Changed) ==> event_effect(*old(self), *final(self), *event),
    {
        match event {
            FileEvent::FileCreated { path } => {
                if path.len() == 0 {
                    return Ok(WatchOutcome::Unchanged);
                }
                let name = &path[path.len() - 1];
                proof {
                    assert(name@ == crate::scan::path_view(*path).last());
                }
                if crate::is_hidden_file(name.as_str()) || !crate::is_audio_file(name.as_str()) {
                    return Ok(WatchOutcome::Unchanged);
                }
                self.watch_file_created(path, db)
            },
            FileEvent::FileRemoved { path } => {
                if path.len() == 0 {
                    return Ok(WatchOutcome::Unchanged);
                }
                let name = &path[path.len() - 1];
                if crate::is_hidden_file(name.as_str()) || !crate::is_audio_file(name.as_str()) {
                    return Ok(WatchOutcome::Unchanged);
                }
                match self.get_entry_id(path) {
                    Some(e) => {
                        match self.remove_entry_with_store(e, db) {
                            Ok(_) => Ok(WatchOutcome::Changed),
                            Err(e2) => Err(e2),
                        }
                    },
                    None => Err(Error::Other(String::new())),
                }
            },
            FileEvent::FolderRemoved { path } => {
                if path.len() == 0 {
                    return Ok(WatchOutcome::Unchanged);
                }
                let name = &path[path.len() - 1];
                if crate::is_hidden_file(name.as_str()) {
                    return Ok(WatchOutcome::Unchanged);
                }
                match self.get_folder_by_path(path) {
                    Some(f) => {
                        if f == crate::folder::ROOT_FOLDER_ID {
                            return Err(Error::Other(String::new()));
                        }
                        match self.remove_folder_with_store(f, db) {
                            Ok(_) => Ok(WatchOutcome::Changed),
                            Err(e2) => Err(e2),
                        }
                    },
                    None => Err(Error::Other(String::new())),
                }
            },
            FileEvent::Renamed { old_path, new_path, new_kind } => {
                match new_kind {
                    PathKind::Dir => self.watch_move_folder(old_path, new_path, db),
                    PathKind::Missing => Err(Error::Other(String::new())),
                    PathKind::File => {
                        if old_path.len() == 0 || new_path.len() == 0 {
                            return Ok(WatchOutcome::Unchanged);
                        }
                        let old_name = &old_path[old_path.len() - 1];
                        let new_name = &new_path[new_path.len() - 1];
                        proof {
                            assert(old_name@ == crate::scan::path_view(*old_path).last());
                            assert(new_name@ == crate::scan::path_view(*new_path).last());
                        }
                        let old_audio = !crate::is_hidden_file(old_name.as_str())
                            && crate::is_audio_file(old_name.as_str());
                        let new_audio = !crate::is_hidden_file(new_name.as_str())
                            && crate::is_audio_file(new_name.as_str());
                        proof {
                            assert(old_audio == audio_event_path(
                                crate::scan::path_view(*old_path),
                            ));
                            assert(new_audio == audio_event_path(
                                crate::scan::path_view(*new_path),
                            ));
                        }
                        if old_audio && new_audio {
                            match self.get_entry_id(old_path) {
                                Some(e) => self.watch_move_entry(e, new_path, db),
                                None => self.watch_file_created(new_path, db),
                            }
                        } else if !old_audio && new_audio {
                            self.watch_file_created(new_path, db)
                        } else if old_audio && !new_audio {
                            match self.get_entry_id(old_path) {
                                Some(e) => {
                                    match self.remove_entry_with_store(e, db) {
                                        Ok(_) => Ok(WatchOutcome::Changed),
                                        Err(e2) => Err(e2),
                                    }
                                },
                                None => Err(Error::Other(String::new())),
                            }
                        } else {
                            Ok(WatchOutcome::Unchanged)
                        }
                    },
                }
            },
            FileEvent::Updated { path, kind } => {
                if path.len() == 0 {
                    return Ok(WatchOutcome::Unchanged);
                }
                let name = &path[path.len() - 1];
                if crate::is_hidden_file(name.as_str()) {
                    return Ok(WatchOutcome::Unchanged);
                }
                match kind {
                    PathKind::Dir => {
                        match self.add_folder_path(path, None, db) {
                            Ok(_) => Ok(WatchOutcome::Changed),
                            Err(e2) => Err(e2),
                        }
                    },
                    PathKind::File => {
                        if !crate::is_audio_file(name.as_str()) {
                            return Ok(WatchOutcome::Unchanged);
                        }
                        self.watch_file_created(path, db)
                    },
                    PathKind::Missing => {
                        match self.get_entry_id(path) {
                            Some(e) => {
                                match self.remove_entry_with_store(e, db) {
                                    Ok(_) => Ok(WatchOutcome::Changed),
                                    Err(e2) => Err(e2),
                                }
                            },
                            None => {
                                match self.get_folder_by_path(path) {
                                    Some(f) => {
                                        if f == crate::folder::ROOT_FOLDER_ID {
                                            return Err(Error::Other(String::new()));
                                        }
                                        match self.remove_folder_with_store(f, db) {
                                            Ok(_) => Ok(WatchOutcome::Changed),
                                            Err(e2) => Err(e2),
                                        }
                                    },
                                    None => Ok(WatchOutcome::Unchanged),
                                }
                            },
                        }
                    },
                }
            },
        }
    }
}

} // verus!
