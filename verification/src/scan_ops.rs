use crate::entry::EntryView;
use crate::folder::{FolderId, FolderView, ROOT_FOLDER_ID};
use crate::folder_ops::spec_add_folder;
use crate::model::DatabaseData;
use crate::queries::spec_folder_at;
use crate::scan::{folders_extends, lemma_extends_folder_at, lemma_extends_trans, path_view};
use crate::store::{insert_sql, exec_sql, query_opt_id_deleted, SqlArg};
use crate::Error;
use vstd::prelude::*;

verus! {

/// A prefetched store row of an id, a name, its owner id and a nullable
/// deletion stamp, as the batched scan strategy reads folders or entries
/// in one statement.
pub type KeyRow = (i64, String, i64, Option<String>);

/// Look a name up in prefetched rows by owner id and name, as the batched
/// strategy does instead of querying row by row.
pub fn find_key_row(rows: &Vec<KeyRow>, owner: i64, name: &String) -> (r: Option<(i64, bool)>)
    ensures
        r is Some ==> exists|j: int|
            0 <= j < rows@.len() && (#[trigger] rows@[j]).2 == owner && rows@[j].1@ == name@
                && rows@[j].0 == r->Some_0.0 && (rows@[j].3 is Some <==> r->Some_0.1),
        r is None ==> forall|j: int|
            0 <= j < rows@.len() ==> !((#[trigger] rows@[j]).2 == owner && rows@[j].1@ == name@),
{
    let n = rows.len();
    let mut i: usize = 0;
    while i < n
        invariant
            0 <= i <= n,
            n == rows@.len(),
            forall|j: int|
                0 <= j < i ==> !((#[trigger] rows@[j]).2 == owner && rows@[j].1@ == name@),
        decreases n - i,
    {
        if rows[i].2 == owner && rows[i].1 == *name {
            let deleted = rows[i].3.is_some();
            proof {
                assert(rows@[i as int].2 == owner && rows@[i as int].1@ == name@);
            }
            return Some((rows[i].0, deleted));
        }
        i += 1;
    }
    None
}

/// Adding a fresh folder only extends the folder map.
pub proof fn lemma_add_folder_extends(
    fv: Map<int, FolderView>,
    id: int,
    parent: int,
    name: Seq<char>,
)
    requires
        fv.contains_key(parent),
        !fv.contains_key(id),
        !fv[parent].sub.contains_key(name),
    ensures
        folders_extends(spec_add_folder(fv, id, parent, name), fv),
{
    let nfv = spec_add_folder(fv, id, parent, name);
    assert forall|f: int| #[trigger] fv.contains_key(f) implies {
        &&& nfv.contains_key(f)
        &&& nfv[f].id == fv[f].id
        &&& nfv[f].parent == fv[f].parent
        &&& nfv[f].name == fv[f].name
        &&& nfv[f].path == fv[f].path
        &&& fv[f].sub.submap_of(nfv[f].sub)
        &&& fv[f].files.submap_of(nfv[f].files)
    } by {}
}

impl DatabaseData {
    /// Make sure every component of a relative directory path has a
    /// folder, creating the missing ones. A missing component is resolved
    /// against the store — from the prefetched `rows` when given, else by a
    /// row-by-row query — restoring a soft-deleted row or inserting a new
    /// one.
    pub fn add_folder_path(
        &mut self,
        path: &Vec<String>,
        rows: Option<&Vec<KeyRow>>,
        db: &rusqlite::Connection,
    ) -> (r: Result<FolderId, Error>)
        requires
            old(self).wf(),
        ensures
            final(self).wf(),
            final(self).entries@ == old(self).entries@,
            final(self).tags@ == old(self).tags@,
            folders_extends(final(self).folders_view(), old(self).folders_view()),
            forall|f: int| #[trigger]
                final(self).folders_view().contains_key(f) ==> old(self).folders_view().contains_key(f) || exists|l: int|
                    1 <= l <= path@.len() && final(self).folders_view()[f].path
                        == #[trigger] path_view(*path).take(l),
            r matches Ok(fid) ==> spec_folder_at(final(self).folders_view(), path_view(*path))
                == Some(fid as int),
    {
        let ghost fv0 = self.folders_view();
        let n = path.len();
        let mut cur: FolderId = ROOT_FOLDER_ID;
        let mut i: usize = 0;
        while i < n
            invariant
                0 <= i <= n,
                n == path@.len(),
                self.wf(),
                self.entries@ == old(self).entries@,
                self.tags@ == old(self).tags@,
                folders_extends(self.folders_view(), fv0),
                forall|f: int| #[trigger]
                    self.folders_view().contains_key(f) ==> fv0.contains_key(f) || exists|l: int|
                        1 <= l <= path@.len() && self.folders_view()[f].path
                            == #[trigger] path_view(*path).take(l),
                spec_folder_at(self.folders_view(), path_view(*path).take(i as int)) == Some(
                    cur as int,
                ),
                self.folders_view().contains_key(cur as int),
            decreases n - i,
        {
            let ghost fv = self.folders_view();
            let ghost gpath = path_view(*path);
            let existing = {
                let f = match self.folders.get(cur) {
                    Some(f) => f,
                    None => vstd::pervasive::unreached(),
                };
                f.sub_folders.get(&path[i])
            };
            let next: FolderId = match existing {
                Some(id) => id,
                None => {
                    let resolved: Option<(i64, bool)> = match rows {
                        Some(rs) => find_key_row(rs, cur as i64, &path[i]),
                        None => {
                            let mut args: Vec<SqlArg> = Vec::new();
                            args.push(SqlArg::Int(cur as i64));
                            args.push(SqlArg::Text(path[i].clone()));
                            match query_opt_id_deleted(
                                db,
                                "SELECT id, deleted FROM folders WHERE parent = ? AND name = ?",
                                &args,
                            ) {
                                Ok(Some((raw, stamp))) => Some((raw, stamp.is_some())),
                                Ok(None) => None,
                                Err(e) => {
                                    return Err(Error::Store(e));
                                },
                            }
                        },
                    };
                    let raw: i64 = match resolved {
                        Some((raw, deleted)) => {
                            if deleted {
                                let mut args: Vec<SqlArg> = Vec::new();
                                args.push(SqlArg::Int(raw));
                                match exec_sql(
                                    db,
                                    "UPDATE folders SET deleted = NULL WHERE id = ?",
                                    &args,
                                ) {
                                    Ok(_) => {},
                                    Err(e) => {
                                        return Err(Error::Store(e));
                                    },
                                }
                            }
                            raw
                        },
                        None => {
                            let mut args: Vec<SqlArg> = Vec::new();
                            args.push(SqlArg::Int(cur as i64));
                            args.push(SqlArg::Text(path[i].clone()));
                            match insert_sql(
                                db,
                                "INSERT INTO folders (parent, name) VALUES (?, ?)",
                                &args,
                            ) {
                                Ok(raw) => raw,
                                Err(e) => {
                                    return Err(Error::Store(e));
                                },
                            }
                        },
                    };
                    if raw < (-0x8000_0000i64) || raw > 0x7fff_ffffi64 {
                        return Err(Error::Other(String::new()));
                    }
                    let id = raw as i32;
                    if id == ROOT_FOLDER_ID || self.folders.contains(id) {
                        return Err(Error::Other(String::new()));
                    }
                    proof {
                        crate::queries::lemma_folder_at_path(fv, gpath.take(i as int));
                    }
                    self.apply_add_folder(id, cur, path[i].clone());
                    proof {
                        lemma_add_folder_extends(fv, id as int, cur as int, gpath[i as int]);
                        lemma_extends_trans(self.folders_view(), fv, fv0);
                        lemma_extends_folder_at(self.folders_view(), fv, gpath.take(i as int));
                        assert(self.folders_view()[id as int].path =~= gpath.take(i + 1)) by {
                            assert(gpath.take(i + 1).drop_last() =~= gpath.take(i as int));
                        }
                        assert forall|f: int| #[trigger] self.folders_view().contains_key(f)
                            implies fv0.contains_key(f) || exists|l: int|
                            1 <= l <= path@.len() && self.folders_view()[f].path
                                == #[trigger] path_view(*path).take(l) by {
                            if f == id as int {
                                assert(1 <= i + 1 <= path@.len() && self.folders_view()[f].path
                                    == path_view(*path).take(i + 1));
                            } else {
                                assert(fv.contains_key(f));
                                assert(self.folders_view()[f].path == fv[f].path);
                            }
                        }
                    }
                    id
                },
            };
            proof {
                assert(gpath.take(i + 1).drop_last() =~= gpath.take(i as int));
                assert(gpath.take(i + 1).last() == gpath[i as int]);
                assert(spec_folder_at(self.folders_view(), gpath.take(i + 1)) == Some(
                    next as int,
                ));
            }
            cur = next;
            i += 1;
        }
        proof {
            assert(path_view(*path).take(n as int) =~= path_view(*path));
        }
        Ok(cur)
    }
}

/// Adding a fresh entry only extends the folder map.
pub proof fn lemma_add_entry_extends(
    fv: Map<int, FolderView>,
    ev: Map<int, EntryView>,
    id: int,
    folder: int,
    name: Seq<char>,
)
    requires
        fv.contains_key(folder),
        !fv[folder].files.contains_key(name),
    ensures
        folders_extends(crate::folder_ops::spec_add_entry(fv, ev, id, folder, name).0, fv),
{
    let nfv = crate::folder_ops::spec_add_entry(fv, ev, id, folder, name).0;
    assert forall|f: int| #[trigger] fv.contains_key(f) implies {
        &&& nfv.contains_key(f)
        &&& nfv[f].id == fv[f].id
        &&& nfv[f].parent == fv[f].parent
        &&& nfv[f].name == fv[f].name
        &&& nfv[f].path == fv[f].path
        &&& fv[f].sub.submap_of(nfv[f].sub)
        &&& fv[f].files.submap_of(nfv[f].files)
    } by {}
}

impl DatabaseData {
    /// Register one listed audio file: resolve its directory to a folder,
    /// and when no entry sits there yet, resolve the store row — restoring
    /// a soft-deleted one, with its surviving tag associations, or
    /// inserting a new one — and add the entry. Hands back the entry's id,
    /// or `None` when the directory is not in the catalog. Which tag
    /// associations come back rests on the store's rows, so the contract
    /// pins only that every other entry is untouched and that the new
    /// entry sits at the listed path; its tags are kept inside the known
    /// tag set by the catalog invariant.
    #[verifier::rlimit(50)]
    pub fn add_entry_path(
        &mut self,
        path: &Vec<String>,
        rows: Option<&Vec<KeyRow>>,
        db: &rusqlite::Connection,
    ) -> (r: Result<Option<crate::entry::EntryId>, Error>)
        requires
            old(self).wf(),
            path@.len() > 0,
        ensures
            final(self).wf(),
            final(self).tags@ == old(self).tags@,
            folders_extends(final(self).folders_view(), old(self).folders_view()),
            final(self).folders_view().dom() == old(self).folders_view().dom(),
            forall|k: int| #[trigger]
                old(self).entries_view().contains_key(k)
                    ==> final(self).entries_view().contains_key(k)
                    && final(self).entries_view()[k] == old(self).entries_view()[k],
            forall|k: int| #[trigger]
                final(self).entries_view().contains_key(k)
                    ==> old(self).entries_view().contains_key(k)
                    || final(self).entries_view()[k].path == path_view(*path),
            r matches Ok(Some(eid)) ==> crate::queries::spec_entry_at(
                final(self).folders_view(),
                path_view(*path),
            ) == Some(eid as int),
            r matches Ok(None) ==> spec_folder_at(
                old(self).folders_view(),
                path_view(*path).drop_last(),
            ) is None && final(self).folders@ == old(self).folders@ && final(self).entries@ == old(self).entries@,
    {
        let ghost fv0 = self.folders_view();
        let ghost ev0 = self.entries_view();
        let ghost gpath = path_view(*path);
        let n = path.len();
        let mut dir: Vec<String> = Vec::new();
        let mut i: usize = 0;
        while i < n - 1
            invariant
                0 <= i <= n - 1,
                n == path@.len(),
                n >= 1,
                dir@ =~= path@.take(i as int),
            decreases n - i,
        {
            dir.push(path[i].clone());
            proof {
                assert(path@.take(i + 1).drop_last() =~= path@.take(i as int));
                assert(dir@ =~= path@.take(i + 1));
            }
            i += 1;
        }
        proof {
            assert(path_view(dir) =~= gpath.drop_last()) by {
                assert(dir@ =~= path@.take(n - 1));
            }
        }
        let fid = match self.get_folder_by_path(&dir) {
            Some(fid) => fid,
            None => {
                return Ok(None);
            },
        };
        let name = path[n - 1].clone();
        let ghost gname = name@;
        proof {
            assert(gname == gpath.last());
        }
        let existing: Option<crate::entry::EntryId> = {
            let f = match self.folders.get(fid) {
                Some(f) => f,
                None => vstd::pervasive::unreached(),
            };
            f.entries.get(&name)
        };
        if let Some(eid) = existing {
            proof {
                assert(crate::queries::spec_entry_at(self.folders_view(), gpath) == Some(
                    eid as int,
                ));
            }
            return Ok(Some(eid));
        }
        // Resolve the store row for this (folder, file name).
        let resolved: Option<(i64, bool)> = match rows {
            Some(rs) => find_key_row(rs, fid as i64, &name),
            None => {
                let mut args: Vec<SqlArg> = Vec::new();
                args.push(SqlArg::Int(fid as i64));
                args.push(SqlArg::Text(name.clone()));
                match query_opt_id_deleted(
                    db,
                    "SELECT id, deleted FROM entries WHERE folder_id = ? AND file_name = ?",
                    &args,
                ) {
                    Ok(Some((raw, stamp))) => Some((raw, stamp.is_some())),
                    Ok(None) => None,
                    Err(e) => {
                        return Err(Error::Store(e));
                    },
                }
            },
        };
        let was_in_store = resolved.is_some();
        let raw: i64 = match resolved {
            Some((raw, deleted)) => {
                if deleted {
                    let mut args: Vec<SqlArg> = Vec::new();
                    args.push(SqlArg::Int(raw));
                    match exec_sql(db, "UPDATE entries SET deleted = NULL WHERE id = ?", &args) {
                        Ok(_) => {},
                        Err(e) => {
                            return Err(Error::Store(e));
                        },
                    }
                }
                raw
            },
            None => {
                let mut args: Vec<SqlArg> = Vec::new();
                args.push(SqlArg::Text(name.clone()));
                args.push(SqlArg::Int(fid as i64));
                match insert_sql(
                    db,
                    "INSERT INTO entries (file_name, folder_id) VALUES (?, ?)",
                    &args,
                ) {
                    Ok(raw) => raw,
                    Err(e) => {
                        return Err(Error::Store(e));
                    },
                }
            },
        };
        if raw < (-0x8000_0000i64) || raw > 0x7fff_ffffi64 {
            return Err(Error::Other(String::new()));
        }
        let eid = raw as i32;
        if self.entries.contains(eid) {
            return Err(Error::Other(String::new()));
        }
        let ghost fv1 = self.folders_view();
        let ghost ev1 = self.entries_view();
        self.apply_add_entry(eid, fid, name);
        proof {
            lemma_add_entry_extends(fv1, ev1, eid as int, fid as int, gname);
            lemma_extends_trans(self.folders_view(), fv1, fv0);
            lemma_extends_folder_at(self.folders_view(), fv1, gpath.drop_last());
            assert(crate::queries::spec_entry_at(self.folders_view(), gpath) == Some(eid as int));
            crate::queries::lemma_folder_at_path(fv1, gpath.drop_last());
            assert(self.entries_view()[eid as int].path =~= gpath) by {
                assert(gpath.drop_last().push(gpath.last()) =~= gpath);
            }
            assert(self.folders_view().dom() =~= fv1.dom());
        }
        // A restored entry gets back the tag ids still alive in the store.
        if was_in_store {
            let mut targs: Vec<SqlArg> = Vec::new();
            targs.push(SqlArg::Int(eid as i64));
            let tag_rows = match crate::store::query_ids(
                db,
                "SELECT entry_tag.tag_id
                    FROM entry_tag
                    JOIN entries ON entry_tag.entry_id = entries.id
                    JOIN tags ON entry_tag.tag_id = tags.id
                    WHERE entry_tag.entry_id = ?
                    AND entries.deleted IS NULL
                    AND tags.deleted IS NULL",
                &targs,
            ) {
                Ok(v) => v,
                Err(e) => {
                    return Err(Error::Store(e));
                },
            };
            let ghost fv2 = self.folders_view();
            let ghost ev2 = self.entries_view();
            let tn = tag_rows.len();
            let mut j: usize = 0;
            while j < tn
                invariant
                    0 <= j <= tn,
                    self.wf(),
                    self.tags@ == old(self).tags@,
                    self.folders_view() == fv2,
                    self.entries_view().dom() =~= ev2.dom(),
                    forall|k: int| #[trigger]
                        self.entries_view().contains_key(k) ==> self.entries_view()[k].path
                            == ev2[k].path && self.entries_view()[k].file_name
                            == ev2[k].file_name && (k != eid as int ==> self.entries_view()[k]
                            == ev2[k]),
                    self.entries_view().contains_key(eid as int),
                decreases tn - j,
            {
                let rawt = tag_rows[j];
                if rawt >= (-0x8000_0000i64) && rawt <= 0x7fff_ffffi64 {
                    let t = rawt as i32;
                    if self.tags.contains(t) && !self.entry_has_tag(eid, t) {
                        let ghost evb = self.entries_view();
                        self.apply_add_tag_for_entry(eid, t);
                        proof {
                            assert(self.entries_view().dom() =~= evb.dom());
                        }
                    }
                }
                j += 1;
            }
            proof {
                assert(crate::queries::spec_entry_at(self.folders_view(), gpath) == Some(
                    eid as int,
                ));
                assert forall|k: int| #[trigger] self.entries_view().contains_key(k)
                    implies ev0.contains_key(k) || self.entries_view()[k].path == gpath by {
                    assert(ev2.contains_key(k));
                    if k != eid as int {
                        assert(ev1.contains_key(k));
                    } else {
                        assert(ev2[eid as int].path =~= gpath);
                    }
                }
            }
        }
        Ok(Some(eid))
    }
}

impl DatabaseData {
    /// Remove one entry, marking its row soft-deleted in the store first.
    pub fn remove_entry_with_store(
        &mut self,
        entry_id: crate::entry::EntryId,
        db: &rusqlite::Connection,
    ) -> (r: Result<(), Error>)
        requires
            old(self).wf(),
            old(self).entries_view().contains_key(entry_id as int),
        ensures
            final(self).wf(),
            final(self).tags@ == old(self).tags@,
            match r {
                Ok(_) => {
                    &&& final(self).folders_view() == crate::folder_ops::spec_remove_entry(
                        old(self).folders_view(),
                        old(self).entries_view(),
                        entry_id as int,
                    ).0
                    &&& final(self).entries_view() == crate::folder_ops::spec_remove_entry(
                        old(self).folders_view(),
                        old(self).entries_view(),
                        entry_id as int,
                    ).1
                    &&& final(self).entries_view().dom() == old(self).entries_view().dom().remove(
                        entry_id as int,
                    )
                    &&& forall|k: int| #[trigger]
                        final(self).entries_view().contains_key(k) ==> final(self).entries_view()[k] == old(self).entries_view()[k]
                    &&& final(self).folders_view().dom() == old(self).folders_view().dom()
                    &&& forall|f: int| #[trigger]
                        final(self).folders_view().contains_key(f) ==> final(self).folders_view()[f].path == old(self).folders_view()[f].path
                },
                Err(_) => final(self).entries@ == old(self).entries@ && final(self).folders@ == old(self).folders@,
            },
    {
        let mut args: Vec<SqlArg> = Vec::new();
        args.push(SqlArg::Int(entry_id as i64));
        match exec_sql(db, "UPDATE entries SET deleted = datetime('now') WHERE id = ?", &args) {
            Ok(_) => {},
            Err(e) => {
                return Err(Error::Store(e));
            },
        }
        let ghost fv = self.folders_view();
        let ghost ev = self.entries_view();
        self.apply_remove_entry(entry_id);
        proof {
            assert(self.entries_view().dom() =~= ev.dom().remove(entry_id as int));
            assert(self.folders_view().dom() =~= fv.dom());
        }
        Ok(())
    }

    /// Remove a folder subtree, marking its rows and its entries' rows
    /// soft-deleted in the store first.
    pub fn remove_folder_with_store(
        &mut self,
        folder_id: FolderId,
        db: &rusqlite::Connection,
    ) -> (r: Result<(), Error>)
        requires
            old(self).wf(),
            folder_id != ROOT_FOLDER_ID,
            old(self).folders_view().contains_key(folder_id as int),
        ensures
            final(self).wf(),
            final(self).tags@ == old(self).tags@,
            match r {
                Ok(_) => {
                    &&& !final(self).folders_view().contains_key(folder_id as int)
                    &&& forall|f: int| #[trigger]
                        final(self).folders_view().contains_key(f) ==> old(self).folders_view().contains_key(f) && final(self).folders_view()[f].path
                            == old(self).folders_view()[f].path
                    &&& forall|k: int| #[trigger]
                        final(self).entries_view().contains_key(k) ==> old(self).entries_view().contains_key(k) && final(self).entries_view()[k] == old(self).entries_view()[k]
                    &&& exists|d: Set<int>|
                        {
                            &&& #[trigger] crate::folder_remove::is_removed_folder_set(
                                old(self).folders_view(),
                                folder_id as int,
                                d,
                            )
                            &&& final(self).folders_view() == crate::folder_remove::spec_remove_folders(
                                old(self).folders_view(),
                                old(self).entries_view(),
                                folder_id as int,
                                d,
                            ).0
                            &&& final(self).entries_view() == crate::folder_remove::spec_remove_folders(
                                old(self).folders_view(),
                                old(self).entries_view(),
                                folder_id as int,
                                d,
                            ).1
                        }
                },
                Err(_) => final(self).entries@ == old(self).entries@ && final(self).folders@ == old(self).folders@,
            },
    {
        let dvec = self.collect_folder_subtree(folder_id);
        let m = dvec.len();
        let mut i: usize = 0;
        while i < m
            invariant
                0 <= i <= m,
                m == dvec@.len(),
                self.folders == old(self).folders,
                self.entries == old(self).entries,
                self.tags == old(self).tags,
            decreases m - i,
        {
            let mut args: Vec<SqlArg> = Vec::new();
            args.push(SqlArg::Int(dvec[i] as i64));
            match exec_sql(db, "UPDATE folders SET deleted = datetime('now') WHERE id = ?", &args) {
                Ok(_) => {},
                Err(e) => {
                    return Err(Error::Store(e));
                },
            }
            match exec_sql(
                db,
                "UPDATE entries SET deleted = datetime('now') WHERE folder_id = ?",
                &args,
            ) {
                Ok(_) => {},
                Err(e) => {
                    return Err(Error::Store(e));
                },
            }
            i += 1;
        }
        let ghost fv = self.folders_view();
        let ghost ev = self.entries_view();
        self.apply_remove_folder(folder_id);
        proof {
            let d = choose|d: Set<int>|
                {
                    &&& #[trigger] crate::folder_remove::is_removed_folder_set(
                        fv,
                        folder_id as int,
                        d,
                    )
                    &&& self.folders_view() == crate::folder_remove::spec_remove_folders(
                        fv,
                        ev,
                        folder_id as int,
                        d,
                    ).0
                    &&& self.entries_view() == crate::folder_remove::spec_remove_folders(
                        fv,
                        ev,
                        folder_id as int,
                        d,
                    ).1
                };
            assert(d.contains(folder_id as int));
            assert(!self.folders_view().contains_key(folder_id as int));
        }
        Ok(())
    }
}

impl DatabaseData {
    /// Drop every entry whose path the walk no longer shows as a listed
    /// audio file.
    fn scan_drop_entries(&mut self, listing: &crate::scan::FsListing, db: &rusqlite::Connection)
        -> (r: Result<(), Error>)
        requires
            old(self).wf(),
        ensures
            final(self).wf(),
            final(self).tags@ == old(self).tags@,
            forall|k: int| #[trigger]
                final(self).entries_view().contains_key(k) ==> old(self).entries_view().contains_key(k) && final(self).entries_view()[k] == old(self).entries_view()[k],
            forall|f: int| #[trigger]
                final(self).folders_view().contains_key(f) ==> old(self).folders_view().contains_key(f) && final(self).folders_view()[f].path == old(self).folders_view()[f].path,
            r matches Ok(_) ==> forall|e: int| #[trigger]
                final(self).entries_view().contains_key(e) ==> crate::scan::listed_audio_file(
                    listing.dirs@,
                    listing.files@,
                    final(self).entries_view()[e].path,
                ),
    {
        let ghost dirs = listing.dirs@;
        let ghost files = listing.files@;
        let mut snap: Vec<(i32, Vec<String>)> = Vec::new();
        proof {
            self.entries.lemma_entries();
        }
        let en = self.entries.len();
        let mut i: usize = 0;
        while i < en
            invariant
                0 <= i <= en,
                en == self.entries.entries().len(),
                self.wf(),
                snap@.len() == i,
                forall|j: int|
                    0 <= j < i ==> (#[trigger] snap@[j]).0 == self.entries.entries()[j].0
                        && path_view(snap@[j].1) == self.entries.entries()[j].1@.path,
            decreases en - i,
        {
            let (k, e) = self.entries.entry_at(i);
            snap.push((k, crate::folder_ops::clone_path(&e.path)));
            i += 1;
        }
        let ghost ev_a = self.entries_view();
        proof {
            assert forall|e: int| #[trigger] ev_a.contains_key(e) implies exists|j: int|
                0 <= j < snap@.len() && (#[trigger] snap@[j]).0 as int == e by {
                let j = choose|j: int|
                    0 <= j < self.entries.entries().len() && (#[trigger] self.entries.entries()[j]).0
                        == e;
                assert(snap@[j].0 as int == e);
            }
            assert forall|j: int| 0 <= j < snap@.len() implies ev_a.contains_key(
                (#[trigger] snap@[j]).0 as int,
            ) && path_view(snap@[j].1) == ev_a[snap@[j].0 as int].path by {}
        }
        let sn = snap.len();
        let mut i2: usize = 0;
        while i2 < sn
            invariant
                0 <= i2 <= sn,
                sn == snap@.len(),
                self.wf(),
                self.tags@ == old(self).tags@,
                forall|k: int| #[trigger]
                    self.entries_view().contains_key(k) ==> ev_a.contains_key(k)
                        && self.entries_view()[k] == ev_a[k],
                forall|f: int| #[trigger]
                    self.folders_view().contains_key(f) ==> old(self).folders_view().contains_key(
                        f,
                    ) && self.folders_view()[f].path == old(self).folders_view()[f].path,
                forall|j: int|
                    0 <= j < i2 ==> (self.entries_view().contains_key(
                        (#[trigger] snap@[j]).0 as int,
                    ) ==> crate::scan::listed_audio_file(dirs, files, path_view(snap@[j].1))),
            decreases sn - i2,
        {
            let id = snap[i2].0;
            if !crate::scan::is_relevant_file(&listing.dirs, &listing.files, &snap[i2].1) {
                if self.entries.contains(id) {
                    proof {
                        assert(self.entries_view().contains_key(id as int));
                    }
                    match self.remove_entry_with_store(id, db) {
                        Ok(_) => {},
                        Err(e) => {
                            return Err(e);
                        },
                    }
                }
            }
            i2 += 1;
        }
        proof {
            assert forall|e: int| #[trigger] self.entries_view().contains_key(e)
                implies crate::scan::listed_audio_file(
                dirs,
                files,
                self.entries_view()[e].path,
            ) by {
                let j = choose|j: int| 0 <= j < snap@.len() && (#[trigger] snap@[j]).0 as int == e;
                assert(self.entries_view()[e] == ev_a[e]);
            }
        }
        Ok(())
    }

    /// Drop every folder, with its subtree, whose path the walk no longer
    /// shows as a listed directory.
    fn scan_drop_folders(&mut self, listing: &crate::scan::FsListing, db: &rusqlite::Connection)
        -> (r: Result<(), Error>)
        requires
            old(self).wf(),
        ensures
            final(self).wf(),
            final(self).tags@ == old(self).tags@,
            forall|k: int| #[trigger]
                final(self).entries_view().contains_key(k) ==> old(self).entries_view().contains_key(k) && final(self).entries_view()[k] == old(self).entries_view()[k],
            r matches Ok(_) ==> forall|f: int| #[trigger]
                final(self).folders_view().contains_key(f) && f != ROOT_FOLDER_ID as int
                    ==> crate::scan::listed_dir(listing.dirs@, final(self).folders_view()[f].path),
    {
        let ghost dirs = listing.dirs@;
        let mut fsnap: Vec<(i32, Vec<String>)> = Vec::new();
        proof {
            self.folders.lemma_entries();
        }
        let fnn = self.folders.len();
        let mut i3: usize = 0;
        while i3 < fnn
            invariant
                0 <= i3 <= fnn,
                fnn == self.folders.entries().len(),
                self.wf(),
                fsnap@.len() == i3,
                forall|j: int|
                    0 <= j < i3 ==> (#[trigger] fsnap@[j]).0 == self.folders.entries()[j].0
                        && path_view(fsnap@[j].1) == self.folders.entries()[j].1@.path,
            decreases fnn - i3,
        {
            let (k, f) = self.folders.entry_at(i3);
            fsnap.push((k, crate::folder_ops::clone_path(&f.path)));
            i3 += 1;
        }
        let ghost fv_b = self.folders_view();
        proof {
            assert forall|f: int| #[trigger] fv_b.contains_key(f) implies exists|j: int|
                0 <= j < fsnap@.len() && (#[trigger] fsnap@[j]).0 as int == f by {
                let j = choose|j: int|
                    0 <= j < self.folders.entries().len() && (#[trigger] self.folders.entries()[j]).0
                        == f;
                assert(fsnap@[j].0 as int == f);
            }
            assert forall|j: int| 0 <= j < fsnap@.len() implies fv_b.contains_key(
                (#[trigger] fsnap@[j]).0 as int,
            ) && path_view(fsnap@[j].1) == fv_b[fsnap@[j].0 as int].path by {}
        }
        let fsn = fsnap.len();
        let mut i4: usize = 0;
        while i4 < fsn
            invariant
                0 <= i4 <= fsn,
                fsn == fsnap@.len(),
                self.wf(),
                self.tags@ == old(self).tags@,
                forall|k: int| #[trigger]
                    self.entries_view().contains_key(k) ==> old(self).entries_view().contains_key(
                        k,
                    ) && self.entries_view()[k] == old(self).entries_view()[k],
                forall|f: int| #[trigger]
                    self.folders_view().contains_key(f) ==> fv_b.contains_key(f)
                        && self.folders_view()[f].path == fv_b[f].path,
                forall|j: int|
                    0 <= j < i4 ==> (self.folders_view().contains_key(
                        (#[trigger] fsnap@[j]).0 as int,
                    ) ==> (fsnap@[j].0 == ROOT_FOLDER_ID || crate::scan::listed_dir(
                        dirs,
                        path_view(fsnap@[j].1),
                    ))),
            decreases fsn - i4,
        {
            let id = fsnap[i4].0;
            if id != ROOT_FOLDER_ID && !crate::scan::in_listed_dirs(&listing.dirs, &fsnap[i4].1) {
                if self.folders.contains(id) {
                    proof {
                        assert(self.folders_view().contains_key(id as int));
                    }
                    match self.remove_folder_with_store(id, db) {
                        Ok(_) => {},
                        Err(e) => {
                            return Err(e);
                        },
                    }
                }
            }
            i4 += 1;
        }
        proof {
            assert forall|f: int| #[trigger]
                self.folders_view().contains_key(f) && f != ROOT_FOLDER_ID as int
                implies crate::scan::listed_dir(dirs, self.folders_view()[f].path) by {
                let j = choose|j: int|
                    0 <= j < fsnap@.len() && (#[trigger] fsnap@[j]).0 as int == f;
                assert(self.folders_view()[f].path == fv_b[f].path);
            }
        }
        Ok(())
    }

    /// Register every listed clean directory, choosing the batched or the
    /// row-by-row store strategy by how much of the listing is new.
    fn scan_add_dirs(&mut self, listing: &crate::scan::FsListing, db: &rusqlite::Connection)
        -> (r: Result<(), Error>)
        requires
            old(self).wf(),
        ensures
            final(self).wf(),
            final(self).tags@ == old(self).tags@,
            final(self).entries@ == old(self).entries@,
            folders_extends(final(self).folders_view(), old(self).folders_view()),
            forall|f: int| #[trigger]
                final(self).folders_view().contains_key(f) ==> old(self).folders_view().contains_key(f) || crate::scan::listed_dir(
                    listing.dirs@,
                    final(self).folders_view()[f].path,
                ),
            r matches Ok(_) ==> forall|p: Seq<Seq<char>>| #[trigger]
                crate::scan::listed_dir(listing.dirs@, p) ==> spec_folder_at(
                    final(self).folders_view(),
                    p,
                ) is Some,
    {
        let ghost dirs = listing.dirs@;
        let dn = listing.dirs.len();
        let mut new_dirs: usize = 0;
        let mut i5: usize = 0;
        while i5 < dn
            invariant
                0 <= i5 <= dn,
                new_dirs <= i5,
                self.wf(),
            decreases dn - i5,
        {
            if crate::scan::is_clean_path(&listing.dirs[i5]) {
                if self.get_folder_by_path(&listing.dirs[i5]).is_none() {
                    new_dirs += 1;
                }
            }
            i5 += 1;
        }
        let folder_rows: Option<Vec<KeyRow>> = if new_dirs >= self.folders.len() / 4 && new_dirs > 0 {
            match crate::store::query_key_rows(
                db,
                "SELECT id, name, parent, deleted FROM folders WHERE id <> -1",
            ) {
                Ok(rs) => Some(rs),
                Err(e) => {
                    return Err(Error::Store(e));
                },
            }
        } else {
            None
        };
        let ghost fv_c = self.folders_view();
        let mut i6: usize = 0;
        while i6 < dn
            invariant
                0 <= i6 <= dn,
                dn == dirs.len(),
                self.wf(),
                self.tags@ == old(self).tags@,
                self.entries@ == old(self).entries@,
                folders_extends(self.folders_view(), fv_c),
                forall|f: int| #[trigger]
                    self.folders_view().contains_key(f) ==> fv_c.contains_key(f)
                        || crate::scan::listed_dir(dirs, self.folders_view()[f].path),
                forall|j: int|
                    0 <= j < i6 && clean_listed(dirs, j) ==> spec_folder_at(
                        self.folders_view(),
                        path_view(dirs[j]),
                    ) is Some,
            decreases dn - i6,
        {
            let ghost fv_pre = self.folders_view();
            if crate::scan::is_clean_path(&listing.dirs[i6]) {
                let rows_ref: Option<&Vec<KeyRow>> = match &folder_rows {
                    Some(rs) => Some(rs),
                    None => None,
                };
                match self.add_folder_path(&listing.dirs[i6], rows_ref, db) {
                    Ok(_) => {},
                    Err(e) => {
                        proof {
                            lemma_extends_trans(self.folders_view(), fv_pre, fv_c);
                        }
                        return Err(e);
                    },
                }
                proof {
                    lemma_extends_trans(self.folders_view(), fv_pre, fv_c);
                    assert forall|j: int| 0 <= j < i6 + 1 && clean_listed(dirs, j)
                        implies spec_folder_at(self.folders_view(), path_view(dirs[j])) is Some by {
                        if j < i6 {
                            lemma_extends_folder_at(self.folders_view(), fv_pre, path_view(dirs[j]));
                        }
                    }
                    assert forall|f: int| #[trigger] self.folders_view().contains_key(f)
                        implies fv_c.contains_key(f) || crate::scan::listed_dir(
                        dirs,
                        self.folders_view()[f].path,
                    ) by {
                        if !fv_pre.contains_key(f) {
                            let l = choose|l: int|
                                1 <= l <= listing.dirs@[i6 as int]@.len()
                                    && self.folders_view()[f].path == #[trigger] path_view(
                                    dirs[i6 as int],
                                ).take(l);
                            assert(crate::scan::listed_dir(dirs, self.folders_view()[f].path));
                        } else {
                            assert(self.folders_view()[f].path == fv_pre[f].path);
                        }
                    }
                }
            }
            i6 += 1;
        }
        proof {
            assert forall|p: Seq<Seq<char>>| #[trigger]
                crate::scan::listed_dir(dirs, p) implies spec_folder_at(
                self.folders_view(),
                p,
            ) is Some by {
                let (j, l) = choose|j: int, l: int|
                    0 <= j < dirs.len() && 1 <= l <= path_view(dirs[j]).len() && crate::scan::clean_path(
                        path_view(dirs[j]),
                    ) && p =~= #[trigger] path_view(dirs[j]).take(l);
                assert(clean_listed(dirs, j));
                assert(spec_folder_at(self.folders_view(), path_view(dirs[j])) is Some);
                crate::queries::lemma_folder_at_prefix(self.folders_view(), path_view(dirs[j]), l);
            }
        }
        Ok(())
    }

    /// Register every listed audio file, choosing the batched or the
    /// row-by-row store strategy by how much of the listing is new.
    fn scan_add_files(&mut self, listing: &crate::scan::FsListing, db: &rusqlite::Connection)
        -> (r: Result<(), Error>)
        requires
            old(self).wf(),
            forall|p: Seq<Seq<char>>| #[trigger]
                crate::scan::listed_dir(listing.dirs@, p) ==> spec_folder_at(
                    old(self).folders_view(),
                    p,
                ) is Some,
        ensures
            final(self).wf(),
            final(self).tags@ == old(self).tags@,
            folders_extends(final(self).folders_view(), old(self).folders_view()),
            final(self).folders_view().dom() == old(self).folders_view().dom(),
            forall|k: int| #[trigger]
                final(self).entries_view().contains_key(k) ==> old(self).entries_view().contains_key(k) || crate::scan::listed_audio_file(
                    listing.dirs@,
                    listing.files@,
                    final(self).entries_view()[k].path,
                ),
            forall|k: int| #[trigger]
                old(self).entries_view().contains_key(k) ==> final(self).entries_view().contains_key(k) && final(self).entries_view()[k].path == old(self).entries_view()[k].path,
            r matches Ok(_) ==> forall|p: Seq<Seq<char>>| #[trigger]
                crate::scan::listed_audio_file(listing.dirs@, listing.files@, p)
                    ==> crate::queries::spec_entry_at(final(self).folders_view(), p) is Some,
    {
        let ghost dirs = listing.dirs@;
        let ghost files = listing.files@;
        let fln = listing.files.len();
        let mut new_files: usize = 0;
        let mut i7: usize = 0;
        while i7 < fln
            invariant
                0 <= i7 <= fln,
                new_files <= i7,
                self.wf(),
            decreases fln - i7,
        {
            if listing.files[i7].len() > 0 {
                if self.get_entry_id(&listing.files[i7]).is_none() {
                    new_files += 1;
                }
            }
            i7 += 1;
        }
        let entry_rows: Option<Vec<KeyRow>> = if new_files >= self.entries.len() / 4 && new_files > 0 {
            match crate::store::query_key_rows(
                db,
                "SELECT id, file_name, folder_id, deleted FROM entries",
            ) {
                Ok(rs) => Some(rs),
                Err(e) => {
                    return Err(Error::Store(e));
                },
            }
        } else {
            None
        };
        let ghost fv_d = self.folders_view();
        let ghost ev_d = self.entries_view();
        let mut i8: usize = 0;
        while i8 < fln
            invariant
                0 <= i8 <= fln,
                fln == files.len(),
                self.wf(),
                self.tags@ == old(self).tags@,
                folders_extends(self.folders_view(), fv_d),
                self.folders_view().dom() == fv_d.dom(),
                forall|k: int| #[trigger]
                    self.entries_view().contains_key(k) ==> ev_d.contains_key(k)
                        || crate::scan::listed_audio_file(
                        dirs,
                        files,
                        self.entries_view()[k].path,
                    ),
                forall|k: int| #[trigger]
                    ev_d.contains_key(k) ==> self.entries_view().contains_key(k)
                        && self.entries_view()[k].path == ev_d[k].path,
                forall|p: Seq<Seq<char>>| #[trigger]
                    crate::scan::listed_dir(dirs, p) ==> spec_folder_at(
                        self.folders_view(),
                        p,
                    ) is Some,
                forall|j: int|
                    0 <= j < i8 && crate::scan::listed_audio_file(
                        dirs,
                        files,
                        path_view(#[trigger] files[j]),
                    ) ==> crate::queries::spec_entry_at(
                        self.folders_view(),
                        path_view(files[j]),
                    ) is Some,
            decreases fln - i8,
        {
            let ghost fv_pre = self.folders_view();
            let ghost ev_pre = self.entries_view();
            if crate::scan::is_relevant_file(&listing.dirs, &listing.files, &listing.files[i8]) {
                let rows_ref: Option<&Vec<KeyRow>> = match &entry_rows {
                    Some(rs) => Some(rs),
                    None => None,
                };
                match self.add_entry_path(&listing.files[i8], rows_ref, db) {
                    Ok(Some(_)) => {},
                    Ok(None) => {
                        proof {
                            let p = path_view(listing.files@[i8 as int]);
                            if p.len() == 1 {
                                assert(p.drop_last() =~= Seq::<Seq<char>>::empty());
                                assert(spec_folder_at(fv_pre, p.drop_last()) is Some);
                            } else {
                                assert(crate::scan::listed_dir(dirs, p.drop_last()));
                            }
                            assert(false);
                        }
                    },
                    Err(e) => {
                        proof {
                            lemma_extends_trans(self.folders_view(), fv_pre, fv_d);
                        }
                        return Err(e);
                    },
                }
                proof {
                    lemma_extends_trans(self.folders_view(), fv_pre, fv_d);
                }
            }
            proof {
                assert forall|p: Seq<Seq<char>>| #[trigger] crate::scan::listed_dir(dirs, p)
                    implies spec_folder_at(self.folders_view(), p) is Some by {
                    assert(spec_folder_at(fv_pre, p) is Some);
                    lemma_extends_folder_at(self.folders_view(), fv_pre, p);
                }
                assert forall|j: int|
                    0 <= j < i8 + 1 && crate::scan::listed_audio_file(
                        dirs,
                        files,
                        path_view(#[trigger] files[j]),
                    ) implies crate::queries::spec_entry_at(
                    self.folders_view(),
                    path_view(files[j]),
                ) is Some by {
                    if j < i8 {
                        crate::scan::lemma_extends_entry_at(
                            self.folders_view(),
                            fv_pre,
                            path_view(files[j]),
                        );
                    }
                }
            }
            i8 += 1;
        }
        proof {
            assert forall|p: Seq<Seq<char>>| #[trigger]
                crate::scan::listed_audio_file(dirs, files, p)
                implies crate::queries::spec_entry_at(self.folders_view(), p) is Some by {
                let j = choose|j: int|
                    0 <= j < files.len() && p =~= path_view(#[trigger] files[j]);
                assert(crate::scan::listed_audio_file(dirs, files, path_view(files[j])));
            }
        }
        Ok(())
    }

    /// Reconcile the catalog with one walk of the base directory: drop the
    /// entries and folders the walk no longer shows, then register every
    /// listed directory and every listed audio file, resolving ids against
    /// the store. On success the catalog's entries are exactly the listed
    /// audio files and its folders exactly the listed clean directories
    /// and their prefixes.
    pub fn scan(&mut self, listing: &crate::scan::FsListing, db: &rusqlite::Connection) -> (r:
        Result<(), Error>)
        requires
            old(self).wf(),
        ensures
            final(self).wf(),
            final(self).tags@ == old(self).tags@,
            r matches Ok(_) ==> crate::scan::scan_complete(
                listing.dirs@,
                listing.files@,
                final(self).folders_view(),
                final(self).entries_view(),
            ),
    {
        let ghost dirs = listing.dirs@;
        let ghost files = listing.files@;
        match self.scan_drop_entries(listing, db) {
            Ok(_) => {},
            Err(e) => {
                return Err(e);
            },
        }
        let ghost ev1 = self.entries_view();
        match self.scan_drop_folders(listing, db) {
            Ok(_) => {},
            Err(e) => {
                return Err(e);
            },
        }
        let ghost ev2 = self.entries_view();
        let ghost fv2 = self.folders_view();
        proof {
            assert forall|e: int| #[trigger] ev2.contains_key(e)
                implies crate::scan::listed_audio_file(dirs, files, ev2[e].path) by {
                assert(ev1.contains_key(e) && ev2[e] == ev1[e]);
            }
        }
        match self.scan_add_dirs(listing, db) {
            Ok(_) => {},
            Err(e) => {
                return Err(e);
            },
        }
        let ghost fv3 = self.folders_view();
        let ghost ev3 = self.entries_view();
        proof {
            assert(ev3 =~= ev2);
            assert forall|f: int| #[trigger]
                fv3.contains_key(f) && f != ROOT_FOLDER_ID as int
                implies crate::scan::listed_dir(dirs, fv3[f].path) by {
                if fv2.contains_key(f) {
                    assert(fv3[f].path == fv2[f].path);
                }
            }
        }
        match self.scan_add_files(listing, db) {
            Ok(_) => {},
            Err(e) => {
                return Err(e);
            },
        }
        proof {
            let fv4 = self.folders_view();
            let ev4 = self.entries_view();
            assert forall|e: int| #[trigger] ev4.contains_key(e)
                implies crate::scan::listed_audio_file(dirs, files, ev4[e].path) by {
                if ev3.contains_key(e) {
                    assert(ev4[e].path == ev3[e].path);
                }
            }
            assert forall|f: int| #[trigger]
                fv4.contains_key(f) && f != ROOT_FOLDER_ID as int
                implies crate::scan::listed_dir(dirs, fv4[f].path) by {
                assert(fv3.contains_key(f));
                assert(fv4[f].path == fv3[f].path);
            }
            assert forall|p: Seq<Seq<char>>| #[trigger] crate::scan::listed_dir(dirs, p)
                implies spec_folder_at(fv4, p) is Some by {
                assert(spec_folder_at(fv3, p) is Some);
                lemma_extends_folder_at(fv4, fv3, p);
            }
        }
        Ok(())
    }
}


/// The listed directory at index `j` exists and is clean.
pub open spec fn clean_listed(dirs: Seq<Vec<String>>, j: int) -> bool {
    0 <= j < dirs.len() && crate::scan::clean_path(path_view(dirs[j]))
}

} // verus!
