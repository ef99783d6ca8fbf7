use crate::entry::{entries_wf, Entry, EntryView};
use crate::folder::{folder_maps_inv, folders_wf, Folder, FolderId, FolderView, ROOT_FOLDER_ID};
use crate::folder_ops::clone_path;
use crate::model::DatabaseData;
use crate::scan::path_view;
use crate::store::{exec_batch, exec_sql, SqlArg};
use crate::Error;
use vstd::prelude::*;

verus! {

/// The path a folder will carry once `moved` hangs under `np`: the names
/// along the parent chain, read against the folder map with that one
/// parent pointer replaced. `None` when the chain does not reach the root
/// within the fuel.
pub open spec fn moved_chain(
    fv: Map<int, FolderView>,
    moved: int,
    np: int,
    f: int,
    fuel: nat,
) -> Option<Seq<Seq<char>>>
    decreases fuel,
{
    if f == ROOT_FOLDER_ID as int {
        Some(Seq::empty())
    } else if fuel == 0 || !fv.contains_key(f) {
        None
    } else {
        let parent = if f == moved {
            np
        } else {
            fv[f].parent
        };
        match moved_chain(fv, moved, np, parent, (fuel - 1) as nat) {
            Some(p) => Some(p.push(fv[f].name)),
            None => None,
        }
    }
}

/// A chain that reaches the root keeps doing so with any more fuel.
pub proof fn lemma_moved_chain_mono(
    fv: Map<int, FolderView>,
    moved: int,
    np: int,
    f: int,
    fuel1: nat,
    fuel2: nat,
)
    requires
        moved_chain(fv, moved, np, f, fuel1) is Some,
        fuel1 <= fuel2,
    ensures
        moved_chain(fv, moved, np, f, fuel2) == moved_chain(fv, moved, np, f, fuel1),
    decreases fuel1,
{
    if f != ROOT_FOLDER_ID as int {
        let parent = if f == moved {
            np
        } else {
            fv[f].parent
        };
        lemma_moved_chain_mono(fv, moved, np, parent, (fuel1 - 1) as nat, (fuel2 - 1) as nat);
    }
}

impl DatabaseData {
    /// The path `f` will carry after the move, by walking the parent chain
    /// with the moved folder's pointer replaced; refused when the chain
    /// does not reach the root within the folder count, which a
    /// well-formed tree never exhausts.
    fn compute_moved_chain(
        &self,
        moved: FolderId,
        np: FolderId,
        f: FolderId,
        fuel: usize,
    ) -> (r: Result<Vec<String>, Error>)
        requires
            self.folders.inv(),
        ensures
            r matches Ok(p) ==> moved_chain(
                self.folders_view(),
                moved as int,
                np as int,
                f as int,
                fuel as nat,
            ) == Some(path_view(p)),
            r matches Err(e2) ==> moved_chain(
                self.folders_view(),
                moved as int,
                np as int,
                f as int,
                fuel as nat,
            ) is None && e2 matches Error::Other(_),
        decreases fuel,
    {
        if f == ROOT_FOLDER_ID {
            return Ok(Vec::new());
        }
        if fuel == 0 {
            return Err(Error::Other(String::new()));
        }
        let (parent, name) = match self.folders.get(f) {
            Some(fl) => {
                (
                    if f == moved {
                        np
                    } else {
                        fl.parent_id
                    },
                    fl.name.clone(),
                )
            },
            None => {
                return Err(Error::Other(String::new()));
            },
        };
        match self.compute_moved_chain(moved, np, parent, fuel - 1) {
            Ok(mut p) => {
                p.push(name);
                proof {
                    assert(path_view(p).drop_last() =~= path_view(p).take(path_view(p).len() - 1));
                }
                Ok(p)
            },
            Err(e) => Err(e),
        }
    }

    /// The new path of every folder of the catalog, aligned with the
    /// folder map's own order; refused when any parent chain fails to
    /// reach the root.
    fn compute_all_moved_chains(&self, folder_id: FolderId, new_parent_id: FolderId) -> (r: Result<
        Vec<Vec<String>>,
        Error,
    >)
        requires
            self.wf(),
        ensures
            r matches Ok(v) ==> v@.len() == self.folders.entries().len() && (forall|j: int|
                0 <= j < v@.len() ==> moved_chain(
                    self.folders_view(),
                    folder_id as int,
                    new_parent_id as int,
                    (#[trigger] self.folders.entries()[j]).0 as int,
                    self.folders.entries().len() as nat,
                ) == Some(path_view(v@[j]))),
            r matches Err(e2) ==> e2 matches Error::Other(_),
    {
        let n = self.folders.len();
        let mut new_paths: Vec<Vec<String>> = Vec::new();
        let mut i: usize = 0;
        while i < n
            invariant
                0 <= i <= n,
                self.wf(),
                n == self.folders.entries().len(),
                new_paths@.len() == i,
                forall|j: int|
                    0 <= j < i ==> moved_chain(
                        self.folders_view(),
                        folder_id as int,
                        new_parent_id as int,
                        (#[trigger] self.folders.entries()[j]).0 as int,
                        n as nat,
                    ) == Some(path_view(new_paths@[j])),
            decreases n - i,
        {
            let (fid, _) = self.folders.entry_at(i);
            match self.compute_moved_chain(folder_id, new_parent_id, fid, n) {
                Ok(p) => {
                    new_paths.push(p);
                },
                Err(e) => {
                    return Err(e);
                },
            }
            i += 1;
        }
        Ok(new_paths)
    }

    /// Move a folder under a new parent, rewriting the stored path of
    /// every folder and entry from the new parent chains. Refused, with
    /// the catalog untouched, when the new parent lies inside the moved
    /// folder's own subtree (the path walk then cannot reach the root).
    /// The caller has checked that the new parent does not already hold
    /// the name.
    #[verifier::rlimit(100)]
    #[verifier::spinoff_prover]
    pub fn apply_move_folder(&mut self, folder_id: FolderId, new_parent_id: FolderId) -> (r:
        Result<(), Error>)
        requires
            old(self).wf(),
            folder_id != ROOT_FOLDER_ID,
            old(self).folders_view().contains_key(folder_id as int),
            old(self).folders_view().contains_key(new_parent_id as int),
            new_parent_id != folder_id,
            !old(self).folders_view()[new_parent_id as int].sub.contains_key(
                old(self).folders_view()[folder_id as int].name,
            ),
        ensures
            final(self).wf(),
            final(self).tags@ == old(self).tags@,
            final(self).entries_view().dom() == old(self).entries_view().dom(),
            forall|e: int| #[trigger]
                final(self).entries_view().contains_key(e) ==> final(self).entries_view()[e].folder
                    == old(self).entries_view()[e].folder && final(self).entries_view()[e].file_name == old(self).entries_view()[e].file_name && final(self).entries_view()[e].tags == old(self).entries_view()[e].tags && final(self).entries_view()[e].metadata == old(self).entries_view()[e].metadata,
            final(self).folders_view().dom() == old(self).folders_view().dom(),
            forall|f: int| #[trigger]
                final(self).folders_view().contains_key(f) ==> final(self).folders_view()[f].name
                    == old(self).folders_view()[f].name,
            r matches Ok(_) ==> final(self).folders_view()[folder_id as int].parent
                == new_parent_id as int && (forall|f: int| #[trigger]
                final(self).folders_view().contains_key(f) ==> (f != folder_id as int ==> final(self).folders_view()[f].parent == old(self).folders_view()[f].parent)),
            r matches Err(e2) ==> final(self).folders@ == old(self).folders@ && final(self).entries@ == old(self).entries@ && e2 matches Error::Other(_),
    {
        let ghost fv0 = self.folders_view();
        let ghost ev0 = self.entries_view();
        let n = self.folders.len();
        proof {
            self.folders.lemma_entries();
        }
        let ghost fentries = self.folders.entries();

        // First pass, read-only: the new path of every folder. A failure
        // leaves the catalog untouched.
        let new_paths = match self.compute_all_moved_chains(folder_id, new_parent_id) {
            Ok(v) => v,
            Err(e) => {
                return Err(e);
            },
        };

        // Detach, attach and repoint the moved folder.
        let name = {
            let f = match self.folders.get(folder_id) {
                Some(f) => f,
                None => vstd::pervasive::unreached(),
            };
            f.name.clone()
        };
        let old_parent_id = {
            let f = match self.folders.get(folder_id) {
                Some(f) => f,
                None => vstd::pervasive::unreached(),
            };
            f.parent_id
        };
        let mut opv = Folder::placeholder();
        proof {
            assert(self.folders@[old_parent_id as int] == old(self).folders@[old_parent_id as int]);
            assert(fv0[old_parent_id as int].sub.contains_key(name@));
        }
        self.folders.swap_value(old_parent_id, &mut opv);
        opv.sub_folders.remove(&name);
        self.folders.swap_value(old_parent_id, &mut opv);
        proof {
            assert(self.folders@.contains_key(new_parent_id as int));
            assert(!self.folders@[new_parent_id as int]@.sub.contains_key(name@)) by {
                if new_parent_id != old_parent_id {
                    assert(self.folders@[new_parent_id as int]@ == fv0[new_parent_id as int]);
                }
            }
        }
        let mut npv = Folder::placeholder();
        self.folders.swap_value(new_parent_id, &mut npv);
        npv.sub_folders.insert_new(name.clone(), folder_id);
        self.folders.swap_value(new_parent_id, &mut npv);
        let mut mv = Folder::placeholder();
        self.folders.swap_value(folder_id, &mut mv);
        mv.parent_id = new_parent_id;
        self.folders.swap_value(folder_id, &mut mv);
        let ghost fv1 = self.folders_view();
        proof {
            assert(fv1.dom() =~= fv0.dom());
            assert forall|f: int| #[trigger] fv1.contains_key(f) implies fv1[f].name == fv0[f].name
                && fv1[f].id == fv0[f].id && fv1[f].files == fv0[f].files && (f != folder_id as int
                ==> fv1[f].parent == fv0[f].parent) by {}
            assert(fv1[folder_id as int].parent == new_parent_id as int);
        }

        // Second pass: write the precomputed paths.
        let mut i2: usize = 0;
        while i2 < n
            invariant
                0 <= i2 <= n,
                n == self.folders.entries().len(),
                self.folders.inv(),
                self.entries == old(self).entries,
                self.tags == old(self).tags,
                new_paths@.len() == n,
                forall|j: int|
                    0 <= j < n ==> (#[trigger] self.folders.entries()[j]).0 == fentries[j].0,
                forall|j: int|
                    0 <= j < n ==> moved_chain(
                        fv0,
                        folder_id as int,
                        new_parent_id as int,
                        (#[trigger] fentries[j]).0 as int,
                        n as nat,
                    ) == Some(path_view(new_paths@[j])),
                forall|f: int| #[trigger]
                    self.folders@.contains_key(f) <==> fv1.contains_key(f),
                forall|f: int| #[trigger]
                    self.folders@.contains_key(f) ==> folder_maps_inv(self.folders@[f])
                        && self.folders@[f]@.name == fv1[f].name && self.folders@[f]@.id == fv1[f].id
                        && self.folders@[f]@.parent == fv1[f].parent && self.folders@[f]@.sub
                        == fv1[f].sub && self.folders@[f]@.files == fv1[f].files,
                forall|j: int|
                    0 <= j < i2 ==> (#[trigger] self.folders@[fentries[j].0 as int])@.path
                        == path_view(new_paths@[j]),
            decreases n - i2,
        {
            let (fid, _) = self.folders.entry_at(i2);
            let mut fval = Folder::placeholder();
            self.folders.swap_value(fid, &mut fval);
            fval.path = clone_path(&new_paths[i2]);
            self.folders.swap_value(fid, &mut fval);
            proof {
                self.folders.lemma_entries();
                assert forall|j: int| 0 <= j < i2 + 1 implies (
                #[trigger] self.folders@[fentries[j].0 as int])@.path == path_view(new_paths@[j])
                    by {
                    if j < i2 && fentries[j].0 != fid {
                    }
                }
            }
            i2 += 1;
        }
        let ghost fv2 = self.folders_view();
        proof {
            self.folders.lemma_entries();
            assert forall|f: int| #[trigger] fv2.contains_key(f) implies fv2[f].path == moved_chain(
                fv0,
                folder_id as int,
                new_parent_id as int,
                f,
                n as nat,
            )->Some_0 && moved_chain(fv0, folder_id as int, new_parent_id as int, f, n as nat)
                is Some by {
                let j = choose|j: int| 0 <= j < fentries.len() && (#[trigger] fentries[j]).0 == f;
                assert(fentries[j].0 as int == f);
                assert(self.folders@[fentries[j].0 as int]@.path == path_view(new_paths@[j]));
            }
            assert(folders_wf(fv2)) by {
                assert(fv2.dom() =~= fv0.dom());
                assert(fv2[ROOT_FOLDER_ID as int].path =~= Seq::<Seq<char>>::empty());
                assert forall|f: int| #[trigger]
                    fv2.dom().contains(f) && f != ROOT_FOLDER_ID as int implies {
                    &&& fv2.dom().contains(fv2[f].parent)
                    &&& fv2[fv2[f].parent].sub.contains_key(fv2[f].name)
                    &&& fv2[fv2[f].parent].sub[fv2[f].name] == f
                    &&& fv2[f].path == fv2[fv2[f].parent].path.push(fv2[f].name)
                } by {
                    let parent = fv2[f].parent;
                    assert(parent == (if f == folder_id as int {
                        new_parent_id as int
                    } else {
                        fv0[f].parent
                    }));
                    if f == folder_id as int {
                    } else {
                        assert(fv0.dom().contains(fv0[f].parent));
                        if fv0[f].parent == fv0[folder_id as int].parent && fv0[f].name
                            == fv0[folder_id as int].name {
                            assert(f == folder_id as int);
                        }
                    }
                    assert(moved_chain(fv0, folder_id as int, new_parent_id as int, f, n as nat)
                        is Some);
                    assert(moved_chain(
                        fv0,
                        folder_id as int,
                        new_parent_id as int,
                        parent,
                        (n - 1) as nat,
                    ) is Some);
                    lemma_moved_chain_mono(
                        fv0,
                        folder_id as int,
                        new_parent_id as int,
                        parent,
                        (n - 1) as nat,
                        n as nat,
                    );
                }
                assert forall|p: int, nm: Seq<char>|
                    fv2.dom().contains(p) && #[trigger] fv2[p].sub.contains_key(nm) implies {
                    &&& fv2.dom().contains(fv2[p].sub[nm] as int)
                    &&& fv2[p].sub[nm] != ROOT_FOLDER_ID
                    &&& fv2[fv2[p].sub[nm] as int].parent == p
                    &&& fv2[fv2[p].sub[nm] as int].name == nm
                } by {
                    if p == new_parent_id as int && nm == fv0[folder_id as int].name {
                    } else {
                        assert(fv0[p].sub.contains_key(nm));
                        let c = fv0[p].sub[nm] as int;
                        if c == folder_id as int {
                            assert(p == fv0[folder_id as int].parent && nm == fv0[folder_id
                                as int].name);
                            assert(false);
                        }
                    }
                }
            }
        }

        // Third pass: every entry's stored path follows its folder's.
        proof {
            self.entries.lemma_entries();
        }
        let ghost eentries = self.entries.entries();
        let en = self.entries.len();
        let ghost folders_done = self.folders;
        let mut i3: usize = 0;
        while i3 < en
            invariant
                0 <= i3 <= en,
                en == self.entries.entries().len(),
                self.entries.inv(),
                self.folders == folders_done,
                self.tags == old(self).tags,
                fv2 == self.folders_view(),
                folders_wf(fv2),
                forall|j: int|
                    0 <= j < en ==> (#[trigger] self.entries.entries()[j]).0 == eentries[j].0,
                forall|j: int|
                    0 <= j < en ==> ev0.contains_key((#[trigger] eentries[j]).0 as int),
                forall|k: int| #[trigger]
                    self.entries@.contains_key(k) <==> ev0.contains_key(k),
                forall|k: int| #[trigger]
                    self.entries@.contains_key(k) ==> {
                        let e1 = self.entries@[k]@;
                        let e0 = ev0[k];
                        e1.folder == e0.folder && e1.file_name == e0.file_name && e1.tags
                            == e0.tags && e1.metadata == e0.metadata && e1.id == e0.id
                    },
                forall|j: int|
                    0 <= j < i3 ==> (#[trigger] self.entries@[eentries[j].0 as int])@.path == fv2[(
                    self.entries@[eentries[j].0 as int])@.folder].path.push(
                        (self.entries@[eentries[j].0 as int])@.file_name,
                    ),
            decreases en - i3,
        {
            let (eid, folder_ref) = {
                let (eid, e) = self.entries.entry_at(i3);
                (eid, e.folder_id)
            };
            proof {
                assert(self.entries@[eid as int]@.folder == ev0[eid as int].folder);
                assert(fv0.dom().contains(ev0[eid as int].folder));
                assert(fv2.dom().contains(ev0[eid as int].folder));
            }
            let fpath = {
                let f = match self.folders.get(folder_ref) {
                    Some(f) => f,
                    None => vstd::pervasive::unreached(),
                };
                clone_path(&f.path)
            };
            let mut tmp = Entry {
                id: 0,
                folder_id: 0,
                path: Vec::new(),
                file_name: String::new(),
                metadata: None,
                tag_ids: Vec::new(),
            };
            self.entries.swap_value(eid, &mut tmp);
            let mut np2 = fpath;
            np2.push(tmp.file_name.clone());
            tmp.path = np2;
            self.entries.swap_value(eid, &mut tmp);
            proof {
                self.entries.lemma_entries();
                assert(self.entries@[eid as int]@.path =~= fv2[(self.entries@[eid
                    as int])@.folder].path.push((self.entries@[eid as int])@.file_name));
                assert forall|j: int| 0 <= j < i3 + 1 implies (
                #[trigger] self.entries@[eentries[j].0 as int])@.path == fv2[(self.entries@[eentries[j].0
                    as int])@.folder].path.push((self.entries@[eentries[j].0 as int])@.file_name)
                    by {}
            }
            i3 += 1;
        }
        proof {
            self.entries.lemma_entries();
            let evp = self.entries_view();
            let tvp = self.tags_view();
            assert(tvp =~= old(self).tags_view());
            assert(evp.dom() =~= ev0.dom());
            assert(entries_wf(fv2, evp, tvp)) by {
                assert forall|e: int| #[trigger] evp.dom().contains(e) implies {
                    &&& evp[e].id == e
                    &&& fv2.dom().contains(evp[e].folder)
                    &&& fv2[evp[e].folder].files.contains_key(evp[e].file_name)
                    &&& fv2[evp[e].folder].files[evp[e].file_name] == e
                    &&& evp[e].path == fv2[evp[e].folder].path.push(evp[e].file_name)
                } by {
                    assert(ev0.dom().contains(e));
                    let j = choose|j: int|
                        0 <= j < eentries.len() && (#[trigger] eentries[j]).0 == e;
                    assert(eentries[j].0 as int == e);
                    assert(fv2[evp[e].folder].files == fv0[evp[e].folder].files);
                }
                assert forall|pf: int, nm: Seq<char>|
                    fv2.dom().contains(pf) && #[trigger] fv2[pf].files.contains_key(nm) implies {
                    &&& evp.dom().contains(fv2[pf].files[nm] as int)
                    &&& evp[fv2[pf].files[nm] as int].folder == pf
                    &&& evp[fv2[pf].files[nm] as int].file_name == nm
                } by {
                    assert(fv0[pf].files.contains_key(nm));
                    assert(ev0.dom().contains(fv0[pf].files[nm] as int));
                }
                assert forall|e: int| #[trigger] evp.dom().contains(e) implies (forall|t: int|
                    #[trigger] evp[e].tags.contains(t) ==> tvp.dom().contains(t)) by {
                    assert(ev0.dom().contains(e));
                }
            }
        }
        Ok(())
    }

    /// Move a folder in the catalog and the store together: the store
    /// transaction drops any row left at the target key and repoints the
    /// folder row, then the model follows.
    pub fn move_folder(
        &mut self,
        folder_id: FolderId,
        new_parent_id: FolderId,
        db: &rusqlite::Connection,
    ) -> (r: Result<(), Error>)
        requires
            old(self).wf(),
            folder_id != ROOT_FOLDER_ID,
            old(self).folders_view().contains_key(folder_id as int),
            old(self).folders_view().contains_key(new_parent_id as int),
            new_parent_id != folder_id,
        ensures
            final(self).wf(),
            final(self).tags@ == old(self).tags@,
            r matches Ok(_) ==> {
                let fv0 = old(self).folders_view();
                let fv1 = final(self).folders_view();
                &&& fv1.dom() == fv0.dom()
                &&& fv1[folder_id as int].parent == new_parent_id as int
                &&& forall|f: int| #[trigger]
                    fv1.contains_key(f) ==> fv1[f].name == fv0[f].name && (f != folder_id as int
                        ==> fv1[f].parent == fv0[f].parent)
                &&& final(self).entries_view().dom() == old(self).entries_view().dom()
                &&& forall|e: int| #[trigger]
                    final(self).entries_view().contains_key(e) ==> {
                        let e1 = final(self).entries_view()[e];
                        let e0 = old(self).entries_view()[e];
                        e1.folder == e0.folder && e1.file_name == e0.file_name && e1.tags
                            == e0.tags && e1.metadata == e0.metadata
                    }
            },
            r matches Err(_) ==> final(self).folders@ == old(self).folders@ && final(self).entries@
                == old(self).entries@,
            old(self).folders_view()[new_parent_id as int].sub.contains_key(
                old(self).folders_view()[folder_id as int].name,
            ) ==> (r matches Err(e2) && e2 matches Error::FolderAlreadyExists(_)),
            (r matches Err(e2) && e2 matches Error::FolderAlreadyExists(_)) ==> old(self).folders_view()[new_parent_id as int].sub.contains_key(
                old(self).folders_view()[folder_id as int].name,
            ),
    {
        // Refuse a target that already holds the name, as the caller's
        // own rename on disk would have.
        let taken = {
            let name_ref = {
                let f = match self.folders.get(folder_id) {
                    Some(f) => f,
                    None => vstd::pervasive::unreached(),
                };
                f.name.clone()
            };
            let np = match self.folders.get(new_parent_id) {
                Some(np) => np,
                None => vstd::pervasive::unreached(),
            };
            np.sub_folders.contains(&name_ref)
        };
        if taken {
            return Err(Error::FolderAlreadyExists(String::new()));
        }
        // Refuse a target beneath the folder itself before touching the
        // store: the rewritten parent chain would never reach the root.
        match self.compute_moved_chain(folder_id, new_parent_id, folder_id, self.folders.len()) {
            Ok(_) => {},
            Err(_) => {
                return Err(Error::Other(String::new()));
            },
        }
        let name = {
            let f = match self.folders.get(folder_id) {
                Some(f) => f,
                None => vstd::pervasive::unreached(),
            };
            f.name.clone()
        };
        match exec_batch(db, "BEGIN;") {
            Ok(_) => {},
            Err(e) => {
                return Err(Error::Store(e));
            },
        }
        let mut del_args: Vec<SqlArg> = Vec::new();
        del_args.push(SqlArg::Int(new_parent_id as i64));
        del_args.push(SqlArg::Text(name.clone()));
        match exec_sql(db, "DELETE FROM folders WHERE parent = ? AND name = ?", &del_args) {
            Ok(_) => {},
            Err(e) => {
                let _ = exec_batch(db, "ROLLBACK;");
                return Err(Error::Store(e));
            },
        }
        let mut upd_args: Vec<SqlArg> = Vec::new();
        upd_args.push(SqlArg::Int(new_parent_id as i64));
        upd_args.push(SqlArg::Int(folder_id as i64));
        match exec_sql(db, "UPDATE folders SET parent = ? WHERE id = ?", &upd_args) {
            Ok(_) => {},
            Err(e) => {
                let _ = exec_batch(db, "ROLLBACK;");
                return Err(Error::Store(e));
            },
        }
        match exec_batch(db, "COMMIT;") {
            Ok(_) => {},
            Err(e) => {
                let _ = exec_batch(db, "ROLLBACK;");
                return Err(Error::Store(e));
            },
        }
        self.apply_move_folder(folder_id, new_parent_id)
    }
}

} // verus!
