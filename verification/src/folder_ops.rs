use crate::entry::{entries_wf, Entry, EntryId, EntryView};
use crate::folder::{folder_maps_inv, folders_wf, Folder, FolderId, FolderView, ROOT_FOLDER_ID};
use crate::model::DatabaseData;
use crate::name_map::NameMap;
use vstd::prelude::*;

verus! {

/// The folders after a new empty folder is inserted under `parent`.
pub open spec fn spec_add_folder(
    fv: Map<int, FolderView>,
    id: int,
    parent: int,
    name: Seq<char>,
) -> Map<int, FolderView> {
    fv.insert(
        parent,
        FolderView {
            id: fv[parent].id,
            parent: fv[parent].parent,
            name: fv[parent].name,
            path: fv[parent].path,
            sub: fv[parent].sub.insert(name, id as i32),
            files: fv[parent].files,
        },
    ).insert(
        id,
        FolderView {
            id: id,
            parent: parent,
            name: name,
            path: fv[parent].path.push(name),
            sub: Map::empty(),
            files: Map::empty(),
        },
    )
}

/// The catalog after a new entry is registered in `folder` under `name`,
/// with no metadata and no tags yet.
pub open spec fn spec_add_entry(
    fv: Map<int, FolderView>,
    ev: Map<int, EntryView>,
    id: int,
    folder: int,
    name: Seq<char>,
) -> (Map<int, FolderView>, Map<int, EntryView>) {
    (
        fv.insert(
            folder,
            FolderView {
                id: fv[folder].id,
                parent: fv[folder].parent,
                name: fv[folder].name,
                path: fv[folder].path,
                sub: fv[folder].sub,
                files: fv[folder].files.insert(name, id as i32),
            },
        ),
        ev.insert(
            id,
            EntryView {
                id: id,
                folder: folder,
                path: fv[folder].path.push(name),
                file_name: name,
                metadata: None,
                tags: Set::empty(),
            },
        ),
    )
}

/// The catalog after entry `e` is removed from the model.
pub open spec fn spec_remove_entry(
    fv: Map<int, FolderView>,
    ev: Map<int, EntryView>,
    e: int,
) -> (Map<int, FolderView>, Map<int, EntryView>) {
    let f = ev[e].folder;
    (
        fv.insert(
            f,
            FolderView {
                id: fv[f].id,
                parent: fv[f].parent,
                name: fv[f].name,
                path: fv[f].path,
                sub: fv[f].sub,
                files: fv[f].files.remove(ev[e].file_name),
            },
        ),
        ev.remove(e),
    )
}

/// An equal copy of a path's component list.
pub fn clone_path(p: &Vec<String>) -> (r: Vec<String>)
    ensures
        r@ == p@,
{
    let m = p.len();
    let mut r: Vec<String> = Vec::new();
    let mut i: usize = 0;
    while i < m
        invariant
            0 <= i <= m,
            r@ =~= p@.take(i as int),
        decreases m - i,
    {
        r.push(p[i].clone());
        proof {
            assert(p@.take(i + 1).drop_last() =~= p@.take(i as int));
            assert(p@.take(i + 1).last() == p@[i as int]);
            assert(r@ =~= p@.take(i + 1));
        }
        i += 1;
    }
    proof {
        assert(p@.take(m as int) =~= p@);
    }
    r
}

impl Folder {
    /// A placeholder folder value used when exchanging a folder out of the
    /// map for in-place mutation.
    pub fn placeholder() -> (r: Folder)
        ensures
            r@.sub == Map::<Seq<char>, i32>::empty(),
            r@.files == Map::<Seq<char>, i32>::empty(),
            folder_maps_inv(r),
    {
        Folder {
            id: 0,
            parent_id: 0,
            name: String::new(),
            path: Vec::new(),
            sub_folders: NameMap::new(),
            entries: NameMap::new(),
        }
    }
}

impl DatabaseData {
    /// Register a folder the store has just assigned an id to, as an empty
    /// child of `parent` under `name`.
    pub fn apply_add_folder(&mut self, id: FolderId, parent: FolderId, name: String)
        requires
            old(self).wf(),
            id != ROOT_FOLDER_ID,
            !old(self).folders_view().contains_key(id as int),
            old(self).folders_view().contains_key(parent as int),
            !old(self).folders_view()[parent as int].sub.contains_key(name@),
        ensures
            final(self).wf(),
            final(self).folders_view() == spec_add_folder(
                old(self).folders_view(),
                id as int,
                parent as int,
                name@,
            ),
            final(self).entries_view() == old(self).entries_view(),
            final(self).tags_view() == old(self).tags_view(),
            final(self).entries@ == old(self).entries@,
            final(self).tags@ == old(self).tags@,
    {
        let ghost fv = self.folders_view();
        let ghost gname = name@;
        let mut parent_folder = Folder::placeholder();
        self.folders.swap_value(parent, &mut parent_folder);
        let mut new_path = clone_path(&parent_folder.path);
        new_path.push(name.clone());
        let new_folder = Folder {
            id,
            parent_id: parent,
            name: name.clone(),
            path: new_path,
            sub_folders: NameMap::new(),
            entries: NameMap::new(),
        };
        parent_folder.sub_folders.insert_new(name, id);
        self.folders.swap_value(parent, &mut parent_folder);
        self.folders.insert_new(id, new_folder);
        proof {
            let nfv = self.folders_view();
            let target = spec_add_folder(fv, id as int, parent as int, gname);
            assert(self.folders@[id as int]@.path =~= fv[parent as int].path.push(gname));
            assert(nfv =~= target);
            assert(self.entries_view() =~= old(self).entries_view());
            assert(self.tags_view() =~= old(self).tags_view());
            lemma_add_folder_wf(fv, id as int, parent as int, gname);
            self.lemma_folder_views_entries_wf(old(self));
        }
    }

    /// After a change that leaves every folder's `files` map keyed exactly
    /// as before and the entries untouched, the entry linkage still holds.
    pub proof fn lemma_folder_views_entries_wf(&self, prev: &DatabaseData)
        requires
            prev.wf(),
            self.entries == prev.entries,
            self.tags == prev.tags,
            forall|f: int| #[trigger]
                prev.folders_view().contains_key(f) ==> self.folders_view().contains_key(f)
                    && self.folders_view()[f].files == prev.folders_view()[f].files
                    && self.folders_view()[f].path == prev.folders_view()[f].path,
            forall|f: int| #[trigger]
                self.folders_view().contains_key(f) ==> prev.folders_view().contains_key(f) || (
                self.folders_view()[f].files == Map::<Seq<char>, i32>::empty()),
        ensures
            entries_wf(self.folders_view(), self.entries_view(), self.tags_view()),
    {
        let fvp = self.folders_view();
        let evp = self.entries_view();
        let tvp = self.tags_view();
        assert(evp =~= prev.entries_view());
        assert(tvp =~= prev.tags_view());
        assert forall|e: int| #[trigger] evp.dom().contains(e) implies {
            &&& evp[e].id == e
            &&& fvp.dom().contains(evp[e].folder)
            &&& fvp[evp[e].folder].files.contains_key(evp[e].file_name)
            &&& fvp[evp[e].folder].files[evp[e].file_name] == e
            &&& evp[e].path == fvp[evp[e].folder].path.push(evp[e].file_name)
        } by {
            assert(prev.entries_view().dom().contains(e));
        }
        assert forall|pf: int, nm: Seq<char>|
            fvp.dom().contains(pf) && #[trigger] fvp[pf].files.contains_key(nm) implies {
            &&& evp.dom().contains(fvp[pf].files[nm] as int)
            &&& evp[fvp[pf].files[nm] as int].folder == pf
            &&& evp[fvp[pf].files[nm] as int].file_name == nm
        } by {
            assert(prev.folders_view().contains_key(pf));
            assert(prev.folders_view()[pf].files.contains_key(nm));
        }
        assert forall|e: int| #[trigger] evp.dom().contains(e) implies (forall|t: int|
            #[trigger] evp[e].tags.contains(t) ==> tvp.dom().contains(t)) by {
            assert(prev.entries_view().dom().contains(e));
        }
    }
}

/// The catalog after an entry moves to folder `nf` under file name `nn`.
pub open spec fn spec_move_entry(
    fv: Map<int, FolderView>,
    ev: Map<int, EntryView>,
    e: int,
    nf: int,
    nn: Seq<char>,
) -> (Map<int, FolderView>, Map<int, EntryView>) {
    let of = ev[e].folder;
    let on = ev[e].file_name;
    let fv1 = fv.insert(
        of,
        FolderView {
            id: fv[of].id,
            parent: fv[of].parent,
            name: fv[of].name,
            path: fv[of].path,
            sub: fv[of].sub,
            files: fv[of].files.remove(on),
        },
    );
    let fv2 = fv1.insert(
        nf,
        FolderView {
            id: fv1[nf].id,
            parent: fv1[nf].parent,
            name: fv1[nf].name,
            path: fv1[nf].path,
            sub: fv1[nf].sub,
            files: fv1[nf].files.insert(nn, e as i32),
        },
    );
    (
        fv2,
        ev.insert(
            e,
            EntryView {
                id: e,
                folder: nf,
                path: fv[nf].path.push(nn),
                file_name: nn,
                metadata: ev[e].metadata,
                tags: ev[e].tags,
            },
        ),
    )
}

impl DatabaseData {
    /// Register an entry the store has just assigned an id to, under
    /// `folder` with file name `name`, with no metadata and no tags.
    pub fn apply_add_entry(&mut self, id: EntryId, folder: FolderId, name: String)
        requires
            old(self).wf(),
            !old(self).entries_view().contains_key(id as int),
            old(self).folders_view().contains_key(folder as int),
            !old(self).folders_view()[folder as int].files.contains_key(name@),
        ensures
            final(self).wf(),
            final(self).folders_view() == spec_add_entry(
                old(self).folders_view(),
                old(self).entries_view(),
                id as int,
                folder as int,
                name@,
            ).0,
            final(self).entries_view() == spec_add_entry(
                old(self).folders_view(),
                old(self).entries_view(),
                id as int,
                folder as int,
                name@,
            ).1,
            final(self).tags_view() == old(self).tags_view(),
            final(self).tags@ == old(self).tags@,
    {
        let ghost fv = self.folders_view();
        let ghost ev = self.entries_view();
        let ghost gname = name@;
        let mut folder_value = Folder::placeholder();
        self.folders.swap_value(folder, &mut folder_value);
        let mut path = clone_path(&folder_value.path);
        path.push(name.clone());
        let entry = Entry {
            id,
            folder_id: folder,
            path,
            file_name: name.clone(),
            metadata: None,
            tag_ids: Vec::new(),
        };
        folder_value.entries.insert_new(name, id);
        self.folders.swap_value(folder, &mut folder_value);
        self.entries.insert_new(id, entry);
        proof {
            let target = spec_add_entry(fv, ev, id as int, folder as int, gname);
            assert(self.entries@[id as int]@.path =~= fv[folder as int].path.push(gname));
            assert(self.entries@[id as int]@.tags =~= Set::<int>::empty());
            assert(self.folders_view() =~= target.0);
            assert(self.entries_view() =~= target.1);
            assert(self.tags_view() =~= old(self).tags_view());
            let fvp = self.folders_view();
            let evp = self.entries_view();
            let tvp = self.tags_view();
            assert(folders_wf(fvp)) by {
                assert forall|f: int| #[trigger] fvp.dom().contains(f) && f != ROOT_FOLDER_ID as int
                    implies {
                    &&& fvp.dom().contains(fvp[f].parent)
                    &&& fvp[fvp[f].parent].sub.contains_key(fvp[f].name)
                    &&& fvp[fvp[f].parent].sub[fvp[f].name] == f
                    &&& fvp[f].path == fvp[fvp[f].parent].path.push(fvp[f].name)
                } by {
                    assert(fv.dom().contains(f));
                }
                assert forall|p: int, n: Seq<char>|
                    fvp.dom().contains(p) && #[trigger] fvp[p].sub.contains_key(n) implies {
                    &&& fvp.dom().contains(fvp[p].sub[n] as int)
                    &&& fvp[p].sub[n] != ROOT_FOLDER_ID
                    &&& fvp[fvp[p].sub[n] as int].parent == p
                    &&& fvp[fvp[p].sub[n] as int].name == n
                } by {
                    assert(fv.dom().contains(p));
                    assert(fv[p].sub.contains_key(n));
                }
            }
            assert(entries_wf(fvp, evp, tvp)) by {
                assert(evp.dom().finite()) by {
                    crate::id_map::lemma_map_of_finite(self.entries.entries());
                    assert(evp.dom() =~= self.entries@.dom());
                }
                assert forall|e: int| #[trigger] evp.dom().contains(e) implies {
                    &&& evp[e].id == e
                    &&& fvp.dom().contains(evp[e].folder)
                    &&& fvp[evp[e].folder].files.contains_key(evp[e].file_name)
                    &&& fvp[evp[e].folder].files[evp[e].file_name] == e
                    &&& evp[e].path == fvp[evp[e].folder].path.push(evp[e].file_name)
                } by {
                    if e != id as int {
                        assert(ev.dom().contains(e));
                        assert(ev[e].folder == evp[e].folder);
                        if evp[e].folder == folder as int {
                            assert(fv[folder as int].files.contains_key(ev[e].file_name));
                        }
                    }
                }
                assert forall|pf: int, nm: Seq<char>|
                    fvp.dom().contains(pf) && #[trigger] fvp[pf].files.contains_key(nm) implies {
                    &&& evp.dom().contains(fvp[pf].files[nm] as int)
                    &&& evp[fvp[pf].files[nm] as int].folder == pf
                    &&& evp[fvp[pf].files[nm] as int].file_name == nm
                } by {
                    if pf == folder as int && nm == gname {
                    } else {
                        assert(fv.dom().contains(pf));
                        assert(fv[pf].files.contains_key(nm));
                    }
                }
                assert forall|e: int| #[trigger] evp.dom().contains(e) implies (forall|t: int|
                    #[trigger] evp[e].tags.contains(t) ==> tvp.dom().contains(t)) by {
                    if e != id as int {
                        assert(ev.dom().contains(e));
                    } else {
                        assert(evp[e].tags =~= Set::<int>::empty());
                    }
                }
            }
        }
    }

    /// Remove an entry from the model and detach it from its folder.
    pub fn apply_remove_entry(&mut self, entry_id: EntryId)
        requires
            old(self).wf(),
            old(self).entries_view().contains_key(entry_id as int),
        ensures
            final(self).wf(),
            final(self).folders_view() == spec_remove_entry(
                old(self).folders_view(),
                old(self).entries_view(),
                entry_id as int,
            ).0,
            final(self).entries_view() == spec_remove_entry(
                old(self).folders_view(),
                old(self).entries_view(),
                entry_id as int,
            ).1,
            final(self).tags_view() == old(self).tags_view(),
            final(self).tags@ == old(self).tags@,
    {
        let ghost fv = self.folders_view();
        let ghost ev = self.entries_view();
        let (folder_id, file_name) = {
            let e = match self.entries.get(entry_id) {
                Some(e) => e,
                None => vstd::pervasive::unreached(),
            };
            (e.folder_id, e.file_name.clone())
        };
        self.entries.remove(entry_id);
        let mut folder_value = Folder::placeholder();
        self.folders.swap_value(folder_id, &mut folder_value);
        folder_value.entries.remove(&file_name);
        self.folders.swap_value(folder_id, &mut folder_value);
        proof {
            let target = spec_remove_entry(fv, ev, entry_id as int);
            assert(self.folders_view() =~= target.0);
            assert(self.entries_view() =~= target.1);
            assert(self.tags_view() =~= old(self).tags_view());
            let fvp = self.folders_view();
            let evp = self.entries_view();
            let tvp = self.tags_view();
            assert(folders_wf(fvp)) by {
                assert forall|f: int| #[trigger] fvp.dom().contains(f) && f != ROOT_FOLDER_ID as int
                    implies {
                    &&& fvp.dom().contains(fvp[f].parent)
                    &&& fvp[fvp[f].parent].sub.contains_key(fvp[f].name)
                    &&& fvp[fvp[f].parent].sub[fvp[f].name] == f
                    &&& fvp[f].path == fvp[fvp[f].parent].path.push(fvp[f].name)
                } by {
                    assert(fv.dom().contains(f));
                }
                assert forall|p: int, n: Seq<char>|
                    fvp.dom().contains(p) && #[trigger] fvp[p].sub.contains_key(n) implies {
                    &&& fvp.dom().contains(fvp[p].sub[n] as int)
                    &&& fvp[p].sub[n] != ROOT_FOLDER_ID
                    &&& fvp[fvp[p].sub[n] as int].parent == p
                    &&& fvp[fvp[p].sub[n] as int].name == n
                } by {
                    assert(fv.dom().contains(p));
                    assert(fv[p].sub.contains_key(n));
                }
            }
            assert(entries_wf(fvp, evp, tvp)) by {
                assert forall|e: int| #[trigger] evp.dom().contains(e) implies {
                    &&& evp[e].id == e
                    &&& fvp.dom().contains(evp[e].folder)
                    &&& fvp[evp[e].folder].files.contains_key(evp[e].file_name)
                    &&& fvp[evp[e].folder].files[evp[e].file_name] == e
                    &&& evp[e].path == fvp[evp[e].folder].path.push(evp[e].file_name)
                } by {
                    assert(ev.dom().contains(e));
                    if evp[e].folder == folder_id as int {
                        assert(ev[e].file_name != ev[entry_id as int].file_name);
                    }
                }
                assert forall|pf: int, nm: Seq<char>|
                    fvp.dom().contains(pf) && #[trigger] fvp[pf].files.contains_key(nm) implies {
                    &&& evp.dom().contains(fvp[pf].files[nm] as int)
                    &&& evp[fvp[pf].files[nm] as int].folder == pf
                    &&& evp[fvp[pf].files[nm] as int].file_name == nm
                } by {
                    assert(fv.dom().contains(pf));
                    assert(fv[pf].files.contains_key(nm));
                    assert(fv[pf].files[nm] == fvp[pf].files[nm]);
                    if fvp[pf].files[nm] as int == entry_id as int {
                        assert(pf == folder_id as int && nm == ev[entry_id as int].file_name);
                        assert(false);
                    }
                }
                assert forall|e: int| #[trigger] evp.dom().contains(e) implies (forall|t: int|
                    #[trigger] evp[e].tags.contains(t) ==> tvp.dom().contains(t)) by {
                    assert(ev.dom().contains(e));
                }
            }
        }
    }
}

impl DatabaseData {
    /// Relocate an entry to another folder and file name, rewriting its
    /// stored path; the caller has made sure no other entry sits at the
    /// target.
    pub fn apply_move_entry(&mut self, entry_id: EntryId, new_folder: FolderId, new_name: String)
        requires
            old(self).wf(),
            old(self).entries_view().contains_key(entry_id as int),
            old(self).folders_view().contains_key(new_folder as int),
            old(self).folders_view()[new_folder as int].files.contains_key(new_name@) ==> (
            new_folder as int == old(self).entries_view()[entry_id as int].folder && new_name@
                == old(self).entries_view()[entry_id as int].file_name),
        ensures
            final(self).wf(),
            final(self).folders_view() == spec_move_entry(
                old(self).folders_view(),
                old(self).entries_view(),
                entry_id as int,
                new_folder as int,
                new_name@,
            ).0,
            final(self).entries_view() == spec_move_entry(
                old(self).folders_view(),
                old(self).entries_view(),
                entry_id as int,
                new_folder as int,
                new_name@,
            ).1,
            final(self).tags_view() == old(self).tags_view(),
            final(self).tags@ == old(self).tags@,
    {
        let ghost fv = self.folders_view();
        let ghost ev = self.entries_view();
        let ghost gname = new_name@;
        let (old_folder, old_name) = {
            let e = match self.entries.get(entry_id) {
                Some(e) => e,
                None => vstd::pervasive::unreached(),
            };
            (e.folder_id, e.file_name.clone())
        };
        // Detach from the old folder, attach to the new one.
        let mut folder_value = Folder::placeholder();
        self.folders.swap_value(old_folder, &mut folder_value);
        folder_value.entries.remove(&old_name);
        if old_folder == new_folder {
            folder_value.entries.insert_new(new_name.clone(), entry_id);
            self.folders.swap_value(old_folder, &mut folder_value);
        } else {
            self.folders.swap_value(old_folder, &mut folder_value);
            let mut nf_value = Folder::placeholder();
            self.folders.swap_value(new_folder, &mut nf_value);
            nf_value.entries.insert_new(new_name.clone(), entry_id);
            self.folders.swap_value(new_folder, &mut nf_value);
        }
        // Rewrite the entry itself.
        let new_path = {
            let f = match self.folders.get(new_folder) {
                Some(f) => f,
                None => vstd::pervasive::unreached(),
            };
            let mut p = clone_path(&f.path);
            p.push(new_name.clone());
            p
        };
        let mut entry_value = Entry {
            id: 0,
            folder_id: 0,
            path: Vec::new(),
            file_name: String::new(),
            metadata: None,
            tag_ids: Vec::new(),
        };
        self.entries.swap_value(entry_id, &mut entry_value);
        entry_value.folder_id = new_folder;
        entry_value.path = new_path;
        entry_value.file_name = new_name;
        self.entries.swap_value(entry_id, &mut entry_value);
        proof {
            let target = spec_move_entry(fv, ev, entry_id as int, new_folder as int, gname);
            assert(self.entries@[entry_id as int]@.path =~= fv[new_folder as int].path.push(gname));
            assert(self.folders_view() =~= target.0);
            assert(self.entries_view() =~= target.1);
            assert(self.tags_view() =~= old(self).tags_view());
            let fvp = self.folders_view();
            let evp = self.entries_view();
            let tvp = self.tags_view();
            assert(folders_wf(fvp)) by {
                assert forall|f: int| #[trigger] fvp.dom().contains(f) && f != ROOT_FOLDER_ID as int
                    implies {
                    &&& fvp.dom().contains(fvp[f].parent)
                    &&& fvp[fvp[f].parent].sub.contains_key(fvp[f].name)
                    &&& fvp[fvp[f].parent].sub[fvp[f].name] == f
                    &&& fvp[f].path == fvp[fvp[f].parent].path.push(fvp[f].name)
                } by {
                    assert(fv.dom().contains(f));
                }
                assert forall|p: int, n: Seq<char>|
                    fvp.dom().contains(p) && #[trigger] fvp[p].sub.contains_key(n) implies {
                    &&& fvp.dom().contains(fvp[p].sub[n] as int)
                    &&& fvp[p].sub[n] != ROOT_FOLDER_ID
                    &&& fvp[fvp[p].sub[n] as int].parent == p
                    &&& fvp[fvp[p].sub[n] as int].name == n
                } by {
                    assert(fv.dom().contains(p));
                    assert(fv[p].sub.contains_key(n));
                }
            }
            assert(entries_wf(fvp, evp, tvp)) by {
                assert forall|e: int| #[trigger] evp.dom().contains(e) implies {
                    &&& evp[e].id == e
                    &&& fvp.dom().contains(evp[e].folder)
                    &&& fvp[evp[e].folder].files.contains_key(evp[e].file_name)
                    &&& fvp[evp[e].folder].files[evp[e].file_name] == e
                    &&& evp[e].path == fvp[evp[e].folder].path.push(evp[e].file_name)
                } by {
                    assert(ev.dom().contains(e));
                    if e != entry_id as int {
                        if evp[e].folder == old_folder as int {
                            assert(ev[e].file_name != ev[entry_id as int].file_name);
                        }
                        if evp[e].folder == new_folder as int {
                            assert(fv[new_folder as int].files.contains_key(ev[e].file_name));
                            assert(ev[e].file_name != gname);
                        }
                    }
                }
                assert forall|pf: int, nm: Seq<char>|
                    fvp.dom().contains(pf) && #[trigger] fvp[pf].files.contains_key(nm) implies {
                    &&& evp.dom().contains(fvp[pf].files[nm] as int)
                    &&& evp[fvp[pf].files[nm] as int].folder == pf
                    &&& evp[fvp[pf].files[nm] as int].file_name == nm
                } by {
                    if pf == new_folder as int && nm == gname {
                    } else {
                        assert(fv.dom().contains(pf));
                        assert(fv[pf].files.contains_key(nm));
                        if fvp[pf].files[nm] as int == entry_id as int {
                            assert(pf == old_folder as int && nm == ev[entry_id as int].file_name);
                            assert(false);
                        }
                    }
                }
                assert forall|e: int| #[trigger] evp.dom().contains(e) implies (forall|t: int|
                    #[trigger] evp[e].tags.contains(t) ==> tvp.dom().contains(t)) by {
                    assert(ev.dom().contains(e));
                }
            }
        }
    }
}

/// Adding an empty folder under a free name keeps the folder tree well
/// formed.
pub proof fn lemma_add_folder_wf(fv: Map<int, FolderView>, id: int, parent: int, name: Seq<char>)
    requires
        folders_wf(fv),
        id != ROOT_FOLDER_ID as int,
        i32::MIN <= id <= i32::MAX,
        !fv.contains_key(id),
        fv.contains_key(parent),
        !fv[parent].sub.contains_key(name),
    ensures
        folders_wf(spec_add_folder(fv, id, parent, name)),
{
    let nfv = spec_add_folder(fv, id, parent, name);
    assert forall|f: int| #[trigger] nfv.dom().contains(f) && f != ROOT_FOLDER_ID as int implies {
        &&& nfv.dom().contains(nfv[f].parent)
        &&& nfv[nfv[f].parent].sub.contains_key(nfv[f].name)
        &&& nfv[nfv[f].parent].sub[nfv[f].name] == f
        &&& nfv[f].path == nfv[nfv[f].parent].path.push(nfv[f].name)
    } by {
        if f != id {
            assert(fv.dom().contains(f));
            if fv[f].parent == parent {
                assert(fv[parent].sub.contains_key(fv[f].name));
            }
        }
    }
    assert forall|p: int, n: Seq<char>|
        nfv.dom().contains(p) && #[trigger] nfv[p].sub.contains_key(n) implies {
        &&& nfv.dom().contains(nfv[p].sub[n] as int)
        &&& nfv[p].sub[n] != ROOT_FOLDER_ID
        &&& nfv[nfv[p].sub[n] as int].parent == p
        &&& nfv[nfv[p].sub[n] as int].name == n
    } by {
        if p != id {
            assert(fv.dom().contains(p));
            if p == parent && n == name {
            } else {
                assert(fv[p].sub.contains_key(n));
            }
        }
    }
}

} // verus!
