use crate::entry::{entries_wf, id_set, lemma_id_set_push, vec_contains_id, EntryView};
use crate::folder::{folders_wf, Folder, FolderId, FolderView, ROOT_FOLDER_ID};
use crate::model::DatabaseData;
use vstd::prelude::*;

verus! {

/// `d` is the folder subtree rooted at `id`: it holds `id`, never the root
/// sentinel, each member other than `id` has its parent inside, and it is
/// saturated — a folder whose parent lies inside is inside too.
pub open spec fn is_removed_folder_set(fv: Map<int, FolderView>, id: int, d: Set<int>) -> bool {
    &&& d.contains(id)
    &&& !d.contains(ROOT_FOLDER_ID as int)
    &&& forall|x: int| #[trigger]
        d.contains(x) ==> fv.contains_key(x) && x != ROOT_FOLDER_ID as int
    &&& forall|x: int| #[trigger] d.contains(x) && x != id ==> d.contains(fv[x].parent)
    &&& forall|x: int| #[trigger]
        fv.contains_key(x) && x != ROOT_FOLDER_ID as int && d.contains(fv[x].parent)
            ==> d.contains(x)
}

/// The catalog after the folder subtree `d` rooted at `id` is removed: the
/// folders in `d` are gone, the removed folder's name leaves its parent's
/// sub-folder map, and every entry of a removed folder is gone too.
pub open spec fn spec_remove_folders(
    fv: Map<int, FolderView>,
    ev: Map<int, EntryView>,
    id: int,
    d: Set<int>,
) -> (Map<int, FolderView>, Map<int, EntryView>) {
    let p = fv[id].parent;
    (
        Map::new(
            |k: int| fv.contains_key(k) && !d.contains(k),
            |k: int|
                if k == p {
                    FolderView {
                        id: fv[k].id,
                        parent: fv[k].parent,
                        name: fv[k].name,
                        path: fv[k].path,
                        sub: fv[k].sub.remove(fv[id].name),
                        files: fv[k].files,
                    }
                } else {
                    fv[k]
                },
        ),
        Map::new(|k: int| ev.contains_key(k) && !d.contains(ev[k].folder), |k: int| ev[k]),
    )
}

impl DatabaseData {
    /// The removed folder together with every folder beneath it, saturated
    /// so that no surviving folder's parent is in the result.
    pub fn collect_folder_subtree(&self, folder_id: FolderId) -> (r: Vec<FolderId>)
        requires
            self.wf(),
            folder_id != ROOT_FOLDER_ID,
            self.folders_view().contains_key(folder_id as int),
        ensures
            is_removed_folder_set(self.folders_view(), folder_id as int, id_set(r@)),
            forall|j: int, l: int| 0 <= j < l < r@.len() ==> r@[j] != r@[l],
    {
        let ghost fv = self.folders_view();
        proof {
            self.folders.lemma_entries();
        }
        let n = self.folders.len();
        let mut dvec: Vec<i32> = Vec::new();
        dvec.push(folder_id);
        proof {
            lemma_id_set_push(Seq::empty(), folder_id);
        }
        loop
            invariant
                self.wf(),
                fv == self.folders_view(),
                n == self.folders.entries().len(),
                id_set(dvec@).contains(folder_id as int),
                !id_set(dvec@).contains(ROOT_FOLDER_ID as int),
                forall|x: int| #[trigger]
                    id_set(dvec@).contains(x) ==> fv.contains_key(x) && x != ROOT_FOLDER_ID as int,
                forall|x: int| #[trigger]
                    id_set(dvec@).contains(x) && x != folder_id as int ==> id_set(dvec@).contains(
                        fv[x].parent,
                    ),
                forall|j: int, l: int| 0 <= j < l < dvec@.len() ==> dvec@[j] != dvec@[l],
                dvec@.len() <= fv.dom().len(),
            decreases fv.dom().len() - dvec@.len(),
        {
            let ghost d0 = id_set(dvec@);
            let ghost len0 = dvec@.len();
            let mut changed = false;
            let mut i: usize = 0;
            while i < n
                invariant
                    0 <= i <= n,
                    self.wf(),
                    fv == self.folders_view(),
                    n == self.folders.entries().len(),
                    id_set(dvec@).contains(folder_id as int),
                    !id_set(dvec@).contains(ROOT_FOLDER_ID as int),
                    forall|x: int| #[trigger]
                        id_set(dvec@).contains(x) ==> fv.contains_key(x) && x != ROOT_FOLDER_ID
                            as int,
                    forall|x: int| #[trigger]
                        id_set(dvec@).contains(x) && x != folder_id as int ==> id_set(
                            dvec@,
                        ).contains(fv[x].parent),
                    forall|j: int, l: int| 0 <= j < l < dvec@.len() ==> dvec@[j] != dvec@[l],
                    dvec@.len() <= fv.dom().len(),
                    !changed ==> dvec@.len() == len0,
                    !changed ==> id_set(dvec@) == d0,
                    changed ==> dvec@.len() > len0,
                    !changed ==> forall|j: int|
                        0 <= j < i ==> ({
                            let k = (#[trigger] self.folders.entries()[j]).0;
                            k == ROOT_FOLDER_ID || !id_set(dvec@).contains(fv[k as int].parent)
                                || id_set(dvec@).contains(k as int)
                        }),
                decreases n - i,
            {
                let (k, f) = self.folders.entry_at(i);
                proof {
                    assert(fv[k as int] == self.folders.entries()[i as int].1@);
                }
                if k != ROOT_FOLDER_ID && vec_contains_id(&dvec, f.parent_id) && !vec_contains_id(
                    &dvec,
                    k,
                ) {
                    let ghost pre = dvec@;
                    dvec.push(k);
                    changed = true;
                    proof {
                        lemma_id_set_push(pre, k);
                        crate::entry::lemma_id_set_contains(pre, k as int);
                        assert forall|j: int, l: int| 0 <= j < l < dvec@.len() implies dvec@[j]
                            != dvec@[l] by {
                            if l == dvec@.len() - 1 {
                                assert(pre[j] != k);
                            }
                        }
                        crate::entry::lemma_id_set_finite(dvec@);
                        crate::id_map::lemma_map_of_finite(self.folders.entries());
                        assert(id_set(dvec@).subset_of(fv.dom()));
                        crate::tag_delete::lemma_id_set_len_le(dvec@);
                        crate::tag::lemma_subset_len(id_set(dvec@), fv.dom());
                        assert(id_set(dvec@).len() == dvec@.len()) by {
                            crate::tag_delete::lemma_id_set_len_unique(dvec@);
                        }
                    }
                }
                i += 1;
            }
            if !changed {
                proof {
                    assert forall|x: int| #[trigger]
                        fv.contains_key(x) && x != ROOT_FOLDER_ID as int && id_set(
                            dvec@,
                        ).contains(fv[x].parent) implies id_set(dvec@).contains(x) by {
                        let j = choose|j: int|
                            0 <= j < self.folders.entries().len() && (
                            #[trigger] self.folders.entries()[j]).0 == x;
                        assert(self.folders.entries()[j].0 as int == x);
                    }
                }
                return dvec;
            }
        }
    }

    /// Remove a folder, its sub-folders, and all their entries from the
    /// model, and detach the folder from its parent.
    pub fn apply_remove_folder(&mut self, folder_id: FolderId)
        requires
            old(self).wf(),
            folder_id != ROOT_FOLDER_ID,
            old(self).folders_view().contains_key(folder_id as int),
        ensures
            final(self).wf(),
            exists|d: Set<int>|
                {
                    &&& #[trigger] is_removed_folder_set(
                        old(self).folders_view(),
                        folder_id as int,
                        d,
                    )
                    &&& final(self).folders_view() == spec_remove_folders(
                        old(self).folders_view(),
                        old(self).entries_view(),
                        folder_id as int,
                        d,
                    ).0
                    &&& final(self).entries_view() == spec_remove_folders(
                        old(self).folders_view(),
                        old(self).entries_view(),
                        folder_id as int,
                        d,
                    ).1
                },
            final(self).tags_view() == old(self).tags_view(),
            final(self).tags@ == old(self).tags@,
    {
        let ghost fv = self.folders_view();
        let ghost ev0 = self.entries_view();
        proof {
            self.folders.lemma_entries();
        }
        let dvec = self.collect_folder_subtree(folder_id);
        let ghost d = id_set(dvec@);
        let ghost targets = spec_remove_folders(fv, ev0, folder_id as int, d);
        let (parent_id, folder_name) = {
            let f = match self.folders.get(folder_id) {
                Some(f) => f,
                None => vstd::pervasive::unreached(),
            };
            (f.parent_id, f.name.clone())
        };

        // Collect the entries living in removed folders.
        proof {
            self.entries.lemma_entries();
        }
        let en = self.entries.len();
        let mut victims: Vec<i32> = Vec::new();
        let mut i: usize = 0;
        while i < en
            invariant
                0 <= i <= en,
                self.wf(),
                fv == self.folders_view(),
                ev0 == self.entries_view(),
                en == self.entries.entries().len(),
                forall|j: int, l: int| 0 <= j < l < victims@.len() ==> victims@[j] != victims@[l],
                forall|x: int| #[trigger]
                    id_set(victims@).contains(x) ==> ev0.contains_key(x) && d.contains(
                        ev0[x].folder,
                    ),
                forall|j: int|
                    0 <= j < i ==> ({
                        let k = (#[trigger] self.entries.entries()[j]).0;
                        !d.contains(ev0[k as int].folder) || id_set(victims@).contains(k as int)
                    }),
            decreases en - i,
        {
            let (k, e) = self.entries.entry_at(i);
            proof {
                assert(ev0[k as int] == self.entries.entries()[i as int].1@);
            }
            if vec_contains_id(&dvec, e.folder_id) && !vec_contains_id(&victims, k) {
                let ghost pre = victims@;
                victims.push(k);
                proof {
                    lemma_id_set_push(pre, k);
                    crate::entry::lemma_id_set_contains(pre, k as int);
                    assert forall|j: int, l: int| 0 <= j < l < victims@.len() implies victims@[j]
                        != victims@[l] by {
                        if l == victims@.len() - 1 {
                            assert(pre[j] != k);
                        }
                    }
                }
            }
            i += 1;
        }
        proof {
            assert forall|x: int|
                ev0.contains_key(x) && d.contains(ev0[x].folder) implies id_set(
                victims@,
            ).contains(x) by {
                self.entries.lemma_entries();
                let j = choose|j: int|
                    0 <= j < self.entries.entries().len() && (#[trigger] self.entries.entries()[j]).0
                        == x;
                assert(self.entries.entries()[j].0 as int == x);
            }
        }

        // Remove those entries.
        let vn = victims.len();
        let mut i2: usize = 0;
        while i2 < vn
            invariant
                0 <= i2 <= vn,
                vn == victims@.len(),
                self.entries.inv(),
                self.folders == old(self).folders,
                self.tags == old(self).tags,
                forall|j: int, l: int| 0 <= j < l < vn ==> victims@[j] != victims@[l],
                forall|x: int| #[trigger] id_set(victims@).contains(x) ==> ev0.contains_key(x),
                forall|k: int| #[trigger]
                    self.entries@.contains_key(k) <==> (ev0.contains_key(k) && !(exists|j: int|
                        0 <= j < i2 && (#[trigger] victims@[j]) as int == k)),
                forall|k: int| #[trigger]
                    self.entries@.contains_key(k) ==> self.entries@[k]@ == ev0[k],
            decreases vn - i2,
        {
            proof {
                crate::entry::lemma_id_set_contains(victims@, victims@[i2 as int] as int);
                assert(id_set(victims@).contains(victims@[i2 as int] as int));
            }
            self.entries.remove(victims[i2]);
            proof {
                assert forall|k: int| #[trigger]
                    self.entries@.contains_key(k) <==> (ev0.contains_key(k) && !(exists|j: int|
                        0 <= j < i2 + 1 && (#[trigger] victims@[j]) as int == k)) by {
                    if ev0.contains_key(k) {
                        if exists|j: int| 0 <= j < i2 + 1 && (#[trigger] victims@[j]) as int == k {
                            let j = choose|j: int|
                                0 <= j < i2 + 1 && (#[trigger] victims@[j]) as int == k;
                            if j < i2 {
                                assert(!self.entries@.contains_key(k));
                            }
                        }
                    }
                }
            }
            i2 += 1;
        }
        proof {
            assert forall|k: int| #[trigger]
                self.entries@.contains_key(k) <==> (ev0.contains_key(k) && !d.contains(
                    ev0[k].folder,
                )) by {
                crate::entry::lemma_id_set_contains(victims@, k);
            }
        }

        // Remove the folders of the subtree.
        let ghost entries_done = self.entries;
        let m = dvec.len();
        let mut i3: usize = 0;
        while i3 < m
            invariant
                0 <= i3 <= m,
                m == dvec@.len(),
                self.folders.inv(),
                self.entries == entries_done,
                self.tags == old(self).tags,
                forall|j: int, l: int| 0 <= j < l < m ==> dvec@[j] != dvec@[l],
                forall|x: int| #[trigger] d.contains(x) ==> fv.contains_key(x),
                forall|k: int| #[trigger]
                    self.folders@.contains_key(k) <==> (fv.contains_key(k) && !(exists|j: int|
                        0 <= j < i3 && (#[trigger] dvec@[j]) as int == k)),
                forall|k: int| #[trigger]
                    self.folders@.contains_key(k) ==> self.folders@[k] == old(self).folders@[k],
            decreases m - i3,
        {
            proof {
                crate::entry::lemma_id_set_contains(dvec@, dvec@[i3 as int] as int);
                assert(d.contains(dvec@[i3 as int] as int));
            }
            self.folders.remove(dvec[i3]);
            proof {
                assert forall|k: int| #[trigger]
                    self.folders@.contains_key(k) <==> (fv.contains_key(k) && !(exists|j: int|
                        0 <= j < i3 + 1 && (#[trigger] dvec@[j]) as int == k)) by {
                    if fv.contains_key(k) {
                        if exists|j: int| 0 <= j < i3 + 1 && (#[trigger] dvec@[j]) as int == k {
                            let j = choose|j: int|
                                0 <= j < i3 + 1 && (#[trigger] dvec@[j]) as int == k;
                            if j < i3 {
                                assert(!self.folders@.contains_key(k));
                            }
                        }
                    }
                }
            }
            i3 += 1;
        }
        proof {
            assert forall|k: int| #[trigger]
                self.folders@.contains_key(k) <==> (fv.contains_key(k) && !d.contains(k)) by {
                crate::entry::lemma_id_set_contains(dvec@, k);
            }
        }

        // Detach the removed folder from its surviving parent.
        if !vec_contains_id(&dvec, parent_id) {
            proof {
                assert(fv.contains_key(parent_id as int));
                assert(self.folders@.contains_key(parent_id as int));
                assert(self.folders@[parent_id as int] == old(self).folders@[parent_id as int]);
            }
            let mut parent_value = Folder::placeholder();
            self.folders.swap_value(parent_id, &mut parent_value);
            proof {
                assert(parent_value == old(self).folders@[parent_id as int]);
                assert(crate::folder::folder_maps_inv(parent_value));
                assert(fv[parent_id as int].sub.contains_key(fv[folder_id as int].name));
                assert(parent_value@.sub.contains_key(folder_name@));
            }
            parent_value.sub_folders.remove(&folder_name);
            self.folders.swap_value(parent_id, &mut parent_value);
        }
        proof {
            assert(is_removed_folder_set(fv, folder_id as int, d));
            assert(self.folders_view() =~= targets.0);
            assert(self.entries_view() =~= targets.1);
            assert(self.tags_view() =~= old(self).tags_view());
            lemma_remove_folders_wf(fv, ev0, old(self).tags_view(), folder_id as int, d);
            assert(crate::entry::entries_wf(
                self.folders_view(),
                self.entries_view(),
                self.tags_view(),
            ));
            assert(folders_wf(self.folders_view()));
        }
    }
}

/// Removing a saturated folder subtree keeps the folder tree and the entry
/// linkage well formed.
pub proof fn lemma_remove_folders_wf(
    fv: Map<int, FolderView>,
    ev: Map<int, EntryView>,
    tv: Map<int, crate::tag::TagView>,
    id: int,
    d: Set<int>,
)
    requires
        folders_wf(fv),
        entries_wf(fv, ev, tv),
        fv.contains_key(id),
        id != ROOT_FOLDER_ID as int,
        is_removed_folder_set(fv, id, d),
    ensures
        folders_wf(spec_remove_folders(fv, ev, id, d).0),
        entries_wf(
            spec_remove_folders(fv, ev, id, d).0,
            spec_remove_folders(fv, ev, id, d).1,
            tv,
        ),
{
    let p = fv[id].parent;
    let nfv = spec_remove_folders(fv, ev, id, d).0;
    let nev = spec_remove_folders(fv, ev, id, d).1;
    assert(nfv.dom() =~= fv.dom().difference(d));
    assert(nev.dom().finite()) by {
        crate::tag::lemma_subset_len(nev.dom(), ev.dom());
    }
    assert forall|f: int| #[trigger] nfv.dom().contains(f) && f != ROOT_FOLDER_ID as int implies {
        &&& nfv.dom().contains(nfv[f].parent)
        &&& nfv[nfv[f].parent].sub.contains_key(nfv[f].name)
        &&& nfv[nfv[f].parent].sub[nfv[f].name] == f
        &&& nfv[f].path == nfv[nfv[f].parent].path.push(nfv[f].name)
    } by {
        assert(!d.contains(fv[f].parent));
        if fv[f].parent == p {
            assert(fv[p].sub.contains_key(fv[f].name));
            assert(fv[f].name != fv[id].name) by {
                if fv[f].name == fv[id].name {
                    assert(fv[p].sub[fv[id].name] == id);
                }
            }
        }
    }
    assert forall|pf: int, n: Seq<char>|
        nfv.dom().contains(pf) && #[trigger] nfv[pf].sub.contains_key(n) implies {
        &&& nfv.dom().contains(nfv[pf].sub[n] as int)
        &&& nfv[pf].sub[n] != ROOT_FOLDER_ID
        &&& nfv[nfv[pf].sub[n] as int].parent == pf
        &&& nfv[nfv[pf].sub[n] as int].name == n
    } by {
        assert(fv[pf].sub.contains_key(n));
        let c = fv[pf].sub[n] as int;
        assert(fv.dom().contains(c));
        if d.contains(c) {
            if c != id {
                assert(d.contains(fv[c].parent));
                assert(false);
            } else {
                assert(pf == p && n == fv[id].name);
                assert(false);
            }
        }
    }
    assert forall|e: int| #[trigger] nev.dom().contains(e) implies {
        &&& nev[e].id == e
        &&& nfv.dom().contains(nev[e].folder)
        &&& nfv[nev[e].folder].files.contains_key(nev[e].file_name)
        &&& nfv[nev[e].folder].files[nev[e].file_name] == e
        &&& nev[e].path == nfv[nev[e].folder].path.push(nev[e].file_name)
    } by {
        assert(ev.dom().contains(e));
    }
    assert forall|pf: int, nm: Seq<char>|
        nfv.dom().contains(pf) && #[trigger] nfv[pf].files.contains_key(nm) implies {
        &&& nev.dom().contains(nfv[pf].files[nm] as int)
        &&& nev[nfv[pf].files[nm] as int].folder == pf
        &&& nev[nfv[pf].files[nm] as int].file_name == nm
    } by {
        assert(fv[pf].files.contains_key(nm));
        assert(ev.dom().contains(fv[pf].files[nm] as int));
    }
    assert forall|e: int| #[trigger] nev.dom().contains(e) implies (forall|t: int|
        #[trigger] nev[e].tags.contains(t) ==> tv.dom().contains(t)) by {
        assert(ev.dom().contains(e));
    }
}

} // verus!
