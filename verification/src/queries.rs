use crate::entry::{Entry, EntryId};
use crate::folder::{folders_wf, Folder, FolderId, FolderView, ROOT_FOLDER_ID};
use crate::folder_ops::clone_path;
use crate::model::DatabaseData;
use vstd::prelude::*;

verus! {

/// The folder reached by walking the path's components from the root
/// through the sub-folder maps.
pub open spec fn spec_folder_at(fv: Map<int, FolderView>, path: Seq<Seq<char>>) -> Option<int>
    decreases path.len(),
{
    if path.len() == 0 {
        Some(ROOT_FOLDER_ID as int)
    } else {
        match spec_folder_at(fv, path.drop_last()) {
            Some(p) => if fv.contains_key(p) && fv[p].sub.contains_key(path.last()) {
                Some(fv[p].sub[path.last()] as int)
            } else {
                None
            },
            None => None,
        }
    }
}

/// The entry registered at a relative file path: its directory part must
/// resolve to a folder whose entry map holds the file name.
pub open spec fn spec_entry_at(fv: Map<int, FolderView>, path: Seq<Seq<char>>) -> Option<int> {
    match spec_folder_at(fv, path.drop_last()) {
        Some(p) => if fv.contains_key(p) && fv[p].files.contains_key(path.last()) {
            Some(fv[p].files[path.last()] as int)
        } else {
            None
        },
        None => None,
    }
}

/// A resolved folder is in the map.
pub proof fn lemma_folder_at_in_dom(fv: Map<int, FolderView>, path: Seq<Seq<char>>)
    requires
        folders_wf(fv),
        spec_folder_at(fv, path) is Some,
    ensures
        fv.contains_key(spec_folder_at(fv, path)->Some_0),
    decreases path.len(),
{
    if path.len() > 0 {
        lemma_folder_at_in_dom(fv, path.drop_last());
    }
}

impl DatabaseData {
    pub fn get_folder(&self, folder_id: FolderId) -> (r: Option<&Folder>)
        requires
            self.wf(),
        ensures
            match r {
                Some(f) => self.folders_view().contains_key(folder_id as int) && f@
                    == self.folders_view()[folder_id as int],
                None => !self.folders_view().contains_key(folder_id as int),
            },
    {
        self.folders.get(folder_id)
    }

    pub fn get_entry(&self, entry_id: EntryId) -> (r: Option<&Entry>)
        requires
            self.wf(),
        ensures
            match r {
                Some(e) => self.entries_view().contains_key(entry_id as int) && e@
                    == self.entries_view()[entry_id as int],
                None => !self.entries_view().contains_key(entry_id as int),
            },
    {
        self.entries.get(entry_id)
    }

    /// How many entries the catalog holds.
    pub fn entry_count(&self) -> (r: usize)
        requires
            self.wf(),
        ensures
            r == self.entries_view().dom().len(),
    {
        proof {
            self.entries.lemma_entries();
            assert(self.entries_view().dom() =~= self.entries@.dom());
        }
        self.entries.len()
    }

    /// Resolve a relative path, given as its components, to a folder by
    /// walking the sub-folder maps from the root.
    pub fn get_folder_by_path(&self, path: &Vec<String>) -> (r: Option<FolderId>)
        requires
            self.wf(),
        ensures
            match r {
                Some(f) => spec_folder_at(self.folders_view(), path@.map_values(|s: String| s@))
                    == Some(f as int) && self.folders_view().contains_key(f as int),
                None => spec_folder_at(self.folders_view(), path@.map_values(|s: String| s@))
                    is None,
            },
    {
        let ghost fv = self.folders_view();
        let ghost gpath = path@.map_values(|s: String| s@);
        let n = path.len();
        let mut cur: FolderId = ROOT_FOLDER_ID;
        let mut i: usize = 0;
        while i < n
            invariant
                0 <= i <= n,
                n == path@.len(),
                spec_folder_at(fv, gpath.take(i as int)) == Some(cur as int),
                fv.contains_key(cur as int),
            decreases n - i,
        {
            let f = match self.folders.get(cur) {
                Some(f) => f,
                None => vstd::pervasive::unreached(),
            };
            let next = match f.sub_folders.get(&path[i]) {
                Some(id) => id,
                None => {
                    proof {
                        assert(gpath.take(i + 1).drop_last() =~= gpath.take(i as int));
                        assert(gpath.take(i + 1).last() == gpath[i as int]);
                        assert(spec_folder_at(fv, gpath.take(i + 1)) is None);
                        assert(gpath.take(n as int) =~= gpath);
                        lemma_folder_at_extend_none(fv, gpath, i + 1);
                    }
                    return None;
                },
            };
            proof {
                assert(gpath.take(i + 1).drop_last() =~= gpath.take(i as int));
                assert(gpath.take(i + 1).last() == gpath[i as int]);
                assert(spec_folder_at(fv, gpath.take(i + 1)) == Some(next as int));
            }
            cur = next;
            i += 1;
        }
        proof {
            assert(gpath.take(n as int) =~= gpath);
        }
        Some(cur)
    }

    /// Resolve a relative file path to the entry registered at it.
    pub fn get_entry_id(&self, path: &Vec<String>) -> (r: Option<EntryId>)
        requires
            self.wf(),
            path@.len() > 0,
        ensures
            match r {
                Some(e) => spec_entry_at(self.folders_view(), path@.map_values(|s: String| s@))
                    == Some(e as int) && self.entries_view().contains_key(e as int),
                None => spec_entry_at(self.folders_view(), path@.map_values(|s: String| s@))
                    is None,
            },
    {
        let ghost fv = self.folders_view();
        let ghost gpath = path@.map_values(|s: String| s@);
        let n = path.len();
        let mut cur: FolderId = ROOT_FOLDER_ID;
        let mut i: usize = 0;
        while i < n - 1
            invariant
                0 <= i <= n - 1,
                n == path@.len(),
                n >= 1,
                spec_folder_at(fv, gpath.take(i as int)) == Some(cur as int),
                fv.contains_key(cur as int),
            decreases n - i,
        {
            let f = match self.folders.get(cur) {
                Some(f) => f,
                None => vstd::pervasive::unreached(),
            };
            let next = match f.sub_folders.get(&path[i]) {
                Some(id) => id,
                None => {
                    proof {
                        assert(gpath.take(i + 1).drop_last() =~= gpath.take(i as int));
                        assert(gpath.take(i + 1).last() == gpath[i as int]);
                        assert(spec_folder_at(fv, gpath.take(i + 1)) is None);
                        assert(gpath.drop_last() =~= gpath.take(n - 1));
                        assert(gpath.drop_last().take(i + 1) =~= gpath.take(i + 1));
                        lemma_folder_at_extend_none(fv, gpath.drop_last(), i + 1);
                    }
                    return None;
                },
            };
            proof {
                assert(gpath.take(i + 1).drop_last() =~= gpath.take(i as int));
                assert(gpath.take(i + 1).last() == gpath[i as int]);
                assert(spec_folder_at(fv, gpath.take(i + 1)) == Some(next as int));
            }
            cur = next;
            i += 1;
        }
        proof {
            assert(gpath.drop_last() =~= gpath.take(n - 1));
        }
        let f = match self.folders.get(cur) {
            Some(f) => f,
            None => vstd::pervasive::unreached(),
        };
        match f.entries.get(&path[n - 1]) {
            Some(e) => {
                proof {
                    assert(gpath.last() == gpath[n - 1]);
                }
                Some(e)
            },
            None => {
                proof {
                    assert(gpath.last() == gpath[n - 1]);
                }
                None
            },
        }
    }

    /// The stored relative path of an entry, as its components.
    pub fn get_entry_path(&self, entry_id: EntryId) -> (r: Option<Vec<String>>)
        requires
            self.wf(),
        ensures
            match r {
                Some(p) => self.entries_view().contains_key(entry_id as int) && p@.map_values(
                    |s: String| s@,
                ) == self.entries_view()[entry_id as int].path,
                None => !self.entries_view().contains_key(entry_id as int),
            },
    {
        match self.entries.get(entry_id) {
            Some(e) => Some(clone_path(&e.path)),
            None => None,
        }
    }
}

/// A resolved folder's stored path is the path it was resolved by.
pub proof fn lemma_folder_at_path(fv: Map<int, FolderView>, path: Seq<Seq<char>>)
    requires
        folders_wf(fv),
        spec_folder_at(fv, path) is Some,
    ensures
        fv.contains_key(spec_folder_at(fv, path)->Some_0),
        fv[spec_folder_at(fv, path)->Some_0].path =~= path,
    decreases path.len(),
{
    if path.len() == 0 {
    } else {
        lemma_folder_at_path(fv, path.drop_last());
        let q = spec_folder_at(fv, path.drop_last())->Some_0;
        let c = fv[q].sub[path.last()] as int;
        assert(fv.contains_key(c));
        assert(fv[c].path == fv[q].path.push(fv[c].name));
    }
}

/// When a path resolves, each of its prefixes resolves as well.
pub proof fn lemma_folder_at_prefix(fv: Map<int, FolderView>, path: Seq<Seq<char>>, l: int)
    requires
        spec_folder_at(fv, path) is Some,
        0 <= l <= path.len(),
    ensures
        spec_folder_at(fv, path.take(l)) is Some,
    decreases path.len(),
{
    if l == path.len() {
        assert(path.take(l) =~= path);
    } else {
        assert(path.take(l) =~= path.drop_last().take(l));
        lemma_folder_at_prefix(fv, path.drop_last(), l);
    }
}

/// Path resolution reads only the domain and the sub-folder maps, so any
/// change that leaves those alone leaves every resolution alone.
pub proof fn lemma_folder_at_same_sub(
    fv2: Map<int, FolderView>,
    fv1: Map<int, FolderView>,
    p: Seq<Seq<char>>,
)
    requires
        forall|f: int| #[trigger] fv2.contains_key(f) <==> fv1.contains_key(f),
        forall|f: int| #[trigger] fv2.contains_key(f) ==> fv2[f].sub == fv1[f].sub,
    ensures
        spec_folder_at(fv2, p) == spec_folder_at(fv1, p),
    decreases p.len(),
{
    if p.len() > 0 {
        lemma_folder_at_same_sub(fv2, fv1, p.drop_last());
        match spec_folder_at(fv1, p.drop_last()) {
            Some(q) => {
                if fv1.contains_key(q) {
                    assert(fv2[q].sub == fv1[q].sub);
                }
            },
            None => {},
        }
    }
}

/// Once a path prefix fails to resolve, every longer prefix fails too.
pub proof fn lemma_folder_at_extend_none(fv: Map<int, FolderView>, path: Seq<Seq<char>>, i: int)
    requires
        0 <= i <= path.len(),
        spec_folder_at(fv, path.take(i)) is None,
    ensures
        spec_folder_at(fv, path) is None,
    decreases path.len() - i,
{
    if i < path.len() {
        assert(path.take(i + 1).drop_last() =~= path.take(i));
        lemma_folder_at_extend_none(fv, path, i + 1);
    } else {
        assert(path.take(i) =~= path);
    }
}

} // verus!
