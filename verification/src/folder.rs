use crate::name_map::NameMap;
use vstd::prelude::*;

verus! {

pub type FolderId = i32;

/// The sentinel id of the folder-tree root, which stands for the base
/// directory itself.
pub const ROOT_FOLDER_ID: FolderId = -1;

/// A directory within the base path. `path` is the list of path components
/// relative to the base directory; the root folder's is empty.
pub struct Folder {
    pub id: FolderId,
    pub parent_id: FolderId,
    pub name: String,
    pub path: Vec<String>,
    pub sub_folders: NameMap,
    pub entries: NameMap,
}

/// The mathematical value of a `Folder`.
pub ghost struct FolderView {
    pub id: int,
    pub parent: int,
    pub name: Seq<char>,
    pub path: Seq<Seq<char>>,
    pub sub: Map<Seq<char>, i32>,
    pub files: Map<Seq<char>, i32>,
}

impl View for Folder {
    type V = FolderView;

    open spec fn view(&self) -> FolderView {
        FolderView {
            id: self.id as int,
            parent: self.parent_id as int,
            name: self.name@,
            path: self.path@.map_values(|s: String| s@),
            sub: self.sub_folders@,
            files: self.entries@,
        }
    }
}

/// Exec-level validity of one folder value: the association maps inside it
/// keep their own invariants.
pub open spec fn folder_maps_inv(f: Folder) -> bool {
    f.sub_folders.inv() && f.entries.inv()
}

/// Well-formedness of the folder tree. The root sentinel is present with an
/// empty path; every other folder is registered in its parent's sub-folder
/// map under its own name, and its path is the parent's path extended by
/// that name; the sub-folder maps point back at folders that agree on
/// parent and name.
pub open spec fn folders_wf(fv: Map<int, FolderView>) -> bool {
    &&& fv.dom().finite()
    &&& fv.dom().contains(ROOT_FOLDER_ID as int)
    &&& fv[ROOT_FOLDER_ID as int].parent == ROOT_FOLDER_ID as int
    &&& fv[ROOT_FOLDER_ID as int].path == Seq::<Seq<char>>::empty()
    &&& forall|id: int| #[trigger] fv.dom().contains(id) ==> fv[id].id == id
    &&& forall|id: int| #[trigger]
        fv.dom().contains(id) && id != ROOT_FOLDER_ID as int ==> {
            &&& fv.dom().contains(fv[id].parent)
            &&& fv[fv[id].parent].sub.contains_key(fv[id].name)
            &&& fv[fv[id].parent].sub[fv[id].name] == id
            &&& fv[id].path == fv[fv[id].parent].path.push(fv[id].name)
        }
    &&& forall|p: int, n: Seq<char>|
        fv.dom().contains(p) && #[trigger] fv[p].sub.contains_key(n) ==> {
            &&& fv.dom().contains(fv[p].sub[n] as int)
            &&& fv[p].sub[n] != ROOT_FOLDER_ID
            &&& fv[fv[p].sub[n] as int].parent == p
            &&& fv[fv[p].sub[n] as int].name == n
        }
}

/// An owned rendering of the folder tree beneath one folder.
pub struct FolderNode {
    pub folder: Folder,
    pub sub_folders: Vec<FolderNode>,
}

} // verus!
