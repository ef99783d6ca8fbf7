use crate::entry::EntryView;
use crate::folder::FolderView;
use crate::is_audio_name;
use crate::queries::{spec_entry_at, spec_folder_at};
use vstd::prelude::*;

verus! {

/// What one recursive walk of the base directory found: the relative paths
/// of every directory and every regular file, each as its components, with
/// no filtering applied. The catalog decides what is hidden and what is
/// audio.
pub struct FsListing {
    pub dirs: Vec<Vec<String>>,
    pub files: Vec<Vec<String>>,
}

/// The mathematical value of a component path.
pub open spec fn path_view(p: Vec<String>) -> Seq<Seq<char>> {
    p@.map_values(|s: String| s@)
}

/// A usable path component: non-empty and not hidden.
pub open spec fn component_ok(c: Seq<char>) -> bool {
    c.len() > 0 && c[0] != '.'
}

/// A path the scan takes into account: non-empty, with every component
/// usable — a hidden component hides the whole subtree beneath it.
pub open spec fn clean_path(p: Seq<Seq<char>>) -> bool {
    p.len() > 0 && forall|i: int| 0 <= i < p.len() ==> component_ok(#[trigger] p[i])
}

/// `p` is a non-empty prefix of some clean directory path of the listing;
/// these are exactly the folders a scan leaves in the catalog.
pub open spec fn listed_dir(dirs: Seq<Vec<String>>, p: Seq<Seq<char>>) -> bool {
    exists|i: int, l: int|
        0 <= i < dirs.len() && 1 <= l <= path_view(dirs[i]).len() && clean_path(path_view(dirs[i]))
            && p =~= #[trigger] path_view(dirs[i]).take(l)
}

/// `p` is a file path the scan registers as an entry: listed, clean, with
/// an audio extension, and lying either at the root or in a listed
/// directory.
pub open spec fn listed_audio_file(
    dirs: Seq<Vec<String>>,
    files: Seq<Vec<String>>,
    p: Seq<Seq<char>>,
) -> bool {
    &&& exists|i: int| 0 <= i < files.len() && p =~= path_view(#[trigger] files[i])
    &&& clean_path(p)
    &&& is_audio_name(p.last())
    &&& (p.len() == 1 || listed_dir(dirs, p.drop_last()))
}

/// `fv2` extends `fv1`: every folder of `fv1` is still there, fixed in
/// place, and its child maps have only grown.
pub open spec fn folders_extends(fv2: Map<int, FolderView>, fv1: Map<int, FolderView>) -> bool {
    forall|f: int| #[trigger]
        fv1.contains_key(f) ==> {
            &&& fv2.contains_key(f)
            &&& fv2[f].id == fv1[f].id
            &&& fv2[f].parent == fv1[f].parent
            &&& fv2[f].name == fv1[f].name
            &&& fv2[f].path == fv1[f].path
            &&& fv1[f].sub.submap_of(fv2[f].sub)
            &&& fv1[f].files.submap_of(fv2[f].files)
        }
}

pub proof fn lemma_extends_trans(
    fv3: Map<int, FolderView>,
    fv2: Map<int, FolderView>,
    fv1: Map<int, FolderView>,
)
    requires
        folders_extends(fv3, fv2),
        folders_extends(fv2, fv1),
    ensures
        folders_extends(fv3, fv1),
{
    assert forall|f: int| #[trigger] fv1.contains_key(f) implies {
        &&& fv3.contains_key(f)
        &&& fv3[f].id == fv1[f].id
        &&& fv3[f].parent == fv1[f].parent
        &&& fv3[f].name == fv1[f].name
        &&& fv3[f].path == fv1[f].path
        &&& fv1[f].sub.submap_of(fv3[f].sub)
        &&& fv1[f].files.submap_of(fv3[f].files)
    } by {
        assert(fv2.contains_key(f));
        assert forall|n: Seq<char>| #[trigger] fv1[f].sub.contains_key(n)
            implies fv3[f].sub.contains_key(n) && fv3[f].sub[n] == fv1[f].sub[n] by {
            assert(fv2[f].sub.contains_key(n) && fv2[f].sub[n] == fv1[f].sub[n]);
        }
        assert forall|n: Seq<char>| #[trigger] fv1[f].files.contains_key(n)
            implies fv3[f].files.contains_key(n) && fv3[f].files[n] == fv1[f].files[n] by {
            assert(fv2[f].files.contains_key(n) && fv2[f].files[n] == fv1[f].files[n]);
        }
    }
}

/// A path that resolves keeps resolving, to the same folder, in any
/// extension of the folder map.
pub proof fn lemma_extends_folder_at(
    fv2: Map<int, FolderView>,
    fv1: Map<int, FolderView>,
    p: Seq<Seq<char>>,
)
    requires
        folders_extends(fv2, fv1),
        fv1.contains_key(crate::folder::ROOT_FOLDER_ID as int),
        crate::folder::folders_wf(fv1),
        spec_folder_at(fv1, p) is Some,
    ensures
        spec_folder_at(fv2, p) == spec_folder_at(fv1, p),
    decreases p.len(),
{
    if p.len() > 0 {
        lemma_extends_folder_at(fv2, fv1, p.drop_last());
        let q = spec_folder_at(fv1, p.drop_last())->Some_0;
        crate::queries::lemma_folder_at_in_dom(fv1, p.drop_last());
        assert(fv1[q].sub.contains_key(p.last()));
        assert(fv2[q].sub.contains_key(p.last()) && fv2[q].sub[p.last()] == fv1[q].sub[p.last()]);
    }
}

/// An entry that resolves keeps resolving in any extension.
pub proof fn lemma_extends_entry_at(
    fv2: Map<int, FolderView>,
    fv1: Map<int, FolderView>,
    p: Seq<Seq<char>>,
)
    requires
        folders_extends(fv2, fv1),
        fv1.contains_key(crate::folder::ROOT_FOLDER_ID as int),
        crate::folder::folders_wf(fv1),
        p.len() > 0,
        spec_entry_at(fv1, p) is Some,
    ensures
        spec_entry_at(fv2, p) == spec_entry_at(fv1, p),
{
    lemma_extends_folder_at(fv2, fv1, p.drop_last());
    let q = spec_folder_at(fv1, p.drop_last())->Some_0;
    crate::queries::lemma_folder_at_in_dom(fv1, p.drop_last());
    assert(fv1[q].files.contains_key(p.last()));
    assert(fv2[q].files.contains_key(p.last()) && fv2[q].files[p.last()] == fv1[q].files[p.last()]);
}

/// Whether two component paths are equal.
pub fn eq_path(a: &Vec<String>, b: &Vec<String>) -> (r: bool)
    ensures
        r == (path_view(*a) =~= path_view(*b)),
{
    let n = a.len();
    if n != b.len() {
        return false;
    }
    let mut i: usize = 0;
    while i < n
        invariant
            0 <= i <= n,
            n == a@.len() == b@.len(),
            forall|j: int| 0 <= j < i ==> path_view(*a)[j] == path_view(*b)[j],
        decreases n - i,
    {
        if !(a[i] == b[i]) {
            proof {
                assert(path_view(*a)[i as int] != path_view(*b)[i as int]);
            }
            return false;
        }
        i += 1;
    }
    true
}

/// Whether `a` is a non-empty prefix of `b`.
pub fn is_path_prefix(a: &Vec<String>, b: &Vec<String>) -> (r: bool)
    ensures
        r == (a@.len() >= 1 && a@.len() <= b@.len() && path_view(*a) =~= path_view(*b).take(
            a@.len() as int,
        )),
{
    let n = a.len();
    if n == 0 || n > b.len() {
        return false;
    }
    let mut i: usize = 0;
    while i < n
        invariant
            0 <= i <= n,
            n == a@.len(),
            n <= b@.len(),
            forall|j: int| 0 <= j < i ==> path_view(*a)[j] == path_view(*b)[j],
        decreases n - i,
    {
        if !(a[i] == b[i]) {
            proof {
                assert(path_view(*a)[i as int] != path_view(*b).take(n as int)[i as int]);
            }
            return false;
        }
        i += 1;
    }
    true
}

/// Whether the path is one of the listed file paths.
pub fn in_listed_files(files: &Vec<Vec<String>>, p: &Vec<String>) -> (r: bool)
    ensures
        r == exists|i: int|
            0 <= i < files@.len() && path_view(*p) =~= path_view(#[trigger] files@[i]),
{
    let n = files.len();
    let mut i: usize = 0;
    while i < n
        invariant
            0 <= i <= n,
            n == files@.len(),
            forall|j: int| 0 <= j < i ==> !(path_view(*p) =~= path_view(#[trigger] files@[j])),
        decreases n - i,
    {
        if eq_path(p, &files[i]) {
            proof {
                assert(path_view(*p) =~= path_view(files@[i as int]));
            }
            return true;
        }
        i += 1;
    }
    false
}

/// Whether the scan registers this path as an audio entry: it is listed,
/// clean, carries an audio extension, and lies at the root or in a listed
/// directory.
pub fn is_relevant_file(
    dirs: &Vec<Vec<String>>,
    files: &Vec<Vec<String>>,
    p: &Vec<String>,
) -> (r: bool)
    ensures
        r == listed_audio_file(dirs@, files@, path_view(*p)),
{
    if p.len() == 0 {
        return false;
    }
    if !in_listed_files(files, p) {
        return false;
    }
    if !is_clean_path(p) {
        return false;
    }
    if !crate::is_audio_file(p[p.len() - 1].as_str()) {
        proof {
            assert(path_view(*p).last() == p@[p@.len() - 1]@);
        }
        return false;
    }
    proof {
        assert(path_view(*p).last() == p@[p@.len() - 1]@);
    }
    if p.len() == 1 {
        return true;
    }
    let mut dir = crate::folder_ops::clone_path(p);
    let _last = dir.pop();
    proof {
        assert(path_view(dir) =~= path_view(*p).drop_last());
    }
    in_listed_dirs(dirs, &dir)
}

/// What a finished scan guarantees of the catalog against the listing:
/// the entries are exactly the listed audio files, and the folders exactly
/// the prefixes of the listed clean directories.
pub open spec fn scan_complete(
    dirs: Seq<Vec<String>>,
    files: Seq<Vec<String>>,
    fv: Map<int, FolderView>,
    ev: Map<int, EntryView>,
) -> bool {
    &&& forall|p: Seq<Seq<char>>|
        #[trigger] listed_audio_file(dirs, files, p) ==> spec_entry_at(fv, p) is Some
    &&& forall|e: int| #[trigger]
        ev.contains_key(e) ==> listed_audio_file(dirs, files, ev[e].path)
    &&& forall|f: int| #[trigger]
        fv.contains_key(f) && f != crate::folder::ROOT_FOLDER_ID as int ==> listed_dir(
            dirs,
            fv[f].path,
        )
    &&& forall|p: Seq<Seq<char>>| #[trigger] listed_dir(dirs, p) ==> spec_folder_at(fv, p) is Some
}

/// Whether every component of the path is usable: non-empty, not hidden.
pub fn is_clean_path(p: &Vec<String>) -> (r: bool)
    ensures
        r == clean_path(path_view(*p)),
{
    let n = p.len();
    if n == 0 {
        return false;
    }
    let mut i: usize = 0;
    while i < n
        invariant
            0 <= i <= n,
            n == p@.len(),
            forall|j: int| 0 <= j < i ==> component_ok(#[trigger] path_view(*p)[j]),
        decreases n - i,
    {
        let c = &p[i];
        if c.unicode_len() == 0 || crate::is_hidden_file(c.as_str()) {
            proof {
                assert(!component_ok(path_view(*p)[i as int]));
            }
            return false;
        }
        proof {
            assert(component_ok(path_view(*p)[i as int]));
        }
        i += 1;
    }
    true
}

/// Whether `p` is a non-empty prefix of some clean directory path of the
/// listing.
pub fn in_listed_dirs(dirs: &Vec<Vec<String>>, p: &Vec<String>) -> (r: bool)
    ensures
        r == listed_dir(dirs@, path_view(*p)),
{
    let n = dirs.len();
    let mut i: usize = 0;
    while i < n
        invariant
            0 <= i <= n,
            n == dirs@.len(),
            forall|j: int, l: int|
                0 <= j < i && 1 <= l <= path_view(dirs@[j]).len() && clean_path(path_view(dirs@[j]))
                    ==> !(path_view(*p) =~= #[trigger] path_view(dirs@[j]).take(l)),
        decreases n - i,
    {
        if is_clean_path(&dirs[i]) && is_path_prefix(p, &dirs[i]) {
            proof {
                assert(dirs@[i as int] == dirs[i as int]);
                assert(listed_dir(dirs@, path_view(*p))) by {
                    assert(1 <= p@.len() <= path_view(dirs@[i as int]).len() && clean_path(
                        path_view(dirs@[i as int]),
                    ) && path_view(*p) =~= path_view(dirs@[i as int]).take(p@.len() as int));
                }
            }
            return true;
        }
        i += 1;
    }
    proof {
        if listed_dir(dirs@, path_view(*p)) {
            let (j, l) = choose|j: int, l: int|
                0 <= j < dirs@.len() && 1 <= l <= path_view(dirs@[j]).len() && clean_path(
                    path_view(dirs@[j]),
                ) && path_view(*p) =~= #[trigger] path_view(dirs@[j]).take(l);
            assert(!(path_view(*p) =~= path_view(dirs@[j]).take(l)));
            assert(false);
        }
    }
    false
}

} // verus!
