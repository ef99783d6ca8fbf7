use crate::folder::{FolderId, FolderView};
use crate::tag::{TagId, TagView};
use vstd::prelude::*;

verus! {

pub type EntryId = i32;

/// What the metadata probe reads from an audio file. The duration is kept
/// in whole milliseconds.
pub struct Metadata {
    pub title: Option<String>,
    pub artist: Option<String>,
    pub album: Option<String>,
    pub duration_ms: Option<u64>,
}

/// A catalog row for one audio file. `path` is the list of path components
/// relative to the base directory; `tag_ids` is a set of tag ids.
pub struct Entry {
    pub id: EntryId,
    pub folder_id: FolderId,
    pub path: Vec<String>,
    pub file_name: String,
    pub metadata: Option<Metadata>,
    pub tag_ids: Vec<TagId>,
}

/// The set of ids named by a sequence.
pub open spec fn id_set(s: Seq<i32>) -> Set<int>
    decreases s.len(),
{
    if s.len() == 0 {
        Set::empty()
    } else {
        id_set(s.drop_last()).insert(s.last() as int)
    }
}

pub proof fn lemma_id_set_contains(s: Seq<i32>, x: int)
    ensures
        id_set(s).contains(x) <==> exists|i: int| 0 <= i < s.len() && (#[trigger] s[i]) as int == x,
    decreases s.len(),
{
    if s.len() > 0 {
        lemma_id_set_contains(s.drop_last(), x);
        if s.last() as int == x {
            assert(s[s.len() - 1] as int == x);
        } else if id_set(s).contains(x) {
            let i = choose|i: int|
                0 <= i < s.drop_last().len() && (#[trigger] s.drop_last()[i]) as int == x;
            assert(s[i] as int == x);
        } else {
            assert forall|i: int| 0 <= i < s.len() && (#[trigger] s[i]) as int == x
                implies false by {
                if i < s.len() - 1 {
                    assert(s.drop_last()[i] as int == x);
                }
            }
        }
    }
}

pub proof fn lemma_id_set_push(s: Seq<i32>, v: i32)
    ensures
        id_set(s.push(v)) =~= id_set(s).insert(v as int),
{
    assert(s.push(v).drop_last() =~= s);
}

/// Whether `x` is among the ids of `v`.
pub fn vec_contains_id(v: &Vec<i32>, x: i32) -> (r: bool)
    ensures
        r == id_set(v@).contains(x as int),
{
    proof {
        lemma_id_set_contains(v@, x as int);
    }
    let n = v.len();
    let mut i: usize = 0;
    while i < n
        invariant
            0 <= i <= n,
            forall|j: int| 0 <= j < i ==> (#[trigger] v@[j]) != x,
        decreases n - i,
    {
        if v[i] == x {
            proof {
                assert(v@[i as int] == x);
            }
            return true;
        }
        i += 1;
    }
    false
}

pub proof fn lemma_id_set_finite(s: Seq<i32>)
    ensures
        id_set(s).finite(),
    decreases s.len(),
{
    if s.len() > 0 {
        lemma_id_set_finite(s.drop_last());
    }
}

/// The mathematical value of an `Entry`.
pub ghost struct EntryView {
    pub id: int,
    pub folder: int,
    pub path: Seq<Seq<char>>,
    pub file_name: Seq<char>,
    pub metadata: Option<Metadata>,
    pub tags: Set<int>,
}

impl View for Entry {
    type V = EntryView;

    open spec fn view(&self) -> EntryView {
        EntryView {
            id: self.id as int,
            folder: self.folder_id as int,
            path: self.path@.map_values(|s: String| s@),
            file_name: self.file_name@,
            metadata: self.metadata,
            tags: id_set(self.tag_ids@),
        }
    }
}

/// Well-formedness of the entries against the folder tree and the tag set:
/// every entry is registered in its folder's entry map under its file name,
/// its path is the folder's path extended by the file name, the folders'
/// entry maps point back at entries that agree, and entry tags name
/// existing tags.
pub open spec fn entries_wf(
    fv: Map<int, FolderView>,
    ev: Map<int, EntryView>,
    tv: Map<int, TagView>,
) -> bool {
    &&& ev.dom().finite()
    &&& forall|e: int| #[trigger]
        ev.dom().contains(e) ==> {
            &&& ev[e].id == e
            &&& fv.dom().contains(ev[e].folder)
            &&& fv[ev[e].folder].files.contains_key(ev[e].file_name)
            &&& fv[ev[e].folder].files[ev[e].file_name] == e
            &&& ev[e].path == fv[ev[e].folder].path.push(ev[e].file_name)
        }
    &&& forall|p: int, n: Seq<char>|
        fv.dom().contains(p) && #[trigger] fv[p].files.contains_key(n) ==> {
            &&& ev.dom().contains(fv[p].files[n] as int)
            &&& ev[fv[p].files[n] as int].folder == p
            &&& ev[fv[p].files[n] as int].file_name == n
        }
    &&& forall|e: int| #[trigger]
        ev.dom().contains(e) ==> forall|t: int| #[trigger]
            ev[e].tags.contains(t) ==> tv.dom().contains(t)
}

} // verus!
