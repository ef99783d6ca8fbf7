use crate::entry::{entries_wf, Entry, EntryId, EntryView};
use crate::folder::{folder_maps_inv, folders_wf, Folder, FolderId, FolderView, ROOT_FOLDER_ID};
use crate::id_map::IdMap;
use crate::tag::{tag_children, tags_wf, Tag, TagId, TagView, ROOT_TAG_ID};
use vstd::prelude::*;

verus! {

/// The in-memory catalog: three id-indexed maps. Folders and tags form
/// trees rooted at the sentinel id; entries hang off folders.
pub struct DatabaseData {
    pub folders: IdMap<Folder>,
    pub entries: IdMap<Entry>,
    pub tags: IdMap<Tag>,
}

impl Tag {
    /// An equal copy of this tag.
    pub fn duplicate(&self) -> (r: Tag)
        ensures
            r == *self,
    {
        Tag {
            id: self.id,
            name: self.name.clone(),
            parent_id: self.parent_id,
            position: self.position,
            color: self.color,
        }
    }
}

impl DatabaseData {
    pub open spec fn tags_view(&self) -> Map<int, TagView> {
        Map::new(|k: int| self.tags@.contains_key(k), |k: int| self.tags@[k]@)
    }

    pub open spec fn folders_view(&self) -> Map<int, FolderView> {
        Map::new(|k: int| self.folders@.contains_key(k), |k: int| self.folders@[k]@)
    }

    pub open spec fn entries_view(&self) -> Map<int, EntryView> {
        Map::new(|k: int| self.entries@.contains_key(k), |k: int| self.entries@[k]@)
    }

    /// Every internal invariant of the catalog at once; all public
    /// operations require and preserve it.
    pub open spec fn wf(&self) -> bool {
        &&& self.folders.inv()
        &&& self.entries.inv()
        &&& self.tags.inv()
        &&& forall|k: int| #[trigger]
            self.folders@.contains_key(k) ==> folder_maps_inv(self.folders@[k])
        &&& tags_wf(self.tags_view())
        &&& folders_wf(self.folders_view())
        &&& entries_wf(self.folders_view(), self.entries_view(), self.tags_view())
    }

    // ========== Tag queries ==========

    pub fn get_tag(&self, tag_id: TagId) -> (r: Option<&Tag>)
        requires
            self.wf(),
        ensures
            match r {
                Some(t) => self.tags_view().contains_key(tag_id as int)
                    && t@ == self.tags_view()[tag_id as int],
                None => !self.tags_view().contains_key(tag_id as int),
            },
    {
        self.tags.get(tag_id)
    }

    /// How many tags name `parent` as their parent.
    pub fn count_tag_children(&self, parent: TagId) -> (r: usize)
        requires
            self.wf(),
        ensures
            r == tag_children(self.tags_view(), parent as int).len(),
    {
        let ghost tv = self.tags_view();
        let ghost target = tag_children(tv, parent as int);
        proof {
            self.tags.lemma_entries();
            crate::tag::lemma_tag_children_finite(tv, parent as int);
        }
        let n = self.tags.len();
        let mut i: usize = 0;
        let mut count: usize = 0;
        let ghost mut seen: Set<int> = Set::empty();
        while i < n
            invariant
                0 <= i <= n,
                n == self.tags.entries().len(),
                seen.finite(),
                count == seen.len(),
                count <= i,
                seen =~= Set::new(
                    |c: int|
                        target.contains(c) && exists|j: int|
                            0 <= j < i && (#[trigger] self.tags.entries()[j]).0 as int == c,
                ),
            decreases n - i,
        {
            let (id, t) = self.tags.entry_at(i);
            if id != ROOT_TAG_ID && t.parent_id == parent {
                proof {
                    assert(self.tags.entries()[i as int].0 == id);
                    assert(tv[id as int] == self.tags.entries()[i as int].1@);
                    assert(target.contains(id as int));
                    assert(!seen.contains(id as int)) by {
                        if seen.contains(id as int) {
                            let j = choose|j: int|
                                0 <= j < i && (#[trigger] self.tags.entries()[j]).0 as int
                                    == id as int;
                            assert(self.tags.entries()[j].0 == self.tags.entries()[i as int].0);
                        }
                    }
                    seen = seen.insert(id as int);
                    assert(seen =~= Set::new(
                        |c: int|
                            target.contains(c) && exists|j: int|
                                0 <= j < i + 1 && (#[trigger] self.tags.entries()[j]).0 as int
                                    == c,
                    )) by {
                        assert forall|c: int|
                            target.contains(c) && exists|j: int|
                                0 <= j < i + 1 && (#[trigger] self.tags.entries()[j]).0 as int
                                    == c implies seen.contains(c) by {
                            let j = choose|j: int|
                                0 <= j < i + 1 && (#[trigger] self.tags.entries()[j]).0 as int
                                    == c;
                            if j < i {
                                assert(exists|j2: int|
                                    0 <= j2 < i && (#[trigger] self.tags.entries()[j2]).0 as int
                                        == c);
                            }
                        }
                    }
                }
                count += 1;
            } else {
                proof {
                    assert forall|c: int|
                        target.contains(c) && exists|j: int|
                            0 <= j < i + 1 && (#[trigger] self.tags.entries()[j]).0 as int == c
                        implies seen.contains(c) by {
                        let j = choose|j: int|
                            0 <= j < i + 1 && (#[trigger] self.tags.entries()[j]).0 as int == c;
                        if j == i {
                            assert(tv[c] == self.tags.entries()[i as int].1@);
                            assert(false);
                        } else {
                            assert(exists|j2: int|
                                0 <= j2 < i && (#[trigger] self.tags.entries()[j2]).0 as int == c);
                        }
                    }
                    assert(seen =~= Set::new(
                        |c: int|
                            target.contains(c) && exists|j: int|
                                0 <= j < i + 1 && (#[trigger] self.tags.entries()[j]).0 as int
                                    == c,
                    ));
                }
            }
            i += 1;
        }
        proof {
            assert(seen =~= target) by {
                assert forall|c: int| target.contains(c) implies seen.contains(c) by {
                    assert(tv.contains_key(c));
                    let j = choose|j: int|
                        0 <= j < self.tags.entries().len() && (#[trigger] self.tags.entries()[j]).0
                            == c;
                    assert(self.tags.entries()[j].0 as int == c);
                }
            }
        }
        count
    }

    /// True when some tag already carries this name.
    pub fn tag_name_exists(&self, name: &String) -> (r: bool)
        requires
            self.wf(),
        ensures
            r == exists|k: int|
                #[trigger] self.tags_view().contains_key(k) && self.tags_view()[k].name == name@,
    {
        proof {
            self.tags.lemma_entries();
        }
        let n = self.tags.len();
        let mut i: usize = 0;
        while i < n
            invariant
                0 <= i <= n,
                n == self.tags.entries().len(),
                forall|j: int|
                    0 <= j < i ==> (#[trigger] self.tags.entries()[j]).1@.name != name@,
            decreases n - i,
        {
            let (id, t) = self.tags.entry_at(i);
            if t.name == *name {
                proof {
                    assert(self.tags_view().contains_key(id as int));
                    assert(self.tags_view()[id as int].name == name@);
                }
                return true;
            }
            i += 1;
        }
        proof {
            if exists|k: int|
                #[trigger] self.tags_view().contains_key(k) && self.tags_view()[k].name == name@ {
                let k = choose|k: int|
                    #[trigger] self.tags_view().contains_key(k) && self.tags_view()[k].name
                        == name@;
                let j = choose|j: int|
                    0 <= j < self.tags.entries().len() && (#[trigger] self.tags.entries()[j]).0
                        == k;
                assert(self.tags.entries()[j].1@.name == name@);
            }
        }
        false
    }
}

} // verus!
