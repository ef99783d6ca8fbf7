use crate::entry::{entries_wf, id_set, lemma_id_set_push, vec_contains_id, Entry, EntryId, EntryView};
use crate::model::DatabaseData;
use crate::tag::TagId;
use vstd::prelude::*;

verus! {

/// The entries after one entry's tag set changes to `tags`.
pub open spec fn spec_set_entry_tags(
    ev: Map<int, EntryView>,
    e: int,
    tags: Set<int>,
) -> Map<int, EntryView> {
    ev.insert(
        e,
        EntryView {
            id: ev[e].id,
            folder: ev[e].folder,
            path: ev[e].path,
            file_name: ev[e].file_name,
            metadata: ev[e].metadata,
            tags: tags,
        },
    )
}

impl DatabaseData {
    /// Whether this entry already carries this tag.
    pub fn entry_has_tag(&self, entry_id: EntryId, tag_id: TagId) -> (r: bool)
        requires
            self.wf(),
            self.entries_view().contains_key(entry_id as int),
        ensures
            r == self.entries_view()[entry_id as int].tags.contains(tag_id as int),
    {
        let e = match self.entries.get(entry_id) {
            Some(e) => e,
            None => vstd::pervasive::unreached(),
        };
        vec_contains_id(&e.tag_ids, tag_id)
    }

    /// Add a tag to an entry's tag set; the caller has already checked the
    /// tag exists and is not yet on the entry.
    pub fn apply_add_tag_for_entry(&mut self, entry_id: EntryId, tag_id: TagId)
        requires
            old(self).wf(),
            old(self).entries_view().contains_key(entry_id as int),
            old(self).tags_view().contains_key(tag_id as int),
            !old(self).entries_view()[entry_id as int].tags.contains(tag_id as int),
        ensures
            final(self).wf(),
            final(self).entries_view() == spec_set_entry_tags(
                old(self).entries_view(),
                entry_id as int,
                old(self).entries_view()[entry_id as int].tags.insert(tag_id as int),
            ),
            final(self).folders_view() == old(self).folders_view(),
            final(self).tags_view() == old(self).tags_view(),
            final(self).folders@ == old(self).folders@,
            final(self).tags@ == old(self).tags@,
    {
        let ghost ev0 = self.entries_view();
        let mut tmp = Entry {
            id: 0,
            folder_id: 0,
            path: Vec::new(),
            file_name: String::new(),
            metadata: None,
            tag_ids: Vec::new(),
        };
        self.entries.swap_value(entry_id, &mut tmp);
        let ghost pre = tmp.tag_ids@;
        tmp.tag_ids.push(tag_id);
        proof {
            lemma_id_set_push(pre, tag_id);
        }
        self.entries.swap_value(entry_id, &mut tmp);
        proof {
            assert forall|t: int| #[trigger]
                self.entries@[entry_id as int]@.tags.contains(t) implies old(self).tags_view().contains_key(t) by {
                if t != tag_id as int {
                    assert(ev0.dom().contains(entry_id as int));
                    assert(ev0[entry_id as int].tags.contains(t));
                }
            }
            self.lemma_entry_update_wf(old(self), entry_id, ev0);
        }
    }

    /// Remove a tag from an entry's tag set; absent ids are a no-op.
    pub fn apply_remove_tag_for_entry(&mut self, entry_id: EntryId, tag_id: TagId)
        requires
            old(self).wf(),
            old(self).entries_view().contains_key(entry_id as int),
        ensures
            final(self).wf(),
            final(self).entries_view() == spec_set_entry_tags(
                old(self).entries_view(),
                entry_id as int,
                old(self).entries_view()[entry_id as int].tags.remove(tag_id as int),
            ),
            final(self).folders_view() == old(self).folders_view(),
            final(self).tags_view() == old(self).tags_view(),
            final(self).folders@ == old(self).folders@,
            final(self).tags@ == old(self).tags@,
    {
        let ghost ev0 = self.entries_view();
        let mut only: Vec<i32> = Vec::new();
        only.push(tag_id);
        proof {
            lemma_id_set_push(Seq::empty(), tag_id);
        }
        let mut tmp = Entry {
            id: 0,
            folder_id: 0,
            path: Vec::new(),
            file_name: String::new(),
            metadata: None,
            tag_ids: Vec::new(),
        };
        self.entries.swap_value(entry_id, &mut tmp);
        crate::tag_delete::strip_entry_tags(&mut tmp, &only);
        self.entries.swap_value(entry_id, &mut tmp);
        proof {
            assert(id_set(self.entries@[entry_id as int].tag_ids@) =~= ev0[entry_id as int].tags
                .remove(tag_id as int));
            assert forall|t: int| #[trigger]
                self.entries@[entry_id as int]@.tags.contains(t) implies old(self).tags_view().contains_key(t) by {
                assert(ev0.dom().contains(entry_id as int));
                assert(ev0[entry_id as int].tags.contains(t));
            }
            self.lemma_entry_update_wf(old(self), entry_id, ev0);
        }
    }

    /// Replacing one entry's tag set with a subset of the known tags keeps
    /// the catalog well formed, since nothing the folder maps depend on
    /// moves.
    pub proof fn lemma_entry_update_wf(
        &self,
        prev: &DatabaseData,
        entry_id: EntryId,
        ev0: Map<int, EntryView>,
    )
        requires
            prev.wf(),
            ev0 == prev.entries_view(),
            ev0.contains_key(entry_id as int),
            self.folders == prev.folders,
            self.tags == prev.tags,
            self.entries.inv(),
            self.entries@.dom() =~= prev.entries@.dom(),
            forall|k: int| #[trigger]
                self.entries@.contains_key(k) && k != entry_id as int ==> self.entries@[k]
                    == prev.entries@[k],
            self.entries@.contains_key(entry_id as int),
            self.entries@[entry_id as int].id == prev.entries@[entry_id as int].id,
            self.entries@[entry_id as int].folder_id == prev.entries@[entry_id as int].folder_id,
            self.entries@[entry_id as int].path == prev.entries@[entry_id as int].path,
            self.entries@[entry_id as int].file_name == prev.entries@[entry_id as int].file_name,
            self.entries@[entry_id as int].metadata == prev.entries@[entry_id as int].metadata,
            forall|t: int| #[trigger]
                self.entries@[entry_id as int]@.tags.contains(t) ==> prev.tags_view().contains_key(
                    t,
                ),
        ensures
            self.wf(),
            self.entries_view() == spec_set_entry_tags(
                ev0,
                entry_id as int,
                self.entries@[entry_id as int]@.tags,
            ),
            self.folders_view() == prev.folders_view(),
            self.tags_view() == prev.tags_view(),
    {
        assert(self.folders_view() =~= prev.folders_view());
        assert(self.tags_view() =~= prev.tags_view());
        assert(self.entries_view() =~= spec_set_entry_tags(
            ev0,
            entry_id as int,
            self.entries@[entry_id as int]@.tags,
        ));
        let fvp = self.folders_view();
        let evp = self.entries_view();
        let tvp = self.tags_view();
        assert(evp.dom() =~= ev0.dom());
        assert forall|e: int| #[trigger] evp.dom().contains(e) implies {
            &&& evp[e].id == e
            &&& fvp.dom().contains(evp[e].folder)
            &&& fvp[evp[e].folder].files.contains_key(evp[e].file_name)
            &&& fvp[evp[e].folder].files[evp[e].file_name] == e
            &&& evp[e].path == fvp[evp[e].folder].path.push(evp[e].file_name)
        } by {
            assert(ev0.dom().contains(e));
        }
        assert forall|pf: int, nm: Seq<char>|
            fvp.dom().contains(pf) && #[trigger] fvp[pf].files.contains_key(nm) implies {
            &&& evp.dom().contains(fvp[pf].files[nm] as int)
            &&& evp[fvp[pf].files[nm] as int].folder == pf
            &&& evp[fvp[pf].files[nm] as int].file_name == nm
        } by {
            assert(ev0.dom().contains(fvp[pf].files[nm] as int));
        }
        assert forall|e: int| #[trigger] evp.dom().contains(e) implies (forall|t: int|
            #[trigger] evp[e].tags.contains(t) ==> tvp.dom().contains(t)) by {
            assert forall|t: int| #[trigger] evp[e].tags.contains(t) implies tvp.dom().contains(
                t,
            ) by {
                if e != entry_id as int {
                    assert(ev0.dom().contains(e));
                    assert(ev0[e].tags.contains(t));
                }
            }
        }
    }
}

} // verus!
