use crate::entry::{entries_wf, id_set, lemma_id_set_push, vec_contains_id, Entry, EntryView};
use crate::model::DatabaseData;
use crate::tag::{lemma_tag_children_finite, tag_children, tags_wf, Tag, TagId, TagView, ROOT_TAG_ID};
use vstd::prelude::*;

verus! {

/// `d` is the subtree rooted at `id`: it holds `id`, never the root
/// sentinel, each of its members other than `id` has its parent inside,
/// and it is saturated — a tag whose parent lies inside is inside too.
pub open spec fn is_deleted_tag_set(tv: Map<int, TagView>, id: int, d: Set<int>) -> bool {
    &&& d.contains(id)
    &&& !d.contains(ROOT_TAG_ID as int)
    &&& forall|x: int| #[trigger] d.contains(x) ==> tv.contains_key(x) && x != ROOT_TAG_ID as int
    &&& forall|x: int| #[trigger] d.contains(x) && x != id ==> d.contains(tv[x].parent)
    &&& forall|x: int| #[trigger]
        tv.contains_key(x) && x != ROOT_TAG_ID as int && d.contains(tv[x].parent) ==> d.contains(x)
}

/// The tag map after the subtree `d` rooted at `id` is deleted: the members
/// of `d` are gone, and the positions of the deleted tag's later siblings
/// close up by one so the parent keeps a contiguous `0..k` sequence.
pub open spec fn spec_delete_tag(tv: Map<int, TagView>, id: int, d: Set<int>) -> Map<
    int,
    TagView,
> {
    let p = tv[id].parent;
    let q = tv[id].pos;
    Map::new(
        |k: int| tv.contains_key(k) && !d.contains(k),
        |k: int|
            if k != ROOT_TAG_ID as int && tv[k].parent == p && tv[k].pos > q {
                TagView {
                    id: tv[k].id,
                    name: tv[k].name,
                    parent: tv[k].parent,
                    pos: tv[k].pos - 1,
                    color: tv[k].color,
                }
            } else {
                tv[k]
            },
    )
}

/// The entries after the tag ids in `d` are dropped from every entry.
pub open spec fn spec_remove_tags_from_entries(ev: Map<int, EntryView>, d: Set<int>) -> Map<
    int,
    EntryView,
> {
    Map::new(
        |k: int| ev.contains_key(k),
        |k: int|
            EntryView {
                id: ev[k].id,
                folder: ev[k].folder,
                path: ev[k].path,
                file_name: ev[k].file_name,
                metadata: ev[k].metadata,
                tags: ev[k].tags.difference(d),
            },
    )
}

/// Deleting a saturated subtree keeps the tag tree well formed: the only
/// surviving parent that loses a child is the deleted tag's own parent, and
/// the position shift restores contiguity there.
pub proof fn lemma_delete_tag_wf(tv: Map<int, TagView>, id: int, d: Set<int>)
    requires
        tags_wf(tv),
        tv.contains_key(id),
        id != ROOT_TAG_ID as int,
        is_deleted_tag_set(tv, id, d),
    ensures
        tags_wf(spec_delete_tag(tv, id, d)),
{
    let p = tv[id].parent;
    let q = tv[id].pos;
    let ntv = spec_delete_tag(tv, id, d);
    let root = ROOT_TAG_ID as int;
    assert(ntv.dom() =~= tv.dom().difference(d));
    crate::tag::lemma_subset_len(ntv.dom(), tv.dom());
    lemma_tag_children_finite(tv, p);
    assert(tag_children(tv, p).contains(id));
    assert forall|x: int| #[trigger] ntv.dom().contains(x) && x != root implies ntv.dom().contains(
        ntv[x].parent,
    ) by {
        assert(!d.contains(tv[x].parent));
    }
    assert forall|pp: int| pp != p && !d.contains(pp) implies tag_children(ntv, pp)
        =~= tag_children(tv, pp) by {
        assert forall|c: int| #[trigger] tag_children(tv, pp).contains(c) && d.contains(c)
            implies false by {
            if c != id {
                assert(d.contains(tv[c].parent));
            }
        }
    }
    assert forall|x: int| #[trigger] ntv.dom().contains(x) && x != root implies 0 <= ntv[x].pos
        < tag_children(ntv, ntv[x].parent).len() by {
        assert(!d.contains(tv[x].parent));
        if tv[x].parent == p {
            assert(tag_children(tv, p).contains(x));
            assert(tv[x].pos != q);
            assert(tag_children(ntv, p) =~= tag_children(tv, p).remove(id));
            assert(tag_children(ntv, p).len() == tag_children(tv, p).len() - 1);
        } else {
            assert(tag_children(ntv, tv[x].parent) =~= tag_children(tv, tv[x].parent));
        }
    }
    assert forall|a: int, b: int|
        ntv.dom().contains(a) && ntv.dom().contains(b) && a != b && a != root && b != root && (
        #[trigger] ntv[a]).parent == (#[trigger] ntv[b]).parent implies ntv[a].pos != ntv[b].pos by {
        if tv[a].parent == p {
            assert(tag_children(tv, p).contains(a));
            assert(tag_children(tv, p).contains(b));
            assert(tv[a].pos != q);
            assert(tv[b].pos != q);
        }
    }
}

impl DatabaseData {
    /// The deleted tag together with every tag beneath it, saturated so
    /// that no surviving tag's parent is in the result.
    pub fn collect_tag_subtree(&self, tag_id: TagId) -> (r: Vec<TagId>)
        requires
            self.wf(),
            tag_id != ROOT_TAG_ID,
            self.tags_view().contains_key(tag_id as int),
        ensures
            is_deleted_tag_set(self.tags_view(), tag_id as int, id_set(r@)),
            forall|j: int, l: int| 0 <= j < l < r@.len() ==> r@[j] != r@[l],
    {
        let ghost tv = self.tags_view();
        proof {
            self.tags.lemma_entries();
        }
        let n = self.tags.len();
        let mut dvec: Vec<i32> = Vec::new();
        dvec.push(tag_id);
        proof {
            lemma_id_set_push(Seq::empty(), tag_id);
        }
        loop
            invariant
                self.wf(),
                tv == self.tags_view(),
                n == self.tags.entries().len(),
                id_set(dvec@).contains(tag_id as int),
                !id_set(dvec@).contains(ROOT_TAG_ID as int),
                forall|x: int| #[trigger]
                    id_set(dvec@).contains(x) ==> tv.contains_key(x) && x != ROOT_TAG_ID as int,
                forall|x: int| #[trigger]
                    id_set(dvec@).contains(x) && x != tag_id as int ==> id_set(dvec@).contains(
                        tv[x].parent,
                    ),
                forall|j: int, l: int| 0 <= j < l < dvec@.len() ==> dvec@[j] != dvec@[l],
                dvec@.len() <= tv.dom().len(),
            decreases tv.dom().len() - dvec@.len(),
        {
            let ghost d0 = id_set(dvec@);
            let ghost len0 = dvec@.len();
            let mut changed = false;
            let mut i: usize = 0;
            while i < n
                invariant
                    0 <= i <= n,
                    self.wf(),
                    tv == self.tags_view(),
                    n == self.tags.entries().len(),
                    id_set(dvec@).contains(tag_id as int),
                    !id_set(dvec@).contains(ROOT_TAG_ID as int),
                    forall|x: int| #[trigger]
                        id_set(dvec@).contains(x) ==> tv.contains_key(x) && x != ROOT_TAG_ID as int,
                    forall|x: int| #[trigger]
                        id_set(dvec@).contains(x) && x != tag_id as int ==> id_set(
                            dvec@,
                        ).contains(tv[x].parent),
                    forall|j: int, l: int| 0 <= j < l < dvec@.len() ==> dvec@[j] != dvec@[l],
                    dvec@.len() <= tv.dom().len(),
                    !changed ==> dvec@.len() == len0,
                    !changed ==> id_set(dvec@) == d0,
                    changed ==> dvec@.len() > len0,
                    !changed ==> forall|j: int|
                        0 <= j < i ==> {
                            let k = (#[trigger] self.tags.entries()[j]).0;
                            k == ROOT_TAG_ID || !id_set(dvec@).contains(tv[k as int].parent)
                                || id_set(dvec@).contains(k as int)
                        },
                decreases n - i,
            {
                let (k, t) = self.tags.entry_at(i);
                proof {
                    assert(tv[k as int] == self.tags.entries()[i as int].1@);
                }
                if k != ROOT_TAG_ID && vec_contains_id(&dvec, t.parent_id) && !vec_contains_id(
                    &dvec,
                    k,
                ) {
                    let ghost pre = dvec@;
                    dvec.push(k);
                    changed = true;
                    proof {
                        lemma_id_set_push(pre, k);
                        crate::entry::lemma_id_set_contains(pre, k as int);
                        assert forall|j: int, l: int| 0 <= j < l < dvec@.len() implies dvec@[j]
                            != dvec@[l] by {
                            if l == dvec@.len() - 1 {
                                assert(pre[j] != k);
                            }
                        }
                        crate::entry::lemma_id_set_finite(dvec@);
                        crate::id_map::lemma_map_of_finite(self.tags.entries());
                        assert(id_set(dvec@).subset_of(tv.dom()));
                        lemma_id_set_len_le(dvec@);
                        crate::tag::lemma_subset_len(id_set(dvec@), tv.dom());
                        assert(id_set(dvec@).len() == dvec@.len()) by {
                            lemma_id_set_len_unique(dvec@);
                        }
                    }
                }
                i += 1;
            }
            if !changed {
                proof {
                    assert forall|x: int| #[trigger]
                        tv.contains_key(x) && x != ROOT_TAG_ID as int && id_set(dvec@).contains(
                            tv[x].parent,
                        ) implies id_set(dvec@).contains(x) by {
                        let j = choose|j: int|
                            0 <= j < self.tags.entries().len() && (
                            #[trigger] self.tags.entries()[j]).0 == x;
                        assert(self.tags.entries()[j].0 as int == x);
                    }
                }
                return dvec;
            }
        }
    }
}

/// Drop every tag id in `dvec` from the entry's tag set; nothing else on
/// the entry changes.
pub(crate) fn strip_entry_tags(e: &mut Entry, dvec: &Vec<i32>)
    ensures
        final(e).id == old(e).id,
        final(e).folder_id == old(e).folder_id,
        final(e).path == old(e).path,
        final(e).file_name == old(e).file_name,
        final(e).metadata == old(e).metadata,
        id_set(final(e).tag_ids@) =~= id_set(old(e).tag_ids@).difference(id_set(dvec@)),
{
    let n = e.tag_ids.len();
    let mut kept: Vec<i32> = Vec::new();
    let mut i: usize = 0;
    while i < n
        invariant
            0 <= i <= n,
            n == e.tag_ids@.len(),
            e == old(e),
            forall|x: int| #[trigger]
                id_set(kept@).contains(x) <==> (id_set(e.tag_ids@.take(i as int)).contains(x)
                    && !id_set(dvec@).contains(x)),
        decreases n - i,
    {
        let t = e.tag_ids[i];
        let ghost pre = kept@;
        if !vec_contains_id(dvec, t) {
            kept.push(t);
            proof {
                lemma_id_set_push(pre, t);
            }
        }
        proof {
            assert(e.tag_ids@.take(i + 1).drop_last() =~= e.tag_ids@.take(i as int));
            lemma_id_set_push(e.tag_ids@.take(i as int), t);
            assert(e.tag_ids@.take(i + 1) =~= e.tag_ids@.take(i as int).push(t));
        }
        i += 1;
    }
    proof {
        assert(e.tag_ids@.take(n as int) =~= e.tag_ids@);
    }
    e.tag_ids = kept;
}

impl DatabaseData {
    /// Remove a tag and every tag beneath it, drop the removed ids from all
    /// entries, and close the position gap at the deleted tag's parent.
    pub fn apply_delete_tag(&mut self, tag_id: TagId)
        requires
            old(self).wf(),
            tag_id != ROOT_TAG_ID,
            old(self).tags_view().contains_key(tag_id as int),
        ensures
            final(self).wf(),
            exists|d: Set<int>|
                {
                    &&& #[trigger] is_deleted_tag_set(old(self).tags_view(), tag_id as int, d)
                    &&& final(self).tags_view() == spec_delete_tag(
                        old(self).tags_view(),
                        tag_id as int,
                        d,
                    )
                    &&& final(self).entries_view() == spec_remove_tags_from_entries(
                        old(self).entries_view(),
                        d,
                    )
                },
            final(self).folders_view() == old(self).folders_view(),
            final(self).folders@ == old(self).folders@,
    {
        let ghost tv = self.tags_view();
        let ghost ev0 = self.entries_view();
        proof {
            self.tags.lemma_entries();
        }
        let dvec = self.collect_tag_subtree(tag_id);
        let ghost d = id_set(dvec@);
        let ghost target = spec_delete_tag(tv, tag_id as int, d);
        let (p, q) = match self.tags.get(tag_id) {
            Some(t) => (t.parent_id, t.position),
            None => vstd::pervasive::unreached(),
        };

        // Remove the subtree from the tag map.
        let m = dvec.len();
        let mut i: usize = 0;
        while i < m
            invariant
                0 <= i <= m,
                m == dvec@.len(),
                self.tags.inv(),
                self.folders == old(self).folders,
                self.entries == old(self).entries,
                forall|j: int, l: int| 0 <= j < l < m ==> dvec@[j] != dvec@[l],
                forall|x: int| #[trigger] d.contains(x) ==> tv.contains_key(x),
                forall|k: int| #[trigger]
                    self.tags@.contains_key(k) <==> (tv.contains_key(k) && !(exists|j: int|
                        0 <= j < i && (#[trigger] dvec@[j]) as int == k)),
                forall|k: int| #[trigger]
                    self.tags@.contains_key(k) ==> self.tags@[k]@ == tv[k],
            decreases m - i,
        {
            proof {
                crate::entry::lemma_id_set_contains(dvec@, dvec@[i as int] as int);
                assert(d.contains(dvec@[i as int] as int));
            }
            self.tags.remove(dvec[i]);
            proof {
                assert forall|k: int| #[trigger]
                    self.tags@.contains_key(k) <==> (tv.contains_key(k) && !(exists|j: int|
                        0 <= j < i + 1 && (#[trigger] dvec@[j]) as int == k)) by {
                    if tv.contains_key(k) {
                        if exists|j: int| 0 <= j < i + 1 && (#[trigger] dvec@[j]) as int == k {
                            let j = choose|j: int|
                                0 <= j < i + 1 && (#[trigger] dvec@[j]) as int == k;
                            if j < i {
                                assert(!self.tags@.contains_key(k));
                            }
                        }
                    }
                }
            }
            i += 1;
        }
        proof {
            assert forall|k: int| #[trigger]
                self.tags@.contains_key(k) <==> (tv.contains_key(k) && !d.contains(k)) by {
                crate::entry::lemma_id_set_contains(dvec@, k);
            }
        }

        // Close the position gap among the deleted tag's later siblings.
        proof {
            self.tags.lemma_entries();
        }
        let ghost entries1 = self.tags.entries();
        proof {
            assert forall|j: int| 0 <= j < entries1.len() implies ({
                let k = (#[trigger] entries1[j]).0 as int;
                tv.contains_key(k) && !d.contains(k) && target.contains_key(k) && entries1[j].1@
                    == tv[k]
            }) by {
                let k = entries1[j].0 as int;
                assert(self.tags@.contains_key(k));
                assert(self.tags@[k] == entries1[j].1);
            }
            assert forall|k: int| #[trigger] target.contains_key(k) implies exists|j: int|
                0 <= j < entries1.len() && (#[trigger] entries1[j]).0 as int == k by {
                assert(self.tags@.contains_key(k));
                let j = choose|j: int|
                    0 <= j < self.tags.entries().len() && (#[trigger] self.tags.entries()[j]).0
                        == k;
                assert(entries1[j].0 as int == k);
            }
        }
        let n = self.tags.len();
        let mut i2: usize = 0;
        while i2 < n
            invariant
                0 <= i2 <= n,
                self.tags.inv(),
                self.folders == old(self).folders,
                self.entries == old(self).entries,
                n == self.tags.entries().len(),
                forall|j: int|
                    0 <= j < n ==> (#[trigger] self.tags.entries()[j]).0 == entries1[j].0,
                forall|j: int|
                    i2 <= j < n ==> (#[trigger] self.tags.entries()[j]).1 == entries1[j].1,
                forall|j: int|
                    0 <= j < n ==> ({
                        let k = (#[trigger] entries1[j]).0 as int;
                        tv.contains_key(k) && !d.contains(k) && target.contains_key(k)
                            && entries1[j].1@ == tv[k]
                    }),
                forall|j: int|
                    0 <= j < i2 ==> ({
                        let k = (#[trigger] entries1[j]).0 as int;
                        self.tags@[k]@ == target[k]
                    }),
            decreases n - i2,
        {
            let (k, t) = self.tags.entry_at(i2);
            proof {
                assert(self.tags.entries()[i2 as int].0 == entries1[i2 as int].0);
                assert(tv[k as int] == entries1[i2 as int].1@);
            }
            if k != ROOT_TAG_ID && t.parent_id == p && t.position > q {
                let nt = Tag {
                    id: t.id,
                    name: t.name.clone(),
                    parent_id: t.parent_id,
                    position: t.position - 1,
                    color: t.color,
                };
                self.tags.set(k, nt);
                proof {
                    self.tags.lemma_entries();
                    assert(self.tags@[k as int]@ == target[k as int]);
                    assert forall|j: int| i2 + 1 <= j < n implies (
                    #[trigger] self.tags.entries()[j]).1 == entries1[j].1 by {
                        assert(self.tags.entries()[j].0 == entries1[j].0);
                    }
                }
            } else {
                proof {
                    assert(self.tags@[k as int]@ == target[k as int]);
                }
            }
            i2 += 1;
        }
        proof {
            self.tags.lemma_entries();
            assert forall|k: int| #[trigger] target.contains_key(k) implies self.tags@.contains_key(
                k,
            ) && self.tags@[k]@ == target[k] by {
                let j = choose|j: int|
                    0 <= j < entries1.len() && (#[trigger] entries1[j]).0 as int == k;
                assert(self.tags.entries()[j].0 as int == k);
            }
            assert(self.tags_view() =~= target);
            lemma_delete_tag_wf(tv, tag_id as int, d);
        }

        // Drop the deleted tag ids from every entry.
        let ghost eentries = self.entries.entries();
        let en = self.entries.len();
        let ghost etarget = spec_remove_tags_from_entries(ev0, d);
        let ghost tags_done = self.tags;
        proof {
            self.entries.lemma_entries();
            assert forall|j: int| 0 <= j < eentries.len() implies ({
                let k = (#[trigger] eentries[j]).0 as int;
                ev0.contains_key(k) && etarget.contains_key(k) && eentries[j].1@ == ev0[k]
            }) by {
                let k = eentries[j].0 as int;
                assert(self.entries@.contains_key(k));
                assert(self.entries@[k] == eentries[j].1);
            }
        }
        let mut i3: usize = 0;
        while i3 < en
            invariant
                0 <= i3 <= en,
                self.entries.inv(),
                self.folders == old(self).folders,
                self.tags == tags_done,
                en == self.entries.entries().len(),
                forall|j: int|
                    0 <= j < en ==> (#[trigger] self.entries.entries()[j]).0 == eentries[j].0,
                forall|j: int|
                    i3 <= j < en ==> (#[trigger] self.entries.entries()[j]).1 == eentries[j].1,
                forall|j: int|
                    0 <= j < en ==> ({
                        let k = (#[trigger] eentries[j]).0 as int;
                        ev0.contains_key(k) && etarget.contains_key(k) && eentries[j].1@ == ev0[k]
                    }),
                forall|j: int|
                    0 <= j < i3 ==> ({
                        let k = (#[trigger] eentries[j]).0 as int;
                        self.entries@[k]@ == etarget[k]
                    }),
                forall|k: int| #[trigger]
                    self.entries@.contains_key(k) <==> ev0.contains_key(k),
            decreases en - i3,
        {
            let (k, _eref) = self.entries.entry_at(i3);
            proof {
                assert(self.entries.entries()[i3 as int].0 == eentries[i3 as int].0);
                assert(ev0[k as int] == eentries[i3 as int].1@);
            }
            let mut tmp = Entry {
                id: 0,
                folder_id: 0,
                path: Vec::new(),
                file_name: String::new(),
                metadata: None,
                tag_ids: Vec::new(),
            };
            self.entries.swap_value(k, &mut tmp);
            strip_entry_tags(&mut tmp, &dvec);
            self.entries.swap_value(k, &mut tmp);
            proof {
                self.entries.lemma_entries();
                assert(self.entries@[k as int]@ == etarget[k as int]);
                assert forall|j: int| i3 + 1 <= j < en implies (
                #[trigger] self.entries.entries()[j]).1 == eentries[j].1 by {
                    assert(self.entries.entries()[j].0 == eentries[j].0);
                }
            }
            i3 += 1;
        }
        proof {
            self.entries.lemma_entries();
            assert forall|k: int| #[trigger] etarget.contains_key(k)
                implies self.entries@.contains_key(k) && self.entries@[k]@ == etarget[k] by {
                let j = choose|j: int|
                    0 <= j < eentries.len() && (#[trigger] eentries[j]).0 as int == k;
                assert(self.entries.entries()[j].0 as int == k);
            }
            assert(self.entries_view() =~= etarget);
            assert(self.folders_view() =~= old(self).folders_view());
            assert(is_deleted_tag_set(tv, tag_id as int, d));
            let fvp = self.folders_view();
            let evp = self.entries_view();
            let tvp = self.tags_view();
            assert(fvp == old(self).folders_view());
            assert(evp.dom().finite()) by {
                crate::id_map::lemma_map_of_finite(self.entries.entries());
                assert(evp.dom() =~= self.entries@.dom());
            }
            assert forall|e: int| #[trigger] evp.dom().contains(e) implies {
                &&& evp[e].id == e
                &&& fvp.dom().contains(evp[e].folder)
                &&& fvp[evp[e].folder].files.contains_key(evp[e].file_name)
                &&& fvp[evp[e].folder].files[evp[e].file_name] == e
                &&& evp[e].path == fvp[evp[e].folder].path.push(evp[e].file_name)
            } by {
                assert(ev0.dom().contains(e));
                assert(evp[e] == etarget[e]);
            }
            assert forall|pf: int, nm: Seq<char>|
                fvp.dom().contains(pf) && #[trigger] fvp[pf].files.contains_key(nm) implies {
                &&& evp.dom().contains(fvp[pf].files[nm] as int)
                &&& evp[fvp[pf].files[nm] as int].folder == pf
                &&& evp[fvp[pf].files[nm] as int].file_name == nm
            } by {
                assert(ev0.dom().contains(fvp[pf].files[nm] as int));
            }
            assert forall|e: int| #[trigger] evp.dom().contains(e) implies (forall|t: int|
                #[trigger] evp[e].tags.contains(t) ==> tvp.dom().contains(t)) by {
                assert forall|t: int| #[trigger] evp[e].tags.contains(t) implies tvp.dom().contains(
                    t,
                ) by {
                    assert(evp[e] == etarget[e]);
                    assert(ev0[e].tags.contains(t) && !d.contains(t));
                    assert(ev0.dom().contains(e));
                    assert(tv.contains_key(t));
                    assert(tvp == target);
                }
            }
            assert(crate::entry::entries_wf(
                self.folders_view(),
                self.entries_view(),
                self.tags_view(),
            ));
        }
    }
}

/// A sequence's id set is no larger than the sequence.
pub proof fn lemma_id_set_len_le(s: Seq<i32>)
    ensures
        id_set(s).finite(),
        id_set(s).len() <= s.len(),
    decreases s.len(),
{
    if s.len() > 0 {
        lemma_id_set_len_le(s.drop_last());
    }
}

/// With pairwise-distinct elements, a sequence's id set is exactly as large
/// as the sequence.
pub proof fn lemma_id_set_len_unique(s: Seq<i32>)
    requires
        forall|j: int, l: int| 0 <= j < l < s.len() ==> s[j] != s[l],
    ensures
        id_set(s).finite(),
        id_set(s).len() == s.len(),
    decreases s.len(),
{
    if s.len() > 0 {
        lemma_id_set_len_unique(s.drop_last());
        crate::entry::lemma_id_set_contains(s.drop_last(), s.last() as int);
        assert forall|j: int| 0 <= j < s.drop_last().len() implies (#[trigger] s.drop_last()[j])
            != s.last() by {
            assert(s[j] == s.drop_last()[j]);
        }
        assert(!id_set(s.drop_last()).contains(s.last() as int));
    }
}

} // verus!
