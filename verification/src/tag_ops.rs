use crate::model::DatabaseData;
use crate::tag::{lemma_tag_children_finite, tag_children, tags_wf, Tag, TagId, TagView, ROOT_TAG_ID};
use vstd::prelude::*;

verus! {

/// The tag map after a new tag is created: a child of the root, appended at
/// the end of the root's children, with the default color.
pub open spec fn spec_new_tag(tv: Map<int, TagView>, id: int, name: Seq<char>) -> Map<
    int,
    TagView,
> {
    tv.insert(
        id,
        TagView {
            id: id,
            name: name,
            parent: ROOT_TAG_ID as int,
            pos: tag_children(tv, ROOT_TAG_ID as int).len() as int,
            color: 0,
        },
    )
}

/// The tag map after a rename: only that tag's name changes.
pub open spec fn spec_rename_tag(tv: Map<int, TagView>, id: int, name: Seq<char>) -> Map<
    int,
    TagView,
> {
    tv.insert(
        id,
        TagView {
            id: tv[id].id,
            name: name,
            parent: tv[id].parent,
            pos: tv[id].pos,
            color: tv[id].color,
        },
    )
}

/// The tag map after a recolor: only that tag's color changes.
pub open spec fn spec_set_tag_color(tv: Map<int, TagView>, id: int, color: int) -> Map<
    int,
    TagView,
> {
    tv.insert(
        id,
        TagView {
            id: tv[id].id,
            name: tv[id].name,
            parent: tv[id].parent,
            pos: tv[id].pos,
            color: color,
        },
    )
}

impl DatabaseData {
    /// Register a tag the store has just assigned an id to, as a child of
    /// the root appended after its existing children.
    pub fn apply_new_tag(&mut self, id: TagId, name: String)
        requires
            old(self).wf(),
            id != ROOT_TAG_ID,
            !old(self).tags_view().contains_key(id as int),
            !(exists|k: int|
                #[trigger] old(self).tags_view().contains_key(k) && old(self).tags_view()[k].name
                    == name@),
            old(self).tags_view().dom().len() < 0x7fff_ffff,
        ensures
            final(self).wf(),
            final(self).tags_view() == spec_new_tag(old(self).tags_view(), id as int, name@),
            final(self).folders_view() == old(self).folders_view(),
            final(self).entries_view() == old(self).entries_view(),
            final(self).folders@ == old(self).folders@,
            final(self).entries@ == old(self).entries@,
    {
        let ghost tv = self.tags_view();
        proof {
            self.tags.lemma_entries();
            lemma_tag_children_finite(tv, ROOT_TAG_ID as int);
        }
        let position_count = self.count_tag_children(ROOT_TAG_ID);
        proof {
            assert(tag_children(tv, ROOT_TAG_ID as int).len() <= tv.dom().len());
            assert(position_count <= 0x7fff_ffff);
        }
        let position: i32 = position_count as i32;
        let ghost gname = name@;
        let tag = Tag { id, name, parent_id: ROOT_TAG_ID, position, color: 0 };
        self.tags.insert_new(id, tag);
        proof {
            let ntv = self.tags_view();
            assert(ntv =~= spec_new_tag(tv, id as int, gname));
            assert(self.folders_view() =~= old(self).folders_view());
            assert(self.entries_view() =~= old(self).entries_view());
            lemma_new_tag_wf(tv, id as int, gname);
            assert(crate::entry::entries_wf(
                self.folders_view(),
                self.entries_view(),
                self.tags_view(),
            ));
        }
    }

    /// Rename a tag; the caller has already checked the new name is free.
    pub fn apply_rename_tag(&mut self, id: TagId, name: String)
        requires
            old(self).wf(),
            id != ROOT_TAG_ID,
            old(self).tags_view().contains_key(id as int),
            !(exists|k: int|
                #[trigger] old(self).tags_view().contains_key(k) && old(self).tags_view()[k].name
                    == name@),
        ensures
            final(self).wf(),
            final(self).tags_view() == spec_rename_tag(old(self).tags_view(), id as int, name@),
            final(self).folders_view() == old(self).folders_view(),
            final(self).entries_view() == old(self).entries_view(),
            final(self).folders@ == old(self).folders@,
            final(self).entries@ == old(self).entries@,
    {
        let ghost tv = self.tags_view();
        let t = match self.tags.get(id) {
            Some(t) => t,
            None => vstd::pervasive::unreached(),
        };
        let nt = Tag {
            id: t.id,
            name,
            parent_id: t.parent_id,
            position: t.position,
            color: t.color,
        };
        self.tags.set(id, nt);
        proof {
            let ntv = self.tags_view();
            assert(ntv =~= spec_rename_tag(tv, id as int, nt.name@));
            assert(self.folders_view() =~= old(self).folders_view());
            assert(self.entries_view() =~= old(self).entries_view());
            assert forall|p: int| true implies tag_children(ntv, p) =~= tag_children(tv, p) by {}
            assert(tags_wf(ntv));
            assert(crate::entry::entries_wf(
                self.folders_view(),
                self.entries_view(),
                self.tags_view(),
            ));
        }
    }

    /// Change a tag's color; nothing else moves.
    pub fn apply_set_tag_color(&mut self, id: TagId, color: i32)
        requires
            old(self).wf(),
            id != ROOT_TAG_ID,
            old(self).tags_view().contains_key(id as int),
        ensures
            final(self).wf(),
            final(self).tags_view() == spec_set_tag_color(
                old(self).tags_view(),
                id as int,
                color as int,
            ),
            final(self).folders_view() == old(self).folders_view(),
            final(self).entries_view() == old(self).entries_view(),
            final(self).folders@ == old(self).folders@,
            final(self).entries@ == old(self).entries@,
    {
        let ghost tv = self.tags_view();
        let t = match self.tags.get(id) {
            Some(t) => t,
            None => vstd::pervasive::unreached(),
        };
        let nt = Tag {
            id: t.id,
            name: t.name.clone(),
            parent_id: t.parent_id,
            position: t.position,
            color,
        };
        self.tags.set(id, nt);
        proof {
            let ntv = self.tags_view();
            assert(ntv =~= spec_set_tag_color(tv, id as int, color as int));
            assert(self.folders_view() =~= old(self).folders_view());
            assert(self.entries_view() =~= old(self).entries_view());
            assert forall|p: int| true implies tag_children(ntv, p) =~= tag_children(tv, p) by {}
            assert(tags_wf(ntv));
            assert(crate::entry::entries_wf(
                self.folders_view(),
                self.entries_view(),
                self.tags_view(),
            ));
        }
    }
}

impl DatabaseData {
    /// Move a tag to a new parent and position, with the position already
    /// resolved (the public operation turns `-1` into an append first).
    /// Shifts the positions of the source and target parents' children so
    /// that both keep a contiguous `0..k` position sequence.
    pub fn apply_reorder_tag(&mut self, tag_id: TagId, to_parent_id: TagId, to_pos: i32)
        requires
            old(self).wf(),
            tag_id != ROOT_TAG_ID,
            old(self).tags_view().contains_key(tag_id as int),
            old(self).tags_view().contains_key(to_parent_id as int),
            to_parent_id != tag_id,
            old(self).tags_view()[tag_id as int].parent == to_parent_id as int ==> 0 <= to_pos
                < tag_children(old(self).tags_view(), to_parent_id as int).len(),
            old(self).tags_view()[tag_id as int].parent != to_parent_id as int ==> 0 <= to_pos
                <= tag_children(old(self).tags_view(), to_parent_id as int).len(),
        ensures
            final(self).wf(),
            final(self).tags_view() == spec_reorder_tag(
                old(self).tags_view(),
                tag_id as int,
                to_parent_id as int,
                to_pos as int,
            ),
            final(self).folders_view() == old(self).folders_view(),
            final(self).entries_view() == old(self).entries_view(),
            final(self).folders@ == old(self).folders@,
            final(self).entries@ == old(self).entries@,
    {
        let ghost tv = self.tags_view();
        let ghost ntv = spec_reorder_tag(tv, tag_id as int, to_parent_id as int, to_pos as int);
        proof {
            self.tags.lemma_entries();
            lemma_tag_children_finite(tv, to_parent_id as int);
        }
        let (from_parent_id, from_pos) = match self.tags.get(tag_id) {
            Some(t) => (t.parent_id, t.position),
            None => vstd::pervasive::unreached(),
        };
        let ghost entries0 = self.tags.entries();
        let n = self.tags.len();
        let mut i: usize = 0;
        while i < n
            invariant
                0 <= i <= n,
                self.tags.inv(),
                n == self.tags.entries().len(),
                self.folders == old(self).folders,
                self.entries == old(self).entries,
                forall|j: int|
                    0 <= j < n ==> (#[trigger] self.tags.entries()[j]).0 == entries0[j].0,
                forall|j: int|
                    i <= j < n ==> (#[trigger] self.tags.entries()[j]).1 == entries0[j].1,
                forall|j: int|
                    0 <= j < i ==> ({
                        let k = (#[trigger] entries0[j]).0 as int;
                        k == tag_id as int || self.tags@[k]@ == ntv[k]
                    }),
                forall|j: int|
                    0 <= j < i && (#[trigger] entries0[j]).0 == tag_id ==> self.tags@[tag_id as int]
                        == entries0[j].1,
            decreases n - i,
        {
            let (k, t) = self.tags.entry_at(i);
            proof {
                self.tags.lemma_entries();
                assert(self.tags@[k as int] == entries0[i as int].1);
                assert(tv[k as int] == entries0[i as int].1@);
            }
            if k != tag_id && k != ROOT_TAG_ID {
                let q = t.position;
                let mut nq = q;
                if t.parent_id == from_parent_id && from_parent_id == to_parent_id {
                    if from_pos < q && q <= to_pos {
                        nq = q - 1;
                    } else if to_pos <= q && q < from_pos {
                        nq = q + 1;
                    }
                } else if t.parent_id == from_parent_id {
                    if q > from_pos {
                        nq = q - 1;
                    }
                } else if t.parent_id == to_parent_id {
                    if q >= to_pos {
                        proof {
                            assert(tag_children(tv, to_parent_id as int).contains(k as int));
                            assert(q < tag_children(tv, to_parent_id as int).len());
                        }
                        nq = q + 1;
                    }
                }
                if nq != q {
                    let nt = Tag {
                        id: t.id,
                        name: t.name.clone(),
                        parent_id: t.parent_id,
                        position: nq,
                        color: t.color,
                    };
                    self.tags.set(k, nt);
                    proof {
                        self.tags.lemma_entries();
                        assert(self.tags@[k as int]@ == ntv[k as int]);
                        assert forall|j: int| i + 1 <= j < n implies (
                        #[trigger] self.tags.entries()[j]).1 == entries0[j].1 by {
                            assert(self.tags.entries()[j].0 == entries0[j].0);
                        }
                    }
                } else {
                    proof {
                        assert(self.tags@[k as int]@ == ntv[k as int]);
                    }
                }
            }
            i += 1;
        }
        proof {
            self.tags.lemma_entries();
            let j = choose|j: int|
                0 <= j < entries0.len() && (#[trigger] entries0[j]).0 == tag_id;
            assert(self.tags.entries()[j].0 == tag_id);
            assert(self.tags@[tag_id as int] == entries0[j].1);
            assert(self.tags@[tag_id as int]@ == tv[tag_id as int]);
            assert forall|k: int|
                #[trigger] tv.contains_key(k) && k != tag_id as int implies self.tags@.contains_key(
                k,
            ) && self.tags@[k]@ == ntv[k] by {
                let j2 = choose|j2: int|
                    0 <= j2 < entries0.len() && (#[trigger] entries0[j2]).0 == k;
                assert(entries0[j2].0 as int == k);
                assert(self.tags.entries()[j2].0 == entries0[j2].0);
            }
            assert forall|k: int| #[trigger] self.tags@.contains_key(k) implies tv.contains_key(
                k,
            ) by {
                let j3 = choose|j3: int|
                    0 <= j3 < self.tags.entries().len() && (#[trigger] self.tags.entries()[j3]).0
                        == k;
                assert(entries0[j3].0 == self.tags.entries()[j3].0);
            }
        }
        let ghost pre = self.tags@;
        let moved_ref = match self.tags.get(tag_id) {
            Some(t) => t,
            None => vstd::pervasive::unreached(),
        };
        let moved = Tag {
            id: moved_ref.id,
            name: moved_ref.name.clone(),
            parent_id: to_parent_id,
            position: to_pos,
            color: moved_ref.color,
        };
        self.tags.set(tag_id, moved);
        proof {
            assert(moved@ == ntv[tag_id as int]);
            assert(self.tags@ == pre.insert(tag_id as int, moved));
            assert forall|k: int| #[trigger] tv.contains_key(k) implies self.tags@.contains_key(k)
                && self.tags@[k]@ == ntv[k] by {
                if k != tag_id as int {
                    assert(pre.contains_key(k) && pre[k]@ == ntv[k]);
                }
            }
            assert forall|k: int| #[trigger]
                self.tags@.contains_key(k) implies tv.contains_key(k) by {
                if k != tag_id as int {
                    assert(pre.contains_key(k));
                }
            }
            assert(self.tags_view() =~= ntv);
            lemma_reorder_tag_wf(tv, tag_id as int, to_parent_id as int, to_pos as int);
            assert(self.folders_view() =~= old(self).folders_view());
            assert(self.entries_view() =~= old(self).entries_view());
            assert(crate::entry::entries_wf(
                self.folders_view(),
                self.entries_view(),
                self.tags_view(),
            ));
        }
    }
}

/// The position of a tag other than the moved one after a reorder, by the
/// shift rules: within one parent the displaced range closes up around the
/// moved tag; across parents the source parent's later children move up and
/// the target parent's children at or after the landing position move down.
pub open spec fn reorder_shift(t: TagView, p1: int, pos1: int, p2: int, pos2: int) -> int {
    if t.parent == p1 && p1 == p2 {
        if pos1 < t.pos <= pos2 {
            t.pos - 1
        } else if pos2 <= t.pos < pos1 {
            t.pos + 1
        } else {
            t.pos
        }
    } else if t.parent == p1 {
        if t.pos > pos1 {
            t.pos - 1
        } else {
            t.pos
        }
    } else if t.parent == p2 {
        if t.pos >= pos2 {
            t.pos + 1
        } else {
            t.pos
        }
    } else {
        t.pos
    }
}

/// The tag map after `id` moves to parent `p2` at position `pos2`.
pub open spec fn spec_reorder_tag(tv: Map<int, TagView>, id: int, p2: int, pos2: int) -> Map<
    int,
    TagView,
> {
    let p1 = tv[id].parent;
    let pos1 = tv[id].pos;
    Map::new(
        |k: int| tv.contains_key(k),
        |k: int|
            if k == id {
                TagView {
                    id: tv[id].id,
                    name: tv[id].name,
                    parent: p2,
                    pos: pos2,
                    color: tv[id].color,
                }
            } else if k == ROOT_TAG_ID as int {
                tv[k]
            } else {
                TagView {
                    id: tv[k].id,
                    name: tv[k].name,
                    parent: tv[k].parent,
                    pos: reorder_shift(tv[k], p1, pos1, p2, pos2),
                    color: tv[k].color,
                }
            },
    )
}

/// Moving a tag preserves the tag-tree invariant: positions at the source
/// and target parents stay distinct values of `0..k`.
pub proof fn lemma_reorder_tag_wf(tv: Map<int, TagView>, id: int, p2: int, pos2: int)
    requires
        tags_wf(tv),
        tv.contains_key(id),
        id != ROOT_TAG_ID as int,
        tv.contains_key(p2),
        p2 != id,
        tv[id].parent == p2 ==> 0 <= pos2 < tag_children(tv, p2).len(),
        tv[id].parent != p2 ==> 0 <= pos2 <= tag_children(tv, p2).len(),
    ensures
        tags_wf(spec_reorder_tag(tv, id, p2, pos2)),
        tag_children(spec_reorder_tag(tv, id, p2, pos2), p2) =~= tag_children(tv, p2).insert(id),
{
    let p1 = tv[id].parent;
    let pos1 = tv[id].pos;
    let ntv = spec_reorder_tag(tv, id, p2, pos2);
    let root = ROOT_TAG_ID as int;
    assert(ntv.dom() =~= tv.dom());
    lemma_tag_children_finite(tv, p1);
    lemma_tag_children_finite(tv, p2);
    if p1 == p2 {
        assert forall|p: int| true implies tag_children(ntv, p) =~= tag_children(tv, p) by {}
        let n = tag_children(tv, p2).len() as int;
        assert(tag_children(tv, p2).contains(id));
        assert forall|x: int| #[trigger]
            ntv.dom().contains(x) && x != root implies 0 <= ntv[x].pos < tag_children(
            ntv,
            ntv[x].parent,
        ).len() by {
            assert(tag_children(ntv, ntv[x].parent) =~= tag_children(tv, tv[x].parent));
            if x != id && tv[x].parent == p1 {
                assert(tag_children(tv, p1).contains(x));
                assert(tv[x].pos != pos1);
            }
        }
        assert forall|a: int, b: int|
            ntv.dom().contains(a) && ntv.dom().contains(b) && a != b && a != root && b != root
                && (#[trigger] ntv[a]).parent == (#[trigger] ntv[b]).parent implies ntv[a].pos
            != ntv[b].pos by {
            if tv[a].parent == p1 && a != id && b != id {
                assert(tag_children(tv, p1).contains(a));
                assert(tag_children(tv, p1).contains(b));
                assert(tv[a].pos != pos1);
                assert(tv[b].pos != pos1);
            } else if a == id || b == id {
                let c = if a == id { b } else { a };
                assert(tag_children(tv, p1).contains(c));
                assert(tv[c].pos != pos1);
            }
        }
    } else {
        assert(tag_children(tv, p1).contains(id));
        assert(!tag_children(tv, p2).contains(id));
        let n1 = tag_children(tv, p1).len() as int;
        let n2 = tag_children(tv, p2).len() as int;
        assert(tag_children(ntv, p1) =~= tag_children(tv, p1).remove(id));
        assert(tag_children(ntv, p2) =~= tag_children(tv, p2).insert(id));
        assert(tag_children(ntv, p1).len() == n1 - 1);
        assert(tag_children(ntv, p2).len() == n2 + 1);
        assert forall|p: int| p != p1 && p != p2 implies tag_children(ntv, p) =~= tag_children(
            tv,
            p,
        ) by {}
        assert forall|x: int| #[trigger]
            ntv.dom().contains(x) && x != root implies 0 <= ntv[x].pos < tag_children(
            ntv,
            ntv[x].parent,
        ).len() by {
            if x == id {
            } else if tv[x].parent == p1 {
                assert(tag_children(tv, p1).contains(x));
                assert(tv[x].pos != pos1);
            } else if tv[x].parent == p2 {
                assert(tag_children(tv, p2).contains(x));
            } else {
                assert(tag_children(ntv, tv[x].parent) =~= tag_children(tv, tv[x].parent));
            }
        }
        assert forall|a: int, b: int|
            ntv.dom().contains(a) && ntv.dom().contains(b) && a != b && a != root && b != root
                && (#[trigger] ntv[a]).parent == (#[trigger] ntv[b]).parent implies ntv[a].pos
            != ntv[b].pos by {
            if a == id || b == id {
                let c = if a == id { b } else { a };
                assert(ntv[c].parent == p2);
                assert(tag_children(tv, p2).contains(c));
            } else if tv[a].parent == p1 {
                assert(tag_children(tv, p1).contains(a));
                assert(tag_children(tv, p1).contains(b));
                assert(tv[a].pos != pos1);
                assert(tv[b].pos != pos1);
            }
        }
    }
}

/// Creating a tag preserves the tag-tree invariant.
pub proof fn lemma_new_tag_wf(tv: Map<int, TagView>, id: int, name: Seq<char>)
    requires
        tags_wf(tv),
        id != ROOT_TAG_ID as int,
        i32::MIN <= id <= i32::MAX,
        tv.dom().len() < 0x7fff_ffff,
        !tv.contains_key(id),
        !(exists|k: int| #[trigger] tv.contains_key(k) && tv[k].name == name),
    ensures
        tags_wf(spec_new_tag(tv, id, name)),
{
    let ntv = spec_new_tag(tv, id, name);
    let root = ROOT_TAG_ID as int;
    lemma_tag_children_finite(tv, root);
    assert forall|p: int| p != root implies tag_children(ntv, p) =~= tag_children(tv, p) by {}
    assert(tag_children(ntv, root) =~= tag_children(tv, root).insert(id));
    assert(tag_children(ntv, root).len() == tag_children(tv, root).len() + 1);
    assert forall|x: int| #[trigger]
        ntv.dom().contains(x) && x != root implies 0 <= ntv[x].pos < tag_children(
        ntv,
        ntv[x].parent,
    ).len() by {
        if x != id {
            assert(tv.dom().contains(x));
            if ntv[x].parent != root {
                assert(tag_children(ntv, ntv[x].parent) =~= tag_children(tv, tv[x].parent));
            }
        }
    }
}

} // verus!
