use crate::entry::EntryView;
use crate::entry_tag::spec_set_entry_tags;
use crate::folder::{FolderView, ROOT_FOLDER_ID};
use crate::folder_ops::{spec_add_entry, spec_remove_entry};
use crate::tag::{tag_children, tags_wf, TagView, ROOT_TAG_ID};
use crate::tag_ops::{spec_rename_tag, spec_reorder_tag};
use vstd::prelude::*;

verus! {

/// Importing a file registers an entry under the root folder, and deleting
/// that entry returns the catalog to its prior shape — the same folders
/// and the same entries, up to the id the store allocated.
pub proof fn lemma_import_delete_round_trip(
    fv: Map<int, FolderView>,
    ev: Map<int, EntryView>,
    id: int,
    name: Seq<char>,
)
    requires
        fv.contains_key(ROOT_FOLDER_ID as int),
        !fv[ROOT_FOLDER_ID as int].files.contains_key(name),
        !ev.contains_key(id),
    ensures
        ({
            let added = spec_add_entry(fv, ev, id, ROOT_FOLDER_ID as int, name);
            let removed = spec_remove_entry(added.0, added.1, id);
            removed.0 =~= fv && removed.1 =~= ev
        }),
{
    let added = spec_add_entry(fv, ev, id, ROOT_FOLDER_ID as int, name);
    let removed = spec_remove_entry(added.0, added.1, id);
    assert(removed.1 =~= ev);
    assert(removed.0[ROOT_FOLDER_ID as int].files =~= fv[ROOT_FOLDER_ID as int].files);
    assert(removed.0 =~= fv);
}

/// In every well-formed catalog, each non-root folder is registered in
/// its parent's sub-folder map under its own name, and its path is the
/// parent's path extended by that name. Every mutation ends in a
/// well-formed catalog, so this holds after each one.
pub proof fn lemma_folder_linkage(fv: Map<int, FolderView>, f: int)
    requires
        crate::folder::folders_wf(fv),
        fv.contains_key(f),
        f != ROOT_FOLDER_ID as int,
    ensures
        fv.contains_key(fv[f].parent),
        fv[fv[f].parent].sub.contains_key(fv[f].name),
        fv[fv[f].parent].sub[fv[f].name] == f,
        fv[f].path == fv[fv[f].parent].path.push(fv[f].name),
{
}

/// In every well-formed catalog, each entry is registered in its folder's
/// entry map under its file name, and its path follows the folder's.
pub proof fn lemma_entry_linkage(
    fv: Map<int, FolderView>,
    ev: Map<int, EntryView>,
    tv: Map<int, TagView>,
    e: int,
)
    requires
        crate::entry::entries_wf(fv, ev, tv),
        ev.contains_key(e),
    ensures
        fv.contains_key(ev[e].folder),
        fv[ev[e].folder].files.contains_key(ev[e].file_name),
        fv[ev[e].folder].files[ev[e].file_name] == e,
        ev[e].path == fv[ev[e].folder].path.push(ev[e].file_name),
{
}

/// In every well-formed catalog — so after each reorder and delete — the
/// children of any tag occupy exactly the positions `0..k`: every child
/// sits inside the range, no two share a position, and every position
/// below the child count is taken.
pub proof fn lemma_child_positions_contiguous(tv: Map<int, TagView>, parent: int)
    requires
        tags_wf(tv),
    ensures
        forall|c: int| #[trigger]
            tag_children(tv, parent).contains(c) ==> 0 <= tv[c].pos < tag_children(
                tv,
                parent,
            ).len(),
        forall|a: int, b: int|
            tag_children(tv, parent).contains(a) && tag_children(tv, parent).contains(b) && a != b
                ==> (#[trigger] tv[a]).pos != (#[trigger] tv[b]).pos,
        forall|p: int|
            0 <= p < tag_children(tv, parent).len() ==> #[trigger] position_taken(tv, parent, p),
{
    assert forall|p: int| 0 <= p < tag_children(tv, parent).len() implies #[trigger] position_taken(
        tv,
        parent,
        p,
    ) by {
        crate::getters::lemma_positions_cover(tv, parent, p);
    }
}

/// Some child of `parent` carries position `p`.
pub open spec fn position_taken(tv: Map<int, TagView>, parent: int, p: int) -> bool {
    exists|c: int| #[trigger] tag_children(tv, parent).contains(c) && tv[c].pos == p
}

/// A rename as the operation behaves at the catalog surface: it does
/// nothing when some tag already carries the name, else it renames.
pub open spec fn spec_rename_op(tv: Map<int, TagView>, id: int, name: Seq<char>) -> Map<
    int,
    TagView,
> {
    if exists|k: int| #[trigger] tv.contains_key(k) && tv[k].name == name {
        tv
    } else {
        spec_rename_tag(tv, id, name)
    }
}

/// Last write wins: renaming a tag twice leaves exactly the state of the
/// second rename alone, with the uniqueness check enforced at each call.
/// The second clause of `requires` keeps out the one family of inputs on
/// which the equation cannot hold: a first rename that succeeds followed by
/// a second whose name belongs to some other tag, which the left side
/// refuses while the right side keeps the original name.
pub proof fn lemma_rename_last_write_wins(
    tv: Map<int, TagView>,
    id: int,
    x: Seq<char>,
    y: Seq<char>,
)
    requires
        tv.contains_key(id),
        (exists|k: int| #[trigger] tv.contains_key(k) && tv[k].name == x) || (forall|k: int|
            #[trigger] tv.contains_key(k) && k != id ==> tv[k].name != y),
    ensures
        spec_rename_op(spec_rename_op(tv, id, x), id, y) =~= spec_rename_op(tv, id, y),
{
    if !(exists|k: int| #[trigger] tv.contains_key(k) && tv[k].name == x) {
        let tv1 = spec_rename_tag(tv, id, x);
        if exists|k: int| #[trigger] tv1.contains_key(k) && tv1[k].name == y {
            let k = choose|k: int| #[trigger] tv1.contains_key(k) && tv1[k].name == y;
            if k == id {
                // `y` equals the fresh name `x`; the second rename refuses it,
                // and the direct rename of `y == x` gives the same map.
                assert(y == x);
                assert(spec_rename_op(tv1, id, y) =~= spec_rename_op(tv, id, y));
            } else {
                assert(tv.contains_key(k) && tv[k].name == y);
                assert(spec_rename_op(tv1, id, y) == tv1);
                assert(spec_rename_op(tv, id, y) == tv);
                // impossible: `y` is taken by `k` in `tv` as well
                assert(false);
            }
        } else {
            // the second rename succeeds from `tv1`
            if exists|k: int| #[trigger] tv.contains_key(k) && tv[k].name == y {
                let k = choose|k: int| #[trigger] tv.contains_key(k) && tv[k].name == y;
                // only the renamed tag itself can have carried `y` before
                assert(k == id) by {
                    if k != id {
                        assert(tv1.contains_key(k) && tv1[k].name == y);
                    }
                }
                assert(spec_rename_op(spec_rename_op(tv, id, x), id, y) =~= tv);
            } else {
                assert(spec_rename_op(spec_rename_op(tv, id, x), id, y) =~= spec_rename_tag(
                    tv,
                    id,
                    y,
                ));
            }
        }
    }
}

/// Reordering a tag and then reordering it back to its original parent and
/// position restores the original tag tree exactly.
pub proof fn lemma_reorder_round_trip(tv: Map<int, TagView>, id: int, p2: int, k2: int)
    requires
        tags_wf(tv),
        tv.contains_key(id),
        id != ROOT_TAG_ID as int,
        tv.contains_key(p2),
        p2 != id,
        tv[id].parent == p2 ==> 0 <= k2 < tag_children(tv, p2).len(),
        tv[id].parent != p2 ==> 0 <= k2 <= tag_children(tv, p2).len(),
    ensures
        spec_reorder_tag(spec_reorder_tag(tv, id, p2, k2), id, tv[id].parent, tv[id].pos) =~= tv,
{
    let p1 = tv[id].parent;
    let pos1 = tv[id].pos;
    let tv1 = spec_reorder_tag(tv, id, p2, k2);
    let tv2 = spec_reorder_tag(tv1, id, p1, pos1);
    assert forall|k: int| tv.contains_key(k) implies tv2.contains_key(k) && tv2[k] =~= tv[k] by {
        if k != id && k != ROOT_TAG_ID as int {
            if tv[k].parent == p1 && tag_children(tv, p1).contains(k) {
                assert(tv[k].pos != pos1);
            }
        }
    }
}

/// Adding a tag to an entry and then removing it leaves the entry's tag
/// set — and the whole entry map — unchanged.
pub proof fn lemma_add_remove_tag_round_trip(ev: Map<int, EntryView>, e: int, t: int)
    requires
        ev.contains_key(e),
        !ev[e].tags.contains(t),
    ensures
        spec_set_entry_tags(
            spec_set_entry_tags(ev, e, ev[e].tags.insert(t)),
            e,
            spec_set_entry_tags(ev, e, ev[e].tags.insert(t))[e].tags.remove(t),
        ) =~= ev,
{
    let ev1 = spec_set_entry_tags(ev, e, ev[e].tags.insert(t));
    assert(ev1[e].tags.remove(t) =~= ev[e].tags);
}

} // verus!
