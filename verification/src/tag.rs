use vstd::prelude::*;

verus! {

pub type TagId = i32;

/// The sentinel id of the tag-tree root.
pub const ROOT_TAG_ID: TagId = -1;

/// A node of the user-defined tag tree. Children are not stored: they are
/// the tags whose `parent_id` points here, and can be listed with
/// `DatabaseData::children_of_tag`.
pub struct Tag {
    pub id: TagId,
    pub name: String,
    pub parent_id: TagId,
    pub position: i32,
    pub color: i32,
}

/// The mathematical value of a `Tag`.
pub ghost struct TagView {
    pub id: int,
    pub name: Seq<char>,
    pub parent: int,
    pub pos: int,
    pub color: int,
}

impl View for Tag {
    type V = TagView;

    open spec fn view(&self) -> TagView {
        TagView {
            id: self.id as int,
            name: self.name@,
            parent: self.parent_id as int,
            pos: self.position as int,
            color: self.color as int,
        }
    }
}

/// The children of `parent` in a tag map: every non-root tag whose parent
/// pointer names it.
pub open spec fn tag_children(tags: Map<int, TagView>, parent: int) -> Set<int> {
    Set::new(
        |c: int| tags.dom().contains(c) && c != ROOT_TAG_ID as int && tags[c].parent == parent,
    )
}

/// Well-formedness of the tag tree: the root sentinel is present and fixed,
/// parent pointers stay inside the map, names are unique over the whole map,
/// and within one parent the children's positions are distinct values of
/// `0..k` — the invariant behind every reorder.
pub open spec fn tags_wf(tags: Map<int, TagView>) -> bool {
    &&& tags.dom().finite()
    &&& tags.dom().len() <= 0x7fff_ffff
    &&& tags.dom().contains(ROOT_TAG_ID as int)
    &&& tags[ROOT_TAG_ID as int].parent == ROOT_TAG_ID as int
    &&& tags[ROOT_TAG_ID as int].name == Seq::<char>::empty()
    &&& tags[ROOT_TAG_ID as int].pos == 0
    &&& forall|id: int| #[trigger]
        tags.dom().contains(id) ==> tags[id].id == id && i32::MIN <= id <= i32::MAX
    &&& forall|id: int| #[trigger]
        tags.dom().contains(id) && id != ROOT_TAG_ID as int ==> tags.dom().contains(
            tags[id].parent,
        )
    &&& forall|a: int, b: int|
        tags.dom().contains(a) && tags.dom().contains(b) && a != b ==> (#[trigger] tags[a]).name
            != (#[trigger] tags[b]).name
    &&& forall|id: int| #[trigger]
        tags.dom().contains(id) && id != ROOT_TAG_ID as int ==> 0 <= tags[id].pos < tag_children(
            tags,
            tags[id].parent,
        ).len()
    &&& forall|a: int, b: int|
        tags.dom().contains(a) && tags.dom().contains(b) && a != b && a != ROOT_TAG_ID as int && b
            != ROOT_TAG_ID as int && (#[trigger] tags[a]).parent == (#[trigger] tags[b]).parent
            ==> tags[a].pos != tags[b].pos
}

/// A subset of a finite set is finite and no larger.
pub proof fn lemma_subset_len<A>(sub: Set<A>, sup: Set<A>)
    requires
        sup.finite(),
        sub.subset_of(sup),
    ensures
        sub.finite(),
        sub.len() <= sup.len(),
{
    vstd::set_lib::lemma_len_subset(sub, sup);
}

/// Children sets are finite, bounded by the number of tags.
pub proof fn lemma_tag_children_finite(tags: Map<int, TagView>, parent: int)
    requires
        tags.dom().finite(),
    ensures
        tag_children(tags, parent).finite(),
        tag_children(tags, parent).len() <= tags.dom().len(),
{
    lemma_subset_len(tag_children(tags, parent), tags.dom());
}

/// An owned rendering of the tag tree beneath one tag, children ordered by
/// `position`.
pub struct TagNode {
    pub tag: Tag,
    pub children: Vec<TagNode>,
}

} // verus!
