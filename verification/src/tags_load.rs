use crate::id_map::IdMap;
use crate::model::DatabaseData;
use crate::tag::{tag_children, tags_wf, Tag, TagView, ROOT_TAG_ID};
use crate::Error;
use vstd::prelude::*;

verus! {

/// The mathematical value of a candidate tag map.
pub open spec fn tags_view_of(tags: IdMap<Tag>) -> Map<int, TagView> {
    Map::new(|k: int| tags@.contains_key(k), |k: int| tags@[k]@)
}

/// How many tags of the candidate map name `parent` as their parent.
fn count_children_in(tags: &IdMap<Tag>, parent: i32) -> (r: usize)
    requires
        tags.inv(),
    ensures
        r == tag_children(tags_view_of(*tags), parent as int).len(),
{
    let ghost tv = tags_view_of(*tags);
    let ghost target = tag_children(tv, parent as int);
    proof {
        tags.lemma_entries();
        crate::id_map::lemma_map_of_finite(tags.entries());
        assert(tv.dom() =~= tags@.dom());
        crate::tag::lemma_subset_len(target, tv.dom());
    }
    let n = tags.len();
    let mut i: usize = 0;
    let mut count: usize = 0;
    let ghost mut seen: Set<int> = Set::empty();
    while i < n
        invariant
            0 <= i <= n,
            n == tags.entries().len(),
            seen.finite(),
            count == seen.len(),
            count <= i,
            seen =~= Set::new(
                |c: int|
                    target.contains(c) && exists|j: int|
                        0 <= j < i && (#[trigger] tags.entries()[j]).0 as int == c,
            ),
        decreases n - i,
    {
        let (id, t) = tags.entry_at(i);
        if id != ROOT_TAG_ID && t.parent_id == parent {
            proof {
                assert(tags.entries()[i as int].0 == id);
                assert(tv[id as int] == tags.entries()[i as int].1@);
                assert(target.contains(id as int));
                assert(!seen.contains(id as int)) by {
                    if seen.contains(id as int) {
                        let j = choose|j: int|
                            0 <= j < i && (#[trigger] tags.entries()[j]).0 as int == id as int;
                        assert(tags.entries()[j].0 == tags.entries()[i as int].0);
                    }
                }
                seen = seen.insert(id as int);
                assert(seen =~= Set::new(
                    |c: int|
                        target.contains(c) && exists|j: int|
                            0 <= j < i + 1 && (#[trigger] tags.entries()[j]).0 as int == c,
                )) by {
                    assert forall|c: int|
                        target.contains(c) && exists|j: int|
                            0 <= j < i + 1 && (#[trigger] tags.entries()[j]).0 as int == c
                        implies seen.contains(c) by {
                        let j = choose|j: int|
                            0 <= j < i + 1 && (#[trigger] tags.entries()[j]).0 as int == c;
                        if j < i {
                            assert(exists|j2: int|
                                0 <= j2 < i && (#[trigger] tags.entries()[j2]).0 as int == c);
                        }
                    }
                }
            }
            count += 1;
        } else {
            proof {
                assert forall|c: int|
                    target.contains(c) && exists|j: int|
                        0 <= j < i + 1 && (#[trigger] tags.entries()[j]).0 as int == c
                    implies seen.contains(c) by {
                    let j = choose|j: int|
                        0 <= j < i + 1 && (#[trigger] tags.entries()[j]).0 as int == c;
                    if j == i {
                        assert(tv[c] == tags.entries()[i as int].1@);
                        assert(false);
                    } else {
                        assert(exists|j2: int|
                            0 <= j2 < i && (#[trigger] tags.entries()[j2]).0 as int == c);
                    }
                }
                assert(seen =~= Set::new(
                    |c: int|
                        target.contains(c) && exists|j: int|
                            0 <= j < i + 1 && (#[trigger] tags.entries()[j]).0 as int == c,
                ));
            }
        }
        i += 1;
    }
    proof {
        assert(seen =~= target) by {
            assert forall|c: int| target.contains(c) implies seen.contains(c) by {
                assert(tv.contains_key(c));
                let j = choose|j: int|
                    0 <= j < tags.entries().len() && (#[trigger] tags.entries()[j]).0 == c;
                assert(tags.entries()[j].0 as int == c);
            }
        }
    }
    count
}

impl DatabaseData {
    /// Rebuild the tag tree from the live rows of the store, as a reopened
    /// database does. The rows are checked against every tag-tree
    /// invariant — unknown parents, duplicate or colliding names, and
    /// broken position sequences are refused — so a model loaded from a
    /// store written by this library comes back exactly as persisted.
    pub fn load_tags(&mut self, rows: &Vec<(i64, String, i64, i64, i64)>) -> (r: Result<
        (),
        Error,
    >)
        requires
            old(self).wf(),
            old(self).entries_view().dom() == Set::<int>::empty(),
        ensures
            final(self).wf(),
            final(self).folders@ == old(self).folders@,
            final(self).entries@ == old(self).entries@,
            match r {
                Ok(_) => {
                    &&& forall|j: int|
                        0 <= j < rows@.len() ==> ((#[trigger] rows@[j]).0 == ROOT_TAG_ID as i64
                            || {
                            let tv = final(self).tags_view();
                            &&& tv.contains_key(rows@[j].0 as int)
                            &&& tv[rows@[j].0 as int].name == rows@[j].1@
                            &&& tv[rows@[j].0 as int].parent == rows@[j].2 as int
                            &&& tv[rows@[j].0 as int].pos == rows@[j].3 as int
                            &&& tv[rows@[j].0 as int].color == rows@[j].4 as int
                        })
                    &&& forall|k: int| #[trigger]
                        final(self).tags_view().contains_key(k) ==> k == ROOT_TAG_ID as int || (
                        exists|j: int| 0 <= j < rows@.len() && (#[trigger] rows@[j]).0 as int == k)
                },
                Err(_) => final(self).tags@ == old(self).tags@,
            },
    {
        let mut tmp: IdMap<Tag> = IdMap::new();
        tmp.insert_new(
            ROOT_TAG_ID,
            Tag {
                id: ROOT_TAG_ID,
                name: String::new(),
                parent_id: ROOT_TAG_ID,
                position: 0,
                color: 0,
            },
        );
        let n = rows.len();
        let mut i: usize = 0;
        while i < n
            invariant
                0 <= i <= n,
                n == rows@.len(),
                tmp.inv(),
                tmp@.contains_key(ROOT_TAG_ID as int),
                tmp@[ROOT_TAG_ID as int]@ == (TagView {
                    id: ROOT_TAG_ID as int,
                    name: Seq::<char>::empty(),
                    parent: ROOT_TAG_ID as int,
                    pos: 0,
                    color: 0,
                }),
                forall|k: int| #[trigger]
                    tmp@.contains_key(k) ==> tmp@[k]@.id == k && i32::MIN <= k <= i32::MAX,
                forall|j: int|
                    0 <= j < i ==> ((#[trigger] rows@[j]).0 == ROOT_TAG_ID as i64 || {
                        &&& tmp@.contains_key(rows@[j].0 as int)
                        &&& tmp@[rows@[j].0 as int]@.name == rows@[j].1@
                        &&& tmp@[rows@[j].0 as int]@.parent == rows@[j].2 as int
                        &&& tmp@[rows@[j].0 as int]@.pos == rows@[j].3 as int
                        &&& tmp@[rows@[j].0 as int]@.color == rows@[j].4 as int
                    }),
                forall|k: int| #[trigger]
                    tmp@.contains_key(k) ==> k == ROOT_TAG_ID as int || (exists|j: int|
                        0 <= j < i && (#[trigger] rows@[j]).0 as int == k),
            decreases n - i,
        {
            let (rid, _, rparent, rpos, rcolor) = (
                rows[i].0,
                (),
                rows[i].2,
                rows[i].3,
                rows[i].4,
            );
            if rid != (ROOT_TAG_ID as i64) {
                if rid < (-0x8000_0000i64) || rid > 0x7fff_ffffi64 || rparent < (-0x8000_0000i64)
                    || rparent > 0x7fff_ffffi64 || rpos < (-0x8000_0000i64)
                    || rpos > 0x7fff_ffffi64 || rcolor < (-0x8000_0000i64)
                    || rcolor > 0x7fff_ffffi64 {
                    return Err(Error::Other(String::new()));
                }
                let id = rid as i32;
                if tmp.contains(id) {
                    return Err(Error::Other(String::new()));
                }
                proof {
                    crate::id_map::lemma_map_of_finite(tmp.entries());
                }
                tmp.insert_new(
                    id,
                    Tag {
                        id,
                        name: rows[i].1.clone(),
                        parent_id: rparent as i32,
                        position: rpos as i32,
                        color: rcolor as i32,
                    },
                );
            }
            i += 1;
        }
        // Validate the candidate against every tag-tree invariant.
        proof {
            tmp.lemma_entries();
        }
        if tmp.len() > 0x7fff_ffff {
            return Err(Error::Other(String::new()));
        }
        let ghost tv = tags_view_of(tmp);
        proof {
            assert(tv.dom() =~= tmp@.dom());
            crate::id_map::lemma_map_of_finite(tmp.entries());
        }
        let m = tmp.len();
        let mut a: usize = 0;
        while a < m
            invariant
                0 <= a <= m,
                m == tmp.entries().len(),
                tmp.inv(),
                tv == tags_view_of(tmp),
                forall|j: int|
                    0 <= j < a ==> ({
                        let k = (#[trigger] tmp.entries()[j]).0 as int;
                        k == ROOT_TAG_ID as int || {
                            &&& tv.dom().contains(tv[k].parent)
                            &&& 0 <= tv[k].pos < tag_children(tv, tv[k].parent).len()
                        }
                    }),
                forall|j1: int, j2: int|
                    0 <= j1 < a && 0 <= j2 < tmp.entries().len() && j1 != j2 ==> ({
                        let k1 = (#[trigger] tmp.entries()[j1]).0 as int;
                        let k2 = (#[trigger] tmp.entries()[j2]).0 as int;
                        tv[k1].name != tv[k2].name && ((k1 != ROOT_TAG_ID as int && k2
                            != ROOT_TAG_ID as int && tv[k1].parent == tv[k2].parent) ==> tv[k1].pos
                            != tv[k2].pos)
                    }),
            decreases m - a,
        {
            let (k, t) = tmp.entry_at(a);
            proof {
                assert(tv[k as int] == tmp.entries()[a as int].1@);
            }
            if k != ROOT_TAG_ID {
                if !tmp.contains(t.parent_id) {
                    return Err(Error::Other(String::new()));
                }
                if t.position < 0 {
                    return Err(Error::Other(String::new()));
                }
                let c = count_children_in(&tmp, t.parent_id);
                if t.position as usize >= c {
                    return Err(Error::Other(String::new()));
                }
            }
            let mut b: usize = 0;
            while b < m
                invariant
                    0 <= b <= m,
                    m == tmp.entries().len(),
                    tmp.inv(),
                    tv == tags_view_of(tmp),
                    a < m,
                    k == tmp.entries()[a as int].0,
                    forall|j2: int|
                        0 <= j2 < b && j2 != a ==> ({
                            let k2 = (#[trigger] tmp.entries()[j2]).0 as int;
                            tv[k as int].name != tv[k2].name && ((k as int != ROOT_TAG_ID as int
                                && k2 != ROOT_TAG_ID as int && tv[k as int].parent == tv[k2].parent)
                                ==> tv[k as int].pos != tv[k2].pos)
                        }),
                decreases m - b,
            {
                if b != a {
                    let (k2, t2) = tmp.entry_at(b);
                    proof {
                        assert(tv[k2 as int] == tmp.entries()[b as int].1@);
                    }
                    if t.name == t2.name {
                        return Err(Error::Other(String::new()));
                    }
                    if k != ROOT_TAG_ID && k2 != ROOT_TAG_ID && t.parent_id == t2.parent_id
                        && t.position == t2.position {
                        return Err(Error::Other(String::new()));
                    }
                }
                b += 1;
            }
            a += 1;
        }
        proof {
            assert(tags_wf(tv)) by {
                assert(tv.dom().finite());
                assert(tv.dom().len() <= 0x7fff_ffff);
                assert forall|id: int| #[trigger]
                    tv.dom().contains(id) && id != ROOT_TAG_ID as int implies tv.dom().contains(
                    tv[id].parent,
                ) && 0 <= tv[id].pos < tag_children(tv, tv[id].parent).len() by {
                    let j = choose|j: int|
                        0 <= j < tmp.entries().len() && (#[trigger] tmp.entries()[j]).0 == id;
                    assert(tmp.entries()[j].0 as int == id);
                }
                assert forall|x: int, y: int|
                    tv.dom().contains(x) && tv.dom().contains(y) && x != y implies (
                #[trigger] tv[x]).name != (#[trigger] tv[y]).name by {
                    let j1 = choose|j1: int|
                        0 <= j1 < tmp.entries().len() && (#[trigger] tmp.entries()[j1]).0 == x;
                    let j2 = choose|j2: int|
                        0 <= j2 < tmp.entries().len() && (#[trigger] tmp.entries()[j2]).0 == y;
                    assert(j1 != j2);
                }
                assert forall|x: int, y: int|
                    tv.dom().contains(x) && tv.dom().contains(y) && x != y && x != ROOT_TAG_ID
                        as int && y != ROOT_TAG_ID as int && (#[trigger] tv[x]).parent == (
                    #[trigger] tv[y]).parent implies tv[x].pos != tv[y].pos by {
                    let j1 = choose|j1: int|
                        0 <= j1 < tmp.entries().len() && (#[trigger] tmp.entries()[j1]).0 == x;
                    let j2 = choose|j2: int|
                        0 <= j2 < tmp.entries().len() && (#[trigger] tmp.entries()[j2]).0 == y;
                    assert(j1 != j2);
                }
            }
        }
        self.tags = tmp;
        proof {
            assert(self.tags_view() =~= tv);
            assert(self.folders_view() =~= old(self).folders_view());
            assert(self.entries_view() =~= old(self).entries_view());
            assert(crate::entry::entries_wf(
                self.folders_view(),
                self.entries_view(),
                self.tags_view(),
            )) by {
                assert forall|e: int| #[trigger]
                    self.entries_view().dom().contains(e) implies false by {
                    assert(old(self).entries_view().dom().contains(e));
                }
            }
        }
        Ok(())
    }
}

} // verus!
