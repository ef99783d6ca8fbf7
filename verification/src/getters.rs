use crate::folder::{Folder, FolderId, FolderNode, ROOT_FOLDER_ID};
use crate::model::DatabaseData;
use crate::name_map::NameMap;
use crate::tag::{tag_children, Tag, TagId, TagNode, TagView, ROOT_TAG_ID};
use vstd::prelude::*;

verus! {

impl Folder {
    /// An equal copy of this folder.
    pub fn duplicate(&self) -> (r: Folder)
        requires
            self.sub_folders.inv(),
            self.entries.inv(),
        ensures
            r@ == self@,
            crate::folder::folder_maps_inv(r),
    {
        Folder {
            id: self.id,
            parent_id: self.parent_id,
            name: self.name.clone(),
            path: crate::folder_ops::clone_path(&self.path),
            sub_folders: self.sub_folders.duplicate(),
            entries: self.entries.duplicate(),
        }
    }
}

impl DatabaseData {
    /// The children of a tag, listed in position order: the id at index
    /// `i` is the child whose `position` is `i`.
    pub fn children_of_tag(&self, parent: TagId) -> (r: Vec<TagId>)
        requires
            self.wf(),
        ensures
            id_set_of(r@) =~= tag_children(self.tags_view(), parent as int),
            forall|a: int, b: int|
                0 <= a < b < r@.len() ==> self.tags_view()[(#[trigger] r@[a]) as int].pos
                    < self.tags_view()[(#[trigger] r@[b]) as int].pos,
            forall|a: int|
                0 <= a < r@.len() ==> self.tags_view().contains_key((#[trigger] r@[a]) as int)
                    && self.tags_view()[r@[a] as int].pos == a,
    {
        let ghost tv = self.tags_view();
        let ghost target = tag_children(tv, parent as int);
        proof {
            self.tags.lemma_entries();
            crate::tag::lemma_tag_children_finite(tv, parent as int);
        }
        let count = self.count_tag_children(parent);
        let n = self.tags.len();
        let mut out: Vec<TagId> = Vec::new();
        let mut p: usize = 0;
        while p < count
            invariant
                0 <= p <= count,
                count == target.len(),
                n == self.tags.entries().len(),
                out@.len() == p,
                forall|a: int|
                    0 <= a < p ==> target.contains((#[trigger] out@[a]) as int)
                        && tv[out@[a] as int].pos == a,
            decreases count - p,
        {
            let mut i: usize = 0;
            let mut found = false;
            while i < n && !found
                invariant
                    0 <= i <= n,
                    n == self.tags.entries().len(),
                    out@.len() == p + (if found {
                        1int
                    } else {
                        0int
                    }),
                    found ==> target.contains((#[trigger] out@[p as int]) as int)
                        && tv[out@[p as int] as int].pos == p,
                    forall|a: int|
                        0 <= a < p ==> target.contains((#[trigger] out@[a]) as int)
                            && tv[out@[a] as int].pos == a,
                    !found ==> forall|j: int|
                        0 <= j < i ==> ((#[trigger] self.tags.entries()[j]).0 == ROOT_TAG_ID
                            || self.tags.entries()[j].1@.parent != parent as int
                            || self.tags.entries()[j].1@.pos != p as int),
                decreases n - i,
            {
                let (k, t) = self.tags.entry_at(i);
                proof {
                    assert(tv[k as int] == self.tags.entries()[i as int].1@);
                }
                if k != ROOT_TAG_ID && t.parent_id == parent && t.position >= 0 && t.position
                    as usize == p {
                    out.push(k);
                    found = true;
                }
                i += 1;
            }
            if !found {
                // Positions of a well-formed parent cover 0..count, so the
                // scan cannot miss; treat a miss as the end of the list.
                proof {
                    assert forall|c: int| #[trigger] target.contains(c) && tv[c].pos == p as int
                        implies false by {
                        let j = choose|j: int|
                            0 <= j < self.tags.entries().len() && (#[trigger] self.tags.entries()[j]).0
                                == c;
                        assert(self.tags.entries()[j].0 as int == c);
                        assert(self.tags.entries()[j].1@ == tv[c]);
                    }
                    lemma_positions_cover(tv, parent as int, p as int);
                    assert(false);
                }
            }
            p += 1;
        }
        proof {
            assert(id_set_of(out@) =~= target) by {
                assert forall|c: int| #[trigger] target.contains(c) implies id_set_of(
                    out@,
                ).contains(c) by {
                    assert(0 <= tv[c].pos < target.len());
                    let a = tv[c].pos;
                    assert(target.contains(out@[a] as int) && tv[out@[a] as int].pos == a);
                    assert(out@[a] as int == c) by {
                        if out@[a] as int != c {
                            assert(tv[out@[a] as int].pos != tv[c].pos);
                        }
                    }
                    crate::entry::lemma_id_set_contains(out@, c);
                }
                assert forall|c: int| #[trigger] id_set_of(out@).contains(c) implies target.contains(
                    c,
                ) by {
                    crate::entry::lemma_id_set_contains(out@, c);
                    let a = choose|a: int| 0 <= a < out@.len() && (#[trigger] out@[a]) as int == c;
                }
            }
            assert forall|a: int, b: int| 0 <= a < b < out@.len() implies tv[(
            #[trigger] out@[a]) as int].pos < tv[(#[trigger] out@[b]) as int].pos by {}
        }
        out
    }

    /// The positions along the path from the root to this tag, the sort
    /// key of the tag listing. The walk gives up at the tag-count bound,
    /// which a well-formed tree never reaches.
    pub fn get_tag_order(&self, tag_id: TagId) -> (r: Vec<i32>)
        requires
            self.wf(),
        ensures
            int_seq(r@) == spec_tag_order(
                self.tags_view(),
                tag_id as int,
                self.tags_view().dom().len() as nat,
            ),
    {
        let ghost tv = self.tags_view();
        proof {
            self.tags.lemma_entries();
            assert(tv.dom() =~= self.tags@.dom());
        }
        let fuel0 = self.tags.len();
        let ghost total = spec_tag_order(tv, tag_id as int, fuel0 as nat);
        let mut rev: Vec<i32> = Vec::new();
        let mut cur = tag_id;
        let mut fuel = fuel0;
        while cur != ROOT_TAG_ID && fuel > 0
            invariant
                self.wf(),
                tv == self.tags_view(),
                total =~= spec_tag_order(tv, cur as int, fuel as nat) + rev_int_seq(rev@),
            decreases fuel,
        {
            let t = match self.tags.get(cur) {
                Some(t) => t,
                None => {
                    break ;
                },
            };
            let ghost pre = rev@;
            rev.push(t.position);
            proof {
                assert(rev_int_seq(rev@) =~= seq![t.position as int] + rev_int_seq(pre));
                assert(spec_tag_order(tv, cur as int, fuel as nat) =~= spec_tag_order(
                    tv,
                    t.parent_id as int,
                    (fuel - 1) as nat,
                ).push(t.position as int));
                assert(total =~= spec_tag_order(tv, t.parent_id as int, (fuel - 1) as nat)
                    + rev_int_seq(rev@));
            }
            cur = t.parent_id;
            fuel -= 1;
        }
        proof {
            assert(spec_tag_order(tv, cur as int, fuel as nat) =~= Seq::<int>::empty());
            assert(total =~= rev_int_seq(rev@));
        }
        let m = rev.len();
        let mut out: Vec<i32> = Vec::new();
        let mut i: usize = 0;
        while i < m
            invariant
                0 <= i <= m,
                m == rev@.len(),
                int_seq(out@) =~= rev_int_seq(rev@).take(i as int),
            decreases m - i,
        {
            out.push(rev[m - 1 - i]);
            proof {
                assert(int_seq(out@) =~= rev_int_seq(rev@).take(i + 1));
            }
            i += 1;
        }
        proof {
            assert(rev_int_seq(rev@).take(m as int) =~= rev_int_seq(rev@));
        }
        out
    }

    /// The tags carried by an entry, as copies of the tag values: exactly
    /// the entry's tag ids that name an existing tag, each once, sorted
    /// ascending by the tag-tree order key `get_tag_order` computes.
    #[verifier::rlimit(100)]
    #[verifier::spinoff_prover]
    pub fn get_tags_for_entry(&self, entry_id: crate::entry::EntryId) -> (r: Vec<Tag>)
        requires
            self.wf(),
            self.entries_view().contains_key(entry_id as int),
        ensures
            forall|i: int|
                0 <= i < r@.len() ==> self.entries_view()[entry_id as int].tags.contains(
                    (#[trigger] r@[i]).id as int,
                ) && self.tags_view().contains_key(r@[i].id as int) && r@[i]@
                    == self.tags_view()[r@[i].id as int],
            forall|t: int|
                (self.entries_view()[entry_id as int].tags.contains(t)
                    && #[trigger] self.tags_view().contains_key(t)) ==> exists|i: int|
                    0 <= i < r@.len() && (#[trigger] r@[i]).id as int == t,
            forall|a: int, b: int|
                0 <= a < b < r@.len() ==> (#[trigger] r@[a]).id != (#[trigger] r@[b]).id,
            forall|a: int, b: int|
                0 <= a < b < r@.len() ==> lex_le(
                    spec_tag_order(
                        self.tags_view(),
                        (#[trigger] r@[a]).id as int,
                        self.tags_view().dom().len() as nat,
                    ),
                    spec_tag_order(
                        self.tags_view(),
                        (#[trigger] r@[b]).id as int,
                        self.tags_view().dom().len() as nat,
                    ),
                ),
    {
        let ghost tv = self.tags_view();
        let ghost nfuel = tv.dom().len() as nat;
        let ghost etags = self.entries_view()[entry_id as int].tags;
        let tag_ids = {
            let e = match self.entries.get(entry_id) {
                Some(e) => e,
                None => vstd::pervasive::unreached(),
            };
            let mut c: Vec<TagId> = Vec::new();
            let n = e.tag_ids.len();
            let mut i: usize = 0;
            while i < n
                invariant
                    0 <= i <= n,
                    n == e.tag_ids@.len(),
                    c@ =~= e.tag_ids@.take(i as int),
                decreases n - i,
            {
                c.push(e.tag_ids[i]);
                proof {
                    assert(e.tag_ids@.take(i + 1).drop_last() =~= e.tag_ids@.take(i as int));
                    assert(c@ =~= e.tag_ids@.take(i + 1));
                }
                i += 1;
            }
            proof {
                assert(e.tag_ids@.take(n as int) =~= e.tag_ids@);
                assert(etags == crate::entry::id_set(e.tag_ids@));
                assert forall|j: int| 0 <= j < c@.len() implies etags.contains(
                    (#[trigger] c@[j]) as int,
                ) by {
                    crate::entry::lemma_id_set_contains(e.tag_ids@, c@[j] as int);
                    assert(e.tag_ids@[j] == c@[j]);
                }
                assert forall|t: int| #[trigger] etags.contains(t) implies exists|j: int|
                    0 <= j < c@.len() && (#[trigger] c@[j]) as int == t by {
                    crate::entry::lemma_id_set_contains(e.tag_ids@, t);
                    let j = choose|j: int|
                        0 <= j < e.tag_ids@.len() && (#[trigger] e.tag_ids@[j]) as int == t;
                    assert(c@[j] as int == t);
                }
            }
            c
        };
        // Keep each present tag id once.
        let n = tag_ids.len();
        let mut ids: Vec<TagId> = Vec::new();
        let mut i: usize = 0;
        while i < n
            invariant
                0 <= i <= n,
                self.wf(),
                tv == self.tags_view(),
                nfuel == tv.dom().len() as nat,
                n == tag_ids@.len(),
                forall|j: int| 0 <= j < n ==> etags.contains((#[trigger] tag_ids@[j]) as int),
                forall|j: int|
                    0 <= j < ids@.len() ==> etags.contains((#[trigger] ids@[j]) as int)
                        && tv.contains_key(ids@[j] as int),
                forall|a: int, b: int|
                    0 <= a < b < ids@.len() ==> (#[trigger] ids@[a]) != (#[trigger] ids@[b]),
                forall|l: int|
                    0 <= l < i ==> (!tv.contains_key((#[trigger] tag_ids@[l]) as int)
                        || exists|j: int|
                        0 <= j < ids@.len() && (#[trigger] ids@[j]) == tag_ids@[l]),
            decreases n - i,
        {
            let t = tag_ids[i];
            if !crate::entry::vec_contains_id(&ids, t) && self.tags.contains(t) {
                let ghost pre_ids = ids@;
                ids.push(t);
                proof {
                    crate::entry::lemma_id_set_contains(pre_ids, t as int);
                    assert forall|a: int, b: int| 0 <= a < b < ids@.len() implies (
                    #[trigger] ids@[a]) != (#[trigger] ids@[b]) by {
                        if b == ids@.len() - 1 {
                            assert(pre_ids[a] != t);
                        }
                    }
                    assert forall|l: int|
                        0 <= l < i + 1 implies (!tv.contains_key(
                        (#[trigger] tag_ids@[l]) as int,
                    ) || exists|j2: int|
                        0 <= j2 < ids@.len() && (#[trigger] ids@[j2]) == tag_ids@[l]) by {
                        if l < i {
                            if tv.contains_key(tag_ids@[l] as int) {
                                let j0 = choose|j0: int|
                                    0 <= j0 < pre_ids.len() && (#[trigger] pre_ids[j0])
                                        == tag_ids@[l];
                                assert(ids@[j0] == pre_ids[j0]);
                            }
                        } else {
                            assert(ids@[ids@.len() - 1] == tag_ids@[l]);
                        }
                    }
                }
            } else {
                proof {
                    if crate::entry::id_set(ids@).contains(t as int) {
                        crate::entry::lemma_id_set_contains(ids@, t as int);
                    }
                }
            }
            i += 1;
        }
        // Sort by the tag-tree order key, then read the tags back.
        let ghost gids = ids@;
        let sids = self.sort_ids_by_order(ids);
        let sn = sids.len();
        let mut out: Vec<Tag> = Vec::new();
        let mut i2: usize = 0;
        while i2 < sn
            invariant
                0 <= i2 <= sn,
                self.wf(),
                tv == self.tags_view(),
                sn == sids@.len(),
                forall|k: int| 0 <= k < sn ==> tv.contains_key((#[trigger] sids@[k]) as int),
                out@.len() == i2,
                forall|k: int|
                    0 <= k < i2 ==> (#[trigger] out@[k]).id == sids@[k] && out@[k]@ == tv[sids@[k]
                        as int],
            decreases sn - i2,
        {
            let t = sids[i2];
            let tag = match self.tags.get(t) {
                Some(tag) => tag,
                None => vstd::pervasive::unreached(),
            };
            out.push(tag.duplicate());
            i2 += 1;
        }
        proof {
            assert forall|i3: int| 0 <= i3 < out@.len() implies etags.contains(
                (#[trigger] out@[i3]).id as int,
            ) && tv.contains_key(out@[i3].id as int) && out@[i3]@ == tv[out@[i3].id as int] by {
                assert(out@[i3].id == sids@[i3]);
                assert(crate::entry::id_set(sids@).contains(sids@[i3] as int)) by {
                    crate::entry::lemma_id_set_contains(sids@, sids@[i3] as int);
                }
                assert(crate::entry::id_set(gids).contains(sids@[i3] as int));
                crate::entry::lemma_id_set_contains(gids, sids@[i3] as int);
                let j = choose|j: int| 0 <= j < gids.len() && (#[trigger] gids[j]) as int == sids@[i3] as int;
                assert(etags.contains(gids[j] as int));
            }
            assert forall|t: int|
                (etags.contains(t) && #[trigger] tv.contains_key(t)) implies exists|i3: int|
                0 <= i3 < out@.len() && (#[trigger] out@[i3]).id as int == t by {
                let l = choose|l: int| 0 <= l < tag_ids@.len() && (#[trigger] tag_ids@[l]) as int
                    == t;
                let j = choose|j: int| 0 <= j < gids.len() && (#[trigger] gids[j]) == tag_ids@[l];
                assert(crate::entry::id_set(gids).contains(t)) by {
                    crate::entry::lemma_id_set_contains(gids, t);
                    assert(gids[j] as int == t);
                }
                assert(crate::entry::id_set(sids@).contains(t));
                crate::entry::lemma_id_set_contains(sids@, t);
                let idx = choose|idx: int| 0 <= idx < sids@.len() && (#[trigger] sids@[idx]) as int == t;
                assert(out@[idx].id as int == t);
            }
            assert forall|a: int, b: int| 0 <= a < b < out@.len() implies (#[trigger] out@[a]).id
                != (#[trigger] out@[b]).id by {
                assert(sids@[a] != sids@[b]);
            }
            assert forall|a: int, b: int| 0 <= a < b < out@.len() implies lex_le(
                spec_tag_order(tv, (#[trigger] out@[a]).id as int, nfuel),
                spec_tag_order(tv, (#[trigger] out@[b]).id as int, nfuel),
            ) by {
                assert(out@[a].id == sids@[a] && out@[b].id == sids@[b]);
            }
        }
        out
    }

    /// The collected tag ids sorted ascending by their tag-tree order
    /// keys: the same ids, each once, in lexicographic key order.
    #[verifier::rlimit(100)]
    #[verifier::spinoff_prover]
    fn sort_ids_by_order(&self, ids: Vec<TagId>) -> (r: Vec<TagId>)
        requires
            self.wf(),
            forall|j: int|
                0 <= j < ids@.len() ==> self.tags_view().contains_key(
                    (#[trigger] ids@[j]) as int,
                ),
            forall|a: int, b: int|
                0 <= a < b < ids@.len() ==> (#[trigger] ids@[a]) != (#[trigger] ids@[b]),
        ensures
            r@.len() == ids@.len(),
            crate::entry::id_set(r@) =~= crate::entry::id_set(ids@),
            forall|k: int|
                0 <= k < r@.len() ==> self.tags_view().contains_key((#[trigger] r@[k]) as int),
            forall|a: int, b: int|
                0 <= a < b < r@.len() ==> (#[trigger] r@[a]) != (#[trigger] r@[b]),
            tag_order_sorted(self.tags_view(), self.tags_view().dom().len() as nat, r@),
    {
        let ghost tv = self.tags_view();
        let ghost nfuel = tv.dom().len() as nat;
        let m = ids.len();
        let mut out: Vec<TagId> = Vec::new();
        let mut i2: usize = 0;
        while i2 < m
            invariant
                0 <= i2 <= m,
                self.wf(),
                tv == self.tags_view(),
                nfuel == tv.dom().len() as nat,
                m == ids@.len(),
                forall|j: int| 0 <= j < m ==> tv.contains_key((#[trigger] ids@[j]) as int),
                forall|a: int, b: int|
                    0 <= a < b < m ==> (#[trigger] ids@[a]) != (#[trigger] ids@[b]),
                out@.len() == i2,
                crate::entry::id_set(out@) =~= crate::entry::id_set(ids@.take(i2 as int)),
                forall|k: int|
                    0 <= k < out@.len() ==> tv.contains_key((#[trigger] out@[k]) as int),
                forall|a: int, b: int|
                    0 <= a < b < out@.len() ==> (#[trigger] out@[a]) != (#[trigger] out@[b]),
                tag_order_sorted(tv, nfuel, out@),
            decreases m - i2,
        {
            let t = ids[i2];
            let key = self.get_tag_order(t);
            let mut pos: usize = 0;
            let mut scanning = true;
            let on = out.len();
            while pos < on && scanning
                invariant
                    0 <= pos <= on,
                    on == out@.len(),
                    forall|j: int|
                        0 <= j < pos ==> lex_le(
                            spec_tag_order(tv, (#[trigger] out@[j]) as int, nfuel),
                            spec_tag_order(tv, t as int, nfuel),
                        ),
                    !scanning ==> pos < on && !lex_le(
                        spec_tag_order(tv, out@[pos as int] as int, nfuel),
                        spec_tag_order(tv, t as int, nfuel),
                    ),
                decreases on - pos, (if scanning { 1int } else { 0int }),
            {
                let opos = out[pos];
                let ok = self.get_tag_order(opos);
                if !lex_le_keys(&ok, &key) {
                    scanning = false;
                } else {
                    pos += 1;
                }
            }
            proof {
                if pos < on {
                    lemma_lex_total(
                        spec_tag_order(tv, out@[pos as int] as int, nfuel),
                        spec_tag_order(tv, t as int, nfuel),
                    );
                }
                // the id is fresh among the sorted prefix
                crate::entry::lemma_id_set_contains(ids@.take(i2 as int), t as int);
                assert(!crate::entry::id_set(out@).contains(t as int)) by {
                    if crate::entry::id_set(ids@.take(i2 as int)).contains(t as int) {
                        let j = choose|j: int|
                            0 <= j < i2 && (#[trigger] ids@.take(i2 as int)[j]) as int == t as int;
                        assert(ids@[j] == ids@[i2 as int]);
                    }
                }
                crate::entry::lemma_id_set_contains(out@, t as int);
            }
            let ghost pre = out@;
            out.insert(pos, t);
            proof {
                pre.insert_ensures(pos as int, t);
                assert(out@ =~= pre.insert(pos as int, t));
                lemma_sorted_insert_ids(tv, nfuel, pre, t, pos as int);
                lemma_id_set_insert_at(pre, pos as int, t);
                assert(ids@.take(i2 + 1).drop_last() =~= ids@.take(i2 as int));
                crate::entry::lemma_id_set_push(ids@.take(i2 as int), ids@[i2 as int]);
                assert(ids@.take(i2 + 1) =~= ids@.take(i2 as int).push(ids@[i2 as int]));
                assert(crate::entry::id_set(out@) =~= crate::entry::id_set(ids@.take(i2 + 1)));
                assert forall|a: int, b: int| 0 <= a < b < out@.len() implies (
                #[trigger] out@[a]) != (#[trigger] out@[b]) by {
                    if a == pos || b == pos {
                        let c = if a == pos {
                            b
                        } else {
                            a
                        };
                        let c0 = if c < pos {
                            c
                        } else {
                            c - 1
                        };
                        assert(pre[c0] != t);
                    }
                }
            }
            i2 += 1;
        }
        proof {
            assert(ids@.take(m as int) =~= ids@);
        }
        out
    }

    /// The tag tree beneath the root, children ordered by position.
    pub fn get_tags(&self) -> (r: Vec<TagNode>)
        requires
            self.wf(),
    {
        let roots = self.children_of_tag(ROOT_TAG_ID);
        let fuel = self.tags.len();
        let mut out: Vec<TagNode> = Vec::new();
        let n = roots.len();
        let mut i: usize = 0;
        while i < n
            invariant
                self.wf(),
                0 <= i <= n,
                n == roots@.len(),
                forall|j: int|
                    0 <= j < roots@.len() ==> self.tags_view().contains_key(
                        (#[trigger] roots@[j]) as int,
                    ),
            decreases n - i,
        {
            out.push(self.build_tag_node(roots[i], fuel));
            i += 1;
        }
        out
    }

    /// One node of the tag tree; recursion is bounded by `fuel`, which a
    /// well-formed tree never exhausts.
    pub fn build_tag_node(&self, tag_id: TagId, fuel: usize) -> (r: TagNode)
        requires
            self.wf(),
            self.tags_view().contains_key(tag_id as int),
        ensures
            r.tag@ == self.tags_view()[tag_id as int],
        decreases fuel,
    {
        let t = match self.tags.get(tag_id) {
            Some(t) => t,
            None => vstd::pervasive::unreached(),
        };
        let tag = t.duplicate();
        let mut children: Vec<TagNode> = Vec::new();
        if fuel > 0 {
            let kids = self.children_of_tag(tag_id);
            let n = kids.len();
            let mut i: usize = 0;
            while i < n
                invariant
                    self.wf(),
                    0 <= i <= n,
                    n == kids@.len(),
                    fuel > 0,
                    forall|j: int|
                        0 <= j < kids@.len() ==> self.tags_view().contains_key(
                            (#[trigger] kids@[j]) as int,
                        ),
                decreases n - i,
            {
                children.push(self.build_tag_node(kids[i], fuel - 1));
                i += 1;
            }
        }
        TagNode { tag, children }
    }

    /// The folder tree beneath the root.
    pub fn get_folders(&self) -> (r: FolderNode)
        requires
            self.wf(),
    {
        self.build_folder_node(ROOT_FOLDER_ID, self.folders.len())
    }

    /// One node of the folder tree; recursion is bounded by `fuel`, which
    /// a well-formed tree never exhausts.
    pub fn build_folder_node(&self, folder_id: FolderId, fuel: usize) -> (r: FolderNode)
        requires
            self.wf(),
            self.folders_view().contains_key(folder_id as int),
        ensures
            r.folder@ == self.folders_view()[folder_id as int],
        decreases fuel,
    {
        let f = match self.folders.get(folder_id) {
            Some(f) => f,
            None => vstd::pervasive::unreached(),
        };
        let folder = f.duplicate();
        let mut subs: Vec<FolderNode> = Vec::new();
        if fuel > 0 {
            let n = f.sub_folders.len();
            let mut i: usize = 0;
            while i < n
                invariant
                    self.wf(),
                    0 <= i <= n,
                    n == f.sub_folders.entries().len(),
                    f == self.folders@[folder_id as int],
                    self.folders_view().contains_key(folder_id as int),
                    fuel > 0,
                decreases n - i,
            {
                let (_, cid) = f.sub_folders.entry_at(i);
                proof {
                    assert(self.folders_view()[folder_id as int].sub.contains_key(
                        f.sub_folders.entries()[i as int].0@,
                    ));
                }
                subs.push(self.build_folder_node(cid, fuel - 1));
                i += 1;
            }
        }
        FolderNode { folder, sub_folders: subs }
    }
}

impl TagNode {
    /// The tree node of one tag.
    pub fn new(data: &DatabaseData, tag_id: TagId) -> (r: TagNode)
        requires
            data.wf(),
            data.tags_view().contains_key(tag_id as int),
        ensures
            r.tag@ == data.tags_view()[tag_id as int],
    {
        data.build_tag_node(tag_id, data.tags.len())
    }

    /// The tree nodes of the given tags, usually the root's children.
    pub fn build(data: &DatabaseData, root_tag_ids: &Vec<TagId>) -> (r: Vec<TagNode>)
        requires
            data.wf(),
            forall|i: int|
                0 <= i < root_tag_ids@.len() ==> data.tags_view().contains_key(
                    (#[trigger] root_tag_ids@[i]) as int,
                ),
        ensures
            r@.len() == root_tag_ids@.len(),
            forall|i: int|
                0 <= i < r@.len() ==> (#[trigger] r@[i]).tag@ == data.tags_view()[root_tag_ids@[i]
                    as int],
    {
        let n = root_tag_ids.len();
        let mut out: Vec<TagNode> = Vec::new();
        let mut i: usize = 0;
        while i < n
            invariant
                data.wf(),
                0 <= i <= n,
                n == root_tag_ids@.len(),
                out@.len() == i,
                forall|j: int|
                    0 <= j < n ==> data.tags_view().contains_key(
                        (#[trigger] root_tag_ids@[j]) as int,
                    ),
                forall|j: int|
                    0 <= j < i ==> (#[trigger] out@[j]).tag@ == data.tags_view()[root_tag_ids@[j]
                        as int],
            decreases n - i,
        {
            out.push(TagNode::new(data, root_tag_ids[i]));
            i += 1;
        }
        out
    }
}

/// The order keys of a sequence of tag ids ascend lexicographically.
pub open spec fn tag_order_sorted(tv: Map<int, TagView>, nfuel: nat, s: Seq<i32>) -> bool {
    forall|a: int, b: int|
        0 <= a < b < s.len() ==> lex_le(
            spec_tag_order(tv, (#[trigger] s[a]) as int, nfuel),
            spec_tag_order(tv, (#[trigger] s[b]) as int, nfuel),
        )
}

/// Inserting an id at the boundary its scan found keeps the id list
/// sorted by order key.
pub proof fn lemma_sorted_insert_ids(
    tv: Map<int, TagView>,
    nfuel: nat,
    pre: Seq<i32>,
    id: i32,
    pos: int,
)
    requires
        0 <= pos <= pre.len(),
        tag_order_sorted(tv, nfuel, pre),
        forall|j: int|
            0 <= j < pos ==> lex_le(
                spec_tag_order(tv, (#[trigger] pre[j]) as int, nfuel),
                spec_tag_order(tv, id as int, nfuel),
            ),
        pos < pre.len() ==> lex_le(
            spec_tag_order(tv, id as int, nfuel),
            spec_tag_order(tv, pre[pos] as int, nfuel),
        ),
    ensures
        tag_order_sorted(tv, nfuel, pre.insert(pos, id)),
{
    pre.insert_ensures(pos, id);
    let post = pre.insert(pos, id);
    assert forall|a: int, b: int| 0 <= a < b < post.len() implies lex_le(
        spec_tag_order(tv, (#[trigger] post[a]) as int, nfuel),
        spec_tag_order(tv, (#[trigger] post[b]) as int, nfuel),
    ) by {
        if a == pos && b > pos {
            if b - 1 > pos {
                lemma_lex_trans(
                    spec_tag_order(tv, id as int, nfuel),
                    spec_tag_order(tv, pre[pos] as int, nfuel),
                    spec_tag_order(tv, pre[b - 1] as int, nfuel),
                );
            }
        }
    }
}

/// Inserting an id into a sequence adds it to the sequence's id set.
pub proof fn lemma_id_set_insert_at(s: Seq<i32>, pos: int, v: i32)
    requires
        0 <= pos <= s.len(),
    ensures
        crate::entry::id_set(s.insert(pos, v)) =~= crate::entry::id_set(s).insert(v as int),
{
    s.insert_ensures(pos, v);
    let post = s.insert(pos, v);
    assert forall|x: int| crate::entry::id_set(post).contains(x) implies crate::entry::id_set(
        s,
    ).insert(v as int).contains(x) by {
        crate::entry::lemma_id_set_contains(post, x);
        let i = choose|i: int| 0 <= i < post.len() && (#[trigger] post[i]) as int == x;
        crate::entry::lemma_id_set_contains(s, x);
        if i < pos {
            assert(s[i] as int == x);
        } else if i > pos {
            assert(s[i - 1] as int == x);
        }
    }
    assert forall|x: int| crate::entry::id_set(s).insert(v as int).contains(x)
        implies crate::entry::id_set(post).contains(x) by {
        crate::entry::lemma_id_set_contains(post, x);
        if x == v as int {
            assert(post[pos] as int == x);
        } else {
            crate::entry::lemma_id_set_contains(s, x);
            let i = choose|i: int| 0 <= i < s.len() && (#[trigger] s[i]) as int == x;
            if i < pos {
                assert(post[i] as int == x);
            } else {
                assert(post[i + 1] as int == x);
            }
        }
    }
}

/// Lexicographic order on position sequences: the empty sequence comes
/// first, then by the first differing position.
pub open spec fn lex_le(a: Seq<int>, b: Seq<int>) -> bool
    decreases a.len(),
{
    if a.len() == 0 {
        true
    } else if b.len() == 0 {
        false
    } else if a[0] < b[0] {
        true
    } else if a[0] > b[0] {
        false
    } else {
        lex_le(a.drop_first(), b.drop_first())
    }
}

/// The lexicographic order is total.
pub proof fn lemma_lex_total(a: Seq<int>, b: Seq<int>)
    ensures
        lex_le(a, b) || lex_le(b, a),
    decreases a.len(),
{
    if a.len() > 0 && b.len() > 0 && a[0] == b[0] {
        lemma_lex_total(a.drop_first(), b.drop_first());
    }
}

/// The lexicographic order is transitive.
pub proof fn lemma_lex_trans(a: Seq<int>, b: Seq<int>, c: Seq<int>)
    requires
        lex_le(a, b),
        lex_le(b, c),
    ensures
        lex_le(a, c),
    decreases a.len(),
{
    if a.len() > 0 && b.len() > 0 && c.len() > 0 && a[0] == b[0] && b[0] == c[0] {
        lemma_lex_trans(a.drop_first(), b.drop_first(), c.drop_first());
    }
}

/// Whether `a`'s positions come at or before `b`'s in lexicographic order.
pub fn lex_le_keys(a: &Vec<i32>, b: &Vec<i32>) -> (r: bool)
    ensures
        r == lex_le(int_seq(a@), int_seq(b@)),
{
    let ghost ga = int_seq(a@);
    let ghost gb = int_seq(b@);
    proof {
        assert(ga.skip(0) =~= ga);
        assert(gb.skip(0) =~= gb);
    }
    let n = a.len();
    let m = b.len();
    let mut i: usize = 0;
    while i < n && i < m
        invariant
            0 <= i <= n,
            0 <= i <= m,
            n == a@.len(),
            m == b@.len(),
            forall|j: int| 0 <= j < i ==> ga[j] == gb[j],
            lex_le(ga, gb) == lex_le(ga.skip(i as int), gb.skip(i as int)),
        decreases n - i,
    {
        if a[i] < b[i] {
            proof {
                assert(ga.skip(i as int)[0] < gb.skip(i as int)[0]);
            }
            return true;
        }
        if a[i] > b[i] {
            proof {
                assert(ga.skip(i as int)[0] > gb.skip(i as int)[0]);
            }
            return false;
        }
        proof {
            assert(ga.skip(i as int)[0] == gb.skip(i as int)[0]);
            assert(ga.skip(i as int).drop_first() =~= ga.skip(i + 1));
            assert(gb.skip(i as int).drop_first() =~= gb.skip(i + 1));
        }
        i += 1;
    }
    proof {
        if i >= n {
            assert(ga.skip(i as int).len() == 0);
        } else {
            assert(gb.skip(i as int).len() == 0);
            assert(ga.skip(i as int).len() > 0);
        }
    }
    n <= m
}

/// A position vector as a sequence of integers.
pub open spec fn int_seq(s: Seq<i32>) -> Seq<int> {
    s.map_values(|x: i32| x as int)
}

/// A position vector read back to front, as a sequence of integers.
pub open spec fn rev_int_seq(s: Seq<i32>) -> Seq<int> {
    Seq::new(s.len(), |k: int| s[s.len() - 1 - k] as int)
}

/// The positions along the parent chain from the root down to `id`: the
/// sort key of the tag listing. The walk stops at the root, at a missing
/// tag, or when the fuel — the tag count, which a well-formed tree never
/// exhausts — runs out.
pub open spec fn spec_tag_order(tv: Map<int, TagView>, id: int, fuel: nat) -> Seq<int>
    decreases fuel,
{
    if id == ROOT_TAG_ID as int || fuel == 0 || !tv.contains_key(id) {
        Seq::empty()
    } else {
        spec_tag_order(tv, tv[id].parent, (fuel - 1) as nat).push(tv[id].pos)
    }
}

/// The set of ids named by a sequence (an alias kept close to its use).
pub open spec fn id_set_of(s: Seq<i32>) -> Set<int> {
    crate::entry::id_set(s)
}

/// In a well-formed tag tree every position below the child count is
/// taken: distinct positions inside `0..k` over `k` children leave no
/// hole.
pub proof fn lemma_positions_cover(tv: Map<int, TagView>, parent: int, p: int)
    requires
        crate::tag::tags_wf(tv),
        0 <= p < tag_children(tv, parent).len(),
    ensures
        exists|c: int| #[trigger] tag_children(tv, parent).contains(c) && tv[c].pos == p,
{
    let children = tag_children(tv, parent);
    crate::tag::lemma_tag_children_finite(tv, parent);
    if !(exists|c: int| #[trigger] children.contains(c) && tv[c].pos == p) {
        let positions = children.map(|c: int| tv[c].pos);
        let bounded = Set::new(|q: int| 0 <= q < children.len() && q != p);
        lemma_image_len(children, |c: int| tv[c].pos);
        assert(positions.subset_of(bounded)) by {
            assert forall|q: int| #[trigger] positions.contains(q) implies bounded.contains(q) by {
                let c = choose|c: int| #[trigger] children.contains(c) && tv[c].pos == q;
                assert(0 <= tv[c].pos < children.len());
            }
        }
        assert(bounded.subset_of(Set::new(|q: int| 0 <= q < children.len())));
        lemma_range_len(children.len() as int, p);
        crate::tag::lemma_subset_len(positions, bounded);
        assert(positions.len() == children.len()) by {
            lemma_image_len_injective(children, |c: int| tv[c].pos);
        }
        assert(false);
    }
}

/// The image of a finite set is finite and no larger.
pub proof fn lemma_image_len<A, B>(s: Set<A>, f: spec_fn(A) -> B)
    requires
        s.finite(),
    ensures
        s.map(f).finite(),
        s.map(f).len() <= s.len(),
    decreases s.len(),
{
    if s.len() == 0 {
        assert(s.map(f) =~= Set::<B>::empty());
    } else {
        let a = s.choose();
        lemma_image_len(s.remove(a), f);
        assert(s.map(f) =~= s.remove(a).map(f).insert(f(a)));
    }
}

/// An injective image keeps the cardinality.
pub proof fn lemma_image_len_injective(s: Set<int>, f: spec_fn(int) -> int)
    requires
        s.finite(),
        forall|a: int, b: int| s.contains(a) && s.contains(b) && a != b ==> f(a) != f(b),
    ensures
        s.map(f).finite(),
        s.map(f).len() == s.len(),
    decreases s.len(),
{
    if s.len() == 0 {
        assert(s.map(f) =~= Set::<int>::empty());
    } else {
        let a = s.choose();
        lemma_image_len_injective(s.remove(a), f);
        assert(s.map(f) =~= s.remove(a).map(f).insert(f(a)));
        assert(!s.remove(a).map(f).contains(f(a))) by {
            if s.remove(a).map(f).contains(f(a)) {
                let b = choose|b: int| #[trigger] s.remove(a).contains(b) && f(b) == f(a);
                assert(f(b) != f(a));
            }
        }
    }
}

/// A bounded integer range with one value taken out has one member fewer
/// than the range is long.
pub proof fn lemma_range_len(n: int, p: int)
    requires
        0 <= p < n,
    ensures
        Set::new(|q: int| 0 <= q < n).finite(),
        Set::new(|q: int| 0 <= q < n).len() == n,
        Set::new(|q: int| 0 <= q < n && q != p).finite(),
        Set::new(|q: int| 0 <= q < n && q != p).len() == n - 1,
{
    vstd::set_lib::lemma_int_range(0, n);
    assert(Set::new(|q: int| 0 <= q < n && q != p) =~= vstd::set_lib::set_int_range(0, n).remove(
        p,
    ));
    assert(Set::new(|q: int| 0 <= q < n) =~= vstd::set_lib::set_int_range(0, n));
}

} // verus!
