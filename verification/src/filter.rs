use crate::entry::{id_set, EntryId, EntryView};
use crate::folder::{FolderId, FolderView, ROOT_FOLDER_ID};
use crate::folder_remove::is_removed_folder_set;
use crate::model::DatabaseData;
use crate::tag::{TagId, TagView, ROOT_TAG_ID};
use crate::tag_delete::is_deleted_tag_set;
use vstd::prelude::*;

verus! {

/// A query against the catalog: a free-text search, a tag disjunction and
/// a folder restriction, composed by conjunction. Empty criteria mean no
/// filtering at all.
pub struct Filter {
    pub search: String,
    pub tag_ids: Vec<TagId>,
    pub include_child_tags: bool,
    pub folder_id: Option<FolderId>,
    pub include_subfolders: bool,
}

/// The UTF-8 bytes of a string's lower-case form, which depends on the
/// characters alone.
pub uninterp spec fn lower_bytes_of(s: Seq<char>) -> Seq<u8>;

/// Relies on str::to_lowercase and String::into_bytes: the lower-case form
/// depends on the characters alone, in every process and on every machine.
#[verifier::external_body]
fn lowercase_bytes(s: &str) -> (r: Vec<u8>)
    ensures
        r@ == lower_bytes_of(s@),
{
    s.to_lowercase().into_bytes()
}

/// `n` occurs as a contiguous run inside `h`.
pub open spec fn contains_bytes(h: Seq<u8>, n: Seq<u8>) -> bool {
    exists|k: int| 0 <= k <= h.len() - n.len() && #[trigger] h.subrange(k, k + n.len()) =~= n
}

/// Whether `n` occurs as a contiguous run inside `h`.
pub fn bytes_contains(h: &Vec<u8>, n: &Vec<u8>) -> (r: bool)
    ensures
        r == contains_bytes(h@, n@),
{
    let hl = h.len();
    let nl = n.len();
    if nl > hl {
        proof {
            assert(!contains_bytes(h@, n@));
        }
        return false;
    }
    let mut k: usize = 0;
    while k <= hl - nl
        invariant
            0 <= k <= hl - nl + 1,
            nl <= hl,
            hl == h@.len(),
            nl == n@.len(),
            forall|k2: int| 0 <= k2 < k ==> !(#[trigger] h@.subrange(k2, k2 + n@.len()) =~= n@),
        decreases hl - nl - k + 1,
    {
        let mut j: usize = 0;
        let mut all = true;
        while j < nl
            invariant
                0 <= j <= nl,
                k + nl <= hl,
                all ==> forall|j2: int| 0 <= j2 < j ==> h@[k + j2] == n@[j2],
                !all ==> !(h@.subrange(k as int, k + n@.len()) =~= n@),
            decreases nl - j,
        {
            if h[k + j] != n[j] {
                all = false;
                proof {
                    assert(h@.subrange(k as int, k + n@.len())[j as int] != n@[j as int]);
                }
                break ;
            }
            j += 1;
        }
        if all {
            proof {
                assert(h@.subrange(k as int, k + n@.len()) =~= n@);
            }
            return true;
        }
        k += 1;
    }
    proof {
        if contains_bytes(h@, n@) {
            let k2 = choose|k2: int|
                0 <= k2 <= h@.len() - n@.len() && #[trigger] h@.subrange(k2, k2 + n@.len()) =~= n@;
            assert(!(h@.subrange(k2, k2 + n@.len()) =~= n@));
        }
    }
    false
}

/// The entry's text matches the lowered search bytes: the search occurs in
/// the lower-case file name, or in the lower-case title, artist or album
/// when present.
pub open spec fn search_matches(e: EntryView, s: Seq<u8>) -> bool {
    ||| contains_bytes(lower_bytes_of(e.file_name), s)
    ||| (match e.metadata {
        Some(m) => {
            ||| (match m.title {
                Some(t) => contains_bytes(lower_bytes_of(t@), s),
                None => false,
            })
            ||| (match m.artist {
                Some(t) => contains_bytes(lower_bytes_of(t@), s),
                None => false,
            })
            ||| (match m.album {
                Some(t) => contains_bytes(lower_bytes_of(t@), s),
                None => false,
            })
        },
        None => false,
    })
}

/// Each listed tag paired with its saturated subtree.
pub open spec fn is_subtree_parts(
    tv: Map<int, TagView>,
    roots: Seq<i32>,
    parts: Seq<Set<int>>,
) -> bool {
    parts.len() == roots.len() && forall|i: int|
        0 <= i < roots.len() ==> is_deleted_tag_set(tv, roots[i] as int, #[trigger] parts[i])
}

/// The union of a sequence of sets.
pub open spec fn union_of(parts: Seq<Set<int>>) -> Set<int>
    decreases parts.len(),
{
    if parts.len() == 0 {
        Set::empty()
    } else {
        union_of(parts.drop_last()).union(parts.last())
    }
}

/// `u` is the union of the subtrees of the listed tags — or the listed ids
/// themselves when `deep` is off.
pub open spec fn tag_expansion(
    tv: Map<int, TagView>,
    roots: Seq<i32>,
    deep: bool,
    u: Set<int>,
) -> bool {
    if deep {
        exists|parts: Seq<Set<int>>|
            #[trigger] is_subtree_parts(tv, roots, parts) && u =~= union_of(parts)
    } else {
        u =~= id_set(roots)
    }
}

/// What the folder criterion admits: nothing is filtered, or the entry's
/// folder must lie in the given set.
pub open spec fn folder_expansion(
    fv: Map<int, FolderView>,
    folder_id: Option<FolderId>,
    include_subfolders: bool,
    fs: Option<Set<int>>,
) -> bool {
    match folder_id {
        None => fs is None,
        Some(fid) => if fid == ROOT_FOLDER_ID && include_subfolders {
            fs is None
        } else if include_subfolders {
            fs matches Some(s) && is_removed_folder_set(fv, fid as int, s)
        } else {
            fs matches Some(s) && s =~= Set::<int>::empty().insert(fid as int)
        },
    }
}

/// One entry against the three criteria.
pub open spec fn entry_matches(
    e: EntryView,
    search_empty: bool,
    s: Seq<u8>,
    tags_empty: bool,
    expanded: Set<int>,
    fs: Option<Set<int>>,
) -> bool {
    &&& (match fs {
        Some(set) => set.contains(e.folder),
        None => true,
    })
    &&& (tags_empty || !e.tags.disjoint(expanded))
    &&& (search_empty || search_matches(e, s))
}


impl DatabaseData {
    /// The subtrees of the listed tags as one vector, for the tag
    /// criterion.
    fn expand_tags(&self, tag_ids: &Vec<TagId>, deep: bool) -> (r: Vec<TagId>)
        requires
            self.wf(),
            deep ==> forall|i: int|
                0 <= i < tag_ids@.len() ==> self.tags_view().contains_key(
                    (#[trigger] tag_ids@[i]) as int,
                ) && tag_ids@[i] != ROOT_TAG_ID,
        ensures
            tag_expansion(self.tags_view(), tag_ids@, deep, id_set(r@)),
    {
        let n = tag_ids.len();
        let mut out: Vec<TagId> = Vec::new();
        if !deep {
            let mut i: usize = 0;
            while i < n
                invariant
                    0 <= i <= n,
                    n == tag_ids@.len(),
                    id_set(out@) =~= id_set(tag_ids@.take(i as int)),
                decreases n - i,
            {
                let ghost pre = out@;
                out.push(tag_ids[i]);
                proof {
                    crate::entry::lemma_id_set_push(pre, tag_ids@[i as int]);
                    assert(tag_ids@.take(i + 1).drop_last() =~= tag_ids@.take(i as int));
                    crate::entry::lemma_id_set_push(tag_ids@.take(i as int), tag_ids@[i as int]);
                    assert(tag_ids@.take(i + 1) =~= tag_ids@.take(i as int).push(
                        tag_ids@[i as int],
                    ));
                }
                i += 1;
            }
            proof {
                assert(tag_ids@.take(n as int) =~= tag_ids@);
            }
            return out;
        }
        let ghost mut parts: Seq<Set<int>> = Seq::empty();
        let mut i: usize = 0;
        while i < n
            invariant
                0 <= i <= n,
                n == tag_ids@.len(),
                parts.len() == i,
                forall|j: int|
                    0 <= j < i ==> is_deleted_tag_set(
                        self.tags_view(),
                        tag_ids@[j] as int,
                        #[trigger] parts[j],
                    ),
                id_set(out@) =~= union_of(parts),
            decreases n - i,
        {
            let sub = self.collect_tag_subtree(tag_ids[i]);
            let ghost pre = out@;
            let m = sub.len();
            let mut j: usize = 0;
            while j < m
                invariant
                    0 <= j <= m,
                    m == sub@.len(),
                    id_set(out@) =~= id_set(pre).union(id_set(sub@.take(j as int))),
                decreases m - j,
            {
                let ghost mid = out@;
                out.push(sub[j]);
                proof {
                    crate::entry::lemma_id_set_push(mid, sub@[j as int]);
                    assert(sub@.take(j + 1).drop_last() =~= sub@.take(j as int));
                    crate::entry::lemma_id_set_push(sub@.take(j as int), sub@[j as int]);
                    assert(sub@.take(j + 1) =~= sub@.take(j as int).push(sub@[j as int]));
                    assert(id_set(out@) =~= id_set(pre).union(id_set(sub@.take(j + 1))));
                }
                j += 1;
            }
            proof {
                assert(sub@.take(m as int) =~= sub@);
                let parts0 = parts;
                parts = parts0.push(id_set(sub@));
                assert(parts.drop_last() =~= parts0);
                assert(parts.last() == id_set(sub@));
                assert(union_of(parts) =~= union_of(parts0).union(id_set(sub@)));
                assert(id_set(out@) =~= union_of(parts));
            }
            i += 1;
        }
        proof {
            assert(is_subtree_parts(self.tags_view(), tag_ids@, parts));
            assert(tag_expansion(self.tags_view(), tag_ids@, deep, id_set(out@)));
        }
        out
    }

    /// Evaluate a filter. An entirely empty filter means "no filter" and
    /// yields `None`; otherwise the result holds exactly the ids of the
    /// entries that meet every given criterion — the folder restriction,
    /// the tag disjunction, and the case-insensitive text search.
    pub fn filter(&self, f: &Filter) -> (r: Option<Vec<EntryId>>)
        requires
            self.wf(),
            f.include_child_tags ==> forall|i: int|
                0 <= i < f.tag_ids@.len() ==> self.tags_view().contains_key(
                    (#[trigger] f.tag_ids@[i]) as int,
                ) && f.tag_ids@[i] != ROOT_TAG_ID,
            f.folder_id matches Some(fid) ==> self.folders_view().contains_key(fid as int),
        ensures
            match r {
                None => f.search@.len() == 0 && f.tag_ids@.len() == 0 && folder_expansion(
                    self.folders_view(),
                    f.folder_id,
                    f.include_subfolders,
                    None,
                ),
                Some(v) => !(f.search@.len() == 0 && f.tag_ids@.len() == 0 && folder_expansion(
                    self.folders_view(),
                    f.folder_id,
                    f.include_subfolders,
                    None,
                )) && (exists|expanded: Set<int>, fs: Option<Set<int>>|
                    #[trigger] tag_expansion(
                        self.tags_view(),
                        f.tag_ids@,
                        f.include_child_tags,
                        expanded,
                    ) && #[trigger] folder_expansion(
                        self.folders_view(),
                        f.folder_id,
                        f.include_subfolders,
                        fs,
                    ) && (forall|e: int| #[trigger]
                        self.entries_view().contains_key(e) ==> (id_set(v@).contains(e)
                            <==> entry_matches(
                            self.entries_view()[e],
                            f.search@.len() == 0,
                            lower_bytes_of(f.search@),
                            f.tag_ids@.len() == 0,
                            expanded,
                            fs,
                        ))) && (forall|j: int|
                        0 <= j < v@.len() ==> self.entries_view().contains_key(
                            (#[trigger] v@[j]) as int,
                        )) && (forall|a: int, b: int|
                        0 <= a < b < v@.len() ==> (#[trigger] v@[a]) != (#[trigger] v@[b]))),
            },
    {
        let ghost tv = self.tags_view();
        let ghost fv = self.folders_view();
        let expanded = self.expand_tags(&f.tag_ids, f.include_child_tags);
        let folder_set: Option<Vec<FolderId>> = match f.folder_id {
            None => None,
            Some(fid) => {
                if fid == ROOT_FOLDER_ID && f.include_subfolders {
                    None
                } else if f.include_subfolders {
                    if fid == ROOT_FOLDER_ID {
                        None
                    } else {
                        Some(self.collect_folder_subtree(fid))
                    }
                } else {
                    let mut one: Vec<FolderId> = Vec::new();
                    one.push(fid);
                    proof {
                        crate::entry::lemma_id_set_push(Seq::empty(), fid);
                    }
                    Some(one)
                }
            },
        };
        let search_empty = f.search.as_str().unicode_len() == 0;
        let no_folder = folder_set.is_none();
        if search_empty && f.tag_ids.len() == 0 && no_folder {
            proof {
                assert(folder_expansion(fv, f.folder_id, f.include_subfolders, None));
            }
            return None;
        }
        let ghost gfs: Option<Set<int>> = if folder_set is Some {
            Some(id_set(folder_set->Some_0@))
        } else {
            None
        };
        let search_l = lowercase_bytes(f.search.as_str());
        let tags_empty = f.tag_ids.len() == 0;
        proof {
            self.entries.lemma_entries();
        }
        let en = self.entries.len();
        let mut out: Vec<EntryId> = Vec::new();
        let mut i: usize = 0;
        while i < en
            invariant
                0 <= i <= en,
                en == self.entries.entries().len(),
                forall|j: int|
                    0 <= j < out@.len() ==> self.entries_view().contains_key(
                        (#[trigger] out@[j]) as int,
                    ),
                forall|j: int|
                    0 <= j < i ==> {
                        let k = (#[trigger] self.entries.entries()[j]).0 as int;
                        id_set(out@).contains(k) <==> entry_matches(
                            self.entries_view()[k],
                            f.search@.len() == 0,
                            lower_bytes_of(f.search@),
                            f.tag_ids@.len() == 0,
                            id_set(expanded@),
                            gfs,
                        )
                    },
                forall|x: int| #[trigger]
                    id_set(out@).contains(x) ==> exists|j: int|
                        0 <= j < i && (#[trigger] self.entries.entries()[j]).0 as int == x,
                forall|a: int, b: int|
                    0 <= a < b < out@.len() ==> (#[trigger] out@[a]) != (#[trigger] out@[b]),
            decreases en - i,
        {
            let (k, e) = self.entries.entry_at(i);
            proof {
                assert(self.entries_view()[k as int] == self.entries.entries()[i as int].1@);
            }
            let mut keep = true;
            match &folder_set {
                Some(fset) => {
                    if !crate::entry::vec_contains_id(fset, e.folder_id) {
                        keep = false;
                    }
                },
                None => {},
            }
            if keep && !tags_empty {
                let mut hit = false;
                let tn = e.tag_ids.len();
                let mut t: usize = 0;
                while t < tn
                    invariant
                        0 <= t <= tn,
                        tn == e.tag_ids@.len(),
                        hit ==> exists|x: int|
                            #[trigger] id_set(e.tag_ids@).contains(x) && id_set(
                                expanded@,
                            ).contains(x),
                        !hit ==> forall|j2: int|
                            0 <= j2 < t ==> !id_set(expanded@).contains(
                                (#[trigger] e.tag_ids@[j2]) as int,
                            ),
                    decreases tn - t,
                {
                    if crate::entry::vec_contains_id(&expanded, e.tag_ids[t]) {
                        hit = true;
                        proof {
                            crate::entry::lemma_id_set_contains(e.tag_ids@, e.tag_ids@[t as int] as int);
                            assert(id_set(e.tag_ids@).contains(e.tag_ids@[t as int] as int));
                        }
                        break ;
                    }
                    t += 1;
                }
                proof {
                    if !hit {
                        assert forall|x: int|
                            #[trigger] id_set(e.tag_ids@).contains(x) && id_set(
                                expanded@,
                            ).contains(x) implies false by {
                            crate::entry::lemma_id_set_contains(e.tag_ids@, x);
                            let j2 = choose|j2: int|
                                0 <= j2 < e.tag_ids@.len() && (#[trigger] e.tag_ids@[j2]) as int
                                    == x;
                        }
                        assert(id_set(e.tag_ids@).disjoint(id_set(expanded@)));
                    }
                }
                if !hit {
                    keep = false;
                }
            }
            if keep && !search_empty {
                let mut m = false;
                let fname_l = lowercase_bytes(e.file_name.as_str());
                if bytes_contains(&fname_l, &search_l) {
                    m = true;
                }
                match &e.metadata {
                    Some(md) => {
                        match &md.title {
                            Some(tstr) => {
                                let tl = lowercase_bytes(tstr.as_str());
                                if bytes_contains(&tl, &search_l) {
                                    m = true;
                                }
                            },
                            None => {},
                        }
                        match &md.artist {
                            Some(tstr) => {
                                let tl = lowercase_bytes(tstr.as_str());
                                if bytes_contains(&tl, &search_l) {
                                    m = true;
                                }
                            },
                            None => {},
                        }
                        match &md.album {
                            Some(tstr) => {
                                let tl = lowercase_bytes(tstr.as_str());
                                if bytes_contains(&tl, &search_l) {
                                    m = true;
                                }
                            },
                            None => {},
                        }
                    },
                    None => {},
                }
                if !m {
                    keep = false;
                }
            }
            let ghost pre = out@;
            if keep {
                out.push(k);
                proof {
                    crate::entry::lemma_id_set_push(pre, k);
                    assert forall|a: int, b: int| 0 <= a < b < out@.len() implies (
                    #[trigger] out@[a]) != (#[trigger] out@[b]) by {
                        if b == out@.len() - 1 {
                            if pre[a] == k {
                                crate::entry::lemma_id_set_contains(pre, k as int);
                                assert(id_set(pre).contains(k as int));
                                let j = choose|j: int|
                                    0 <= j < i && (#[trigger] self.entries.entries()[j]).0 as int
                                        == k as int;
                                assert(false);
                            }
                        }
                    }
                }
            }
            proof {
                assert forall|j: int| 0 <= j < i + 1 implies {
                    let kk = (#[trigger] self.entries.entries()[j]).0 as int;
                    id_set(out@).contains(kk) <==> entry_matches(
                        self.entries_view()[kk],
                        f.search@.len() == 0,
                        lower_bytes_of(f.search@),
                        f.tag_ids@.len() == 0,
                        id_set(expanded@),
                        gfs,
                    )
                } by {
                    let kk = self.entries.entries()[j].0 as int;
                    if j < i {
                        if kk == k as int {
                            assert(false);
                        }
                        if keep {
                            assert(id_set(out@).contains(kk) <==> id_set(pre).contains(kk));
                        }
                    } else {
                        assert(kk == k as int);
                        if !keep {
                            if id_set(out@).contains(kk) {
                                let j2 = choose|j2: int|
                                    0 <= j2 < i && (#[trigger] self.entries.entries()[j2]).0 as int
                                        == kk;
                                assert(false);
                            }
                        }
                    }
                }
                assert forall|x: int| #[trigger] id_set(out@).contains(x) implies exists|j: int|
                    0 <= j < i + 1 && (#[trigger] self.entries.entries()[j]).0 as int == x by {
                    if !id_set(pre).contains(x) {
                        assert(keep && x == k as int);
                        assert(self.entries.entries()[i as int].0 as int == x);
                    } else {
                        let j = choose|j: int|
                            0 <= j < i && (#[trigger] self.entries.entries()[j]).0 as int == x;
                    }
                }
            }
            i += 1;
        }
        proof {
            assert forall|e2: int| #[trigger] self.entries_view().contains_key(e2) implies (id_set(
                out@,
            ).contains(e2) <==> entry_matches(
                self.entries_view()[e2],
                f.search@.len() == 0,
                lower_bytes_of(f.search@),
                f.tag_ids@.len() == 0,
                id_set(expanded@),
                gfs,
            )) by {
                let j = choose|j: int|
                    0 <= j < self.entries.entries().len() && (#[trigger] self.entries.entries()[j]).0
                        == e2;
                assert(self.entries.entries()[j].0 as int == e2);
            }
            assert(folder_expansion(fv, f.folder_id, f.include_subfolders, gfs));
        }
        Some(out)
    }
}

} // verus!
