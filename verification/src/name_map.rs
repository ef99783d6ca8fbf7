use vstd::pervasive::unreached;
use vstd::prelude::*;

verus! {

/// An association list from names to `i32` identifiers, with unique names.
/// A folder keeps one for its sub-folders and one for its entries.
pub struct NameMap {
    pairs: Vec<(String, i32)>,
}

/// The map described by a name/id sequence; later pairs win, though the
/// `NameMap` invariant keeps names unique so the order never matters.
pub open spec fn name_map_of(s: Seq<(String, i32)>) -> Map<Seq<char>, i32>
    decreases s.len(),
{
    if s.len() == 0 {
        Map::empty()
    } else {
        name_map_of(s.drop_last()).insert(s.last().0@, s.last().1)
    }
}

/// Names of a name/id sequence are pairwise distinct.
pub open spec fn unique_names(s: Seq<(String, i32)>) -> bool {
    forall|i: int, j: int|
        0 <= i < j < s.len() ==> (#[trigger] s[i]).0@ != (#[trigger] s[j]).0@
}

pub proof fn lemma_name_map_contains(s: Seq<(String, i32)>, k: Seq<char>)
    ensures
        name_map_of(s).contains_key(k) <==> exists|i: int|
            0 <= i < s.len() && (#[trigger] s[i]).0@ == k,
    decreases s.len(),
{
    if s.len() > 0 {
        lemma_name_map_contains(s.drop_last(), k);
        if s.last().0@ == k {
            assert(s[s.len() - 1].0@ == k);
        } else if name_map_of(s).contains_key(k) {
            let i = choose|i: int|
                0 <= i < s.drop_last().len() && (#[trigger] s.drop_last()[i]).0@ == k;
            assert(s[i].0@ == k);
        } else {
            assert forall|i: int| 0 <= i < s.len() && (#[trigger] s[i]).0@ == k implies false by {
                if i < s.len() - 1 {
                    assert(s.drop_last()[i].0@ == k);
                }
            }
        }
    }
}

pub proof fn lemma_name_map_get(s: Seq<(String, i32)>, i: int)
    requires
        unique_names(s),
        0 <= i < s.len(),
    ensures
        name_map_of(s).contains_key(s[i].0@),
        name_map_of(s)[s[i].0@] == s[i].1,
    decreases s.len(),
{
    lemma_name_map_contains(s, s[i].0@);
    if i < s.len() - 1 {
        assert(s.drop_last()[i] == s[i]);
        lemma_name_map_get(s.drop_last(), i);
        assert(s.last().0@ != s[i].0@);
    }
}

pub proof fn lemma_name_map_finite(s: Seq<(String, i32)>)
    ensures
        name_map_of(s).dom().finite(),
        name_map_of(s).dom().len() <= s.len(),
        unique_names(s) ==> name_map_of(s).dom().len() == s.len(),
    decreases s.len(),
{
    if s.len() == 0 {
        assert(name_map_of(s).dom() =~= Set::<Seq<char>>::empty());
    } else {
        lemma_name_map_finite(s.drop_last());
        if unique_names(s) {
            assert(unique_names(s.drop_last()));
            lemma_name_map_contains(s.drop_last(), s.last().0@);
            assert forall|i: int| 0 <= i < s.drop_last().len()
                implies (#[trigger] s.drop_last()[i]).0@ != s.last().0@ by {
                assert(s[i] == s.drop_last()[i]);
            }
            assert(!name_map_of(s.drop_last()).contains_key(s.last().0@));
        }
    }
}

pub proof fn lemma_name_map_remove(s: Seq<(String, i32)>, i: int)
    requires
        unique_names(s),
        0 <= i < s.len(),
    ensures
        name_map_of(s.remove(i)) =~= name_map_of(s).remove(s[i].0@),
    decreases s.len(),
{
    let k = s[i].0@;
    if i == s.len() - 1 {
        assert(s.remove(i) =~= s.drop_last());
        lemma_name_map_contains(s.drop_last(), k);
        assert forall|j: int| 0 <= j < s.drop_last().len()
            implies (#[trigger] s.drop_last()[j]).0@ != k by {
            assert(s[j] == s.drop_last()[j]);
        }
        assert(!name_map_of(s.drop_last()).contains_key(k));
        assert(name_map_of(s.drop_last()) =~= name_map_of(s.drop_last()).remove(k));
    } else {
        assert(s.remove(i).drop_last() =~= s.drop_last().remove(i));
        assert(s.drop_last()[i] == s[i]);
        lemma_name_map_remove(s.drop_last(), i);
        assert(s.remove(i).last() == s.last());
        assert(s.last().0@ != k);
    }
}

impl NameMap {
    pub closed spec fn view(&self) -> Map<Seq<char>, i32> {
        name_map_of(self.pairs@)
    }

    /// The underlying pair sequence, for iteration-style reasoning.
    pub closed spec fn entries(&self) -> Seq<(String, i32)> {
        self.pairs@
    }

    pub closed spec fn inv(&self) -> bool {
        unique_names(self.pairs@)
    }

    pub proof fn lemma_entries(&self)
        requires
            self.inv(),
        ensures
            self@.dom().finite(),
            self@.dom().len() == self.entries().len(),
            forall|i: int, j: int|
                0 <= i < j < self.entries().len() ==> (#[trigger] self.entries()[i]).0@ != (
                #[trigger] self.entries()[j]).0@,
            forall|i: int|
                0 <= i < self.entries().len() ==> self@.contains_key(
                    (#[trigger] self.entries()[i]).0@,
                ) && self@[self.entries()[i].0@] == self.entries()[i].1,
            forall|k: Seq<char>|
                self@.contains_key(k) ==> exists|i: int|
                    0 <= i < self.entries().len() && (#[trigger] self.entries()[i]).0@ == k,
    {
        lemma_name_map_finite(self.pairs@);
        assert forall|i: int| 0 <= i < self.entries().len() implies self@.contains_key(
            (#[trigger] self.entries()[i]).0@,
        ) && self@[self.entries()[i].0@] == self.entries()[i].1 by {
            lemma_name_map_get(self.pairs@, i);
        }
        assert forall|k: Seq<char>| self@.contains_key(k) implies exists|i: int|
            0 <= i < self.entries().len() && (#[trigger] self.entries()[i]).0@ == k by {
            lemma_name_map_contains(self.pairs@, k);
            let i = choose|i: int|
                0 <= i < self.pairs@.len() && (#[trigger] self.pairs@[i]).0@ == k;
            assert(0 <= i < self.entries().len() && self.entries()[i].0@ == k);
        }
    }

    /// An equal copy of this map.
    pub fn duplicate(&self) -> (r: NameMap)
        requires
            self.inv(),
        ensures
            r@ == self@,
            r.entries() == self.entries(),
            r.inv(),
    {
        let n = self.pairs.len();
        let mut pairs: Vec<(String, i32)> = Vec::new();
        let mut i: usize = 0;
        while i < n
            invariant
                0 <= i <= n,
                pairs@ =~= self.pairs@.take(i as int),
            decreases n - i,
        {
            pairs.push((self.pairs[i].0.clone(), self.pairs[i].1));
            proof {
                assert(self.pairs@.take(i + 1).drop_last() =~= self.pairs@.take(i as int));
                assert(self.pairs@.take(i + 1).last() == self.pairs@[i as int]);
                assert(pairs@ =~= self.pairs@.take(i + 1));
            }
            i += 1;
        }
        proof {
            assert(self.pairs@.take(n as int) =~= self.pairs@);
        }
        NameMap { pairs }
    }

    pub fn new() -> (r: Self)
        ensures
            r@ == Map::<Seq<char>, i32>::empty(),
            r.inv(),
    {
        NameMap { pairs: Vec::new() }
    }

    pub fn len(&self) -> (r: usize)
        requires
            self.inv(),
        ensures
            r == self@.dom().len(),
            r == self.entries().len(),
    {
        proof {
            lemma_name_map_finite(self.pairs@);
        }
        self.pairs.len()
    }

    pub fn get(&self, name: &String) -> (r: Option<i32>)
        requires
            self.inv(),
        ensures
            match r {
                Some(id) => self@.contains_key(name@) && id == self@[name@],
                None => !self@.contains_key(name@),
            },
    {
        proof {
            lemma_name_map_contains(self.pairs@, name@);
        }
        let n = self.pairs.len();
        let mut i: usize = 0;
        while i < n
            invariant
                0 <= i <= n,
                forall|j: int| 0 <= j < i ==> (#[trigger] self.pairs@[j]).0@ != name@,
            decreases n - i,
        {
            if self.pairs[i].0 == *name {
                proof {
                    assert(self.pairs@[i as int].0@ == name@);
                    lemma_name_map_get(self.pairs@, i as int);
                }
                return Some(self.pairs[i].1);
            }
            i += 1;
        }
        None
    }

    pub fn contains(&self, name: &String) -> (r: bool)
        requires
            self.inv(),
        ensures
            r == self@.contains_key(name@),
    {
        self.get(name).is_some()
    }

    /// The name/id pair at an index, for walking all children of a folder.
    pub fn entry_at(&self, i: usize) -> (r: (&String, i32))
        requires
            self.inv(),
            i < self.entries().len(),
        ensures
            *r.0 == self.entries()[i as int].0,
            r.1 == self.entries()[i as int].1,
            self@.contains_key(r.0@),
            self@[r.0@] == r.1,
    {
        proof {
            lemma_name_map_get(self.pairs@, i as int);
        }
        (&self.pairs[i].0, self.pairs[i].1)
    }

    /// Insert a binding for a name that is not yet present.
    pub fn insert_new(&mut self, name: String, id: i32)
        requires
            old(self).inv(),
            !old(self)@.contains_key(name@),
        ensures
            final(self).inv(),
            final(self)@ == old(self)@.insert(name@, id),
            final(self).entries() == old(self).entries().push((name, id)),
    {
        proof {
            lemma_name_map_contains(self.pairs@, name@);
        }
        let ghost gname = name@;
        self.pairs.push((name, id));
        proof {
            assert(self.pairs@.drop_last() =~= old(self).pairs@);
            assert forall|a: int, b: int| 0 <= a < b < self.pairs@.len() implies (
            #[trigger] self.pairs@[a]).0@ != (#[trigger] self.pairs@[b]).0@ by {
                if b == self.pairs@.len() - 1 {
                    assert(old(self).pairs@[a].0@ != gname);
                }
            }
        }
    }

    /// Remove the binding of a name that is present.
    pub fn remove(&mut self, name: &String)
        requires
            old(self).inv(),
            old(self)@.contains_key(name@),
        ensures
            final(self).inv(),
            final(self)@ == old(self)@.remove(name@),
            final(self).entries().len() + 1 == old(self).entries().len(),
    {
        let idx = match self.index_of(name) {
            Some(i) => i,
            None => unreached(),
        };
        self.pairs.remove(idx);
        proof {
            assert(self.pairs@ == old(self).pairs@.remove(idx as int));
            lemma_name_map_remove(old(self).pairs@, idx as int);
        }
    }

    /// Index of the pair holding `name`, usable with `entry_at`.
    pub fn index_of(&self, name: &String) -> (r: Option<usize>)
        requires
            self.inv(),
        ensures
            match r {
                Some(i) => i < self.entries().len() && self.entries()[i as int].0@ == name@,
                None => !self@.contains_key(name@),
            },
    {
        proof {
            lemma_name_map_contains(self.pairs@, name@);
        }
        let n = self.pairs.len();
        let mut i: usize = 0;
        while i < n
            invariant
                0 <= i <= n,
                forall|j: int| 0 <= j < i ==> (#[trigger] self.pairs@[j]).0@ != name@,
            decreases n - i,
        {
            if self.pairs[i].0 == *name {
                proof {
                    assert(self.pairs@[i as int].0@ == name@);
                }
                return Some(i);
            }
            i += 1;
        }
        None
    }
}

} // verus!
