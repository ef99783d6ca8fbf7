use vstd::pervasive::unreached;
use vstd::prelude::*;

verus! {

/// An association list from `i32` identifiers to values, with unique keys.
/// Catalog ids come from the persistent store's integer primary keys, so a
/// small map keyed by `i32` is all the model needs.
pub struct IdMap<V> {
    pairs: Vec<(i32, V)>,
}

/// The map described by a key/value sequence: later pairs win, though the
/// `IdMap` invariant keeps keys unique so the order never matters.
pub open spec fn map_of<V>(s: Seq<(i32, V)>) -> Map<int, V>
    decreases s.len(),
{
    if s.len() == 0 {
        Map::empty()
    } else {
        map_of(s.drop_last()).insert(s.last().0 as int, s.last().1)
    }
}

/// Keys of a key/value sequence are pairwise distinct.
pub open spec fn unique_keys<V>(s: Seq<(i32, V)>) -> bool {
    forall|i: int, j: int|
        0 <= i < j < s.len() ==> (#[trigger] s[i]).0 != (#[trigger] s[j]).0
}

pub proof fn lemma_map_of_contains<V>(s: Seq<(i32, V)>, k: int)
    ensures
        map_of(s).contains_key(k) <==> exists|i: int| 0 <= i < s.len() && (#[trigger] s[i]).0 == k,
    decreases s.len(),
{
    if s.len() > 0 {
        lemma_map_of_contains(s.drop_last(), k);
        if s.last().0 == k {
            assert(s[s.len() - 1].0 == k);
        } else if map_of(s).contains_key(k) {
            let i = choose|i: int| 0 <= i < s.drop_last().len() && (#[trigger] s.drop_last()[i]).0 == k;
            assert(s[i].0 == k);
        } else {
            assert forall|i: int| 0 <= i < s.len() && (#[trigger] s[i]).0 == k implies false by {
                if i < s.len() - 1 {
                    assert(s.drop_last()[i].0 == k);
                }
            }
        }
    }
}

pub proof fn lemma_map_of_get<V>(s: Seq<(i32, V)>, i: int)
    requires
        unique_keys(s),
        0 <= i < s.len(),
    ensures
        map_of(s).contains_key(s[i].0 as int),
        map_of(s)[s[i].0 as int] == s[i].1,
    decreases s.len(),
{
    lemma_map_of_contains(s, s[i].0 as int);
    if i < s.len() - 1 {
        assert(s.drop_last()[i] == s[i]);
        lemma_map_of_get(s.drop_last(), i);
        assert(s.last().0 != s[i].0);
    }
}

pub proof fn lemma_map_of_finite<V>(s: Seq<(i32, V)>)
    ensures
        map_of(s).dom().finite(),
        map_of(s).dom().len() <= s.len(),
        unique_keys(s) ==> map_of(s).dom().len() == s.len(),
    decreases s.len(),
{
    if s.len() == 0 {
        assert(map_of(s).dom() =~= Set::<int>::empty());
    } else {
        lemma_map_of_finite(s.drop_last());
        if unique_keys(s) {
            assert(unique_keys(s.drop_last()));
            lemma_map_of_contains(s.drop_last(), s.last().0 as int);
            assert forall|i: int| 0 <= i < s.drop_last().len()
                implies (#[trigger] s.drop_last()[i]).0 != s.last().0 by {
                assert(s[i] == s.drop_last()[i]);
            }
            assert(!map_of(s.drop_last()).contains_key(s.last().0 as int));
        }
    }
}

pub proof fn lemma_map_of_update<V>(s: Seq<(i32, V)>, i: int, v: V)
    requires
        unique_keys(s),
        0 <= i < s.len(),
    ensures
        map_of(s.update(i, (s[i].0, v))) =~= map_of(s).insert(s[i].0 as int, v),
    decreases s.len(),
{
    let k = s[i].0;
    let t = s.update(i, (k, v));
    if i == s.len() - 1 {
        assert(t.drop_last() =~= s.drop_last());
    } else {
        assert(t.drop_last() =~= s.drop_last().update(i, (k, v)));
        assert(s.drop_last()[i] == s[i]);
        lemma_map_of_update(s.drop_last(), i, v);
        assert(t.last() == s.last());
        assert(s.last().0 != k);
    }
}

pub proof fn lemma_map_of_remove<V>(s: Seq<(i32, V)>, i: int)
    requires
        unique_keys(s),
        0 <= i < s.len(),
    ensures
        map_of(s.remove(i)) =~= map_of(s).remove(s[i].0 as int),
    decreases s.len(),
{
    let k = s[i].0 as int;
    if i == s.len() - 1 {
        assert(s.remove(i) =~= s.drop_last());
        lemma_map_of_contains(s.drop_last(), k);
        assert forall|j: int| 0 <= j < s.drop_last().len()
            implies (#[trigger] s.drop_last()[j]).0 != s[i].0 by {
            assert(s[j] == s.drop_last()[j]);
        }
        assert(!map_of(s.drop_last()).contains_key(k));
        assert(map_of(s.drop_last()) =~= map_of(s.drop_last()).remove(k));
    } else {
        assert(s.remove(i).drop_last() =~= s.drop_last().remove(i));
        assert(s.drop_last()[i] == s[i]);
        lemma_map_of_remove(s.drop_last(), i);
        assert(s.remove(i).last() == s.last());
        assert(s.last().0 as int != k);
    }
}

impl<V> IdMap<V> {
    pub closed spec fn view(&self) -> Map<int, V> {
        map_of(self.pairs@)
    }

    /// The underlying pair sequence, for iteration-style reasoning.
    pub closed spec fn entries(&self) -> Seq<(i32, V)> {
        self.pairs@
    }

    pub closed spec fn inv(&self) -> bool {
        unique_keys(self.pairs@)
    }

    pub proof fn lemma_entries(&self)
        requires
            self.inv(),
        ensures
            self@.dom().finite(),
            self@.dom().len() == self.entries().len(),
            forall|i: int, j: int|
                0 <= i < j < self.entries().len() ==> (#[trigger] self.entries()[i]).0 != (
                #[trigger] self.entries()[j]).0,
            forall|i: int|
                0 <= i < self.entries().len() ==> self@.contains_key(
                    (#[trigger] self.entries()[i]).0 as int,
                ) && self@[self.entries()[i].0 as int] == self.entries()[i].1,
            forall|k: int|
                self@.contains_key(k) ==> exists|i: int|
                    0 <= i < self.entries().len() && (#[trigger] self.entries()[i]).0 == k,
    {
        lemma_map_of_finite(self.pairs@);
        assert forall|i: int| 0 <= i < self.entries().len() implies self@.contains_key(
            (#[trigger] self.entries()[i]).0 as int,
        ) && self@[self.entries()[i].0 as int] == self.entries()[i].1 by {
            lemma_map_of_get(self.pairs@, i);
        }
        assert forall|k: int| self@.contains_key(k) implies exists|i: int|
            0 <= i < self.entries().len() && (#[trigger] self.entries()[i]).0 == k by {
            lemma_map_of_contains(self.pairs@, k);
            let i = choose|i: int| 0 <= i < self.pairs@.len() && (#[trigger] self.pairs@[i]).0 == k;
            assert(0 <= i < self.entries().len() && self.entries()[i].0 == k);
        }
    }

    pub fn new() -> (r: Self)
        ensures
            r@ == Map::<int, V>::empty(),
            r.inv(),
    {
        IdMap { pairs: Vec::new() }
    }

    pub fn len(&self) -> (r: usize)
        requires
            self.inv(),
        ensures
            r == self@.dom().len(),
            r == self.entries().len(),
    {
        proof {
            lemma_map_of_finite(self.pairs@);
        }
        self.pairs.len()
    }

    pub fn contains(&self, id: i32) -> (r: bool)
        requires
            self.inv(),
        ensures
            r == self@.contains_key(id as int),
    {
        proof {
            lemma_map_of_contains(self.pairs@, id as int);
        }
        let n = self.pairs.len();
        let mut i: usize = 0;
        while i < n
            invariant
                n == self.pairs@.len(),
                0 <= i <= n,
                forall|j: int| 0 <= j < i ==> (#[trigger] self.pairs@[j]).0 != id,
            decreases n - i,
        {
            if self.pairs[i].0 == id {
                proof {
                    assert(self.pairs@[i as int].0 == id);
                }
                return true;
            }
            i += 1;
        }
        false
    }

    pub fn get(&self, id: i32) -> (r: Option<&V>)
        requires
            self.inv(),
        ensures
            match r {
                Some(v) => self@.contains_key(id as int) && *v == self@[id as int],
                None => !self@.contains_key(id as int),
            },
    {
        proof {
            lemma_map_of_contains(self.pairs@, id as int);
        }
        let n = self.pairs.len();
        let mut i: usize = 0;
        while i < n
            invariant
                n == self.pairs@.len(),
                0 <= i <= n,
                forall|j: int| 0 <= j < i ==> (#[trigger] self.pairs@[j]).0 != id,
            decreases n - i,
        {
            if self.pairs[i].0 == id {
                proof {
                    lemma_map_of_get(self.pairs@, i as int);
                }
                return Some(&self.pairs[i].1);
            }
            i += 1;
        }
        None
    }

    /// Index of the pair holding `id`, usable with `entry_at`.
    pub fn index_of(&self, id: i32) -> (r: Option<usize>)
        requires
            self.inv(),
        ensures
            match r {
                Some(i) => i < self.entries().len() && self.entries()[i as int].0 == id
                    && self@.contains_key(id as int) && self@[id as int]
                    == self.entries()[i as int].1,
                None => !self@.contains_key(id as int),
            },
    {
        proof {
            lemma_map_of_contains(self.pairs@, id as int);
        }
        let n = self.pairs.len();
        let mut i: usize = 0;
        while i < n
            invariant
                n == self.pairs@.len(),
                0 <= i <= n,
                forall|j: int| 0 <= j < i ==> (#[trigger] self.pairs@[j]).0 != id,
            decreases n - i,
        {
            if self.pairs[i].0 == id {
                proof {
                    lemma_map_of_get(self.pairs@, i as int);
                }
                return Some(i);
            }
            i += 1;
        }
        None
    }

    pub fn entry_at(&self, i: usize) -> (r: (i32, &V))
        requires
            self.inv(),
            i < self.entries().len(),
        ensures
            r.0 == self.entries()[i as int].0,
            *r.1 == self.entries()[i as int].1,
            self@.contains_key(r.0 as int),
            self@[r.0 as int] == *r.1,
    {
        proof {
            lemma_map_of_get(self.pairs@, i as int);
        }
        (self.pairs[i].0, &self.pairs[i].1)
    }

    /// Insert a binding for a key that is not yet present.
    pub fn insert_new(&mut self, id: i32, v: V)
        requires
            old(self).inv(),
            !old(self)@.contains_key(id as int),
        ensures
            final(self).inv(),
            final(self)@ == old(self)@.insert(id as int, v),
            final(self).entries() == old(self).entries().push((id, v)),
    {
        proof {
            lemma_map_of_contains(self.pairs@, id as int);
        }
        self.pairs.push((id, v));
        proof {
            assert(self.pairs@.drop_last() =~= old(self).pairs@);
            assert(self.pairs@.last() == (id, v));
            assert forall|a: int, b: int| 0 <= a < b < self.pairs@.len() implies (
            #[trigger] self.pairs@[a]).0 != (#[trigger] self.pairs@[b]).0 by {
                if b == self.pairs@.len() - 1 {
                    assert(old(self).pairs@[a].0 != id);
                }
            }
        }
    }

    /// Replace the value bound to a key that is present.
    pub fn set(&mut self, id: i32, v: V)
        requires
            old(self).inv(),
            old(self)@.contains_key(id as int),
        ensures
            final(self).inv(),
            final(self)@ == old(self)@.insert(id as int, v),
            final(self).entries().len() == old(self).entries().len(),
            forall|j: int|
                0 <= j < old(self).entries().len() ==> (#[trigger] final(self).entries()[j]).0
                    == old(self).entries()[j].0 && (old(self).entries()[j].0 != id
                    ==> final(self).entries()[j] == old(self).entries()[j]),
    {
        let i = match self.index_of(id) {
            Some(i) => i,
            None => unreached(),
        };
        self.pairs[i] = (id, v);
        proof {
            lemma_map_of_update(old(self).pairs@, i as int, v);
        }
    }

    /// Exchange the value bound to a present key with the value behind `v`.
    pub fn swap_value(&mut self, id: i32, v: &mut V)
        requires
            old(self).inv(),
            old(self)@.contains_key(id as int),
        ensures
            final(self).inv(),
            final(self)@ == old(self)@.insert(id as int, *old(v)),
            *final(v) == old(self)@[id as int],
            final(self).entries().len() == old(self).entries().len(),
            forall|j: int|
                0 <= j < old(self).entries().len() ==> (#[trigger] final(self).entries()[j]).0
                    == old(self).entries()[j].0 && (old(self).entries()[j].0 != id
                    ==> final(self).entries()[j] == old(self).entries()[j]),
    {
        let i = match self.index_of(id) {
            Some(i) => i,
            None => unreached(),
        };
        let p = &mut self.pairs[i];
        core::mem::swap(&mut p.1, v);
        proof {
            assert(self.pairs@ =~= old(self).pairs@.update(i as int, (id, *old(v))));
            lemma_map_of_update(old(self).pairs@, i as int, *old(v));
        }
    }

    pub fn remove(&mut self, id: i32)
        requires
            old(self).inv(),
            old(self)@.contains_key(id as int),
        ensures
            final(self).inv(),
            final(self)@ == old(self)@.remove(id as int),
            final(self).entries().len() + 1 == old(self).entries().len(),
    {
        let i = match self.index_of(id) {
            Some(i) => i,
            None => unreached(),
        };
        self.pairs.remove(i);
        proof {
            assert(self.pairs@ == old(self).pairs@.remove(i as int));
            lemma_map_of_remove(old(self).pairs@, i as int);
        }
    }
}

} // verus!
