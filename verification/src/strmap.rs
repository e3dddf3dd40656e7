//! A small verified map from sequence names to values, stored as a vector of
//! key/value pairs with pairwise distinct keys. Both the range cache and the
//! in-memory model of the coordination store are built on it.

use vstd::prelude::*;

verus! {

/// A map keyed by sequence names.
pub struct StrMap<V> {
    pairs: Vec<(String, V)>,
}

/// The mathematical map described by a pair list; an earlier pair wins over a
/// later one with the same key.
pub open spec fn assoc_view<V>(pairs: Seq<(String, V)>) -> Map<Seq<char>, V>
    decreases pairs.len(),
{
    if pairs.len() == 0 {
        Map::empty()
    } else {
        assoc_view(pairs.drop_first()).insert(pairs[0].0@, pairs[0].1)
    }
}

/// No two pairs share a key.
pub open spec fn unique_keys<V>(pairs: Seq<(String, V)>) -> bool {
    forall|i: int, j: int| 0 <= i < j < pairs.len() ==> pairs[i].0@ != pairs[j].0@
}

proof fn lemma_view_absent<V>(pairs: Seq<(String, V)>, k: Seq<char>)
    requires
        forall|i: int| 0 <= i < pairs.len() ==> pairs[i].0@ != k,
    ensures
        !assoc_view(pairs).contains_key(k),
    decreases pairs.len(),
{
    if pairs.len() > 0 {
        lemma_view_absent(pairs.drop_first(), k);
    }
}

proof fn lemma_view_found<V>(pairs: Seq<(String, V)>, i: int)
    requires
        0 <= i < pairs.len(),
        forall|j: int| 0 <= j < i ==> pairs[j].0@ != pairs[i].0@,
    ensures
        assoc_view(pairs).contains_key(pairs[i].0@),
        assoc_view(pairs)[pairs[i].0@] == pairs[i].1,
    decreases i,
{
    if i > 0 {
        lemma_view_found(pairs.drop_first(), i - 1);
    }
}

proof fn lemma_view_update<V>(pairs: Seq<(String, V)>, i: int, p: (String, V))
    requires
        0 <= i < pairs.len(),
        p.0@ == pairs[i].0@,
        forall|j: int| 0 <= j < i ==> pairs[j].0@ != pairs[i].0@,
    ensures
        assoc_view(pairs.update(i, p)) == assoc_view(pairs).insert(p.0@, p.1),
    decreases i,
{
    if i == 0 {
        assert(pairs.update(0, p).drop_first() =~= pairs.drop_first());
        assert(assoc_view(pairs.drop_first()).insert(p.0@, p.1) =~= assoc_view(
            pairs.drop_first(),
        ).insert(pairs[0].0@, pairs[0].1).insert(p.0@, p.1));
    } else {
        assert(pairs.update(i, p).drop_first() =~= pairs.drop_first().update(i - 1, p));
        lemma_view_update(pairs.drop_first(), i - 1, p);
        assert(assoc_view(pairs.drop_first()).insert(p.0@, p.1).insert(pairs[0].0@, pairs[0].1)
            =~= assoc_view(pairs.drop_first()).insert(pairs[0].0@, pairs[0].1).insert(p.0@, p.1));
    }
}

proof fn lemma_view_push_fresh<V>(pairs: Seq<(String, V)>, p: (String, V))
    requires
        forall|i: int| 0 <= i < pairs.len() ==> pairs[i].0@ != p.0@,
    ensures
        assoc_view(pairs.push(p)) == assoc_view(pairs).insert(p.0@, p.1),
    decreases pairs.len(),
{
    if pairs.len() == 0 {
        assert(pairs.push(p).drop_first() =~= pairs);
        assert(pairs.push(p)[0] == p);
    } else {
        assert(pairs.push(p).drop_first() =~= pairs.drop_first().push(p));
        lemma_view_push_fresh(pairs.drop_first(), p);
        assert(assoc_view(pairs.drop_first()).insert(p.0@, p.1).insert(pairs[0].0@, pairs[0].1)
            =~= assoc_view(pairs.drop_first()).insert(pairs[0].0@, pairs[0].1).insert(p.0@, p.1));
        assert(assoc_view(pairs.push(p)) =~= assoc_view(pairs).insert(p.0@, p.1));
    }
}

proof fn lemma_view_remove<V>(pairs: Seq<(String, V)>, i: int)
    requires
        0 <= i < pairs.len(),
        unique_keys(pairs),
    ensures
        assoc_view(pairs.remove(i)) == assoc_view(pairs).remove(pairs[i].0@),
    decreases i,
{
    if i == 0 {
        assert(pairs.remove(0) =~= pairs.drop_first());
        lemma_view_absent(pairs.drop_first(), pairs[0].0@);
        assert(assoc_view(pairs.drop_first()) =~= assoc_view(pairs.drop_first()).insert(
            pairs[0].0@,
            pairs[0].1,
        ).remove(pairs[0].0@));
    } else {
        assert(pairs.remove(i).drop_first() =~= pairs.drop_first().remove(i - 1));
        lemma_view_remove(pairs.drop_first(), i - 1);
        assert(assoc_view(pairs.drop_first()).remove(pairs[i].0@).insert(pairs[0].0@, pairs[0].1)
            =~= assoc_view(pairs.drop_first()).insert(pairs[0].0@, pairs[0].1).remove(
            pairs[i].0@,
        ));
    }
}

impl<V> View for StrMap<V> {
    type V = Map<Seq<char>, V>;

    closed spec fn view(&self) -> Map<Seq<char>, V> {
        assoc_view(self.pairs@)
    }
}

impl<V> StrMap<V> {
    #[verifier::type_invariant]
    spec fn inv(self) -> bool {
        unique_keys(self.pairs@)
    }

    /// An empty map.
    pub fn new() -> (m: Self)
        ensures
            m@ == Map::<Seq<char>, V>::empty(),
    {
        let m = StrMap { pairs: Vec::new() };
        proof {
            assert(m@ =~= Map::<Seq<char>, V>::empty());
        }
        m
    }

    /// The position of the pair holding `name`, if any.
    fn find_index(&self, name: &String) -> (r: Option<usize>)
        ensures
            r matches Some(i) ==> i < self.pairs@.len() && self.pairs@[i as int].0@ == name@
                && (forall|j: int| 0 <= j < i ==> self.pairs@[j].0@ != name@),
            r is None ==> forall|i: int| 0 <= i < self.pairs@.len() ==> self.pairs@[i].0@ != name@,
    {
        let mut i: usize = 0;
        while i < self.pairs.len()
            invariant
                i <= self.pairs@.len(),
                forall|j: int| 0 <= j < i ==> self.pairs@[j].0@ != name@,
            decreases self.pairs@.len() - i,
        {
            if self.pairs[i].0 == *name {
                return Some(i);
            }
            i = i + 1;
        }
        None
    }

    /// Look a value up by name.
    pub fn get<'a>(&'a self, name: &String) -> (r: Option<&'a V>)
        ensures
            r matches Some(v) ==> self@.contains_key(name@) && *v == self@[name@],
            r is None ==> !self@.contains_key(name@),
    {
        match self.find_index(name) {
            Some(i) => {
                proof {
                    lemma_view_found(self.pairs@, i as int);
                }
                Some(&self.pairs[i].1)
            },
            None => {
                proof {
                    lemma_view_absent(self.pairs@, name@);
                }
                None
            },
        }
    }

    /// Bind `name` to `value`, replacing any earlier binding.
    pub fn set(&mut self, name: String, value: V)
        ensures
            final(self)@ == old(self)@.insert(name@, value),
    {
        proof {
            use_type_invariant(&*self);
        }
        let idx = self.find_index(&name);
        let ghost old_pairs = self.pairs@;
        let mut pairs: Vec<(String, V)> = Vec::new();
        core::mem::swap(&mut pairs, &mut self.pairs);
        match idx {
            Some(i) => {
                let _ = pairs.remove(i);
                pairs.insert(i, (name, value));
                proof {
                    assert(pairs@ =~= old_pairs.update(i as int, pairs@[i as int]));
                    lemma_view_update(old_pairs, i as int, pairs@[i as int]);
                    assert(unique_keys(pairs@));
                }
            },
            None => {
                pairs.push((name, value));
                proof {
                    lemma_view_push_fresh(old_pairs, pairs@[old_pairs.len() as int]);
                    assert(unique_keys(pairs@));
                }
            },
        }
        self.pairs = pairs;
    }

    /// Remove the binding of `name` and hand its value out.
    pub fn take(&mut self, name: &String) -> (r: Option<V>)
        ensures
            r matches Some(v) ==> old(self)@.contains_key(name@) && v == old(self)@[name@]
                && final(self)@ == old(self)@.remove(name@),
            r is None ==> !old(self)@.contains_key(name@) && final(self)@ == old(self)@,
    {
        proof {
            use_type_invariant(&*self);
        }
        let idx = self.find_index(name);
        let ghost old_pairs = self.pairs@;
        match idx {
            Some(i) => {
                let mut pairs: Vec<(String, V)> = Vec::new();
                core::mem::swap(&mut pairs, &mut self.pairs);
                let p = pairs.remove(i);
                proof {
                    lemma_view_found(old_pairs, i as int);
                    lemma_view_remove(old_pairs, i as int);
                    assert(unique_keys(pairs@));
                }
                self.pairs = pairs;
                Some(p.1)
            },
            None => {
                proof {
                    lemma_view_absent(self.pairs@, name@);
                    assert(final(self)@ =~= old(self)@);
                }
                None
            },
        }
    }
}

} // verus!
