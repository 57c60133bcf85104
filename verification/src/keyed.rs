//! A map from text keys to values that remembers the order of insertion, and a
//! set of texts.

use crate::text::{contains_text, texts};
use vstd::prelude::*;

verus! {

/// The map that a list of pairs describes; a later pair replaces an earlier one
/// with the same key.
pub open spec fn map_of<X>(pairs: Seq<(Seq<char>, X)>) -> Map<Seq<char>, X>
    decreases pairs.len(),
{
    if pairs.len() == 0 {
        Map::empty()
    } else {
        map_of(pairs.drop_last()).insert(pairs.last().0, pairs.last().1)
    }
}

/// No key occurs twice.
pub open spec fn distinct_keys<X>(pairs: Seq<(Seq<char>, X)>) -> bool {
    forall|i: int, j: int| 0 <= i < j < pairs.len() ==> (#[trigger] pairs[i]).0 != (#[trigger] pairs[j]).0
}

/// In a list of pairs with distinct keys each pair is an entry of the map, and
/// the map has no other entries.
pub proof fn lemma_map_of<X>(pairs: Seq<(Seq<char>, X)>)
    requires
        distinct_keys(pairs),
    ensures
        forall|i: int| 0 <= i < pairs.len() ==> {
            &&& map_of(pairs).dom().contains((#[trigger] pairs[i]).0)
            &&& map_of(pairs)[pairs[i].0] == pairs[i].1
        },
        forall|k: Seq<char>| #[trigger] map_of(pairs).dom().contains(k) ==> exists|i: int|
            0 <= i < pairs.len() && (#[trigger] pairs[i]).0 == k,
    decreases pairs.len(),
{
    if pairs.len() > 0 {
        let front = pairs.drop_last();
        assert(distinct_keys(front)) by {
            assert forall|i: int, j: int| 0 <= i < j < front.len() implies (#[trigger] front[i]).0
                != (#[trigger] front[j]).0 by {
                assert(front[i] == pairs[i] && front[j] == pairs[j]);
            }
        }
        lemma_map_of(front);
        assert forall|i: int| 0 <= i < pairs.len() implies {
            &&& map_of(pairs).dom().contains((#[trigger] pairs[i]).0)
            &&& map_of(pairs)[pairs[i].0] == pairs[i].1
        } by {
            if i < front.len() {
                assert(front[i] == pairs[i]);
                assert(pairs[i].0 != pairs[pairs.len() - 1].0);
            }
        }
        assert forall|k: Seq<char>| #[trigger] map_of(pairs).dom().contains(k) implies exists|i: int|
            0 <= i < pairs.len() && (#[trigger] pairs[i]).0 == k by {
            if k == pairs.last().0 {
                assert(pairs[pairs.len() - 1].0 == k);
            } else {
                assert(map_of(front).dom().contains(k));
                let i = choose|i: int| 0 <= i < front.len() && (#[trigger] front[i]).0 == k;
                assert(pairs[i].0 == k);
            }
        }
    }
}

/// The first pairs of a list with distinct keys hold no key of a later pair.
pub proof fn lemma_fresh_key<X>(pairs: Seq<(Seq<char>, X)>, i: int)
    requires
        distinct_keys(pairs),
        0 <= i < pairs.len(),
    ensures
        !map_of(pairs.take(i)).dom().contains(pairs[i].0),
{
    let front = pairs.take(i);
    assert forall|a: int, b: int| 0 <= a < b < front.len() implies (#[trigger] front[a]).0 != (
    #[trigger] front[b]).0 by {
        assert(pairs[a].0 != pairs[b].0);
    }
    lemma_map_of(front);
    if map_of(front).dom().contains(pairs[i].0) {
        let j = choose|j: int| 0 <= j < front.len() && (#[trigger] front[j]).0 == pairs[i].0;
        assert(pairs[j].0 != pairs[i].0);
    }
}

/// A map from text keys to values. No key occurs twice; the entries keep the
/// order in which their keys were first inserted.
#[derive(Debug)]
pub struct TextMap<T> {
    pub(crate) entries: Vec<(String, T)>,
}

impl<T> TextMap<T> {
    #[verifier::type_invariant]
    spec fn no_key_twice(self) -> bool {
        forall|i: int, j: int|
            0 <= i < j < self.entries@.len() ==> (#[trigger] self.entries@[i]).0@ != (
            #[trigger] self.entries@[j]).0@
    }
}

impl<T: View> View for TextMap<T> {
    type V = Map<Seq<char>, T::V>;

    open spec fn view(&self) -> Map<Seq<char>, T::V> {
        map_of(self.pairs())
    }
}

impl<T: View> TextMap<T> {
    /// The entries in order.
    pub closed spec fn pairs(&self) -> Seq<(Seq<char>, T::V)> {
        self.entries@.map_values(|e: (String, T)| (e.0@, e.1@))
    }

    proof fn lemma_distinct(&self)
        requires
            self.no_key_twice(),
        ensures
            distinct_keys(self.pairs()),
    {
        assert forall|i: int, j: int| 0 <= i < j < self.pairs().len() implies (
        #[trigger] self.pairs()[i]).0 != (#[trigger] self.pairs()[j]).0 by {
            assert(self.entries@[i].0@ != self.entries@[j].0@);
        }
    }

    /// The map without entries.
    pub fn new() -> (r: Self)
        ensures
            r.pairs() == Seq::<(Seq<char>, T::V)>::empty(),
            r@ == Map::<Seq<char>, T::V>::empty(),
    {
        let r = TextMap { entries: Vec::new() };
        assert(r.pairs() =~= Seq::<(Seq<char>, T::V)>::empty());
        r
    }

    /// The number of entries. No two of them have the same key.
    pub fn len(&self) -> (n: usize)
        ensures
            n == self.pairs().len(),
            distinct_keys(self.pairs()),
    {
        proof {
            use_type_invariant(self);
            self.lemma_distinct();
        }
        self.entries.len()
    }

    /// Whether there is no entry.
    pub fn is_empty(&self) -> (r: bool)
        ensures
            r == (self.pairs().len() == 0),
            r == (self@ == Map::<Seq<char>, T::V>::empty()),
    {
        proof {
            use_type_invariant(self);
            self.lemma_distinct();
            lemma_map_of(self.pairs());
            if self.pairs().len() > 0 {
                assert(self@.dom().contains(self.pairs()[0].0));
            }
        }
        self.entries.len() == 0
    }

    /// The key of the entry at position `i`.
    pub fn key_at(&self, i: usize) -> (k: &String)
        requires
            i < self.pairs().len(),
        ensures
            k@ == self.pairs()[i as int].0,
    {
        &self.entries[i].0
    }

    /// The value of the entry at position `i`.
    pub fn value_at(&self, i: usize) -> (v: &T)
        requires
            i < self.pairs().len(),
        ensures
            v@ == self.pairs()[i as int].1,
    {
        &self.entries[i].1
    }

    /// The position of the entry with the key `k`, or the number of entries.
    fn position(&self, k: &String) -> (p: usize)
        ensures
            p <= self.pairs().len(),
            p < self.pairs().len() ==> self.pairs()[p as int].0 == k@,
            p == self.pairs().len() ==> forall|i: int|
                0 <= i < self.pairs().len() ==> (#[trigger] self.pairs()[i]).0 != k@,
    {
        for i in 0..self.entries.len()
            invariant
                forall|j: int| 0 <= j < i ==> (#[trigger] self.pairs()[j]).0 != k@,
        {
            if self.entries[i].0 == *k {
                return i;
            }
        }
        self.entries.len()
    }

    /// Whether there is an entry with the key `k`.
    pub fn contains_key(&self, k: &str) -> (r: bool)
        ensures
            r == self@.dom().contains(k@),
    {
        let key = k.to_owned();
        let p: usize = self.position(&key);
        proof {
            use_type_invariant(self);
            self.lemma_distinct();
            lemma_map_of(self.pairs());
        }
        p < self.entries.len()
    }

    /// The value of the entry with the key `k`.
    pub fn get(&self, k: &str) -> (r: Option<&T>)
        ensures
            match r {
                Some(v) => self@.dom().contains(k@) && v@ == self@[k@],
                None => !self@.dom().contains(k@),
            },
    {
        let key = k.to_owned();
        let p: usize = self.position(&key);
        proof {
            use_type_invariant(self);
            self.lemma_distinct();
            lemma_map_of(self.pairs());
        }
        if p < self.entries.len() {
            assert(self.pairs()[p as int] == (self.entries@[p as int].0@, self.entries@[p as int].1@));
            Some(&self.entries[p].1)
        } else {
            None
        }
    }

    /// Sets the value of the key `k`; a new key comes last.
    pub fn insert(&mut self, k: String, v: T)
        ensures
            final(self)@ == old(self)@.insert(k@, v@),
            !old(self)@.dom().contains(k@) ==> final(self).pairs() == old(self).pairs().push(
                (k@, v@),
            ),
    {
        proof {
            use_type_invariant(&*self);
            self.lemma_distinct();
            lemma_map_of(self.pairs());
        }
        let ghost before = self.pairs();
        let p: usize = self.position(&k);
        let mut es: Vec<(String, T)> = Vec::new();
        assert(es@.map_values(|e: (String, T)| (e.0@, e.1@)) =~= Seq::<(Seq<char>, T::V)>::empty());
        std::mem::swap(&mut es, &mut self.entries);
        let ghost pair = (k@, v@);
        if p < es.len() {
            es.set(p, (k, v));
            let ghost after = es@.map_values(|e: (String, T)| (e.0@, e.1@));
            assert(after =~= before.update(p as int, pair));
            proof {
                assert(distinct_keys(after)) by {
                    assert forall|i: int, j: int| 0 <= i < j < after.len() implies (
                    #[trigger] after[i]).0 != (#[trigger] after[j]).0 by {
                        assert(after[i].0 == before[i].0 && after[j].0 == before[j].0);
                    }
                }
                lemma_map_of(after);
                assert(map_of(after) =~= map_of(before).insert(pair.0, pair.1)) by {
                    assert forall|x: Seq<char>| map_of(after).dom().contains(x) <==> map_of(
                        before,
                    ).insert(pair.0, pair.1).dom().contains(x) by {
                        if map_of(after).dom().contains(x) {
                            let i = choose|i: int| 0 <= i < after.len() && (#[trigger] after[i]).0 == x;
                            assert(before[i].0 == x);
                        }
                        if map_of(before).dom().contains(x) {
                            let i = choose|i: int| 0 <= i < before.len() && (#[trigger] before[i]).0 == x;
                            assert(after[i].0 == x);
                        }
                        assert(after[p as int].0 == pair.0);
                    }
                    assert forall|x: Seq<char>| map_of(after).dom().contains(x) implies map_of(after)[x]
                        == map_of(before).insert(pair.0, pair.1)[x] by {
                        let i = choose|i: int| 0 <= i < after.len() && (#[trigger] after[i]).0 == x;
                        assert(before[i].0 == x);
                        if i != p {
                            assert(before[i].0 != before[p as int].0);
                        }
                    }
                }
            }
        } else {
            es.push((k, v));
            let ghost after = es@.map_values(|e: (String, T)| (e.0@, e.1@));
            assert(after =~= before.push(pair));
            assert(after.drop_last() =~= before);
            assert(map_of(before).dom().contains(pair.0) ==> false);
        }
        proof {
            let after = es@.map_values(|e: (String, T)| (e.0@, e.1@));
            assert forall|i: int, j: int| 0 <= i < j < es@.len() implies (#[trigger] es@[i]).0@ != (
            #[trigger] es@[j]).0@ by {
                assert(after[i].0 != after[j].0);
            }
        }
        self.entries = es;
    }

    /// Drops the entry with the key `k`.
    pub fn remove(&mut self, k: &str) -> (r: Option<T>)
        ensures
            final(self)@ == old(self)@.remove(k@),
            match r {
                Some(v) => old(self)@.dom().contains(k@) && v@ == old(self)@[k@],
                None => !old(self)@.dom().contains(k@),
            },
    {
        proof {
            use_type_invariant(&*self);
            self.lemma_distinct();
            lemma_map_of(self.pairs());
        }
        let ghost before = self.pairs();
        let key = k.to_owned();
        let p: usize = self.position(&key);
        if p < self.entries.len() {
            let mut es: Vec<(String, T)> = Vec::new();
            assert(es@.map_values(|e: (String, T)| (e.0@, e.1@)) =~= Seq::<(Seq<char>, T::V)>::empty());
            std::mem::swap(&mut es, &mut self.entries);
            let e = es.remove(p);
            let ghost after = es@.map_values(|e: (String, T)| (e.0@, e.1@));
            assert(after =~= before.remove(p as int));
            proof {
                assert(distinct_keys(after)) by {
                    assert forall|i: int, j: int| 0 <= i < j < after.len() implies (
                    #[trigger] after[i]).0 != (#[trigger] after[j]).0 by {
                        let a = if i < p { i } else { i + 1 };
                        let b = if j < p { j } else { j + 1 };
                        assert(after[i] == before[a] && after[j] == before[b]);
                    }
                }
                lemma_map_of(after);
                assert(map_of(after) =~= map_of(before).remove(k@)) by {
                    assert forall|x: Seq<char>| map_of(after).dom().contains(x) <==> map_of(
                        before,
                    ).remove(k@).dom().contains(x) by {
                        if map_of(after).dom().contains(x) {
                            let i = choose|i: int| 0 <= i < after.len() && (#[trigger] after[i]).0 == x;
                            let a = if i < p { i } else { i + 1 };
                            assert(after[i] == before[a]);
                            assert(before[a].0 != before[p as int].0);
                        }
                        if map_of(before).dom().contains(x) && x != k@ {
                            let i = choose|i: int| 0 <= i < before.len() && (#[trigger] before[i]).0 == x;
                            let a = if i < p { i } else { i - 1 };
                            assert(after[a] == before[i]);
                        }
                    }
                    assert forall|x: Seq<char>| map_of(after).dom().contains(x) implies map_of(after)[x]
                        == map_of(before).remove(k@)[x] by {
                        let i = choose|i: int| 0 <= i < after.len() && (#[trigger] after[i]).0 == x;
                        let a = if i < p { i } else { i + 1 };
                        assert(after[i] == before[a]);
                        assert(before[a].0 == x);
                    }
                }
            }
            proof {
                assert forall|i: int, j: int| 0 <= i < j < es@.len() implies (#[trigger] es@[i]).0@
                    != (#[trigger] es@[j]).0@ by {
                    assert(after[i].0 != after[j].0);
                }
            }
            self.entries = es;
            Some(e.1)
        } else {
            assert(map_of(before) =~= map_of(before).remove(k@));
            None
        }
    }
}

/// A set of texts.
#[derive(Debug)]
pub struct TextSet {
    items: Vec<String>,
}

impl View for TextSet {
    type V = Set<Seq<char>>;

    closed spec fn view(&self) -> Set<Seq<char>> {
        Set::new(|s: Seq<char>| texts(self.items@).contains(s))
    }
}

impl TextSet {
    /// The set without elements.
    pub fn new() -> (r: Self)
        ensures
            r@ == Set::<Seq<char>>::empty(),
    {
        let r = TextSet { items: Vec::new() };
        assert(r@ =~= Set::<Seq<char>>::empty());
        r
    }

    /// Whether there is no element.
    pub fn is_empty(&self) -> (r: bool)
        ensures
            r == (self@ == Set::<Seq<char>>::empty()),
    {
        proof {
            if self.items@.len() == 0 {
                assert(self@ =~= Set::<Seq<char>>::empty());
            } else {
                assert(texts(self.items@)[0] == self.items@[0]@);
                assert(self@.contains(self.items@[0]@));
            }
        }
        self.items.len() == 0
    }

    /// Whether `s` is an element.
    pub fn contains(&self, s: &str) -> (r: bool)
        ensures
            r == self@.contains(s@),
    {
        let key = s.to_owned();
        contains_text(&self.items, &key)
    }

    /// Adds `s`.
    pub fn insert(&mut self, s: String)
        ensures
            final(self)@ == old(self)@.insert(s@),
    {
        let ghost before = texts(self.items@);
        let ghost added = s@;
        if !contains_text(&self.items, &s) {
            self.items.push(s);
            let ghost after = texts(self.items@);
            assert(after =~= before.push(added));
            assert(self@ =~= old(self)@.insert(added)) by {
                assert forall|x: Seq<char>| after.contains(x) <==> before.contains(x) || x == added by {
                    if before.contains(x) {
                        let i = before.index_of(x);
                        assert(after[i] == x);
                    }
                    assert(after[before.len() as int] == added);
                    if after.contains(x) && x != added {
                        let i = after.index_of(x);
                        assert(before[i] == x);
                    }
                }
            }
        } else {
            assert(self@ =~= old(self)@.insert(added));
        }
    }
}

} // verus!
