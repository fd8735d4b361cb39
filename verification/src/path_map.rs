//! A map keyed by path strings that keeps its entries in insertion order.
use vstd::prelude::*;

use crate::text::str_eq;

verus! {

/// The keys of a list of entries.
pub open spec fn keys_of<V>(es: Seq<(String, V)>) -> Seq<Seq<char>> {
    es.map_values(|e: (String, V)| e.0@)
}

/// The map a list of entries stands for (a later entry wins over an earlier one
/// with the same key).
pub open spec fn map_of<V>(es: Seq<(String, V)>) -> Map<Seq<char>, V>
    decreases es.len(),
{
    if es.len() == 0 {
        Map::empty()
    } else {
        map_of(es.drop_last()).insert(es.last().0@, es.last().1)
    }
}

proof fn lemma_keys_push<V>(es: Seq<(String, V)>, e: (String, V))
    ensures
        keys_of(es.push(e)) == keys_of(es).push(e.0@),
{
    assert(keys_of(es.push(e)) =~= keys_of(es).push(e.0@));
}

proof fn lemma_keys_drop_last<V>(es: Seq<(String, V)>)
    requires
        es.len() > 0,
    ensures
        keys_of(es) == keys_of(es.drop_last()).push(es.last().0@),
{
    assert(es =~= es.drop_last().push(es.last()));
    lemma_keys_push(es.drop_last(), es.last());
}

proof fn lemma_map_of_dom<V>(es: Seq<(String, V)>, k: Seq<char>)
    ensures
        map_of(es).contains_key(k) <==> keys_of(es).contains(k),
    decreases es.len(),
{
    if es.len() == 0 {
        assert(keys_of(es).len() == 0);
        assert(!map_of(es).contains_key(k));
    } else {
        lemma_map_of_dom(es.drop_last(), k);
        lemma_keys_drop_last(es);
        let ks = keys_of(es.drop_last());
        let n = es.len() - 1;
        if k == es.last().0@ {
            assert(keys_of(es)[n] == k);
        } else {
            if ks.contains(k) {
                let j = choose|j: int| 0 <= j < ks.len() && ks[j] == k;
                assert(keys_of(es)[j] == k);
            }
            if keys_of(es).contains(k) {
                let j = choose|j: int| 0 <= j < keys_of(es).len() && keys_of(es)[j] == k;
                assert(j != n);
                assert(ks[j] == k);
            }
        }
    }
}

proof fn lemma_map_of_index<V>(es: Seq<(String, V)>, i: int)
    requires
        keys_of(es).no_duplicates(),
        0 <= i < es.len(),
    ensures
        map_of(es).contains_key(es[i].0@),
        map_of(es)[es[i].0@] == es[i].1,
    decreases es.len(),
{
    lemma_keys_drop_last(es);
    if i < es.len() - 1 {
        let ks = keys_of(es.drop_last());
        assert(ks.no_duplicates()) by {
            assert forall|a: int, b: int| 0 <= a < ks.len() && 0 <= b < ks.len() && a != b
                implies ks[a] != ks[b] by {
                assert(keys_of(es)[a] == ks[a] && keys_of(es)[b] == ks[b]);
            }
        }
        assert(keys_of(es)[i] != keys_of(es)[es.len() - 1]);
        lemma_map_of_index(es.drop_last(), i);
    }
}

proof fn lemma_map_of_update<V>(es: Seq<(String, V)>, i: int, e: (String, V))
    requires
        keys_of(es).no_duplicates(),
        0 <= i < es.len(),
        e.0@ == es[i].0@,
    ensures
        map_of(es.update(i, e)) == map_of(es).insert(e.0@, e.1),
        keys_of(es.update(i, e)) == keys_of(es),
    decreases es.len(),
{
    assert(keys_of(es.update(i, e)) =~= keys_of(es));
    lemma_keys_drop_last(es);
    if i == es.len() - 1 {
        assert(es.update(i, e).drop_last() =~= es.drop_last());
        assert(map_of(es.update(i, e)) =~= map_of(es).insert(e.0@, e.1));
    } else {
        let ks = keys_of(es.drop_last());
        assert(ks.no_duplicates()) by {
            assert forall|a: int, b: int| 0 <= a < ks.len() && 0 <= b < ks.len() && a != b
                implies ks[a] != ks[b] by {
                assert(keys_of(es)[a] == ks[a] && keys_of(es)[b] == ks[b]);
            }
        }
        assert(es.update(i, e).drop_last() =~= es.drop_last().update(i, e));
        assert(es.update(i, e).last() == es.last());
        lemma_map_of_update(es.drop_last(), i, e);
        assert(keys_of(es)[i] != keys_of(es)[es.len() - 1]);
        assert(map_of(es.update(i, e)) =~= map_of(es).insert(e.0@, e.1));
    }
}

proof fn lemma_map_of_remove<V>(es: Seq<(String, V)>, i: int)
    requires
        keys_of(es).no_duplicates(),
        0 <= i < es.len(),
    ensures
        map_of(es.remove(i)) == map_of(es).remove(es[i].0@),
        keys_of(es.remove(i)) == keys_of(es).remove(i),
        keys_of(es.remove(i)).no_duplicates(),
    decreases es.len(),
{
    assert(keys_of(es.remove(i)) =~= keys_of(es).remove(i));
    let kr = keys_of(es).remove(i);
    assert(kr.no_duplicates()) by {
        assert forall|a: int, b: int| 0 <= a < kr.len() && 0 <= b < kr.len() && a != b implies kr[a]
            != kr[b] by {
            let a2 = if a < i { a } else { a + 1 };
            let b2 = if b < i { b } else { b + 1 };
            assert(kr[a] == keys_of(es)[a2] && kr[b] == keys_of(es)[b2]);
        }
    }
    lemma_keys_drop_last(es);
    let ks = keys_of(es.drop_last());
    assert(ks.no_duplicates()) by {
        assert forall|a: int, b: int| 0 <= a < ks.len() && 0 <= b < ks.len() && a != b implies ks[a]
            != ks[b] by {
            assert(keys_of(es)[a] == ks[a] && keys_of(es)[b] == ks[b]);
        }
    }
    if i == es.len() - 1 {
        assert(es.remove(i) =~= es.drop_last());
        lemma_map_of_dom(es.drop_last(), es[i].0@);
        if ks.contains(es[i].0@) {
            let j = choose|j: int| 0 <= j < ks.len() && ks[j] == es[i].0@;
            assert(keys_of(es)[j] == keys_of(es)[i]);
        }
        assert(map_of(es.remove(i)) =~= map_of(es).remove(es[i].0@));
    } else {
        assert(es.remove(i).drop_last() =~= es.drop_last().remove(i));
        assert(es.remove(i).last() == es.last());
        lemma_map_of_remove(es.drop_last(), i);
        assert(keys_of(es)[i] != keys_of(es)[es.len() - 1]);
        assert(map_of(es.remove(i)) =~= map_of(es).remove(es[i].0@));
    }
}

/// A map from path strings to values, kept as a list of entries in the order
/// their keys were first inserted. No key occurs twice.
pub struct PathMap<V> {
    entries: Vec<(String, V)>,
}

impl<V> View for PathMap<V> {
    type V = Map<Seq<char>, V>;

    closed spec fn view(&self) -> Map<Seq<char>, V> {
        map_of(self.entries@)
    }
}

impl<V> PathMap<V> {
    /// The keys, in order.
    pub closed spec fn keys(&self) -> Seq<Seq<char>> {
        keys_of(self.entries@)
    }

    /// No key occurs twice.
    #[verifier::type_invariant]
    pub closed spec fn inv(&self) -> bool {
        self.keys().no_duplicates()
    }

    /// The key sequence lists exactly the keys of the map, each once.
    pub proof fn lemma_keys_are_domain(&self)
        requires
            self.inv(),
        ensures
            self.keys().no_duplicates(),
            forall|k: Seq<char>| #[trigger] self@.contains_key(k) <==> self.keys().contains(k),
            self@.dom().finite(),
            self@.dom().len() == self.keys().len(),
    {
        assert forall|k: Seq<char>| #[trigger] self@.contains_key(k) <==> self.keys().contains(
            k,
        ) by {
            lemma_map_of_dom(self.entries@, k);
        }
        assert(self@.dom() =~= self.keys().to_set());
        self.keys().unique_seq_to_set();
    }

    /// An empty map.
    pub fn new() -> (r: Self)
        ensures
            r@ == Map::<Seq<char>, V>::empty(),
            r.keys() == Seq::<Seq<char>>::empty(),
    {
        let r = PathMap { entries: Vec::new() };
        assert(r.keys() =~= Seq::<Seq<char>>::empty());
        assert(r@ =~= Map::<Seq<char>, V>::empty());
        r
    }

    /// Number of entries.
    pub fn len(&self) -> (n: usize)
        ensures
            n == self.keys().len(),
    {
        self.entries.len()
    }

    /// The key of entry `i`.
    pub fn key_at(&self, i: usize) -> (k: &String)
        requires
            i < self.keys().len(),
        ensures
            k@ == self.keys()[i as int],
    {
        &self.entries[i].0
    }

    /// The value of entry `i`.
    pub fn value_at(&self, i: usize) -> (v: &V)
        requires
            i < self.keys().len(),
        ensures
            self@.contains_key(self.keys()[i as int]),
            *v == self@[self.keys()[i as int]],
    {
        proof {
            use_type_invariant(self);
            lemma_map_of_index(self.entries@, i as int);
        }
        &self.entries[i].1
    }

    /// The position of `key`, if present.
    pub fn find(&self, key: &str) -> (r: Option<usize>)
        ensures
            r matches Some(i) ==> i < self.keys().len() && self.keys()[i as int] == key@,
            r is Some <==> self@.contains_key(key@),
    {
        let mut i: usize = 0;
        while i < self.entries.len()
            invariant
                0 <= i <= self.entries.len(),
                forall|j: int| 0 <= j < i ==> self.keys()[j] != key@,
            decreases self.entries.len() - i,
        {
            if str_eq(self.entries[i].0.as_str(), key) {
                proof {
                    lemma_map_of_dom(self.entries@, key@);
                    assert(self.keys()[i as int] == key@);
                }
                return Some(i);
            }
            i = i + 1;
        }
        proof {
            lemma_map_of_dom(self.entries@, key@);
            if self.keys().contains(key@) {
                let j = choose|j: int| 0 <= j < self.keys().len() && self.keys()[j] == key@;
                assert(self.keys()[j] != key@);
            }
        }
        None
    }

    /// Whether `key` is present.
    pub fn contains_key(&self, key: &str) -> (b: bool)
        ensures
            b == self@.contains_key(key@),
    {
        self.find(key).is_some()
    }

    /// The value of `key`, if present.
    pub fn get(&self, key: &str) -> (r: Option<&V>)
        ensures
            r is Some <==> self@.contains_key(key@),
            r matches Some(v) ==> *v == self@[key@],
    {
        match self.find(key) {
            Some(i) => Some(self.value_at(i)),
            None => None,
        }
    }

    /// Replaces the value of entry `i`, returning the old one; keys and order
    /// are unchanged.
    pub fn replace_at(&mut self, i: usize, v: V) -> (old_v: V)
        requires
            i < old(self).keys().len(),
        ensures
            final(self).keys() == old(self).keys(),
            final(self)@ == old(self)@.insert(old(self).keys()[i as int], v),
            old_v == old(self)@[old(self).keys()[i as int]],
    {
        proof {
            use_type_invariant(&*self);
            lemma_map_of_index(self.entries@, i as int);
        }
        let mut es: Vec<(String, V)> = Vec::new();
        std::mem::swap(&mut es, &mut self.entries);
        let ghost es0 = es@;
        let (k, old_v) = es.remove(i);
        es.insert(i, (k, v));
        proof {
            assert(es@ =~= es0.update(i as int, (k, v)));
            lemma_map_of_update(es0, i as int, (k, v));
        }
        self.entries = es;
        old_v
    }

    /// Sets the value of `key`: in place when present, else as a new last entry.
    pub fn insert(&mut self, key: String, v: V)
        ensures
            final(self)@ == old(self)@.insert(key@, v),
            old(self)@.contains_key(key@) ==> final(self).keys() == old(self).keys(),
            !old(self)@.contains_key(key@) ==> final(self).keys() == old(self).keys().push(key@),
    {
        match self.find(key.as_str()) {
            Some(i) => {
                let _ = self.replace_at(i, v);
            },
            None => {
                proof {
                    use_type_invariant(&*self);
                }
                let mut es: Vec<(String, V)> = Vec::new();
                std::mem::swap(&mut es, &mut self.entries);
                let ghost es0 = es@;
                proof {
                    lemma_map_of_dom(es0, key@);
                }
                es.push((key, v));
                proof {
                    assert(es@ =~= es0.push((key, v)));
                    assert(es@.drop_last() =~= es0);
                    lemma_keys_push(es0, (key, v));
                    let ks = keys_of(es0).push(key@);
                    assert(ks.no_duplicates()) by {
                        assert forall|a: int, b: int|
                            0 <= a < ks.len() && 0 <= b < ks.len() && a != b implies ks[a]
                            != ks[b] by {
                            if a < ks.len() - 1 && b < ks.len() - 1 {
                                assert(ks[a] == keys_of(es0)[a] && ks[b] == keys_of(es0)[b]);
                            } else if a < ks.len() - 1 {
                                assert(keys_of(es0)[a] == ks[a]);
                            } else {
                                assert(keys_of(es0)[b] == ks[b]);
                            }
                        }
                    }
                }
                self.entries = es;
            },
        }
    }

    /// Removes `key`, returning its value; the other entries keep their order.
    pub fn remove(&mut self, key: &str) -> (r: Option<V>)
        ensures
            final(self)@ == old(self)@.remove(key@),
            r is Some <==> old(self)@.contains_key(key@),
            r matches Some(v) ==> v == old(self)@[key@],
            !old(self)@.contains_key(key@) ==> final(self).keys() == old(self).keys(),
            old(self)@.contains_key(key@) ==> exists|i: int|
                0 <= i < old(self).keys().len() && old(self).keys()[i] == key@ && final(self).keys()
                    == old(self).keys().remove(i),
    {
        match self.find(key) {
            Some(i) => {
                proof {
                    use_type_invariant(&*self);
                }
                let mut es: Vec<(String, V)> = Vec::new();
                std::mem::swap(&mut es, &mut self.entries);
                let ghost es0 = es@;
                proof {
                    lemma_map_of_index(es0, i as int);
                    lemma_map_of_remove(es0, i as int);
                }
                let (_k, v) = es.remove(i);
                self.entries = es;
                Some(v)
            },
            None => {
                assert(old(self)@.remove(key@) =~= old(self)@);
                None
            },
        }
    }
}

} // verus!
