//! A map whose keys are in order: the crops and thumbnails of a file list, the
//! rows of a timeline.

use crate::order::{listed, models, search, Ordered};
use vstd::prelude::*;

verus! {

/// A map. The keys are in order, and the value of each is at the same place in
/// `values`.
pub struct SortedMap<K, T> {
    keys: Vec<K>,
    values: Vec<T>,
}

/// The map that pairs the keys with the values at the same places.
pub open spec fn paired<P, V>(keys: Seq<P>, values: Seq<V>) -> Map<P, V> {
    Map::new(|p: P| keys.contains(p), |p: P| values[keys.index_of(p)])
}

impl<K: View, T: View> View for SortedMap<K, T> {
    type V = Map<K::V, T::V>;

    closed spec fn view(&self) -> Map<K::V, T::V> {
        paired(models(self.keys@), self.values@.map_values(|v: T| v@))
    }
}

/// In a list in order, a value is found where it is.
proof fn lemma_index<K: Ordered>(keys: Seq<K::V>, i: int)
    requires
        listed::<K>(keys),
        0 <= i < keys.len(),
    ensures
        keys.contains(keys[i]),
        keys.index_of(keys[i]) == i,
{
    let j = keys.index_of(keys[i]);
    assert(keys.contains(keys[i]));
    assert(0 <= j < keys.len() && keys[j] == keys[i]);
    K::order_is_total(keys[i], keys[j], keys[i]);
}

impl<K: Ordered, T: View> SortedMap<K, T> {
    /// The keys are in order and have one value each.
    pub closed spec fn wf(&self) -> bool {
        &&& listed::<K>(models(self.keys@))
        &&& self.keys.len() == self.values.len()
    }

    pub fn new() -> (r: Self)
        ensures
            r.wf(),
            r@ == Map::<K::V, T::V>::empty(),
    {
        let r = SortedMap { keys: Vec::new(), values: Vec::new() };
        assert(r@ =~= Map::<K::V, T::V>::empty());
        r
    }

    /// The keys, in order.
    pub closed spec fn order(&self) -> Seq<K::V> {
        models(self.keys@)
    }

    /// The keys are in order, and are the keys of the map.
    pub proof fn keys_in_order(&self)
        requires
            self.wf(),
        ensures
            listed::<K>(self.order()),
            self.order().to_set() == self@.dom(),
            forall|p: K::V| #[trigger] self@.dom().contains(p) <==> self.order().contains(p),
    {
        assert(self.order().to_set() =~= self@.dom());
    }

    pub fn len(&self) -> (r: usize)
        requires
            self.wf(),
        ensures
            r == self.order().len(),
    {
        self.keys.len()
    }

    /// The key at place `i` of the order.
    pub fn key_at(&self, i: usize) -> (r: &K)
        requires
            self.wf(),
            i < self.order().len(),
        ensures
            r@ == self.order()[i as int],
    {
        &self.keys[i]
    }

    pub fn is_empty(&self) -> (r: bool)
        requires
            self.wf(),
        ensures
            r == (self@ == Map::<K::V, T::V>::empty()),
    {
        proof {
            if self.keys.len() > 0 {
                assert(models(self.keys@)[0] == self.keys[0]@);
                assert(models(self.keys@).contains(self.keys[0]@));
                assert(self@.dom().contains(self.keys[0]@));
                assert(!Map::<K::V, T::V>::empty().dom().contains(self.keys[0]@));
            } else {
                assert(self@ =~= Map::<K::V, T::V>::empty());
            }
        }
        self.keys.len() == 0
    }

    pub fn clear(&mut self)
        ensures
            final(self).wf(),
            final(self)@ == Map::<K::V, T::V>::empty(),
    {
        self.keys.clear();
        self.values.clear();
        assert(self@ =~= Map::<K::V, T::V>::empty());
    }

    pub fn get(&self, key: &K) -> (r: Option<&T>)
        requires
            self.wf(),
        ensures
            r is Some <==> self@.dom().contains(key@),
            r is Some ==> r->0@ == self@[key@],
    {
        match search(&self.keys, key) {
            Ok(i) => {
                proof {
                    assert(models(self.keys@)[i as int] == key@);
                    lemma_index::<K>(models(self.keys@), i as int);
                }
                Some(&self.values[i])
            },
            Err(_) => None,
        }
    }

    pub fn contains_key(&self, key: &K) -> (r: bool)
        requires
            self.wf(),
        ensures
            r == self@.dom().contains(key@),
    {
        self.get(key).is_some()
    }

    pub fn insert(&mut self, key: K, value: T)
        requires
            old(self).wf(),
        ensures
            final(self).wf(),
            final(self)@ == old(self)@.insert(key@, value@),
    {
        let ghost k0 = models(self.keys@);
        let ghost v0 = self.values@.map_values(|v: T| v@);
        let ghost p = key@;
        let ghost x = value@;
        match search(&self.keys, &key) {
            Ok(i) => {
                assert(k0[i as int] == p);
                self.values.set(i, value);
                proof {
                    lemma_index::<K>(k0, i as int);
                    let v1 = self.values@.map_values(|v: T| v@);
                    assert(v1 =~= v0.update(i as int, x));
                    assert forall|q: K::V| k0.contains(q) && q != p implies v1[k0.index_of(q)]
                        == v0[k0.index_of(q)] by {
                        let j = k0.index_of(q);
                        assert(k0[j] == q);
                    }
                    assert(self@ =~= old(self)@.insert(p, x));
                }
            },
            Err(at) => {
                self.keys.insert(at, key);
                self.values.insert(at, value);
                proof {
                    let k1 = models(self.keys@);
                    let v1 = self.values@.map_values(|v: T| v@);
                    assert(k1 =~= k0.insert(at as int, p));
                    assert(v1 =~= v0.insert(at as int, x));
                    assert forall|i: int, j: int| 0 <= i < j < k1.len() implies K::before(
                        #[trigger] k1[i],
                        #[trigger] k1[j],
                    ) by {
                        let a = if i < at { k0[i] } else if i == at { p } else { k0[i - 1] };
                        let b = if j < at { k0[j] } else if j == at { p } else { k0[j - 1] };
                        assert(k1[i] == a && k1[j] == b);
                    }
                    assert forall|q: K::V| k1.contains(q) <==> k0.contains(q) || q == p by {
                        if k0.contains(q) {
                            let i = k0.index_of(q);
                            assert(k1[if i < at { i } else { i + 1 }] == q);
                        }
                        if q == p {
                            assert(k1[at as int] == q);
                        }
                        if k1.contains(q) {
                            let i = k1.index_of(q);
                            if i < at {
                                assert(k0[i] == q);
                            } else if i > at {
                                assert(k0[i - 1] == q);
                            }
                        }
                    }
                    assert forall|q: K::V| k1.contains(q) implies v1[k1.index_of(q)] == (if q
                        == p {
                        x
                    } else {
                        v0[k0.index_of(q)]
                    }) by {
                        let i = k1.index_of(q);
                        if q == p {
                            assert(k1[at as int] == p);
                            lemma_index::<K>(k1, at as int);
                        } else if i < at {
                            assert(k0[i] == q);
                            lemma_index::<K>(k0, i);
                        } else {
                            assert(i != at);
                            assert(k0[i - 1] == q);
                            lemma_index::<K>(k0, i - 1);
                        }
                    }
                    assert(self@ =~= old(self)@.insert(p, x));
                }
            },
        }
    }

    pub fn remove(&mut self, key: &K)
        requires
            old(self).wf(),
        ensures
            final(self).wf(),
            final(self)@ == old(self)@.remove(key@),
    {
        let ghost k0 = models(self.keys@);
        let ghost v0 = self.values@.map_values(|v: T| v@);
        let ghost p = key@;
        match search(&self.keys, key) {
            Ok(at) => {
                assert(k0[at as int] == p);
                let _ = self.keys.remove(at);
                let _ = self.values.remove(at);
                proof {
                    let k1 = models(self.keys@);
                    let v1 = self.values@.map_values(|v: T| v@);
                    assert(k1 =~= k0.remove(at as int));
                    assert(v1 =~= v0.remove(at as int));
                    lemma_index::<K>(k0, at as int);
                    assert forall|i: int, j: int| 0 <= i < j < k1.len() implies K::before(
                        #[trigger] k1[i],
                        #[trigger] k1[j],
                    ) by {
                        let a = if i < at { k0[i] } else { k0[i + 1] };
                        let b = if j < at { k0[j] } else { k0[j + 1] };
                        assert(k1[i] == a && k1[j] == b);
                    }
                    assert forall|q: K::V| k1.contains(q) <==> k0.contains(q) && q != p by {
                        if k0.contains(q) && q != p {
                            let i = k0.index_of(q);
                            assert(k1[if i < at { i } else { i - 1 }] == q);
                        }
                        if k1.contains(q) {
                            let i = k1.index_of(q);
                            let j = if i < at { i } else { i + 1 };
                            assert(k0[j] == q);
                            lemma_index::<K>(k0, j);
                        }
                    }
                    assert forall|q: K::V| k1.contains(q) implies v1[k1.index_of(q)]
                        == v0[k0.index_of(q)] by {
                        let i = k1.index_of(q);
                        let j = if i < at { i } else { i + 1 };
                        assert(k0[j] == q);
                        lemma_index::<K>(k0, j);
                    }
                    assert(self@ =~= old(self)@.remove(p));
                }
            },
            Err(_) => {
                assert(self@ =~= old(self)@.remove(p));
            },
        }
    }
}

} // verus!
