//! A map from texts: a list of entries, of which a later one with the same key
//! counts.

use crate::order::Duplicate;
use vstd::prelude::*;

verus! {

/// A map from texts.
pub struct Assoc<T> {
    pub entries: Vec<(String, T)>,
}

/// What the entries say, a later one over an earlier one.
pub open spec fn map_of<T: View>(entries: Seq<(String, T)>) -> Map<Seq<char>, T::V>
    decreases entries.len(),
{
    if entries.len() == 0 {
        Map::empty()
    } else {
        map_of(entries.drop_last()).insert(entries.last().0@, entries.last().1@)
    }
}

impl<T: View> View for Assoc<T> {
    type V = Map<Seq<char>, T::V>;

    open spec fn view(&self) -> Map<Seq<char>, T::V> {
        map_of(self.entries@)
    }
}

/// The map with the later entries over it.
proof fn lemma_map_of_add<T: View>(a: Seq<(String, T)>, b: Seq<(String, T)>)
    ensures
        map_of(a + b) == map_of(a).union_prefer_right(map_of(b)),
    decreases b.len(),
{
    if b.len() == 0 {
        assert(a + b =~= a);
        assert(map_of(a) =~= map_of(a).union_prefer_right(map_of(b)));
    } else {
        assert((a + b).drop_last() =~= a + b.drop_last());
        lemma_map_of_add(a, b.drop_last());
        assert(map_of(a + b) =~= map_of(a).union_prefer_right(map_of(b)));
    }
}

impl<T: Duplicate> Assoc<T> {
    pub fn new() -> (r: Self)
        ensures
            r@ == Map::<Seq<char>, T::V>::empty(),
    {
        Assoc { entries: Vec::new() }
    }

    pub fn get(&self, key: &String) -> (r: Option<&T>)
        ensures
            r is Some <==> self@.dom().contains(key@),
            r is Some ==> r->0@ == self@[key@],
    {
        let mut n: usize = self.entries.len();
        assert(self.entries@.take(n as int) =~= self.entries@);
        while n > 0
            invariant
                n <= self.entries.len(),
                self@.dom().contains(key@) <==> map_of(self.entries@.take(n as int)).dom().contains(
                    key@,
                ),
                self@.dom().contains(key@) ==> self@[key@] == map_of(
                    self.entries@.take(n as int),
                )[key@],
            decreases n,
        {
            assert(self.entries@.take(n as int).drop_last() =~= self.entries@.take(n - 1));
            assert(self.entries@.take(n as int).last() == self.entries[n - 1]);
            n -= 1;
            if self.entries[n].0 == *key {
                return Some(&self.entries[n].1);
            }
        }
        None
    }

    pub fn contains_key(&self, key: &String) -> (r: bool)
        ensures
            r == self@.dom().contains(key@),
    {
        self.get(key).is_some()
    }

    pub fn insert(&mut self, key: String, value: T)
        ensures
            final(self)@ == old(self)@.insert(key@, value@),
    {
        let ghost e = self.entries@;
        self.entries.push((key, value));
        assert(self.entries@.drop_last() =~= e);
    }

    pub fn remove(&mut self, key: &String)
        ensures
            final(self)@ == old(self)@.remove(key@),
    {
        let mut kept: Vec<(String, T)> = Vec::new();
        let mut i: usize = 0;
        assert(map_of(kept@) =~= map_of(self.entries@.take(0)).remove(key@));
        while i < self.entries.len()
            invariant
                i <= self.entries.len(),
                self.entries@ == old(self).entries@,
                map_of(kept@) == map_of(self.entries@.take(i as int)).remove(key@),
            decreases self.entries.len() - i,
        {
            let ghost k0 = kept@;
            assert(self.entries@.take(i + 1).drop_last() =~= self.entries@.take(i as int));
            if self.entries[i].0 != *key {
                kept.push((self.entries[i].0.clone(), self.entries[i].1.duplicate()));
                assert(kept@.drop_last() =~= k0);
            }
            assert(map_of(kept@) =~= map_of(self.entries@.take(i + 1)).remove(key@));
            i += 1;
        }
        assert(self.entries@.take(i as int) =~= self.entries@);
        self.entries = kept;
    }

    /// Put every entry of `other` over those here.
    pub fn extend(&mut self, other: Assoc<T>)
        ensures
            final(self)@ == old(self)@.union_prefer_right(other@),
    {
        let mut other = other;
        proof {
            lemma_map_of_add(self.entries@, other.entries@);
        }
        self.entries.append(&mut other.entries);
    }
}

impl<T: Duplicate> Duplicate for Assoc<T> {
    fn duplicate(&self) -> (r: Self) {
        let mut entries: Vec<(String, T)> = Vec::new();
        let mut i: usize = 0;
        while i < self.entries.len()
            invariant
                i <= self.entries.len(),
                map_of(entries@) == map_of(self.entries@.take(i as int)),
            decreases self.entries.len() - i,
        {
            let ghost e0 = entries@;
            entries.push((self.entries[i].0.clone(), self.entries[i].1.duplicate()));
            assert(entries@.drop_last() =~= e0);
            assert(self.entries@.take(i + 1).drop_last() =~= self.entries@.take(i as int));
            i += 1;
        }
        assert(self.entries@.take(i as int) =~= self.entries@);
        Assoc { entries }
    }
}

} // verus!
