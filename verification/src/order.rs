//! Strict total orders, the dictionary order over one, and lists that are in
//! order and hold nothing twice.

use vstd::prelude::*;

verus! {

/// How one value stands to another in its order.
#[derive(Clone, Copy, PartialEq, Eq, Structural, Debug)]
pub enum Place {
    Before,
    Same,
    After,
}

/// Where `a` and `b` first differ, and that `a` comes first there.
pub open spec fn first_at<A>(lt: spec_fn(A, A) -> bool, a: Seq<A>, b: Seq<A>, k: int) -> bool {
    &&& 0 <= k <= a.len()
    &&& k < b.len()
    &&& forall|i: int| 0 <= i < k ==> a[i] == b[i]
    &&& (k == a.len() || lt(a[k], b[k]))
}

/// The dictionary order over `lt`.
pub open spec fn dictionary<A>(lt: spec_fn(A, A) -> bool) -> spec_fn(Seq<A>, Seq<A>) -> bool {
    |a: Seq<A>, b: Seq<A>| exists|k: int| first_at(lt, a, b, k)
}

/// A strict total order.
pub open spec fn strict_total<A>(lt: spec_fn(A, A) -> bool) -> bool {
    &&& forall|a: A| !(#[trigger] lt(a, a))
    &&& forall|a: A, b: A, c: A| #[trigger] lt(a, b) && #[trigger] lt(b, c) ==> lt(a, c)
    &&& forall|a: A, b: A| a == b || #[trigger] lt(a, b) || lt(b, a)
}

proof fn lemma_dictionary_total<A>(lt: spec_fn(A, A) -> bool, a: Seq<A>, b: Seq<A>, k: int)
    requires
        strict_total(lt),
        0 <= k <= a.len(),
        k <= b.len(),
        forall|i: int| 0 <= i < k ==> a[i] == b[i],
    ensures
        a == b || dictionary(lt)(a, b) || dictionary(lt)(b, a),
    decreases a.len() - k,
{
    if k == a.len() && k == b.len() {
        assert(a =~= b);
    } else if k == a.len() {
        assert(first_at(lt, a, b, k));
    } else if k == b.len() {
        assert(first_at(lt, b, a, k));
    } else if a[k] == b[k] {
        lemma_dictionary_total(lt, a, b, k + 1);
    } else if lt(a[k], b[k]) {
        assert(first_at(lt, a, b, k));
    } else {
        assert(lt(b[k], a[k]));
        assert(first_at(lt, b, a, k));
    }
}

/// The dictionary order over a strict total order is one too.
pub proof fn lemma_dictionary_order<A>(lt: spec_fn(A, A) -> bool)
    requires
        strict_total(lt),
    ensures
        strict_total(dictionary(lt)),
{
    let d = dictionary(lt);
    assert forall|a: Seq<A>| !(#[trigger] d(a, a)) by {
        if d(a, a) {
            let k = choose|k: int| first_at(lt, a, a, k);
            assert(lt(a[k], a[k]));
        }
    }
    assert forall|a: Seq<A>, b: Seq<A>, c: Seq<A>| #[trigger] d(a, b) && #[trigger] d(b, c) implies d(
        a,
        c,
    ) by {
        let i = choose|k: int| first_at(lt, a, b, k);
        let j = choose|k: int| first_at(lt, b, c, k);
        if i < j {
            assert(b[i] == c[i]);
            assert(first_at(lt, a, c, i));
        } else if j < i {
            assert(a[j] == b[j]);
            assert(first_at(lt, a, c, j));
        } else {
            if i < a.len() {
                assert(lt(a[i], b[i]) && lt(b[i], c[i]));
                assert(lt(a[i], c[i]));
            }
            assert(first_at(lt, a, c, i));
        }
    }
    assert forall|a: Seq<A>, b: Seq<A>| a == b || #[trigger] d(a, b) || d(b, a) by {
        lemma_dictionary_total(lt, a, b, 0);
    }
}

/// A type whose values can be had once more.
pub trait Duplicate: View + Sized {
    /// The same value once more.
    fn duplicate(&self) -> (r: Self)
        ensures
            r@ == self@,
    ;
}

/// A type whose values are in a strict total order of what they are.
pub trait Ordered: Duplicate {
    /// Whether `a` comes before `b`.
    spec fn before(a: Self::V, b: Self::V) -> bool;

    proof fn order_is_total(a: Self::V, b: Self::V, c: Self::V)
        ensures
            !Self::before(a, a),
            Self::before(a, b) && Self::before(b, c) ==> Self::before(a, c),
            a == b || Self::before(a, b) || Self::before(b, a),
            !(Self::before(a, b) && Self::before(b, a)),
    ;

    /// How this value stands to `other`.
    fn place(&self, other: &Self) -> (r: Place)
        ensures
            r == Place::Before <==> Self::before(self@, other@),
            r == Place::Same <==> self@ == other@,
            r == Place::After <==> Self::before(other@, self@),
    ;
}

/// What the values of a list are.
pub open spec fn models<K: View>(s: Seq<K>) -> Seq<K::V> {
    s.map_values(|k: K| k@)
}

/// A list in order, each value in it once.
pub open spec fn listed<K: Ordered>(list: Seq<K::V>) -> bool {
    forall|i: int, j: int| 0 <= i < j < list.len() ==> K::before(#[trigger] list[i], #[trigger] list[j])
}

/// A list in order holds each value at one place only.
proof fn lemma_listed_once<K: Ordered>(list: Seq<K::V>, i: int, j: int)
    requires
        listed::<K>(list),
        0 <= i < list.len(),
        0 <= j < list.len(),
        list[i] == list[j],
    ensures
        i == j,
{
    K::order_is_total(list[i], list[j], list[i]);
}

/// There is one list of given values: two lists in order with the same values in
/// them are the same list.
pub proof fn one_sorted_list<K: Ordered>(a: Seq<K::V>, b: Seq<K::V>)
    requires
        listed::<K>(a),
        listed::<K>(b),
        a.to_set() == b.to_set(),
    ensures
        a == b,
    decreases a.len(),
{
    if a.len() == 0 {
        if b.len() > 0 {
            assert(b.to_set().contains(b[0]));
            assert(a.to_set().contains(b[0]));
        }
        assert(a =~= b);
    } else {
        assert(a.to_set().contains(a.last()));
        assert(b.to_set().contains(a.last()));
        let k = choose|k: int| 0 <= k < b.len() && b[k] == a.last();
        assert(b.to_set().contains(b.last()));
        assert(a.to_set().contains(b.last()));
        let m = choose|m: int| 0 <= m < a.len() && a[m] == b.last();
        K::order_is_total(a.last(), b.last(), a.last());
        if k < b.len() - 1 {
            assert(K::before(b[k], b[b.len() - 1]));
            if m < a.len() - 1 {
                assert(K::before(a[m], a[a.len() - 1]));
            }
        }
        assert(a.last() == b.last());
        let x = a.drop_last();
        let y = b.drop_last();
        assert forall|p: K::V| x.to_set().contains(p) <==> y.to_set().contains(p) by {
            if x.to_set().contains(p) {
                let i = choose|i: int| 0 <= i < x.len() && x[i] == p;
                assert(a[i] == p);
                assert(a.to_set().contains(p) && b.to_set().contains(p));
                let j = choose|j: int| 0 <= j < b.len() && b[j] == p;
                if j == b.len() - 1 {
                    lemma_listed_once::<K>(a, i, a.len() - 1);
                }
                assert(y[j] == p);
            }
            if y.to_set().contains(p) {
                let i = choose|i: int| 0 <= i < y.len() && y[i] == p;
                assert(b[i] == p);
                assert(b.to_set().contains(p) && a.to_set().contains(p));
                let j = choose|j: int| 0 <= j < a.len() && a[j] == p;
                if j == a.len() - 1 {
                    lemma_listed_once::<K>(b, i, b.len() - 1);
                }
                assert(x[j] == p);
            }
        }
        assert(x.to_set() =~= y.to_set());
        one_sorted_list::<K>(x, y);
        assert(a =~= x.push(a.last()));
        assert(b =~= y.push(b.last()));
    }
}

/// Where `key` is in the list (`Ok`), or where it would have to go (`Err`).
pub fn search<K: Ordered>(list: &Vec<K>, key: &K) -> (r: Result<usize, usize>)
    requires
        listed::<K>(models(list@)),
    ensures
        match r {
            Ok(i) => i < list.len() && list[i as int]@ == key@,
            Err(i) => {
                &&& i <= list.len()
                &&& forall|j: int| 0 <= j < i ==> K::before(#[trigger] models(list@)[j], key@)
                &&& forall|j: int|
                    i <= j < list.len() ==> K::before(key@, #[trigger] models(list@)[j])
            },
        },
        r is Ok <==> models(list@).contains(key@),
{
    let ghost m = models(list@);
    let mut lo: usize = 0;
    let mut hi: usize = list.len();
    while lo < hi
        invariant
            m == models(list@),
            listed::<K>(m),
            lo <= hi <= list.len(),
            forall|j: int| 0 <= j < lo ==> K::before(#[trigger] m[j], key@),
            forall|j: int| hi <= j < list.len() ==> K::before(key@, #[trigger] m[j]),
        decreases hi - lo,
    {
        let mid: usize = lo + (hi - lo) / 2;
        assert(m[mid as int] == list[mid as int]@);
        match list[mid].place(key) {
            Place::Same => {
                assert(m.contains(key@));
                return Ok(mid);
            },
            Place::Before => {
                assert forall|j: int| 0 <= j < mid + 1 implies K::before(#[trigger] m[j], key@) by {
                    if j < mid {
                        K::order_is_total(m[j], m[mid as int], key@);
                    }
                }
                lo = mid + 1;
            },
            Place::After => {
                assert forall|j: int| mid <= j < list.len() implies K::before(
                    key@,
                    #[trigger] m[j],
                ) by {
                    if j > mid {
                        K::order_is_total(key@, m[mid as int], m[j]);
                    }
                }
                hi = mid;
            },
        }
    }
    proof {
        if m.contains(key@) {
            let k = choose|k: int| 0 <= k < m.len() && m[k] == key@;
            K::order_is_total(key@, key@, key@);
            assert(K::before(m[k], key@) || K::before(key@, m[k]));
        }
    }
    Err(lo)
}

/// Whether `key` is in the list.
pub fn contains<K: Ordered>(list: &Vec<K>, key: &K) -> (r: bool)
    requires
        listed::<K>(models(list@)),
    ensures
        r == models(list@).contains(key@),
{
    search(list, key).is_ok()
}

/// Put `key` into the list, at its place.
pub fn insert_sorted<K: Ordered>(list: &mut Vec<K>, key: K)
    requires
        listed::<K>(models(old(list)@)),
    ensures
        listed::<K>(models(final(list)@)),
        models(final(list)@).to_set() == models(old(list)@).to_set().insert(key@),
        models(old(list)@).contains(key@) ==> final(list)@ == old(list)@,
{
    let ghost before = models(list@);
    match search(list, &key) {
        Ok(_) => {
            assert(before.to_set() =~= before.to_set().insert(key@));
        },
        Err(at) => {
            let ghost p = key@;
            list.insert(at, key);
            let ghost after = models(list@);
            proof {
                assert(after =~= before.insert(at as int, p));
                assert(listed::<K>(after)) by {
                    assert forall|i: int, j: int| 0 <= i < j < after.len() implies K::before(
                        #[trigger] after[i],
                        #[trigger] after[j],
                    ) by {
                        let x = if i < at { before[i] } else if i == at { p } else { before[i - 1] };
                        let y = if j < at { before[j] } else if j == at { p } else { before[j - 1] };
                        assert(after[i] == x && after[j] == y);
                    }
                }
                assert forall|q: K::V| after.to_set().contains(q) <==> before.to_set().insert(
                    p,
                ).contains(q) by {
                    if before.to_set().contains(q) {
                        let i = choose|i: int| 0 <= i < before.len() && before[i] == q;
                        assert(after[if i < at { i } else { i + 1 }] == q);
                    }
                    if q == p {
                        assert(after[at as int] == q);
                    }
                    if after.to_set().contains(q) {
                        let i = choose|i: int| 0 <= i < after.len() && after[i] == q;
                        if i < at {
                            assert(before[i] == q);
                        } else if i > at {
                            assert(before[i - 1] == q);
                        }
                    }
                }
                assert(after.to_set() =~= before.to_set().insert(p));
            }
        },
    }
}

/// Take `key` out of the list.
pub fn remove_sorted<K: Ordered>(list: &mut Vec<K>, key: &K)
    requires
        listed::<K>(models(old(list)@)),
    ensures
        listed::<K>(models(final(list)@)),
        models(final(list)@).to_set() == models(old(list)@).to_set().remove(key@),
        !models(old(list)@).contains(key@) ==> final(list)@ == old(list)@,
{
    let ghost before = models(list@);
    let ghost p = key@;
    match search(list, key) {
        Ok(at) => {
            assert(before[at as int] == p);
            let _ = list.remove(at);
            let ghost after = models(list@);
            proof {
                assert(after =~= before.remove(at as int));
                assert forall|i: int, j: int| 0 <= i < j < after.len() implies K::before(
                    #[trigger] after[i],
                    #[trigger] after[j],
                ) by {
                    let x = if i < at { before[i] } else { before[i + 1] };
                    let y = if j < at { before[j] } else { before[j + 1] };
                    assert(after[i] == x && after[j] == y);
                }
                assert forall|q: K::V| after.to_set().contains(q) <==> before.to_set().remove(
                    p,
                ).contains(q) by {
                    if before.to_set().remove(p).contains(q) {
                        let i = choose|i: int| 0 <= i < before.len() && before[i] == q;
                        assert(after[if i < at { i } else { i - 1 }] == q);
                    }
                    if after.to_set().contains(q) {
                        let i = choose|i: int| 0 <= i < after.len() && after[i] == q;
                        let j = if i < at { i } else { i + 1 };
                        assert(before[j] == q);
                        if q == p {
                            lemma_listed_once::<K>(before, j, at as int);
                        }
                    }
                }
                assert(after.to_set() =~= before.to_set().remove(p));
            }
        },
        Err(_) => {
            assert(before.to_set() =~= before.to_set().remove(p));
        },
    }
}

/// The values that are not among `gone`.
pub fn without<K: Ordered>(list: &Vec<K>, gone: &Vec<K>) -> (r: Vec<K>)
    requires
        listed::<K>(models(list@)),
        listed::<K>(models(gone@)),
    ensures
        listed::<K>(models(r@)),
        models(r@).to_set() == models(list@).to_set().difference(models(gone@).to_set()),
{
    let ghost m = models(list@);
    let ghost g = models(gone@);
    let mut r: Vec<K> = Vec::new();
    let mut i: usize = 0;
    assert(models(r@).to_set() =~= m.take(0).to_set().difference(g.to_set()));
    while i < list.len()
        invariant
            i <= list.len(),
            m == models(list@),
            g == models(gone@),
            listed::<K>(m),
            listed::<K>(g),
            listed::<K>(models(r@)),
            forall|j: int, k: int|
                0 <= j < r.len() && i <= k < m.len() ==> K::before(
                    #[trigger] models(r@)[j],
                    #[trigger] m[k],
                ),
            models(r@).to_set() == m.take(i as int).to_set().difference(g.to_set()),
        decreases list.len() - i,
    {
        let ghost r0 = models(r@);
        proof {
            assert(m.take(i + 1) =~= m.take(i as int).push(m[i as int]));
            lemma_push_to_set(m.take(i as int), m[i as int]);
            lemma_push_to_set(r0, m[i as int]);
        }
        if !contains(gone, &list[i]) {
            r.push(list[i].duplicate());
            assert(models(r@) =~= r0.push(m[i as int]));
        }
        assert(models(r@).to_set() =~= m.take(i + 1).to_set().difference(g.to_set()));
        i += 1;
    }
    assert(m.take(i as int) =~= m);
    r
}

/// The values in order, each of them once.
pub fn sort_distinct<K: Ordered>(keys: &Vec<K>) -> (r: Vec<K>)
    ensures
        listed::<K>(models(r@)),
        models(r@).to_set() == models(keys@).to_set(),
{
    let mut r: Vec<K> = Vec::new();
    let mut i: usize = 0;
    assert(models(r@).to_set() =~= models(keys@.take(0)).to_set());
    while i < keys.len()
        invariant
            i <= keys.len(),
            listed::<K>(models(r@)),
            models(r@).to_set() == models(keys@.take(i as int)).to_set(),
        decreases keys.len() - i,
    {
        insert_sorted(&mut r, keys[i].duplicate());
        proof {
            let x = models(keys@.take(i as int));
            let y = models(keys@.take(i + 1));
            assert(y =~= x.push(keys[i as int]@));
            lemma_push_to_set(x, keys[i as int]@);
        }
        i += 1;
    }
    assert(keys@.take(i as int) =~= keys@);
    r
}

/// The set of a sequence with one more element.
pub proof fn lemma_push_to_set<A>(s: Seq<A>, a: A)
    ensures
        s.push(a).to_set() == s.to_set().insert(a),
{
    assert forall|x: A| s.push(a).to_set().contains(x) <==> s.to_set().insert(a).contains(x) by {
        if s.to_set().contains(x) {
            let i = choose|i: int| 0 <= i < s.len() && s[i] == x;
            assert(s.push(a)[i] == x);
        }
        if x == a {
            assert(s.push(a)[s.len() as int] == x);
        }
        if s.push(a).to_set().contains(x) {
            let i = choose|i: int| 0 <= i < s.push(a).len() && s.push(a)[i] == x;
            if i < s.len() {
                assert(s[i] == x);
            }
        }
    }
    assert(s.push(a).to_set() =~= s.to_set().insert(a));
}

} // verus!
