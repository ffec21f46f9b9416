//! The two storage shapes the contracts keep their state in:
//! an insertion-ordered key/value map (keys keep their place when a value is
//! replaced, and the others keep their order when one is removed), and an
//! unordered set whose removal moves the last item into the freed slot.
use vstd::prelude::*;
use crate::bytes::{KeyEq, Stored};

verus! {

/// Insertion-ordered map. `view()` is the mapping, `order()` the keys in
/// iteration order.
pub struct KeyedMap<K: KeyEq, V: Stored> {
    keys: Vec<K>,
    vals: Vec<V>,
    m: Ghost<Map<K::V, V::V>>,
}

impl<K: KeyEq, V: Stored> View for KeyedMap<K, V> {
    type V = Map<K::V, V::V>;

    closed spec fn view(&self) -> Map<K::V, V::V> {
        self.m@
    }
}

impl<K: KeyEq, V: Stored> KeyedMap<K, V> {
    /// The keys in iteration order.
    pub closed spec fn order(self) -> Seq<K::V> {
        Seq::new(self.keys@.len(), |i: int| self.keys@[i]@)
    }

    /// Internal consistency: one value per key, no key twice, and the
    /// mapping is exactly what the two vectors hold.
    pub closed spec fn wf(self) -> bool {
        &&& self.keys@.len() == self.vals@.len()
        &&& forall|i: int, j: int|
            0 <= i < self.keys@.len() && 0 <= j < self.keys@.len() && i != j
                ==> #[trigger] self.keys@[i]@ != #[trigger] self.keys@[j]@
        &&& forall|i: int|
            0 <= i < self.keys@.len() ==> #[trigger] self.m@.contains_key(self.keys@[i]@)
                && self.m@[self.keys@[i]@] == self.vals@[i]@
        &&& forall|k: K::V|
            #[trigger] self.m@.contains_key(k) ==> exists|i: int|
                0 <= i < self.keys@.len() && #[trigger] self.keys@[i]@ == k
    }

    /// What a well-formed map guarantees: the order lists each key of the
    /// mapping exactly once.
    pub proof fn lemma_wf(self)
        requires
            self.wf(),
        ensures
            self.order().no_duplicates(),
            forall|k: K::V| self@.contains_key(k) <==> #[trigger] self.order().contains(k),
            self@.dom().finite(),
            self@.len() == self.order().len(),
    {
        let o = self.order();
        assert forall|k: K::V| self@.contains_key(k) <==> #[trigger] o.contains(k) by {
            if self@.contains_key(k) {
                let i = choose|i: int| 0 <= i < self.keys@.len() && #[trigger] self.keys@[i]@ == k;
                assert(o[i] == k);
            }
            if o.contains(k) {
                let i = choose|i: int| 0 <= i < o.len() && o[i] == k;
                assert(self.keys@[i]@ == k);
            }
        }
        assert(self@.dom() =~= o.to_set());
        assert forall|i: int, j: int| 0 <= i < o.len() && 0 <= j < o.len() && i != j implies o[i]
            != o[j] by {
            assert(self.keys@[i]@ != self.keys@[j]@);
        }
        o.unique_seq_to_set();
        vstd::seq_lib::seq_to_set_is_finite(o);
    }

    pub fn new() -> (r: Self)
        ensures
            r.wf(),
            r@ == Map::<K::V, V::V>::empty(),
            r.order() == Seq::<K::V>::empty(),
    {
        let r = KeyedMap { keys: Vec::new(), vals: Vec::new(), m: Ghost(Map::empty()) };
        assert(r.order() =~= Seq::<K::V>::empty());
        r
    }

    pub fn len(&self) -> (r: usize)
        requires
            self.wf(),
        ensures
            r == self.order().len(),
            r == self@.len(),
    {
        proof {
            self.lemma_wf();
        }
        self.keys.len()
    }

    /// Position of `k` in the iteration order.
    pub fn find(&self, k: &K) -> (r: Option<usize>)
        requires
            self.wf(),
        ensures
            r is Some <==> self@.contains_key(k@),
            r matches Some(i) ==> i < self.order().len() && self.order()[i as int] == k@,
    {
        let n = self.keys.len();
        for i in 0..n
            invariant
                n == self.keys@.len(),
                self.wf(),
                forall|j: int| 0 <= j < i ==> self.keys@[j]@ != k@,
        {
            if self.keys[i].key_eq(k) {
                return Some(i);
            }
        }
        proof {
            if self@.contains_key(k@) {
                let j = choose|j: int| 0 <= j < self.keys@.len() && #[trigger] self.keys@[j]@ == k@;
                assert(self.keys@[j]@ == k@);
            }
        }
        None
    }

    pub fn contains_key(&self, k: &K) -> (r: bool)
        requires
            self.wf(),
        ensures
            r == self@.contains_key(k@),
    {
        self.find(k).is_some()
    }

    pub fn key_at(&self, i: usize) -> (r: &K)
        requires
            self.wf(),
            i < self.order().len(),
        ensures
            r@ == self.order()[i as int],
            self@.contains_key(r@),
    {
        &self.keys[i]
    }

    pub fn value_at(&self, i: usize) -> (r: &V)
        requires
            self.wf(),
            i < self.order().len(),
        ensures
            r@ == self@[self.order()[i as int]],
    {
        proof {
            assert(self.m@.contains_key(self.keys@[i as int]@));
        }
        &self.vals[i]
    }

    pub fn get(&self, k: &K) -> (r: Option<&V>)
        requires
            self.wf(),
        ensures
            r is Some <==> self@.contains_key(k@),
            r matches Some(v) ==> v@ == self@[k@],
    {
        match self.find(k) {
            Some(i) => Some(&self.vals[i]),
            None => None,
        }
    }

    /// Sets the value for `k`: a present key keeps its place, a new key goes last.
    pub fn insert(&mut self, k: K, v: V)
        requires
            old(self).wf(),
        ensures
            final(self).wf(),
            final(self)@ == old(self)@.insert(k@, v@),
            final(self).order() == (if old(self)@.contains_key(k@) {
                old(self).order()
            } else {
                old(self).order().push(k@)
            }),
    {
        match self.find(&k) {
            Some(i) => {
                let ghost kv = k@;
                self.vals.set(i, v);
                self.m = Ghost(self.m@.insert(kv, v@));
                assert(self.order() =~= old(self).order());
                assert forall|k2: K::V| #[trigger] self.m@.contains_key(k2) implies exists|j: int|
                    0 <= j < self.keys@.len() && #[trigger] self.keys@[j]@ == k2 by {
                    if k2 != kv {
                        assert(old(self).m@.contains_key(k2));
                    } else {
                        assert(self.keys@[i as int]@ == k2);
                    }
                }
            },
            None => {
                let ghost kv = k@;
                let ghost n = self.keys@.len();
                self.keys.push(k);
                self.vals.push(v);
                self.m = Ghost(self.m@.insert(kv, v@));
                assert(self.order() =~= old(self).order().push(kv));
                assert forall|i: int| 0 <= i < self.keys@.len() implies #[trigger] self.m@.contains_key(
                    self.keys@[i]@,
                ) && self.m@[self.keys@[i]@] == self.vals@[i]@ by {
                    if i < n {
                        assert(old(self).m@.contains_key(old(self).keys@[i]@));
                        assert(self.keys@[i]@ != kv) by {
                            if self.keys@[i]@ == kv {
                                assert(old(self)@.contains_key(kv));
                            }
                        }
                    }
                }
                assert forall|k2: K::V| #[trigger] self.m@.contains_key(k2) implies exists|j: int|
                    0 <= j < self.keys@.len() && #[trigger] self.keys@[j]@ == k2 by {
                    if k2 != kv {
                        assert(old(self).m@.contains_key(k2));
                        let j = choose|j: int|
                            0 <= j < old(self).keys@.len() && #[trigger] old(self).keys@[j]@ == k2;
                        assert(self.keys@[j]@ == k2);
                    } else {
                        assert(self.keys@[n as int]@ == k2);
                    }
                }
                assert forall|i: int, j: int|
                    0 <= i < self.keys@.len() && 0 <= j < self.keys@.len() && i != j
                        implies #[trigger] self.keys@[i]@ != #[trigger] self.keys@[j]@ by {
                    if i < n && j < n {
                    } else if i < n {
                        assert(old(self).m@.contains_key(old(self).keys@[i]@));
                    } else {
                        assert(old(self).m@.contains_key(old(self).keys@[j]@));
                    }
                }
            },
        }
    }

    /// Replaces the value at position `i`, handing back the value that was there.
    pub fn swap_value_at(&mut self, i: usize, v: V) -> (prev: V)
        requires
            old(self).wf(),
            i < old(self).order().len(),
        ensures
            final(self).wf(),
            final(self).order() == old(self).order(),
            final(self)@ == old(self)@.insert(old(self).order()[i as int], v@),
            prev@ == old(self)@[old(self).order()[i as int]],
    {
        let ghost kv = self.keys@[i as int]@;
        let ghost vv = v@;
        assert(self.m@.contains_key(self.keys@[i as int]@));
        let mut tmp = v;
        self.vals.set_and_swap(i, &mut tmp);
        self.m = Ghost(self.m@.insert(kv, vv));
        assert(self.order() =~= old(self).order());
        assert forall|k2: K::V| #[trigger] self.m@.contains_key(k2) implies exists|j: int|
            0 <= j < self.keys@.len() && #[trigger] self.keys@[j]@ == k2 by {
            if k2 != kv {
                assert(old(self).m@.contains_key(k2));
            } else {
                assert(self.keys@[i as int]@ == k2);
            }
        }
        tmp
    }

    /// Removes the entry at position `i`; the other keys keep their order.
    pub fn remove_at(&mut self, i: usize) -> (r: (K, V))
        requires
            old(self).wf(),
            i < old(self).order().len(),
        ensures
            final(self).wf(),
            final(self)@ == old(self)@.remove(old(self).order()[i as int]),
            final(self).order() == old(self).order().remove(i as int),
            r.0@ == old(self).order()[i as int],
            r.1@ == old(self)@[old(self).order()[i as int]],
    {
        let ghost kv = self.keys@[i as int]@;
        let ghost n = self.keys@.len();
        assert(self.m@.contains_key(self.keys@[i as int]@));
        let k = self.keys.remove(i);
        let v = self.vals.remove(i);
        self.m = Ghost(self.m@.remove(kv));
        assert(self.order() =~= old(self).order().remove(i as int));
        assert forall|a: int, b: int|
            0 <= a < self.keys@.len() && 0 <= b < self.keys@.len() && a != b
                implies #[trigger] self.keys@[a]@ != #[trigger] self.keys@[b]@ by {
            let oa = if a < i { a } else { a + 1 };
            let ob = if b < i { b } else { b + 1 };
            assert(self.keys@[a] == old(self).keys@[oa]);
            assert(self.keys@[b] == old(self).keys@[ob]);
            assert(old(self).keys@[oa]@ != old(self).keys@[ob]@);
        }
        assert forall|a: int| 0 <= a < self.keys@.len() implies #[trigger] self.m@.contains_key(
            self.keys@[a]@,
        ) && self.m@[self.keys@[a]@] == self.vals@[a]@ by {
            let oa = if a < i { a } else { a + 1 };
            assert(self.keys@[a] == old(self).keys@[oa]);
            assert(self.vals@[a] == old(self).vals@[oa]);
            assert(old(self).m@.contains_key(old(self).keys@[oa]@));
            assert(old(self).keys@[oa]@ != old(self).keys@[i as int]@);
        }
        assert forall|k2: K::V| #[trigger] self.m@.contains_key(k2) implies exists|j: int|
            0 <= j < self.keys@.len() && #[trigger] self.keys@[j]@ == k2 by {
            assert(old(self).m@.contains_key(k2));
            let j = choose|j: int|
                0 <= j < old(self).keys@.len() && #[trigger] old(self).keys@[j]@ == k2;
            assert(j != i);
            if j < i {
                assert(self.keys@[j]@ == k2);
            } else {
                assert(self.keys@[j - 1]@ == k2);
            }
        }
        (k, v)
    }

    /// Removes `k` if present, handing back its value.
    pub fn remove(&mut self, k: &K) -> (r: Option<V>)
        requires
            old(self).wf(),
        ensures
            final(self).wf(),
            final(self)@ == old(self)@.remove(k@),
            r is Some <==> old(self)@.contains_key(k@),
            r matches Some(v) ==> v@ == old(self)@[k@],
            final(self).order() == (if old(self)@.contains_key(k@) {
                old(self).order().remove(old(self).order().index_of(k@))
            } else {
                old(self).order()
            }),
    {
        match self.find(k) {
            Some(i) => {
                proof {
                    self.lemma_wf();
                    let o = self.order();
                    assert(o.contains(k@));
                    let j = o.index_of(k@);
                    assert(o[j] == k@);
                    assert(j == i);
                }
                let (_, v) = self.remove_at(i);
                Some(v)
            },
            None => {
                assert(self@.remove(k@) =~= self@);
                None
            },
        }
    }
}

/// A set kept as a sequence: insertion appends, removal moves the last item
/// into the freed slot. `view()` is the sequence in iteration order.
pub struct SwapSet<T: KeyEq> {
    items: Vec<T>,
}

impl<T: KeyEq> View for SwapSet<T> {
    type V = Seq<T::V>;

    closed spec fn view(&self) -> Seq<T::V> {
        Seq::new(self.items@.len(), |i: int| self.items@[i]@)
    }
}

/// The sequence after a swap-removal of position `i`.
pub open spec fn swap_removed<A>(s: Seq<A>, i: int) -> Seq<A> {
    if i == s.len() - 1 {
        s.drop_last()
    } else {
        s.update(i, s.last()).drop_last()
    }
}

impl<T: KeyEq> SwapSet<T> {
    pub open spec fn wf(self) -> bool {
        self@.no_duplicates()
    }

    pub fn new() -> (r: Self)
        ensures
            r.wf(),
            r@ == Seq::<T::V>::empty(),
    {
        let r = SwapSet { items: Vec::new() };
        assert(r@ =~= Seq::<T::V>::empty());
        r
    }

    pub fn len(&self) -> (r: usize)
        ensures
            r == self@.len(),
    {
        self.items.len()
    }

    pub fn item_at(&self, i: usize) -> (r: &T)
        requires
            i < self@.len(),
        ensures
            r@ == self@[i as int],
    {
        &self.items[i]
    }

    pub fn find(&self, x: &T) -> (r: Option<usize>)
        ensures
            r is Some <==> self@.contains(x@),
            r matches Some(i) ==> i < self@.len() && self@[i as int] == x@,
    {
        let n = self.items.len();
        for i in 0..n
            invariant
                n == self@.len(),
                forall|j: int| 0 <= j < i ==> self@[j] != x@,
        {
            if self.items[i].key_eq(x) {
                assert(self@[i as int] == x@);
                return Some(i);
            }
        }
        None
    }

    pub fn contains(&self, x: &T) -> (r: bool)
        ensures
            r == self@.contains(x@),
    {
        self.find(x).is_some()
    }

    /// Appends `x` unless it is already present; tells whether it was added.
    pub fn insert(&mut self, x: T) -> (added: bool)
        requires
            old(self).wf(),
        ensures
            final(self).wf(),
            added == !old(self)@.contains(x@),
            final(self)@ == (if added { old(self)@.push(x@) } else { old(self)@ }),
    {
        if self.contains(&x) {
            false
        } else {
            let ghost xv = x@;
            self.items.push(x);
            assert(self@ =~= old(self)@.push(xv));
            assert forall|i: int, j: int|
                0 <= i < self@.len() && 0 <= j < self@.len() && i != j implies self@[i]
                != self@[j] by {
                if i == old(self)@.len() as int {
                    assert(!old(self)@.contains(xv));
                    assert(old(self)@[j] != xv);
                } else if j == old(self)@.len() as int {
                    assert(old(self)@[i] != xv);
                }
            }
            true
        }
    }

    /// Removes `x` if present, moving the last item into its slot; tells
    /// whether it was present.
    pub fn swap_remove(&mut self, x: &T) -> (removed: bool)
        requires
            old(self).wf(),
        ensures
            final(self).wf(),
            removed == old(self)@.contains(x@),
            final(self)@ == (if removed {
                swap_removed(old(self)@, old(self)@.index_of(x@))
            } else {
                old(self)@
            }),
    {
        match self.find(x) {
            None => false,
            Some(i) => {
                proof {
                    let s = old(self)@;
                    let j = s.index_of(x@);
                    assert(s[j] == x@);
                    assert(j == i);
                }
                let ghost s = old(self)@;
                self.items.swap_remove(i);
                assert(self@ =~= swap_removed(s, i as int));
                assert forall|a: int, b: int|
                    0 <= a < self@.len() && 0 <= b < self@.len() && a != b implies self@[a]
                    != self@[b] by {
                    let last = s.len() - 1;
                    let oa = if a == i { last } else { a };
                    let ob = if b == i { last } else { b };
                    assert(self@[a] == s[oa]);
                    assert(self@[b] == s[ob]);
                }
                true
            },
        }
    }

    /// Copies of the items in iteration order.
    pub fn to_vec(&self) -> (r: Vec<T>)
        ensures
            r@.map_values(|x: T| x@) == self@,
    {
        let mut out: Vec<T> = Vec::new();
        let n = self.items.len();
        for i in 0..n
            invariant
                n == self@.len(),
                out@.len() == i,
                forall|j: int| 0 <= j < i ==> #[trigger] out@[j]@ == self@[j],
        {
            out.push(self.items[i].dup());
        }
        assert(out@.map_values(|x: T| x@) =~= self@);
        out
    }
}

impl<T: KeyEq> Stored for SwapSet<T> {
    fn dup(&self) -> (r: SwapSet<T>) {
        let mut items: Vec<T> = Vec::new();
        let n = self.items.len();
        for i in 0..n
            invariant
                n == self@.len(),
                items@.len() == i,
                forall|j: int| 0 <= j < i ==> #[trigger] items@[j]@ == self@[j],
        {
            items.push(self.items[i].dup());
        }
        let r = SwapSet { items };
        assert(r@ =~= self@);
        r
    }
}

} // verus!
