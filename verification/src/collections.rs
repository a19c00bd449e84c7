//! Small collections whose elements are told apart by their views.

use vstd::prelude::*;

verus! {

/// Equality of views, decided at run time.
pub trait ViewEq: View {
    /// Whether the two values have the same view.
    fn view_eq(&self, other: &Self) -> (same: bool)
        ensures
            same == (self@ == other@),
    ;
}

/// Copies that keep the view.
pub trait ViewClone: View + Sized {
    /// A value with the same view.
    fn view_clone(&self) -> (copy: Self)
        ensures
            copy@ == self@,
    ;
}

/// The views of the elements of a sequence.
pub open spec fn view_set<T: View>(items: Seq<T>) -> Set<T::V> {
    Set::new(|v: T::V| exists|i: int| 0 <= i < items.len() && (#[trigger] items[i])@ == v)
}

/// A sequence of one element has one view.
pub proof fn view_set_singleton<T: View>(items: Seq<T>)
    requires
        items.len() == 1,
    ensures
        view_set(items) == set![items[0]@],
{
    assert forall|v: T::V| set![items[0]@].contains(v) implies view_set(items).contains(v) by {
        assert(items[0]@ == v);
    }
    assert(view_set(items) =~= set![items[0]@]);
}

impl ViewEq for String {
    fn view_eq(&self, other: &Self) -> (same: bool) {
        *self == *other
    }
}

impl ViewClone for String {
    fn view_clone(&self) -> (copy: Self) {
        self.clone()
    }
}

impl<'a, T: ViewEq> ViewEq for &'a T {
    fn view_eq(&self, other: &Self) -> (same: bool) {
        (**self).view_eq(*other)
    }
}

/// A set of values, no two of which have the same view.
#[derive(Debug)]
pub struct VecSet<T: ViewEq> {
    items: Vec<T>,
}

impl<T: ViewEq> View for VecSet<T> {
    type V = Set<T::V>;

    /// The views of the elements.
    closed spec fn view(&self) -> Set<T::V> {
        Set::new(
            |v: T::V|
                exists|i: int| 0 <= i < self.items@.len() && (#[trigger] self.items@[i])@ == v,
        )
    }
}

impl<T: ViewEq> VecSet<T> {
    #[verifier::type_invariant]
    closed spec fn distinct(self) -> bool {
        forall|i: int, j: int|
            0 <= i < j < self.items@.len() ==> (#[trigger] self.items@[i])@ != (
            #[trigger] self.items@[j])@
    }

    /// The empty set.
    pub fn new() -> (set: Self)
        ensures
            set@ == Set::<T::V>::empty(),
    {
        let set = VecSet { items: Vec::new() };
        assert(set@ =~= Set::<T::V>::empty());
        set
    }

    fn position(&self, item: &T) -> (position: Option<usize>)
        ensures
            match position {
                Some(i) => i < self.items@.len() && self.items@[i as int]@ == item@,
                None => !self@.contains(item@),
            },
    {
        let mut i: usize = 0;
        while i < self.items.len()
            invariant
                i <= self.items@.len(),
                forall|j: int| 0 <= j < i ==> (#[trigger] self.items@[j])@ != item@,
            decreases self.items@.len() - i,
        {
            if self.items[i].view_eq(item) {
                return Some(i);
            }
            i = i + 1;
        }
        None
    }

    /// Whether the set holds a value with the view of `item`.
    pub fn contains(&self, item: &T) -> (found: bool)
        ensures
            found == self@.contains(item@),
    {
        self.position(item).is_some()
    }

    /// Adds `item`, unless the set already holds a value with its view. Returns whether `item`
    /// was added.
    pub fn insert(&mut self, item: T) -> (added: bool)
        ensures
            final(self)@ == old(self)@.insert(item@),
            added == !old(self)@.contains(item@),
    {
        proof {
            use_type_invariant(&*self);
        }
        if self.contains(&item) {
            assert(self@ =~= old(self)@.insert(item@));
            return false;
        }
        let mut items: Vec<T> = Vec::new();
        core::mem::swap(&mut items, &mut self.items);
        let ghost before = items@;
        items.push(item);
        proof {
            assert forall|i: int, j: int| 0 <= i < j < items@.len() implies (#[trigger] items@[i])@
                != (#[trigger] items@[j])@ by {
                assert(items@[i] == before[i]);
            }
        }
        self.items = items;
        proof {
            assert forall|v: T::V| old(self)@.insert(item@).contains(v) implies self@.contains(v) by {
                if v == item@ {
                    assert(self.items@[before.len() as int]@ == v);
                } else {
                    let i = choose|i: int| 0 <= i < before.len() && (#[trigger] before[i])@ == v;
                    assert(self.items@[i]@ == v);
                }
            }
            assert forall|v: T::V| self@.contains(v) implies old(self)@.insert(item@).contains(v) by {
                let i = choose|i: int|
                    0 <= i < self.items@.len() && (#[trigger] self.items@[i])@ == v;
                if i < before.len() {
                    assert(before[i]@ == v);
                }
            }
            assert(self@ =~= old(self)@.insert(item@));
        }
        true
    }

    fn remove_at(&mut self, position: usize)
        requires
            position < old(self).items@.len(),
        ensures
            final(self)@ == old(self)@.remove(old(self).items@[position as int]@),
    {
        proof {
            use_type_invariant(&*self);
        }
        let mut items: Vec<T> = Vec::new();
        core::mem::swap(&mut items, &mut self.items);
        let ghost before = items@;
        let ghost gone = before[position as int]@;
        items.remove(position);
        proof {
            assert forall|i: int, j: int| 0 <= i < j < items@.len() implies (#[trigger] items@[i])@
                != (#[trigger] items@[j])@ by {
                assert(items@[i] == before[if i < position { i } else { i + 1 }]);
                assert(items@[j] == before[if j < position { j } else { j + 1 }]);
            }
        }
        self.items = items;
        proof {
            assert forall|v: T::V| old(self)@.remove(gone).contains(v) implies self@.contains(v) by {
                let i = choose|i: int| 0 <= i < before.len() && (#[trigger] before[i])@ == v;
                assert(self.items@[if i < position { i } else { i - 1 }]@ == v);
            }
            assert forall|v: T::V| self@.contains(v) implies old(self)@.remove(gone).contains(v) by {
                let i = choose|i: int|
                    0 <= i < self.items@.len() && (#[trigger] self.items@[i])@ == v;
                assert(before[if i < position { i } else { i + 1 }]@ == v);
            }
            assert(self@ =~= old(self)@.remove(gone));
        }
    }

    /// Removes the value with the view of `item`. Returns whether there was one.
    pub fn remove(&mut self, item: &T) -> (removed: bool)
        ensures
            final(self)@ == old(self)@.remove(item@),
            removed == old(self)@.contains(item@),
    {
        match self.position(item) {
            Some(position) => {
                assert(self@.contains(self.items@[position as int]@));
                self.remove_at(position);
                true
            },
            None => {
                assert(self@ =~= old(self)@.remove(item@));
                false
            },
        }
    }

    /// Whether every element of `self` is in `other`.
    pub fn is_subset(&self, other: &Self) -> (subset: bool)
        ensures
            subset == self@.subset_of(other@),
    {
        let mut i: usize = 0;
        while i < self.items.len()
            invariant
                i <= self.items@.len(),
                forall|j: int| 0 <= j < i ==> other@.contains((#[trigger] self.items@[j])@),
            decreases self.items@.len() - i,
        {
            if !other.contains(&self.items[i]) {
                assert(self@.contains(self.items@[i as int]@));
                return false;
            }
            i = i + 1;
        }
        true
    }

    /// The elements, each once.
    pub fn items(&self) -> (items: &Vec<T>)
        ensures
            forall|v: T::V| self@.contains(v) <==> exists|i: int|
                0 <= i < items@.len() && (#[trigger] items@[i])@ == v,
            forall|i: int, j: int|
                0 <= i < j < items@.len() ==> (#[trigger] items@[i])@ != (#[trigger] items@[j])@,
    {
        proof {
            use_type_invariant(self);
        }
        &self.items
    }

    /// The number of elements.
    pub fn len(&self) -> (len: usize)
        ensures
            self@.finite(),
            len == self@.len(),
    {
        proof {
            use_type_invariant(self);
            let views = self.items@.map_values(|item: T| item@);
            assert forall|i: int, j: int| 0 <= i < j < views.len() implies views[i] != views[j] by {
                assert(self.items@[i]@ != self.items@[j]@);
            }
            assert(views.no_duplicates());
            views.unique_seq_to_set();
            vstd::seq_lib::seq_to_set_is_finite(views);
            assert forall|v: T::V| self@.contains(v) implies views.to_set().contains(v) by {
                let i = choose|i: int|
                    0 <= i < self.items@.len() && (#[trigger] self.items@[i])@ == v;
                assert(views[i] == v);
            }
            assert forall|v: T::V| views.to_set().contains(v) implies self@.contains(v) by {
                let i = choose|i: int| 0 <= i < views.len() && views[i] == v;
                assert(self.items@[i]@ == v);
            }
            assert(self@ =~= views.to_set());
        }
        self.items.len()
    }
}

impl<'a, T: ViewEq> VecSet<&'a T> {
    /// Removes the reference to a value with the view of `item`. Returns whether there was one.
    pub fn remove_ref(&mut self, item: &T) -> (removed: bool)
        ensures
            final(self)@ == old(self)@.remove(item@),
            removed == old(self)@.contains(item@),
    {
        let mut i: usize = 0;
        while i < self.items.len()
            invariant
                *self == *old(self),
                i <= self.items@.len(),
                forall|j: int| 0 <= j < i ==> (#[trigger] self.items@[j])@ != item@,
            decreases self.items@.len() - i,
        {
            if self.items[i].view_eq(item) {
                assert(self@.contains(self.items@[i as int]@));
                self.remove_at(i);
                return true;
            }
            i = i + 1;
        }
        assert(self@ =~= old(self)@.remove(item@));
        false
    }
}

impl<T: ViewEq> ViewEq for VecSet<T> {
    fn view_eq(&self, other: &Self) -> (same: bool) {
        let same = self.is_subset(other) && other.is_subset(self);
        assert(same ==> self@ =~= other@);
        same
    }
}

impl<T: ViewEq + ViewClone> ViewClone for VecSet<T> {
    fn view_clone(&self) -> (copy: Self) {
        let mut copy = VecSet::new();
        let mut i: usize = 0;
        while i < self.items.len()
            invariant
                i <= self.items@.len(),
                forall|v: T::V| copy@.contains(v) <==> exists|j: int|
                    0 <= j < i && (#[trigger] self.items@[j])@ == v,
            decreases self.items@.len() - i,
        {
            let ghost before = copy@;
            copy.insert(self.items[i].view_clone());
            proof {
                assert forall|v: T::V| copy@.contains(v) implies exists|j: int|
                    0 <= j < i + 1 && (#[trigger] self.items@[j])@ == v by {
                    if v == self.items@[i as int]@ {
                    } else {
                        assert(before.contains(v));
                    }
                }
            }
            i = i + 1;
        }
        assert(copy@ =~= self@);
        copy
    }
}

impl<T: ViewEq + ViewClone> Clone for VecSet<T> {
    fn clone(&self) -> (copy: Self)
        ensures
            copy@ == self@,
    {
        self.view_clone()
    }
}

impl<T: ViewEq> PartialEq for VecSet<T> {
    fn eq(&self, other: &Self) -> (same: bool) {
        self.view_eq(other)
    }
}

impl<T: ViewEq> vstd::std_specs::cmp::PartialEqSpecImpl for VecSet<T> {
    open spec fn obeys_eq_spec() -> bool {
        true
    }

    open spec fn eq_spec(&self, other: &Self) -> bool {
        self@ == other@
    }
}

impl<T: ViewEq> Eq for VecSet<T> {

}

/// A map from keys, no two of which have the same view. It keeps the order of its keys: a new one
/// that is inserted comes last.
#[derive(Debug)]
pub struct VecMap<K: ViewEq, V> {
    entries: Vec<(K, V)>,
}

impl<K: ViewEq, V> View for VecMap<K, V> {
    type V = Map<K::V, V>;

    /// The value of each key's view.
    closed spec fn view(&self) -> Map<K::V, V> {
        Map::new(
            |k: K::V| self.has_key(k),
            |k: K::V| self.entries@[self.index_of(k)].1,
        )
    }
}

impl<K: ViewEq, V> VecMap<K, V> {
    spec fn key_at(self, i: int) -> K::V {
        self.entries@[i].0@
    }

    spec fn has_key(self, k: K::V) -> bool {
        exists|i: int| 0 <= i < self.entries@.len() && #[trigger] self.key_at(i) == k
    }

    spec fn index_of(self, k: K::V) -> int {
        choose|i: int| 0 <= i < self.entries@.len() && #[trigger] self.key_at(i) == k
    }

    /// Whether no two keys have the same view.
    #[verifier::type_invariant]
    pub closed spec fn distinct(self) -> bool {
        forall|i: int, j: int|
            0 <= i < j < self.entries@.len() ==> #[trigger] self.key_at(i) != #[trigger] self.key_at(
                j,
            )
    }

    /// The views of the keys, in the order in which they are walked.
    pub closed spec fn order(self) -> Seq<K::V> {
        Seq::new(self.entries@.len(), |i: int| self.key_at(i))
    }

    proof fn lemma_entry(self, i: int)
        requires
            self.distinct(),
            0 <= i < self.entries@.len(),
        ensures
            self@.contains_key(self.key_at(i)),
            self@[self.key_at(i)] == self.entries@[i].1,
            self.order()[i] == self.key_at(i),
    {
        assert(self.has_key(self.key_at(i)));
        let j = self.index_of(self.key_at(i));
        assert(self.key_at(j) == self.key_at(i));
    }

    /// The order has each key once.
    pub proof fn order_has_keys(self)
        requires
            self.distinct(),
        ensures
            self.order().no_duplicates(),
            self.order().to_set() == self@.dom(),
    {
        let order = self.order();
        assert forall|i: int, j: int| 0 <= i < order.len() && 0 <= j < order.len() && i != j implies order[i]
            != order[j] by {
            assert(order[i] == self.key_at(i));
            assert(order[j] == self.key_at(j));
        }
        assert forall|k: K::V| order.to_set().contains(k) implies self@.dom().contains(k) by {
            let i = choose|i: int| 0 <= i < order.len() && order[i] == k;
            assert(self.key_at(i) == k);
        }
        assert forall|k: K::V| self@.dom().contains(k) implies order.to_set().contains(k) by {
            let i = self.index_of(k);
            assert(order[i] == k);
        }
        assert(order.to_set() =~= self@.dom());
    }

    /// The empty map.
    pub fn new() -> (map: Self)
        ensures
            map@ == Map::<K::V, V>::empty(),
            map.order() == Seq::<K::V>::empty(),
    {
        let map = VecMap { entries: Vec::new() };
        assert(map@ =~= Map::<K::V, V>::empty());
        assert(map.order() =~= Seq::<K::V>::empty());
        map
    }

    fn position(&self, key: &K) -> (position: Option<usize>)
        ensures
            match position {
                Some(i) => {
                    &&& i < self.entries@.len()
                    &&& self.key_at(i as int) == key@
                    &&& self@.contains_key(key@)
                    &&& self@[key@] == self.entries@[i as int].1
                    &&& self.order()[i as int] == key@
                },
                None => !self@.contains_key(key@),
            },
    {
        let mut i: usize = 0;
        while i < self.entries.len()
            invariant
                i <= self.entries@.len(),
                forall|j: int| 0 <= j < i ==> #[trigger] self.key_at(j) != key@,
            decreases self.entries@.len() - i,
        {
            if self.entries[i].0.view_eq(key) {
                proof {
                    use_type_invariant(self);
                    self.lemma_entry(i as int);
                }
                return Some(i);
            }
            i = i + 1;
        }
        None
    }

    /// The value of `key`.
    pub fn get(&self, key: &K) -> (value: Option<&V>)
        ensures
            match value {
                Some(v) => self@.contains_key(key@) && *v == self@[key@],
                None => !self@.contains_key(key@),
            },
    {
        match self.position(key) {
            Some(i) => Some(&self.entries[i].1),
            None => None,
        }
    }

    /// Sets the value of `key`. A key that was there keeps its place in the order.
    pub fn insert(&mut self, key: K, value: V)
        ensures
            final(self)@ == old(self)@.insert(key@, value),
            final(self).order() == if old(self)@.contains_key(key@) {
                old(self).order()
            } else {
                old(self).order().push(key@)
            },
    {
        proof {
            use_type_invariant(&*self);
        }
        let position = self.position(&key);
        let mut entries: Vec<(K, V)> = Vec::new();
        core::mem::swap(&mut entries, &mut self.entries);
        let ghost before = entries@;
        match position {
            Some(i) => {
                entries.set(i, (key, value));
            },
            None => {
                entries.push((key, value));
            },
        }
        proof {
            assert forall|i: int| 0 <= i < before.len() implies #[trigger] entries@[i].0@ == old(
                self,
            ).key_at(i) by {}
            assert(position is None ==> forall|i: int|
                0 <= i < before.len() ==> #[trigger] old(self).key_at(i) != key@);
            let after = VecMap { entries };
            assert forall|i: int, j: int| 0 <= i < j < after.entries@.len() implies
                #[trigger] after.key_at(i) != #[trigger] after.key_at(j) by {
                assert(after.key_at(i) == old(self).key_at(i));
                if j < before.len() {
                    assert(after.key_at(j) == old(self).key_at(j));
                }
            }
        }
        self.entries = entries;
        proof {
            let place = match position {
                Some(i) => i as int,
                None => before.len() as int,
            };
            self.lemma_entry(place);
            assert forall|k: K::V| #[trigger] old(self)@.insert(key@, value).contains_key(k) implies {
                &&& self@.contains_key(k)
                &&& self@[k] == old(self)@.insert(key@, value)[k]
            } by {
                if k != key@ {
                    let i = old(self).index_of(k);
                    assert(old(self).key_at(i) == k);
                    old(self).lemma_entry(i);
                    assert(self.entries@[i] == before[i]);
                    self.lemma_entry(i);
                }
            }
            assert forall|k: K::V| #[trigger] self@.contains_key(k) implies old(self)@.insert(
                key@,
                value,
            ).contains_key(k) by {
                let i = self.index_of(k);
                assert(self.key_at(i) == k);
                if i != place {
                    assert(self.entries@[i] == before[i]);
                    assert(old(self).key_at(i) == k);
                }
            }
            assert(self@ =~= old(self)@.insert(key@, value));
            if position is Some {
                assert(self.order() =~= old(self).order());
            } else {
                assert(self.order() =~= old(self).order().push(key@));
            }
        }
    }

    /// Puts a new key at the `i`-th place in the order.
    pub(crate) fn insert_at(&mut self, i: usize, key: K, value: V)
        requires
            !old(self)@.contains_key(key@),
            i <= old(self).order().len(),
        ensures
            final(self)@ == old(self)@.insert(key@, value),
            final(self).order() == old(self).order().insert(i as int, key@),
    {
        proof {
            use_type_invariant(&*self);
        }
        let mut entries: Vec<(K, V)> = Vec::new();
        core::mem::swap(&mut entries, &mut self.entries);
        let ghost before = entries@;
        entries.insert(i, (key, value));
        proof {
            let after = VecMap { entries };
            assert forall|a: int, b: int| 0 <= a < b < after.entries@.len() implies
                #[trigger] after.key_at(a) != #[trigger] after.key_at(b) by {
                let x = if a < i {
                    a
                } else {
                    a - 1
                };
                let y = if b < i {
                    b
                } else {
                    b - 1
                };
                if a != i {
                    assert(after.key_at(a) == old(self).key_at(x));
                }
                if b != i {
                    assert(after.key_at(b) == old(self).key_at(y));
                }
            }
        }
        self.entries = entries;
        proof {
            self.lemma_entry(i as int);
            assert forall|k: K::V| #[trigger] old(self)@.insert(key@, value).contains_key(k) implies {
                &&& self@.contains_key(k)
                &&& self@[k] == old(self)@.insert(key@, value)[k]
            } by {
                if k != key@ {
                    let a = old(self).index_of(k);
                    assert(old(self).key_at(a) == k);
                    old(self).lemma_entry(a);
                    let b = if a < i {
                        a
                    } else {
                        a + 1
                    };
                    assert(self.entries@[b] == before[a]);
                    self.lemma_entry(b);
                }
            }
            assert forall|k: K::V| #[trigger] self@.contains_key(k) implies old(self)@.insert(
                key@,
                value,
            ).contains_key(k) by {
                let b = self.index_of(k);
                assert(self.key_at(b) == k);
                if b != i {
                    let a = if b < i {
                        b
                    } else {
                        b - 1
                    };
                    assert(self.entries@[b] == before[a]);
                    assert(old(self).key_at(a) == k);
                }
            }
            assert(self@ =~= old(self)@.insert(key@, value));
            assert(self.order() =~= old(self).order().insert(i as int, key@));
        }
    }

    /// The number of keys.
    pub fn len(&self) -> (len: usize)
        ensures
            len == self.order().len(),
            self.order().no_duplicates(),
            self.order().to_set() == self@.dom(),
            self@.dom().finite(),
            len == self@.len(),
    {
        proof {
            use_type_invariant(self);
            self.order_has_keys();
            self.order().unique_seq_to_set();
            vstd::seq_lib::seq_to_set_is_finite(self.order());
        }
        self.entries.len()
    }

    /// The keys with their values, in order.
    pub(crate) fn into_entries(self) -> (entries: Vec<(K, V)>)
        ensures
            entries@.len() == self.order().len(),
            self.order().no_duplicates(),
            self.order().to_set() == self@.dom(),
            forall|i: int|
                0 <= i < entries@.len() ==> (#[trigger] entries@[i]).0@ == self.order()[i]
                    && entries@[i].1 == self@[self.order()[i]],
    {
        proof {
            use_type_invariant(&self);
            self.order_has_keys();
            assert forall|i: int| 0 <= i < self.entries@.len() implies (
            #[trigger] self.entries@[i]).0@ == self.order()[i] && self.entries@[i].1
                == self@[self.order()[i]] by {
                self.lemma_entry(i);
            }
        }
        self.entries
    }

    /// The `i`-th key in the order, with its value.
    pub fn entry(&self, i: usize) -> (entry: (&K, &V))
        requires
            i < self.order().len(),
        ensures
            entry.0@ == self.order()[i as int],
            self@.contains_key(entry.0@),
            *entry.1 == self@[entry.0@],
    {
        proof {
            use_type_invariant(self);
            self.lemma_entry(i as int);
        }
        let entry = &self.entries[i];
        (&entry.0, &entry.1)
    }
}

impl<K: ViewEq, V: ViewEq> VecMap<K, V> {
    /// Whether every key of `self` has a value with the same view in `other`.
    pub fn is_submap(&self, other: &Self) -> (submap: bool)
        ensures
            submap == forall|k: K::V| #[trigger]
                self@.contains_key(k) ==> other@.contains_key(k) && other@[k]@ == self@[k]@,
    {
        proof {
            use_type_invariant(self);
            self.order_has_keys();
        }
        let mut i: usize = 0;
        while i < self.entries.len()
            invariant
                self.distinct(),
                i <= self.entries@.len(),
                forall|j: int|
                    0 <= j < i ==> {
                        let k = #[trigger] self.key_at(j);
                        other@.contains_key(k) && other@[k]@ == self@[k]@
                    },
            decreases self.entries@.len() - i,
        {
            proof {
                self.lemma_entry(i as int);
            }
            let entry = &self.entries[i];
            let same = match other.get(&entry.0) {
                Some(value) => value.view_eq(&entry.1),
                None => false,
            };
            if !same {
                return false;
            }
            i = i + 1;
        }
        proof {
            assert forall|k: K::V| #[trigger] self@.contains_key(k) implies other@.contains_key(k)
                && other@[k]@ == self@[k]@ by {
                assert(self.key_at(self.index_of(k)) == k);
            }
        }
        true
    }
}

impl<K: ViewEq, V: ViewEq> PartialEq for VecMap<K, V> {
    fn eq(&self, other: &Self) -> (same: bool) {
        let same = self.is_submap(other) && other.is_submap(self);
        assert(same ==> self@.dom() =~= other@.dom());
        same
    }
}

impl<K: ViewEq, V: ViewEq> vstd::std_specs::cmp::PartialEqSpecImpl for VecMap<K, V> {
    open spec fn obeys_eq_spec() -> bool {
        true
    }

    open spec fn eq_spec(&self, other: &Self) -> bool {
        &&& self@.dom() == other@.dom()
        &&& forall|k: K::V| #[trigger] self@.contains_key(k) ==> self@[k]@ == other@[k]@
    }
}

impl<K: ViewEq, V: ViewEq> Eq for VecMap<K, V> {

}

impl<K: ViewEq + ViewClone, V: ViewClone> Clone for VecMap<K, V> {
    fn clone(&self) -> (copy: Self)
        ensures
            copy.order() == self.order(),
            copy@.dom() == self@.dom(),
            forall|k: K::V| #[trigger] self@.contains_key(k) ==> copy@[k]@ == self@[k]@,
    {
        proof {
            use_type_invariant(self);
            self.order_has_keys();
        }
        let mut copy: VecMap<K, V> = VecMap::new();
        let mut i: usize = 0;
        while i < self.entries.len()
            invariant
                self.distinct(),
                self.order().len() == self.entries@.len(),
                self.order().no_duplicates(),
                i <= self.entries@.len(),
                copy.order() == self.order().take(i as int),
                copy@.dom() == self.order().take(i as int).to_set(),
                forall|j: int|
                    0 <= j < i ==> copy@[#[trigger] self.key_at(j)]@ == self@[self.key_at(j)]@,
            decreases self.entries@.len() - i,
        {
            let ghost before = copy;
            let ghost taken = self.order().take(i as int);
            let entry = &self.entries[i];
            let key = entry.0.view_clone();
            let value = entry.1.view_clone();
            proof {
                self.lemma_entry(i as int);
                assert(self.order().take(i + 1) =~= taken.push(key@));
                assert forall|j: int| 0 <= j < i implies #[trigger] self.key_at(j) != key@ by {
                    assert(self.order()[j] == self.key_at(j));
                }
                if before@.dom().contains(key@) {
                    let j = choose|j: int| 0 <= j < taken.len() && taken[j] == key@;
                    assert(self.key_at(j) == key@);
                }
                assert(taken.push(key@).to_set() =~= taken.to_set().insert(key@)) by {
                    assert(taken.push(key@)[i as int] == key@);
                    assert forall|k: K::V| taken.to_set().contains(k) implies taken.push(
                        key@,
                    ).to_set().contains(k) by {
                        let j = choose|j: int| 0 <= j < taken.len() && taken[j] == k;
                        assert(taken.push(key@)[j] == k);
                    }
                }
            }
            copy.insert(key, value);
            i = i + 1;
        }
        proof {
            assert(self.order().take(i as int) =~= self.order());
            assert forall|k: K::V| #[trigger] self@.contains_key(k) implies copy@[k]@ == self@[k]@ by {
                assert(self.key_at(self.index_of(k)) == k);
            }
        }
        copy
    }
}

/// What was inserted in a set is in it, together with what was there, and nothing else.
pub proof fn inserted_is_contained<T: ViewEq>(
    set: &mut VecSet<T>,
    item: T,
    added: bool,
    other: &T,
    before: bool,
    after: bool,
)
    requires
        call_ensures(VecSet::<T>::insert, (set, item), added),
        call_ensures(VecSet::<T>::contains, (&*old(set), other), before),
        call_ensures(VecSet::<T>::contains, (&*final(set), other), after),
    ensures
        after <==> before || other@ == item@,
        other@ == item@ ==> added == !before,
{
}

/// What was removed from a set is no longer in it; the rest stays.
pub proof fn removed_is_not_contained<T: ViewEq>(
    set: &mut VecSet<T>,
    item: &T,
    removed: bool,
    other: &T,
    before: bool,
    after: bool,
)
    requires
        call_ensures(VecSet::<T>::remove, (set, item), removed),
        call_ensures(VecSet::<T>::contains, (&*old(set), other), before),
        call_ensures(VecSet::<T>::contains, (&*final(set), other), after),
    ensures
        after <==> before && other@ != item@,
        other@ == item@ ==> removed == before,
{
}

/// The elements of a set are those that it contains, each once, and there are as many as its length
/// says. One set is a subset of another just where the other contains each element of it.
pub proof fn items_are_contained<T: ViewEq>(
    set: &VecSet<T>,
    items: &Vec<T>,
    len: usize,
    item: &T,
    found: bool,
    other: &VecSet<T>,
    subset: bool,
)
    requires
        call_ensures(VecSet::<T>::items, (set,), items),
        call_ensures(VecSet::<T>::len, (set,), len),
        call_ensures(VecSet::<T>::contains, (set, item), found),
        call_ensures(VecSet::<T>::is_subset, (set, other), subset),
    ensures
        found <==> exists|i: int| 0 <= i < items@.len() && (#[trigger] items@[i])@ == item@,
        forall|i: int, j: int|
            0 <= i < j < items@.len() ==> (#[trigger] items@[i])@ != (#[trigger] items@[j])@,
        len == items@.len(),
        subset <==> forall|i: int|
            0 <= i < items@.len() ==> other@.contains((#[trigger] items@[i])@),
{
    let views = items@.map_values(|item: T| item@);
    assert(set@ =~= views.to_set()) by {
        assert forall|v: T::V| set@.contains(v) implies views.to_set().contains(v) by {
            let i = choose|i: int| 0 <= i < items@.len() && (#[trigger] items@[i])@ == v;
            assert(views[i] == v);
        }
        assert forall|v: T::V| views.to_set().contains(v) implies set@.contains(v) by {
            let i = choose|i: int| 0 <= i < views.len() && views[i] == v;
            assert(items@[i]@ == v);
        }
    }
    assert(views.no_duplicates()) by {
        assert forall|i: int, j: int|
            0 <= i < views.len() && 0 <= j < views.len() && i != j implies views[i] != views[j] by {
            assert(items@[i]@ != items@[j]@);
        }
    }
    views.unique_seq_to_set();
    assert forall|i: int| 0 <= i < items@.len() implies set@.contains((#[trigger] items@[i])@) by {
    }
}

/// A value that was inserted in a map is got by its key; the values of other keys stay.
pub proof fn inserted_is_got<K: ViewEq, V>(
    map: &mut VecMap<K, V>,
    key: K,
    value: V,
    other: &K,
    before: Option<&V>,
    after: Option<&V>,
)
    requires
        call_ensures(VecMap::<K, V>::insert, (map, key, value), ()),
        call_ensures(VecMap::<K, V>::get, (&*old(map), other), before),
        call_ensures(VecMap::<K, V>::get, (&*final(map), other), after),
    ensures
        after == if other@ == key@ {
            Some(&value)
        } else {
            before
        },
{
}

/// Two sets are equal just where each contains what the other does.
pub proof fn equal_sets_contain_the_same<T: ViewEq>(a: &VecSet<T>, b: &VecSet<T>, same: bool)
    requires
        call_ensures(<VecSet<T> as PartialEq>::eq, (a, b), same),
    ensures
        same <==> forall|v: T::V| a@.contains(v) <==> #[trigger] b@.contains(v),
{
    if forall|v: T::V| a@.contains(v) <==> #[trigger] b@.contains(v) {
        assert(a@ =~= b@);
    }
}

/// A map is walked through just the keys that it has, each once, with their values.
pub proof fn walked_are_got<K: ViewEq, V>(
    map: &VecMap<K, V>,
    len: usize,
    i: usize,
    entry: (&K, &V),
    key: &K,
    value: Option<&V>,
)
    requires
        i < len,
        call_ensures(VecMap::<K, V>::len, (map,), len),
        call_ensures(VecMap::<K, V>::entry, (map, i), entry),
        call_ensures(VecMap::<K, V>::get, (map, key), value),
    ensures
        len == map.order().len(),
        entry.0@ == map.order()[i as int],
        map.order().no_duplicates(),
        value is Some <==> map.order().contains(key@),
        key@ == entry.0@ ==> value == Some(entry.1),
{
    assert(map.order().to_set().contains(key@) <==> map@.dom().contains(key@));
}

} // verus!
