//! Maps from texts that are walked in the order of their keys.

use crate::collections::{VecMap, ViewClone, ViewEq};
use vstd::prelude::*;

verus! {

/// Whether `a` and `b` agree before the `i`-th byte, and there `a` ends or has the smaller byte.
pub open spec fn smaller_at(a: Seq<u8>, b: Seq<u8>, i: int) -> bool {
    &&& 0 <= i <= a.len()
    &&& i < b.len()
    &&& forall|k: int| 0 <= k < i ==> #[trigger] a[k] == #[trigger] b[k]
    &&& i < a.len() ==> a[i] < b[i]
}

/// Whether `a` comes before `b`, byte by byte.
pub open spec fn bytes_before(a: Seq<u8>, b: Seq<u8>) -> bool {
    exists|i: int| smaller_at(a, b, i)
}

/// Whether the text `a` comes before the text `b`: texts are ordered by the bytes that encode them.
pub open spec fn text_before(a: Seq<char>, b: Seq<char>) -> bool {
    bytes_before(vstd::utf8::encode_utf8(a), vstd::utf8::encode_utf8(b))
}

/// Whether each text comes before those that follow it.
pub open spec fn is_sorted(texts: Seq<Seq<char>>) -> bool {
    forall|i: int, j: int|
        0 <= i < j < texts.len() ==> text_before(#[trigger] texts[i], #[trigger] texts[j])
}

/// No text comes before itself.
pub proof fn text_before_irreflexive(a: Seq<char>)
    ensures
        !text_before(a, a),
{
}

/// What comes before an earlier text comes before a later one.
pub proof fn text_before_transitive(a: Seq<char>, b: Seq<char>, c: Seq<char>)
    requires
        text_before(a, b),
        text_before(b, c),
    ensures
        text_before(a, c),
{
    let (x, y, z) = (
        vstd::utf8::encode_utf8(a),
        vstd::utf8::encode_utf8(b),
        vstd::utf8::encode_utf8(c),
    );
    let i = choose|i: int| smaller_at(x, y, i);
    let j = choose|j: int| smaller_at(y, z, j);
    let first = if i < j {
        i
    } else {
        j
    };
    assert forall|k: int| 0 <= k < first implies #[trigger] x[k] == #[trigger] z[k] by {
        assert(x[k] == y[k]);
        assert(y[k] == z[k]);
    }
    if i < j {
        assert(y[i] == z[i]);
    } else if j < i {
        assert(x[j] == y[j]);
    }
    assert(smaller_at(x, z, first));
}

/// Of two different texts one comes before the other.
pub proof fn text_before_total(a: Seq<char>, b: Seq<char>)
    requires
        a != b,
    ensures
        text_before(a, b) || text_before(b, a),
{
    let x = vstd::utf8::encode_utf8(a);
    let y = vstd::utf8::encode_utf8(b);
    vstd::utf8::encode_utf8_decode_utf8(a);
    vstd::utf8::encode_utf8_decode_utf8(b);
    assert(x != y);
    first_difference(x, y, 0);
}

proof fn first_difference(x: Seq<u8>, y: Seq<u8>, i: int)
    requires
        x != y,
        0 <= i <= x.len(),
        i <= y.len(),
        forall|k: int| 0 <= k < i ==> #[trigger] x[k] == #[trigger] y[k],
    ensures
        bytes_before(x, y) || bytes_before(y, x),
    decreases x.len() - i,
{
    if i == x.len() && i == y.len() {
        assert(x =~= y);
    } else if i == x.len() {
        assert(smaller_at(x, y, i));
    } else if i == y.len() {
        assert(smaller_at(y, x, i));
    } else if x[i] < y[i] {
        assert(smaller_at(x, y, i));
    } else if y[i] < x[i] {
        assert(smaller_at(y, x, i));
    } else {
        first_difference(x, y, i + 1);
    }
}

/// The order in which texts are walked follows from which there are.
pub proof fn sorted_order_is_unique(a: Seq<Seq<char>>, b: Seq<Seq<char>>)
    requires
        is_sorted(a),
        is_sorted(b),
        a.to_set() == b.to_set(),
    ensures
        a == b,
    decreases a.len(),
{
    if a.len() == 0 {
        if b.len() > 0 {
            assert(b.to_set().contains(b[0]));
            assert(a.to_set().contains(b[0]));
        }
        assert(a =~= b);
    } else {
        assert(a.to_set().contains(a[a.len() - 1]));
        assert(b.to_set().contains(a[a.len() - 1]));
        let i = choose|i: int| 0 <= i < b.len() && b[i] == a[a.len() - 1];
        let last = b[b.len() - 1];
        assert(b.to_set().contains(last));
        assert(a.to_set().contains(last));
        let j = choose|j: int| 0 <= j < a.len() && a[j] == last;
        if i < b.len() - 1 {
            assert(text_before(b[i], last));
            if j < a.len() - 1 {
                assert(text_before(a[j], a[a.len() - 1]));
                text_before_transitive(b[i], last, b[i]);
            }
            text_before_irreflexive(b[i]);
        }
        assert(a.last() == b.last());
        let (c, d) = (a.drop_last(), b.drop_last());
        assert forall|text: Seq<char>| c.to_set().contains(text) implies d.to_set().contains(
            text,
        ) by {
            let k = choose|k: int| 0 <= k < c.len() && c[k] == text;
            assert(a[k] == text);
            assert(a.to_set().contains(text));
            assert(b.to_set().contains(text));
            let m = choose|m: int| 0 <= m < b.len() && b[m] == text;
            assert(text_before(a[k], a[a.len() - 1]));
            text_before_irreflexive(text);
            assert(d[m] == text);
        }
        assert forall|text: Seq<char>| d.to_set().contains(text) implies c.to_set().contains(
            text,
        ) by {
            let k = choose|k: int| 0 <= k < d.len() && d[k] == text;
            assert(b[k] == text);
            assert(b.to_set().contains(text));
            assert(a.to_set().contains(text));
            let m = choose|m: int| 0 <= m < a.len() && a[m] == text;
            assert(text_before(b[k], b[b.len() - 1]));
            text_before_irreflexive(text);
            assert(c[m] == text);
        }
        assert(c.to_set() =~= d.to_set());
        sorted_order_is_unique(c, d);
        assert(a =~= c.push(a.last()));
        assert(b =~= d.push(b.last()));
    }
}

/// Whether the text of `a` comes before that of `b`.
fn is_before(a: &String, b: &String) -> (before: bool)
    ensures
        before == text_before(a@, b@),
{
    let x = a.as_str().as_bytes();
    let y = b.as_str().as_bytes();
    let mut i: usize = 0;
    while i < x.len() && i < y.len()
        invariant
            x@ == vstd::utf8::encode_utf8(a@),
            y@ == vstd::utf8::encode_utf8(b@),
            i <= x@.len(),
            i <= y@.len(),
            forall|k: int| 0 <= k < i ==> #[trigger] x@[k] == #[trigger] y@[k],
        decreases x@.len() - i,
    {
        if x[i] < y[i] {
            assert(smaller_at(x@, y@, i as int));
            return true;
        }
        if y[i] < x[i] {
            assert forall|k: int| !smaller_at(x@, y@, k) by {
                if smaller_at(x@, y@, k) && k > i {
                    assert(x@[i as int] == y@[i as int]);
                }
            }
            return false;
        }
        i = i + 1;
    }
    if i < y.len() {
        assert(smaller_at(x@, y@, i as int));
        true
    } else {
        assert forall|k: int| !smaller_at(x@, y@, k) by {}
        false
    }
}

/// A map from texts, walked in the order of its keys.
#[derive(Debug)]
pub struct SortedMap<V> {
    map: VecMap<String, V>,
}

impl<V> View for SortedMap<V> {
    type V = Map<Seq<char>, V>;

    /// The value of each key's text.
    closed spec fn view(&self) -> Map<Seq<char>, V> {
        self.map@
    }
}

impl<V> SortedMap<V> {
    #[verifier::type_invariant]
    closed spec fn sorted(self) -> bool {
        is_sorted(self.map.order())
    }

    /// The texts of the keys, in the order in which they are walked.
    pub closed spec fn order(self) -> Seq<Seq<char>> {
        self.map.order()
    }

    /// The empty map.
    pub fn new() -> (map: Self)
        ensures
            map@ == Map::<Seq<char>, V>::empty(),
    {
        SortedMap { map: VecMap::new() }
    }

    /// The value of `key`.
    pub fn get(&self, key: &String) -> (value: Option<&V>)
        ensures
            match value {
                Some(v) => self@.contains_key(key@) && *v == self@[key@],
                None => !self@.contains_key(key@),
            },
    {
        self.map.get(key)
    }

    /// Sets the value of `key`.
    pub fn insert(&mut self, key: String, value: V)
        ensures
            final(self)@ == old(self)@.insert(key@, value),
    {
        proof {
            use_type_invariant(&*self);
        }
        let mut map: VecMap<String, V> = VecMap::new();
        core::mem::swap(&mut map, &mut self.map);
        let ghost order = map.order();
        let len = map.len();
        let mut i: usize = 0;
        while i < len && is_before(map.entry(i).0, &key)
            invariant
                len == order.len(),
                order == map.order(),
                i <= len,
                forall|k: int| 0 <= k < i ==> text_before(#[trigger] order[k], key@),
            ensures
                i <= len,
                forall|k: int| 0 <= k < i ==> text_before(#[trigger] order[k], key@),
                i < len ==> !text_before(order[i as int], key@),
            decreases len - i,
        {
            i = i + 1;
        }
        if map.get(&key).is_some() {
            map.insert(key, value);
        } else {
            proof {
                lemma_insert_sorted(order, i as int, key@);
            }
            map.insert_at(i, key, value);
        }
        self.map = map;
    }

    /// The number of keys.
    pub fn len(&self) -> (len: usize)
        ensures
            len == self.order().len(),
            is_sorted(self.order()),
            self.order().to_set() == self@.dom(),
            self@.dom().finite(),
            len == self@.len(),
    {
        proof {
            use_type_invariant(self);
        }
        self.map.len()
    }

    /// The `i`-th key in the order, with its value.
    pub fn entry(&self, i: usize) -> (entry: (&String, &V))
        requires
            i < self.order().len(),
        ensures
            entry.0@ == self.order()[i as int],
            self@.contains_key(entry.0@),
            *entry.1 == self@[entry.0@],
    {
        self.map.entry(i)
    }
}

proof fn lemma_insert_sorted(order: Seq<Seq<char>>, i: int, key: Seq<char>)
    requires
        is_sorted(order),
        0 <= i <= order.len(),
        !order.contains(key),
        forall|k: int| 0 <= k < i ==> text_before(#[trigger] order[k], key),
        i < order.len() ==> !text_before(order[i], key),
    ensures
        is_sorted(order.insert(i, key)),
{
    let after = order.insert(i, key);
    if i < order.len() {
        text_before_total(order[i], key);
    }
    assert forall|a: int, b: int| 0 <= a < b < after.len() implies text_before(
        #[trigger] after[a],
        #[trigger] after[b],
    ) by {
        if a == i {
            assert(after[b] == order[b - 1]);
            if b - 1 > i {
                assert(text_before(order[i], order[b - 1]));
                text_before_transitive(key, order[i], order[b - 1]);
            }
        } else if b == i {
            assert(after[a] == order[a]);
        } else {
            let x = if a < i {
                a
            } else {
                a - 1
            };
            let y = if b < i {
                b
            } else {
                b - 1
            };
            assert(after[a] == order[x]);
            assert(after[b] == order[y]);
        }
    }
}

impl<V: ViewEq> PartialEq for SortedMap<V> {
    fn eq(&self, other: &Self) -> (same: bool) {
        self.map == other.map
    }
}

impl<V: ViewEq> vstd::std_specs::cmp::PartialEqSpecImpl for SortedMap<V> {
    open spec fn obeys_eq_spec() -> bool {
        true
    }

    open spec fn eq_spec(&self, other: &Self) -> bool {
        &&& self@.dom() == other@.dom()
        &&& forall|k: Seq<char>| #[trigger] self@.contains_key(k) ==> self@[k]@ == other@[k]@
    }
}

impl<V: ViewEq> Eq for SortedMap<V> {

}

impl<V: ViewClone> Clone for SortedMap<V> {
    fn clone(&self) -> (copy: Self)
        ensures
            copy.order() == self.order(),
            copy@.dom() == self@.dom(),
            forall|k: Seq<char>| #[trigger] self@.contains_key(k) ==> copy@[k]@ == self@[k]@,
    {
        proof {
            use_type_invariant(self);
        }
        SortedMap { map: self.map.clone() }
    }
}

/// A value that was inserted in a map is got by its key; the values of other keys stay.
pub proof fn inserted_is_got<V>(
    map: &mut SortedMap<V>,
    key: String,
    value: V,
    other: &String,
    before: Option<&V>,
    after: Option<&V>,
)
    requires
        call_ensures(SortedMap::<V>::insert, (map, key, value), ()),
        call_ensures(SortedMap::<V>::get, (&*old(map), other), before),
        call_ensures(SortedMap::<V>::get, (&*final(map), other), after),
    ensures
        after == if other@ == key@ {
            Some(&value)
        } else {
            before
        },
{
}

/// A map is walked from smaller keys to larger ones, by the bytes of their texts: where two keys
/// first differ, the earlier one has ended or has the smaller byte. The value of each key is the one
/// that is got by it.
pub proof fn walked_by_bytes<V>(
    map: &SortedMap<V>,
    len: usize,
    i: usize,
    j: usize,
    first: (&String, &V),
    second: (&String, &V),
    value: Option<&V>,
)
    requires
        i < j < len,
        call_ensures(SortedMap::<V>::len, (map,), len),
        call_ensures(SortedMap::<V>::entry, (map, i), first),
        call_ensures(SortedMap::<V>::entry, (map, j), second),
        call_ensures(SortedMap::<V>::get, (map, first.0), value),
    ensures
        value == Some(first.1),
        ({
            let a = vstd::utf8::encode_utf8(first.0@);
            let b = vstd::utf8::encode_utf8(second.0@);
            exists|k: nat|
                {
                    &&& k <= a.len()
                    &&& k < b.len()
                    &&& #[trigger] a.take(k as int) == b.take(k as int)
                    &&& k == a.len() || a[k as int] < b[k as int]
                }
        }),
{
    let a = vstd::utf8::encode_utf8(first.0@);
    let b = vstd::utf8::encode_utf8(second.0@);
    assert(text_before(map.order()[i as int], map.order()[j as int]));
    let k = choose|k: int| smaller_at(a, b, k);
    assert(a.take(k) =~= b.take(k));
    assert(a.take((k as nat) as int) == b.take((k as nat) as int));
}

/// A key is in a map just where it is walked.
pub proof fn walked_are_got<V>(map: &SortedMap<V>, len: usize, key: &String, value: Option<&V>)
    requires
        call_ensures(SortedMap::<V>::len, (map,), len),
        call_ensures(SortedMap::<V>::get, (map, key), value),
    ensures
        len == map.order().len(),
        value is Some <==> map.order().contains(key@),
{
    assert(map.order().to_set().contains(key@) <==> map@.dom().contains(key@));
}

} // verus!
