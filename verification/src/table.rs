//! Tables: text keys with values, kept in the order of their keys.

use crate::text::{less, lemma_bytes_less_transitive, lemma_less_total, text_order, Order, Str};
use vstd::prelude::*;
use vstd::utf8::encode_utf8;

verus! {

/// A table from text keys to values. The entries stand in the order of their keys.
#[derive(Debug, PartialEq)]
pub struct Table<V> {
    pub entries: Vec<(String, V)>,
}

/// The mathematical model of a table: its entries in their order.
pub type Rows<W> = Seq<(Str, W)>;

/// The first position at or after `i` whose key does not stand before `key`.
pub open spec fn slot_from<W>(d: Rows<W>, key: Str, i: int) -> int
    decreases d.len() - i,
{
    if 0 <= i < d.len() && less(d[i].0, key) {
        slot_from(d, key, i + 1)
    } else {
        i
    }
}

pub open spec fn slot<W>(d: Rows<W>, key: Str) -> int {
    slot_from(d, key, 0)
}

/// The value that `key` has in the table.
pub open spec fn get<W>(d: Rows<W>, key: Str) -> Option<W> {
    let i = slot(d, key);
    if i < d.len() && d[i].0 == key {
        Some(d[i].1)
    } else {
        None
    }
}

/// The table with `key` bound to `value`.
pub open spec fn put<W>(d: Rows<W>, key: Str, value: W) -> Rows<W> {
    let i = slot(d, key);
    if i < d.len() && d[i].0 == key {
        d.update(i, (key, value))
    } else {
        d.insert(i, (key, value))
    }
}

/// The table without `key`.
pub open spec fn without<W>(d: Rows<W>, key: Str) -> Rows<W> {
    let i = slot(d, key);
    if i < d.len() && d[i].0 == key {
        d.remove(i)
    } else {
        d
    }
}

/// `d` with the entries of `other` from position `i` on put in, one after the other.
pub open spec fn put_all_from<W>(d: Rows<W>, other: Rows<W>, i: int) -> Rows<W>
    decreases other.len() - i,
{
    if 0 <= i < other.len() {
        put_all_from(put(d, other[i].0, other[i].1), other, i + 1)
    } else {
        d
    }
}

pub open spec fn put_all<W>(d: Rows<W>, other: Rows<W>) -> Rows<W> {
    put_all_from(d, other, 0)
}

/// The keys stand in strictly rising order.
pub open spec fn ordered<W>(d: Rows<W>) -> bool {
    forall|i: int, j: int| 0 <= i < j < d.len() ==> less(#[trigger] d[i].0, #[trigger] d[j].0)
}

/// The partial map that a table denotes.
pub open spec fn meaning<W>(d: Rows<W>) -> Map<Str, W> {
    Map::new(|key: Str| get(d, key) is Some, |key: Str| get(d, key)->0)
}

pub proof fn lemma_slot<W>(d: Rows<W>, key: Str, i: int)
    requires
        0 <= i <= d.len(),
    ensures
        i <= slot_from(d, key, i) <= d.len(),
        forall|k: int| i <= k < slot_from(d, key, i) ==> less(#[trigger] d[k].0, key),
        slot_from(d, key, i) < d.len() ==> !less(d[slot_from(d, key, i)].0, key),
    decreases d.len() - i,
{
    if i < d.len() && less(d[i].0, key) {
        lemma_slot(d, key, i + 1);
    }
}

proof fn lemma_slot_unique<W>(d: Rows<W>, key: Str, i: int, from: int)
    requires
        0 <= from <= i <= d.len(),
        forall|k: int| from <= k < i ==> less(#[trigger] d[k].0, key),
        i < d.len() ==> !less(d[i].0, key),
    ensures
        slot_from(d, key, from) == i,
    decreases i - from,
{
    if from < i {
        lemma_slot_unique(d, key, i, from + 1);
    }
}

/// In an ordered table a key is found wherever it stands.
pub proof fn lemma_get_at<W>(d: Rows<W>, i: int)
    requires
        ordered(d),
        0 <= i < d.len(),
    ensures
        slot(d, d[i].0) == i,
        get(d, d[i].0) == Some(d[i].1),
{
    lemma_less_total(d[i].0, d[i].0);
    lemma_slot_unique(d, d[i].0, i, 0);
}

pub proof fn lemma_get_found<W>(d: Rows<W>, key: Str)
    ensures
        get(d, key) is Some ==> 0 <= slot(d, key) < d.len() && d[slot(d, key)] == (key, get(d, key)->0),
{
    lemma_slot(d, key, 0);
}

pub proof fn lemma_less_chain(a: Str, b: Str, c: Str)
    requires
        less(a, b),
        less(b, c),
    ensures
        less(a, c),
{
    lemma_bytes_less_transitive(encode_utf8(a), encode_utf8(b), encode_utf8(c));
}

/// Putting keeps the order of the keys.
pub proof fn lemma_put_ordered<W>(d: Rows<W>, key: Str, value: W)
    requires
        ordered(d),
    ensures
        ordered(put(d, key, value)),
{
    lemma_slot(d, key, 0);
    let n = slot(d, key);
    let p = put(d, key, value);
    if n < d.len() && d[n].0 == key {
        assert forall|i: int, j: int| 0 <= i < j < p.len() implies less(
            #[trigger] p[i].0,
            #[trigger] p[j].0,
        ) by {
            assert(p[i].0 == d[i].0 && p[j].0 == d[j].0);
        }
    } else {
        if n < d.len() {
            lemma_less_total(d[n].0, key);
        }
        assert forall|i: int, j: int| 0 <= i < j < p.len() implies less(
            #[trigger] p[i].0,
            #[trigger] p[j].0,
        ) by {
            if j < n {
                assert(p[i] == d[i] && p[j] == d[j]);
            } else if j == n {
                assert(p[i] == d[i]);
            } else if i < n {
                assert(p[i] == d[i] && p[j] == d[j - 1]);
            } else if i == n {
                assert(p[j] == d[j - 1]);
                if j - 1 > n {
                    lemma_less_chain(key, d[n].0, d[j - 1].0);
                }
            } else {
                assert(p[i] == d[i - 1] && p[j] == d[j - 1]);
            }
        }
    }
}

/// Removing keeps the order of the keys.
pub proof fn lemma_without_ordered<W>(d: Rows<W>, key: Str)
    requires
        ordered(d),
    ensures
        ordered(without(d, key)),
{
    lemma_slot(d, key, 0);
    let n = slot(d, key);
    let p = without(d, key);
    if n < d.len() && d[n].0 == key {
        assert forall|i: int, j: int| 0 <= i < j < p.len() implies less(
            #[trigger] p[i].0,
            #[trigger] p[j].0,
        ) by {
            assert(p[i] == d[if i < n { i } else { i + 1 }]);
            assert(p[j] == d[if j < n { j } else { j + 1 }]);
        }
    }
}

/// A key that was put is read back.
pub proof fn lemma_get_put_same<W>(d: Rows<W>, key: Str, value: W)
    ensures
        get(put(d, key, value), key) == Some(value),
{
    lemma_slot(d, key, 0);
    lemma_less_total(key, key);
    let n = slot(d, key);
    let p = put(d, key, value);
    assert forall|k: int| 0 <= k < n implies less(#[trigger] p[k].0, key) by {
        assert(p[k] == d[k]);
    }
    lemma_slot_unique(p, key, n, 0);
}

/// Putting one key leaves the others as they were.
pub proof fn lemma_get_put_other<W>(d: Rows<W>, key: Str, value: W, other: Str)
    requires
        ordered(d),
        other != key,
    ensures
        get(put(d, key, value), other) == get(d, other),
{
    let p = put(d, key, value);
    lemma_put_ordered(d, key, value);
    lemma_slot(d, key, 0);
    lemma_get_found(d, other);
    lemma_get_found(p, other);
    let n = slot(d, key);
    if get(d, other) is Some {
        let i = slot(d, other);
        if n < d.len() && d[n].0 == key {
            assert(p[i] == d[i]);
            lemma_get_at(p, i);
        } else {
            let k = if i < n {
                i
            } else {
                i + 1
            };
            assert(p[k] == d[i]);
            lemma_get_at(p, k);
        }
    } else if get(p, other) is Some {
        let i = slot(p, other);
        if n < d.len() && d[n].0 == key {
            assert(p[i] == d[i]);
            lemma_get_at(d, i);
        } else {
            let k = if i < n {
                i
            } else {
                i - 1
            };
            assert(p[i] == d[k]);
            lemma_get_at(d, k);
        }
    }
}

/// A key that was removed is gone, and the others stay.
pub proof fn lemma_get_without<W>(d: Rows<W>, key: Str, other: Str)
    requires
        ordered(d),
    ensures
        get(without(d, key), other) == (if other == key { None } else { get(d, other) }),
{
    let p = without(d, key);
    lemma_without_ordered(d, key);
    lemma_slot(d, key, 0);
    lemma_get_found(d, other);
    lemma_get_found(p, other);
    lemma_less_total(key, key);
    let n = slot(d, key);
    if n < d.len() && d[n].0 == key {
        if get(p, other) is Some {
            let i = slot(p, other);
            let k = if i < n {
                i
            } else {
                i + 1
            };
            assert(p[i] == d[k]);
            lemma_get_at(d, k);
            if other == key {
                lemma_less_total(d[k].0, d[n].0);
                assert(false);
            }
        } else if other != key && get(d, other) is Some {
            let i = slot(d, other);
            let k = if i < n {
                i
            } else {
                i - 1
            };
            assert(p[k] == d[i]);
            lemma_get_at(p, k);
        }
    }
}

impl<V: View> View for Table<V> {
    type V = Rows<V::V>;

    open spec fn view(&self) -> Rows<V::V> {
        Seq::new(self.entries@.len(), |i: int| (self.entries@[i].0@, self.entries@[i].1@))
    }
}

impl<V: View> Table<V> {
    pub fn new() -> (r: Self)
        ensures
            r@ == Seq::<(Str, V::V)>::empty(),
            ordered(r@),
    {
        let r = Table { entries: Vec::new() };
        assert(r@ =~= Seq::<(Str, V::V)>::empty());
        r
    }

    pub fn len(&self) -> (r: usize)
        ensures
            r == self@.len(),
    {
        self.entries.len()
    }

    fn place(&self, key: &str) -> (r: (usize, bool))
        ensures
            r.0 == slot(self@, key@),
            r.0 <= self.entries.len(),
            r.1 == (r.0 < self.entries.len() && self@[r.0 as int].0 == key@),
    {
        let mut i: usize = 0;
        while i < self.entries.len()
            invariant
                i <= self.entries.len(),
                slot(self@, key@) == slot_from(self@, key@, i as int),
            decreases self.entries.len() - i,
        {
            let order = text_order(self.entries[i].0.as_str(), key);
            proof {
                lemma_less_total(self@[i as int].0, key@);
            }
            match order {
                Order::Before => {
                    i += 1;
                },
                Order::Equal => {
                    return (i, true);
                },
                Order::After => {
                    return (i, false);
                },
            }
        }
        (i, false)
    }

    pub fn find(&self, key: &str) -> (r: Option<&V>)
        ensures
            match r {
                Some(value) => get(self@, key@) == Some(value@),
                None => get(self@, key@) is None,
            },
            r matches Some(value) ==> exists|i: int|
                0 <= i < self.entries@.len() && self.entries@[i].1 == *value,
    {
        let (i, found) = self.place(key);
        if found {
            assert(self.entries@[i as int].1 == self.entries@[i as int].1);
            Some(&self.entries[i].1)
        } else {
            None
        }
    }

    pub fn holds(&self, key: &str) -> (r: bool)
        ensures
            r == (get(self@, key@) is Some),
    {
        self.place(key).1
    }

    pub fn insert(&mut self, key: String, value: V)
        ensures
            final(self)@ == put(old(self)@, key@, value@),
            ordered(old(self)@) ==> ordered(final(self)@),
    {
        proof {
            if ordered(self@) {
                lemma_put_ordered(self@, key@, value@);
            }
        }
        let (i, found) = self.place(key.as_str());
        if found {
            self.entries.set(i, (key, value));
        } else {
            self.entries.insert(i, (key, value));
        }
        assert(self@ =~= put(old(self)@, key@, value@));
    }

    pub fn remove(&mut self, key: &str)
        ensures
            final(self)@ == without(old(self)@, key@),
            ordered(old(self)@) ==> ordered(final(self)@),
    {
        proof {
            if ordered(self@) {
                lemma_without_ordered(self@, key@);
            }
        }
        let (i, found) = self.place(key);
        if found {
            let gone = self.entries.remove(i);
        }
        assert(self@ =~= without(old(self)@, key@));
    }
}

} // verus!
