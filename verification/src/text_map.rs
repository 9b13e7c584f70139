//! An ordered map from texts.

use vstd::prelude::*;
use vstd::string::*;
use crate::text::{same_text, text_less, text_lt, text_order_is_total, text_order_is_transitive};

verus! {

/// The texts stand in strictly ascending order.
pub open spec fn strictly_ascending(s: Seq<Seq<char>>) -> bool {
    forall|i: int, j: int| 0 <= i < j < s.len() ==> text_lt(#[trigger] s[i], #[trigger] s[j])
}

/// A strictly ascending list of texts names no text twice.
pub proof fn ascending_texts_are_distinct(s: Seq<Seq<char>>)
    requires
        strictly_ascending(s),
    ensures
        s.no_duplicates(),
{
    assert forall|i: int, j: int| 0 <= i < s.len() && 0 <= j < s.len() && i != j implies s[i]
        != s[j] by {
        text_order_is_total(s[i], s[j]);
        if i < j {
            assert(text_lt(s[i], s[j]));
        } else {
            assert(text_lt(s[j], s[i]));
        }
    }
}

/// A map from texts that keeps its entries in the order of its keys.
#[derive(Debug)]
pub struct TextMap<V> {
    entries: Vec<(String, V)>,
}

impl<V> TextMap<V> {
    #[verifier::type_invariant]
    spec fn ordered(self) -> bool {
        strictly_ascending(self.keys())
    }

    /// The keys in ascending order.
    pub closed spec fn keys(self) -> Seq<Seq<char>> {
        self.entries@.map_values(|e: (String, V)| e.0@)
    }

    /// The values in the order of their keys.
    pub closed spec fn values(self) -> Seq<V> {
        self.entries@.map_values(|e: (String, V)| e.1)
    }

    /// The mapping.
    pub open spec fn view(self) -> Map<Seq<char>, V> {
        Map::new(
            |k: Seq<char>| self.keys().contains(k),
            |k: Seq<char>| self.values()[self.keys().index_of(k)],
        )
    }

    /// The keys ascend strictly, and each has its value at the same position.
    pub open spec fn indexed(self) -> bool {
        &&& self.keys().len() == self.values().len()
        &&& strictly_ascending(self.keys())
        &&& forall|k: Seq<char>| #[trigger] self@.contains_key(k) <==> self.keys().contains(k)
        &&& forall|i: int|
            0 <= i < self.keys().len() ==> self@.contains_key(#[trigger] self.keys()[i])
                && self@[self.keys()[i]] == self.values()[i]
    }

    proof fn lemma_indexed(self)
        requires
            self.ordered(),
        ensures
            self.indexed(),
    {
        ascending_texts_are_distinct(self.keys());
        assert forall|i: int| 0 <= i < self.keys().len() implies self@.contains_key(
            #[trigger] self.keys()[i],
        ) && self@[self.keys()[i]] == self.values()[i] by {
            let k = self.keys()[i];
            assert(self.keys().contains(k));
            let j = self.keys().index_of(k);
            assert(self.keys()[j] == k);
        }
    }

    /// The empty map.
    pub fn new() -> (r: Self)
        ensures
            r.keys() == Seq::<Seq<char>>::empty(),
            r@ == Map::<Seq<char>, V>::empty(),
            r.indexed(),
    {
        let r = TextMap { entries: Vec::new() };
        proof {
            r.lemma_indexed();
            assert(r.keys() =~= Seq::<Seq<char>>::empty());
            assert(r@ =~= Map::<Seq<char>, V>::empty());
        }
        r
    }

    /// The number of entries.
    pub fn len(&self) -> (n: usize)
        ensures
            n == self.keys().len(),
            self.indexed(),
    {
        proof {
            use_type_invariant(self);
            self.lemma_indexed();
        }
        self.entries.len()
    }

    /// The key at a position.
    pub fn key_at(&self, i: usize) -> (r: &String)
        requires
            i < self.keys().len(),
        ensures
            r@ == self.keys()[i as int],
            self.indexed(),
    {
        proof {
            use_type_invariant(self);
            self.lemma_indexed();
        }
        &self.entries[i].0
    }

    /// The value at a position.
    pub fn value_at(&self, i: usize) -> (r: &V)
        requires
            i < self.keys().len(),
        ensures
            *r == self.values()[i as int],
            self.indexed(),
    {
        proof {
            use_type_invariant(self);
            self.lemma_indexed();
        }
        &self.entries[i].1
    }

    /// The first position whose key is not before `key`.
    fn position(&self, key: &str) -> (p: usize)
        ensures
            p <= self.keys().len(),
            forall|i: int| 0 <= i < p ==> text_lt(#[trigger] self.keys()[i], key@),
            forall|i: int| p <= i < self.keys().len() ==> !text_lt(#[trigger] self.keys()[i], key@),
    {
        proof {
            use_type_invariant(self);
        }
        let ghost keys = self.keys();
        let mut low: usize = 0;
        let mut high: usize = self.entries.len();
        while low < high
            invariant
                low <= high <= self.entries.len(),
                keys == self.keys(),
                strictly_ascending(keys),
                forall|i: int| 0 <= i < low ==> text_lt(#[trigger] keys[i], key@),
                forall|i: int| high <= i < keys.len() ==> !text_lt(#[trigger] keys[i], key@),
            decreases high - low,
        {
            let mid: usize = low + (high - low) / 2;
            assert(keys[mid as int] == self.entries@[mid as int].0@);
            if text_less(self.entries[mid].0.as_str(), key) {
                proof {
                    assert forall|i: int| 0 <= i < mid + 1 implies text_lt(
                        #[trigger] keys[i],
                        key@,
                    ) by {
                        if i < mid {
                            text_order_is_transitive(keys[i], keys[mid as int], key@);
                        }
                    }
                }
                low = mid + 1;
            } else {
                proof {
                    assert forall|i: int| mid <= i < keys.len() implies !text_lt(
                        #[trigger] keys[i],
                        key@,
                    ) by {
                        if i > mid && text_lt(keys[i], key@) {
                            text_order_is_transitive(keys[mid as int], keys[i], key@);
                        }
                    }
                }
                high = mid;
            }
        }
        low
    }

    /// Looks a key up.
    pub fn get(&self, key: &str) -> (r: Option<&V>)
        ensures
            match r {
                Some(v) => self@.contains_key(key@) && *v == self@[key@],
                None => !self@.contains_key(key@),
            },
            self.indexed(),
    {
        proof {
            use_type_invariant(self);
            self.lemma_indexed();
        }
        let p = self.position(key);
        if p < self.entries.len() && same_text(self.entries[p].0.as_str(), key) {
            assert(self.keys()[p as int] == key@);
            return Some(&self.entries[p].1);
        }
        proof {
            if self.keys().contains(key@) {
                let i = self.keys().index_of(key@);
                text_order_is_total(key@, key@);
                if i > p {
                    assert(text_lt(self.keys()[p as int], self.keys()[i]));
                }
            }
        }
        None
    }

    /// Sets the value of a key, in place of the value it had.
    pub fn insert(&mut self, key: String, value: V)
        ensures
            final(self)@ == old(self)@.insert(key@, value),
            final(self).indexed(),
    {
        proof {
            use_type_invariant(&*self);
            self.lemma_indexed();
        }
        let ghost before = *self;
        let p = self.position(key.as_str());
        let mut entries: Vec<(String, V)> = Vec::new();
        std::mem::swap(&mut entries, &mut self.entries);
        let ghost e0 = entries@;
        let ghost k = key@;
        let ghost present = p < e0.len() && e0[p as int].0@ == k;
        if p < entries.len() && same_text(entries[p].0.as_str(), key.as_str()) {
            entries.remove(p);
        }
        entries.insert(p, (key, value));
        let ghost e1 = entries@;
        let ghost after = TextMap::<V> { entries };
        proof {
            let k0 = before.keys();
            let k1 = after.keys();
            let shift: int = if present {
                0
            } else {
                1
            };
            assert(e1.len() == e0.len() + shift);
            assert(forall|i: int| 0 <= i < p ==> e1[i] == e0[i] && k1[i] == k0[i]);
            assert(e1[p as int] == (key, value));
            assert(forall|i: int|
                p < i < e1.len() ==> e1[i] == e0[i - shift] && k1[i] == k0[i - shift]);
            assert forall|i: int, j: int| 0 <= i < j < k1.len() implies text_lt(
                #[trigger] k1[i],
                #[trigger] k1[j],
            ) by {
                if i < p && j == p {
                    assert(text_lt(k0[i], k));
                } else if i == p {
                    let q = j - shift;
                    assert(k1[j] == k0[q]);
                    text_order_is_total(k0[q], k);
                    if present {
                        assert(text_lt(k0[p as int], k0[q]));
                    } else {
                        assert(!text_lt(k0[q], k));
                        if k0[q] == k && q > p {
                            assert(text_lt(k0[p as int], k0[q]));
                            assert(!text_lt(k0[p as int], k));
                        }
                    }
                } else if j < p {
                    assert(text_lt(k0[i], k0[j]));
                } else if i > p {
                    assert(text_lt(k0[i - shift], k0[j - shift]));
                } else {
                    assert(text_lt(k0[i], k0[j - shift]));
                }
            }
            after.lemma_indexed();
            assert forall|x: Seq<char>| #[trigger] after@.contains_key(x) == before@.insert(
                k,
                value,
            ).contains_key(x) by {
                if after.keys().contains(x) {
                    let i = after.keys().index_of(x);
                    if i < p {
                        assert(k0[i] == x);
                    } else if i > p {
                        assert(k0[i - shift] == x);
                    }
                }
                if before.keys().contains(x) {
                    let i = before.keys().index_of(x);
                    if i < p {
                        assert(k1[i] == x);
                    } else if i == p && present {
                        assert(k1[i] == k);
                    } else {
                        assert(k1[i + shift] == x);
                    }
                }
                if x == k {
                    assert(k1[p as int] == k);
                }
            }
            assert forall|x: Seq<char>| #[trigger] after@.contains_key(x) implies after@[x]
                == before@.insert(k, value)[x] by {
                let i = after.keys().index_of(x);
                assert(k1[i] == x);
                assert(after@[x] == e1[i].1);
                ascending_texts_are_distinct(k1);
                assert(k1[p as int] == k);
                if i < p {
                    assert(before.keys()[i] == x);
                    assert(before.values()[i] == e0[i].1);
                    assert(x != k);
                } else if i > p {
                    assert(before.keys()[i - shift] == x);
                    assert(before.values()[i - shift] == e0[i - shift].1);
                    assert(x != k);
                } else {
                    assert(x == k);
                }
            }
            assert(after@ =~= before@.insert(k, value));
        }
        self.entries = entries;
    }
}

} // verus!
