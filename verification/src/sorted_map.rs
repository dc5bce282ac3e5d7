//! Maps kept in the order their keys sort in.
//!
//! Manifests, epoch files, plan provenance and digests all name things by
//! text and are read back in key order, so that what comes out of them never
//! depends on the order they were written in.

use vstd::prelude::*;

use crate::text::chars_of;

verus! {

/// Whether `a` sorts strictly before `b`: character by character, a shorter
/// text before any text it is a prefix of. This is the order of `str`, whose
/// UTF-8 bytes sort as their code points do.
pub open spec fn text_lt(a: Seq<char>, b: Seq<char>) -> bool
    decreases a.len(),
{
    if a.len() == 0 {
        b.len() > 0
    } else if b.len() == 0 {
        false
    } else if a[0] != b[0] {
        a[0] < b[0]
    } else {
        text_lt(a.drop_first(), b.drop_first())
    }
}

/// No text sorts before itself.
pub proof fn lemma_text_lt_irreflexive(a: Seq<char>)
    ensures
        !text_lt(a, a),
    decreases a.len(),
{
    if a.len() > 0 {
        lemma_text_lt_irreflexive(a.drop_first());
    }
}

/// The order is transitive.
pub proof fn lemma_text_lt_transitive(a: Seq<char>, b: Seq<char>, c: Seq<char>)
    requires
        text_lt(a, b),
        text_lt(b, c),
    ensures
        text_lt(a, c),
    decreases a.len(),
{
    if a.len() > 0 && b.len() > 0 && c.len() > 0 {
        if a[0] == b[0] && b[0] == c[0] {
            lemma_text_lt_transitive(a.drop_first(), b.drop_first(), c.drop_first());
        }
    }
}

/// Of two different texts, one sorts before the other.
pub proof fn lemma_text_lt_total(a: Seq<char>, b: Seq<char>)
    ensures
        a == b || text_lt(a, b) || text_lt(b, a),
    decreases a.len(),
{
    if a.len() > 0 && b.len() > 0 && a[0] == b[0] {
        lemma_text_lt_total(a.drop_first(), b.drop_first());
        if a.drop_first() == b.drop_first() {
            assert(a =~= seq![a[0]] + a.drop_first());
            assert(b =~= seq![b[0]] + b.drop_first());
        }
    } else if a.len() == 0 && b.len() == 0 {
        assert(a =~= b);
    }
}

/// Once two texts agree on their first `i` characters, they compare as what
/// follows does.
proof fn lemma_text_lt_skip(a: Seq<char>, b: Seq<char>, i: int)
    requires
        0 <= i <= a.len(),
        i <= b.len(),
        a.take(i) == b.take(i),
    ensures
        text_lt(a, b) == text_lt(a.skip(i), b.skip(i)),
    decreases i,
{
    if i > 0 {
        assert(a[0] == a.take(i)[0]);
        assert(b[0] == b.take(i)[0]);
        assert(a.drop_first().take(i - 1) =~= a.take(i).drop_first());
        assert(b.drop_first().take(i - 1) =~= b.take(i).drop_first());
        lemma_text_lt_skip(a.drop_first(), b.drop_first(), i - 1);
        assert(a.drop_first().skip(i - 1) =~= a.skip(i));
        assert(b.drop_first().skip(i - 1) =~= b.skip(i));
    } else {
        assert(a.skip(0) =~= a);
        assert(b.skip(0) =~= b);
    }
}

/// Whether `a` sorts strictly before `b`.
pub fn text_less(a: &str, b: &str) -> (res: bool)
    ensures
        res == text_lt(a@, b@),
{
    let x = chars_of(a);
    let y = chars_of(b);
    let mut i: usize = 0;
    while i < x.len() && i < y.len()
        invariant
            i <= x@.len(),
            i <= y@.len(),
            x@ == a@,
            y@ == b@,
            x@.take(i as int) == y@.take(i as int),
        decreases x.len() - i,
    {
        if x[i] != y[i] {
            proof {
                lemma_text_lt_skip(x@, y@, i as int);
                assert(x@.skip(i as int)[0] == x@[i as int]);
                assert(y@.skip(i as int)[0] == y@[i as int]);
            }
            return x[i] < y[i];
        }
        proof {
            assert(x@.take(i + 1) =~= x@.take(i as int).push(x@[i as int]));
            assert(y@.take(i + 1) =~= y@.take(i as int).push(y@[i as int]));
        }
        i = i + 1;
    }
    proof {
        lemma_text_lt_skip(x@, y@, i as int);
    }
    i < y.len()
}

/// A key with a total order, as a map kept in key order needs one.
pub trait SortKey: View + Sized {
    /// Whether `a` sorts strictly before `b`.
    spec fn precedes(a: Self::V, b: Self::V) -> bool;

    proof fn lemma_irreflexive(a: Self::V)
        ensures
            !Self::precedes(a, a),
    ;

    proof fn lemma_transitive(a: Self::V, b: Self::V, c: Self::V)
        requires
            Self::precedes(a, b),
            Self::precedes(b, c),
        ensures
            Self::precedes(a, c),
    ;

    proof fn lemma_total(a: Self::V, b: Self::V)
        ensures
            a == b || Self::precedes(a, b) || Self::precedes(b, a),
    ;

    /// Whether this key sorts strictly before `other`.
    fn sorts_before(&self, other: &Self) -> (res: bool)
        ensures
            res == Self::precedes(self@, other@),
    ;

    /// Whether this key and `other` are the same key.
    fn same_key(&self, other: &Self) -> (res: bool)
        ensures
            res == (self@ == other@),
    ;
}

/// Keys in strictly increasing order, so each occurs once.
pub open spec fn keys_sorted<K: SortKey>(keys: Seq<K::V>) -> bool {
    forall|i: int, j: int|
        0 <= i < j < keys.len() ==> K::precedes(#[trigger] keys[i], #[trigger] keys[j])
}

impl SortKey for String {
    open spec fn precedes(a: Seq<char>, b: Seq<char>) -> bool {
        text_lt(a, b)
    }

    proof fn lemma_irreflexive(a: Seq<char>) {
        lemma_text_lt_irreflexive(a);
    }

    proof fn lemma_transitive(a: Seq<char>, b: Seq<char>, c: Seq<char>) {
        lemma_text_lt_transitive(a, b, c);
    }

    proof fn lemma_total(a: Seq<char>, b: Seq<char>) {
        lemma_text_lt_total(a, b);
    }

    fn sorts_before(&self, other: &String) -> (res: bool) {
        text_less(self.as_str(), other.as_str())
    }

    fn same_key(&self, other: &String) -> (res: bool) {
        crate::text::str_eq(self.as_str(), other.as_str())
    }
}

/// A map from text to `V`, iterated in key order.
pub type TextMap<V> = SortedMap<String, V>;

/// A map from `K` to `V`, iterated in key order.
#[derive(Debug)]
pub struct SortedMap<K: SortKey, V> {
    entries: Vec<(K, V)>,
}

impl<K: SortKey, V> SortedMap<K, V> {
    /// The keys, in the order they sort in.
    pub closed spec fn keys(&self) -> Seq<K::V> {
        keys_of(self.entries@)
    }

    /// The values, in the order of their keys.
    pub closed spec fn values(&self) -> Seq<V> {
        values_of(self.entries@)
    }

    #[verifier::type_invariant]
    spec fn ordered(&self) -> bool {
        keys_sorted::<K>(self.keys())
    }

    /// An empty map.
    pub fn new() -> (res: Self)
        ensures
            res.keys().len() == 0,
            res.values().len() == 0,
            res@ == Map::<K::V, V>::empty(),
    {
        let res = SortedMap { entries: Vec::new() };
        proof {
            assert(res@ =~= Map::<K::V, V>::empty());
        }
        res
    }

    /// How many keys there are, and what holds of every map.
    pub fn len(&self) -> (res: usize)
        ensures
            res == self.keys().len(),
            self.values().len() == self.keys().len(),
            keys_sorted::<K>(self.keys()),
    {
        proof {
            use_type_invariant(self);
        }
        self.entries.len()
    }

    /// The key at position `i` in key order.
    pub fn key_at(&self, i: usize) -> (res: &K)
        requires
            i < self.keys().len(),
        ensures
            res@ == self.keys()[i as int],
    {
        &self.entries[i].0
    }

    /// The value at position `i` in key order.
    pub fn value_at(&self, i: usize) -> (res: &V)
        requires
            i < self.keys().len(),
        ensures
            *res == self.values()[i as int],
    {
        &self.entries[i].1
    }

    /// The value under `key`, if there is one.
    pub fn get(&self, key: &K) -> (res: Option<&V>)
        ensures
            match res {
                Some(v) => self@.contains_key(key@) && *v == self@[key@],
                None => !self@.contains_key(key@),
            },
    {
        proof {
            use_type_invariant(self);
        }
        let mut i: usize = 0;
        while i < self.entries.len()
            invariant
                i <= self.entries@.len(),
                keys_sorted::<K>(self.keys()),
                forall|j: int| 0 <= j < i ==> self.keys()[j] != key@,
            decreases self.entries.len() - i,
        {
            let found = self.entries[i].0.same_key(key);
            if found {
                proof {
                    assert(self.keys()[i as int] == key@);
                    lemma_position::<K>(self.keys(), i as int);
                }
                return Some(&self.entries[i].1);
            }
            i = i + 1;
        }
        None
    }

    /// Sets the value under `key`, in place of any it had.
    pub fn insert(&mut self, key: K, value: V)
        ensures
            final(self)@ == old(self)@.insert(key@, value),
            final(self).keys().to_set() == old(self).keys().to_set().insert(key@),
    {
        proof {
            use_type_invariant(&*self);
        }
        let ghost old_keys = self.keys();
        let ghost old_values = self.values();
        let ghost old_map = self@;
        let ghost k = key@;
        let mut entries: Vec<(K, V)> = Vec::new();
        std::mem::swap(&mut entries, &mut self.entries);
        assert(keys_of(entries@) == old_keys);
        let mut i: usize = 0;
        while i < entries.len()
            invariant
                i <= entries@.len(),
                keys_of(entries@) == old_keys,
                values_of(entries@) == old_values,
                keys_sorted::<K>(old_keys),
                k == key@,
                forall|j: int| 0 <= j < i ==> K::precedes(#[trigger] old_keys[j], k),
            ensures
                i <= entries@.len(),
                keys_of(entries@) == old_keys,
                values_of(entries@) == old_values,
                forall|j: int| 0 <= j < i ==> K::precedes(#[trigger] old_keys[j], k),
                i < entries@.len() ==> !K::precedes(old_keys[i as int], k),
            decreases entries.len() - i,
        {
            if !entries[i].0.sorts_before(&key) {
                break;
            }
            i = i + 1;
        }
        let ghost at = i as int;
        if i < entries.len() && entries[i].0.same_key(&key) {
            entries.set(i, (key, value));
            proof {
                assert(old_keys[at] == k);
                lemma_position::<K>(old_keys, at);
                assert(keys_of(entries@) =~= old_keys.update(at, k));
                assert(keys_of(entries@) =~= old_keys);
            }
            self.entries = entries;
            proof {
                assert(self.keys() == old_keys);
                assert(self.values() =~= old_values.update(at, value));
                assert forall|x: K::V| #![auto]
                    self@.contains_key(x) == old_map.insert(k, value).contains_key(x) by {}
                assert forall|x: K::V| #![auto] self@.contains_key(x) implies self@[x]
                    == old_map.insert(k, value)[x] by {
                    let p = self.keys().index_of(x);
                    lemma_position::<K>(self.keys(), p);
                    lemma_position::<K>(old_keys, p);
                }
                assert(self@ =~= old_map.insert(k, value));
                assert(self.keys().to_set() =~= old_keys.to_set().insert(k));
            }
        } else {
            proof {
                if i < entries@.len() {
                    K::lemma_total(old_keys[at], k);
                }
            }
            entries.insert(i, (key, value));
            let ghost ks = keys_of(entries@);
            proof {
                assert(ks =~= old_keys.insert(at, k));
                assert forall|a: int, b: int| 0 <= a < b < ks.len() implies K::precedes(
                    #[trigger] ks[a],
                    #[trigger] ks[b],
                ) by {
                    if a < at && b == at {
                    } else if a < at && b > at {
                        assert(K::precedes(old_keys[a], k));
                    } else if a == at {
                        if b - 1 > at {
                            K::lemma_transitive(k, old_keys[at], old_keys[b - 1]);
                        }
                    } else {
                    }
                }
            }
            self.entries = entries;
            proof {
                assert(self.keys() == ks);
                assert(self.values() =~= old_values.insert(at, value));
                assert forall|x: K::V| #![auto]
                    self@.contains_key(x) == old_map.insert(k, value).contains_key(x) by {
                    if old_keys.contains(x) {
                        let p = old_keys.index_of(x);
                        if p < at {
                            assert(ks[p] == x);
                        } else {
                            assert(ks[p + 1] == x);
                        }
                    }
                    if x == k {
                        assert(ks[at] == k);
                    }
                    if ks.contains(x) {
                        let q = ks.index_of(x);
                        if q < at {
                            assert(old_keys[q] == x);
                        } else if q > at {
                            assert(old_keys[q - 1] == x);
                        }
                    }
                }
                assert forall|x: K::V| #![auto] self@.contains_key(x) implies self@[x]
                    == old_map.insert(k, value)[x] by {
                    let q = ks.index_of(x);
                    assert(ks[q] == x);
                    lemma_position::<K>(ks, q);
                    if q < at {
                        assert(old_keys[q] == x);
                        lemma_position::<K>(old_keys, q);
                        K::lemma_irreflexive(k);
                        assert(x != k);
                        assert(self.values()[q] == old_values[q]);
                    } else if q > at {
                        assert(old_keys[q - 1] == x);
                        lemma_position::<K>(old_keys, q - 1);
                        K::lemma_irreflexive(k);
                        assert(x != k);
                        assert(self.values()[q] == old_values[q - 1]);
                    } else {
                        assert(x == k);
                        assert(self.values()[q] == value);
                    }
                }
                assert(self@ =~= old_map.insert(k, value));
                assert(ks.to_set() =~= old_keys.to_set().insert(k));
            }
        }
    }
}

spec fn keys_of<K: View, V>(entries: Seq<(K, V)>) -> Seq<K::V> {
    entries.map_values(|e: (K, V)| e.0@)
}

spec fn values_of<K, V>(entries: Seq<(K, V)>) -> Seq<V> {
    entries.map_values(|e: (K, V)| e.1)
}

impl<K: SortKey, V> SortedMap<K, V> {
    /// There is a value for every key.
    pub proof fn lemma_lengths(&self)
        ensures
            self.values().len() == self.keys().len(),
    {
    }

    /// In a map whose keys are in order, the key at each position holds the
    /// value at that position.
    pub proof fn lemma_entry(&self, i: int)
        requires
            keys_sorted::<K>(self.keys()),
            0 <= i < self.keys().len(),
        ensures
            self.values().len() == self.keys().len(),
            self@.contains_key(self.keys()[i]),
            self@[self.keys()[i]] == self.values()[i],
    {
        lemma_position::<K>(self.keys(), i);
    }
}

/// In sorted keys, the position a key is found at is the one it is at.
proof fn lemma_position<K: SortKey>(keys: Seq<K::V>, i: int)
    requires
        keys_sorted::<K>(keys),
        0 <= i < keys.len(),
    ensures
        keys.contains(keys[i]),
        keys.index_of(keys[i]) == i,
{
    assert(keys[i] == keys[i]);
    let j = keys.index_of(keys[i]);
    if j < i {
        K::lemma_irreflexive(keys[i]);
    } else if j > i {
        K::lemma_irreflexive(keys[i]);
    }
}

impl<K: SortKey, V> View for SortedMap<K, V> {
    type V = Map<K::V, V>;

    /// Each key, with the value stored under it.
    open spec fn view(&self) -> Map<K::V, V> {
        Map::new(
            |k: K::V| self.keys().contains(k),
            |k: K::V| self.values()[self.keys().index_of(k)],
        )
    }
}

} // verus!
