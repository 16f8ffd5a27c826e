//! A map from strings to values that remembers the order in which its keys
//! first arrived.
//!
//! The map is modelled by two sequences of equal length, its keys (as
//! character sequences) and its values, and no key occurs twice. The view is
//! the mathematical map that those two sequences spell out.

use vstd::prelude::*;

verus! {

#[derive(Debug)]
struct Entry<V> {
    key: String,
    value: V,
}

/// A string-keyed map whose keys stay in first-insertion order.
#[derive(Debug)]
pub struct OrderedMap<V> {
    entries: Vec<Entry<V>>,
}

spec fn keys_of<V>(entries: Seq<Entry<V>>) -> Seq<Seq<char>> {
    Seq::new(entries.len(), |i: int| entries[i].key@)
}

spec fn values_of<V>(entries: Seq<Entry<V>>) -> Seq<V> {
    Seq::new(entries.len(), |i: int| entries[i].value)
}

/// The map that a key sequence and a value sequence of the same length stand for.
pub open spec fn assoc<V>(keys: Seq<Seq<char>>, values: Seq<V>) -> Map<Seq<char>, V> {
    Map::new(|k: Seq<char>| keys.contains(k), |k: Seq<char>| values[keys.index_of(k)])
}

/// With distinct keys, the key at position `i` is bound to the value at position `i`.
pub proof fn lemma_assoc_at<V>(keys: Seq<Seq<char>>, values: Seq<V>, i: int)
    requires
        keys.no_duplicates(),
        0 <= i < keys.len(),
    ensures
        assoc(keys, values).contains_key(keys[i]),
        assoc(keys, values)[keys[i]] == values[i],
{
    assert(keys.contains(keys[i]));
    let j = keys.index_of(keys[i]);
    assert(0 <= j < keys.len() && keys[j] == keys[i]);
}

/// Appending a fresh key binds it and changes nothing else.
proof fn lemma_assoc_push<V>(keys: Seq<Seq<char>>, values: Seq<V>, k: Seq<char>, v: V)
    requires
        keys.no_duplicates(),
        keys.len() == values.len(),
        !keys.contains(k),
    ensures
        keys.push(k).no_duplicates(),
        assoc(keys.push(k), values.push(v)) == assoc(keys, values).insert(k, v),
{
    let keys2 = keys.push(k);
    let values2 = values.push(v);
    assert forall|a: int, b: int| 0 <= a < keys2.len() && 0 <= b < keys2.len() && a != b implies keys2[a] != keys2[b] by {
        if a < keys.len() && b < keys.len() {
        } else if a < keys.len() {
            assert(keys.contains(keys[a]));
        } else {
            assert(keys.contains(keys[b]));
        }
    }
    assert forall|x: Seq<char>| keys2.contains(x) <==> (x == k || keys.contains(x)) by {
        if keys2.contains(x) {
            let j = keys2.index_of(x);
            assert(0 <= j < keys2.len() && keys2[j] == x);
            if j < keys.len() {
                assert(keys[j] == x);
            }
        }
        if keys.contains(x) {
            let j = keys.index_of(x);
            assert(keys2[j] == x);
        }
        if x == k {
            assert(keys2[keys.len() as int] == x);
        }
    }
    assert forall|x: Seq<char>| keys2.contains(x) implies #[trigger] assoc(keys2, values2)[x]
        == assoc(keys, values).insert(k, v)[x] by {
        let j = keys2.index_of(x);
        assert(0 <= j < keys2.len() && keys2[j] == x);
        lemma_assoc_at(keys2, values2, j);
        if j < keys.len() {
            lemma_assoc_at(keys, values, j);
        }
    }
    assert(assoc(keys2, values2) =~= assoc(keys, values).insert(k, v));
}

/// Replacing the value at the position of a bound key rebinds that key and changes nothing else.
proof fn lemma_assoc_update<V>(keys: Seq<Seq<char>>, values: Seq<V>, i: int, v: V)
    requires
        keys.no_duplicates(),
        keys.len() == values.len(),
        0 <= i < keys.len(),
    ensures
        assoc(keys, values.update(i, v)) == assoc(keys, values).insert(keys[i], v),
{
    let values2 = values.update(i, v);
    lemma_assoc_at(keys, values, i);
    assert forall|x: Seq<char>| keys.contains(x) implies #[trigger] assoc(keys, values2)[x]
        == assoc(keys, values).insert(keys[i], v)[x] by {
        let j = keys.index_of(x);
        assert(0 <= j < keys.len() && keys[j] == x);
        lemma_assoc_at(keys, values2, j);
        lemma_assoc_at(keys, values, j);
    }
    assert(assoc(keys, values2) =~= assoc(keys, values).insert(keys[i], v));
}

/// Dropping the position of a bound key unbinds that key and changes nothing else.
proof fn lemma_assoc_remove<V>(keys: Seq<Seq<char>>, values: Seq<V>, i: int)
    requires
        keys.no_duplicates(),
        keys.len() == values.len(),
        0 <= i < keys.len(),
    ensures
        keys.remove(i).no_duplicates(),
        !keys.remove(i).contains(keys[i]),
        assoc(keys.remove(i), values.remove(i)) == assoc(keys, values).remove(keys[i]),
{
    let keys2 = keys.remove(i);
    let values2 = values.remove(i);
    assert forall|a: int| 0 <= a < keys2.len() implies #[trigger] keys2[a] == keys[
        if a < i { a } else { a + 1 }
    ] by {}
    assert forall|x: Seq<char>| keys2.contains(x) <==> (x != keys[i] && keys.contains(x)) by {
        if keys2.contains(x) {
            let j = keys2.index_of(x);
            assert(0 <= j < keys2.len() && keys2[j] == x);
            let j1 = if j < i { j } else { j + 1 };
            assert(keys[j1] == x);
        }
        if x != keys[i] && keys.contains(x) {
            let j = keys.index_of(x);
            assert(0 <= j < keys.len() && keys[j] == x);
            let j2 = if j < i { j } else { j - 1 };
            assert(keys2[j2] == x);
        }
    }
    assert forall|x: Seq<char>| keys2.contains(x) implies #[trigger] assoc(keys2, values2)[x]
        == assoc(keys, values).remove(keys[i])[x] by {
        let j = keys2.index_of(x);
        assert(0 <= j < keys2.len() && keys2[j] == x);
        let j1 = if j < i { j } else { j + 1 };
        lemma_assoc_at(keys2, values2, j);
        lemma_assoc_at(keys, values, j1);
    }
    assert(assoc(keys2, values2) =~= assoc(keys, values).remove(keys[i]));
}

/// Filtering a sequence that ends in `x` filters what comes before, then decides on `x`.
pub proof fn lemma_filter_push<A>(s: Seq<A>, x: A, pred: spec_fn(A) -> bool)
    ensures
        s.push(x).filter(pred) == if pred(x) {
            s.filter(pred).push(x)
        } else {
            s.filter(pred)
        },
{
    reveal(Seq::filter);
    assert(s.push(x).drop_last() =~= s);
}

/// One more element taken from the front adds exactly that element.
pub proof fn lemma_take_next<A>(s: Seq<A>, i: int)
    requires
        0 <= i < s.len(),
    ensures
        s.take(i + 1) == s.take(i).push(s[i]),
        forall|x: A| #[trigger] s.take(i + 1).contains(x) <==> (s.take(i).contains(x) || x == s[i]),
        s.no_duplicates() ==> !s.take(i).contains(s[i]),
{
    let done = s.take(i);
    let next = s.take(i + 1);
    assert(next =~= done.push(s[i]));
    assert forall|x: A| #[trigger] next.contains(x) <==> (done.contains(x) || x == s[i]) by {
        if next.contains(x) {
            let j = next.index_of(x);
            assert(0 <= j < next.len() && next[j] == x);
            if j < done.len() {
                assert(done[j] == x);
            }
        }
        if done.contains(x) {
            let j = done.index_of(x);
            assert(0 <= j < done.len() && done[j] == x);
            assert(next[j] == x);
        }
        if x == s[i] {
            assert(next[i] == x);
        }
    }
    if s.no_duplicates() && done.contains(s[i]) {
        let j = done.index_of(s[i]);
        assert(0 <= j < done.len() && done[j] == s[i]);
        assert(s[j] == s[i]);
    }
}

/// Two predicates that agree on every element of a sequence filter it alike.
pub proof fn lemma_filter_agree<A>(s: Seq<A>, p: spec_fn(A) -> bool, q: spec_fn(A) -> bool)
    requires
        forall|i: int| 0 <= i < s.len() ==> p(#[trigger] s[i]) == q(s[i]),
    ensures
        s.filter(p) == s.filter(q),
    decreases s.len(),
{
    reveal(Seq::filter);
    if s.len() > 0 {
        lemma_filter_agree(s.drop_last(), p, q);
    }
}

/// A predicate that every element meets filters nothing out.
pub proof fn lemma_filter_all<A>(s: Seq<A>, p: spec_fn(A) -> bool)
    requires
        forall|i: int| 0 <= i < s.len() ==> p(#[trigger] s[i]),
    ensures
        s.filter(p) == s,
    decreases s.len(),
{
    reveal(Seq::filter);
    if s.len() > 0 {
        lemma_filter_all(s.drop_last(), p);
        assert(s.drop_last().push(s.last()) =~= s);
    }
}

/// Filtering twice is filtering once by both predicates.
proof fn lemma_filter_twice<A>(s: Seq<A>, p: spec_fn(A) -> bool, q: spec_fn(A) -> bool)
    ensures
        s.filter(p).filter(q) == s.filter(|x: A| p(x) && q(x)),
    decreases s.len(),
{
    let both = |x: A| p(x) && q(x);
    reveal(Seq::filter);
    if s.len() > 0 {
        lemma_filter_twice(s.drop_last(), p, q);
        if p(s.last()) {
            lemma_filter_push(s.drop_last().filter(p), s.last(), q);
        }
    }
}

/// In a sequence without duplicates, dropping one position is filtering out its element.
proof fn lemma_remove_is_filter<A>(s: Seq<A>, i: int)
    requires
        s.no_duplicates(),
        0 <= i < s.len(),
    ensures
        s.remove(i) == s.filter(|x: A| x != s[i]),
    decreases s.len(),
{
    let pred = |x: A| x != s[i];
    let init = s.drop_last();
    assert(init.push(s.last()) =~= s);
    lemma_filter_push(init, s.last(), pred);
    if i == s.len() - 1 {
        lemma_filter_all(init, pred);
        assert(s.remove(i) =~= init);
    } else {
        lemma_remove_is_filter(init, i);
        lemma_filter_agree(init, pred, |x: A| x != init[i]);
        assert(s.remove(i) =~= init.remove(i).push(s.last()));
    }
}

impl<V> View for OrderedMap<V> {
    type V = Map<Seq<char>, V>;

    open spec fn view(&self) -> Map<Seq<char>, V> {
        assoc(self.keys(), self.values())
    }
}

impl<V> OrderedMap<V> {
    /// The keys, in the order in which they first arrived.
    pub closed spec fn keys(&self) -> Seq<Seq<char>> {
        keys_of(self.entries@)
    }

    /// The values, each at the position of its key.
    pub closed spec fn values(&self) -> Seq<V> {
        values_of(self.entries@)
    }

    /// No key occurs twice, and every key has its value.
    #[verifier::type_invariant]
    pub open spec fn wf(&self) -> bool {
        &&& self.keys().no_duplicates()
        &&& self.keys().len() == self.values().len()
    }

    /// The empty map.
    pub fn new() -> (m: Self)
        ensures
            m.keys() == Seq::<Seq<char>>::empty(),
            m.values() == Seq::<V>::empty(),
            m@ == Map::<Seq<char>, V>::empty(),
    {
        let m = OrderedMap { entries: Vec::new() };
        assert(m.keys() =~= Seq::<Seq<char>>::empty());
        assert(m.values() =~= Seq::<V>::empty());
        assert(m@ =~= Map::<Seq<char>, V>::empty());
        m
    }

    /// The number of keys.
    pub fn len(&self) -> (n: usize)
        ensures
            n == self.keys().len(),
            n == self.values().len(),
    {
        self.entries.len()
    }

    /// The position of `key` among the keys, if it is bound.
    pub fn position(&self, key: &String) -> (found: Option<usize>)
        ensures
            match found {
                Some(i) => i < self.keys().len() && self.keys()[i as int] == key@,
                None => !self.keys().contains(key@),
            },
            found.is_some() == self@.contains_key(key@),
    {
        let mut i: usize = 0;
        while i < self.entries.len()
            invariant
                i <= self.entries.len(),
                forall|j: int| 0 <= j < i ==> self.keys()[j] != key@,
            decreases self.entries.len() - i,
        {
            if self.entries[i].key == *key {
                assert(self.keys()[i as int] == key@);
                return Some(i);
            }
            i += 1;
        }
        None
    }

    /// Whether `key` is bound.
    pub fn contains_key(&self, key: &String) -> (b: bool)
        ensures
            b == self@.contains_key(key@),
            b == self.keys().contains(key@),
    {
        self.position(key).is_some()
    }

    /// The key at position `i`.
    pub fn key_at(&self, i: usize) -> (key: &String)
        requires
            i < self.keys().len(),
        ensures
            key@ == self.keys()[i as int],
            self@.contains_key(key@),
    {
        assert(self.keys()[i as int] == self.entries[i as int].key@);
        &self.entries[i].key
    }

    /// The value at position `i`.
    pub fn value_at(&self, i: usize) -> (value: &V)
        requires
            i < self.keys().len(),
        ensures
            *value == self.values()[i as int],
            *value == self@[self.keys()[i as int]],
    {
        proof {
            use_type_invariant(self);
            lemma_assoc_at(self.keys(), self.values(), i as int);
        }
        &self.entries[i].value
    }

    /// The value bound to `key`, if any.
    pub fn get(&self, key: &String) -> (found: Option<&V>)
        ensures
            match found {
                Some(value) => self@.contains_key(key@) && *value == self@[key@],
                None => !self@.contains_key(key@),
            },
    {
        match self.position(key) {
            Some(i) => Some(self.value_at(i)),
            None => None,
        }
    }

    /// Binds `key` to `value`. A key that was bound keeps its position and
    /// hands back the value it had; a new key goes to the end.
    pub fn insert(&mut self, key: String, value: V) -> (previous: Option<V>)
        ensures
            final(self)@ == old(self)@.insert(key@, value),
            old(self)@.contains_key(key@) ==> {
                &&& previous == Some(old(self)@[key@])
                &&& final(self).keys() == old(self).keys()
                &&& final(self).values() == old(self).values().update(
                    old(self).keys().index_of(key@),
                    value,
                )
            },
            !old(self)@.contains_key(key@) ==> {
                &&& previous.is_none()
                &&& final(self).keys() == old(self).keys().push(key@)
                &&& final(self).values() == old(self).values().push(value)
            },
    {
        proof {
            use_type_invariant(&*self);
        }
        let found = self.position(&key);
        let ghost keys0 = self.keys();
        let ghost values0 = self.values();
        let mut entries: Vec<Entry<V>> = Vec::new();
        std::mem::swap(&mut entries, &mut self.entries);
        match found {
            Some(i) => {
                let mut value = value;
                let ghost given = value;
                std::mem::swap(&mut entries[i].value, &mut value);
                proof {
                    let idx = keys0.index_of(key@);
                    assert(keys0.contains(key@));
                    assert(idx == i);
                    assert(keys_of(entries@) =~= keys0);
                    assert(values_of(entries@) =~= values0.update(i as int, given));
                    lemma_assoc_update(keys0, values0, i as int, given);
                    lemma_assoc_at(keys0, values0, i as int);
                }
                self.entries = entries;
                Some(value)
            },
            None => {
                entries.push(Entry { key, value });
                proof {
                    lemma_assoc_push(keys0, values0, key@, value);
                    assert(keys_of(entries@) =~= keys0.push(key@));
                    assert(values_of(entries@) =~= values0.push(value));
                }
                self.entries = entries;
                None
            },
        }
    }

    /// Unbinds `key` and hands back the value it had. The other keys keep their order.
    pub fn remove(&mut self, key: &String) -> (previous: Option<V>)
        ensures
            final(self)@ == old(self)@.remove(key@),
            final(self).keys() == old(self).keys().filter(|k: Seq<char>| k != key@),
            old(self)@.contains_key(key@) ==> {
                &&& previous == Some(old(self)@[key@])
                &&& final(self).keys() == old(self).keys().remove(old(self).keys().index_of(key@))
                &&& final(self).values() == old(self).values().remove(
                    old(self).keys().index_of(key@),
                )
            },
            !old(self)@.contains_key(key@) ==> {
                &&& previous.is_none()
                &&& final(self).keys() == old(self).keys()
                &&& final(self).values() == old(self).values()
            },
    {
        proof {
            use_type_invariant(&*self);
        }
        let found = self.position(key);
        match found {
            Some(i) => {
                let ghost keys0 = self.keys();
                let ghost values0 = self.values();
                let mut entries: Vec<Entry<V>> = Vec::new();
                std::mem::swap(&mut entries, &mut self.entries);
                let entry = entries.remove(i);
                proof {
                    assert(keys0.contains(key@));
                    assert(keys0.index_of(key@) == i);
                    lemma_assoc_remove(keys0, values0, i as int);
                    lemma_assoc_at(keys0, values0, i as int);
                    assert(keys_of(entries@) =~= keys0.remove(i as int));
                    assert(values_of(entries@) =~= values0.remove(i as int));
                    lemma_remove_is_filter(keys0, i as int);
                    lemma_filter_agree(
                        keys0,
                        |k: Seq<char>| k != keys0[i as int],
                        |k: Seq<char>| k != key@,
                    );
                }
                self.entries = entries;
                Some(entry.value)
            },
            None => {
                proof {
                    assert(self@.remove(key@) =~= self@);
                    lemma_filter_all(self.keys(), |k: Seq<char>| k != key@);
                }
                None
            },
        }
    }

    /// Unbinds every key that `gone` binds. The keys that stay keep their order.
    pub fn remove_all<W>(&mut self, gone: &OrderedMap<W>)
        ensures
            final(self)@ == old(self)@.remove_keys(gone@.dom()),
            final(self).keys() == old(self).keys().filter(|k: Seq<char>| !gone@.contains_key(k)),
    {
        let ghost keys0 = self.keys();
        let n = gone.len();
        let mut i: usize = 0;
        proof {
            lemma_filter_all(keys0, |k: Seq<char>| !gone.keys().take(0).contains(k));
            assert(self@ =~= old(self)@.remove_keys(gone.keys().take(0).to_set()));
        }
        while i < n
            invariant
                i <= n,
                n == gone.keys().len(),
                keys0 == old(self).keys(),
                self@ == old(self)@.remove_keys(gone.keys().take(i as int).to_set()),
                self.keys() == keys0.filter(|k: Seq<char>| !gone.keys().take(i as int).contains(k)),
            decreases n - i,
        {
            let ghost before = self@;
            let ghost done = gone.keys().take(i as int);
            let ghost next = gone.keys().take(i + 1);
            let key = gone.key_at(i);
            self.remove(key);
            proof {
                lemma_take_next(gone.keys(), i as int);
                assert(self@ =~= old(self)@.remove_keys(next.to_set()));
                lemma_filter_twice(
                    keys0,
                    |k: Seq<char>| !done.contains(k),
                    |k: Seq<char>| k != key@,
                );
                lemma_filter_agree(
                    keys0,
                    |k: Seq<char>| (|k: Seq<char>| !done.contains(k))(k) && (|k: Seq<char>| k != key@)(k),
                    |k: Seq<char>| !next.contains(k),
                );
            }
            i += 1;
        }
        proof {
            assert(gone.keys().take(n as int) =~= gone.keys());
            assert(gone.keys().to_set() =~= gone@.dom());
            lemma_filter_agree(
                keys0,
                |k: Seq<char>| !gone.keys().take(n as int).contains(k),
                |k: Seq<char>| !gone@.contains_key(k),
            );
        }
    }
}

impl<V> Default for OrderedMap<V> {
    /// The empty map.
    fn default() -> (m: Self)
        ensures
            m.keys() == Seq::<Seq<char>>::empty(),
            m.values() == Seq::<V>::empty(),
            m@ == Map::<Seq<char>, V>::empty(),
    {
        OrderedMap::new()
    }
}

impl<V: Clone> Clone for OrderedMap<V> {
    /// A copy with the same keys in the same order, each value cloned.
    fn clone(&self) -> (copy: Self)
        ensures
            copy.keys() == self.keys(),
            copy.values().len() == self.values().len(),
            forall|i: int|
                0 <= i < self.values().len() ==> cloned::<V>(
                    #[trigger] self.values()[i],
                    copy.values()[i],
                ),
    {
        proof {
            use_type_invariant(self);
        }
        let mut entries: Vec<Entry<V>> = Vec::new();
        let mut i: usize = 0;
        while i < self.entries.len()
            invariant
                i <= self.entries.len(),
                entries.len() == i,
                forall|j: int| 0 <= j < i ==> entries[j].key@ == self.entries[j].key@,
                forall|j: int| 0 <= j < i ==> cloned::<V>(self.entries[j].value, entries[j].value),
            decreases self.entries.len() - i,
        {
            let key = self.entries[i].key.clone();
            let value = self.entries[i].value.clone();
            entries.push(Entry { key, value });
            i += 1;
        }
        proof {
            assert(keys_of(entries@) =~= self.keys());
            assert(values_of(entries@).len() == self.values().len());
        }
        OrderedMap { entries }
    }
}

} // verus!
