//! A map from strings to values that keeps its keys in ascending order, as
//! the tool's configuration files and environment listings do.
use vstd::prelude::*;

use crate::text::{chars_of, owned, str_views};

verus! {

// ---------------------------------------------------------------------------
// The order of strings
// ---------------------------------------------------------------------------

/// Lexicographic order of character sequences by code point, the order in
/// which Rust orders `String`s.
pub open spec fn seq_lt(a: Seq<char>, b: Seq<char>) -> bool
    decreases a.len(),
{
    if b.len() == 0 {
        false
    } else if a.len() == 0 {
        true
    } else if a[0] != b[0] {
        a[0] < b[0]
    } else {
        seq_lt(a.drop_first(), b.drop_first())
    }
}

pub proof fn lemma_seq_lt_irreflexive(a: Seq<char>)
    ensures
        !seq_lt(a, a),
    decreases a.len(),
{
    if a.len() > 0 {
        lemma_seq_lt_irreflexive(a.drop_first());
    }
}

pub proof fn lemma_seq_lt_total(a: Seq<char>, b: Seq<char>)
    ensures
        seq_lt(a, b) || a == b || seq_lt(b, a),
        !(seq_lt(a, b) && seq_lt(b, a)),
    decreases a.len(),
{
    if a.len() > 0 && b.len() > 0 {
        if a[0] == b[0] {
            lemma_seq_lt_total(a.drop_first(), b.drop_first());
            if a.drop_first() == b.drop_first() {
                assert(a == seq![a[0]] + a.drop_first());
                assert(b == seq![b[0]] + b.drop_first());
            }
        }
    } else if a.len() == 0 && b.len() == 0 {
        assert(a == b);
    }
}

pub proof fn lemma_seq_lt_transitive(a: Seq<char>, b: Seq<char>, c: Seq<char>)
    requires
        seq_lt(a, b),
        seq_lt(b, c),
    ensures
        seq_lt(a, c),
    decreases a.len(),
{
    if a.len() > 0 && b.len() > 0 && c.len() > 0 {
        if a[0] == b[0] && b[0] == c[0] {
            lemma_seq_lt_transitive(a.drop_first(), b.drop_first(), c.drop_first());
        }
    }
}

/// The outcome of comparing two strings.
#[derive(PartialEq, Eq, Structural, Debug, Clone, Copy)]
pub enum Order {
    Less,
    Equal,
    Greater,
}

/// Compares two character sequences in string order.
pub fn compare_chars(a: &Vec<char>, b: &Vec<char>) -> (r: Order)
    ensures
        r == Order::Less <==> seq_lt(a@, b@),
        r == Order::Equal <==> a@ == b@,
        r == Order::Greater <==> seq_lt(b@, a@),
{
    proof {
        lemma_seq_lt_total(a@, b@);
        lemma_seq_lt_irreflexive(a@);
        assert(a@.skip(0) == a@);
        assert(b@.skip(0) == b@);
    }
    let mut i: usize = 0;
    while i < a.len() && i < b.len() && a[i] == b[i]
        invariant
            i <= a.len(),
            i <= b.len(),
            a@.take(i as int) == b@.take(i as int),
            seq_lt(a@, b@) == seq_lt(a@.skip(i as int), b@.skip(i as int)),
            seq_lt(b@, a@) == seq_lt(b@.skip(i as int), a@.skip(i as int)),
        decreases a.len() - i,
    {
        proof {
            assert(a@.skip(i as int).drop_first() == a@.skip(i + 1));
            assert(b@.skip(i as int).drop_first() == b@.skip(i + 1));
            assert(a@.take(i + 1) == a@.take(i as int).push(a@[i as int]));
            assert(b@.take(i + 1) == b@.take(i as int).push(b@[i as int]));
        }
        i = i + 1;
    }
    if i == a.len() && i == b.len() {
        proof {
            assert(a@.take(i as int) == a@);
            assert(b@.take(i as int) == b@);
        }
        Order::Equal
    } else if i == a.len() {
        proof {
            assert(a@.skip(i as int).len() == 0);
            assert(a@ != b@);
        }
        Order::Less
    } else if i == b.len() {
        proof {
            assert(b@.skip(i as int).len() == 0);
            assert(a@ != b@) by {
                assert(a@.len() != b@.len());
            }
        }
        Order::Greater
    } else {
        proof {
            assert(a@.skip(i as int)[0] == a@[i as int]);
            assert(b@.skip(i as int)[0] == b@[i as int]);
            assert(a@[i as int] != b@[i as int]);
        }
        if a[i] < b[i] {
            Order::Less
        } else {
            Order::Greater
        }
    }
}

// ---------------------------------------------------------------------------
// The map
// ---------------------------------------------------------------------------

/// A map from strings to values, stored in ascending key order.
pub struct StrMap<V> {
    entries: Vec<(String, V)>,
}

/// The keys of a sequence of entries, in order.
pub open spec fn keys_of<V>(entries: Seq<(String, V)>) -> Seq<Seq<char>> {
    entries.map_values(|e: (String, V)| e.0@)
}

/// Keys strictly ascending.
pub open spec fn sorted_keys(keys: Seq<Seq<char>>) -> bool {
    forall|i: int, j: int| 0 <= i < j < keys.len() ==> seq_lt(keys[i], keys[j])
}

impl<V> StrMap<V> {
    /// The entries, in ascending key order.
    pub closed spec fn entries(self) -> Seq<(String, V)> {
        self.entries@
    }

    /// The keys, in ascending order.
    pub open spec fn keys(self) -> Seq<Seq<char>> {
        keys_of(self.entries())
    }

    /// The map's invariant: keys strictly ascending. Every map that code
    /// holds satisfies it.
    #[verifier::type_invariant]
    pub open spec fn wf(self) -> bool {
        sorted_keys(self.keys())
    }

    /// Whether `k` is a key of the map.
    pub open spec fn has_key(self, k: Seq<char>) -> bool {
        self.keys().contains(k)
    }

    /// The value stored under `k`, when `k` is a key.
    pub open spec fn value_of(self, k: Seq<char>) -> V {
        self.entries()[self.keys().index_of(k)].1
    }

    /// The map as a mathematical map.
    pub open spec fn map(self) -> Map<Seq<char>, V> {
        Map::new(|k: Seq<char>| self.has_key(k), |k: Seq<char>| self.value_of(k))
    }

    pub fn new() -> (m: Self)
        ensures
            m.entries().len() == 0,
            m.map() == Map::<Seq<char>, V>::empty(),
    {
        let m = StrMap { entries: Vec::new() };
        proof {
            assert(m.map() =~= Map::<Seq<char>, V>::empty());
        }
        m
    }

    pub fn len(&self) -> (n: usize)
        ensures
            n == self.entries().len(),
    {
        self.entries.len()
    }

    pub fn is_empty(&self) -> (r: bool)
        ensures
            r == (self.entries().len() == 0),
    {
        self.entries.len() == 0
    }

    /// The key and value at position `i` in ascending key order.
    pub fn entry_at(&self, i: usize) -> (r: (&String, &V))
        requires
            i < self.entries().len(),
        ensures
            *r.0 == self.entries()[i as int].0,
            *r.1 == self.entries()[i as int].1,
    {
        (&self.entries[i].0, &self.entries[i].1)
    }

    /// Where `key` is, or where it would go.
    fn locate(&self, key: &Vec<char>) -> (r: (usize, bool))
        requires
            self.wf(),
        ensures
            r.0 <= self.entries().len(),
            forall|i: int| 0 <= i < r.0 ==> seq_lt(#[trigger] self.keys()[i], key@),
            r.1 ==> r.0 < self.entries().len() && self.keys()[r.0 as int] == key@,
            !r.1 ==> forall|i: int|
                r.0 <= i < self.entries().len() ==> seq_lt(key@, #[trigger] self.keys()[i]),
    {
        let mut i: usize = 0;
        while i < self.entries.len()
            invariant
                self.wf(),
                i <= self.entries().len(),
                forall|k: int| 0 <= k < i ==> seq_lt(#[trigger] self.keys()[k], key@),
            decreases self.entries.len() - i,
        {
            let here = chars_of(self.entries[i].0.as_str());
            proof {
                assert(here@ == self.keys()[i as int]);
            }
            match compare_chars(&here, key) {
                Order::Less => {},
                Order::Equal => {
                    return (i, true);
                },
                Order::Greater => {
                    proof {
                        assert forall|j: int| i <= j < self.entries().len() implies seq_lt(
                            key@,
                            #[trigger] self.keys()[j],
                        ) by {
                            if j > i {
                                lemma_seq_lt_transitive(key@, self.keys()[i as int], self.keys()[j]);
                            }
                        }
                    }
                    return (i, false);
                },
            }
            i = i + 1;
        }
        (i, false)
    }

    proof fn lemma_index_of(self, i: int)
        requires
            self.wf(),
            0 <= i < self.entries().len(),
        ensures
            self.keys().index_of(self.keys()[i]) == i,
            self.has_key(self.keys()[i]),
            self.value_of(self.keys()[i]) == self.entries()[i].1,
    {
        let k = self.keys()[i];
        assert(self.keys().contains(k));
        self.keys().index_of_first_ensures(k);
        let j = self.keys().index_of(k);
        if j != i {
            if j < i {
                lemma_seq_lt_irreflexive(k);
            } else {
                lemma_seq_lt_irreflexive(k);
            }
        }
    }

    proof fn lemma_absent(self, k: Seq<char>, p: int)
        requires
            self.wf(),
            0 <= p <= self.entries().len(),
            forall|i: int| 0 <= i < p ==> seq_lt(#[trigger] self.keys()[i], k),
            forall|i: int| p <= i < self.entries().len() ==> seq_lt(k, #[trigger] self.keys()[i]),
        ensures
            !self.has_key(k),
    {
        if self.has_key(k) {
            let j = choose|j: int| 0 <= j < self.keys().len() && self.keys()[j] == k;
            lemma_seq_lt_irreflexive(k);
            if j < p {
                assert(seq_lt(self.keys()[j], k));
            } else {
                assert(seq_lt(k, self.keys()[j]));
            }
        }
    }

    /// The value stored under `key`, if any.
    pub fn get(&self, key: &str) -> (r: Option<&V>)
        ensures
            r is Some <==> self.has_key(key@),
            r matches Some(v) ==> *v == self.value_of(key@),
    {
        proof {
            use_type_invariant(self);
        }
        let k = chars_of(key);
        let (p, found) = self.locate(&k);
        if found {
            proof {
                self.lemma_index_of(p as int);
            }
            Some(&self.entries[p].1)
        } else {
            proof {
                self.lemma_absent(key@, p as int);
            }
            None
        }
    }

    /// Whether `key` is a key of the map.
    pub fn contains_key(&self, key: &str) -> (r: bool)
        ensures
            r == self.has_key(key@),
    {
        self.get(key).is_some()
    }

    /// Stores `value` under `key`, replacing what was stored there.
    pub fn insert(&mut self, key: String, value: V)
        ensures
            final(self).has_key(key@),
            final(self).value_of(key@) == value,
            forall|k: Seq<char>|
                k != key@ ==> (#[trigger] final(self).has_key(k) == old(self).has_key(k)),
            forall|k: Seq<char>|
                k != key@ && old(self).has_key(k) ==> #[trigger] final(self).value_of(k)
                    == old(self).value_of(k),
            final(self).map() == old(self).map().insert(key@, value),
    {
        proof {
            use_type_invariant(&*self);
        }
        let k = chars_of(key.as_str());
        let (p, found) = self.locate(&k);
        let ghost old_keys = self.keys();
        let ghost old_self = *self;
        let mut entries: Vec<(String, V)> = Vec::new();
        std::mem::swap(&mut entries, &mut self.entries);
        if found {
            entries.set(p, (key, value));
            proof {
                assert(keys_of(entries@) =~= old_keys);
            }
            self.entries = entries;
            proof {
                assert(self.keys() =~= old_keys);
                assert forall|q: Seq<char>|
                    q != key@ && old_self.has_key(q) implies #[trigger] self.value_of(q)
                    == old_self.value_of(q) by {
                    let j = old_keys.index_of(q);
                    old_keys.index_of_first_ensures(q);
                    old_self.lemma_index_of(j);
                    self.lemma_index_of(j);
                }
                self.lemma_index_of(p as int);
            }
        } else {
            entries.insert(p, (key, value));
            proof {
                let nk = keys_of(entries@);
                assert(nk =~= old_keys.insert(p as int, k@));
                assert forall|i: int, j: int| 0 <= i < j < nk.len() implies seq_lt(nk[i], nk[j]) by {
                    if j < p {
                    } else if j == p {
                    } else if i < p {
                        assert(nk[j] == old_keys[j - 1]);
                        if i + 1 < j {
                        }
                        lemma_seq_lt_transitive(nk[i], k@, nk[j]);
                    } else if i == p {
                        assert(nk[j] == old_keys[j - 1]);
                    } else {
                        assert(nk[i] == old_keys[i - 1]);
                        assert(nk[j] == old_keys[j - 1]);
                    }
                }
            }
            self.entries = entries;
            proof {
                let nk = self.keys();
                assert forall|q: Seq<char>| q != key@ implies #[trigger] self.has_key(q)
                    == old_self.has_key(q) by {
                    if old_self.has_key(q) {
                        let j = choose|j: int| 0 <= j < old_keys.len() && old_keys[j] == q;
                        if j < p {
                            assert(nk[j] == q);
                        } else {
                            assert(nk[j + 1] == q);
                        }
                    }
                    if self.has_key(q) {
                        let j = choose|j: int| 0 <= j < nk.len() && nk[j] == q;
                        if j < p {
                            assert(old_keys[j] == q);
                        } else if j > p {
                            assert(old_keys[j - 1] == q);
                        }
                    }
                }
                assert forall|q: Seq<char>|
                    q != key@ && old_self.has_key(q) implies #[trigger] self.value_of(q)
                    == old_self.value_of(q) by {
                    old_keys.index_of_first_ensures(q);
                    let j = old_keys.index_of(q);
                    old_self.lemma_index_of(j);
                    if j < p {
                        self.lemma_index_of(j);
                    } else {
                        assert(nk[j + 1] == q);
                        self.lemma_index_of(j + 1);
                    }
                }
                self.lemma_index_of(p as int);
            }
        }
        proof {
            assert(self.map() =~= old_self.map().insert(key@, value));
        }
    }

    /// Removes `key` and what was stored under it.
    pub fn remove(&mut self, key: &str) -> (r: Option<V>)
        ensures
            r is Some <==> old(self).has_key(key@),
            r matches Some(v) ==> v == old(self).value_of(key@),
            !final(self).has_key(key@),
            forall|k: Seq<char>|
                k != key@ ==> (#[trigger] final(self).has_key(k) == old(self).has_key(k)),
            forall|k: Seq<char>|
                k != key@ && old(self).has_key(k) ==> #[trigger] final(self).value_of(k)
                    == old(self).value_of(k),
            final(self).map() == old(self).map().remove(key@),
    {
        proof {
            use_type_invariant(&*self);
        }
        let k = chars_of(key);
        let (p, found) = self.locate(&k);
        let ghost old_keys = self.keys();
        let ghost old_self = *self;
        if found {
            proof {
                old_self.lemma_index_of(p as int);
            }
            let mut entries: Vec<(String, V)> = Vec::new();
            std::mem::swap(&mut entries, &mut self.entries);
            let (_, v) = entries.remove(p);
            proof {
                let nk = keys_of(entries@);
                assert(nk =~= old_keys.remove(p as int));
                assert forall|i: int, j: int| 0 <= i < j < nk.len() implies seq_lt(nk[i], nk[j]) by {
                    if j < p {
                    } else if i < p {
                        assert(nk[j] == old_keys[j + 1]);
                    } else {
                        assert(nk[i] == old_keys[i + 1]);
                        assert(nk[j] == old_keys[j + 1]);
                    }
                }
            }
            self.entries = entries;
            proof {
                let nk = self.keys();
                assert(nk =~= old_keys.remove(p as int));
                assert forall|q: Seq<char>| q != key@ implies #[trigger] self.has_key(q)
                    == old_self.has_key(q) by {
                    if old_self.has_key(q) {
                        let j = choose|j: int| 0 <= j < old_keys.len() && old_keys[j] == q;
                        if j < p {
                            assert(nk[j] == q);
                        } else {
                            assert(nk[j - 1] == q);
                        }
                    }
                    if self.has_key(q) {
                        let j = choose|j: int| 0 <= j < nk.len() && nk[j] == q;
                        if j < p {
                            assert(old_keys[j] == q);
                        } else {
                            assert(old_keys[j + 1] == q);
                        }
                    }
                }
                assert(!self.has_key(key@)) by {
                    if self.has_key(key@) {
                        let j = choose|j: int| 0 <= j < nk.len() && nk[j] == key@;
                        lemma_seq_lt_irreflexive(key@);
                        if j < p {
                            assert(seq_lt(old_keys[j], old_keys[p as int]));
                        } else {
                            assert(seq_lt(old_keys[p as int], old_keys[j + 1]));
                        }
                    }
                }
                assert forall|q: Seq<char>|
                    q != key@ && old_self.has_key(q) implies #[trigger] self.value_of(q)
                    == old_self.value_of(q) by {
                    old_keys.index_of_first_ensures(q);
                    let j = old_keys.index_of(q);
                    old_self.lemma_index_of(j);
                    if j < p {
                        self.lemma_index_of(j);
                    } else {
                        assert(nk[j - 1] == q);
                        self.lemma_index_of(j - 1);
                    }
                }
                assert(self.map() =~= old_self.map().remove(key@));
            }
            Some(v)
        } else {
            proof {
                old_self.lemma_absent(key@, p as int);
                assert(self.map() =~= old_self.map().remove(key@));
            }
            None
        }
    }

    /// The keys, in ascending order.
    pub fn key_list(&self) -> (r: Vec<String>)
        ensures
            str_views(r@) == self.keys(),
    {
        let mut out: Vec<String> = Vec::new();
        let mut i: usize = 0;
        while i < self.entries.len()
            invariant
                i <= self.entries().len(),
                str_views(out@) == self.keys().take(i as int),
            decreases self.entries.len() - i,
        {
            let ghost before = out@;
            out.push(owned(self.entries[i].0.as_str()));
            i = i + 1;
            proof {
                assert(str_views(before).len() == i - 1);
                assert forall|k: int| 0 <= k < i implies #[trigger] str_views(out@)[k]
                    == self.keys()[k] by {
                    if k < i - 1 {
                        assert(str_views(before)[k] == self.keys().take(i - 1)[k]);
                    }
                }
                assert(str_views(out@) =~= self.keys().take(i as int));
            }
        }
        proof {
            assert(self.keys().take(i as int) == self.keys());
        }
        out
    }
}

} // verus!
