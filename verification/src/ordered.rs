//! Maps kept sorted by composite text keys, the order of a `BTreeMap` over
//! tuples of strings and optional strings.
use vstd::prelude::*;
use crate::cdt::opt_seq;
use crate::text::{seq_lt, str_lt};

verus! {

/// `seq_lt` never holds of a sequence and itself.
pub proof fn lemma_seq_lt_irreflexive(a: Seq<char>)
    ensures
        !seq_lt(a, a),
    decreases a.len(),
{
    if a.len() > 0 {
        lemma_seq_lt_irreflexive(a.drop_first());
    }
}

/// `seq_lt` is transitive.
pub proof fn lemma_seq_lt_transitive(a: Seq<char>, b: Seq<char>, c: Seq<char>)
    requires
        seq_lt(a, b),
        seq_lt(b, c),
    ensures
        seq_lt(a, c),
    decreases a.len(),
{
    if a.len() > 0 && b.len() > 0 && c.len() > 0 && a[0] == b[0] && b[0] == c[0] {
        lemma_seq_lt_transitive(a.drop_first(), b.drop_first(), c.drop_first());
    }
}

/// Two different sequences are ordered one way or the other.
pub proof fn lemma_seq_lt_total(a: Seq<char>, b: Seq<char>)
    ensures
        a == b || seq_lt(a, b) || seq_lt(b, a),
    decreases a.len(),
{
    if a.len() > 0 && b.len() > 0 && a[0] == b[0] {
        lemma_seq_lt_total(a.drop_first(), b.drop_first());
        if a.drop_first() == b.drop_first() {
            assert(a =~= seq![a[0]] + a.drop_first());
            assert(b =~= seq![b[0]] + b.drop_first());
        }
    } else if a.len() == 0 && b.len() == 0 {
        assert(a =~= b);
    }
}

/// Order of optional text: nothing first, then texts in `seq_lt` order.
pub open spec fn opt_lt(a: Option<Seq<char>>, b: Option<Seq<char>>) -> bool {
    match (a, b) {
        (None, Some(_)) => true,
        (Some(x), Some(y)) => seq_lt(x, y),
        _ => false,
    }
}

/// Lexicographic order of composite keys (tuple order of a `BTreeMap`).
pub open spec fn key_lt(a: Seq<Option<Seq<char>>>, b: Seq<Option<Seq<char>>>) -> bool
    decreases a.len(),
{
    if a.len() == 0 {
        b.len() > 0
    } else if b.len() == 0 {
        false
    } else if a[0] != b[0] {
        opt_lt(a[0], b[0])
    } else {
        key_lt(a.drop_first(), b.drop_first())
    }
}

pub proof fn lemma_key_lt_irreflexive(a: Seq<Option<Seq<char>>>)
    ensures
        !key_lt(a, a),
    decreases a.len(),
{
    if a.len() > 0 {
        lemma_key_lt_irreflexive(a.drop_first());
    }
}

pub proof fn lemma_key_lt_transitive(a: Seq<Option<Seq<char>>>, b: Seq<Option<Seq<char>>>, c: Seq<Option<Seq<char>>>)
    requires
        key_lt(a, b),
        key_lt(b, c),
    ensures
        key_lt(a, c),
    decreases a.len(),
{
    if a.len() > 0 && b.len() > 0 && c.len() > 0 {
        if a[0] == b[0] && b[0] == c[0] {
            lemma_key_lt_transitive(a.drop_first(), b.drop_first(), c.drop_first());
        } else if a[0] != b[0] && b[0] != c[0] {
            match (a[0], b[0], c[0]) {
                (Some(x), Some(y), Some(z)) => {
                    lemma_seq_lt_transitive(x, y, z);
                    if x == z {
                        lemma_seq_lt_irreflexive(x);
                        lemma_seq_lt_transitive(x, y, x);
                    }
                },
                _ => {},
            }
        }
    }
}

pub proof fn lemma_key_lt_total(a: Seq<Option<Seq<char>>>, b: Seq<Option<Seq<char>>>)
    ensures
        a == b || key_lt(a, b) || key_lt(b, a),
    decreases a.len(),
{
    if a.len() > 0 && b.len() > 0 {
        if a[0] == b[0] {
            lemma_key_lt_total(a.drop_first(), b.drop_first());
            if a.drop_first() == b.drop_first() {
                assert(a =~= seq![a[0]] + a.drop_first());
                assert(b =~= seq![b[0]] + b.drop_first());
            }
        } else {
            match (a[0], b[0]) {
                (Some(x), Some(y)) => lemma_seq_lt_total(x, y),
                _ => {},
            }
        }
    } else if a.len() == 0 && b.len() == 0 {
        assert(a =~= b);
    }
}

/// The text view of a composite key.
pub open spec fn kv(k: Vec<Option<String>>) -> Seq<Option<Seq<char>>> {
    k@.map_values(|o: Option<String>| opt_seq(o))
}

fn opt_text_lt(a: &Option<String>, b: &Option<String>) -> (r: bool)
    ensures
        r == opt_lt(opt_seq(*a), opt_seq(*b)),
{
    match (a, b) {
        (None, Some(_)) => true,
        (Some(x), Some(y)) => str_lt(x.as_str(), y.as_str()),
        _ => false,
    }
}

fn opt_text_eq(a: &Option<String>, b: &Option<String>) -> (r: bool)
    ensures
        r == (opt_seq(*a) == opt_seq(*b)),
{
    crate::cdt::opt_eq(a, b)
}

/// Whether key `a` sorts before key `b`.
pub fn key_less(a: &Vec<Option<String>>, b: &Vec<Option<String>>) -> (r: bool)
    ensures
        r == key_lt(kv(*a), kv(*b)),
{
    assert(kv(*a).subrange(0, a@.len() as int) =~= kv(*a));
    assert(kv(*b).subrange(0, b@.len() as int) =~= kv(*b));
    let mut i: usize = 0;
    while i < a.len() && i < b.len() && opt_text_eq(&a[i], &b[i])
        invariant
            i <= a.len(),
            i <= b.len(),
            key_lt(kv(*a), kv(*b)) == key_lt(kv(*a).subrange(i as int, a@.len() as int), kv(*b).subrange(i as int, b@.len() as int)),
        decreases a.len() - i,
    {
        let ghost sa = kv(*a).subrange(i as int, a@.len() as int);
        let ghost sb = kv(*b).subrange(i as int, b@.len() as int);
        assert(sa.drop_first() =~= kv(*a).subrange(i + 1, a@.len() as int));
        assert(sb.drop_first() =~= kv(*b).subrange(i + 1, b@.len() as int));
        i = i + 1;
    }
    if i == a.len() {
        i < b.len()
    } else if i == b.len() {
        false
    } else {
        opt_text_lt(&a[i], &b[i])
    }
}

/// Whether two keys are equal.
pub fn key_equal(a: &Vec<Option<String>>, b: &Vec<Option<String>>) -> (r: bool)
    ensures
        r == (kv(*a) == kv(*b)),
{
    if a.len() != b.len() {
        assert(kv(*a).len() != kv(*b).len());
        return false;
    }
    let mut i: usize = 0;
    while i < a.len()
        invariant
            i <= a.len() == b.len(),
            forall|j: int| 0 <= j < i ==> kv(*a)[j] == kv(*b)[j],
        decreases a.len() - i,
    {
        if !opt_text_eq(&a[i], &b[i]) {
            assert(kv(*a)[i as int] != kv(*b)[i as int]);
            return false;
        }
        i = i + 1;
    }
    assert(kv(*a) =~= kv(*b));
    true
}

pub fn copy_key(k: &Vec<Option<String>>) -> (r: Vec<Option<String>>)
    ensures
        kv(r) == kv(*k),
{
    let mut out: Vec<Option<String>> = Vec::new();
    let mut i: usize = 0;
    while i < k.len()
        invariant
            i <= k.len(),
            out@.len() == i,
            forall|j: int| 0 <= j < i ==> opt_seq(#[trigger] out@[j]) == opt_seq(k@[j]),
        decreases k.len() - i,
    {
        out.push(crate::cdt::copy_opt(&k[i]));
        i = i + 1;
    }
    assert(kv(out) =~= kv(*k));
    out
}

/// One entry of a sorted map.
pub struct KeyedEntry<V> {
    pub key: Vec<Option<String>>,
    pub value: V,
}

/// Entries with strictly increasing keys.
pub struct SortedMap<V> {
    pub entries: Vec<KeyedEntry<V>>,
}

impl<V> SortedMap<V> {
    pub open spec fn key_at(&self, i: int) -> Seq<Option<Seq<char>>> {
        kv(self.entries@[i].key)
    }

    /// Keys strictly increase.
    pub open spec fn wf(&self) -> bool {
        forall|i: int, j: int| 0 <= i < j < self.entries@.len() ==> key_lt(#[trigger] self.key_at(i), #[trigger] self.key_at(j))
    }

    pub open spec fn has_key(&self, k: Seq<Option<Seq<char>>>) -> bool {
        exists|i: int| 0 <= i < self.entries@.len() && #[trigger] self.key_at(i) == k
    }

    /// What the map holds: each key's value.
    pub open spec fn view(&self) -> Map<Seq<Option<Seq<char>>>, V> {
        Map::new(
            |k: Seq<Option<Seq<char>>>| self.has_key(k),
            |k: Seq<Option<Seq<char>>>| self.entries@[choose|i: int| 0 <= i < self.entries@.len() && #[trigger] self.key_at(i) == k].value,
        )
    }

    pub proof fn lemma_unique(&self, i: int, j: int)
        requires
            self.wf(),
            0 <= i < self.entries@.len(),
            0 <= j < self.entries@.len(),
            self.key_at(i) == self.key_at(j),
        ensures
            i == j,
    {
        if i < j {
            lemma_key_lt_irreflexive(self.key_at(i));
            assert(key_lt(self.key_at(i), self.key_at(j)));
        } else if j < i {
            lemma_key_lt_irreflexive(self.key_at(i));
            assert(key_lt(self.key_at(j), self.key_at(i)));
        }
    }

    /// The value stored at entry `i` is the map's value of its key.
    pub proof fn lemma_view_at(&self, i: int)
        requires
            self.wf(),
            0 <= i < self.entries@.len(),
        ensures
            self.view().contains_key(self.key_at(i)),
            self.view()[self.key_at(i)] == self.entries@[i].value,
    {
        let k = self.key_at(i);
        assert(self.has_key(k));
        let j = choose|j: int| 0 <= j < self.entries@.len() && #[trigger] self.key_at(j) == k;
        self.lemma_unique(i, j);
    }

    pub fn new() -> (r: Self)
        ensures
            r.wf(),
            r.entries@.len() == 0,
            r.view() == Map::<Seq<Option<Seq<char>>>, V>::empty(),
    {
        let r = SortedMap { entries: Vec::new() };
        assert(r.view() =~= Map::<Seq<Option<Seq<char>>>, V>::empty());
        r
    }

    /// Index of the entry with `key`, if any.
    pub fn find(&self, key: &Vec<Option<String>>) -> (r: Option<usize>)
        requires
            self.wf(),
        ensures
            r matches Some(i) ==> i < self.entries@.len() && self.key_at(i as int) == kv(*key),
            r is None ==> !self.view().contains_key(kv(*key)),
    {
        let mut i: usize = 0;
        while i < self.entries.len()
            invariant
                i <= self.entries@.len(),
                forall|j: int| 0 <= j < i ==> #[trigger] self.key_at(j) != kv(*key),
            decreases self.entries.len() - i,
        {
            if key_equal(&self.entries[i].key, key) {
                return Some(i);
            }
            i = i + 1;
        }
        None
    }

    /// Adds an entry for a key the map does not have, keeping keys sorted.
    pub fn insert_new(&mut self, key: Vec<Option<String>>, value: V)
        requires
            old(self).wf(),
            !old(self).view().contains_key(kv(key)),
        ensures
            final(self).wf(),
            final(self).view() == old(self).view().insert(kv(key), value),
            final(self).entries@.len() == old(self).entries@.len() + 1,
    {
        let ghost k = kv(key);
        let ghost before = *self;
        let mut p: usize = 0;
        while p < self.entries.len() && !key_less(&key, &self.entries[p].key)
            invariant
                p <= self.entries@.len(),
                *self == before,
                k == kv(key),
                forall|j: int| 0 <= j < p ==> !key_lt(k, #[trigger] self.key_at(j)),
            decreases self.entries.len() - p,
        {
            p = p + 1;
        }
        proof {
            assert forall|j: int| 0 <= j < p implies key_lt(#[trigger] before.key_at(j), k) by {
                lemma_key_lt_total(before.key_at(j), k);
                assert(before.has_key(before.key_at(j)));
            }
            assert forall|j: int| p <= j < before.entries@.len() implies key_lt(k, #[trigger] before.key_at(j)) by {
                if j > p {
                    lemma_key_lt_transitive(k, before.key_at(p as int), before.key_at(j));
                }
            }
        }
        self.entries.insert(p, KeyedEntry { key, value });
        proof {
            assert forall|i: int| 0 <= i < self.entries@.len() implies #[trigger] self.key_at(i) == (if i < p {
                before.key_at(i)
            } else if i == p {
                k
            } else {
                before.key_at(i - 1)
            }) by {}
            assert forall|i: int, j: int| 0 <= i < j < self.entries@.len() implies key_lt(
                #[trigger] self.key_at(i),
                #[trigger] self.key_at(j),
            ) by {
                if i < p && j > p {
                    lemma_key_lt_transitive(before.key_at(i), k, before.key_at(j - 1));
                }
            }
            assert forall|q: Seq<Option<Seq<char>>>| #[trigger] self.has_key(q) <==> (before.has_key(q) || q == k) by {
                if self.has_key(q) {
                    let i = choose|i: int| 0 <= i < self.entries@.len() && #[trigger] self.key_at(i) == q;
                    if i < p {
                        assert(before.key_at(i) == q);
                    } else if i > p {
                        assert(before.key_at(i - 1) == q);
                    }
                }
                if before.has_key(q) {
                    let i = choose|i: int| 0 <= i < before.entries@.len() && #[trigger] before.key_at(i) == q;
                    if i < p {
                        assert(self.key_at(i) == q);
                    } else {
                        assert(self.key_at(i + 1) == q);
                    }
                }
                if q == k {
                    assert(self.key_at(p as int) == q);
                }
            }
            assert forall|q: Seq<Option<Seq<char>>>| #[trigger] self.view().contains_key(q) implies self.view()[q]
                == before.view().insert(k, value)[q] by {
                let i = choose|i: int| 0 <= i < self.entries@.len() && #[trigger] self.key_at(i) == q;
                self.lemma_view_at(i);
                if i < p {
                    before.lemma_view_at(i);
                } else if i > p {
                    before.lemma_view_at(i - 1);
                }
            }
            assert(self.view() =~= before.view().insert(k, value));
        }
    }

    /// Replaces the value of entry `i`.
    pub fn set_value(&mut self, i: usize, value: V)
        requires
            old(self).wf(),
            i < old(self).entries@.len(),
        ensures
            final(self).wf(),
            final(self).view() == old(self).view().insert(old(self).key_at(i as int), value),
            final(self).entries@.len() == old(self).entries@.len(),
            forall|j: int| 0 <= j < final(self).entries@.len() ==> #[trigger] final(self).key_at(j) == old(self).key_at(j),
    {
        let ghost before = *self;
        let ghost k = before.key_at(i as int);
        let mut entries = Vec::new();
        std::mem::swap(&mut entries, &mut self.entries);
        let mut e = entries.remove(i);
        e.value = value;
        entries.insert(i, e);
        self.entries = entries;
        proof {
            assert forall|j: int| 0 <= j < self.entries@.len() implies #[trigger] self.key_at(j) == before.key_at(j) by {}
            assert forall|q: Seq<Option<Seq<char>>>| #[trigger] self.has_key(q) <==> before.has_key(q) by {
                if self.has_key(q) {
                    let j = choose|j: int| 0 <= j < self.entries@.len() && #[trigger] self.key_at(j) == q;
                    assert(before.key_at(j) == q);
                }
                if before.has_key(q) {
                    let j = choose|j: int| 0 <= j < before.entries@.len() && #[trigger] before.key_at(j) == q;
                    assert(self.key_at(j) == q);
                }
            }
            assert forall|q: Seq<Option<Seq<char>>>| #[trigger] self.view().contains_key(q) implies self.view()[q]
                == before.view().insert(k, value)[q] by {
                let j = choose|j: int| 0 <= j < self.entries@.len() && #[trigger] self.key_at(j) == q;
                self.lemma_view_at(j);
                if j != i {
                    before.lemma_view_at(j);
                    if before.key_at(j) == k {
                        before.lemma_unique(j, i as int);
                    }
                }
            }
            assert(self.view() =~= before.view().insert(k, value));
        }
    }
}

} // verus!
