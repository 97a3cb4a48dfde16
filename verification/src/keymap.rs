//! A map from strings to values, kept sorted by key as `BTreeMap` keeps it.
use vstd::prelude::*;
use crate::text::chars_of;

verus! {

/// Strict lexicographic order of strings by code point, the order of `str`'s `Ord`.
pub open spec fn lex_less(a: Seq<char>, b: Seq<char>) -> bool
    decreases a.len(),
{
    if a.len() == 0 {
        b.len() > 0
    } else if b.len() == 0 {
        false
    } else if a[0] != b[0] {
        a[0] < b[0]
    } else {
        lex_less(a.drop_first(), b.drop_first())
    }
}

pub proof fn lemma_lex_irreflexive(a: Seq<char>)
    ensures
        !lex_less(a, a),
    decreases a.len(),
{
    if a.len() > 0 {
        lemma_lex_irreflexive(a.drop_first());
    }
}

pub proof fn lemma_lex_total(a: Seq<char>, b: Seq<char>)
    ensures
        a == b || lex_less(a, b) || lex_less(b, a),
        !(lex_less(a, b) && lex_less(b, a)),
    decreases a.len(),
{
    if a.len() > 0 && b.len() > 0 {
        if a[0] == b[0] {
            lemma_lex_total(a.drop_first(), b.drop_first());
            if a.drop_first() == b.drop_first() {
                assert(a == seq![a[0]] + a.drop_first());
                assert(b == seq![b[0]] + b.drop_first());
            }
        }
    } else if a.len() == 0 && b.len() == 0 {
        assert(a == b);
    }
}

pub proof fn lemma_lex_transitive(a: Seq<char>, b: Seq<char>, c: Seq<char>)
    requires
        lex_less(a, b),
        lex_less(b, c),
    ensures
        lex_less(a, c),
    decreases a.len(),
{
    if a.len() > 0 && b.len() > 0 && c.len() > 0 {
        if a[0] == b[0] && b[0] == c[0] {
            lemma_lex_transitive(a.drop_first(), b.drop_first(), c.drop_first());
        }
    }
}

/// Whether `a` comes strictly before `b` in `str` order.
pub fn text_less(a: &str, b: &str) -> (r: bool)
    ensures
        r == lex_less(a@, b@),
{
    let x = chars_of(a);
    let y = chars_of(b);
    let mut i: usize = 0;
    assert(x@.skip(0) == x@ && y@.skip(0) == y@);
    while i < x.len() && i < y.len() && x[i] == y[i]
        invariant
            i <= x@.len(),
            i <= y@.len(),
            x@ == a@,
            y@ == b@,
            lex_less(a@, b@) == lex_less(x@.skip(i as int), y@.skip(i as int)),
        decreases x@.len() - i,
    {
        proof {
            assert(x@.skip(i as int).drop_first() == x@.skip(i + 1));
            assert(y@.skip(i as int).drop_first() == y@.skip(i + 1));
        }
        i += 1;
    }
    if i == x.len() {
        i < y.len()
    } else if i == y.len() {
        false
    } else {
        proof {
            assert(x@.skip(i as int)[0] == x@[i as int]);
            assert(y@.skip(i as int)[0] == y@[i as int]);
        }
        x[i] < y[i]
    }
}

/// Whether two strings hold the same characters.
pub fn text_eq(a: &str, b: &str) -> (r: bool)
    ensures
        r == (a@ == b@),
{
    let x = chars_of(a);
    let y = chars_of(b);
    if x.len() != y.len() {
        return false;
    }
    let mut i: usize = 0;
    while i < x.len()
        invariant
            i <= x@.len() == y@.len(),
            x@ == a@,
            y@ == b@,
            forall|j: int| 0 <= j < i ==> x@[j] == y@[j],
        decreases x@.len() - i,
    {
        if x[i] != y[i] {
            return false;
        }
        i += 1;
    }
    assert(x@ == y@);
    true
}

pub open spec fn key_in<V>(s: Seq<(String, V)>, i: int) -> Seq<char> {
    s[i].0@
}

/// Keys strictly ascending, so none occurs twice.
pub open spec fn sorted_items<V>(s: Seq<(String, V)>) -> bool {
    forall|i: int, j: int| 0 <= i < j < s.len() ==> lex_less(#[trigger] key_in(s, i), #[trigger] key_in(s, j))
}

pub open spec fn has_key<V>(s: Seq<(String, V)>, k: Seq<char>) -> bool {
    exists|i: int| 0 <= i < s.len() && key_in(s, i) == k
}

/// The map of keys to values that a sequence of entries stands for.
pub open spec fn map_of<V>(s: Seq<(String, V)>) -> Map<Seq<char>, V> {
    Map::new(
        |k: Seq<char>| has_key(s, k),
        |k: Seq<char>| s[choose|i: int| 0 <= i < s.len() && key_in(s, i) == k].1,
    )
}

pub proof fn lemma_unique<V>(s: Seq<(String, V)>, i: int, j: int)
    requires
        sorted_items(s),
        0 <= i < s.len(),
        0 <= j < s.len(),
        key_in(s, i) == key_in(s, j),
    ensures
        i == j,
{
    if i < j {
        assert(lex_less(key_in(s, i), key_in(s, j)));
        lemma_lex_irreflexive(key_in(s, i));
    } else if j < i {
        assert(lex_less(key_in(s, j), key_in(s, i)));
        lemma_lex_irreflexive(key_in(s, i));
    }
}

pub proof fn lemma_map_at<V>(s: Seq<(String, V)>, i: int)
    requires
        sorted_items(s),
        0 <= i < s.len(),
    ensures
        map_of(s).contains_key(key_in(s, i)),
        map_of(s)[key_in(s, i)] == s[i].1,
{
    let k = key_in(s, i);
    assert(has_key(s, k));
    let j = choose|j: int| 0 <= j < s.len() && key_in(s, j) == k;
    lemma_unique(s, i, j);
}

/// With `s` sorted, a key that sorts between the entries before `i` and the
/// entry at `i` is not in `s`.
pub proof fn lemma_absent<V>(s: Seq<(String, V)>, i: int, k: Seq<char>)
    requires
        sorted_items(s),
        0 <= i <= s.len(),
        forall|j: int| 0 <= j < i ==> lex_less(#[trigger] key_in(s, j), k),
        i < s.len() ==> lex_less(k, key_in(s, i)),
    ensures
        !has_key(s, k),
{
    if has_key(s, k) {
        let j = choose|j: int| 0 <= j < s.len() && key_in(s, j) == k;
        if j < i {
            assert(lex_less(key_in(s, j), k));
            lemma_lex_irreflexive(k);
        } else {
            if j > i {
                assert(lex_less(key_in(s, i), key_in(s, j)));
                lemma_lex_transitive(k, key_in(s, i), key_in(s, j));
            }
            lemma_lex_irreflexive(k);
        }
    }
}

/// A value that can be copied into an equal one.
pub trait Duplicate: Sized {
    fn duplicate(&self) -> (r: Self)
        ensures
            r == *self,
    ;
}

impl Duplicate for String {
    fn duplicate(&self) -> (r: Self) {
        self.clone()
    }
}

/// A map keyed by strings whose entries stay sorted by key, each key once.
pub struct KeyMap<V> {
    entries: Vec<(String, V)>,
}

impl<V> KeyMap<V> {
    #[verifier::type_invariant]
    spec fn sorted(self) -> bool {
        sorted_items(self.entries@)
    }

    /// The entries in key order.
    pub closed spec fn items(self) -> Seq<(String, V)> {
        self.entries@
    }

    pub open spec fn key(self, i: int) -> Seq<char> {
        key_in(self.items(), i)
    }

    pub open spec fn value(self, i: int) -> V {
        self.items()[i].1
    }

    /// The map of keys to values.
    pub open spec fn view(self) -> Map<Seq<char>, V> {
        map_of(self.items())
    }

    /// The entries are sorted by key, each key once; every map keeps this.
    pub fn check_sorted(&self)
        ensures
            sorted_items(self.items()),
    {
        proof { use_type_invariant(self); }
    }

    pub fn new() -> (m: Self)
        ensures
            m.items().len() == 0,
            m.view() == Map::<Seq<char>, V>::empty(),
    {
        let m = KeyMap { entries: Vec::new() };
        assert(m.view() =~= Map::<Seq<char>, V>::empty());
        m
    }

    pub fn len(&self) -> (n: usize)
        ensures
            n == self.items().len(),
    {
        self.entries.len()
    }

    pub fn key_at(&self, i: usize) -> (k: &String)
        requires
            i < self.items().len(),
        ensures
            *k == self.items()[i as int].0,
    {
        &self.entries[i].0
    }

    pub fn value_at(&self, i: usize) -> (v: &V)
        requires
            i < self.items().len(),
        ensures
            *v == self.items()[i as int].1,
    {
        &self.entries[i].1
    }

    /// Where `key` is, or where it would go.
    fn position(&self, key: &str) -> (r: (usize, bool))
        ensures
            r.0 <= self.items().len(),
            forall|i: int| 0 <= i < r.0 ==> lex_less(#[trigger] key_in(self.items(), i), key@),
            r.1 ==> r.0 < self.items().len() && self.key(r.0 as int) == key@,
            !r.1 ==> r.0 < self.items().len() ==> lex_less(key@, self.key(r.0 as int)),
            !r.1 ==> !has_key(self.items(), key@),
    {
        proof { use_type_invariant(self); }
        let mut i: usize = 0;
        while i < self.entries.len()
            invariant
                i <= self.items().len(),
                sorted_items(self.items()),
                forall|j: int| 0 <= j < i ==> lex_less(#[trigger] key_in(self.items(), j), key@),
            decreases self.items().len() - i,
        {
            if !text_less(self.entries[i].0.as_str(), key) {
                let same = text_eq(self.entries[i].0.as_str(), key);
                proof {
                    lemma_lex_total(self.key(i as int), key@);
                    if !same {
                        lemma_absent(self.items(), i as int, key@);
                    }
                }
                return (i, same);
            }
            i += 1;
        }
        proof { lemma_absent(self.items(), i as int, key@); }
        (i, false)
    }

    pub fn get(&self, key: &str) -> (r: Option<&V>)
        ensures
            r is Some == self.view().contains_key(key@),
            r matches Some(v) ==> *v == self.view()[key@],
    {
        proof { use_type_invariant(self); }
        let (i, found) = self.position(key);
        if found {
            proof { lemma_map_at(self.items(), i as int); }
            Some(&self.entries[i].1)
        } else {
            None
        }
    }

    pub fn contains_key(&self, key: &str) -> (r: bool)
        ensures
            r == self.view().contains_key(key@),
    {
        self.get(key).is_some()
    }

    pub fn insert(&mut self, key: String, value: V)
        ensures
            final(self).view() == old(self).view().insert(key@, value),
    {
        proof { use_type_invariant(&*self); }
        let ghost s = self.items();
        let ghost k = key@;
        let (i, found) = self.position(key.as_str());
        let mut entries: Vec<(String, V)> = Vec::new();
        std::mem::swap(&mut entries, &mut self.entries);
        if found {
            entries.set(i, (key, value));
            proof {
                let t = entries@;
                assert(key_in(t, i as int) == k);
                assert forall|a: int| 0 <= a < t.len() && a != i implies #[trigger] t[a] == s[a] by {}
                assert forall|a: int, b: int| 0 <= a < b < t.len() implies lex_less(
                    #[trigger] key_in(t, a),
                    #[trigger] key_in(t, b),
                ) by {
                    assert(key_in(s, a) == key_in(t, a) || a == i);
                    assert(key_in(s, b) == key_in(t, b) || b == i);
                }
                assert forall|q: Seq<char>| #[trigger] map_of(t).contains_key(q) == map_of(s).insert(k, value).contains_key(q) by {
                    if has_key(t, q) {
                        let j = choose|j: int| 0 <= j < t.len() && key_in(t, j) == q;
                        assert(j == i || key_in(s, j) == q);
                    }
                    if has_key(s, q) {
                        let j = choose|j: int| 0 <= j < s.len() && key_in(s, j) == q;
                        assert(j == i || key_in(t, j) == q);
                    }
                }
                assert forall|q: Seq<char>| #[trigger] map_of(t).contains_key(q) implies map_of(t)[q] == map_of(s).insert(k, value)[q] by {
                    let j = choose|j: int| 0 <= j < t.len() && key_in(t, j) == q;
                    lemma_map_at(t, j);
                    if j != i {
                        lemma_map_at(s, j);
                        if q == k {
                            lemma_unique(t, i as int, j);
                        }
                    }
                }
                assert(map_of(t) =~= map_of(s).insert(k, value));
            }
        } else {
            entries.insert(i, (key, value));
            proof {
                let t = entries@;
                assert(key_in(t, i as int) == k);
                assert forall|a: int| 0 <= a < t.len() implies #[trigger] key_in(t, a) == if a < i {
                    key_in(s, a)
                } else if a == i {
                    k
                } else {
                    key_in(s, a - 1)
                } by {}
                assert forall|a: int, b: int| 0 <= a < b < t.len() implies lex_less(
                    #[trigger] key_in(t, a),
                    #[trigger] key_in(t, b),
                ) by {
                    if b == i {
                    } else if a == i {
                        if b > i + 1 {
                            assert(lex_less(key_in(s, i as int), key_in(s, b - 1)));
                            lemma_lex_transitive(k, key_in(s, i as int), key_in(s, b - 1));
                        }
                    } else if a < i && b > i {
                        assert(lex_less(key_in(s, a), k));
                        if b - 1 > i {
                            assert(lex_less(key_in(s, i as int), key_in(s, b - 1)));
                            lemma_lex_transitive(k, key_in(s, i as int), key_in(s, b - 1));
                        }
                        lemma_lex_transitive(key_in(s, a), k, key_in(s, b - 1));
                    } else if a > i {
                        assert(lex_less(key_in(s, a - 1), key_in(s, b - 1)));
                    } else {
                        assert(lex_less(key_in(s, a), key_in(s, b)));
                    }
                }
                assert forall|q: Seq<char>| #[trigger] map_of(t).contains_key(q) == map_of(s).insert(k, value).contains_key(q) by {
                    if has_key(t, q) {
                        let j = choose|j: int| 0 <= j < t.len() && key_in(t, j) == q;
                        if j < i {
                            assert(key_in(s, j) == q);
                        } else if j > i {
                            assert(key_in(s, j - 1) == q);
                        }
                    }
                    if has_key(s, q) {
                        let j = choose|j: int| 0 <= j < s.len() && key_in(s, j) == q;
                        if j < i {
                            assert(key_in(t, j) == q);
                        } else {
                            assert(key_in(t, j + 1) == q);
                        }
                    }
                }
                assert forall|q: Seq<char>| #[trigger] map_of(t).contains_key(q) implies map_of(t)[q] == map_of(s).insert(k, value)[q] by {
                    let j = choose|j: int| 0 <= j < t.len() && key_in(t, j) == q;
                    lemma_map_at(t, j);
                    if j < i {
                        lemma_map_at(s, j);
                        if q == k {
                            lemma_unique(t, i as int, j);
                        }
                    } else if j > i {
                        lemma_map_at(s, j - 1);
                        if q == k {
                            lemma_unique(t, j, i as int);
                        }
                    }
                }
                assert(map_of(t) =~= map_of(s).insert(k, value));
            }
        }
        self.entries = entries;
    }

    pub fn remove(&mut self, key: &str)
        ensures
            final(self).view() == old(self).view().remove(key@),
    {
        proof { use_type_invariant(&*self); }
        let ghost s = self.items();
        let ghost k = key@;
        let (i, found) = self.position(key);
        if found {
            let mut entries: Vec<(String, V)> = Vec::new();
            std::mem::swap(&mut entries, &mut self.entries);
            entries.remove(i);
            proof {
                let t = entries@;
                assert forall|a: int| 0 <= a < t.len() implies #[trigger] key_in(t, a) == if a < i {
                    key_in(s, a)
                } else {
                    key_in(s, a + 1)
                } by {}
                assert forall|a: int, b: int| 0 <= a < b < t.len() implies lex_less(
                    #[trigger] key_in(t, a),
                    #[trigger] key_in(t, b),
                ) by {
                    let a2 = if a < i { a } else { a + 1 };
                    let b2 = if b < i { b } else { b + 1 };
                    assert(lex_less(key_in(s, a2), key_in(s, b2)));
                }
                assert forall|q: Seq<char>| #[trigger] map_of(t).contains_key(q) == map_of(s).remove(k).contains_key(q) by {
                    if has_key(t, q) {
                        let j = choose|j: int| 0 <= j < t.len() && key_in(t, j) == q;
                        let j2 = if j < i { j } else { j + 1 };
                        assert(key_in(s, j2) == q);
                        if q == k {
                            lemma_unique(s, j2, i as int);
                        }
                    }
                    if has_key(s, q) && q != k {
                        let j = choose|j: int| 0 <= j < s.len() && key_in(s, j) == q;
                        if j < i {
                            assert(key_in(t, j) == q);
                        } else {
                            assert(j != i);
                            assert(key_in(t, j - 1) == q);
                        }
                    }
                }
                assert forall|q: Seq<char>| #[trigger] map_of(t).contains_key(q) implies map_of(t)[q] == map_of(s).remove(k)[q] by {
                    let j = choose|j: int| 0 <= j < t.len() && key_in(t, j) == q;
                    lemma_map_at(t, j);
                    let j2 = if j < i { j } else { j + 1 };
                    lemma_map_at(s, j2);
                }
                assert(map_of(t) =~= map_of(s).remove(k));
            }
            self.entries = entries;
        } else {
            assert(self.view() =~= old(self).view().remove(k));
        }
    }
}

impl<V: Duplicate> KeyMap<V> {
    /// An equal, separate map.
    pub fn duplicate(&self) -> (r: Self)
        ensures
            r.items() == self.items(),
            r@ == self@,
    {
        proof { use_type_invariant(self); }
        let mut entries: Vec<(String, V)> = Vec::new();
        let mut i: usize = 0;
        while i < self.entries.len()
            invariant
                i <= self.items().len(),
                entries@ == self.items().take(i as int),
            decreases self.items().len() - i,
        {
            let pair = (self.entries[i].0.clone(), self.entries[i].1.duplicate());
            entries.push(pair);
            assert(self.items().take(i + 1) == self.items().take(i as int).push(self.items()[i as int]));
            i += 1;
        }
        assert(self.items().take(i as int) == self.items());
        KeyMap { entries }
    }
}

} // verus!
